//! Reading a whole document: the frontmatter block, then the module, then one declaration per
//! top-level line, each with the block indented under it.
//!
//! A line at the top level opens a declaration, and the lines indented under it up to the next
//! top-level line are its block. Enumerations and data models take their block; every other
//! declaration is a single sentence, so the lines of a block under it are reported one by one
//! as indented where nothing may be.
use vstd::prelude::*;

use crate::ast::{
    ActionAst, DeclarationAst, DocumentAst, EnumValueAst, FrontmatterAst, ModuleAst, NamedIdAst,
    RoleAst,
};
use crate::blocks::{enum_spec, enum_value_view, fields_are, model_spec, module_spec, parse_enum, parse_model, parse_module};
use crate::constraint::{constraint_view, parse_relational_constraint, relational_constraint_spec};
use crate::diagnostic::{diagnostics_view, error_view, with_argument_view, Diagnostic, DiagnosticView, Span};
use crate::frontmatter::{read, read_holds};
use crate::outline::{declaration_kind, declaration_kind_spec, line_view, logical_lines, outline_of, DeclarationKind};
use crate::parser::{
    constraint_line_spec, expression_view, intent_line_spec, line_tokens, named_view, natural_header_spec,
    parse_action, parse_constraint, parse_field_intent, parse_policy, parse_recalculation, parse_role,
    parse_sum_derivation, policy_line_spec, recalculation_line_spec, sentence_body_spec, sum_line_spec,
    word_at, word_at_spec, Line,
};
use crate::relation::{parse_relation, relation_spec, relation_view};
use crate::scanner::{scan, scan_spec};
use crate::screen::{parse_screen, screen_spec, screen_view};
use crate::text::{byte_offsets, chars_of};

verus! {

/// What reading a document gives: the document, when its module could be read, and every
/// diagnostic in the order it was found.
pub struct ParseOutput {
    pub document: Option<DocumentAst>,
    pub diagnostics: Vec<Diagnostic>,
}

/// The index of the first top-level line at or after `i`, or the number of lines.
pub open spec fn block_end(lines: Seq<Line>, i: int) -> int
    decreases lines.len() - i,
{
    if i < 0 || i >= lines.len() {
        lines.len() as int
    } else if lines[i].indent == 0 {
        i
    } else {
        block_end(lines, i + 1)
    }
}

/// One step of the walk over the lines: an indented line where a declaration should open, or
/// a declaration's line with the block under it and the kind its shape names.
pub enum Step {
    Stray(Span),
    Head { head: int, end: int, kind: Option<DeclarationKind> },
}

pub open spec fn takes_block(kind: Option<DeclarationKind>) -> bool {
    kind == Some(DeclarationKind::Enum) || kind == Some(DeclarationKind::DataModel)
}

/// The step at line `c`.
pub open spec fn step_at(lines: Seq<Line>, c: int) -> Step {
    if lines[c].indent != 0 {
        Step::Stray(lines[c].span)
    } else {
        Step::Head {
            head: c,
            end: block_end(lines, c + 1),
            kind: declaration_kind_spec(line_tokens(lines[c])),
        }
    }
}

/// The line the walk goes on from after line `c`: the end of the block of an enumeration or a
/// data model, and otherwise the next line.
pub open spec fn next_after(lines: Seq<Line>, c: int) -> int {
    if lines[c].indent == 0 && takes_block(declaration_kind_spec(line_tokens(lines[c]))) && block_end(
        lines,
        c + 1,
    ) > c + 1 {
        block_end(lines, c + 1)
    } else {
        c + 1
    }
}

pub proof fn lemma_block_end(lines: Seq<Line>, i: int)
    requires
        0 <= i <= lines.len(),
    ensures
        i <= block_end(lines, i) <= lines.len(),
        forall|k: int| i <= k < block_end(lines, i) ==> lines[k].indent != 0,
    decreases lines.len() - i,
{
    if i < lines.len() && lines[i].indent != 0 {
        lemma_block_end(lines, i + 1);
    }
}

/// The steps of the walk from line `c` on.
pub open spec fn steps_from(lines: Seq<Line>, c: int) -> Seq<Step>
    decreases lines.len() - c,
    via steps_from_decreases
{
    if c < 0 || c >= lines.len() {
        Seq::empty()
    } else {
        seq![step_at(lines, c)] + steps_from(lines, next_after(lines, c))
    }
}

#[via_fn]
proof fn steps_from_decreases(lines: Seq<Line>, c: int) {
    if 0 <= c < lines.len() {
        lemma_block_end(lines, c + 1);
    }
}

pub open spec fn stray_error(span: Span) -> DiagnosticView {
    error_view("RSPDL-KO-SYN-002"@, "ko.syntax.unexpected_top_level_indent"@, span)
}

/// The report for a top-level line that opens no declaration.
pub open spec fn unknown_declaration(ts: Seq<crate::scanner::TokenView>, span: Span) -> DiagnosticView {
    match word_at_spec(ts, 0) {
        Some(w) => if w.len() > 0 && w[0] == '@' {
            with_argument_view(
                error_view("RSPDL-KO-SYN-003"@, "ko.syntax.domain_annotation_forbidden"@, span),
                "annotation"@,
                w,
            )
        } else {
            error_view("RSPDL-KO-SYN-003"@, "ko.syntax.unknown_top_level_declaration"@, span)
        },
        None => error_view("RSPDL-KO-SYN-003"@, "ko.syntax.unknown_top_level_declaration"@, span),
    }
}

/// Reading a declaration of `kind` from `line` and its block gives `r`, and the diagnostics
/// go from `before` to `after`; each case is the contract of the reader for that kind.
#[verifier::opaque]
pub open spec fn declaration_read(
    line: Line,
    body: Seq<Line>,
    kind: Option<DeclarationKind>,
    r: Result<DeclarationAst, Diagnostic>,
    before: Seq<DiagnosticView>,
    after: Seq<DiagnosticView>,
) -> bool {
    let ts = line_tokens(line);
    let span = line.span;
    match kind {
        Some(DeclarationKind::Enum) => after == before + enum_spec(line, body).0 && match enum_spec(line, body).1 {
            Ok((declaration, values)) => r matches Ok(DeclarationAst::Enum(x)) && named_view(x.declaration)
                == declaration && x.values@.map_values(|v: EnumValueAst| enum_value_view(v)) == values
                && x.span == span,
            Err(e) => r matches Err(d) && d@ == e,
        },
        Some(DeclarationKind::DataModel) => after == before + model_spec(line, body).0 && match model_spec(line, body).1 {
            Ok((declaration, fields)) => r matches Ok(DeclarationAst::DataModel(x)) && named_view(
                x.declaration,
            ) == declaration && fields_are(x.fields@, fields) && x.span == span,
            Err(e) => r matches Err(d) && d@ == e,
        },
        Some(DeclarationKind::Relation) => match relation_spec(ts, span, body.len()) {
            Ok((declaration, models, l)) => r matches Ok(DeclarationAst::Relation(x)) && relation_view(x) == (
                declaration,
                models,
                span,
            ) && after == before + l,
            Err(e) => r matches Err(d) && d@ == e && after == before,
        },
        Some(DeclarationKind::RelationalConstraint(k)) => after == before && match relational_constraint_spec(
            ts,
            span,
            body.len(),
            k,
        ) {
            Ok(c) => r matches Ok(DeclarationAst::RelationalConstraint(x)) && constraint_view(x.constraint) == c
                && x.span == span,
            Err(e) => r matches Err(d) && d@ == e,
        },
        Some(DeclarationKind::Screen) => match screen_spec(ts, span, body.len()) {
            Ok((declaration, model, fields, op, l)) => r matches Ok(DeclarationAst::Screen(s)) && screen_view(s)
                == (declaration, model, fields, op, span) && after == before + l,
            Err(e) => r matches Err(d) && d@ == e && after == before,
        },
        Some(DeclarationKind::SumDerivation) => after == before && match sentence_body_spec(
            body.len(),
            span,
            "sum_derivation"@,
        ) {
            Err(e) => r matches Err(d) && d@ == e,
            Ok(()) => match sum_line_spec(ts, span) {
                Ok((tm, tf, sm, sf)) => r matches Ok(DeclarationAst::SumDerivation(x)) && x.target_model@ == tm
                    && x.target_field@ == tf && x.source_model@ == sm && x.source_field@ == sf && x.span
                    == span,
                Err(e) => r matches Err(d) && d@ == e,
            },
        },
        Some(DeclarationKind::Recalculation) => after == before && match sentence_body_spec(
            body.len(),
            span,
            "recalculation"@,
        ) {
            Err(e) => r matches Err(d) && d@ == e,
            Ok(()) => match recalculation_line_spec(ts, span) {
                Ok((sm, sf, tm, tf)) => r matches Ok(DeclarationAst::Recalculation(x)) && x.source_model@ == sm
                    && x.source_field@ == sf && x.target_model@ == tm && x.target_field@ == tf && x.span
                    == span,
                Err(e) => r matches Err(d) && d@ == e,
            },
        },
        Some(DeclarationKind::FieldIntent) => after == before && match sentence_body_spec(
            body.len(),
            span,
            "field_intent"@,
        ) {
            Err(e) => r matches Err(d) && d@ == e,
            Ok(()) => match intent_line_spec(ts, span) {
                Ok((m, f, k)) => r matches Ok(DeclarationAst::FieldIntent(x)) && x.model@ == m && x.field@ == f
                    && x.intent == k && x.span == span,
                Err(e) => r matches Err(d) && d@ == e,
            },
        },
        Some(DeclarationKind::Constraint) => if body.len() > 0 {
            after == before && (r matches Err(d) && d@ == error_view(
                "RSPDL-KO-SYN-020"@,
                "ko.syntax.constraint_block_forbidden"@,
                span,
            ))
        } else {
            match constraint_line_spec(ts, span) {
                Ok((c, l)) => r matches Ok(DeclarationAst::Constraint(x)) && expression_view(x.expression) == c
                    && x.expression.span == span && x.declaration.name@.len() == 0 && x.declaration.id@.len()
                    == 0 && x.declaration.span == span && after == before + l,
                Err(e) => r matches Err(d) && d@ == e && after == before,
            }
        },
        Some(DeclarationKind::Policy) => if body.len() > 0 {
            after == before && (r matches Err(d) && d@ == error_view(
                "RSPDL-KO-SYN-030"@,
                "ko.syntax.policy_block_forbidden"@,
                span,
            ))
        } else {
            match policy_line_spec(ts, span) {
                Ok((p, l)) => r matches Ok(DeclarationAst::Policy(x)) && x.role@ == p.role && x.model@ == p.model
                    && x.field@ == p.field && x.action@ == p.action && x.effect == p.effect && x.span == span
                    && x.declaration.name@.len() == 0 && x.declaration.id@.len() == 0 && x.declaration.span
                    == span && after == before + l,
                Err(e) => r matches Err(d) && d@ == e && after == before,
            }
        },
        Some(DeclarationKind::Role) => match sentence_body_spec(body.len(), span, "role"@) {
            Err(e) => r matches Err(d) && d@ == e && after == before,
            Ok(()) => match natural_header_spec(ts, span, seq!["역할이다"@]) {
                Ok((v, l)) => r matches Ok(DeclarationAst::Role(x)) && named_view(x.declaration) == v
                    && x.span == span && after == before + l,
                Err(e) => r matches Err(d) && d@ == e && after == before,
            },
        },
        Some(DeclarationKind::Action) => match sentence_body_spec(body.len(), span, "action"@) {
            Err(e) => r matches Err(d) && d@ == e && after == before,
            Ok(()) => match natural_header_spec(ts, span, seq!["행동이다"@]) {
                Ok((v, l)) => r matches Ok(DeclarationAst::Action(x)) && named_view(x.declaration) == v
                    && x.span == span && after == before + l,
                Err(e) => r matches Err(d) && d@ == e && after == before,
            },
        },
        None => after == before && (r matches Err(d) && d@ == unknown_declaration(ts, span)),
    }
}

/// The reader of step `s` gives `r`, and the diagnostics go from `before` to `after`.
pub open spec fn step_reader(
    lines: Seq<Line>,
    s: Step,
    r: Result<DeclarationAst, Diagnostic>,
    before: Seq<DiagnosticView>,
    after: Seq<DiagnosticView>,
) -> bool {
    match s {
        Step::Stray(span) => after == before && (r matches Err(d) && d@ == stray_error(span)),
        Step::Head { head, end, kind } => 0 <= head < end <= lines.len() && declaration_read(
            lines[head],
            lines.subrange(head + 1, end),
            kind,
            r,
            before,
            after,
        ),
    }
}

/// Step `s` of the walk over `lines` gives `r`, and the diagnostics go from `before` to
/// `after`: a declaration that could not be read is reported after what its reader reported.
pub open spec fn step_read(
    lines: Seq<Line>,
    s: Step,
    r: Result<DeclarationAst, Diagnostic>,
    before: Seq<DiagnosticView>,
    after: Seq<DiagnosticView>,
) -> bool {
    match r {
        Ok(_) => step_reader(lines, s, r, before, after),
        Err(d) => after.len() > 0 && after.last() == d@ && step_reader(lines, s, r, before, after.drop_last()),
    }
}

/// The declarations that were read, in order.
pub open spec fn read_declarations(rs: Seq<Result<DeclarationAst, Diagnostic>>) -> Seq<DeclarationAst>
    decreases rs.len(),
{
    if rs.len() == 0 {
        Seq::empty()
    } else {
        read_declarations(rs.drop_last()) + match rs.last() {
            Ok(d) => seq![d],
            Err(_) => Seq::empty(),
        }
    }
}

/// Walking `lines` from line `start` gives `declarations`, and the diagnostics go from
/// `before` to `after`, step by step.
pub open spec fn walk_read(
    lines: Seq<Line>,
    start: int,
    declarations: Seq<DeclarationAst>,
    before: Seq<DiagnosticView>,
    after: Seq<DiagnosticView>,
) -> bool {
    exists|rs: Seq<Result<DeclarationAst, Diagnostic>>, snaps: Seq<Seq<DiagnosticView>>|
        {
            &&& rs.len() == steps_from(lines, start).len()
            &&& snaps.len() == rs.len() + 1
            &&& snaps[0] == before
            &&& snaps.last() == after
            &&& forall|j: int|
                0 <= j < rs.len() ==> step_read(lines, #[trigger] steps_from(lines, start)[j], rs[j], snaps[j], snaps[j + 1])
            &&& declarations == read_declarations(rs)
        }
}

/// Reading the lines `lines` of a text, after `before` was reported, with the frontmatter
/// `frontmatter`, gives `out`: the module is the frontmatter's when it names one and the first
/// line's otherwise.
pub open spec fn lines_read(frontmatter: Option<FrontmatterAst>, lines: Seq<Line>, before: Seq<DiagnosticView>, out: ParseOutput) -> bool {
    let named = match frontmatter {
        Some(f) => f.module,
        None => None,
    };
    match named {
        Some(declaration) => out.document matches Some(doc) && doc.frontmatter == frontmatter
            && doc.module.declaration == declaration && doc.module.span == declaration.span && walk_read(
            lines,
            0,
            doc.declarations@,
            before,
            diagnostics_view(out.diagnostics@),
        ),
        None => if lines.len() == 0 {
            out.document is None && diagnostics_view(out.diagnostics@) == before + seq![
                error_view("RSPDL-KO-SYN-001"@, "ko.syntax.module_required"@, Span { start: 0, end: 0 }),
            ]
        } else {
            match module_spec(lines[0]) {
                Err(e) => out.document is None && diagnostics_view(out.diagnostics@) == before + seq![e],
                Ok(v) => out.document matches Some(doc) && doc.frontmatter == frontmatter && named_view(
                    doc.module.declaration,
                ) == v && doc.module.span == lines[0].span && walk_read(
                    lines,
                    1,
                    doc.declarations@,
                    before,
                    diagnostics_view(out.diagnostics@),
                ),
            }
        },
    }
}

/// Reading the text `text`, with the frontmatter already read from it and `before` reported,
/// gives `out`: the text is scanned, split into lines, and the lines read.
pub open spec fn document_read(frontmatter: Option<FrontmatterAst>, text: Seq<char>, before: Seq<DiagnosticView>, out: ParseOutput) -> bool {
    let scanned = scan_spec(text, byte_offsets(text));
    exists|lines: Seq<Line>|
        lines.map_values(|l: Line| line_view(l)) == outline_of(scanned.tokens).lines && lines_read(
            frontmatter,
            lines,
            before + scanned.diagnostics,
            out,
        )
}

fn copy_named(n: &NamedIdAst) -> (c: NamedIdAst)
    ensures
        c == *n,
{
    NamedIdAst { name: n.name.clone(), id: n.id.clone(), span: n.span }
}

fn starts_with_at(w: &str) -> (b: bool)
    ensures
        b == (w@.len() > 0 && w@[0] == '@'),
{
    let cs = chars_of(w);
    cs.len() > 0 && cs[0] == '@'
}

/// Reads the declaration of `kind` that `line` opens, with `body` indented under it.
pub fn read_declaration(
    line: &Line,
    body: &[Line],
    kind: Option<DeclarationKind>,
    diagnostics: &mut Vec<Diagnostic>,
) -> (r: Result<DeclarationAst, Diagnostic>)
    ensures
        declaration_read(
            *line,
            body@,
            kind,
            r,
            diagnostics_view(old(diagnostics)@),
            diagnostics_view(final(diagnostics)@),
        ),
{
    proof {
        reveal(declaration_read);
        reveal_strlit("sum_derivation");
        reveal_strlit("recalculation");
        reveal_strlit("field_intent");
        reveal_strlit("role");
        reveal_strlit("action");
    }
    match kind {
        Some(DeclarationKind::Enum) => match parse_enum(line, body, diagnostics) {
            Ok(x) => Ok(DeclarationAst::Enum(x)),
            Err(e) => Err(e),
        },
        Some(DeclarationKind::DataModel) => match parse_model(line, body, diagnostics) {
            Ok(x) => Ok(DeclarationAst::DataModel(x)),
            Err(e) => Err(e),
        },
        Some(DeclarationKind::Relation) => match parse_relation(line, body, diagnostics) {
            Ok(x) => Ok(DeclarationAst::Relation(x)),
            Err(e) => Err(e),
        },
        Some(DeclarationKind::RelationalConstraint(k)) => match parse_relational_constraint(line, body, k) {
            Ok(x) => Ok(DeclarationAst::RelationalConstraint(x)),
            Err(e) => Err(e),
        },
        Some(DeclarationKind::Screen) => match parse_screen(line, body, diagnostics) {
            Ok(x) => Ok(DeclarationAst::Screen(x)),
            Err(e) => Err(e),
        },
        Some(DeclarationKind::SumDerivation) => match parse_sum_derivation(line, body) {
            Ok(x) => Ok(DeclarationAst::SumDerivation(x)),
            Err(e) => Err(e),
        },
        Some(DeclarationKind::Recalculation) => match parse_recalculation(line, body) {
            Ok(x) => Ok(DeclarationAst::Recalculation(x)),
            Err(e) => Err(e),
        },
        Some(DeclarationKind::FieldIntent) => match parse_field_intent(line, body) {
            Ok(x) => Ok(DeclarationAst::FieldIntent(x)),
            Err(e) => Err(e),
        },
        Some(DeclarationKind::Constraint) => match parse_constraint(line, body, diagnostics) {
            Ok(x) => Ok(DeclarationAst::Constraint(x)),
            Err(e) => Err(e),
        },
        Some(DeclarationKind::Role) => match parse_role(line, body, diagnostics) {
            Ok(declaration) => Ok(DeclarationAst::Role(RoleAst { declaration, span: line.span })),
            Err(e) => Err(e),
        },
        Some(DeclarationKind::Action) => match parse_action(line, body, diagnostics) {
            Ok(declaration) => Ok(DeclarationAst::Action(ActionAst { declaration, span: line.span })),
            Err(e) => Err(e),
        },
        Some(DeclarationKind::Policy) => match parse_policy(line, body, diagnostics) {
            Ok(x) => Ok(DeclarationAst::Policy(x)),
            Err(e) => Err(e),
        },
        None => match word_at(line, 0) {
            Some(w) => if starts_with_at(w) {
                Err(
                    Diagnostic::error("RSPDL-KO-SYN-003", "ko.syntax.domain_annotation_forbidden", line.span)
                        .with_argument("annotation", w),
                )
            } else {
                Err(Diagnostic::error("RSPDL-KO-SYN-003", "ko.syntax.unknown_top_level_declaration", line.span))
            },
            None => Err(Diagnostic::error("RSPDL-KO-SYN-003", "ko.syntax.unknown_top_level_declaration", line.span)),
        },
    }
}

/// The index of the first top-level line at or after `from`, or the number of lines.
fn find_block_end(lines: &Vec<Line>, from: usize) -> (end: usize)
    requires
        from <= lines@.len(),
    ensures
        end as int == block_end(lines@, from as int),
        from <= end <= lines@.len(),
{
    let mut end = from;
    while end < lines.len() && lines[end].indent != 0
        invariant
            from <= end <= lines@.len(),
            block_end(lines@, from as int) == block_end(lines@, end as int),
        decreases lines@.len() - end,
    {
        end = end + 1;
    }
    end
}

/// Reads the step at line `c`: the next line to go on from, and what the step gives.
fn read_step(lines: &Vec<Line>, c: usize, diagnostics: &mut Vec<Diagnostic>) -> (out: (usize, Result<DeclarationAst, Diagnostic>))
    requires
        c < lines@.len(),
    ensures
        out.0 as int == next_after(lines@, c as int),
        step_reader(
            lines@,
            step_at(lines@, c as int),
            out.1,
            diagnostics_view(old(diagnostics)@),
            diagnostics_view(final(diagnostics)@),
        ),
{
    let n = lines.len();
    let line = &lines[c];
    if line.indent != 0 {
        return (c + 1, Err(Diagnostic::error("RSPDL-KO-SYN-002", "ko.syntax.unexpected_top_level_indent", line.span)));
    }
    let end = find_block_end(lines, c + 1);
    let body = vstd::slice::slice_subrange(lines.as_slice(), c + 1, end);
    let kind = declaration_kind(line);
    proof {
        assert(body@ =~= lines@.subrange(c + 1, end as int));
    }
    let result = read_declaration(line, body, kind, diagnostics);
    let block = match kind {
        Some(DeclarationKind::Enum) => true,
        Some(DeclarationKind::DataModel) => true,
        _ => false,
    };
    if block && end > c + 1 {
        (end, result)
    } else {
        (c + 1, result)
    }
}

/// Reads the declarations of `lines` from line `start` on, adding what it reports to
/// `diagnostics`.
fn read_lines(lines: &Vec<Line>, start: usize, diagnostics: &mut Vec<Diagnostic>) -> (declarations: Vec<DeclarationAst>)
    requires
        start <= lines@.len(),
    ensures
        walk_read(
            lines@,
            start as int,
            declarations@,
            diagnostics_view(old(diagnostics)@),
            diagnostics_view(final(diagnostics)@),
        ),
{
    let ghost all = lines@;
    let ghost first = diagnostics_view(diagnostics@);
    let ghost mut done: Seq<Step> = Seq::empty();
    let ghost mut rs: Seq<Result<DeclarationAst, Diagnostic>> = Seq::empty();
    let ghost mut snaps: Seq<Seq<DiagnosticView>> = seq![first];
    let mut declarations: Vec<DeclarationAst> = Vec::new();
    let mut c = start;
    proof {
        assert(done + steps_from(all, start as int) =~= steps_from(all, start as int));
    }
    while c < lines.len()
        invariant
            all == lines@,
            start <= c <= lines@.len(),
            first == diagnostics_view(old(diagnostics)@),
            done + steps_from(all, c as int) == steps_from(all, start as int),
            rs.len() == done.len(),
            snaps.len() == rs.len() + 1,
            snaps[0] == first,
            snaps.last() == diagnostics_view(diagnostics@),
            forall|j: int| 0 <= j < rs.len() ==> step_read(all, #[trigger] done[j], rs[j], snaps[j], snaps[j + 1]),
            declarations@ == read_declarations(rs),
        decreases lines@.len() - c,
    {
        let ghost before = diagnostics_view(diagnostics@);
        let ghost c0 = c as int;
        proof {
            lemma_block_end(all, c0 + 1);
        }
        let (next, result) = read_step(lines, c, diagnostics);
        let ghost mid = diagnostics_view(diagnostics@);
        let ghost r = result;
        match result {
            Ok(declaration) => {
                declarations.push(declaration);
            },
            Err(e) => {
                diagnostics.push(e);
            },
        }
        c = next;
        proof {
            let after = diagnostics_view(diagnostics@);
            let step = step_at(all, c0);
            if r is Err {
                assert(after.drop_last() =~= mid);
            } else {
                assert(after =~= mid);
            }
            assert(step_read(all, step, r, before, after));
            let old_rs = rs;
            let old_snaps = snaps;
            let old_done = done;
            done = done.push(step);
            rs = rs.push(r);
            snaps = snaps.push(after);
            assert(steps_from(all, c0) == seq![step] + steps_from(all, c as int));
            assert(done + steps_from(all, c as int) =~= old_done + (seq![step] + steps_from(all, c as int)));
            assert forall|j: int| 0 <= j < rs.len() implies step_read(all, #[trigger] done[j], rs[j], snaps[j], snaps[j + 1]) by {
                if j < old_rs.len() {
                    assert(done[j] == old_done[j]);
                    assert(snaps[j] == old_snaps[j]);
                    assert(snaps[j + 1] == old_snaps[j + 1]);
                }
            }
            assert(rs.drop_last() =~= old_rs);
        }
    }
    proof {
        assert(steps_from(all, c as int) =~= Seq::<Step>::empty());
        assert(done =~= steps_from(all, start as int));
        assert(forall|j: int| 0 <= j < rs.len() ==> step_read(all, #[trigger] steps_from(all, start as int)[j], rs[j], snaps[j], snaps[j + 1]));
    }
    declarations
}

/// Reads the document in `text`, whose frontmatter block was already read as `frontmatter`
/// and blanked out, after `diagnostics` were reported.
pub fn parse_with_frontmatter(frontmatter: Option<FrontmatterAst>, text: &str, diagnostics: Vec<Diagnostic>) -> (out:
    ParseOutput)
    ensures
        document_read(frontmatter, text@, diagnostics_view(diagnostics@), out),
{
    let ghost before = diagnostics_view(diagnostics@);
    let scanned = scan(text);
    let ghost lexed = scan_spec(text@, byte_offsets(text@));
    let mut all = diagnostics;
    let mut scan_diagnostics = scanned.diagnostics;
    all.append(&mut scan_diagnostics);
    let tokens = scanned.tokens.as_slice();
    let lines = logical_lines(tokens);
    proof {
        assert(diagnostics_view(all@) =~= before + lexed.diagnostics);
        assert(crate::declarations::tokens_of(tokens) =~= lexed.tokens);
    }
    let ghost start = diagnostics_view(all@);
    let named = match &frontmatter {
        Some(f) => match &f.module {
            Some(d) => Some(copy_named(d)),
            None => None,
        },
        None => None,
    };
    let out = match named {
        Some(declaration) => {
            let span = declaration.span;
            let declarations = read_lines(&lines, 0, &mut all);
            ParseOutput {
                document: Some(DocumentAst { frontmatter, module: ModuleAst { declaration, span }, declarations }),
                diagnostics: all,
            }
        },
        None => {
            if lines.len() == 0 {
                all.push(Diagnostic::error("RSPDL-KO-SYN-001", "ko.syntax.module_required", Span::default()));
                proof {
                    assert(diagnostics_view(all@) =~= start + seq![
                        error_view("RSPDL-KO-SYN-001"@, "ko.syntax.module_required"@, Span { start: 0, end: 0 }),
                    ]);
                }
                ParseOutput { document: None, diagnostics: all }
            } else {
                match parse_module(&lines[0], &mut all) {
                    Err(e) => {
                        all.push(e);
                        proof {
                            assert(diagnostics_view(all@) =~= start + seq![e@]);
                        }
                        ParseOutput { document: None, diagnostics: all }
                    },
                    Ok(module) => {
                        let declarations = read_lines(&lines, 1, &mut all);
                        ParseOutput { document: Some(DocumentAst { frontmatter, module, declarations }), diagnostics: all }
                    },
                }
            }
        },
    };
    proof {
        assert(lines_read(frontmatter, lines@, before + lexed.diagnostics, out));
    }
    out
}

/// Reading `source` gives `out`: its frontmatter block is read, then the text with the block
/// blanked out.
pub open spec fn parse_holds(source: Seq<char>, out: ParseOutput) -> bool {
    exists|frontmatter: Option<FrontmatterAst>, text: Seq<char>, reported: Seq<DiagnosticView>|
        read_holds(source, frontmatter, text, reported) && document_read(frontmatter, text, reported, out)
}

/// Reads a document: its frontmatter block, then the text with the block blanked out.
pub fn parse(source: &str) -> (out: ParseOutput)
    ensures
        parse_holds(source@, out),
{
    let block = read(source);
    let text: &str = match &block.source {
        std::borrow::Cow::Borrowed(b) => b,
        std::borrow::Cow::Owned(o) => o.as_str(),
    };
    let ghost fm = block.frontmatter;
    let ghost reported = diagnostics_view(block.diagnostics@);
    let out = parse_with_frontmatter(block.frontmatter, text, block.diagnostics);
    proof {
        assert(read_holds(source@, fm, text@, reported));
    }
    out
}

} // verus!
