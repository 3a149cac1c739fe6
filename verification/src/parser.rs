//! Sentence readers: one logical line, its period, the references with their particles, the
//! `name(id)` of a declaration and the type written after a field, and the lint that prefers
//! the particle matching the last syllable of a name.
use vstd::prelude::*;
use vstd::string::StringExecFns;

use crate::ast::{
    ConstraintAst, ConstraintExpressionAst, FieldIntentAst, FieldIntentKindAst, NamedIdAst,
    OperandAst, PolicyAst, PolicyEffectAst, RecalculationAst, RelationOperatorAst,
    SumDerivationAst, TypeReferenceAst,
};
use crate::creation::{marker_views, particles, possessive, possessive_markers};
use crate::cursor::{
    comparison_spec, cursor_error, cursor_ref_spec, expect_word_spec,
    literal_view, next_word_spec, BodyCursor, LiteralView,
};
use crate::declarations::tokens_of;
use crate::diagnostic::{
    diagnostics_view, error_view, push_diagnostic, span_join, with_argument_view, Diagnostic,
    DiagnosticView, Severity, Span,
};
use crate::declarations::{is_name_part, join_names, joined};
use crate::render::is_hangul_syllable;
use crate::scanner::{Token, TokenKind, TokenKindView, TokenView};
use crate::text::{chars_of, str_eq};

verus! {

/// One logical line: its indentation level, its tokens without layout tokens, and its span.
#[derive(Clone, Debug)]
pub struct Line {
    pub indent: usize,
    pub tokens: Vec<Token>,
    pub span: Span,
}

/// The tokens of a line, as values.
pub open spec fn line_tokens(line: Line) -> Seq<TokenView> {
    line.tokens@.map_values(|t: Token| t@)
}

/// The tokens of a sentence without its closing period, or the diagnostic for a missing one.
pub open spec fn sentence_spec(ts: Seq<TokenView>, span: Span) -> Result<Seq<TokenView>, DiagnosticView> {
    if ts.len() > 0 && ts.last().kind is Period {
        Ok(ts.drop_last())
    } else {
        Err(error_view("RSPDL-KO-SYN-040"@, "ko.syntax.period_required"@, span))
    }
}

/// Requires the closing period and hands back the tokens before it.
pub fn sentence_tokens(line: &Line) -> (r: Result<&[Token], Diagnostic>)
    ensures
        match sentence_spec(line_tokens(*line), line.span) {
            Ok(ts) => r matches Ok(t) && tokens_of(t) == ts,
            Err(e) => r matches Err(d) && d@ == e,
        },
{
    let n = line.tokens.len();
    let ghost ts = line_tokens(*line);
    if n > 0 {
        assert(ts[n - 1] == line.tokens@[n - 1]@);
        match &line.tokens[n - 1].kind {
            TokenKind::Period => {
                let all = line.tokens.as_slice();
                let t = vstd::slice::slice_subrange(all, 0, n - 1);
                proof {
                    assert(tokens_of(t) =~= ts.drop_last());
                }
                return Ok(t);
            },
            _ => {},
        }
    }
    Err(Diagnostic::error("RSPDL-KO-SYN-040", "ko.syntax.period_required", span_of(line)))
}

fn span_of(line: &Line) -> (s: Span)
    ensures
        s == line.span,
{
    line.span
}

/// The warning for a particle that does not fit the last syllable of `name`: after a final
/// consonant the first form, otherwise the second. Names that do not end in a Hangul syllable
/// are not linted.
pub open spec fn lint_spec(
    name: Seq<char>,
    actual: Seq<char>,
    consonant: Seq<char>,
    vowel: Seq<char>,
    span: Span,
) -> Seq<DiagnosticView> {
    if name.len() > 0 && is_hangul_syllable(name.last()) {
        let expected = if (name.last() as int - 0xAC00) % 28 == 0 {
            vowel
        } else {
            consonant
        };
        if actual != expected {
            seq![
                with_argument_view(
                    with_argument_view(
                        with_argument_view(
                            DiagnosticView {
                                severity: Severity::Warning,
                                ..error_view("RSPDL-KO-W001"@, "ko.lint.marker_preference"@, span)
                            },
                            "name"@,
                            name,
                        ),
                        "actual"@,
                        actual,
                    ),
                    "expected"@,
                    expected,
                ),
            ]
        } else {
            Seq::empty()
        }
    } else {
        Seq::empty()
    }
}

/// Reports a particle that does not fit the last syllable of `name`.
pub fn lint_marker(
    name: &str,
    actual: &str,
    consonant: &str,
    vowel: &str,
    span: Span,
    diagnostics: &mut Vec<Diagnostic>,
)
    ensures
        diagnostics_view(final(diagnostics)@) == diagnostics_view(old(diagnostics)@) + lint_spec(
            name@,
            actual@,
            consonant@,
            vowel@,
            span,
        ),
{
    let c = chars_of(name);
    if c.len() == 0 {
        proof {
            assert(diagnostics_view(diagnostics@) + Seq::<DiagnosticView>::empty() =~= diagnostics_view(diagnostics@));
        }
        return;
    }
    let last = c[c.len() - 1];
    if !('가' <= last && last <= '힣') {
        proof {
            assert(diagnostics_view(diagnostics@) + Seq::<DiagnosticView>::empty() =~= diagnostics_view(diagnostics@));
        }
        return;
    }
    let code: u32 = last as u32;
    let expected = if (code - 0xAC00u32) % 28 == 0 {
        vowel
    } else {
        consonant
    };
    if str_eq(actual, expected) {
        proof {
            assert(diagnostics_view(diagnostics@) + Seq::<DiagnosticView>::empty() =~= diagnostics_view(diagnostics@));
        }
        return;
    }
    let ghost before = diagnostics_view(diagnostics@);
    let d = Diagnostic::warning("RSPDL-KO-W001", "ko.lint.marker_preference", span).with_argument(
        "name",
        name,
    ).with_argument("actual", actual).with_argument("expected", expected);
    push_diagnostic(diagnostics, d);
    proof {
        assert(before.push(d@) =~= before + seq![d@]);
    }
}

/// A declaration that has no name or stable ID of its own: the span of its sentence.
pub fn anonymous_declaration(span: Span) -> (d: NamedIdAst)
    ensures
        d.name@ == Seq::<char>::empty(),
        d.id@ == Seq::<char>::empty(),
        d.span == span,
{
    NamedIdAst { name: String::new(), id: String::new(), span }
}

/// One side of a comparison.
pub enum OperandView {
    Field(Seq<char>),
    Literal(LiteralView),
}

pub open spec fn operand_view(o: OperandAst) -> OperandView {
    match o {
        OperandAst::Field(f) => OperandView::Field(f@),
        OperandAst::Literal(l) => OperandView::Literal(literal_view(l)),
    }
}

/// What a constraint sentence compares.
pub struct ComparisonView {
    pub model: Seq<char>,
    pub left: OperandView,
    pub operator: RelationOperatorAst,
    pub right: OperandView,
}

pub open spec fn field_operator_spec(w: Option<Seq<char>>) -> Option<RelationOperatorAst> {
    if w == Some("같아야"@) {
        Some(RelationOperatorAst::Equal)
    } else if w == Some("달라야"@) {
        Some(RelationOperatorAst::NotEqual)
    } else {
        None
    }
}

/// `expected` ends the sentence at `i`.
pub open spec fn closing_spec(ts: Seq<TokenView>, i: int, span: Span, expected: Seq<char>) -> Result<
    (),
    DiagnosticView,
> {
    match expect_word_spec(ts, i, span, expected) {
        Err(e) => Err(e),
        Ok(end) => if end == ts.len() {
            Ok(())
        } else {
            Err(cursor_error(ts, end, span, "ko.syntax.trailing_expression"@))
        },
    }
}

pub open spec fn left_markers() -> Seq<Seq<char>> {
    seq!["와"@, "과"@, "은"@, "는"@]
}

pub open spec fn topic_markers() -> Seq<Seq<char>> {
    seq!["은"@, "는"@]
}

/// `model의 left과 right은 같아야|달라야 한다.` or `model의 left은 <comparison> 한다.`, read from
/// the tokens before the period; the lints of its particles come with it.
pub open spec fn comparison_sentence_spec(ts: Seq<TokenView>, span: Span) -> Result<
    (ComparisonView, Seq<DiagnosticView>),
    DiagnosticView,
> {
    match cursor_ref_spec(ts, 0, span, possessive()) {
        Err(e) => Err(e),
        Ok((a, model, _)) => match cursor_ref_spec(ts, a, span, left_markers()) {
            Err(e) => Err(e),
            Ok((b, left, marker)) => if marker == "와"@ || marker == "과"@ {
                match cursor_ref_spec(ts, b, span, topic_markers()) {
                    Err(e) => Err(e),
                    Ok((c, right, right_marker)) => {
                        let (d, w) = next_word_spec(ts, c);
                        match field_operator_spec(w) {
                            None => Err(cursor_error(ts, d, span, "ko.syntax.field_comparison_invalid"@)),
                            Some(op) => match closing_spec(ts, d, span, "한다"@) {
                                Err(e) => Err(e),
                                Ok(()) => Ok(
                                    (
                                        ComparisonView {
                                            model,
                                            left: OperandView::Field(left),
                                            operator: op,
                                            right: OperandView::Field(right),
                                        },
                                        lint_spec(left, marker, "과"@, "와"@, span) + lint_spec(
                                            right,
                                            right_marker,
                                            "은"@,
                                            "는"@,
                                            span,
                                        ),
                                    ),
                                ),
                            },
                        }
                    },
                }
            } else {
                match comparison_spec(ts, b, span) {
                    Err(e) => Err(e),
                    Ok((c, op, lit)) => match closing_spec(ts, c, span, "한다"@) {
                        Err(e) => Err(e),
                        Ok(()) => Ok(
                            (
                                ComparisonView {
                                    model,
                                    left: OperandView::Field(left),
                                    operator: op,
                                    right: OperandView::Literal(lit),
                                },
                                lint_spec(left, marker, "은"@, "는"@, span),
                            ),
                        ),
                    },
                }
            },
        },
    }
}

pub open spec fn expression_view(e: ConstraintExpressionAst) -> ComparisonView {
    ComparisonView {
        model: e.model@,
        left: operand_view(e.left),
        operator: e.operator,
        right: operand_view(e.right),
    }
}

/// The comparison a constraint line states, with the diagnostics reading it adds.
pub open spec fn constraint_line_spec(ts: Seq<TokenView>, span: Span) -> Result<
    (ComparisonView, Seq<DiagnosticView>),
    DiagnosticView,
> {
    match sentence_spec(ts, span) {
        Err(e) => Err(e),
        Ok(body) => comparison_sentence_spec(body, span),
    }
}

proof fn lemma_ends_in_own_suffix(base: Seq<char>, m: Seq<char>)
    requires
        base.len() > 0,
    ensures
        crate::creation::ends_in(base + m, m),
        (base + m).subrange(0, (base + m).len() - m.len()) == base,
{
    assert((base + m).subrange((base + m).len() - m.len(), (base + m).len() as int) =~= m);
    assert((base + m).subrange(0, (base + m).len() - m.len()) =~= base);
}

proof fn lemma_not_ends_in_other(v: Seq<char>, m: Seq<char>)
    requires
        v.len() > 0,
        m.len() == 1,
        v.last() != m[0],
    ensures
        !crate::creation::ends_in(v, m),
{
    if crate::creation::ends_in(v, m) {
        assert(v.subrange(v.len() - 1, v.len() as int)[0] == v.last());
    }
}

/// `모델의 필드은|는 n 보다 커야|작아야 한다.` states that the field is greater, or less, than
/// the integer `n`: `커야` gives greater than and `작아야` less than.
pub proof fn integer_order_constraints_read_their_direction(
    ts: Seq<TokenView>,
    span: Span,
    model: Seq<char>,
    field: Seq<char>,
    topic: Seq<char>,
    n: Seq<char>,
    w: Seq<char>,
)
    requires
        ts.len() == 6,
        model.len() > 0,
        field.len() > 0,
        topic == "은"@ || topic == "는"@,
        crate::cursor::is_integer_spec(n),
        w == "커야"@ || w == "작아야"@,
        ts[0].kind == TokenKindView::Word(model + "의"@),
        ts[1].kind == TokenKindView::Word(field + topic),
        ts[2].kind == TokenKindView::Word(n),
        ts[3].kind == TokenKindView::Word("보다"@),
        ts[4].kind == TokenKindView::Word(w),
        ts[5].kind == TokenKindView::Word("한다"@),
    ensures
        comparison_sentence_spec(ts, span) matches Ok((c, _)) && c == (ComparisonView {
            model,
            left: OperandView::Field(field),
            operator: crate::cursor::order_operator(w),
            right: OperandView::Literal(LiteralView::Integer(n)),
        }),
{
    reveal_strlit("의");
    reveal_strlit("은");
    reveal_strlit("는");
    reveal_strlit("와");
    reveal_strlit("과");
    reveal_strlit("한다");
    let ms0 = possessive();
    lemma_ends_in_own_suffix(model, "의"@);
    assert(crate::creation::first_marker(model + "의"@, ms0) == 0);
    let ms1 = left_markers();
    let fw = field + topic;
    assert(fw.last() == topic[0]);
    lemma_not_ends_in_other(fw, "와"@);
    lemma_not_ends_in_other(fw, "과"@);
    lemma_ends_in_own_suffix(field, topic);
    if topic == "은"@ {
        assert(crate::creation::first_marker_from(fw, ms1, 2) == 2);
    } else {
        lemma_not_ends_in_other(fw, "은"@);
        assert(crate::creation::first_marker_from(fw, ms1, 3) == 3);
        assert(crate::creation::first_marker_from(fw, ms1, 2) == 3);
    }
    assert(crate::creation::first_marker_from(fw, ms1, 1) == crate::creation::first_marker_from(fw, ms1, 2));
    assert(cursor_ref_spec(ts, 0, span, ms0) == Ok::<(int, Seq<char>, Seq<char>), DiagnosticView>((1, model, "의"@)));
    assert(cursor_ref_spec(ts, 1, span, ms1) == Ok::<(int, Seq<char>, Seq<char>), DiagnosticView>((2, field, topic)));
    assert(topic != "와"@ && topic != "과"@);
    crate::cursor::separate_order_comparisons_read_their_direction(ts, 2, span, n, w);
    assert(closing_spec(ts, 5, span, "한다"@) == Ok::<(), DiagnosticView>(()));
}

fn close_with(cursor: &mut BodyCursor, expected: &str) -> (r: Result<(), Diagnostic>)
    requires
        old(cursor).index <= old(cursor).tokens@.len(),
    ensures
        final(cursor).tokens == old(cursor).tokens,
        final(cursor).span == old(cursor).span,
        match closing_spec(old(cursor).ts(), old(cursor).index as int, old(cursor).span, expected@) {
            Ok(()) => r is Ok,
            Err(e) => r matches Err(d) && d@ == e,
        },
{
    match cursor.expect_word(expected) {
        Ok(()) => {},
        Err(e) => {
            return Err(e);
        },
    }
    cursor.expect_end()
}

/// Reads a constraint sentence: a comparison of two fields, or of a field with a literal.
pub fn parse_constraint_sentence(line: &Line, diagnostics: &mut Vec<Diagnostic>) -> (r: Result<
    ConstraintExpressionAst,
    Diagnostic,
>)
    ensures
        match constraint_line_spec(line_tokens(*line), line.span) {
            Ok((c, lints)) => r matches Ok(e) && expression_view(e) == c && e.span == line.span
                && diagnostics_view(final(diagnostics)@) == diagnostics_view(old(diagnostics)@)
                + lints,
            Err(x) => r matches Err(d) && d@ == x && final(diagnostics)@ == old(diagnostics)@,
        },
{
    let tokens = match sentence_tokens(line) {
        Ok(t) => t,
        Err(e) => {
            return Err(e);
        },
    };
    let mut cursor = BodyCursor::new(tokens, line.span);
    let (model, _) = match cursor.marked_ref(possessive_markers().as_slice()) {
        Ok(x) => x,
        Err(e) => {
            return Err(e);
        },
    };
    let mut lefts: Vec<&'static str> = Vec::new();
    lefts.push("와");
    lefts.push("과");
    lefts.push("은");
    lefts.push("는");
    proof {
        assert(marker_views(lefts@) =~= left_markers());
    }
    let (left, marker) = match cursor.marked_ref(lefts.as_slice()) {
        Ok(x) => x,
        Err(e) => {
            return Err(e);
        },
    };
    if str_eq(marker.as_str(), "와") || str_eq(marker.as_str(), "과") {
        let (right, right_marker) = match cursor.marked_ref(particles("은", "는").as_slice()) {
            Ok(x) => x,
            Err(e) => {
                return Err(e);
            },
        };
        let operator = match cursor.next_word() {
            Some(w) => {
                if str_eq(w, "같아야") {
                    RelationOperatorAst::Equal
                } else if str_eq(w, "달라야") {
                    RelationOperatorAst::NotEqual
                } else {
                    return Err(cursor.error("ko.syntax.field_comparison_invalid"));
                }
            },
            None => {
                return Err(cursor.error("ko.syntax.field_comparison_invalid"));
            },
        };
        match close_with(&mut cursor, "한다") {
            Ok(()) => {},
            Err(e) => {
                return Err(e);
            },
        }
        let ghost start = diagnostics_view(diagnostics@);
        lint_marker(left.as_str(), marker.as_str(), "과", "와", line.span, diagnostics);
        lint_marker(right.as_str(), right_marker.as_str(), "은", "는", line.span, diagnostics);
        proof {
            assert(diagnostics_view(diagnostics@) =~= start + (lint_spec(left@, marker@, "과"@, "와"@, line.span)
                + lint_spec(right@, right_marker@, "은"@, "는"@, line.span)));
        }
        return Ok(
            ConstraintExpressionAst {
                model,
                left: OperandAst::Field(left),
                operator,
                right: OperandAst::Field(right),
                span: line.span,
            },
        );
    }
    let (operator, literal) = match cursor.comparison_literal() {
        Ok(x) => x,
        Err(e) => {
            return Err(e);
        },
    };
    match close_with(&mut cursor, "한다") {
        Ok(()) => {},
        Err(e) => {
            return Err(e);
        },
    }
    lint_marker(left.as_str(), marker.as_str(), "은", "는", line.span, diagnostics);
    Ok(
        ConstraintExpressionAst {
            model,
            left: OperandAst::Field(left),
            operator,
            right: OperandAst::Literal(literal),
            span: line.span,
        },
    )
}

/// Reads a constraint line; a constraint takes no indented block.
pub fn parse_constraint(line: &Line, body: &[Line], diagnostics: &mut Vec<Diagnostic>) -> (r: Result<
    ConstraintAst,
    Diagnostic,
>)
    ensures
        body@.len() > 0 ==> (r matches Err(d) && d@ == error_view(
            "RSPDL-KO-SYN-020"@,
            "ko.syntax.constraint_block_forbidden"@,
            line.span,
        ) && final(diagnostics)@ == old(diagnostics)@),
        body@.len() == 0 ==> match constraint_line_spec(line_tokens(*line), line.span) {
            Ok((c, lints)) => r matches Ok(x) && expression_view(x.expression) == c
                && x.expression.span == line.span && x.declaration.name@.len() == 0
                && x.declaration.id@.len() == 0 && x.declaration.span == line.span
                && diagnostics_view(final(diagnostics)@) == diagnostics_view(old(diagnostics)@)
                + lints,
            Err(x) => r matches Err(d) && d@ == x && final(diagnostics)@ == old(diagnostics)@,
        },
{
    if body.len() > 0 {
        return Err(
            Diagnostic::error(
                "RSPDL-KO-SYN-020",
                "ko.syntax.constraint_block_forbidden",
                span_of(line),
            ),
        );
    }
    let expression = match parse_constraint_sentence(line, diagnostics) {
        Ok(e) => e,
        Err(e) => {
            return Err(e);
        },
    };
    Ok(ConstraintAst { declaration: anonymous_declaration(line.span), expression })
}

/// What a policy sentence grants or denies.
pub struct PolicyView {
    pub role: Seq<char>,
    pub model: Seq<char>,
    pub field: Seq<char>,
    pub action: Seq<char>,
    pub effect: PolicyEffectAst,
}

pub open spec fn object_markers() -> Seq<Seq<char>> {
    seq!["을"@, "를"@]
}

pub open spec fn verb_marker() -> Seq<Seq<char>> {
    seq!["할"@]
}

/// `role은 model의 field를 action할 수 있다|없다.`, with the lints of its particles.
pub open spec fn policy_line_spec(line: Seq<TokenView>, span: Span) -> Result<
    (PolicyView, Seq<DiagnosticView>),
    DiagnosticView,
> {
    match sentence_spec(line, span) {
        Err(e) => Err(e),
        Ok(ts) => match cursor_ref_spec(ts, 0, span, topic_markers()) {
            Err(e) => Err(e),
            Ok((a, role, role_marker)) => match cursor_ref_spec(ts, a, span, possessive()) {
                Err(e) => Err(e),
                Ok((b, model, _)) => match cursor_ref_spec(ts, b, span, object_markers()) {
                    Err(e) => Err(e),
                    Ok((c, field, field_marker)) => match cursor_ref_spec(ts, c, span, verb_marker()) {
                        Err(e) => Err(e),
                        Ok((d, action, _)) => match expect_word_spec(ts, d, span, "수"@) {
                            Err(e) => Err(e),
                            Ok(e) => {
                                let (f, w) = next_word_spec(ts, e);
                                let effect = if w == Some("있다"@) {
                                    Some(PolicyEffectAst::Allow)
                                } else if w == Some("없다"@) {
                                    Some(PolicyEffectAst::Deny)
                                } else {
                                    None
                                };
                                match effect {
                                    None => Err(cursor_error(ts, f, span, "ko.syntax.policy_effect_invalid"@)),
                                    Some(effect) => if f == ts.len() {
                                        Ok(
                                            (
                                                PolicyView { role, model, field, action, effect },
                                                lint_spec(role, role_marker, "은"@, "는"@, span)
                                                    + lint_spec(field, field_marker, "을"@, "를"@, span),
                                            ),
                                        )
                                    } else {
                                        Err(cursor_error(ts, f, span, "ko.syntax.trailing_expression"@))
                                    },
                                }
                            },
                        },
                    },
                },
            },
        },
    }
}

/// Reads a policy line; a policy takes no indented block.
pub fn parse_policy(line: &Line, body: &[Line], diagnostics: &mut Vec<Diagnostic>) -> (r: Result<
    PolicyAst,
    Diagnostic,
>)
    ensures
        body@.len() > 0 ==> (r matches Err(d) && d@ == error_view(
            "RSPDL-KO-SYN-030"@,
            "ko.syntax.policy_block_forbidden"@,
            line.span,
        ) && final(diagnostics)@ == old(diagnostics)@),
        body@.len() == 0 ==> match policy_line_spec(line_tokens(*line), line.span) {
            Ok((p, lints)) => r matches Ok(x) && x.role@ == p.role && x.model@ == p.model
                && x.field@ == p.field && x.action@ == p.action && x.effect == p.effect
                && x.span == line.span && x.declaration.name@.len() == 0
                && x.declaration.id@.len() == 0 && x.declaration.span == line.span
                && diagnostics_view(final(diagnostics)@) == diagnostics_view(old(diagnostics)@)
                + lints,
            Err(x) => r matches Err(d) && d@ == x && final(diagnostics)@ == old(diagnostics)@,
        },
{
    if body.len() > 0 {
        return Err(
            Diagnostic::error("RSPDL-KO-SYN-030", "ko.syntax.policy_block_forbidden", span_of(line)),
        );
    }
    let tokens = match sentence_tokens(line) {
        Ok(t) => t,
        Err(e) => {
            return Err(e);
        },
    };
    let mut cursor = BodyCursor::new(tokens, line.span);
    let (role, role_marker) = match cursor.marked_ref(particles("은", "는").as_slice()) {
        Ok(x) => x,
        Err(e) => {
            return Err(e);
        },
    };
    let (model, _) = match cursor.marked_ref(possessive_markers().as_slice()) {
        Ok(x) => x,
        Err(e) => {
            return Err(e);
        },
    };
    let (field, field_marker) = match cursor.marked_ref(particles("을", "를").as_slice()) {
        Ok(x) => x,
        Err(e) => {
            return Err(e);
        },
    };
    let mut verb: Vec<&'static str> = Vec::new();
    verb.push("할");
    proof {
        assert(marker_views(verb@) =~= verb_marker());
    }
    let (action, _) = match cursor.marked_ref(verb.as_slice()) {
        Ok(x) => x,
        Err(e) => {
            return Err(e);
        },
    };
    match cursor.expect_word("수") {
        Ok(()) => {},
        Err(e) => {
            return Err(e);
        },
    }
    let effect = match cursor.next_word() {
        Some(w) => {
            if str_eq(w, "있다") {
                PolicyEffectAst::Allow
            } else if str_eq(w, "없다") {
                PolicyEffectAst::Deny
            } else {
                return Err(cursor.error("ko.syntax.policy_effect_invalid"));
            }
        },
        None => {
            return Err(cursor.error("ko.syntax.policy_effect_invalid"));
        },
    };
    match cursor.expect_end() {
        Ok(()) => {},
        Err(e) => {
            return Err(e);
        },
    }
    let ghost start = diagnostics_view(diagnostics@);
    lint_marker(role.as_str(), role_marker.as_str(), "은", "는", line.span, diagnostics);
    lint_marker(field.as_str(), field_marker.as_str(), "을", "를", line.span, diagnostics);
    proof {
        assert(diagnostics_view(diagnostics@) =~= start + (lint_spec(role@, role_marker@, "은"@, "는"@, line.span)
            + lint_spec(field@, field_marker@, "을"@, "를"@, line.span)));
    }
    Ok(
        PolicyAst {
            declaration: anonymous_declaration(line.span),
            role,
            model,
            field,
            action,
            effect,
            span: line.span,
        },
    )
}

/// The word at `i`, if a word stands there.
pub open spec fn word_at_spec(ts: Seq<TokenView>, i: int) -> Option<Seq<char>> {
    if 0 <= i < ts.len() && ts[i].kind is Word {
        Some(crate::creation::word_text(ts[i].kind))
    } else {
        None
    }
}

pub open spec fn opt_str_view(o: Option<&str>) -> Option<Seq<char>> {
    match o {
        Some(v) => Some(v@),
        None => None,
    }
}

/// The word at `index` of the line.
pub fn word_at(line: &Line, index: usize) -> (w: Option<&str>)
    ensures
        opt_str_view(w) == word_at_spec(line_tokens(*line), index as int),
{
    if index < line.tokens.len() {
        assert(line_tokens(*line)[index as int] == line.tokens@[index as int]@);
        match &line.tokens[index].kind {
            TokenKind::Word(v) => Some(v.as_str()),
            _ => None,
        }
    } else {
        None
    }
}

/// The word `offset` places before the last word of a sentence, its period not counted.
pub open spec fn last_sentence_word_spec(ts: Seq<TokenView>, offset: int) -> Option<Seq<char>> {
    let period: int = if ts.len() > 0 && ts.last().kind is Period {
        1
    } else {
        0
    };
    let index = ts.len() - 1 - period - offset;
    if index >= 0 {
        word_at_spec(ts, index)
    } else {
        None
    }
}

pub fn last_sentence_word(line: &Line, offset: usize) -> (w: Option<&str>)
    ensures
        opt_str_view(w) == last_sentence_word_spec(line_tokens(*line), offset as int),
{
    let n = line.tokens.len();
    let period: usize = if n > 0 && is_period(&line.tokens[n - 1]) {
        1
    } else {
        0
    };
    proof {
        if n > 0 {
            assert(line_tokens(*line).last() == line.tokens@[n - 1]@);
        }
    }
    if offset >= n || n - 1 - offset < period {
        return None;
    }
    word_at(line, n - 1 - period - offset)
}

fn is_period(t: &Token) -> (b: bool)
    ensures
        b == t@.kind is Period,
{
    match &t.kind {
        TokenKind::Period => true,
        _ => false,
    }
}

/// The stable ID at `index`, or the diagnostic for a missing one.
pub open spec fn canonical_id_spec(ts: Seq<TokenView>, index: int, span: Span) -> Result<Seq<char>, DiagnosticView> {
    if 0 <= index < ts.len() && (ts[index].kind matches TokenKindView::CanonicalId(v) && v.len() > 0) {
        Ok(
            match ts[index].kind {
                TokenKindView::CanonicalId(v) => v,
                _ => Seq::empty(),
            },
        )
    } else {
        Err(error_view("RSPDL-KO-SYN-006"@, "ko.syntax.stable_id_required"@, span))
    }
}

pub fn canonical_id_at(line: &Line, index: usize) -> (r: Result<String, Diagnostic>)
    ensures
        match canonical_id_spec(line_tokens(*line), index as int, line.span) {
            Ok(v) => r matches Ok(x) && x@ == v,
            Err(e) => r matches Err(d) && d@ == e,
        },
{
    let all = line.tokens.as_slice();
    proof {
        assert(tokens_of(all) =~= line_tokens(*line));
    }
    canonical_id_in(all, index, line.span)
}

fn canonical_id_in(tokens: &[Token], index: usize, span: Span) -> (r: Result<String, Diagnostic>)
    ensures
        match canonical_id_spec(tokens_of(tokens), index as int, span) {
            Ok(v) => r matches Ok(x) && x@ == v,
            Err(e) => r matches Err(d) && d@ == e,
        },
{
    if index < tokens.len() {
        assert(tokens_of(tokens)[index as int] == tokens@[index as int]@);
        match &tokens[index].kind {
            TokenKind::CanonicalId(v) => {
                if !v.as_str().is_empty() {
                    return Ok(String::from_str(v.as_str()));
                }
            },
            _ => {},
        }
    }
    Err(Diagnostic::error("RSPDL-KO-SYN-006", "ko.syntax.stable_id_required", span))
}

/// Index of the first token in `[i, end)` that cannot be part of a display name, or `end`.
pub open spec fn first_non_name(ts: Seq<TokenView>, i: int, end: int) -> int
    decreases end - i,
{
    if i >= end || i < 0 || i >= ts.len() {
        end
    } else if !is_name_part(ts[i].kind) {
        i
    } else {
        first_non_name(ts, i + 1, end)
    }
}

/// The display name made of the tokens in `[start, end)` and the span it covers.
pub open spec fn surface_name_spec(ts: Seq<TokenView>, start: int, end: int, span: Span) -> Result<
    (Seq<char>, Span),
    DiagnosticView,
> {
    if start >= end {
        Err(error_view("RSPDL-KO-SYN-005"@, "ko.syntax.display_name_required"@, span))
    } else {
        let k = first_non_name(ts, start, end);
        if k < end {
            Err(error_view("RSPDL-KO-SYN-005"@, "ko.syntax.display_name_invalid"@, ts[k].span))
        } else {
            Ok((joined(ts.subrange(start, end)), span_join(ts[start].span, ts[end - 1].span)))
        }
    }
}

pub proof fn lemma_first_non_name(ts: Seq<TokenView>, i: int, end: int)
    requires
        0 <= i <= end <= ts.len(),
    ensures
        i <= first_non_name(ts, i, end) <= end,
        first_non_name(ts, i, end) < end ==> !is_name_part(ts[first_non_name(ts, i, end)].kind),
        forall|k: int| i <= k < first_non_name(ts, i, end) ==> is_name_part(#[trigger] ts[k].kind),
    decreases end - i,
{
    if i < end && is_name_part(ts[i].kind) {
        lemma_first_non_name(ts, i + 1, end);
    }
}

pub fn surface_name(line: &Line, start: usize, end: usize) -> (r: Result<(String, Span), Diagnostic>)
    requires
        end <= line.tokens@.len(),
    ensures
        match surface_name_spec(line_tokens(*line), start as int, end as int, line.span) {
            Ok((v, s)) => r matches Ok((x, xs)) && x@ == v && xs == s,
            Err(e) => r matches Err(d) && d@ == e,
        },
{
    let all = line.tokens.as_slice();
    proof {
        assert(tokens_of(all) =~= line_tokens(*line));
    }
    surface_name_in(all, start, end, line.span)
}

fn surface_name_in(tokens: &[Token], start: usize, end: usize, span: Span) -> (r: Result<
    (String, Span),
    Diagnostic,
>)
    requires
        end <= tokens@.len(),
    ensures
        match surface_name_spec(tokens_of(tokens), start as int, end as int, span) {
            Ok((v, s)) => r matches Ok((x, xs)) && x@ == v && xs == s,
            Err(e) => r matches Err(d) && d@ == e,
        },
{
    let ghost ts = tokens_of(tokens);
    if start >= end {
        return Err(Diagnostic::error("RSPDL-KO-SYN-005", "ko.syntax.display_name_required", span));
    }
    let mut k = start;
    while k < end
        invariant
            ts == tokens_of(tokens),
            start < end <= tokens@.len(),
            start <= k <= end,
            first_non_name(ts, start as int, end as int) == first_non_name(ts, k as int, end as int),
        decreases end - k,
    {
        assert(ts[k as int] == tokens@[k as int]@);
        if !crate::declarations::is_name_token(&tokens[k]) {
            return Err(
                Diagnostic::error("RSPDL-KO-SYN-005", "ko.syntax.display_name_invalid", tokens[k].span),
            );
        }
        k = k + 1;
    }
    let name = join_names(tokens, start, end);
    assert(ts[start as int] == tokens@[start as int]@);
    assert(ts[end - 1] == tokens@[end - 1]@);
    Ok((name, tokens[start].span.join(tokens[end - 1].span)))
}

pub open spec fn named_view(d: NamedIdAst) -> (Seq<char>, Seq<char>, Span) {
    (d.name@, d.id@, d.span)
}

/// `name(id)` with the name in `[name_start, id_index)` and the stable ID at `id_index`.
pub open spec fn name_with_id_spec(ts: Seq<TokenView>, name_start: int, id_index: int, span: Span) -> Result<
    (Seq<char>, Seq<char>, Span),
    DiagnosticView,
> {
    match canonical_id_spec(ts, id_index, span) {
        Err(e) => Err(e),
        Ok(id) => match surface_name_spec(ts, name_start, id_index, span) {
            Err(e) => Err(e),
            Ok((name, name_span)) => Ok((name, id, span_join(name_span, ts[id_index].span))),
        },
    }
}

pub fn parse_name_with_id(line: &Line, name_start: usize, id_index: usize) -> (r: Result<
    NamedIdAst,
    Diagnostic,
>)
    ensures
        match name_with_id_spec(line_tokens(*line), name_start as int, id_index as int, line.span) {
            Ok(v) => r matches Ok(x) && named_view(x) == v,
            Err(e) => r matches Err(d) && d@ == e,
        },
{
    let all = line.tokens.as_slice();
    proof {
        assert(tokens_of(all) =~= line_tokens(*line));
    }
    parse_name_with_id_tokens(all, name_start, id_index, line.span)
}

/// `name(id)` among the tokens of a sentence, reported against `span`.
pub fn parse_name_with_id_tokens(tokens: &[Token], name_start: usize, id_index: usize, span: Span) -> (r:
    Result<NamedIdAst, Diagnostic>)
    ensures
        match name_with_id_spec(tokens_of(tokens), name_start as int, id_index as int, span) {
            Ok(v) => r matches Ok(x) && named_view(x) == v,
            Err(e) => r matches Err(d) && d@ == e,
        },
{
    let id = match canonical_id_in(tokens, id_index, span) {
        Ok(id) => id,
        Err(e) => {
            return Err(e);
        },
    };
    let (name, name_span) = match surface_name_in(tokens, name_start, id_index, span) {
        Ok(x) => x,
        Err(e) => {
            return Err(e);
        },
    };
    assert(tokens_of(tokens)[id_index as int] == tokens@[id_index as int]@);
    Ok(NamedIdAst { name, id, span: name_span.join(tokens[id_index].span) })
}

/// A block the declaration needs, or the diagnostic for an empty one.
pub fn ensure_body(body: &[Line], span: Span) -> (r: Result<(), Diagnostic>)
    ensures
        r is Ok <==> body@.len() > 0,
        r matches Err(d) ==> d@ == error_view("RSPDL-KO-SYN-008"@, "ko.syntax.block_item_required"@, span),
{
    if body.len() == 0 {
        Err(Diagnostic::error("RSPDL-KO-SYN-008", "ko.syntax.block_item_required", span))
    } else {
        Ok(())
    }
}

/// The diagnostic for a block item indented deeper than the first one.
pub fn bad_block_indent(line: &Line) -> (d: Diagnostic)
    ensures
        d@ == error_view("RSPDL-KO-SYN-009"@, "ko.syntax.block_indent_inconsistent"@, line.span),
{
    Diagnostic::error("RSPDL-KO-SYN-009", "ko.syntax.block_indent_inconsistent", span_of(line))
}

/// A sentence declaration takes no indented block.
pub open spec fn sentence_body_spec(body_len: nat, span: Span, kind: Seq<char>) -> Result<(), DiagnosticView> {
    if body_len == 0 {
        Ok(())
    } else {
        Err(
            with_argument_view(
                error_view("RSPDL-KO-SYN-063"@, "ko.syntax.sentence_block_forbidden"@, span),
                "kind"@,
                kind,
            ),
        )
    }
}

pub fn reject_sentence_body(body: &[Line], span: Span, kind: &str) -> (r: Result<(), Diagnostic>)
    ensures
        match sentence_body_spec(body@.len(), span, kind@) {
            Ok(()) => r is Ok,
            Err(e) => r matches Err(d) && d@ == e,
        },
{
    if body.len() == 0 {
        Ok(())
    } else {
        Err(
            Diagnostic::error("RSPDL-KO-SYN-063", "ko.syntax.sentence_block_forbidden", span).with_argument(
                "kind",
                kind,
            ),
        )
    }
}

pub open spec fn subject_markers() -> Seq<Seq<char>> {
    seq!["이"@, "가"@]
}

/// `model의 field은 model의 field의 합계로 계산한다.`: target model and field, then source
/// model and field.
pub open spec fn sum_line_spec(line: Seq<TokenView>, span: Span) -> Result<
    (Seq<char>, Seq<char>, Seq<char>, Seq<char>),
    DiagnosticView,
> {
    match sentence_spec(line, span) {
        Err(e) => Err(e),
        Ok(ts) => match cursor_ref_spec(ts, 0, span, possessive()) {
            Err(e) => Err(e),
            Ok((a, target_model, _)) => match cursor_ref_spec(ts, a, span, topic_markers()) {
                Err(e) => Err(e),
                Ok((b, target_field, _)) => match cursor_ref_spec(ts, b, span, possessive()) {
                    Err(e) => Err(e),
                    Ok((c, source_model, _)) => match cursor_ref_spec(ts, c, span, possessive()) {
                        Err(e) => Err(e),
                        Ok((d, source_field, _)) => match expect_word_spec(ts, d, span, "합계로"@) {
                            Err(e) => Err(e),
                            Ok(e) => match closing_spec(ts, e, span, "계산한다"@) {
                                Err(x) => Err(x),
                                Ok(()) => Ok((target_model, target_field, source_model, source_field)),
                            },
                        },
                    },
                },
            },
        },
    }
}

/// Reads a sum derivation sentence.
pub fn parse_sum_derivation(line: &Line, body: &[Line]) -> (r: Result<SumDerivationAst, Diagnostic>)
    ensures
        match sentence_body_spec(body@.len(), line.span, "sum_derivation"@) {
            Err(e) => r matches Err(d) && d@ == e,
            Ok(()) => match sum_line_spec(line_tokens(*line), line.span) {
                Ok((tm, tf, sm, sf)) => r matches Ok(x) && x.target_model@ == tm
                    && x.target_field@ == tf && x.source_model@ == sm && x.source_field@ == sf
                    && x.span == line.span,
                Err(e) => r matches Err(d) && d@ == e,
            },
        },
{
    match reject_sentence_body(body, line.span, "sum_derivation") {
        Ok(()) => {},
        Err(e) => {
            return Err(e);
        },
    }
    let tokens = match sentence_tokens(line) {
        Ok(t) => t,
        Err(e) => {
            return Err(e);
        },
    };
    let mut cursor = BodyCursor::new(tokens, line.span);
    let (target_model, _) = match cursor.marked_ref(possessive_markers().as_slice()) {
        Ok(x) => x,
        Err(e) => {
            return Err(e);
        },
    };
    let (target_field, _) = match cursor.marked_ref(particles("은", "는").as_slice()) {
        Ok(x) => x,
        Err(e) => {
            return Err(e);
        },
    };
    let (source_model, _) = match cursor.marked_ref(possessive_markers().as_slice()) {
        Ok(x) => x,
        Err(e) => {
            return Err(e);
        },
    };
    let (source_field, _) = match cursor.marked_ref(possessive_markers().as_slice()) {
        Ok(x) => x,
        Err(e) => {
            return Err(e);
        },
    };
    match cursor.expect_word("합계로") {
        Ok(()) => {},
        Err(e) => {
            return Err(e);
        },
    }
    match close_with(&mut cursor, "계산한다") {
        Ok(()) => {},
        Err(e) => {
            return Err(e);
        },
    }
    Ok(SumDerivationAst { target_model, target_field, source_model, source_field, span: line.span })
}

/// `model의 field이 바뀔 때 model의 field을 다시 계산한다.`: source model and field, then target
/// model and field.
pub open spec fn recalculation_line_spec(line: Seq<TokenView>, span: Span) -> Result<
    (Seq<char>, Seq<char>, Seq<char>, Seq<char>),
    DiagnosticView,
> {
    match sentence_spec(line, span) {
        Err(e) => Err(e),
        Ok(ts) => match cursor_ref_spec(ts, 0, span, possessive()) {
            Err(e) => Err(e),
            Ok((a, source_model, _)) => match cursor_ref_spec(ts, a, span, subject_markers()) {
                Err(e) => Err(e),
                Ok((b, source_field, _)) => match expect_word_spec(ts, b, span, "바뀔"@) {
                    Err(e) => Err(e),
                    Ok(c) => match expect_word_spec(ts, c, span, "때"@) {
                        Err(e) => Err(e),
                        Ok(d) => match cursor_ref_spec(ts, d, span, possessive()) {
                            Err(e) => Err(e),
                            Ok((e, target_model, _)) => match cursor_ref_spec(ts, e, span, object_markers()) {
                                Err(x) => Err(x),
                                Ok((f, target_field, _)) => match expect_word_spec(ts, f, span, "다시"@) {
                                    Err(x) => Err(x),
                                    Ok(g) => match closing_spec(ts, g, span, "계산한다"@) {
                                        Err(x) => Err(x),
                                        Ok(()) => Ok((source_model, source_field, target_model, target_field)),
                                    },
                                },
                            },
                        },
                    },
                },
            },
        },
    }
}

/// Reads a recalculation sentence.
pub fn parse_recalculation(line: &Line, body: &[Line]) -> (r: Result<RecalculationAst, Diagnostic>)
    ensures
        match sentence_body_spec(body@.len(), line.span, "recalculation"@) {
            Err(e) => r matches Err(d) && d@ == e,
            Ok(()) => match recalculation_line_spec(line_tokens(*line), line.span) {
                Ok((sm, sf, tm, tf)) => r matches Ok(x) && x.source_model@ == sm
                    && x.source_field@ == sf && x.target_model@ == tm && x.target_field@ == tf
                    && x.span == line.span,
                Err(e) => r matches Err(d) && d@ == e,
            },
        },
{
    match reject_sentence_body(body, line.span, "recalculation") {
        Ok(()) => {},
        Err(e) => {
            return Err(e);
        },
    }
    let tokens = match sentence_tokens(line) {
        Ok(t) => t,
        Err(e) => {
            return Err(e);
        },
    };
    let mut cursor = BodyCursor::new(tokens, line.span);
    let (source_model, _) = match cursor.marked_ref(possessive_markers().as_slice()) {
        Ok(x) => x,
        Err(e) => {
            return Err(e);
        },
    };
    let (source_field, _) = match cursor.marked_ref(particles("이", "가").as_slice()) {
        Ok(x) => x,
        Err(e) => {
            return Err(e);
        },
    };
    match cursor.expect_word("바뀔") {
        Ok(()) => {},
        Err(e) => {
            return Err(e);
        },
    }
    match cursor.expect_word("때") {
        Ok(()) => {},
        Err(e) => {
            return Err(e);
        },
    }
    let (target_model, _) = match cursor.marked_ref(possessive_markers().as_slice()) {
        Ok(x) => x,
        Err(e) => {
            return Err(e);
        },
    };
    let (target_field, _) = match cursor.marked_ref(particles("을", "를").as_slice()) {
        Ok(x) => x,
        Err(e) => {
            return Err(e);
        },
    };
    match cursor.expect_word("다시") {
        Ok(()) => {},
        Err(e) => {
            return Err(e);
        },
    }
    match close_with(&mut cursor, "계산한다") {
        Ok(()) => {},
        Err(e) => {
            return Err(e);
        },
    }
    Ok(RecalculationAst { source_model, source_field, target_model, target_field, span: line.span })
}

/// `model의 field은 내부 관리에만 사용한다.` or `... 사용자 화면에서 조회하지 않는다.`
pub open spec fn intent_line_spec(line: Seq<TokenView>, span: Span) -> Result<
    (Seq<char>, Seq<char>, FieldIntentKindAst),
    DiagnosticView,
> {
    match sentence_spec(line, span) {
        Err(e) => Err(e),
        Ok(ts) => match cursor_ref_spec(ts, 0, span, possessive()) {
            Err(e) => Err(e),
            Ok((a, model, _)) => match cursor_ref_spec(ts, a, span, topic_markers()) {
                Err(e) => Err(e),
                Ok((b, field, _)) => {
                    let (c, w) = next_word_spec(ts, b);
                    if w == Some("내부"@) {
                        match expect_word_spec(ts, c, span, "관리에만"@) {
                            Err(e) => Err(e),
                            Ok(d) => match closing_spec(ts, d, span, "사용한다"@) {
                                Err(e) => Err(e),
                                Ok(()) => Ok((model, field, FieldIntentKindAst::Internal)),
                            },
                        }
                    } else if w == Some("사용자"@) {
                        match expect_word_spec(ts, c, span, "화면에서"@) {
                            Err(e) => Err(e),
                            Ok(d) => match expect_word_spec(ts, d, span, "조회하지"@) {
                                Err(e) => Err(e),
                                Ok(e) => match closing_spec(ts, e, span, "않는다"@) {
                                    Err(x) => Err(x),
                                    Ok(()) => Ok((model, field, FieldIntentKindAst::Hidden)),
                                },
                            },
                        }
                    } else {
                        Err(cursor_error(ts, c, span, "ko.syntax.field_intent_invalid"@))
                    }
                },
            },
        },
    }
}

/// Reads a field intent sentence.
pub fn parse_field_intent(line: &Line, body: &[Line]) -> (r: Result<FieldIntentAst, Diagnostic>)
    ensures
        match sentence_body_spec(body@.len(), line.span, "field_intent"@) {
            Err(e) => r matches Err(d) && d@ == e,
            Ok(()) => match intent_line_spec(line_tokens(*line), line.span) {
                Ok((m, f, k)) => r matches Ok(x) && x.model@ == m && x.field@ == f && x.intent == k
                    && x.span == line.span,
                Err(e) => r matches Err(d) && d@ == e,
            },
        },
{
    match reject_sentence_body(body, line.span, "field_intent") {
        Ok(()) => {},
        Err(e) => {
            return Err(e);
        },
    }
    let tokens = match sentence_tokens(line) {
        Ok(t) => t,
        Err(e) => {
            return Err(e);
        },
    };
    let mut cursor = BodyCursor::new(tokens, line.span);
    let (model, _) = match cursor.marked_ref(possessive_markers().as_slice()) {
        Ok(x) => x,
        Err(e) => {
            return Err(e);
        },
    };
    let (field, _) = match cursor.marked_ref(particles("은", "는").as_slice()) {
        Ok(x) => x,
        Err(e) => {
            return Err(e);
        },
    };
    let intent = match cursor.next_word() {
        Some(w) => {
            if str_eq(w, "내부") {
                match cursor.expect_word("관리에만") {
                    Ok(()) => {},
                    Err(e) => {
                        return Err(e);
                    },
                }
                match close_with(&mut cursor, "사용한다") {
                    Ok(()) => {},
                    Err(e) => {
                        return Err(e);
                    },
                }
                FieldIntentKindAst::Internal
            } else if str_eq(w, "사용자") {
                match cursor.expect_word("화면에서") {
                    Ok(()) => {},
                    Err(e) => {
                        return Err(e);
                    },
                }
                match cursor.expect_word("조회하지") {
                    Ok(()) => {},
                    Err(e) => {
                        return Err(e);
                    },
                }
                match close_with(&mut cursor, "않는다") {
                    Ok(()) => {},
                    Err(e) => {
                        return Err(e);
                    },
                }
                FieldIntentKindAst::Hidden
            } else {
                return Err(cursor.error("ko.syntax.field_intent_invalid"));
            }
        },
        None => {
            return Err(cursor.error("ko.syntax.field_intent_invalid"));
        },
    };
    Ok(FieldIntentAst { model, field, intent, span: line.span })
}

/// Index of the first stable ID at or after `i`, or the length when there is none.
pub open spec fn first_id_from(ts: Seq<TokenView>, i: int) -> int
    decreases ts.len() - i,
{
    if i < 0 || i >= ts.len() {
        ts.len() as int
    } else if ts[i].kind is CanonicalId {
        i
    } else {
        first_id_from(ts, i + 1)
    }
}

pub(crate) proof fn lemma_first_id_from(ts: Seq<TokenView>, i: int)
    requires
        0 <= i <= ts.len(),
    ensures
        i <= first_id_from(ts, i) <= ts.len(),
        first_id_from(ts, i) < ts.len() ==> ts[first_id_from(ts, i)].kind is CanonicalId,
    decreases ts.len() - i,
{
    if i < ts.len() && !(ts[i].kind is CanonicalId) {
        lemma_first_id_from(ts, i + 1);
    }
}

pub(crate) fn first_id(tokens: &[Token], from: usize) -> (k: usize)
    requires
        from <= tokens@.len(),
    ensures
        k as int == first_id_from(tokens_of(tokens), from as int),
        k <= tokens@.len(),
{
    let ghost ts = tokens_of(tokens);
    let mut k = from;
    proof {
        lemma_first_id_from(ts, from as int);
    }
    while k < tokens.len()
        invariant
            ts == tokens_of(tokens),
            from <= k <= tokens@.len(),
            first_id_from(ts, from as int) == first_id_from(ts, k as int),
        decreases tokens@.len() - k,
    {
        assert(ts[k as int] == tokens@[k as int]@);
        match &tokens[k].kind {
            TokenKind::CanonicalId(_) => {
                return k;
            },
            _ => {},
        }
        k = k + 1;
    }
    k
}

/// The words `ws` one after another from `i`: the position after the last.
pub open spec fn expect_words_spec(ts: Seq<TokenView>, i: int, span: Span, ws: Seq<Seq<char>>) -> Result<
    int,
    DiagnosticView,
>
    decreases ws.len(),
{
    if ws.len() == 0 {
        Ok(i)
    } else {
        match expect_word_spec(ts, i, span, ws[0]) {
            Err(e) => Err(e),
            Ok(j) => expect_words_spec(ts, j, span, ws.drop_first()),
        }
    }
}

pub open spec fn word_views(ws: Seq<&str>) -> Seq<Seq<char>> {
    ws.map_values(|w: &str| w@)
}

/// The predicate words from `a` to the end of the sentence, after the topic particle `marker`.
pub open spec fn header_rest_spec(
    sentence: Seq<TokenView>,
    a: int,
    span: Span,
    predicate: Seq<Seq<char>>,
    declaration: (Seq<char>, Seq<char>, Span),
    marker: Seq<char>,
) -> Result<((Seq<char>, Seq<char>, Span), Seq<DiagnosticView>), DiagnosticView> {
    match expect_words_spec(sentence, a, span, predicate) {
        Err(e) => Err(e),
        Ok(end) => if end == sentence.len() {
            Ok((declaration, lint_spec(declaration.0, marker, "은"@, "는"@, span)))
        } else {
            Err(cursor_error(sentence, end, span, "ko.syntax.trailing_expression"@))
        },
    }
}

/// `name(id)은|는 <predicate words>.`: the declaration and the lint of its topic particle.
pub open spec fn natural_header_spec(ts: Seq<TokenView>, span: Span, predicate: Seq<Seq<char>>) -> Result<
    ((Seq<char>, Seq<char>, Span), Seq<DiagnosticView>),
    DiagnosticView,
> {
    if !(ts.len() > 0 && ts.last().kind is Period) {
        Err(error_view("RSPDL-KO-SYN-004"@, "ko.syntax.natural_header_period_required"@, span))
    } else {
        let id_index = first_id_from(ts, 0);
        if id_index >= ts.len() {
            Err(error_view("RSPDL-KO-SYN-006"@, "ko.syntax.declaration_id_required"@, span))
        } else {
            match name_with_id_spec(ts, 0, id_index, span) {
                Err(e) => Err(e),
                Ok(declaration) => {
                    let sentence = ts.subrange(id_index + 1, ts.len() - 1);
                    let (a, marker) = next_word_spec(sentence, 0);
                    if !(marker == Some("은"@) || marker == Some("는"@)) {
                        Err(cursor_error(sentence, a, span, "ko.syntax.declaration_topic_marker_required"@))
                    } else {
                        header_rest_spec(sentence, a, span, predicate, declaration, marker->0)
                    }
                },
            }
        }
    }
}

/// Reads `name(id)은|는 <predicate words>.`, the header of a declaration written as a sentence.
pub fn parse_natural_header(line: &Line, predicate: &[&str], diagnostics: &mut Vec<Diagnostic>) -> (r:
    Result<NamedIdAst, Diagnostic>)
    ensures
        match natural_header_spec(line_tokens(*line), line.span, word_views(predicate@)) {
            Ok((v, lints)) => r matches Ok(x) && named_view(x) == v && diagnostics_view(
                final(diagnostics)@,
            ) == diagnostics_view(old(diagnostics)@) + lints,
            Err(e) => r matches Err(d) && d@ == e && final(diagnostics)@ == old(diagnostics)@,
        },
{
    let ghost lt = line_tokens(*line);
    let n = line.tokens.len();
    if n == 0 || !is_period(&line.tokens[n - 1]) {
        return Err(
            Diagnostic::error("RSPDL-KO-SYN-004", "ko.syntax.natural_header_period_required", span_of(line)),
        );
    }
    assert(lt.last() == line.tokens@[n - 1]@);
    let all = line.tokens.as_slice();
    proof {
        assert(tokens_of(all) =~= lt);
    }
    let id_index = first_id(all, 0);
    if id_index >= n {
        return Err(Diagnostic::error("RSPDL-KO-SYN-006", "ko.syntax.declaration_id_required", span_of(line)));
    }
    let declaration = match parse_name_with_id(line, 0, id_index) {
        Ok(d) => d,
        Err(e) => {
            return Err(e);
        },
    };
    proof {
        lemma_first_id_from(lt, 0);
    }
    let sentence = vstd::slice::slice_subrange(all, id_index + 1, n - 1);
    let ghost st = tokens_of(sentence);
    proof {
        assert(st =~= lt.subrange(id_index + 1, n - 1));
    }
    let mut cursor = BodyCursor::new(sentence, line.span);
    let marker = match cursor.next_word() {
        Some(m) => {
            if str_eq(m, "은") || str_eq(m, "는") {
                m
            } else {
                return Err(cursor.error("ko.syntax.declaration_topic_marker_required"));
            }
        },
        None => {
            return Err(cursor.error("ko.syntax.declaration_topic_marker_required"));
        },
    };
    let ghost words = word_views(predicate@);
    let ghost after_marker = cursor.index as int;
    let ghost dv = named_view(declaration);
    let ghost rest = header_rest_spec(st, after_marker, line.span, words, dv, marker@);
    proof {
        assert(natural_header_spec(lt, line.span, words) == rest);
    }
    let mut k: usize = 0;
    proof {
        assert(words.skip(0) =~= words);
    }
    while k < predicate.len()
        invariant
            words == word_views(predicate@),
            k <= predicate@.len(),
            cursor.tokens == sentence,
            cursor.span == line.span,
            cursor.index <= sentence@.len(),
            st == tokens_of(sentence),
            lt == line_tokens(*line),
            natural_header_spec(lt, line.span, words) == rest,
            rest == header_rest_spec(st, after_marker, line.span, words, dv, marker@),
            diagnostics@ == old(diagnostics)@,
            expect_words_spec(st, after_marker, line.span, words) == expect_words_spec(
                st,
                cursor.index as int,
                line.span,
                words.skip(k as int),
            ),
        decreases predicate@.len() - k,
    {
        assert(words.skip(k as int)[0] == predicate@[k as int]@);
        assert(words.skip(k as int).drop_first() =~= words.skip(k + 1));
        match cursor.expect_word(predicate[k]) {
            Ok(()) => {},
            Err(e) => {
                return Err(e);
            },
        }
        k = k + 1;
    }
    proof {
        assert(words.skip(predicate@.len() as int) =~= Seq::<Seq<char>>::empty());
    }
    match cursor.expect_end() {
        Ok(()) => {},
        Err(e) => {
            return Err(e);
        },
    }
    lint_marker(declaration.name.as_str(), marker, "은", "는", line.span, diagnostics);
    Ok(declaration)
}

/// Reads `name(id)은 역할이다.`
pub fn parse_role(line: &Line, body: &[Line], diagnostics: &mut Vec<Diagnostic>) -> (r: Result<
    NamedIdAst,
    Diagnostic,
>)
    ensures
        match sentence_body_spec(body@.len(), line.span, "role"@) {
            Err(e) => r matches Err(d) && d@ == e && final(diagnostics)@ == old(diagnostics)@,
            Ok(()) => match natural_header_spec(line_tokens(*line), line.span, seq!["역할이다"@]) {
                Ok((v, lints)) => r matches Ok(x) && named_view(x) == v && diagnostics_view(
                    final(diagnostics)@,
                ) == diagnostics_view(old(diagnostics)@) + lints,
                Err(e) => r matches Err(d) && d@ == e && final(diagnostics)@ == old(diagnostics)@,
            },
        },
{
    match reject_sentence_body(body, line.span, "role") {
        Ok(()) => {},
        Err(e) => {
            return Err(e);
        },
    }
    let mut words: Vec<&str> = Vec::new();
    words.push("역할이다");
    proof {
        assert(word_views(words@) =~= seq!["역할이다"@]);
    }
    parse_natural_header(line, words.as_slice(), diagnostics)
}

/// Reads `name(id)은 행동이다.`
pub fn parse_action(line: &Line, body: &[Line], diagnostics: &mut Vec<Diagnostic>) -> (r: Result<
    NamedIdAst,
    Diagnostic,
>)
    ensures
        match sentence_body_spec(body@.len(), line.span, "action"@) {
            Err(e) => r matches Err(d) && d@ == e && final(diagnostics)@ == old(diagnostics)@,
            Ok(()) => match natural_header_spec(line_tokens(*line), line.span, seq!["행동이다"@]) {
                Ok((v, lints)) => r matches Ok(x) && named_view(x) == v && diagnostics_view(
                    final(diagnostics)@,
                ) == diagnostics_view(old(diagnostics)@) + lints,
                Err(e) => r matches Err(d) && d@ == e && final(diagnostics)@ == old(diagnostics)@,
            },
        },
{
    match reject_sentence_body(body, line.span, "action") {
        Ok(()) => {},
        Err(e) => {
            return Err(e);
        },
    }
    let mut words: Vec<&str> = Vec::new();
    words.push("행동이다");
    proof {
        assert(word_views(words@) =~= seq!["행동이다"@]);
    }
    parse_natural_header(line, words.as_slice(), diagnostics)
}

/// A period or a colon.
pub open spec fn is_stop_mark(k: TokenKindView) -> bool {
    k is Period || k is Colon
}

/// `<keyword> name id`: an annotated declaration line, with no period or colon in it.
pub open spec fn annotated_name_spec(ts: Seq<TokenView>, span: Span, keyword: Seq<char>) -> Result<
    (Seq<char>, Seq<char>, Span),
    DiagnosticView,
> {
    if word_at_spec(ts, 0) != Some(keyword) {
        Err(
            with_argument_view(
                with_argument_view(
                    error_view("RSPDL-KO-SYN-004"@, "ko.syntax.annotated_declaration_required"@, span),
                    "keyword"@,
                    keyword,
                ),
                "id_kind"@,
                "stable_id"@,
            ),
        )
    } else if exists|i: int| 0 <= i < ts.len() && #[trigger] is_stop_mark(ts[i].kind) {
        Err(error_view("RSPDL-KO-SYN-004"@, "ko.syntax.declaration_punctuation_forbidden"@, span))
    } else {
        name_with_id_spec(ts, 1, ts.len() - 1, span)
    }
}

/// Reads `<keyword> name id`, such as the module header.
pub fn parse_annotated_name(line: &Line, keyword: &str) -> (r: Result<NamedIdAst, Diagnostic>)
    ensures
        match annotated_name_spec(line_tokens(*line), line.span, keyword@) {
            Ok(v) => r matches Ok(x) && named_view(x) == v,
            Err(e) => r matches Err(d) && d@ == e,
        },
{
    let ghost lt = line_tokens(*line);
    let first = match word_at(line, 0) {
        Some(w) => str_eq(w, keyword),
        None => false,
    };
    if !first {
        return Err(
            Diagnostic::error(
                "RSPDL-KO-SYN-004",
                "ko.syntax.annotated_declaration_required",
                span_of(line),
            ).with_argument("keyword", keyword).with_argument("id_kind", "stable_id"),
        );
    }
    let n = line.tokens.len();
    let mut i: usize = 0;
    while i < n
        invariant
            lt == line_tokens(*line),
            n == lt.len(),
            i <= n,
            word_at_spec(lt, 0) == Some(keyword@),
            forall|j: int| 0 <= j < i ==> !#[trigger] is_stop_mark(lt[j].kind),
        decreases n - i,
    {
        assert(lt[i as int] == line.tokens@[i as int]@);
        match &line.tokens[i].kind {
            TokenKind::Period | TokenKind::Colon => {
                assert(is_stop_mark(lt[i as int].kind));
                return Err(
                    Diagnostic::error(
                        "RSPDL-KO-SYN-004",
                        "ko.syntax.declaration_punctuation_forbidden",
                        span_of(line),
                    ),
                );
            },
            _ => {},
        }
        i = i + 1;
    }
    parse_name_with_id(line, 1, n - 1)
}

/// Whether `t` is the type that the name `name` denotes: the built-in string, integer and
/// boolean types by their Korean names, any other name as a named type.
pub open spec fn type_named(t: TypeReferenceAst, name: Seq<char>) -> bool {
    if name == "문자열"@ {
        t is String
    } else if name == "정수"@ {
        t is Integer
    } else if name == "불리언"@ {
        t is Boolean
    } else {
        t matches TypeReferenceAst::Named(n) && n@ == name
    }
}

/// The type name made of the tokens from `start` to the end of the line.
pub open spec fn type_reference_spec(ts: Seq<TokenView>, start: int, span: Span) -> Result<
    Seq<char>,
    DiagnosticView,
> {
    if start >= ts.len() {
        Err(error_view("RSPDL-KO-SYN-011"@, "ko.syntax.field_type_required"@, span))
    } else {
        let k = first_non_name(ts, start, ts.len() as int);
        if k < ts.len() {
            Err(error_view("RSPDL-KO-SYN-011"@, "ko.syntax.field_type_invalid"@, ts[k].span))
        } else {
            let name = joined(ts.subrange(start, ts.len() as int));
            if name.len() == 0 {
                Err(error_view("RSPDL-KO-SYN-011"@, "ko.syntax.field_type_required"@, span))
            } else {
                Ok(name)
            }
        }
    }
}

/// Reads the type written from `start` to the end of the line.
pub fn parse_type_reference(line: &Line, start: usize) -> (r: Result<TypeReferenceAst, Diagnostic>)
    ensures
        match type_reference_spec(line_tokens(*line), start as int, line.span) {
            Ok(name) => r matches Ok(t) && type_named(t, name),
            Err(e) => r matches Err(d) && d@ == e,
        },
{
    let ghost lt = line_tokens(*line);
    let n = line.tokens.len();
    if start >= n {
        return Err(Diagnostic::error("RSPDL-KO-SYN-011", "ko.syntax.field_type_required", span_of(line)));
    }
    let all = line.tokens.as_slice();
    proof {
        assert(tokens_of(all) =~= lt);
    }
    let mut k = start;
    while k < n
        invariant
            lt == line_tokens(*line),
            lt == tokens_of(all),
            all@ == line.tokens@,
            n == lt.len(),
            start < n,
            start <= k <= n,
            first_non_name(lt, start as int, n as int) == first_non_name(lt, k as int, n as int),
        decreases n - k,
    {
        assert(lt[k as int] == line.tokens@[k as int]@);
        if !crate::declarations::is_name_token(&all[k]) {
            return Err(
                Diagnostic::error("RSPDL-KO-SYN-011", "ko.syntax.field_type_invalid", all[k].span),
            );
        }
        k = k + 1;
    }
    let name = join_names(all, start, n);
    if name.as_str().is_empty() {
        return Err(Diagnostic::error("RSPDL-KO-SYN-011", "ko.syntax.field_type_required", span_of(line)));
    }
    if str_eq(name.as_str(), "문자열") {
        Ok(TypeReferenceAst::String)
    } else if str_eq(name.as_str(), "정수") {
        Ok(TypeReferenceAst::Integer)
    } else if str_eq(name.as_str(), "불리언") {
        Ok(TypeReferenceAst::Boolean)
    } else {
        Ok(TypeReferenceAst::Named(name))
    }
}

} // verus!
