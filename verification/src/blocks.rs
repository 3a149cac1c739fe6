//! Declarations that carry a block: the module header, enumerations with one value per
//! indented line, and data models with one field per indented line.
use vstd::prelude::*;

use crate::ast::{DataModelAst, EnumAst, EnumValueAst, FieldAst, ModuleAst, NamedIdAst};
use crate::diagnostic::{diagnostics_view, error_view, Diagnostic, DiagnosticView, Span};
use crate::parser::{
    annotated_name_spec, bad_block_indent, ensure_body, line_tokens, name_with_id_spec,
    named_view, natural_header_spec, parse_annotated_name, parse_name_with_id,
    parse_natural_header, parse_type_reference, type_named, type_reference_spec, word_at,
    word_at_spec, word_views, Line,
};
use crate::scanner::{TokenKind, TokenView};
use crate::text::str_eq;

verus! {

/// The module header: `@모듈 name id` at the top level.
pub open spec fn module_spec(line: Line) -> Result<(Seq<char>, Seq<char>, Span), DiagnosticView> {
    if line.indent != 0 {
        Err(error_view("RSPDL-KO-SYN-001"@, "ko.syntax.module_header_required"@, line.span))
    } else {
        annotated_name_spec(line_tokens(line), line.span, "@모듈"@)
    }
}

/// Reads the module header; the module spans its line.
pub fn parse_module(line: &Line, diagnostics: &mut Vec<Diagnostic>) -> (r: Result<ModuleAst, Diagnostic>)
    ensures
        final(diagnostics)@ == old(diagnostics)@,
        match module_spec(*line) {
            Ok(v) => r matches Ok(m) && named_view(m.declaration) == v && m.span == line.span,
            Err(e) => r matches Err(d) && d@ == e,
        },
{
    if line.indent != 0 {
        return Err(Diagnostic::error("RSPDL-KO-SYN-001", "ko.syntax.module_header_required", line.span));
    }
    match parse_annotated_name(line, "@모듈") {
        Ok(declaration) => Ok(ModuleAst { declaration, span: line.span }),
        Err(e) => Err(e),
    }
}

/// Whether one of the tokens is a period.
pub open spec fn has_period(ts: Seq<TokenView>) -> bool {
    exists|i: int| 0 <= i < ts.len() && #[trigger] is_period_kind(ts[i])
}

pub open spec fn is_period_kind(t: TokenView) -> bool {
    t.kind is Period
}

fn line_has_period(line: &Line) -> (b: bool)
    ensures
        b == has_period(line_tokens(*line)),
{
    let ghost lt = line_tokens(*line);
    let mut i: usize = 0;
    while i < line.tokens.len()
        invariant
            lt == line_tokens(*line),
            i <= lt.len(),
            forall|j: int| 0 <= j < i ==> !#[trigger] is_period_kind(lt[j]),
        decreases lt.len() - i,
    {
        assert(lt[i as int] == line.tokens@[i as int]@);
        match &line.tokens[i].kind {
            TokenKind::Period => {
                assert(is_period_kind(lt[i as int]));
                return true;
            },
            _ => {},
        }
        i = i + 1;
    }
    false
}

/// One value of an enumeration: an item line `name id` with no period.
pub open spec fn enum_item_spec(item: Line) -> Result<(Seq<char>, Seq<char>, Span), DiagnosticView> {
    let ts = line_tokens(item);
    if item.indent != 1 {
        Err(error_view("RSPDL-KO-SYN-009"@, "ko.syntax.block_indent_inconsistent"@, item.span))
    } else if has_period(ts) {
        Err(error_view("RSPDL-KO-SYN-012"@, "ko.syntax.item_period_forbidden"@, item.span))
    } else if ts.len() == 0 {
        Err(error_view("RSPDL-KO-SYN-005"@, "ko.syntax.enum_value_required"@, item.span))
    } else {
        name_with_id_spec(ts, 0, ts.len() - 1, item.span)
    }
}

/// The values of an enumeration block, or the diagnostic of its first bad item.
pub open spec fn enum_items_spec(body: Seq<Line>) -> Result<Seq<((Seq<char>, Seq<char>, Span), Span)>, DiagnosticView>
    decreases body.len(),
{
    if body.len() == 0 {
        Ok(Seq::empty())
    } else {
        match enum_items_spec(body.drop_last()) {
            Err(e) => Err(e),
            Ok(vs) => match enum_item_spec(body.last()) {
                Err(e) => Err(e),
                Ok(v) => Ok(vs.push((v, body.last().span))),
            },
        }
    }
}

pub open spec fn enum_value_view(v: EnumValueAst) -> ((Seq<char>, Seq<char>, Span), Span) {
    (named_view(v.declaration), v.span)
}

fn read_enum_item(item: &Line) -> (r: Result<NamedIdAst, Diagnostic>)
    ensures
        match enum_item_spec(*item) {
            Ok(v) => r matches Ok(x) && named_view(x) == v,
            Err(e) => r matches Err(d) && d@ == e,
        },
{
    if item.indent != 1 {
        return Err(bad_block_indent(item));
    }
    if line_has_period(item) {
        return Err(Diagnostic::error("RSPDL-KO-SYN-012", "ko.syntax.item_period_forbidden", item.span));
    }
    let n = item.tokens.len();
    if n == 0 {
        return Err(Diagnostic::error("RSPDL-KO-SYN-005", "ko.syntax.enum_value_required", item.span));
    }
    parse_name_with_id(item, 0, n - 1)
}

/// `name(id)은|는 다음 값 중 하나다.` with one value per indented line.
pub open spec fn enum_spec(line: Line, body: Seq<Line>) -> (Seq<DiagnosticView>, Result<
    ((Seq<char>, Seq<char>, Span), Seq<((Seq<char>, Seq<char>, Span), Span)>),
    DiagnosticView,
>) {
    match natural_header_spec(line_tokens(line), line.span, seq!["다음"@, "값"@, "중"@, "하나다"@]) {
        Err(e) => (Seq::empty(), Err(e)),
        Ok((declaration, lints)) => if body.len() == 0 {
            (lints, Err(error_view("RSPDL-KO-SYN-008"@, "ko.syntax.block_item_required"@, line.span)))
        } else {
            match enum_items_spec(body) {
                Err(e) => (lints, Err(e)),
                Ok(values) => (lints, Ok((declaration, values))),
            }
        },
    }
}

/// Reads an enumeration and its values; it spans its header line, each value its own line.
/// The lint of the header's particle is reported even when a value is rejected.
pub fn parse_enum(line: &Line, body: &[Line], diagnostics: &mut Vec<Diagnostic>) -> (r: Result<
    EnumAst,
    Diagnostic,
>)
    ensures
        diagnostics_view(final(diagnostics)@) == diagnostics_view(old(diagnostics)@) + enum_spec(
            *line,
            body@,
        ).0,
        match enum_spec(*line, body@).1 {
            Ok((declaration, values)) => r matches Ok(x) && named_view(x.declaration) == declaration
                && x.values@.map_values(|v: EnumValueAst| enum_value_view(v)) == values && x.span
                == line.span,
            Err(e) => r matches Err(d) && d@ == e,
        },
{
    let words = ["다음", "값", "중", "하나다"];
    proof {
        assert(word_views(words@) =~= seq!["다음"@, "값"@, "중"@, "하나다"@]);
        assert(diagnostics_view(diagnostics@) + Seq::<DiagnosticView>::empty() =~= diagnostics_view(
            diagnostics@,
        ));
    }
    let declaration = match parse_natural_header(line, &words, diagnostics) {
        Ok(d) => d,
        Err(e) => {
            return Err(e);
        },
    };
    match ensure_body(body, line.span) {
        Ok(()) => {},
        Err(e) => {
            return Err(e);
        },
    }
    let ghost b = body@;
    let ghost dv = named_view(declaration);
    let ghost spec_out = enum_spec(*line, b);
    proof {
        assert(spec_out.1 == match enum_items_spec(b) {
            Err(e) => Err(e),
            Ok(values) => Ok((dv, values)),
        });
    }
    let mut values: Vec<EnumValueAst> = Vec::new();
    let mut k: usize = 0;
    proof {
        assert(b.take(0) =~= Seq::<Line>::empty());
        assert(values@.map_values(|v: EnumValueAst| enum_value_view(v)) =~= Seq::<
            ((Seq<char>, Seq<char>, Span), Span),
        >::empty());
    }
    while k < body.len()
        invariant
            b == body@,
            k <= b.len(),
            spec_out == enum_spec(*line, b),
            dv == named_view(declaration),
            diagnostics_view(diagnostics@) == diagnostics_view(old(diagnostics)@) + spec_out.0,
            spec_out.1 == match enum_items_spec(b) {
                Err(e) => Err(e),
                Ok(values) => Ok((dv, values)),
            },
            enum_items_spec(b.take(k as int)) matches Ok(vs) && values@.map_values(
                |v: EnumValueAst| enum_value_view(v),
            ) == vs,
        decreases b.len() - k,
    {
        proof {
            assert(b.take(k + 1).drop_last() =~= b.take(k as int));
            assert(b.take(k + 1).last() == b[k as int]);
        }
        let item = &body[k];
        let value = match read_enum_item(item) {
            Ok(d) => d,
            Err(e) => {
                proof {
                    lemma_enum_items_stop(b, k as int);
                }
                return Err(e);
            },
        };
        let ghost before = values@;
        values.push(EnumValueAst { declaration: value, span: item.span });
        proof {
            assert(values@.map_values(|v: EnumValueAst| enum_value_view(v)) =~= before.map_values(
                |v: EnumValueAst| enum_value_view(v),
            ).push(enum_value_view(values@.last())));
        }
        k = k + 1;
    }
    proof {
        assert(b.take(b.len() as int) =~= b);
    }
    Ok(EnumAst { declaration, values, span: line.span })
}

/// Once an item fails, the whole block fails with its diagnostic.
proof fn lemma_enum_items_stop(b: Seq<Line>, k: int)
    requires
        0 <= k < b.len(),
        enum_items_spec(b.take(k)) is Ok,
        enum_item_spec(b[k]) is Err,
    ensures
        enum_items_spec(b) == Err::<Seq<((Seq<char>, Seq<char>, Span), Span)>, DiagnosticView>(
            enum_item_spec(b[k])->Err_0,
        ),
    decreases b.len() - k,
{
    assert(b.take(k + 1).drop_last() =~= b.take(k));
    assert(b.take(k + 1).last() == b[k]);
    lemma_enum_items_prefix_err(b, k + 1);
}

/// A failing prefix makes the whole block fail the same way.
proof fn lemma_enum_items_prefix_err(b: Seq<Line>, k: int)
    requires
        0 <= k <= b.len(),
        enum_items_spec(b.take(k)) is Err,
    ensures
        enum_items_spec(b) == enum_items_spec(b.take(k)),
    decreases b.len() - k,
{
    if k == b.len() {
        assert(b.take(k) =~= b);
    } else {
        assert(b.take(k + 1).drop_last() =~= b.take(k));
        lemma_enum_items_prefix_err(b, k + 1);
    }
}

/// Index of the first colon at or after `i`, or the length when there is none.
pub open spec fn first_colon_from(ts: Seq<TokenView>, i: int) -> int
    decreases ts.len() - i,
{
    if i < 0 || i >= ts.len() {
        ts.len() as int
    } else if ts[i].kind is Colon {
        i
    } else {
        first_colon_from(ts, i + 1)
    }
}

proof fn lemma_first_colon_from(ts: Seq<TokenView>, i: int)
    requires
        0 <= i <= ts.len(),
    ensures
        i <= first_colon_from(ts, i) <= ts.len(),
    decreases ts.len() - i,
{
    if i < ts.len() && !(ts[i].kind is Colon) {
        lemma_first_colon_from(ts, i + 1);
    }
}

fn first_colon(line: &Line) -> (k: usize)
    ensures
        k as int == first_colon_from(line_tokens(*line), 0),
{
    let ghost lt = line_tokens(*line);
    let mut k: usize = 0;
    while k < line.tokens.len()
        invariant
            lt == line_tokens(*line),
            k <= lt.len(),
            first_colon_from(lt, 0) == first_colon_from(lt, k as int),
        decreases lt.len() - k,
    {
        assert(lt[k as int] == line.tokens@[k as int]@);
        match &line.tokens[k].kind {
            TokenKind::Colon => {
                return k;
            },
            _ => {},
        }
        k = k + 1;
    }
    k
}

/// One field of a data model: `name id: 필수|선택 <type>`, with no period.
pub open spec fn field_item_spec(item: Line) -> Result<((Seq<char>, Seq<char>, Span), bool, Seq<char>, Span), DiagnosticView> {
    let ts = line_tokens(item);
    let c = first_colon_from(ts, 0);
    if item.indent != 1 {
        Err(error_view("RSPDL-KO-SYN-009"@, "ko.syntax.block_indent_inconsistent"@, item.span))
    } else if c >= ts.len() {
        Err(error_view("RSPDL-KO-SYN-010"@, "ko.syntax.field_colon_required"@, item.span))
    } else if c == 0 {
        Err(error_view("RSPDL-KO-SYN-010"@, "ko.syntax.field_shape_required"@, item.span))
    } else {
        match name_with_id_spec(ts, 0, c - 1, item.span) {
            Err(e) => Err(e),
            Ok(field) => if has_period(ts) {
                Err(error_view("RSPDL-KO-SYN-012"@, "ko.syntax.item_period_forbidden"@, item.span))
            } else {
                let w = word_at_spec(ts, c + 1);
                if !(w == Some("필수"@) || w == Some("선택"@)) {
                    Err(error_view("RSPDL-KO-SYN-010"@, "ko.syntax.field_requiredness_required"@, item.span))
                } else {
                    match type_reference_spec(ts, c + 2, item.span) {
                        Err(e) => Err(e),
                        Ok(name) => Ok((field, w == Some("필수"@), name, item.span)),
                    }
                }
            },
        }
    }
}

/// The fields of a data model block, or the diagnostic of its first bad item.
pub open spec fn field_items_spec(body: Seq<Line>) -> Result<Seq<((Seq<char>, Seq<char>, Span), bool, Seq<char>, Span)>, DiagnosticView>
    decreases body.len(),
{
    if body.len() == 0 {
        Ok(Seq::empty())
    } else {
        match field_items_spec(body.drop_last()) {
            Err(e) => Err(e),
            Ok(fs) => match field_item_spec(body.last()) {
                Err(e) => Err(e),
                Ok(f) => Ok(fs.push(f)),
            },
        }
    }
}

/// Whether the field is the one described by `v`: declaration, requiredness, type and span.
pub open spec fn field_is(f: FieldAst, v: ((Seq<char>, Seq<char>, Span), bool, Seq<char>, Span)) -> bool {
    &&& named_view(f.declaration) == v.0
    &&& f.required == v.1
    &&& type_named(f.value_type, v.2)
    &&& f.span == v.3
}

pub open spec fn fields_are(fs: Seq<FieldAst>, vs: Seq<((Seq<char>, Seq<char>, Span), bool, Seq<char>, Span)>) -> bool {
    fs.len() == vs.len() && forall|i: int| 0 <= i < fs.len() ==> #[trigger] field_is(fs[i], vs[i])
}

fn read_field_item(item: &Line) -> (r: Result<FieldAst, Diagnostic>)
    ensures
        match field_item_spec(*item) {
            Ok(v) => r matches Ok(f) && field_is(f, v),
            Err(e) => r matches Err(d) && d@ == e,
        },
{
    let ghost lt = line_tokens(*item);
    if item.indent != 1 {
        return Err(bad_block_indent(item));
    }
    let c = first_colon(item);
    if c >= item.tokens.len() {
        return Err(Diagnostic::error("RSPDL-KO-SYN-010", "ko.syntax.field_colon_required", item.span));
    }
    if c == 0 {
        return Err(Diagnostic::error("RSPDL-KO-SYN-010", "ko.syntax.field_shape_required", item.span));
    }
    let declaration = match parse_name_with_id(item, 0, c - 1) {
        Ok(d) => d,
        Err(e) => {
            return Err(e);
        },
    };
    if line_has_period(item) {
        return Err(Diagnostic::error("RSPDL-KO-SYN-012", "ko.syntax.item_period_forbidden", item.span));
    }
    let required = match word_at(item, c + 1) {
        Some(w) => {
            if str_eq(w, "필수") {
                true
            } else if str_eq(w, "선택") {
                false
            } else {
                return Err(
                    Diagnostic::error("RSPDL-KO-SYN-010", "ko.syntax.field_requiredness_required", item.span),
                );
            }
        },
        None => {
            return Err(
                Diagnostic::error("RSPDL-KO-SYN-010", "ko.syntax.field_requiredness_required", item.span),
            );
        },
    };
    let value_type = match parse_type_reference(item, c + 2) {
        Ok(t) => t,
        Err(e) => {
            return Err(e);
        },
    };
    Ok(FieldAst { declaration, required, value_type, span: item.span })
}

proof fn lemma_field_items_stop(b: Seq<Line>, k: int)
    requires
        0 <= k < b.len(),
        field_items_spec(b.take(k)) is Ok,
        field_item_spec(b[k]) is Err,
    ensures
        field_items_spec(b) == Err::<Seq<((Seq<char>, Seq<char>, Span), bool, Seq<char>, Span)>, DiagnosticView>(
            field_item_spec(b[k])->Err_0,
        ),
{
    assert(b.take(k + 1).drop_last() =~= b.take(k));
    assert(b.take(k + 1).last() == b[k]);
    lemma_field_items_prefix_err(b, k + 1);
}

proof fn lemma_field_items_prefix_err(b: Seq<Line>, k: int)
    requires
        0 <= k <= b.len(),
        field_items_spec(b.take(k)) is Err,
    ensures
        field_items_spec(b) == field_items_spec(b.take(k)),
    decreases b.len() - k,
{
    if k == b.len() {
        assert(b.take(k) =~= b);
    } else {
        assert(b.take(k + 1).drop_last() =~= b.take(k));
        lemma_field_items_prefix_err(b, k + 1);
    }
}

/// `name(id)은|는 다음 필드들로 구성되어 있다.` with one field per indented line.
pub open spec fn model_spec(line: Line, body: Seq<Line>) -> (Seq<DiagnosticView>, Result<
    ((Seq<char>, Seq<char>, Span), Seq<((Seq<char>, Seq<char>, Span), bool, Seq<char>, Span)>),
    DiagnosticView,
>) {
    match natural_header_spec(line_tokens(line), line.span, seq!["다음"@, "필드들로"@, "구성되어"@, "있다"@]) {
        Err(e) => (Seq::empty(), Err(e)),
        Ok((declaration, lints)) => if body.len() == 0 {
            (lints, Err(error_view("RSPDL-KO-SYN-008"@, "ko.syntax.block_item_required"@, line.span)))
        } else {
            match field_items_spec(body) {
                Err(e) => (lints, Err(e)),
                Ok(fields) => (lints, Ok((declaration, fields))),
            }
        },
    }
}

/// Reads a data model and its fields; it spans its header line, each field its own line.
/// The lint of the header's particle is reported even when a field is rejected.
pub fn parse_model(line: &Line, body: &[Line], diagnostics: &mut Vec<Diagnostic>) -> (r: Result<
    DataModelAst,
    Diagnostic,
>)
    ensures
        diagnostics_view(final(diagnostics)@) == diagnostics_view(old(diagnostics)@) + model_spec(
            *line,
            body@,
        ).0,
        match model_spec(*line, body@).1 {
            Ok((declaration, fields)) => r matches Ok(x) && named_view(x.declaration) == declaration
                && fields_are(x.fields@, fields) && x.span == line.span,
            Err(e) => r matches Err(d) && d@ == e,
        },
{
    let words = ["다음", "필드들로", "구성되어", "있다"];
    proof {
        assert(word_views(words@) =~= seq!["다음"@, "필드들로"@, "구성되어"@, "있다"@]);
        assert(diagnostics_view(diagnostics@) + Seq::<DiagnosticView>::empty() =~= diagnostics_view(
            diagnostics@,
        ));
    }
    let declaration = match parse_natural_header(line, &words, diagnostics) {
        Ok(d) => d,
        Err(e) => {
            return Err(e);
        },
    };
    match ensure_body(body, line.span) {
        Ok(()) => {},
        Err(e) => {
            return Err(e);
        },
    }
    let ghost b = body@;
    let ghost dv = named_view(declaration);
    let ghost spec_out = model_spec(*line, b);
    proof {
        assert(spec_out.1 == match field_items_spec(b) {
            Err(e) => Err(e),
            Ok(fields) => Ok((dv, fields)),
        });
    }
    let mut fields: Vec<FieldAst> = Vec::new();
    let mut k: usize = 0;
    proof {
        assert(b.take(0) =~= Seq::<Line>::empty());
    }
    while k < body.len()
        invariant
            b == body@,
            k <= b.len(),
            spec_out == model_spec(*line, b),
            dv == named_view(declaration),
            diagnostics_view(diagnostics@) == diagnostics_view(old(diagnostics)@) + spec_out.0,
            spec_out.1 == match field_items_spec(b) {
                Err(e) => Err(e),
                Ok(fields) => Ok((dv, fields)),
            },
            field_items_spec(b.take(k as int)) matches Ok(vs) && fields_are(fields@, vs),
        decreases b.len() - k,
    {
        proof {
            assert(b.take(k + 1).drop_last() =~= b.take(k as int));
            assert(b.take(k + 1).last() == b[k as int]);
        }
        let item = &body[k];
        let field = match read_field_item(item) {
            Ok(f) => f,
            Err(e) => {
                proof {
                    lemma_field_items_stop(b, k as int);
                }
                return Err(e);
            },
        };
        let ghost before = fields@;
        let ghost vs = field_items_spec(b.take(k as int))->Ok_0;
        fields.push(field);
        proof {
            let vs2 = field_items_spec(b.take(k + 1))->Ok_0;
            assert(vs2 == vs.push(field_item_spec(b[k as int])->Ok_0));
            assert forall|i: int| 0 <= i < fields@.len() implies #[trigger] field_is(fields@[i], vs2[i]) by {
                if i < before.len() {
                    assert(field_is(before[i], vs[i]));
                }
            }
        }
        k = k + 1;
    }
    proof {
        assert(b.take(b.len() as int) =~= b);
    }
    Ok(DataModelAst { declaration, fields, span: line.span })
}

} // verus!
