//! Screen declarations: `화면(id)에서는 모델을 생성할 수 있다.` for an operation on a whole
//! model, and `화면(id)에서는 모델의 필드, 필드를 입력할 수 있다.` for one on some of its fields.
//!
//! The fields are a list cut at commas (see [`crate::list`]); the last of them carries the
//! object particle.
use vstd::prelude::*;

use crate::ast::{ScreenAst, ScreenOperationKindAst};
use crate::creation::{first_marker, first_marker_exec, lemma_first_marker, marker_views};
use crate::cursor::{cursor_error, cursor_ref_spec, expect_word_spec, next_word_spec, BodyCursor};
use crate::declarations::{is_name_part, join_names, joined, part_text, tokens_of};
use crate::diagnostic::{diagnostics_view, error_view, Diagnostic, DiagnosticView, Span};
use crate::parser::{
    first_id, first_id_from, first_non_name, lemma_first_id_from, line_tokens, lint_marker,
    lint_spec, name_with_id_spec, named_view, parse_name_with_id, sentence_spec, sentence_tokens,
    Line,
};
use crate::scanner::{Token, TokenKind, TokenView};
use crate::list::{comma_split, first_non_name_at, items_view, split_items};
use crate::parser::lemma_first_non_name;
use crate::text::{chars_of, str_eq, string_of};

verus! {

/// The name of the last field of a list, which carries the object particle `을|를`: taken
/// off its last word, or dropped when it is a word of its own after a quoted name.
pub open spec fn last_field_spec(ts: Seq<TokenView>, span: Span) -> Result<Seq<char>, DiagnosticView> {
    let last = part_text(ts.last().kind);
    let n = ts.len() as int;
    if n > 1 && (last == "을"@ || last == "를"@) && ts[n - 2].kind is QuotedIdentifier {
        Ok(joined(ts.drop_last()))
    } else {
        let ms = seq!["을"@, "를"@];
        let m = first_marker(last, ms);
        if m < 0 {
            Err(error_view("RSPDL-KO-SYN-062"@, "ko.syntax.field_list_final_marker_required"@, span))
        } else {
            let base = last.subrange(0, last.len() - ms[m].len());
            Ok(
                if n == 1 {
                    base
                } else {
                    joined(ts.drop_last()) + seq![' '] + base
                },
            )
        }
    }
}

/// `pre` before the names of `r`, or the error of `r`.
pub open spec fn after_names(pre: Seq<Seq<char>>, r: Result<Seq<Seq<char>>, DiagnosticView>) -> Result<
    Seq<Seq<char>>,
    DiagnosticView,
> {
    match r {
        Ok(rest) => Ok(pre + rest),
        Err(e) => Err(e),
    }
}

/// The names of the field list items from `i` on.
pub open spec fn field_items_spec(items: Seq<Seq<TokenView>>, i: int, span: Span) -> Result<
    Seq<Seq<char>>,
    DiagnosticView,
>
    decreases items.len() - i,
{
    if i < 0 || i >= items.len() {
        Ok(Seq::empty())
    } else {
        let item = items[i];
        if item.len() == 0 {
            Err(error_view("RSPDL-KO-SYN-062"@, "ko.syntax.field_list_empty_name"@, span))
        } else if first_non_name(item, 0, item.len() as int) < item.len() {
            Err(
                error_view(
                    "RSPDL-KO-SYN-062"@,
                    "ko.syntax.field_list_invalid"@,
                    item[first_non_name(item, 0, item.len() as int)].span,
                ),
            )
        } else {
            let name = if i == items.len() - 1 {
                last_field_spec(item, span)
            } else {
                Ok(joined(item))
            };
            match name {
                Err(e) => Err(e),
                Ok(v) => after_names(seq![v], field_items_spec(items, i + 1, span)),
            }
        }
    }
}

/// The field names of a list ending in the object particle `을|를`.
pub open spec fn field_list_spec(ts: Seq<TokenView>, span: Span) -> Result<Seq<Seq<char>>, DiagnosticView> {
    if ts.len() == 0 {
        Err(error_view("RSPDL-KO-SYN-062"@, "ko.syntax.field_list_required"@, span))
    } else {
        field_items_spec(comma_split(ts), 0, span)
    }
}

fn name_part_text(t: &Token) -> (s: &str)
    requires
        is_name_part(t@.kind),
    ensures
        s@ == part_text(t@.kind),
{
    match &t.kind {
        TokenKind::Word(v) => v.as_str(),
        TokenKind::QuotedIdentifier(v) => v.as_str(),
        _ => {
            proof {
                assert(false);
            }
            ""
        },
    }
}

fn last_field(tokens: &[Token], span: Span) -> (r: Result<String, Diagnostic>)
    requires
        tokens@.len() > 0,
        forall|k: int| 0 <= k < tokens@.len() ==> is_name_part(#[trigger] tokens@[k]@.kind),
    ensures
        match last_field_spec(tokens_of(tokens), span) {
            Ok(name) => r matches Ok(v) && v@ == name,
            Err(e) => r matches Err(d) && d@ == e,
        },
{
    let ghost ts = tokens_of(tokens);
    let n = tokens.len();
    proof {
        assert(ts[n - 1] == tokens@[n - 1]@);
        if n > 1 {
            assert(ts[n - 2] == tokens@[n - 2]@);
        }
        assert(ts.subrange(0, n - 1) =~= ts.drop_last());
    }
    let last = name_part_text(&tokens[n - 1]);
    let quoted_before = n > 1 && match &tokens[n - 2].kind {
        TokenKind::QuotedIdentifier(_) => true,
        _ => false,
    };
    if quoted_before && (str_eq(last, "을") || str_eq(last, "를")) {
        return Ok(join_names(tokens, 0, n - 1));
    }
    let markers = ["을", "를"];
    proof {
        assert(marker_views(markers@) =~= seq!["을"@, "를"@]);
    }
    let wc = chars_of(last);
    match first_marker_exec(&wc, &markers) {
        None => Err(
            Diagnostic::error("RSPDL-KO-SYN-062", "ko.syntax.field_list_final_marker_required", span),
        ),
        Some(m) => {
            proof {
                lemma_first_marker(wc@, marker_views(markers@), 0);
            }
            let mc = chars_of(markers[m]);
            let base = string_of(wc.as_slice(), 0, wc.len() - mc.len());
            if n == 1 {
                Ok(base)
            } else {
                let mut v = join_names(tokens, 0, n - 1);
                v.append(" ");
                v.append(base.as_str());
                proof {
                    reveal_strlit(" ");
                    assert(" "@ =~= seq![' ']);
                }
                Ok(v)
            }
        },
    }
}

/// Reads the names of a field list.
pub fn parse_field_list(tokens: &[Token], span: Span) -> (r: Result<Vec<String>, Diagnostic>)
    ensures
        match field_list_spec(tokens_of(tokens), span) {
            Ok(names) => r matches Ok(v) && v@.map_values(|s: String| s@) == names,
            Err(e) => r matches Err(d) && d@ == e,
        },
{
    if tokens.len() == 0 {
        return Err(Diagnostic::error("RSPDL-KO-SYN-062", "ko.syntax.field_list_required", span));
    }
    let items = split_items(tokens);
    let ghost iv = items_view(items@);
    let mut out: Vec<String> = Vec::new();
    let mut i: usize = 0;
    proof {
        assert(out@.map_values(|s: String| s@) + field_items_spec(iv, 0, span)->Ok_0 =~= field_items_spec(iv, 0, span)->Ok_0);
        assert(after_names(out@.map_values(|s: String| s@), field_items_spec(iv, 0, span)) == field_items_spec(iv, 0, span));
    }
    while i < items.len()
        invariant
            iv == items_view(items@),
            iv == comma_split(tokens_of(tokens)),
            tokens@.len() > 0,
            i <= items@.len(),
            after_names(out@.map_values(|s: String| s@), field_items_spec(iv, i as int, span)) == field_items_spec(iv, 0, span),
        decreases items@.len() - i,
    {
        let item = items[i].as_slice();
        let ghost tv = iv[i as int];
        proof {
            assert(tokens_of(item) =~= tv);
        }
        if item.len() == 0 {
            let d = Diagnostic::error("RSPDL-KO-SYN-062", "ko.syntax.field_list_empty_name", span);
            proof {
                assert(tv.len() == 0);
                assert(field_items_spec(iv, i as int, span) == Err::<Seq<Seq<char>>, DiagnosticView>(d@));
            }
            return Err(d);
        }
        let k = first_non_name_at(item);
        if k < item.len() {
            proof {
                assert(tv[k as int] == item@[k as int]@);
            }
            return Err(Diagnostic::error("RSPDL-KO-SYN-062", "ko.syntax.field_list_invalid", item[k].span));
        }
        proof {
            lemma_first_non_name(tv, 0, tv.len() as int);
            assert forall|q: int| 0 <= q < item@.len() implies is_name_part(#[trigger] item@[q]@.kind) by {
                assert(tv[q] == item@[q]@);
            }
            assert(tv.subrange(0, tv.len() as int) =~= tv);
        }
        let name = if i == items.len() - 1 {
            match last_field(item, span) {
                Ok(v) => v,
                Err(e) => {
                    return Err(e);
                },
            }
        } else {
            join_names(item, 0, item.len())
        };
        let ghost pre = out@.map_values(|s: String| s@);
        out.push(name);
        proof {
            assert(out@.map_values(|s: String| s@) =~= pre + seq![name@]);
            match field_items_spec(iv, i + 1, span) {
                Ok(rest) => {
                    assert(pre + (seq![name@] + rest) =~= (pre + seq![name@]) + rest);
                },
                Err(_) => {},
            }
        }
        i = i + 1;
    }
    proof {
        assert(out@.map_values(|s: String| s@) + Seq::<Seq<char>>::empty() =~= out@.map_values(|s: String| s@));
    }
    Ok(out)
}

/// What a screen's sentence reads as: its declaration, its model, the fields it names, the
/// operation, and the lint of the object particle when the sentence names the whole model.
pub open spec fn screen_spec(ts: Seq<TokenView>, span: Span, body_len: nat) -> Result<
    ((Seq<char>, Seq<char>, Span), Seq<char>, Seq<Seq<char>>, ScreenOperationKindAst, Seq<DiagnosticView>),
    DiagnosticView,
> {
    if body_len != 0 {
        Err(error_view("RSPDL-KO-SYN-060"@, "ko.syntax.screen_must_be_sentence"@, span))
    } else {
        match sentence_spec(ts, span) {
            Err(e) => Err(e),
            Ok(st) => {
                let id = first_id_from(st, 0);
                if id >= st.len() {
                    Err(error_view("RSPDL-KO-SYN-061"@, "ko.syntax.screen_stable_id_required"@, span))
                } else {
                    match name_with_id_spec(ts, 0, id, span) {
                        Err(e) => Err(e),
                        Ok(declaration) => screen_rest_spec(st.subrange(id + 1, st.len() as int), span, declaration),
                    }
                }
            },
        }
    }
}

/// The part of a screen sentence after its stable ID.
pub open spec fn screen_rest_spec(rest: Seq<TokenView>, span: Span, declaration: (Seq<char>, Seq<char>, Span)) -> Result<
    ((Seq<char>, Seq<char>, Span), Seq<char>, Seq<Seq<char>>, ScreenOperationKindAst, Seq<DiagnosticView>),
    DiagnosticView,
> {
    match expect_word_spec(rest, 0, span, "에서는"@) {
        Err(e) => Err(e),
        Ok(a) => match cursor_ref_spec(rest, a, span, seq!["의"@, "을"@, "를"@]) {
            Err(e) => Err(e),
            Ok((b, model, marker)) => {
                let ops = if marker == "의"@ {
                    if rest.len() - b < 3 {
                        Err(cursor_error(rest, b, span, "ko.syntax.screen_field_operation_required"@))
                    } else {
                        let op_index = rest.len() - 3;
                        match field_list_spec(rest.subrange(b, op_index), span) {
                            Err(e) => Err(e),
                            Ok(fields) => {
                                let (c, w) = next_word_spec(rest, op_index);
                                if w == Some("조회할"@) {
                                    Ok((c, fields, ScreenOperationKindAst::Read))
                                } else if w == Some("입력할"@) {
                                    Ok((c, fields, ScreenOperationKindAst::Input))
                                } else if w == Some("수정할"@) {
                                    Ok((c, fields, ScreenOperationKindAst::Update))
                                } else {
                                    Err(cursor_error(rest, c, span, "ko.syntax.screen_field_operation_invalid"@))
                                }
                            },
                        }
                    }
                } else {
                    let (c, w) = next_word_spec(rest, b);
                    if w == Some("생성할"@) {
                        Ok((c, Seq::<Seq<char>>::empty(), ScreenOperationKindAst::Create))
                    } else if w == Some("조회할"@) {
                        Ok((c, Seq::<Seq<char>>::empty(), ScreenOperationKindAst::Read))
                    } else if w == Some("수정할"@) {
                        Ok((c, Seq::<Seq<char>>::empty(), ScreenOperationKindAst::Update))
                    } else if w == Some("삭제할"@) {
                        Ok((c, Seq::<Seq<char>>::empty(), ScreenOperationKindAst::Delete))
                    } else {
                        Err(cursor_error(rest, c, span, "ko.syntax.screen_model_operation_invalid"@))
                    }
                };
                match ops {
                    Err(e) => Err(e),
                    Ok((c, fields, op)) => match expect_word_spec(rest, c, span, "수"@) {
                        Err(e) => Err(e),
                        Ok(d) => match expect_word_spec(rest, d, span, "있다"@) {
                            Err(e) => Err(e),
                            Ok(f) => if f != rest.len() {
                                Err(cursor_error(rest, f, span, "ko.syntax.trailing_expression"@))
                            } else {
                                Ok(
                                    (
                                        declaration,
                                        model,
                                        fields,
                                        op,
                                        if marker == "의"@ {
                                            Seq::empty()
                                        } else {
                                            lint_spec(model, marker, "을"@, "를"@, span)
                                        },
                                    ),
                                )
                            },
                        },
                    },
                }
            },
        },
    }
}

/// A screen as values: its declaration, model, fields, operation and span.
pub open spec fn screen_view(s: ScreenAst) -> ((Seq<char>, Seq<char>, Span), Seq<char>, Seq<Seq<char>>, ScreenOperationKindAst, Span) {
    (named_view(s.declaration), s.model@, s.fields@.map_values(|f: String| f@), s.operation, s.span)
}

fn screen_tail(cursor: &mut BodyCursor, marker_is_possessive: bool, span: Span) -> (r: Result<
    (Vec<String>, ScreenOperationKindAst),
    Diagnostic,
>)
    requires
        old(cursor).index <= old(cursor).tokens@.len(),
        old(cursor).span == span,
    ensures
        ({
            let rest = old(cursor).ts();
            let b = old(cursor).index as int;
            let spec = if marker_is_possessive {
                if rest.len() - b < 3 {
                    Err(cursor_error(rest, b, span, "ko.syntax.screen_field_operation_required"@))
                } else {
                    let op_index = rest.len() - 3;
                    match field_list_spec(rest.subrange(b, op_index), span) {
                        Err(e) => Err(e),
                        Ok(fields) => {
                            let (c, w) = next_word_spec(rest, op_index);
                            if w == Some("조회할"@) {
                                Ok((c, fields, ScreenOperationKindAst::Read))
                            } else if w == Some("입력할"@) {
                                Ok((c, fields, ScreenOperationKindAst::Input))
                            } else if w == Some("수정할"@) {
                                Ok((c, fields, ScreenOperationKindAst::Update))
                            } else {
                                Err(cursor_error(rest, c, span, "ko.syntax.screen_field_operation_invalid"@))
                            }
                        },
                    }
                }
            } else {
                let (c, w) = next_word_spec(rest, b);
                if w == Some("생성할"@) {
                    Ok((c, Seq::<Seq<char>>::empty(), ScreenOperationKindAst::Create))
                } else if w == Some("조회할"@) {
                    Ok((c, Seq::<Seq<char>>::empty(), ScreenOperationKindAst::Read))
                } else if w == Some("수정할"@) {
                    Ok((c, Seq::<Seq<char>>::empty(), ScreenOperationKindAst::Update))
                } else if w == Some("삭제할"@) {
                    Ok((c, Seq::<Seq<char>>::empty(), ScreenOperationKindAst::Delete))
                } else {
                    Err(cursor_error(rest, c, span, "ko.syntax.screen_model_operation_invalid"@))
                }
            };
            &&& final(cursor).tokens == old(cursor).tokens
            &&& final(cursor).span == span
            &&& final(cursor).index <= final(cursor).tokens@.len()
            &&& match spec {
                Ok((c, fields, op)) => r matches Ok((fs, o)) && fs@.map_values(|f: String| f@) == fields
                    && o == op && final(cursor).index == c,
                Err(e) => r matches Err(d) && d@ == e,
            }
        }),
{
    let ghost rest = cursor.ts();
    if marker_is_possessive {
        let len = cursor.tokens.len();
        if len - cursor.index < 3 {
            return Err(cursor.error("ko.syntax.screen_field_operation_required"));
        }
        let op_index = len - 3;
        let segment = vstd::slice::slice_subrange(cursor.tokens, cursor.index, op_index);
        proof {
            assert(tokens_of(segment) =~= rest.subrange(cursor.index as int, op_index as int));
        }
        let fields = match parse_field_list(segment, span) {
            Ok(f) => f,
            Err(e) => {
                return Err(e);
            },
        };
        cursor.index = op_index;
        let op = match cursor.next_word() {
            Some(w) => {
                if str_eq(w, "조회할") {
                    ScreenOperationKindAst::Read
                } else if str_eq(w, "입력할") {
                    ScreenOperationKindAst::Input
                } else if str_eq(w, "수정할") {
                    ScreenOperationKindAst::Update
                } else {
                    return Err(cursor.error("ko.syntax.screen_field_operation_invalid"));
                }
            },
            None => {
                return Err(cursor.error("ko.syntax.screen_field_operation_invalid"));
            },
        };
        Ok((fields, op))
    } else {
        let op = match cursor.next_word() {
            Some(w) => {
                if str_eq(w, "생성할") {
                    ScreenOperationKindAst::Create
                } else if str_eq(w, "조회할") {
                    ScreenOperationKindAst::Read
                } else if str_eq(w, "수정할") {
                    ScreenOperationKindAst::Update
                } else if str_eq(w, "삭제할") {
                    ScreenOperationKindAst::Delete
                } else {
                    return Err(cursor.error("ko.syntax.screen_model_operation_invalid"));
                }
            },
            None => {
                return Err(cursor.error("ko.syntax.screen_model_operation_invalid"));
            },
        };
        let fields: Vec<String> = Vec::new();
        proof {
            assert(fields@.map_values(|f: String| f@) =~= Seq::<Seq<char>>::empty());
        }
        Ok((fields, op))
    }
}

/// Reads a screen declaration, reporting an object particle that does not fit its model.
pub fn parse_screen(line: &Line, body: &[Line], diagnostics: &mut Vec<Diagnostic>) -> (r: Result<
    ScreenAst,
    Diagnostic,
>)
    ensures
        match screen_spec(line_tokens(*line), line.span, body@.len()) {
            Ok((declaration, model, fields, op, lints)) => r matches Ok(s) && screen_view(s) == (
                declaration,
                model,
                fields,
                op,
                line.span,
            ) && diagnostics_view(final(diagnostics)@) == diagnostics_view(old(diagnostics)@) + lints,
            Err(e) => r matches Err(d) && d@ == e && final(diagnostics)@ == old(diagnostics)@,
        },
{
    let ghost lt = line_tokens(*line);
    if body.len() != 0 {
        return Err(Diagnostic::error("RSPDL-KO-SYN-060", "ko.syntax.screen_must_be_sentence", line.span));
    }
    let tokens = match sentence_tokens(line) {
        Ok(t) => t,
        Err(e) => {
            return Err(e);
        },
    };
    let ghost st = tokens_of(tokens);
    proof {
        lemma_first_id_from(st, 0);
    }
    let id_index = first_id(tokens, 0);
    if id_index >= tokens.len() {
        return Err(
            Diagnostic::error("RSPDL-KO-SYN-061", "ko.syntax.screen_stable_id_required", line.span),
        );
    }
    let declaration = match parse_name_with_id(line, 0, id_index) {
        Ok(d) => d,
        Err(e) => {
            return Err(e);
        },
    };
    let rest_tokens = vstd::slice::slice_subrange(tokens, id_index + 1, tokens.len());
    let ghost rest = tokens_of(rest_tokens);
    proof {
        assert(rest =~= st.subrange(id_index + 1, st.len() as int));
    }
    let mut cursor = BodyCursor::new(rest_tokens, line.span);
    match cursor.expect_word("에서는") {
        Ok(()) => {},
        Err(e) => {
            return Err(e);
        },
    }
    let markers = ["의", "을", "를"];
    proof {
        assert(marker_views(markers@) =~= seq!["의"@, "을"@, "를"@]);
    }
    let (model, marker) = match cursor.marked_ref(&markers) {
        Ok(x) => x,
        Err(e) => {
            return Err(e);
        },
    };
    let possessive = str_eq(marker.as_str(), "의");
    let (fields, operation) = match screen_tail(&mut cursor, possessive, line.span) {
        Ok(x) => x,
        Err(e) => {
            return Err(e);
        },
    };
    match cursor.expect_word("수") {
        Ok(()) => {},
        Err(e) => {
            return Err(e);
        },
    }
    match cursor.expect_word("있다") {
        Ok(()) => {},
        Err(e) => {
            return Err(e);
        },
    }
    match cursor.expect_end() {
        Ok(()) => {},
        Err(e) => {
            return Err(e);
        },
    }
    if !possessive {
        lint_marker(model.as_str(), marker.as_str(), "을", "를", line.span, diagnostics);
    } else {
        proof {
            assert(diagnostics_view(diagnostics@) + Seq::<DiagnosticView>::empty() =~= diagnostics_view(
                diagnostics@,
            ));
        }
    }
    Ok(ScreenAst { declaration, model, fields, operation, span: line.span })
}

} // verus!
