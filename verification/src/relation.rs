//! Relation declarations: `A은 B를 name(id)로 가질 수 있다.` between two models, and
//! `A은 name(id)에 해당할 수 있다.` on one.
use vstd::prelude::*;

use crate::ast::RelationAst;
use crate::creation::marker_views;
use crate::cursor::{cursor_error, cursor_ref_spec, expect_word_spec, next_word_spec, BodyCursor};
use crate::declarations::tokens_of;
use crate::diagnostic::{diagnostics_view, error_view, Diagnostic, DiagnosticView, Span};
use crate::outline::{is_unary_relation_sentence, unary_relation_spec};
use crate::parser::{
    first_id, first_id_from, lemma_first_id_from, line_tokens, lint_marker, lint_spec,
    name_with_id_spec, named_view, parse_name_with_id_tokens, reject_sentence_body,
    sentence_body_spec, sentence_spec, sentence_tokens, Line,
};
use crate::scanner::TokenView;
use crate::text::str_eq;

verus! {

/// A relation as values: its declaration, its model parameters in order, and its span.
pub open spec fn relation_view(r: RelationAst) -> ((Seq<char>, Seq<char>, Span), Seq<Seq<char>>, Span) {
    (named_view(r.declaration), r.parameter_models@.map_values(|m: String| m@), r.span)
}

/// From `c`, just after the stable ID, to the end of the sentence: `에 해당할 수 있다` for a
/// relation on one model, `로|으로 가질 수 있다` for one between two.
pub open spec fn relation_tail_spec(ts: Seq<TokenView>, c: int, span: Span, unary: bool) -> Result<
    (),
    DiagnosticView,
> {
    let verb = if unary {
        match expect_word_spec(ts, c, span, "에"@) {
            Err(e) => Err(e),
            Ok(d) => expect_word_spec(ts, d, span, "해당할"@),
        }
    } else {
        let (d, w) = next_word_spec(ts, c);
        if w == Some("로"@) || w == Some("으로"@) {
            expect_word_spec(ts, d, span, "가질"@)
        } else {
            Err(cursor_error(ts, d, span, "ko.syntax.relation_direction_marker_required"@))
        }
    };
    match verb {
        Err(e) => Err(e),
        Ok(d) => match expect_word_spec(ts, d, span, "수"@) {
            Err(e) => Err(e),
            Ok(f) => match expect_word_spec(ts, f, span, "있다"@) {
                Err(e) => Err(e),
                Ok(g) => if g == ts.len() {
                    Ok(())
                } else {
                    Err(cursor_error(ts, g, span, "ko.syntax.trailing_expression"@))
                },
            },
        },
    }
}

/// After the source reference (ending at `a`): the target reference unless the relation is
/// on one model, then `name(id)` and the tail. The result holds the declaration, the model
/// parameters and the particle lints.
pub open spec fn relation_rest_spec(
    ts: Seq<TokenView>,
    a: int,
    span: Span,
    unary: bool,
    source: Seq<char>,
    source_marker: Seq<char>,
) -> Result<((Seq<char>, Seq<char>, Span), Seq<Seq<char>>, Seq<DiagnosticView>), DiagnosticView> {
    let target = if unary {
        Ok((a, Seq::<char>::empty(), Seq::<char>::empty()))
    } else {
        cursor_ref_spec(ts, a, span, seq!["을"@, "를"@])
    };
    match target {
        Err(e) => Err(e),
        Ok((b, model, marker)) => {
            let id = first_id_from(ts, b);
            if id >= ts.len() {
                Err(error_view("RSPDL-KO-SYN-070"@, "ko.syntax.relation_stable_id_required"@, span))
            } else {
                match name_with_id_spec(ts, b, id, span) {
                    Err(e) => Err(e),
                    Ok(declaration) => match relation_tail_spec(ts, id + 1, span, unary) {
                        Err(e) => Err(e),
                        Ok(()) => {
                            let source_lint = lint_spec(source, source_marker, "은"@, "는"@, span);
                            if unary {
                                Ok((declaration, seq![source], source_lint))
                            } else {
                                Ok(
                                    (
                                        declaration,
                                        seq![source, model],
                                        source_lint + lint_spec(model, marker, "을"@, "를"@, span),
                                    ),
                                )
                            }
                        },
                    },
                }
            }
        },
    }
}

/// A relation sentence with no block: the source reference with `은|는`, the rest as
/// [`relation_rest_spec`] reads it.
pub open spec fn relation_spec(ts: Seq<TokenView>, span: Span, body_len: nat) -> Result<
    ((Seq<char>, Seq<char>, Span), Seq<Seq<char>>, Seq<DiagnosticView>),
    DiagnosticView,
> {
    match sentence_body_spec(body_len, span, "relation"@) {
        Err(e) => Err(e),
        Ok(()) => match sentence_spec(ts, span) {
            Err(e) => Err(e),
            Ok(sentence) => match cursor_ref_spec(sentence, 0, span, seq!["은"@, "는"@]) {
                Err(e) => Err(e),
                Ok((a, source, marker)) => relation_rest_spec(
                    sentence,
                    a,
                    span,
                    unary_relation_spec(ts),
                    source,
                    marker,
                ),
            },
        },
    }
}

fn relation_tail(cursor: &mut BodyCursor, unary: bool) -> (r: Result<(), Diagnostic>)
    requires
        old(cursor).index <= old(cursor).tokens@.len(),
    ensures
        match relation_tail_spec(old(cursor).ts(), old(cursor).index as int, old(cursor).span, unary) {
            Ok(()) => r is Ok,
            Err(e) => r matches Err(d) && d@ == e,
        },
{
    if unary {
        match cursor.expect_word("에") {
            Ok(()) => {},
            Err(e) => {
                return Err(e);
            },
        }
        match cursor.expect_word("해당할") {
            Ok(()) => {},
            Err(e) => {
                return Err(e);
            },
        }
    } else {
        let direction = match cursor.next_word() {
            Some(w) => str_eq(w, "로") || str_eq(w, "으로"),
            None => false,
        };
        if !direction {
            return Err(cursor.error("ko.syntax.relation_direction_marker_required"));
        }
        match cursor.expect_word("가질") {
            Ok(()) => {},
            Err(e) => {
                return Err(e);
            },
        }
    }
    match cursor.expect_word("수") {
        Ok(()) => {},
        Err(e) => {
            return Err(e);
        },
    }
    match cursor.expect_word("있다") {
        Ok(()) => {},
        Err(e) => {
            return Err(e);
        },
    }
    cursor.expect_end()
}

/// Reads a relation declaration, reporting particles that do not fit their names.
pub fn parse_relation(line: &Line, body: &[Line], diagnostics: &mut Vec<Diagnostic>) -> (r: Result<
    RelationAst,
    Diagnostic,
>)
    ensures
        match relation_spec(line_tokens(*line), line.span, body@.len()) {
            Ok((declaration, models, lints)) => r matches Ok(x) && relation_view(x) == (
                declaration,
                models,
                line.span,
            ) && diagnostics_view(final(diagnostics)@) == diagnostics_view(old(diagnostics)@)
                + lints,
            Err(e) => r matches Err(d) && d@ == e && final(diagnostics)@ == old(diagnostics)@,
        },
{
    match reject_sentence_body(body, line.span, "relation") {
        Ok(()) => {},
        Err(e) => {
            return Err(e);
        },
    }
    let tokens = match sentence_tokens(line) {
        Ok(t) => t,
        Err(e) => {
            return Err(e);
        },
    };
    let ghost ts = tokens_of(tokens);
    let mut cursor = BodyCursor::new(tokens, line.span);
    let source_markers = ["은", "는"];
    proof {
        assert(marker_views(source_markers@) =~= seq!["은"@, "는"@]);
    }
    let (source_model, source_marker) = match cursor.marked_ref(&source_markers) {
        Ok(x) => x,
        Err(e) => {
            return Err(e);
        },
    };
    let unary = is_unary_relation_sentence(line);
    let mut target_model = String::new();
    let mut target_marker = String::new();
    if !unary {
        let target_markers = ["을", "를"];
        proof {
            assert(marker_views(target_markers@) =~= seq!["을"@, "를"@]);
        }
        match cursor.marked_ref(&target_markers) {
            Ok((model, marker)) => {
                target_model = model;
                target_marker = marker;
            },
            Err(e) => {
                return Err(e);
            },
        }
    }
    let b = cursor.index;
    proof {
        lemma_first_id_from(ts, b as int);
    }
    let id_index = first_id(tokens, b);
    if id_index >= tokens.len() {
        return Err(
            Diagnostic::error("RSPDL-KO-SYN-070", "ko.syntax.relation_stable_id_required", line.span),
        );
    }
    let declaration = match parse_name_with_id_tokens(tokens, b, id_index, line.span) {
        Ok(d) => d,
        Err(e) => {
            return Err(e);
        },
    };
    cursor.index = id_index + 1;
    match relation_tail(&mut cursor, unary) {
        Ok(()) => {},
        Err(e) => {
            return Err(e);
        },
    }
    let ghost before = diagnostics_view(diagnostics@);
    lint_marker(source_model.as_str(), source_marker.as_str(), "은", "는", line.span, diagnostics);
    let mut parameter_models: Vec<String> = Vec::new();
    parameter_models.push(source_model);
    if !unary {
        lint_marker(target_model.as_str(), target_marker.as_str(), "을", "를", line.span, diagnostics);
        parameter_models.push(target_model);
        proof {
            assert(diagnostics_view(diagnostics@) =~= before + (lint_spec(
                source_model@,
                source_marker@,
                "은"@,
                "는"@,
                line.span,
            ) + lint_spec(target_model@, target_marker@, "을"@, "를"@, line.span)));
        }
    }
    let r = RelationAst { declaration, parameter_models, span: line.span };
    proof {
        assert(r.parameter_models@.map_values(|m: String| m@) =~= if unary {
            seq![source_model@]
        } else {
            seq![source_model@, target_model@]
        });
    }
    Ok(r)
}

} // verus!
