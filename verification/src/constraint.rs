//! Relational rules between models and relations, each a sentence of its own:
//! `모델은 하나 이상 존재해야 한다.`, `모든 모델은 관계를 하나 이상 가져야 한다.`,
//! `각 모델은 관계를 최대 하나만 가질 수 있다.`, and three rules over a group of relations
//! (`… 중 둘 이상은 동시에 성립할 수 없다.`, `… 중 하나 이상은 항상 성립해야 한다.`,
//! `…은 동시에 성립할 수 있다.`).
//!
//! A group names its relations as a list cut at commas (see [`crate::list`]), and needs at
//! least two of them.
use vstd::prelude::*;

use crate::ast::{RelationalConstraintAst, RelationalConstraintKindAst};
use crate::creation::{first_marker, first_marker_exec, lemma_first_marker, marker_views};
use crate::cursor::{cursor_error, cursor_ref_spec, expect_word_spec, BodyCursor};
use crate::declarations::{join_names, joined, tokens_of};
use crate::diagnostic::{error_view, Diagnostic, DiagnosticView, Span};
use crate::outline::{copy_token, RelationalConstraintDeclarationKind};
use crate::parser::{
    first_non_name, line_tokens, reject_sentence_body, sentence_body_spec,
    sentence_spec, sentence_tokens, Line,
};
use crate::scanner::{Token, TokenKind, TokenKindView, TokenView};
use crate::list::{comma_split, first_non_name_at, items_view, split_items};
use crate::screen::after_names;
use crate::text::{chars_of, str_eq, string_of};

verus! {

/// A relational rule as values.
pub enum ConstraintView {
    NonEmpty { model: Seq<char> },
    Required { model: Seq<char>, relation: Seq<char> },
    Unique { model: Seq<char>, relation: Seq<char> },
    Exclusive { relations: Seq<Seq<char>> },
    Exhaustive { relations: Seq<Seq<char>> },
    Coexistent { relations: Seq<Seq<char>> },
}

pub open spec fn names_view(v: Vec<String>) -> Seq<Seq<char>> {
    v@.map_values(|s: String| s@)
}

pub open spec fn constraint_view(k: RelationalConstraintKindAst) -> ConstraintView {
    match k {
        RelationalConstraintKindAst::NonEmpty { model } => ConstraintView::NonEmpty { model: model@ },
        RelationalConstraintKindAst::Required { model, relation } => ConstraintView::Required {
            model: model@,
            relation: relation@,
        },
        RelationalConstraintKindAst::Unique { model, relation } => ConstraintView::Unique {
            model: model@,
            relation: relation@,
        },
        RelationalConstraintKindAst::Exclusive { relations } => ConstraintView::Exclusive {
            relations: names_view(relations),
        },
        RelationalConstraintKindAst::Exhaustive { relations } => ConstraintView::Exhaustive {
            relations: names_view(relations),
        },
        RelationalConstraintKindAst::Coexistent { relations } => ConstraintView::Coexistent {
            relations: names_view(relations),
        },
    }
}

/// The words `ws`, one after another from `i`: the position after the last of them.
pub open spec fn words_spec(ts: Seq<TokenView>, i: int, span: Span, ws: Seq<Seq<char>>) -> Result<int, DiagnosticView>
    decreases ws.len(),
{
    if ws.len() == 0 {
        Ok(i)
    } else {
        match expect_word_spec(ts, i, span, ws[0]) {
            Err(e) => Err(e),
            Ok(j) => words_spec(ts, j, span, ws.drop_first()),
        }
    }
}

/// The words `ws` from `i`, and nothing after them.
pub open spec fn closing_spec(ts: Seq<TokenView>, i: int, span: Span, ws: Seq<Seq<char>>) -> Result<(), DiagnosticView> {
    match words_spec(ts, i, span, ws) {
        Err(e) => Err(e),
        Ok(f) => if f != ts.len() {
            Err(cursor_error(ts, f, span, "ko.syntax.trailing_expression"@))
        } else {
            Ok(())
        },
    }
}

pub open spec fn group_error(span: Span) -> DiagnosticView {
    error_view("RSPDL-KO-SYN-071"@, "ko.syntax.relational_constraint_group_references"@, span)
}

/// The word `중` that closes a group, `tail` words before the end.
pub open spec fn group_separator_spec(ts: Seq<TokenView>, tail: int, span: Span) -> Result<int, DiagnosticView> {
    if ts.len() >= tail + 1 && ts[ts.len() - tail - 1].kind == TokenKindView::Word("중"@) {
        Ok(ts.len() - tail - 1)
    } else {
        Err(group_error(span))
    }
}

/// The names of the reference list items from `i` on.
pub open spec fn reference_items_spec(items: Seq<Seq<TokenView>>, i: int, span: Span) -> Result<
    Seq<Seq<char>>,
    DiagnosticView,
>
    decreases items.len() - i,
{
    if i < 0 || i >= items.len() {
        Ok(Seq::empty())
    } else {
        let item = items[i];
        if item.len() == 0 {
            Err(error_view("RSPDL-KO-SYN-071"@, "ko.syntax.reference_list_empty_name"@, span))
        } else if first_non_name(item, 0, item.len() as int) < item.len() {
            Err(
                error_view(
                    "RSPDL-KO-SYN-071"@,
                    "ko.syntax.reference_list_invalid"@,
                    item[first_non_name(item, 0, item.len() as int)].span,
                ),
            )
        } else {
            after_names(seq![joined(item)], reference_items_spec(items, i + 1, span))
        }
    }
}

/// The names of a reference list, one for each item.
pub open spec fn reference_list_spec(ts: Seq<TokenView>, span: Span) -> Result<Seq<Seq<char>>, DiagnosticView> {
    if ts.len() == 0 {
        Err(error_view("RSPDL-KO-SYN-071"@, "ko.syntax.reference_list_required"@, span))
    } else {
        reference_items_spec(comma_split(ts), 0, span)
    }
}

/// A group of relations: a reference list of at least two names.
pub open spec fn relation_group_spec(ts: Seq<TokenView>, span: Span) -> Result<Seq<Seq<char>>, DiagnosticView> {
    match reference_list_spec(ts, span) {
        Err(e) => Err(e),
        Ok(names) => if names.len() >= 2 {
            Ok(names)
        } else {
            Err(group_error(span))
        },
    }
}

/// A list whose last reference carries one of the particles `ms`, either as a word of its
/// own after a quoted name or at the end of its last word: the list without the particle,
/// and the particle.
pub open spec fn strip_spec(ts: Seq<TokenView>, ms: Seq<Seq<char>>, span: Span) -> Result<
    (Seq<TokenView>, Seq<char>),
    DiagnosticView,
> {
    let n = ts.len() as int;
    if n == 0 {
        Err(error_view("RSPDL-KO-SYN-071"@, "ko.syntax.reference_list_required"@, span))
    } else if n >= 2 && ts[n - 2].kind is QuotedIdentifier && ts[n - 1].kind is Word && ms.contains(
        ts[n - 1].kind->Word_0,
    ) {
        Ok((ts.drop_last(), ts[n - 1].kind->Word_0))
    } else if ts[n - 1].kind is Word && first_marker(ts[n - 1].kind->Word_0, ms) >= 0 {
        let w = ts[n - 1].kind->Word_0;
        let m = ms[first_marker(w, ms)];
        Ok(
            (
                ts.drop_last().push(
                    TokenView { kind: TokenKindView::Word(w.subrange(0, w.len() - m.len())), span: ts[n - 1].span },
                ),
                m,
            ),
        )
    } else {
        Err(error_view("RSPDL-KO-SYN-071"@, "ko.syntax.reference_list_final_marker_required"@, span))
    }
}

/// A group closed by `중` `tail` words before the end, then the closing words.
pub open spec fn group_rule_spec(st: Seq<TokenView>, span: Span, tail: int, closing: Seq<Seq<char>>) -> Result<
    Seq<Seq<char>>,
    DiagnosticView,
> {
    match group_separator_spec(st, tail, span) {
        Err(e) => Err(e),
        Ok(sep) => match relation_group_spec(st.subrange(0, sep), span) {
            Err(e) => Err(e),
            Ok(relations) => match closing_spec(st, sep + 1, span, closing) {
                Err(e) => Err(e),
                Ok(()) => Ok(relations),
            },
        },
    }
}

/// What the tokens of a relational rule, its period taken off, read as.
pub open spec fn constraint_tokens_spec(st: Seq<TokenView>, span: Span, kind: RelationalConstraintDeclarationKind) -> Result<
    ConstraintView,
    DiagnosticView,
> {
    match kind {
        RelationalConstraintDeclarationKind::NonEmpty => match cursor_ref_spec(st, 0, span, seq!["은"@, "는"@]) {
            Err(e) => Err(e),
            Ok((a, model, _)) => match closing_spec(st, a, span, seq!["하나"@, "이상"@, "존재해야"@, "한다"@]) {
                Err(e) => Err(e),
                Ok(()) => Ok(ConstraintView::NonEmpty { model }),
            },
        },
        RelationalConstraintDeclarationKind::Required => match expect_word_spec(st, 0, span, "모든"@) {
            Err(e) => Err(e),
            Ok(a) => match cursor_ref_spec(st, a, span, seq!["은"@, "는"@]) {
                Err(e) => Err(e),
                Ok((b, model, _)) => match cursor_ref_spec(st, b, span, seq!["을"@, "를"@]) {
                    Err(e) => Err(e),
                    Ok((c, relation, _)) => match closing_spec(
                        st,
                        c,
                        span,
                        seq!["하나"@, "이상"@, "가져야"@, "한다"@],
                    ) {
                        Err(e) => Err(e),
                        Ok(()) => Ok(ConstraintView::Required { model, relation }),
                    },
                },
            },
        },
        RelationalConstraintDeclarationKind::Unique => match expect_word_spec(st, 0, span, "각"@) {
            Err(e) => Err(e),
            Ok(a) => match cursor_ref_spec(st, a, span, seq!["은"@, "는"@]) {
                Err(e) => Err(e),
                Ok((b, model, _)) => match cursor_ref_spec(st, b, span, seq!["을"@, "를"@]) {
                    Err(e) => Err(e),
                    Ok((c, relation, _)) => match closing_spec(
                        st,
                        c,
                        span,
                        seq!["최대"@, "하나만"@, "가질"@, "수"@, "있다"@],
                    ) {
                        Err(e) => Err(e),
                        Ok(()) => Ok(ConstraintView::Unique { model, relation }),
                    },
                },
            },
        },
        RelationalConstraintDeclarationKind::Exclusive => match group_rule_spec(
            st,
            span,
            6,
            seq!["둘"@, "이상은"@, "동시에"@, "성립할"@, "수"@, "없다"@],
        ) {
            Err(e) => Err(e),
            Ok(relations) => Ok(ConstraintView::Exclusive { relations }),
        },
        RelationalConstraintDeclarationKind::Exhaustive => match group_rule_spec(
            st,
            span,
            5,
            seq!["하나"@, "이상은"@, "항상"@, "성립해야"@, "한다"@],
        ) {
            Err(e) => Err(e),
            Ok(relations) => Ok(ConstraintView::Exhaustive { relations }),
        },
        RelationalConstraintDeclarationKind::Coexistent => if st.len() < 4 {
            Err(group_error(span))
        } else {
            let prefix_end = st.len() - 4;
            match strip_spec(st.subrange(0, prefix_end), seq!["은"@, "는"@], span) {
                Err(e) => Err(e),
                Ok((references, _)) => match relation_group_spec(references, span) {
                    Err(e) => Err(e),
                    Ok(relations) => match closing_spec(
                        st,
                        prefix_end,
                        span,
                        seq!["동시에"@, "성립할"@, "수"@, "있다"@],
                    ) {
                        Err(e) => Err(e),
                        Ok(()) => Ok(ConstraintView::Coexistent { relations }),
                    },
                },
            }
        },
    }
}

/// What a relational rule's line reads as: no block under it, a closing period, then the
/// sentence of its kind.
pub open spec fn relational_constraint_spec(
    ts: Seq<TokenView>,
    span: Span,
    body_len: nat,
    kind: RelationalConstraintDeclarationKind,
) -> Result<ConstraintView, DiagnosticView> {
    match sentence_body_spec(body_len, span, "relational_constraint"@) {
        Err(e) => Err(e),
        Ok(()) => match sentence_spec(ts, span) {
            Err(e) => Err(e),
            Ok(st) => constraint_tokens_spec(st, span, kind),
        },
    }
}

/// Takes the words `words`, one after another, and then requires the end of the sentence.
fn expect_closing(cursor: &mut BodyCursor, words: &[&str]) -> (r: Result<(), Diagnostic>)
    requires
        old(cursor).index <= old(cursor).tokens@.len(),
    ensures
        match closing_spec(old(cursor).ts(), old(cursor).index as int, old(cursor).span, marker_views(words@)) {
            Ok(()) => r is Ok,
            Err(e) => r matches Err(d) && d@ == e,
        },
{
    let ghost ws = marker_views(words@);
    let ghost ts = cursor.ts();
    let ghost i0 = cursor.index as int;
    let ghost span = cursor.span;
    let mut k: usize = 0;
    proof {
        assert(ws.subrange(0, ws.len() as int) =~= ws);
    }
    while k < words.len()
        invariant
            ws == marker_views(words@),
            ts == old(cursor).ts(),
            i0 == old(cursor).index as int,
            span == old(cursor).span,
            ts == cursor.ts(),
            span == cursor.span,
            cursor.index <= cursor.tokens@.len(),
            k <= words@.len(),
            words_spec(ts, i0, span, ws) == words_spec(
                ts,
                cursor.index as int,
                span,
                ws.subrange(k as int, ws.len() as int),
            ),
        decreases words@.len() - k,
    {
        let ghost rest = ws.subrange(k as int, ws.len() as int);
        proof {
            assert(rest[0] == words@[k as int]@);
            assert(rest.drop_first() =~= ws.subrange(k + 1, ws.len() as int));
        }
        let ghost idx = cursor.index as int;
        match cursor.expect_word(words[k]) {
            Ok(()) => {},
            Err(e) => {
                proof {
                    assert(words_spec(ts, idx, span, rest) == Err::<int, DiagnosticView>(e@));
                    assert(closing_spec(ts, i0, span, ws) == Err::<(), DiagnosticView>(e@));
                }
                return Err(e);
            },
        }
        k = k + 1;
    }
    proof {
        assert(ws.subrange(k as int, ws.len() as int) =~= Seq::<Seq<char>>::empty());
    }
    cursor.expect_end()
}

/// The position of the `중` that closes a group, `tail_len` words before the end.
pub fn group_separator(tokens: &[Token], tail_len: usize, span: Span) -> (r: Result<usize, Diagnostic>)
    requires
        tail_len < usize::MAX,
    ensures
        match group_separator_spec(tokens_of(tokens), tail_len as int, span) {
            Ok(i) => r matches Ok(j) && j as int == i,
            Err(e) => r matches Err(d) && d@ == e,
        },
{
    let ghost ts = tokens_of(tokens);
    if tokens.len() >= tail_len + 1 {
        let index = tokens.len() - (tail_len + 1);
        proof {
            assert(ts[index as int] == tokens@[index as int]@);
        }
        let found = match &tokens[index].kind {
            TokenKind::Word(w) => str_eq(w.as_str(), "중"),
            _ => false,
        };
        proof {
            reveal_strlit("중");
        }
        if found {
            return Ok(index);
        }
    }
    Err(Diagnostic::error("RSPDL-KO-SYN-071", "ko.syntax.relational_constraint_group_references", span))
}

/// Reads a list of references.
pub fn parse_reference_list(tokens: &[Token], span: Span) -> (r: Result<Vec<String>, Diagnostic>)
    ensures
        match reference_list_spec(tokens_of(tokens), span) {
            Ok(names) => r matches Ok(v) && names_view(v) == names,
            Err(e) => r matches Err(d) && d@ == e,
        },
{
    if tokens.len() == 0 {
        return Err(Diagnostic::error("RSPDL-KO-SYN-071", "ko.syntax.reference_list_required", span));
    }
    let items = split_items(tokens);
    let ghost iv = items_view(items@);
    let mut values: Vec<String> = Vec::new();
    let mut i: usize = 0;
    proof {
        assert(after_names(names_view(values), reference_items_spec(iv, 0, span)) =~~= reference_items_spec(
            iv,
            0,
            span,
        ));
    }
    while i < items.len()
        invariant
            iv == items_view(items@),
            iv == comma_split(tokens_of(tokens)),
            tokens@.len() > 0,
            i <= items@.len(),
            after_names(names_view(values), reference_items_spec(iv, i as int, span)) == reference_items_spec(
                iv,
                0,
                span,
            ),
        decreases items@.len() - i,
    {
        let item = items[i].as_slice();
        let ghost tv = iv[i as int];
        proof {
            assert(tokens_of(item) =~= tv);
        }
        if item.len() == 0 {
            let d = Diagnostic::error("RSPDL-KO-SYN-071", "ko.syntax.reference_list_empty_name", span);
            proof {
                assert(reference_items_spec(iv, i as int, span) == Err::<Seq<Seq<char>>, DiagnosticView>(d@));
            }
            return Err(d);
        }
        let k = first_non_name_at(item);
        if k < item.len() {
            proof {
                assert(tv[k as int] == item@[k as int]@);
            }
            return Err(Diagnostic::error("RSPDL-KO-SYN-071", "ko.syntax.reference_list_invalid", item[k].span));
        }
        proof {
            assert(tv.subrange(0, tv.len() as int) =~= tv);
        }
        let name = join_names(item, 0, item.len());
        let ghost pre = names_view(values);
        values.push(name);
        proof {
            assert(names_view(values) =~= pre + seq![name@]);
            match reference_items_spec(iv, i + 1, span) {
                Ok(rest) => {
                    assert(pre + (seq![name@] + rest) =~= (pre + seq![name@]) + rest);
                },
                Err(_) => {},
            }
        }
        i = i + 1;
    }
    proof {
        assert(names_view(values) + Seq::<Seq<char>>::empty() =~= names_view(values));
    }
    Ok(values)
}

/// Reads a group of relations: a reference list with at least two names.
pub fn relation_group(tokens: &[Token], span: Span) -> (r: Result<Vec<String>, Diagnostic>)
    ensures
        match relation_group_spec(tokens_of(tokens), span) {
            Ok(names) => r matches Ok(v) && names_view(v) == names,
            Err(e) => r matches Err(d) && d@ == e,
        },
{
    let references = match parse_reference_list(tokens, span) {
        Ok(v) => v,
        Err(e) => {
            return Err(e);
        },
    };
    if references.len() >= 2 {
        Ok(references)
    } else {
        Err(Diagnostic::error("RSPDL-KO-SYN-071", "ko.syntax.relational_constraint_group_references", span))
    }
}

/// Where `word` stands among `markers`.
fn marker_index(word: &str, markers: &[&str]) -> (r: Option<usize>)
    ensures
        match r {
            Some(j) => j < markers@.len() && markers@[j as int]@ == word@,
            None => !marker_views(markers@).contains(word@),
        },
{
    let ghost ms = marker_views(markers@);
    let mut j: usize = 0;
    while j < markers.len()
        invariant
            ms == marker_views(markers@),
            j <= markers@.len(),
            forall|q: int| 0 <= q < j ==> ms[q] != word@,
        decreases markers@.len() - j,
    {
        if str_eq(word, markers[j]) {
            return Some(j);
        }
        j = j + 1;
    }
    None
}

/// Takes the particle off the last reference of a list: the list without it, and the
/// particle.
pub fn strip_final_marker(tokens: &[Token], markers: &[&str], span: Span) -> (r: Result<
    (Vec<Token>, String),
    Diagnostic,
>)
    ensures
        match strip_spec(tokens_of(tokens), marker_views(markers@), span) {
            Ok((ts, m)) => r matches Ok((v, s)) && v@.map_values(|t: Token| t@) == ts && s@ == m,
            Err(e) => r matches Err(d) && d@ == e,
        },
{
    let ghost ts = tokens_of(tokens);
    let ghost ms = marker_views(markers@);
    let n = tokens.len();
    if n == 0 {
        return Err(Diagnostic::error("RSPDL-KO-SYN-071", "ko.syntax.reference_list_required", span));
    }
    let mut values: Vec<Token> = Vec::new();
    let mut k: usize = 0;
    while k < n - 1
        invariant
            ts == tokens_of(tokens),
            n == tokens@.len(),
            n > 0,
            k <= n - 1,
            values@.map_values(|t: Token| t@) =~= ts.subrange(0, k as int),
        decreases n - 1 - k,
    {
        let c = copy_token(&tokens[k]);
        let ghost before = values@;
        values.push(c);
        proof {
            assert(ts[k as int] == tokens@[k as int]@);
            assert(values@ == before.push(c));
            assert(values@.map_values(|t: Token| t@) =~= before.map_values(|t: Token| t@).push(c@));
            assert(ts.subrange(0, k + 1) =~= ts.subrange(0, k as int).push(ts[k as int]));
        }
        k = k + 1;
    }
    proof {
        assert(ts[n - 1] == tokens@[n - 1]@);
        assert(ts.subrange(0, n - 1) =~= ts.drop_last());
        if n >= 2 {
            assert(ts[n - 2] == tokens@[n - 2]@);
        }
    }
    let last = &tokens[n - 1];
    let quoted_before = n >= 2 && match &tokens[n - 2].kind {
        TokenKind::QuotedIdentifier(_) => true,
        _ => false,
    };
    if let TokenKind::Word(word) = &last.kind {
        if quoted_before {
            match marker_index(word.as_str(), markers) {
                Some(j) => {
                    let m = word.clone();
                    proof {
                        assert(ms[j as int] == word@);
                        assert(values@.map_values(|t: Token| t@) =~= ts.drop_last());
                    }
                    return Ok((values, m));
                },
                None => {},
            }
        }
        let wc = chars_of(word.as_str());
        match first_marker_exec(&wc, markers) {
            Some(m) => {
                proof {
                    lemma_first_marker(wc@, ms, 0);
                }
                let mc = chars_of(markers[m]);
                let base = string_of(wc.as_slice(), 0, wc.len() - mc.len());
                values.push(Token { kind: TokenKind::Word(base), span: last.span });
                proof {
                    assert(values@.map_values(|t: Token| t@) =~= ts.drop_last().push(
                        TokenView {
                            kind: TokenKindView::Word(word@.subrange(0, word@.len() - ms[m as int].len())),
                            span: ts[n - 1].span,
                        },
                    ));
                }
                return Ok((values, string_of(mc.as_slice(), 0, mc.len())));
            },
            None => {},
        }
    }
    Err(Diagnostic::error("RSPDL-KO-SYN-071", "ko.syntax.reference_list_final_marker_required", span))
}

/// Reads a group rule: the group before `중`, `tail_len` words before the end, then the
/// closing words.
fn read_group(tokens: &[Token], span: Span, tail_len: usize, closing: &[&str]) -> (r: Result<Vec<String>, Diagnostic>)
    requires
        tail_len < usize::MAX,
    ensures
        match group_rule_spec(tokens_of(tokens), span, tail_len as int, marker_views(closing@)) {
            Ok(names) => r matches Ok(v) && names_view(v) == names,
            Err(e) => r matches Err(d) && d@ == e,
        },
{
    let ghost st = tokens_of(tokens);
    let separator = match group_separator(tokens, tail_len, span) {
        Ok(i) => i,
        Err(e) => {
            return Err(e);
        },
    };
    let n = tokens.len();
    proof {
        assert(st.len() == tokens@.len());
        assert(separator < n);
    }
    let group = vstd::slice::slice_subrange(tokens, 0, separator);
    proof {
        assert(tokens_of(group) =~= st.subrange(0, separator as int));
    }
    let relations = match relation_group(group, span) {
        Ok(v) => v,
        Err(e) => {
            return Err(e);
        },
    };
    let mut cursor = BodyCursor::new(tokens, span);
    cursor.index = separator + 1;
    match expect_closing(&mut cursor, closing) {
        Ok(()) => Ok(relations),
        Err(e) => Err(e),
    }
}

/// Reads `…은 동시에 성립할 수 있다.`: the group is what comes before the last four words, its
/// last reference carrying the topic particle.
fn read_coexistent(tokens: &[Token], span: Span) -> (r: Result<Vec<String>, Diagnostic>)
    ensures
        match constraint_tokens_spec(tokens_of(tokens), span, RelationalConstraintDeclarationKind::Coexistent) {
            Ok(c) => r matches Ok(v) && c == (ConstraintView::Coexistent { relations: names_view(v) }),
            Err(e) => r matches Err(d) && d@ == e,
        },
{
    let ghost st = tokens_of(tokens);
    if tokens.len() < 4 {
        return Err(
            Diagnostic::error("RSPDL-KO-SYN-071", "ko.syntax.relational_constraint_group_references", span),
        );
    }
    let prefix_end = tokens.len() - 4;
    let prefix = vstd::slice::slice_subrange(tokens, 0, prefix_end);
    let topic = ["은", "는"];
    proof {
        assert(tokens_of(prefix) =~= st.subrange(0, prefix_end as int));
        assert(marker_views(topic@) =~= seq!["은"@, "는"@]);
    }
    let (references, _) = match strip_final_marker(prefix, &topic, span) {
        Ok(x) => x,
        Err(e) => {
            return Err(e);
        },
    };
    let refs = references.as_slice();
    proof {
        assert(tokens_of(refs) =~= references@.map_values(|t: Token| t@));
    }
    let relations = match relation_group(refs, span) {
        Ok(v) => v,
        Err(e) => {
            return Err(e);
        },
    };
    let mut cursor = BodyCursor::new(tokens, span);
    cursor.index = prefix_end;
    let closing = ["동시에", "성립할", "수", "있다"];
    proof {
        assert(marker_views(closing@) =~= seq!["동시에"@, "성립할"@, "수"@, "있다"@]);
    }
    match expect_closing(&mut cursor, &closing) {
        Ok(()) => Ok(relations),
        Err(e) => Err(e),
    }
}

/// Reads `모든 모델은 관계를 하나 이상 가져야 한다.` or `각 모델은 관계를 최대 하나만 가질 수 있다.`:
/// a leading word, a model with the topic particle, a relation with the object particle, and
/// the closing words.
fn read_model_relation(tokens: &[Token], span: Span, lead: &str, closing: &[&str]) -> (r: Result<
    (String, String),
    Diagnostic,
>)
    ensures
        ({
            let st = tokens_of(tokens);
            match expect_word_spec(st, 0, span, lead@) {
                Err(e) => r matches Err(d) && d@ == e,
                Ok(a) => match cursor_ref_spec(st, a, span, seq!["은"@, "는"@]) {
                    Err(e) => r matches Err(d) && d@ == e,
                    Ok((b, model, _)) => match cursor_ref_spec(st, b, span, seq!["을"@, "를"@]) {
                        Err(e) => r matches Err(d) && d@ == e,
                        Ok((c, relation, _)) => match closing_spec(st, c, span, marker_views(closing@)) {
                            Err(e) => r matches Err(d) && d@ == e,
                            Ok(()) => r matches Ok((m, rel)) && m@ == model && rel@ == relation,
                        },
                    },
                },
            }
        }),
{
    let mut cursor = BodyCursor::new(tokens, span);
    let topic = ["은", "는"];
    let object = ["을", "를"];
    proof {
        assert(marker_views(topic@) =~= seq!["은"@, "는"@]);
        assert(marker_views(object@) =~= seq!["을"@, "를"@]);
    }
    match cursor.expect_word(lead) {
        Ok(()) => {},
        Err(e) => {
            return Err(e);
        },
    }
    let (model, _) = match cursor.marked_ref(&topic) {
        Ok(x) => x,
        Err(e) => {
            return Err(e);
        },
    };
    let (relation, _) = match cursor.marked_ref(&object) {
        Ok(x) => x,
        Err(e) => {
            return Err(e);
        },
    };
    match expect_closing(&mut cursor, closing) {
        Ok(()) => Ok((model, relation)),
        Err(e) => Err(e),
    }
}

/// Reads `모델은 하나 이상 존재해야 한다.`.
fn read_non_empty(tokens: &[Token], span: Span) -> (r: Result<String, Diagnostic>)
    ensures
        match constraint_tokens_spec(tokens_of(tokens), span, RelationalConstraintDeclarationKind::NonEmpty) {
            Ok(c) => r matches Ok(m) && c == (ConstraintView::NonEmpty { model: m@ }),
            Err(e) => r matches Err(d) && d@ == e,
        },
{
    let mut cursor = BodyCursor::new(tokens, span);
    let topic = ["은", "는"];
    let closing = ["하나", "이상", "존재해야", "한다"];
    proof {
        assert(marker_views(topic@) =~= seq!["은"@, "는"@]);
        assert(marker_views(closing@) =~= seq!["하나"@, "이상"@, "존재해야"@, "한다"@]);
    }
    let (model, _) = match cursor.marked_ref(&topic) {
        Ok(x) => x,
        Err(e) => {
            return Err(e);
        },
    };
    match expect_closing(&mut cursor, &closing) {
        Ok(()) => Ok(model),
        Err(e) => Err(e),
    }
}

/// Reads a relational rule of the kind its ending named.
pub fn parse_relational_constraint(line: &Line, body: &[Line], kind: RelationalConstraintDeclarationKind) -> (r: Result<
    RelationalConstraintAst,
    Diagnostic,
>)
    ensures
        match relational_constraint_spec(line_tokens(*line), line.span, body@.len(), kind) {
            Ok(c) => r matches Ok(v) && constraint_view(v.constraint) == c && v.span == line.span,
            Err(e) => r matches Err(d) && d@ == e,
        },
{
    match reject_sentence_body(body, line.span, "relational_constraint") {
        Ok(()) => {},
        Err(e) => {
            return Err(e);
        },
    }
    proof {
        reveal_strlit("relational_constraint");
    }
    let tokens = match sentence_tokens(line) {
        Ok(t) => t,
        Err(e) => {
            return Err(e);
        },
    };
    let span = line.span;
    let constraint = match kind {
        RelationalConstraintDeclarationKind::NonEmpty => match read_non_empty(tokens, span) {
            Ok(model) => RelationalConstraintKindAst::NonEmpty { model },
            Err(e) => {
                return Err(e);
            },
        },
        RelationalConstraintDeclarationKind::Required => {
            let closing = ["하나", "이상", "가져야", "한다"];
            proof {
                assert(marker_views(closing@) =~= seq!["하나"@, "이상"@, "가져야"@, "한다"@]);
            }
            match read_model_relation(tokens, span, "모든", &closing) {
                Ok((model, relation)) => RelationalConstraintKindAst::Required { model, relation },
                Err(e) => {
                    return Err(e);
                },
            }
        },
        RelationalConstraintDeclarationKind::Unique => {
            let closing = ["최대", "하나만", "가질", "수", "있다"];
            proof {
                assert(marker_views(closing@) =~= seq!["최대"@, "하나만"@, "가질"@, "수"@, "있다"@]);
            }
            match read_model_relation(tokens, span, "각", &closing) {
                Ok((model, relation)) => RelationalConstraintKindAst::Unique { model, relation },
                Err(e) => {
                    return Err(e);
                },
            }
        },
        RelationalConstraintDeclarationKind::Exclusive => {
            let closing = ["둘", "이상은", "동시에", "성립할", "수", "없다"];
            proof {
                assert(marker_views(closing@) =~= seq!["둘"@, "이상은"@, "동시에"@, "성립할"@, "수"@, "없다"@]);
            }
            match read_group(tokens, span, 6, &closing) {
                Ok(relations) => RelationalConstraintKindAst::Exclusive { relations },
                Err(e) => {
                    return Err(e);
                },
            }
        },
        RelationalConstraintDeclarationKind::Exhaustive => {
            let closing = ["하나", "이상은", "항상", "성립해야", "한다"];
            proof {
                assert(marker_views(closing@) =~= seq!["하나"@, "이상은"@, "항상"@, "성립해야"@, "한다"@]);
            }
            match read_group(tokens, span, 5, &closing) {
                Ok(relations) => RelationalConstraintKindAst::Exhaustive { relations },
                Err(e) => {
                    return Err(e);
                },
            }
        },
        RelationalConstraintDeclarationKind::Coexistent => match read_coexistent(tokens, span) {
            Ok(relations) => RelationalConstraintKindAst::Coexistent { relations },
            Err(e) => {
                return Err(e);
            },
        },
    };
    Ok(RelationalConstraintAst { constraint, span })
}
} // verus!
