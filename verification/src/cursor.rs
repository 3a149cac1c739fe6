//! Reading a sentence left to right: references with their particles, fixed words, and the
//! value side of a comparison. A failure is a diagnostic at the token where reading stopped.
use vstd::prelude::*;
use vstd::string::StringExecFns;

use crate::ast::{LiteralAst, RelationOperatorAst};
use crate::creation::{
    contains_marker, ends_in, ends_in_exec, first_marker, first_marker_exec, lemma_first_marker,
    marker_views, particles, word_text,
};
use crate::declarations::{join_names, joined, tokens_of};
use crate::diagnostic::{error_view, with_argument_view, Diagnostic, DiagnosticView, Span};
use crate::scanner::{Token, TokenKind, TokenKindView, TokenView};
use crate::text::{chars_of, str_eq, string_of};

verus! {

/// The diagnostic a cursor reports: at the token it stands on, or at the whole line when it
/// has run past the last token.
pub open spec fn cursor_error(ts: Seq<TokenView>, i: int, span: Span, key: Seq<char>) -> DiagnosticView {
    error_view(
        "RSPDL-KO-SYN-041"@,
        key,
        if 0 <= i < ts.len() {
            ts[i].span
        } else {
            span
        },
    )
}

/// The particles joined by `/`.
pub open spec fn slash_join(ms: Seq<Seq<char>>) -> Seq<char>
    decreases ms.len(),
{
    if ms.len() == 0 {
        Seq::empty()
    } else if ms.len() == 1 {
        ms[0]
    } else {
        slash_join(ms.drop_last()) + "/"@ + ms.last()
    }
}

/// The word at `i` and the position after it, or `i` itself when no word stands there.
pub open spec fn next_word_spec(ts: Seq<TokenView>, i: int) -> (int, Option<Seq<char>>) {
    if 0 <= i < ts.len() && ts[i].kind is Word {
        (i + 1, Some(word_text(ts[i].kind)))
    } else {
        (i, None)
    }
}

/// A run of words from `i`, up to the first word at or after `j` that ends in one of `ms` with
/// something before it.
pub open spec fn word_ref_spec(ts: Seq<TokenView>, i: int, j: int, span: Span, ms: Seq<Seq<char>>) -> Result<
    (int, Seq<char>, Seq<char>),
    DiagnosticView,
>
    decreases ts.len() - j,
{
    if 0 <= i <= j < ts.len() && ts[j].kind is Word {
        let w = word_text(ts[j].kind);
        let k = first_marker(w, ms);
        if k >= 0 {
            let base = w.subrange(0, w.len() - ms[k].len());
            Ok(
                (
                    j + 1,
                    if j == i {
                        base
                    } else {
                        joined(ts.subrange(i, j)) + seq![' '] + base
                    },
                    ms[k],
                ),
            )
        } else {
            word_ref_spec(ts, i, j + 1, span, ms)
        }
    } else {
        Err(
            with_argument_view(
                with_argument_view(
                    cursor_error(ts, j, span, "ko.syntax.reference_marker_missing"@),
                    "reference"@,
                    if 0 <= i < j {
                        joined(ts.subrange(i, j))
                    } else {
                        Seq::empty()
                    },
                ),
                "expected"@,
                slash_join(ms),
            ),
        )
    }
}

/// A reference with one of the particles `ms` at `i`: the position after it, the reference
/// and the particle.
pub open spec fn cursor_ref_spec(ts: Seq<TokenView>, i: int, span: Span, ms: Seq<Seq<char>>) -> Result<
    (int, Seq<char>, Seq<char>),
    DiagnosticView,
> {
    if i < 0 || i >= ts.len() {
        Err(cursor_error(ts, i, span, "ko.syntax.reference_and_marker_required"@))
    } else {
        match ts[i].kind {
            TokenKindView::QuotedIdentifier(v) => {
                let (after, marker) = next_word_spec(ts, i + 1);
                match marker {
                    None => Err(cursor_error(ts, after, span, "ko.syntax.quoted_reference_marker_required"@)),
                    Some(m) => if ms.contains(m) {
                        Ok((after, v, m))
                    } else {
                        Err(
                            with_argument_view(
                                with_argument_view(
                                    cursor_error(ts, after, span, "ko.syntax.reference_marker_invalid"@),
                                    "reference"@,
                                    v,
                                ),
                                "expected"@,
                                slash_join(ms),
                            ),
                        )
                    },
                }
            },
            TokenKindView::Word(_) => word_ref_spec(ts, i, i, span, ms),
            _ => Err(cursor_error(ts, i, span, "ko.syntax.surface_name_required"@)),
        }
    }
}

/// `expected` must be the next word.
pub open spec fn expect_word_spec(ts: Seq<TokenView>, i: int, span: Span, expected: Seq<char>) -> Result<
    int,
    DiagnosticView,
> {
    let (after, w) = next_word_spec(ts, i);
    if w == Some(expected) {
        Ok(after)
    } else {
        Err(
            with_argument_view(
                cursor_error(ts, after, span, "ko.syntax.word_required"@),
                "expected"@,
                expected,
            ),
        )
    }
}

pub open spec fn is_ascii_digit(c: char) -> bool {
    '0' <= c && c <= '9'
}

/// The digits after one leading `-`, if there is one.
pub open spec fn unsigned_part(v: Seq<char>) -> Seq<char> {
    if v.len() > 0 && v[0] == '-' {
        v.drop_first()
    } else {
        v
    }
}

/// A decimal integer: an optional `-`, then ASCII digits without a leading zero, and not `-0`.
pub open spec fn is_integer_spec(v: Seq<char>) -> bool {
    let d = unsigned_part(v);
    &&& d.len() > 0
    &&& forall|k: int| 0 <= k < d.len() ==> is_ascii_digit(#[trigger] d[k])
    &&& (d == seq!['0'] || d[0] != '0')
    &&& v != seq!['-', '0']
}

/// What a literal holds, its strings as character sequences.
pub enum LiteralView {
    String(Seq<char>),
    Integer(Seq<char>),
    Boolean(bool),
    Named(Seq<char>),
}

pub open spec fn literal_view(l: LiteralAst) -> LiteralView {
    match l {
        LiteralAst::String(v) => LiteralView::String(v@),
        LiteralAst::Integer(v) => LiteralView::Integer(v@),
        LiteralAst::Boolean(b) => LiteralView::Boolean(b),
        LiteralAst::Named(v) => LiteralView::Named(v@),
    }
}

/// A bare word as a literal: a truth value, an integer, or a name.
pub open spec fn word_literal_spec(v: Seq<char>) -> LiteralView {
    if v == "참"@ {
        LiteralView::Boolean(true)
    } else if v == "거짓"@ {
        LiteralView::Boolean(false)
    } else if is_integer_spec(v) {
        LiteralView::Integer(v)
    } else {
        LiteralView::Named(v)
    }
}

pub open spec fn conjunctions() -> Seq<Seq<char>> {
    seq!["과"@, "와"@]
}

pub open spec fn word_is(ts: Seq<TokenView>, i: int, w: Seq<char>) -> bool {
    0 <= i < ts.len() && ts[i].kind == TokenKindView::Word(w)
}

/// `"text"과 달라야` or `` `name` 와 달라야`` at `i`.
pub open spec fn not_equal_after(ts: Seq<TokenView>, i: int) -> bool {
    (word_is(ts, i + 1, "과"@) || word_is(ts, i + 1, "와"@)) && word_is(ts, i + 2, "달라야"@)
}

/// Words from `i`, up to the first at or after `j` that ends in `이어야` with something before
/// it: that word's position and the words before it with that word's stem.
pub open spec fn equal_run_spec(ts: Seq<TokenView>, i: int, j: int) -> Option<(int, Seq<char>)>
    decreases ts.len() - j,
{
    if 0 <= i <= j < ts.len() && ts[j].kind is Word {
        let w = word_text(ts[j].kind);
        if ends_in(w, "이어야"@) {
            let base = w.subrange(0, w.len() - 3);
            Some(
                (
                    j,
                    if j == i {
                        base
                    } else {
                        joined(ts.subrange(i, j)) + seq![' '] + base
                    },
                ),
            )
        } else {
            equal_run_spec(ts, i, j + 1)
        }
    } else {
        None
    }
}

/// The comparisons a word at `i` opens: `x과 달라야`, `n보다 커야|작아야`, an integer followed
/// by its comparison, or words ending in `이어야`. `None` when none of them starts here.
pub open spec fn word_comparison_spec(ts: Seq<TokenView>, i: int, span: Span, value: Seq<char>) -> Option<
    Result<(int, RelationOperatorAst, LiteralView), DiagnosticView>,
> {
    let k = first_marker(value, conjunctions());
    if k >= 0 {
        let (after, w) = next_word_spec(ts, i + 1);
        if w == Some("달라야"@) {
            Some(Ok((after, RelationOperatorAst::NotEqual, word_literal_spec(value.drop_last()))))
        } else {
            Some(Err(cursor_error(ts, after, span, "ko.syntax.not_equal_shape_required"@)))
        }
    } else if ends_in(value, "보다"@) && is_integer_spec(value.subrange(0, value.len() - 2)) {
        let number = value.subrange(0, value.len() - 2);
        let (after, w) = next_word_spec(ts, i + 1);
        if w == Some("커야"@) {
            Some(Ok((after, RelationOperatorAst::GreaterThan, LiteralView::Integer(number))))
        } else if w == Some("작아야"@) {
            Some(Ok((after, RelationOperatorAst::LessThan, LiteralView::Integer(number))))
        } else {
            Some(Err(cursor_error(ts, after, span, "ko.syntax.integer_order_shape_required"@)))
        }
    } else if is_integer_spec(value) {
        let (after, w) = next_word_spec(ts, i + 1);
        if w == Some("이상이어야"@) {
            Some(Ok((after, RelationOperatorAst::GreaterThanOrEqual, LiteralView::Integer(value))))
        } else if w == Some("이하여야"@) {
            Some(Ok((after, RelationOperatorAst::LessThanOrEqual, LiteralView::Integer(value))))
        } else if w == Some("보다"@) {
            let (after2, w2) = next_word_spec(ts, after);
            if w2 == Some("커야"@) {
                Some(Ok((after2, RelationOperatorAst::GreaterThan, LiteralView::Integer(value))))
            } else if w2 == Some("작아야"@) {
                Some(Ok((after2, RelationOperatorAst::LessThan, LiteralView::Integer(value))))
            } else {
                Some(Err(cursor_error(ts, after2, span, "ko.syntax.order_suffix_required"@)))
            }
        } else if w == Some("이어야"@) {
            Some(Ok((after, RelationOperatorAst::Equal, LiteralView::Integer(value))))
        } else {
            Some(Err(cursor_error(ts, after, span, "ko.syntax.integer_comparison_unsupported"@)))
        }
    } else {
        match equal_run_spec(ts, i, i) {
            Some((j, text)) => Some(Ok((j + 1, RelationOperatorAst::Equal, word_literal_spec(text)))),
            None => None,
        }
    }
}

/// A single literal followed by the word `이어야`.
pub open spec fn plain_equal_spec(ts: Seq<TokenView>, i: int, span: Span) -> Result<
    (int, RelationOperatorAst, LiteralView),
    DiagnosticView,
> {
    let literal = match ts[i].kind {
        TokenKindView::StringLiteral(v) => Some(LiteralView::String(v)),
        TokenKindView::QuotedIdentifier(v) => Some(LiteralView::Named(v)),
        TokenKindView::Word(v) => Some(word_literal_spec(v)),
        _ => None,
    };
    match literal {
        None => Err(cursor_error(ts, i, span, "ko.syntax.literal_unsupported"@)),
        Some(l) => match expect_word_spec(ts, i + 1, span, "이어야"@) {
            Ok(after) => Ok((after, RelationOperatorAst::Equal, l)),
            Err(e) => Err(e),
        },
    }
}

/// The value side of a comparison at `i`: the position after it, the operator and the literal.
pub open spec fn comparison_spec(ts: Seq<TokenView>, i: int, span: Span) -> Result<
    (int, RelationOperatorAst, LiteralView),
    DiagnosticView,
> {
    if i < 0 || i >= ts.len() {
        Err(cursor_error(ts, i, span, "ko.syntax.comparison_value_required"@))
    } else {
        match ts[i].kind {
            TokenKindView::StringLiteral(v) => if not_equal_after(ts, i) {
                Ok((i + 3, RelationOperatorAst::NotEqual, LiteralView::String(v)))
            } else {
                plain_equal_spec(ts, i, span)
            },
            TokenKindView::QuotedIdentifier(v) => if not_equal_after(ts, i) {
                Ok((i + 3, RelationOperatorAst::NotEqual, LiteralView::Named(v)))
            } else {
                plain_equal_spec(ts, i, span)
            },
            TokenKindView::Word(v) => match word_comparison_spec(ts, i, span, v) {
                Some(r) => r,
                None => plain_equal_spec(ts, i, span),
            },
            _ => plain_equal_spec(ts, i, span),
        }
    }
}

/// The operator that the order word `w` (`커야` or `작아야`) after `보다` asks for.
pub open spec fn order_operator(w: Seq<char>) -> RelationOperatorAst {
    if w == "커야"@ {
        RelationOperatorAst::GreaterThan
    } else {
        RelationOperatorAst::LessThan
    }
}

proof fn lemma_integer_ends_in_digit(n: Seq<char>)
    requires
        is_integer_spec(n),
    ensures
        n.len() > 0,
        is_ascii_digit(n.last()),
{
    let d = unsigned_part(n);
    assert(is_ascii_digit(d[d.len() - 1]));
    if n.len() > 0 && n[0] == '-' {
        assert(d.last() == n.last());
    }
}

proof fn lemma_no_conjunction(v: Seq<char>)
    requires
        v.len() > 0,
        v.last() != '과',
        v.last() != '와',
    ensures
        first_marker(v, conjunctions()) < 0,
{
    reveal_strlit("과");
    reveal_strlit("와");
    let ms = conjunctions();
    assert(ms[0] == "과"@ && ms[1] == "와"@);
    assert("과"@.len() == 1 && "과"@[0] == '과');
    assert("와"@.len() == 1 && "와"@[0] == '와');
    assert(!ends_in(v, ms[0])) by {
        if ends_in(v, ms[0]) {
            assert(v.subrange(v.len() - 1, v.len() as int)[0] == v.last());
        }
    }
    assert(!ends_in(v, ms[1])) by {
        if ends_in(v, ms[1]) {
            assert(v.subrange(v.len() - 1, v.len() as int)[0] == v.last());
        }
    }
    assert(crate::creation::first_marker_from(v, ms, 2) == -1);
    assert(crate::creation::first_marker_from(v, ms, 1) == -1);
}

/// `n 보다 커야` and `n 보다 작아야`, with `보다` a word of its own, compare with the integer `n`:
/// greater than for `커야`, less than for `작아야`.
pub proof fn separate_order_comparisons_read_their_direction(ts: Seq<TokenView>, i: int, span: Span, n: Seq<char>, w: Seq<char>)
    requires
        0 <= i,
        i + 2 < ts.len(),
        is_integer_spec(n),
        ts[i].kind == TokenKindView::Word(n),
        ts[i + 1].kind == TokenKindView::Word("보다"@),
        ts[i + 2].kind == TokenKindView::Word(w),
        w == "커야"@ || w == "작아야"@,
    ensures
        comparison_spec(ts, i, span) == Ok::<(int, RelationOperatorAst, LiteralView), DiagnosticView>(
            (i + 3, order_operator(w), LiteralView::Integer(n)),
        ),
{
    reveal_strlit("보다");
    reveal_strlit("커야");
    reveal_strlit("작아야");
    reveal_strlit("이상이어야");
    reveal_strlit("이하여야");
    lemma_integer_ends_in_digit(n);
    lemma_no_conjunction(n);
    assert(!ends_in(n, "보다"@)) by {
        if ends_in(n, "보다"@) {
            assert(n.subrange(n.len() - 2, n.len() as int)[1] == n.last());
        }
    }
    assert("커야"@ != "작아야"@) by {
        assert("커야"@.len() != "작아야"@.len());
    }
    assert("보다"@ != "이상이어야"@) by {
        assert("보다"@.len() != "이상이어야"@.len());
    }
    assert("보다"@ != "이하여야"@) by {
        assert("보다"@.len() != "이하여야"@.len());
    }
}

/// The operator that the word `w` after an integer asks for: `이상이어야` at least, `이하여야`
/// at most, `이어야` equal.
pub open spec fn bound_operator(w: Seq<char>) -> RelationOperatorAst {
    if w == "이상이어야"@ {
        RelationOperatorAst::GreaterThanOrEqual
    } else if w == "이하여야"@ {
        RelationOperatorAst::LessThanOrEqual
    } else {
        RelationOperatorAst::Equal
    }
}

/// `n 이상이어야`, `n 이하여야` and `n 이어야` compare with the integer `n`: at least, at most,
/// and equal.
pub proof fn integer_bounds_read_their_direction(ts: Seq<TokenView>, i: int, span: Span, n: Seq<char>, w: Seq<char>)
    requires
        0 <= i,
        i + 1 < ts.len(),
        is_integer_spec(n),
        ts[i].kind == TokenKindView::Word(n),
        ts[i + 1].kind == TokenKindView::Word(w),
        w == "이상이어야"@ || w == "이하여야"@ || w == "이어야"@,
    ensures
        comparison_spec(ts, i, span) == Ok::<(int, RelationOperatorAst, LiteralView), DiagnosticView>(
            (i + 2, bound_operator(w), LiteralView::Integer(n)),
        ),
{
    reveal_strlit("보다");
    reveal_strlit("이어야");
    reveal_strlit("이상이어야");
    reveal_strlit("이하여야");
    lemma_integer_ends_in_digit(n);
    lemma_no_conjunction(n);
    assert(!ends_in(n, "보다"@)) by {
        if ends_in(n, "보다"@) {
            assert(n.subrange(n.len() - 2, n.len() as int)[1] == n.last());
        }
    }
    assert("이상이어야"@ != "이하여야"@) by {
        assert("이상이어야"@.len() != "이하여야"@.len());
    }
    assert("이상이어야"@ != "이어야"@) by {
        assert("이상이어야"@.len() != "이어야"@.len());
    }
    assert("이하여야"@ != "이어야"@) by {
        assert("이하여야"@.len() != "이어야"@.len());
    }
    assert("보다"@ != w) by {
        assert("보다"@.len() != w.len());
    }
}

/// `n보다 커야` and `n보다 작아야`, with `보다` written onto the integer, read as the separate
/// forms do: greater than for `커야`, less than for `작아야`.
pub proof fn joined_order_comparisons_read_their_direction(ts: Seq<TokenView>, i: int, span: Span, n: Seq<char>, w: Seq<char>)
    requires
        0 <= i,
        i + 1 < ts.len(),
        is_integer_spec(n),
        ts[i].kind == TokenKindView::Word(n + "보다"@),
        ts[i + 1].kind == TokenKindView::Word(w),
        w == "커야"@ || w == "작아야"@,
    ensures
        comparison_spec(ts, i, span) == Ok::<(int, RelationOperatorAst, LiteralView), DiagnosticView>(
            (i + 2, order_operator(w), LiteralView::Integer(n)),
        ),
{
    reveal_strlit("보다");
    reveal_strlit("커야");
    reveal_strlit("작아야");
    lemma_integer_ends_in_digit(n);
    let v = n + "보다"@;
    assert(v.last() == '다');
    lemma_no_conjunction(v);
    assert(v.subrange(v.len() - 2, v.len() as int) =~= "보다"@);
    assert(v.subrange(0, v.len() - 2) =~= n);
    assert("커야"@ != "작아야"@) by {
        assert("커야"@.len() != "작아야"@.len());
    }
}

/// The cursor over the tokens of one sentence, its period already taken off.
pub struct BodyCursor<'a> {
    pub tokens: &'a [Token],
    pub index: usize,
    pub span: Span,
}

impl<'a> BodyCursor<'a> {
    pub open spec fn ts(&self) -> Seq<TokenView> {
        tokens_of(self.tokens)
    }

    pub fn new(tokens: &'a [Token], span: Span) -> (c: BodyCursor<'a>)
        ensures
            c.tokens == tokens,
            c.index == 0,
            c.span == span,
    {
        BodyCursor { tokens, index: 0, span }
    }

    /// The diagnostic for `message_key` where the cursor stands.
    pub fn error(&self, message_key: &str) -> (d: Diagnostic)
        ensures
            d@ == cursor_error(self.ts(), self.index as int, self.span, message_key@),
    {
        let span = if self.index < self.tokens.len() {
            self.tokens[self.index].span
        } else {
            self.span
        };
        Diagnostic::error("RSPDL-KO-SYN-041", message_key, span)
    }

    /// Takes the next token when it is a word.
    pub fn next_word(&mut self) -> (w: Option<&'a str>)
        requires
            old(self).index <= old(self).tokens@.len(),
        ensures
            final(self).tokens == old(self).tokens,
            final(self).span == old(self).span,
            final(self).index <= final(self).tokens@.len(),
            (final(self).index as int, match w {
                Some(v) => Some(v@),
                None => None,
            }) == next_word_spec(old(self).ts(), old(self).index as int),
    {
        if self.index < self.tokens.len() {
            assert(self.ts()[self.index as int] == self.tokens@[self.index as int]@);
            match &self.tokens[self.index].kind {
                TokenKind::Word(value) => {
                    self.index = self.index + 1;
                    return Some(value.as_str());
                },
                _ => {},
            }
        }
        None
    }

    /// Requires `expected` as the next word.
    pub fn expect_word(&mut self, expected: &str) -> (r: Result<(), Diagnostic>)
        requires
            old(self).index <= old(self).tokens@.len(),
        ensures
            final(self).tokens == old(self).tokens,
            final(self).span == old(self).span,
            final(self).index <= final(self).tokens@.len(),
            match expect_word_spec(old(self).ts(), old(self).index as int, old(self).span, expected@) {
                Ok(after) => r is Ok && final(self).index == after,
                Err(e) => r matches Err(d) && d@ == e,
            },
    {
        match self.next_word() {
            Some(actual) => {
                if str_eq(actual, expected) {
                    return Ok(());
                }
            },
            None => {},
        }
        Err(self.error("ko.syntax.word_required").with_argument("expected", expected))
    }

    /// Requires that nothing is left.
    pub fn expect_end(&self) -> (r: Result<(), Diagnostic>)
        ensures
            r is Ok <==> self.index == self.tokens@.len(),
            r matches Err(d) ==> d@ == cursor_error(
                self.ts(),
                self.index as int,
                self.span,
                "ko.syntax.trailing_expression"@,
            ),
    {
        if self.index == self.tokens.len() {
            Ok(())
        } else {
            Err(self.error("ko.syntax.trailing_expression"))
        }
    }
}

fn is_word_token(t: &Token) -> (b: bool)
    ensures
        b == t@.kind is Word,
{
    match &t.kind {
        TokenKind::Word(_) => true,
        _ => false,
    }
}

fn slash_joined(markers: &[&str]) -> (s: String)
    ensures
        s@ == slash_join(marker_views(markers@)),
{
    let ghost ms = marker_views(markers@);
    let mut s = String::new();
    let mut k: usize = 0;
    proof {
        assert(ms.take(0) =~= Seq::<Seq<char>>::empty());
    }
    while k < markers.len()
        invariant
            ms == marker_views(markers@),
            k <= markers@.len(),
            s@ == slash_join(ms.take(k as int)),
        decreases markers@.len() - k,
    {
        if k > 0 {
            s.append("/");
        }
        s.append(markers[k]);
        proof {
            let t = ms.take(k + 1);
            assert(t.drop_last() =~= ms.take(k as int));
            assert(t.last() == markers@[k as int]@);
            if k == 0 {
                assert(s@ =~= t[0]);
            }
        }
        k = k + 1;
    }
    proof {
        assert(ms.take(markers@.len() as int) =~= ms);
    }
    s
}

impl<'a> BodyCursor<'a> {
    /// Reads a reference followed by one of the particles `markers`: a quoted name and the
    /// particle as the next word, or words up to the first one that ends in a particle.
    pub fn marked_ref(&mut self, markers: &[&str]) -> (r: Result<(String, String), Diagnostic>)
        requires
            old(self).index <= old(self).tokens@.len(),
        ensures
            final(self).tokens == old(self).tokens,
            final(self).span == old(self).span,
            final(self).index <= final(self).tokens@.len(),
            match cursor_ref_spec(
                old(self).ts(),
                old(self).index as int,
                old(self).span,
                marker_views(markers@),
            ) {
                Ok((after, v, m)) => r matches Ok((rv, rm)) && rv@ == v && rm@ == m
                    && final(self).index == after,
                Err(e) => r matches Err(d) && d@ == e,
            },
    {
        let ghost ts = self.ts();
        let ghost ms = marker_views(markers@);
        let ghost span0 = self.span;
        if self.index >= self.tokens.len() {
            return Err(self.error("ko.syntax.reference_and_marker_required"));
        }
        let i = self.index;
        assert(ts[i as int] == self.tokens@[i as int]@);
        match &self.tokens[i].kind {
            TokenKind::QuotedIdentifier(value) => {
                self.index = i + 1;
                match self.next_word() {
                    None => Err(self.error("ko.syntax.quoted_reference_marker_required")),
                    Some(marker) => {
                        if contains_marker(markers, marker) {
                            Ok((String::from_str(value.as_str()), String::from_str(marker)))
                        } else {
                            Err(
                                self.error("ko.syntax.reference_marker_invalid").with_argument(
                                    "reference",
                                    value.as_str(),
                                ).with_argument("expected", slash_joined(markers).as_str()),
                            )
                        }
                    },
                }
            },
            TokenKind::Word(_) => {
                let tokens = self.tokens;
                let mut j = i;
                while j < tokens.len() && is_word_token(&tokens[j])
                    invariant
                        ts == tokens_of(tokens),
                        ms == marker_views(markers@),
                        i <= j <= tokens@.len(),
                        i < tokens@.len(),
                        self.tokens == tokens,
                        self.span == span0,
                        old(self).tokens == tokens,
                        old(self).span == span0,
                        old(self).index == i,
                        ts[i as int].kind is Word,
                        word_ref_spec(ts, i as int, i as int, self.span, ms) == word_ref_spec(
                            ts,
                            i as int,
                            j as int,
                            self.span,
                            ms,
                        ),
                    decreases tokens@.len() - j,
                {
                    assert(ts[j as int] == tokens@[j as int]@);
                    match &tokens[j].kind {
                        TokenKind::Word(w) => {
                            let wc = chars_of(w.as_str());
                            match first_marker_exec(&wc, markers) {
                                Some(k) => {
                                    proof {
                                        lemma_first_marker(wc@, ms, 0);
                                    }
                                    let m = markers[k];
                                    assert(ms[k as int] == m@);
                                    let mc = chars_of(m);
                                    let base = string_of(wc.as_slice(), 0, wc.len() - mc.len());
                                    let value = if j == i {
                                        base
                                    } else {
                                        let mut v = join_names(tokens, i, j);
                                        v.append(" ");
                                        v.append(base.as_str());
                                        proof {
                                            reveal_strlit(" ");
                                            assert(" "@ =~= seq![' ']);
                                        }
                                        v
                                    };
                                    self.index = j + 1;
                                    return Ok((value, String::from_str(m)));
                                },
                                None => {},
                            }
                        },
                        _ => {},
                    }
                    j = j + 1;
                }
                proof {
                    if j < tokens.len() {
                        assert(ts[j as int] == tokens@[j as int]@);
                    }
                }
                self.index = j;
                let reference = if j > i {
                    join_names(tokens, i, j)
                } else {
                    String::new()
                };
                Err(
                    self.error("ko.syntax.reference_marker_missing").with_argument(
                        "reference",
                        reference.as_str(),
                    ).with_argument("expected", slash_joined(markers).as_str()),
                )
            },
            _ => Err(self.error("ko.syntax.surface_name_required")),
        }
    }
}

/// Whether `value` is a decimal integer as [`is_integer_spec`] describes it.
pub fn is_integer(value: &str) -> (b: bool)
    ensures
        b == is_integer_spec(value@),
{
    let c = chars_of(value);
    let n = c.len();
    let start: usize = if n > 0 && c[0] == '-' {
        1
    } else {
        0
    };
    let ghost d = unsigned_part(value@);
    proof {
        assert(d =~= c@.subrange(start as int, n as int));
    }
    if start >= n {
        return false;
    }
    let mut k = start;
    while k < n
        invariant
            c@ == value@,
            n == c@.len(),
            start < n,
            d == unsigned_part(value@),
            d == c@.subrange(start as int, n as int),
            start <= k <= n,
            forall|m: int| start <= m < k ==> is_ascii_digit(#[trigger] c@[m]),
        decreases n - k,
    {
        if !('0' <= c[k] && c[k] <= '9') {
            assert(d[k - start] == c@[k as int]);
            assert(!is_ascii_digit(d[k - start]));
            return false;
        }
        k = k + 1;
    }
    proof {
        assert forall|m: int| 0 <= m < d.len() implies is_ascii_digit(#[trigger] d[m]) by {
            assert(d[m] == c@[start + m]);
        }
    }
    let single_zero = n - start == 1 && c[start] == '0';
    proof {
        if single_zero {
            assert(d =~= seq!['0']);
        } else {
            if d == seq!['0'] {
                assert(d.len() == 1);
                assert(d[0] == c@[start as int]);
            }
        }
        assert(d[0] == c@[start as int]);
    }
    if !single_zero && c[start] == '0' {
        return false;
    }
    if n == 2 && c[0] == '-' && c[1] == '0' {
        proof {
            assert(value@ =~= seq!['-', '0']);
        }
        return false;
    }
    proof {
        if value@ == seq!['-', '0'] {
            assert(c@[0] == '-' && c@[1] == '0');
        }
    }
    true
}

/// A bare word as a literal: `참`, `거짓`, an integer, or a name.
pub fn parse_word_literal(value: &str) -> (l: LiteralAst)
    ensures
        literal_view(l) == word_literal_spec(value@),
{
    if str_eq(value, "참") {
        LiteralAst::Boolean(true)
    } else if str_eq(value, "거짓") {
        LiteralAst::Boolean(false)
    } else if is_integer(value) {
        LiteralAst::Integer(String::from_str(value))
    } else {
        LiteralAst::Named(String::from_str(value))
    }
}

fn word_at(tokens: &[Token], i: usize, w: &str) -> (b: bool)
    ensures
        b == word_is(tokens_of(tokens), i as int, w@),
{
    if i < tokens.len() {
        assert(tokens_of(tokens)[i as int] == tokens@[i as int]@);
        match &tokens[i].kind {
            TokenKind::Word(v) => str_eq(v.as_str(), w),
            _ => false,
        }
    } else {
        false
    }
}

fn not_equal_follows(tokens: &[Token], i: usize) -> (b: bool)
    requires
        i < tokens@.len(),
    ensures
        b == not_equal_after(tokens_of(tokens), i as int),
{
    let n = tokens.len();
    if n - i < 3 {
        return false;
    }
    (word_at(tokens, i + 1, "과") || word_at(tokens, i + 1, "와")) && word_at(tokens, i + 2, "달라야")
}

fn equal_run(tokens: &[Token], i: usize) -> (r: Option<(usize, String)>)
    requires
        i < tokens@.len(),
    ensures
        match r {
            Some((j, text)) => equal_run_spec(tokens_of(tokens), i as int, i as int) == Some(
                (j as int, text@),
            ) && j < tokens@.len(),
            None => equal_run_spec(tokens_of(tokens), i as int, i as int) is None,
        },
{
    let ghost ts = tokens_of(tokens);
    let n = tokens.len();
    let mut j = i;
    while j < n && is_word_token(&tokens[j])
        invariant
            ts == tokens_of(tokens),
            n == tokens@.len(),
            i <= j <= tokens@.len(),
            i < tokens@.len(),
            equal_run_spec(ts, i as int, i as int) == equal_run_spec(ts, i as int, j as int),
        decreases tokens@.len() - j,
    {
        assert(ts[j as int] == tokens@[j as int]@);
        match &tokens[j].kind {
            TokenKind::Word(w) => {
                let wc = chars_of(w.as_str());
                if ends_in_exec(&wc, "이어야") {
                    proof {
                        reveal_strlit("이어야");
                    }
                    let base = string_of(wc.as_slice(), 0, wc.len() - 3);
                    let text = if j == i {
                        base
                    } else {
                        let mut v = join_names(tokens, i, j);
                        v.append(" ");
                        v.append(base.as_str());
                        proof {
                            reveal_strlit(" ");
                            assert(" "@ =~= seq![' ']);
                        }
                        v
                    };
                    return Some((j, text));
                }
            },
            _ => {},
        }
        j = j + 1;
    }
    proof {
        if j < tokens.len() {
            assert(ts[j as int] == tokens@[j as int]@);
        }
    }
    None
}

pub open spec fn comparison_view(r: (RelationOperatorAst, LiteralAst)) -> (RelationOperatorAst, LiteralView) {
    (r.0, literal_view(r.1))
}

impl<'a> BodyCursor<'a> {
    fn word_comparison(&mut self, value: &str) -> (r: Option<
        Result<(RelationOperatorAst, LiteralAst), Diagnostic>,
    >)
        requires
            old(self).index < old(self).tokens@.len(),
            old(self).ts()[old(self).index as int].kind == TokenKindView::Word(value@),
        ensures
            final(self).tokens == old(self).tokens,
            final(self).span == old(self).span,
            final(self).index <= final(self).tokens@.len(),
            match word_comparison_spec(
                old(self).ts(),
                old(self).index as int,
                old(self).span,
                value@,
            ) {
                Some(Ok((after, op, lit))) => r matches Some(Ok(x)) && comparison_view(x) == (op, lit)
                    && final(self).index == after,
                Some(Err(e)) => r matches Some(Err(d)) && d@ == e,
                None => r is None && final(self).index == old(self).index,
            },
    {
        let i = self.index;
        let n = self.tokens.len();
        let vc = chars_of(value);
        let conj = particles("과", "와");
        match first_marker_exec(&vc, conj.as_slice()) {
            Some(_) => {
                proof {
                    lemma_first_marker(vc@, conjunctions(), 0);
                    reveal_strlit("과");
                    reveal_strlit("와");
                }
                let literal = string_of(vc.as_slice(), 0, vc.len() - 1);
                proof {
                    assert(literal@ =~= value@.drop_last());
                }
                self.index = i + 1;
                match self.next_word() {
                    Some(w) => {
                        if str_eq(w, "달라야") {
                            return Some(
                                Ok((RelationOperatorAst::NotEqual, parse_word_literal(literal.as_str()))),
                            );
                        }
                    },
                    None => {},
                }
                return Some(Err(self.error("ko.syntax.not_equal_shape_required")));
            },
            None => {},
        }
        if ends_in_exec(&vc, "보다") {
            proof {
                reveal_strlit("보다");
            }
            let number = string_of(vc.as_slice(), 0, vc.len() - 2);
            if is_integer(number.as_str()) {
                self.index = i + 1;
                match self.next_word() {
                    Some(w) => {
                        if str_eq(w, "커야") {
                            return Some(Ok((RelationOperatorAst::GreaterThan, LiteralAst::Integer(number))));
                        }
                        if str_eq(w, "작아야") {
                            return Some(Ok((RelationOperatorAst::LessThan, LiteralAst::Integer(number))));
                        }
                    },
                    None => {},
                }
                return Some(Err(self.error("ko.syntax.integer_order_shape_required")));
            }
        }
        if is_integer(value) {
            self.index = i + 1;
            let number = String::from_str(value);
            match self.next_word() {
                Some(w) => {
                    if str_eq(w, "이상이어야") {
                        return Some(Ok((RelationOperatorAst::GreaterThanOrEqual, LiteralAst::Integer(number))));
                    }
                    if str_eq(w, "이하여야") {
                        return Some(Ok((RelationOperatorAst::LessThanOrEqual, LiteralAst::Integer(number))));
                    }
                    if str_eq(w, "보다") {
                        match self.next_word() {
                            Some(w2) => {
                                if str_eq(w2, "커야") {
                                    return Some(Ok((RelationOperatorAst::GreaterThan, LiteralAst::Integer(number))));
                                }
                                if str_eq(w2, "작아야") {
                                    return Some(Ok((RelationOperatorAst::LessThan, LiteralAst::Integer(number))));
                                }
                            },
                            None => {},
                        }
                        return Some(Err(self.error("ko.syntax.order_suffix_required")));
                    }
                    if str_eq(w, "이어야") {
                        return Some(Ok((RelationOperatorAst::Equal, LiteralAst::Integer(number))));
                    }
                },
                None => {},
            }
            return Some(Err(self.error("ko.syntax.integer_comparison_unsupported")));
        }
        match equal_run(self.tokens, i) {
            Some((j, text)) => {
                self.index = j + 1;
                Some(Ok((RelationOperatorAst::Equal, parse_word_literal(text.as_str()))))
            },
            None => None,
        }
    }

    fn plain_equal(&mut self) -> (r: Result<(RelationOperatorAst, LiteralAst), Diagnostic>)
        requires
            old(self).index < old(self).tokens@.len(),
        ensures
            final(self).tokens == old(self).tokens,
            final(self).span == old(self).span,
            final(self).index <= final(self).tokens@.len(),
            match plain_equal_spec(old(self).ts(), old(self).index as int, old(self).span) {
                Ok((after, op, lit)) => r matches Ok(x) && comparison_view(x) == (op, lit)
                    && final(self).index == after,
                Err(e) => r matches Err(d) && d@ == e,
            },
    {
        let i = self.index;
        assert(self.ts()[i as int] == self.tokens@[i as int]@);
        let literal = match &self.tokens[i].kind {
            TokenKind::StringLiteral(v) => LiteralAst::String(String::from_str(v.as_str())),
            TokenKind::QuotedIdentifier(v) => LiteralAst::Named(String::from_str(v.as_str())),
            TokenKind::Word(v) => parse_word_literal(v.as_str()),
            _ => {
                return Err(self.error("ko.syntax.literal_unsupported"));
            },
        };
        self.index = i + 1;
        match self.expect_word("이어야") {
            Ok(()) => Ok((RelationOperatorAst::Equal, literal)),
            Err(e) => Err(e),
        }
    }

    /// Reads the value side of a comparison: the operator and the literal it compares with.
    pub fn comparison_literal(&mut self) -> (r: Result<(RelationOperatorAst, LiteralAst), Diagnostic>)
        requires
            old(self).index <= old(self).tokens@.len(),
        ensures
            final(self).tokens == old(self).tokens,
            final(self).span == old(self).span,
            final(self).index <= final(self).tokens@.len(),
            match comparison_spec(old(self).ts(), old(self).index as int, old(self).span) {
                Ok((after, op, lit)) => r matches Ok(x) && comparison_view(x) == (op, lit)
                    && final(self).index == after,
                Err(e) => r matches Err(d) && d@ == e,
            },
    {
        let i = self.index;
        if i >= self.tokens.len() {
            return Err(self.error("ko.syntax.comparison_value_required"));
        }
        let tokens = self.tokens;
        assert(self.ts()[i as int] == tokens@[i as int]@);
        match &tokens[i].kind {
            TokenKind::StringLiteral(v) => {
                if not_equal_follows(tokens, i) {
                    self.index = i + 3;
                    return Ok((RelationOperatorAst::NotEqual, LiteralAst::String(String::from_str(v.as_str()))));
                }
            },
            TokenKind::QuotedIdentifier(v) => {
                if not_equal_follows(tokens, i) {
                    self.index = i + 3;
                    return Ok((RelationOperatorAst::NotEqual, LiteralAst::Named(String::from_str(v.as_str()))));
                }
            },
            TokenKind::Word(value) => {
                match self.word_comparison(value.as_str()) {
                    Some(r) => {
                        return r;
                    },
                    None => {},
                }
            },
            _ => {},
        }
        self.plain_equal()
    }
}

} // verus!
