//! The outline of a source: logical lines out of the token stream, and which declaration a
//! line opens, told by its first word, its stable ID and the words it ends with.
use vstd::prelude::*;

use crate::creation::word_text;
use crate::parser::{
    first_id, first_id_from, last_sentence_word, last_sentence_word_spec, lemma_first_id_from,
    line_tokens, opt_str_view, word_at, word_at_spec, word_views, Line,
};
use crate::diagnostic::{span_join, Span};
use crate::scanner::{Token, TokenKind, TokenKindView, TokenView};
use vstd::string::StringExecFns;
use crate::text::str_eq;

verus! {

/// The words of a token sequence, in order, other tokens left out.
pub open spec fn words_of(ts: Seq<TokenView>) -> Seq<Seq<char>>
    decreases ts.len(),
{
    if ts.len() == 0 {
        Seq::empty()
    } else if ts.last().kind is Word {
        words_of(ts.drop_last()).push(word_text(ts.last().kind))
    } else {
        words_of(ts.drop_last())
    }
}

/// Whether the last words of `ws` are `suffix`.
pub open spec fn words_end_with(ws: Seq<Seq<char>>, suffix: Seq<Seq<char>>) -> bool {
    suffix.len() <= ws.len() && ws.subrange(ws.len() - suffix.len(), ws.len() as int) == suffix
}

/// Whether the words of the line end with `suffix`.
pub open spec fn line_ends_with(line: Line, suffix: Seq<Seq<char>>) -> bool {
    words_end_with(words_of(line_tokens(line)), suffix)
}

/// Whether the words of the line, punctuation and IDs left out, end with `suffix`.
pub fn sentence_words_end_with(line: &Line, suffix: &[&str]) -> (b: bool)
    ensures
        b == line_ends_with(*line, word_views(suffix@)),
{
    let ghost lt = line_tokens(*line);
    let n = line.tokens.len();
    let mut words: Vec<&str> = Vec::new();
    let mut k: usize = 0;
    proof {
        assert(lt.take(0) =~= Seq::<TokenView>::empty());
        assert(word_views(words@) =~= Seq::<Seq<char>>::empty());
    }
    while k < n
        invariant
            lt == line_tokens(*line),
            n == line.tokens@.len(),
            k <= n,
            word_views(words@) == words_of(lt.take(k as int)),
        decreases n - k,
    {
        proof {
            assert(lt.take(k + 1).drop_last() =~= lt.take(k as int));
            assert(lt.take(k + 1).last() == line.tokens@[k as int]@);
        }
        match &line.tokens[k].kind {
            TokenKind::Word(w) => {
                words.push(w.as_str());
                proof {
                    assert(word_views(words@) =~= words_of(lt.take(k + 1)));
                }
            },
            _ => {},
        }
        k = k + 1;
    }
    proof {
        assert(lt.take(n as int) =~= lt);
    }
    let ghost ws = word_views(words@);
    let ghost sv = word_views(suffix@);
    if suffix.len() > words.len() {
        return false;
    }
    let wl = words.len();
    let off = wl - suffix.len();
    let mut i: usize = 0;
    while i < suffix.len()
        invariant
            ws == word_views(words@),
            sv == word_views(suffix@),
            ws == words_of(line_tokens(*line)),
            ws.len() == words@.len(),
            off + suffix@.len() == wl,
            wl == words@.len(),
            i <= suffix@.len(),
            forall|j: int| 0 <= j < i ==> ws[off + j] == sv[j],
        decreases suffix@.len() - i,
    {
        if !str_eq(words[off + i], suffix[i]) {
            proof {
                assert(ws.subrange(off as int, ws.len() as int)[i as int] != sv[i as int]);
            }
            return false;
        }
        i = i + 1;
    }
    proof {
        assert(ws.subrange(off as int, ws.len() as int) =~= sv);
    }
    true
}

/// Whether the words of `ts` end with `suffix`.
pub open spec fn ends_spec(ts: Seq<TokenView>, suffix: Seq<Seq<char>>) -> bool {
    words_end_with(words_of(ts), suffix)
}

/// `… 다음 값 중 하나다.`: an enumeration.
pub open spec fn enum_header_spec(ts: Seq<TokenView>) -> bool {
    ends_spec(ts, seq!["다음"@, "값"@, "중"@, "하나다"@])
}

pub fn is_enum_header(line: &Line) -> (b: bool)
    ensures
        b == enum_header_spec(line_tokens(*line)),
{
    let words = ["다음", "값", "중", "하나다"];
    proof {
        assert(word_views(words@) =~= seq!["다음"@, "값"@, "중"@, "하나다"@]);
    }
    sentence_words_end_with(line, &words)
}

/// `… 역할이다.`: a role.
pub open spec fn role_sentence_spec(ts: Seq<TokenView>) -> bool {
    ends_spec(ts, seq!["역할이다"@])
}

pub fn is_role_sentence(line: &Line) -> (b: bool)
    ensures
        b == role_sentence_spec(line_tokens(*line)),
{
    let words = ["역할이다"];
    proof {
        assert(word_views(words@) =~= seq!["역할이다"@]);
    }
    sentence_words_end_with(line, &words)
}

/// `… 행동이다.`: an action.
pub open spec fn action_sentence_spec(ts: Seq<TokenView>) -> bool {
    ends_spec(ts, seq!["행동이다"@])
}

pub fn is_action_sentence(line: &Line) -> (b: bool)
    ensures
        b == action_sentence_spec(line_tokens(*line)),
{
    let words = ["행동이다"];
    proof {
        assert(word_views(words@) =~= seq!["행동이다"@]);
    }
    sentence_words_end_with(line, &words)
}

/// The word right after the first stable ID of the line.
pub open spec fn word_after_id(ts: Seq<TokenView>) -> Option<Seq<char>> {
    let id = first_id_from(ts, 0);
    if id < ts.len() {
        word_at_spec(ts, id + 1)
    } else {
        None
    }
}

fn word_after_id_exec(line: &Line) -> (w: Option<&str>)
    ensures
        opt_str_view(w) == word_after_id(line_tokens(*line)),
{
    let ghost lt = line_tokens(*line);
    let all = line.tokens.as_slice();
    proof {
        assert(crate::declarations::tokens_of(all) =~= lt);
        lemma_first_id_from(lt, 0);
    }
    let id = first_id(all, 0);
    if id >= line.tokens.len() {
        return None;
    }
    word_at(line, id + 1)
}

/// `name(id)에서는 … 수 있다.`: a screen.
pub open spec fn screen_sentence_spec(ts: Seq<TokenView>) -> bool {
    &&& word_after_id(ts) == Some("에서는"@)
    &&& last_sentence_word_spec(ts, 0) == Some("있다"@)
    &&& last_sentence_word_spec(ts, 1) == Some("수"@)
}

pub fn is_screen_sentence(line: &Line) -> (b: bool)
    ensures
        b == screen_sentence_spec(line_tokens(*line)),
{
    match (word_after_id_exec(line), last_sentence_word(line, 0), last_sentence_word(line, 1)) {
        (Some(a), Some(l), Some(p)) => str_eq(a, "에서는") && str_eq(l, "있다") && str_eq(p, "수"),
        _ => false,
    }
}

/// `A은 B를 name(id)로 가질 수 있다.`: a relation between two models.
pub open spec fn binary_relation_spec(ts: Seq<TokenView>) -> bool {
    &&& (word_after_id(ts) == Some("로"@) || word_after_id(ts) == Some("으로"@))
    &&& ends_spec(ts, seq!["가질"@, "수"@, "있다"@])
}

pub fn is_binary_relation_sentence(line: &Line) -> (b: bool)
    ensures
        b == binary_relation_spec(line_tokens(*line)),
{
    let marker = match word_after_id_exec(line) {
        Some(w) => str_eq(w, "로") || str_eq(w, "으로"),
        None => false,
    };
    if !marker {
        return false;
    }
    let words = ["가질", "수", "있다"];
    proof {
        assert(word_views(words@) =~= seq!["가질"@, "수"@, "있다"@]);
    }
    sentence_words_end_with(line, &words)
}

/// `A은 name(id)에 해당할 수 있다.`: a relation on one model.
pub open spec fn unary_relation_spec(ts: Seq<TokenView>) -> bool {
    &&& word_after_id(ts) == Some("에"@)
    &&& ends_spec(ts, seq!["해당할"@, "수"@, "있다"@])
}

pub fn is_unary_relation_sentence(line: &Line) -> (b: bool)
    ensures
        b == unary_relation_spec(line_tokens(*line)),
{
    let marker = match word_after_id_exec(line) {
        Some(w) => str_eq(w, "에"),
        None => false,
    };
    if !marker {
        return false;
    }
    let words = ["해당할", "수", "있다"];
    proof {
        assert(word_views(words@) =~= seq!["해당할"@, "수"@, "있다"@]);
    }
    sentence_words_end_with(line, &words)
}

pub open spec fn relation_sentence_spec(ts: Seq<TokenView>) -> bool {
    binary_relation_spec(ts) || unary_relation_spec(ts)
}

pub fn is_relation_sentence(line: &Line) -> (b: bool)
    ensures
        b == relation_sentence_spec(line_tokens(*line)),
{
    is_binary_relation_sentence(line) || is_unary_relation_sentence(line)
}

/// `… 하나 이상 존재해야 한다.`
pub open spec fn nonempty_spec(ts: Seq<TokenView>) -> bool {
    ends_spec(ts, seq!["하나"@, "이상"@, "존재해야"@, "한다"@])
}

pub fn is_nonempty_sentence(line: &Line) -> (b: bool)
    ensures
        b == nonempty_spec(line_tokens(*line)),
{
    let words = ["하나", "이상", "존재해야", "한다"];
    proof {
        assert(word_views(words@) =~= seq!["하나"@, "이상"@, "존재해야"@, "한다"@]);
    }
    sentence_words_end_with(line, &words)
}

fn first_word_is(line: &Line, w: &str) -> (b: bool)
    ensures
        b == (word_at_spec(line_tokens(*line), 0) == Some(w@)),
{
    match word_at(line, 0) {
        Some(v) => str_eq(v, w),
        None => false,
    }
}

/// `모든 … 하나 이상 가져야 한다.`
pub open spec fn required_relation_spec(ts: Seq<TokenView>) -> bool {
    &&& word_at_spec(ts, 0) == Some("모든"@)
    &&& ends_spec(ts, seq!["하나"@, "이상"@, "가져야"@, "한다"@])
}

pub fn is_required_relation_sentence(line: &Line) -> (b: bool)
    ensures
        b == required_relation_spec(line_tokens(*line)),
{
    let words = ["하나", "이상", "가져야", "한다"];
    proof {
        assert(word_views(words@) =~= seq!["하나"@, "이상"@, "가져야"@, "한다"@]);
    }
    first_word_is(line, "모든") && sentence_words_end_with(line, &words)
}

/// `각 … 최대 하나만 가질 수 있다.`
pub open spec fn unique_relation_spec(ts: Seq<TokenView>) -> bool {
    &&& word_at_spec(ts, 0) == Some("각"@)
    &&& ends_spec(ts, seq!["최대"@, "하나만"@, "가질"@, "수"@, "있다"@])
}

pub fn is_unique_relation_sentence(line: &Line) -> (b: bool)
    ensures
        b == unique_relation_spec(line_tokens(*line)),
{
    let words = ["최대", "하나만", "가질", "수", "있다"];
    proof {
        assert(word_views(words@) =~= seq!["최대"@, "하나만"@, "가질"@, "수"@, "있다"@]);
    }
    first_word_is(line, "각") && sentence_words_end_with(line, &words)
}

/// `… 중 둘 이상은 동시에 성립할 수 없다.`
pub open spec fn exclusive_relation_spec(ts: Seq<TokenView>) -> bool {
    ends_spec(ts, seq!["중"@, "둘"@, "이상은"@, "동시에"@, "성립할"@, "수"@, "없다"@])
}

pub fn is_exclusive_relation_sentence(line: &Line) -> (b: bool)
    ensures
        b == exclusive_relation_spec(line_tokens(*line)),
{
    let words = ["중", "둘", "이상은", "동시에", "성립할", "수", "없다"];
    proof {
        assert(word_views(words@) =~= seq!["중"@, "둘"@, "이상은"@, "동시에"@, "성립할"@, "수"@, "없다"@]);
    }
    sentence_words_end_with(line, &words)
}

/// `… 중 하나 이상은 항상 성립해야 한다.`
pub open spec fn exhaustive_relation_spec(ts: Seq<TokenView>) -> bool {
    ends_spec(ts, seq!["중"@, "하나"@, "이상은"@, "항상"@, "성립해야"@, "한다"@])
}

pub fn is_exhaustive_relation_sentence(line: &Line) -> (b: bool)
    ensures
        b == exhaustive_relation_spec(line_tokens(*line)),
{
    let words = ["중", "하나", "이상은", "항상", "성립해야", "한다"];
    proof {
        assert(word_views(words@) =~= seq!["중"@, "하나"@, "이상은"@, "항상"@, "성립해야"@, "한다"@]);
    }
    sentence_words_end_with(line, &words)
}

/// `… 동시에 성립할 수 있다.`, unless the line reads as a relation between two models.
pub open spec fn coexistent_relation_spec(ts: Seq<TokenView>) -> bool {
    ends_spec(ts, seq!["동시에"@, "성립할"@, "수"@, "있다"@]) && !binary_relation_spec(ts)
}

pub fn is_coexistent_relation_sentence(line: &Line) -> (b: bool)
    ensures
        b == coexistent_relation_spec(line_tokens(*line)),
{
    let words = ["동시에", "성립할", "수", "있다"];
    proof {
        assert(word_views(words@) =~= seq!["동시에"@, "성립할"@, "수"@, "있다"@]);
    }
    sentence_words_end_with(line, &words) && !is_binary_relation_sentence(line)
}

/// Whether the line holds the word `w` anywhere.
pub open spec fn has_word(ts: Seq<TokenView>, w: Seq<char>) -> bool {
    exists|i: int| 0 <= i < ts.len() && #[trigger] word_at_spec(ts, i) == Some(w)
}

fn has_word_exec(line: &Line, w: &str) -> (b: bool)
    ensures
        b == has_word(line_tokens(*line), w@),
{
    let ghost lt = line_tokens(*line);
    let mut i: usize = 0;
    while i < line.tokens.len()
        invariant
            lt == line_tokens(*line),
            i <= lt.len(),
            forall|j: int| 0 <= j < i ==> word_at_spec(lt, j) != Some(w@),
        decreases lt.len() - i,
    {
        match word_at(line, i) {
            Some(v) => {
                if str_eq(v, w) {
                    return true;
                }
            },
            None => {},
        }
        i = i + 1;
    }
    false
}

/// `… 합계로 … 계산한다.`
pub open spec fn sum_derivation_spec(ts: Seq<TokenView>) -> bool {
    last_sentence_word_spec(ts, 0) == Some("계산한다"@) && has_word(ts, "합계로"@)
}

pub fn is_sum_derivation_sentence(line: &Line) -> (b: bool)
    ensures
        b == sum_derivation_spec(line_tokens(*line)),
{
    match last_sentence_word(line, 0) {
        Some(w) => str_eq(w, "계산한다") && has_word_exec(line, "합계로"),
        None => false,
    }
}

/// `… 다시 계산한다.`
pub open spec fn recalculation_spec(ts: Seq<TokenView>) -> bool {
    last_sentence_word_spec(ts, 0) == Some("계산한다"@) && last_sentence_word_spec(ts, 1) == Some(
        "다시"@,
    )
}

pub fn is_recalculation_sentence(line: &Line) -> (b: bool)
    ensures
        b == recalculation_spec(line_tokens(*line)),
{
    match (last_sentence_word(line, 0), last_sentence_word(line, 1)) {
        (Some(a), Some(b)) => str_eq(a, "계산한다") && str_eq(b, "다시"),
        _ => false,
    }
}

/// `… 내부 관리에만 사용한다.` or `… 사용자 화면에서 조회하지 않는다.`
pub open spec fn field_intent_spec(ts: Seq<TokenView>) -> bool {
    ends_spec(ts, seq!["내부"@, "관리에만"@, "사용한다"@]) || ends_spec(
        ts,
        seq!["사용자"@, "화면에서"@, "조회하지"@, "않는다"@],
    )
}

pub fn is_field_intent_sentence(line: &Line) -> (b: bool)
    ensures
        b == field_intent_spec(line_tokens(*line)),
{
    let internal = ["내부", "관리에만", "사용한다"];
    let hidden = ["사용자", "화면에서", "조회하지", "않는다"];
    proof {
        assert(word_views(internal@) =~= seq!["내부"@, "관리에만"@, "사용한다"@]);
        assert(word_views(hidden@) =~= seq!["사용자"@, "화면에서"@, "조회하지"@, "않는다"@]);
    }
    sentence_words_end_with(line, &internal) || sentence_words_end_with(line, &hidden)
}

/// `… 다음 필드들로 구성되어 있다.`, unless the first word is an annotation (starts with `@`).
pub open spec fn data_model_header_spec(ts: Seq<TokenView>) -> bool {
    let annotated = match word_at_spec(ts, 0) {
        Some(w) => w.len() > 0 && w[0] == '@',
        None => false,
    };
    !annotated && ends_spec(ts, seq!["다음"@, "필드들로"@, "구성되어"@, "있다"@])
}

pub fn is_data_model_header(line: &Line) -> (b: bool)
    ensures
        b == data_model_header_spec(line_tokens(*line)),
{
    match word_at(line, 0) {
        Some(w) => {
            let cs = crate::text::chars_of(w);
            if cs.len() > 0 && cs[0] == '@' {
                return false;
            }
        },
        None => {},
    }
    let words = ["다음", "필드들로", "구성되어", "있다"];
    proof {
        assert(word_views(words@) =~= seq!["다음"@, "필드들로"@, "구성되어"@, "있다"@]);
    }
    sentence_words_end_with(line, &words)
}

/// A rule ends in `한다`, `있다` or `없다`.
pub open spec fn rule_sentence_spec(ts: Seq<TokenView>) -> bool {
    let w = last_sentence_word_spec(ts, 0);
    w == Some("한다"@) || w == Some("있다"@) || w == Some("없다"@)
}

pub fn is_rule_sentence(line: &Line) -> (b: bool)
    ensures
        b == rule_sentence_spec(line_tokens(*line)),
{
    match last_sentence_word(line, 0) {
        Some(w) => str_eq(w, "한다") || str_eq(w, "있다") || str_eq(w, "없다"),
        None => false,
    }
}

/// A policy ends in `수 있다` or `수 없다`.
pub open spec fn policy_sentence_spec(ts: Seq<TokenView>) -> bool {
    let w = last_sentence_word_spec(ts, 0);
    (w == Some("있다"@) || w == Some("없다"@)) && last_sentence_word_spec(ts, 1) == Some("수"@)
}

pub fn is_policy_sentence(line: &Line) -> (b: bool)
    ensures
        b == policy_sentence_spec(line_tokens(*line)),
{
    match (last_sentence_word(line, 0), last_sentence_word(line, 1)) {
        (Some(a), Some(b)) => (str_eq(a, "있다") || str_eq(a, "없다")) && str_eq(b, "수"),
        _ => false,
    }
}

/// A line as values: its indentation level, its tokens and its span.
pub open spec fn line_view(l: Line) -> (int, Seq<TokenView>, Span) {
    (l.indent as int, line_tokens(l), l.span)
}

/// What has been read of the token stream: the indentation level, the tokens of the line
/// being read, and the lines already closed.
pub struct OutlineState {
    pub indent: int,
    pub current: Seq<TokenView>,
    pub lines: Seq<(int, Seq<TokenView>, Span)>,
}

/// One token more: `Indent` and `Dedent` move the level (never below zero), `Newline` closes
/// the current line when it holds a token, any other token joins the current line.
pub open spec fn outline_step(o: OutlineState, t: TokenView) -> OutlineState {
    match t.kind {
        TokenKindView::Indent => OutlineState { indent: o.indent + 1, ..o },
        TokenKindView::Dedent => OutlineState {
            indent: if o.indent > 0 {
                o.indent - 1
            } else {
                0
            },
            ..o
        },
        TokenKindView::Newline => if o.current.len() > 0 {
            OutlineState {
                indent: o.indent,
                current: Seq::empty(),
                lines: o.lines.push(
                    (o.indent, o.current, span_join(o.current[0].span, o.current.last().span)),
                ),
            }
        } else {
            o
        },
        _ => OutlineState { current: o.current.push(t), ..o },
    }
}

/// The state after reading all of `ts`.
pub open spec fn outline_of(ts: Seq<TokenView>) -> OutlineState
    decreases ts.len(),
{
    if ts.len() == 0 {
        OutlineState { indent: 0, current: Seq::empty(), lines: Seq::empty() }
    } else {
        outline_step(outline_of(ts.drop_last()), ts.last())
    }
}

proof fn lemma_outline_indent(ts: Seq<TokenView>)
    ensures
        0 <= outline_of(ts).indent <= ts.len(),
    decreases ts.len(),
{
    if ts.len() > 0 {
        lemma_outline_indent(ts.drop_last());
    }
}

/// A copy of a token.
pub fn copy_token(t: &Token) -> (r: Token)
    ensures
        r@ == t@,
{
    let kind = match &t.kind {
        TokenKind::Word(v) => TokenKind::Word(String::from_str(v.as_str())),
        TokenKind::QuotedIdentifier(v) => TokenKind::QuotedIdentifier(String::from_str(v.as_str())),
        TokenKind::CanonicalId(v) => TokenKind::CanonicalId(String::from_str(v.as_str())),
        TokenKind::StringLiteral(v) => TokenKind::StringLiteral(String::from_str(v.as_str())),
        TokenKind::Colon => TokenKind::Colon,
        TokenKind::Period => TokenKind::Period,
        TokenKind::Indent => TokenKind::Indent,
        TokenKind::Dedent => TokenKind::Dedent,
        TokenKind::Newline => TokenKind::Newline,
    };
    Token { kind, span: t.span }
}

/// Splits the token stream into logical lines, layout tokens taken out.
pub fn logical_lines(tokens: &[Token]) -> (lines: Vec<Line>)
    ensures
        lines@.map_values(|l: Line| line_view(l)) == outline_of(crate::declarations::tokens_of(tokens)).lines,
{
    let ghost ts = crate::declarations::tokens_of(tokens);
    let mut lines: Vec<Line> = Vec::new();
    let mut indent: usize = 0;
    let mut current: Vec<Token> = Vec::new();
    let mut k: usize = 0;
    proof {
        assert(ts.take(0) =~= Seq::<TokenView>::empty());
        assert(current@.map_values(|t: Token| t@) =~= Seq::<TokenView>::empty());
        assert(lines@.map_values(|l: Line| line_view(l)) =~= Seq::<(int, Seq<TokenView>, Span)>::empty());
    }
    while k < tokens.len()
        invariant
            ts == crate::declarations::tokens_of(tokens),
            k <= tokens@.len(),
            indent as int == outline_of(ts.take(k as int)).indent,
            current@.map_values(|t: Token| t@) == outline_of(ts.take(k as int)).current,
            lines@.map_values(|l: Line| line_view(l)) == outline_of(ts.take(k as int)).lines,
        decreases tokens@.len() - k,
    {
        let ghost o = outline_of(ts.take(k as int));
        proof {
            assert(ts.take(k + 1).drop_last() =~= ts.take(k as int));
            assert(ts.take(k + 1).last() == tokens@[k as int]@);
            lemma_outline_indent(ts.take(k as int));
        }
        let ghost o2 = outline_of(ts.take(k + 1));
        match &tokens[k].kind {
            TokenKind::Indent => {
                indent = indent + 1;
            },
            TokenKind::Dedent => {
                if indent > 0 {
                    indent = indent - 1;
                }
            },
            TokenKind::Newline => {
                let n = current.len();
                if n > 0 {
                    let span = current[0].span.join(current[n - 1].span);
                    let line = Line { indent, tokens: current, span };
                    proof {
                        assert(line_tokens(line) =~= o.current);
                        assert(o.current[0] == line.tokens@[0]@);
                        assert(o.current.last() == line.tokens@[n - 1]@);
                    }
                    let ghost before = lines@;
                    lines.push(line);
                    current = Vec::new();
                    proof {
                        assert(lines@ == before.push(line));
                        assert(lines@.map_values(|l: Line| line_view(l)) =~= o2.lines);
                        assert(current@.map_values(|t: Token| t@) =~= o2.current);
                    }
                }
            },
            _ => {
                let ghost before = current@;
                current.push(copy_token(&tokens[k]));
                proof {
                    assert(current@.map_values(|t: Token| t@) =~= o2.current);
                }
            },
        }
        k = k + 1;
    }
    proof {
        assert(ts.take(tokens@.len() as int) =~= ts);
    }
    lines
}

/// The relational rules, told apart by how their sentence ends.
#[derive(Clone, Copy, Debug, PartialEq, Eq, Structural)]
pub enum RelationalConstraintDeclarationKind {
    NonEmpty,
    Required,
    Unique,
    Exclusive,
    Exhaustive,
    Coexistent,
}

/// The declaration a line opens.
#[derive(Clone, Copy, Debug, PartialEq, Eq, Structural)]
pub enum DeclarationKind {
    Enum,
    DataModel,
    Relation,
    RelationalConstraint(RelationalConstraintDeclarationKind),
    Screen,
    SumDerivation,
    Recalculation,
    FieldIntent,
    Constraint,
    Role,
    Action,
    Policy,
}

/// The first shape in this order that the line has decides what it declares; a rule that is
/// no policy is a constraint.
pub open spec fn declaration_kind_spec(ts: Seq<TokenView>) -> Option<DeclarationKind> {
    if enum_header_spec(ts) {
        Some(DeclarationKind::Enum)
    } else if data_model_header_spec(ts) {
        Some(DeclarationKind::DataModel)
    } else if role_sentence_spec(ts) {
        Some(DeclarationKind::Role)
    } else if action_sentence_spec(ts) {
        Some(DeclarationKind::Action)
    } else if relation_sentence_spec(ts) {
        Some(DeclarationKind::Relation)
    } else if nonempty_spec(ts) {
        Some(DeclarationKind::RelationalConstraint(RelationalConstraintDeclarationKind::NonEmpty))
    } else if required_relation_spec(ts) {
        Some(DeclarationKind::RelationalConstraint(RelationalConstraintDeclarationKind::Required))
    } else if unique_relation_spec(ts) {
        Some(DeclarationKind::RelationalConstraint(RelationalConstraintDeclarationKind::Unique))
    } else if exclusive_relation_spec(ts) {
        Some(DeclarationKind::RelationalConstraint(RelationalConstraintDeclarationKind::Exclusive))
    } else if exhaustive_relation_spec(ts) {
        Some(DeclarationKind::RelationalConstraint(RelationalConstraintDeclarationKind::Exhaustive))
    } else if coexistent_relation_spec(ts) {
        Some(DeclarationKind::RelationalConstraint(RelationalConstraintDeclarationKind::Coexistent))
    } else if screen_sentence_spec(ts) {
        Some(DeclarationKind::Screen)
    } else if recalculation_spec(ts) {
        Some(DeclarationKind::Recalculation)
    } else if sum_derivation_spec(ts) {
        Some(DeclarationKind::SumDerivation)
    } else if field_intent_spec(ts) {
        Some(DeclarationKind::FieldIntent)
    } else if rule_sentence_spec(ts) {
        if policy_sentence_spec(ts) {
            Some(DeclarationKind::Policy)
        } else {
            Some(DeclarationKind::Constraint)
        }
    } else {
        None
    }
}

/// Which declaration the line opens, if any.
pub fn declaration_kind(line: &Line) -> (k: Option<DeclarationKind>)
    ensures
        k == declaration_kind_spec(line_tokens(*line)),
{
    if is_enum_header(line) {
        Some(DeclarationKind::Enum)
    } else if is_data_model_header(line) {
        Some(DeclarationKind::DataModel)
    } else if is_role_sentence(line) {
        Some(DeclarationKind::Role)
    } else if is_action_sentence(line) {
        Some(DeclarationKind::Action)
    } else if is_relation_sentence(line) {
        Some(DeclarationKind::Relation)
    } else if is_nonempty_sentence(line) {
        Some(DeclarationKind::RelationalConstraint(RelationalConstraintDeclarationKind::NonEmpty))
    } else if is_required_relation_sentence(line) {
        Some(DeclarationKind::RelationalConstraint(RelationalConstraintDeclarationKind::Required))
    } else if is_unique_relation_sentence(line) {
        Some(DeclarationKind::RelationalConstraint(RelationalConstraintDeclarationKind::Unique))
    } else if is_exclusive_relation_sentence(line) {
        Some(DeclarationKind::RelationalConstraint(RelationalConstraintDeclarationKind::Exclusive))
    } else if is_exhaustive_relation_sentence(line) {
        Some(DeclarationKind::RelationalConstraint(RelationalConstraintDeclarationKind::Exhaustive))
    } else if is_coexistent_relation_sentence(line) {
        Some(DeclarationKind::RelationalConstraint(RelationalConstraintDeclarationKind::Coexistent))
    } else if is_screen_sentence(line) {
        Some(DeclarationKind::Screen)
    } else if is_recalculation_sentence(line) {
        Some(DeclarationKind::Recalculation)
    } else if is_sum_derivation_sentence(line) {
        Some(DeclarationKind::SumDerivation)
    } else if is_field_intent_sentence(line) {
        Some(DeclarationKind::FieldIntent)
    } else if is_rule_sentence(line) {
        if is_policy_sentence(line) {
            Some(DeclarationKind::Policy)
        } else {
            Some(DeclarationKind::Constraint)
        }
    } else {
        None
    }
}

/// A token that only shapes the layout: an indent, a dedent or a line end.
pub open spec fn is_layout(t: TokenView) -> bool {
    t.kind is Indent || t.kind is Dedent || t.kind is Newline
}

/// Tokens with no layout token among them.
pub open spec fn free_of_layout(ts: Seq<TokenView>) -> bool {
    forall|j: int| 0 <= j < ts.len() ==> !#[trigger] is_layout(ts[j])
}

/// Every logical line holds at least one token, none of them a layout token, and spans from
/// its first token to its last.
pub proof fn logical_lines_are_nonempty_and_layout_free(ts: Seq<TokenView>)
    ensures
        free_of_layout(outline_of(ts).current),
        forall|i: int| 0 <= i < outline_of(ts).lines.len() ==> {
            let l = #[trigger] outline_of(ts).lines[i];
            &&& l.1.len() > 0
            &&& free_of_layout(l.1)
            &&& l.2 == span_join(l.1[0].span, l.1.last().span)
        },
    decreases ts.len(),
{
    if ts.len() > 0 {
        logical_lines_are_nonempty_and_layout_free(ts.drop_last());
        let o = outline_of(ts.drop_last());
        let t = ts.last();
        if !is_layout(t) {
            assert forall|j: int| 0 <= j < o.current.push(t).len() implies !#[trigger] is_layout(
                o.current.push(t)[j],
            ) by {
                if j < o.current.len() {
                    assert(o.current.push(t)[j] == o.current[j]);
                }
            }
        }
    }
}

} // verus!
