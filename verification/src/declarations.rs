//! Line shapes of module and declaration headers and of the items of their blocks.
//!
//! Each reader takes the tokens of one line (layout tokens removed) and accepts exactly one
//! shape: a display name made of words and quoted names, a non-empty stable ID in
//! parentheses, and the fixed words that follow it.
use vstd::prelude::*;
use vstd::string::StringExecFns;

use crate::ast::TypeReferenceAst;
use crate::diagnostic::Span;
use crate::scanner::{Token, TokenKind, TokenKindView, TokenView};
use crate::text::{push_char, str_eq};

verus! {

/// A matched piece of the line: its text and the byte range it covers.
#[derive(Clone, Debug, PartialEq, Eq)]
pub struct Capture {
    pub value: String,
    pub start: usize,
    pub end: usize,
}

pub struct CaptureView {
    pub value: Seq<char>,
    pub start: usize,
    pub end: usize,
}

impl View for Capture {
    type V = CaptureView;

    open spec fn view(&self) -> CaptureView {
        CaptureView { value: self.value@, start: self.start, end: self.end }
    }
}

/// A display name with its stable ID.
#[derive(Clone, Debug, PartialEq, Eq)]
pub struct NamedHeader {
    pub name: Capture,
    pub id: Capture,
}

pub struct NamedHeaderView {
    pub name: CaptureView,
    pub id: CaptureView,
}

impl View for NamedHeader {
    type V = NamedHeaderView;

    open spec fn view(&self) -> NamedHeaderView {
        NamedHeaderView { name: self.name@, id: self.id@ }
    }
}

impl NamedHeader {
    /// From the first byte of the name to the last byte of the stable ID.
    pub fn span(&self) -> (s: Span)
        ensures
            s == (Span { start: self.name.start, end: self.id.end }),
    {
        Span { start: self.name.start, end: self.id.end }
    }
}

/// One item of a data model block: `name(id): 필수|선택 type`.
#[derive(Debug, PartialEq, Eq)]
pub struct FieldItem {
    pub declaration: NamedHeader,
    pub required: bool,
    pub value_type: TypeReferenceAst,
    pub span: Span,
}

/// The line does not have the shape the reader accepts.
#[derive(Clone, Copy, Debug, PartialEq, Eq)]
pub struct ShapeMismatch;

/// A word or a quoted name: a piece of a display name.
pub open spec fn is_name_part(k: TokenKindView) -> bool {
    k is Word || k is QuotedIdentifier
}

pub open spec fn part_text(k: TokenKindView) -> Seq<char> {
    match k {
        TokenKindView::Word(v) => v,
        TokenKindView::QuotedIdentifier(v) => v,
        _ => Seq::empty(),
    }
}

/// The texts of the name pieces, joined by single spaces.
pub open spec fn joined(ts: Seq<TokenView>) -> Seq<char>
    decreases ts.len(),
{
    if ts.len() == 0 {
        Seq::empty()
    } else if ts.len() == 1 {
        part_text(ts[0].kind)
    } else {
        joined(ts.drop_last()) + seq![' '] + part_text(ts.last().kind)
    }
}

/// `ts[lo..hi]` is a non-empty run of name pieces.
pub open spec fn names_ok(ts: Seq<TokenView>, lo: int, hi: int) -> bool {
    &&& 0 <= lo < hi <= ts.len()
    &&& forall|k: int| lo <= k < hi ==> is_name_part(#[trigger] ts[k].kind)
}

pub open spec fn name_capture(ts: Seq<TokenView>, lo: int, hi: int) -> CaptureView {
    CaptureView {
        value: joined(ts.subrange(lo, hi)),
        start: ts[lo].span.start,
        end: ts[hi - 1].span.end,
    }
}

/// `ts[i]` is a stable ID with a non-empty value.
pub open spec fn id_at(ts: Seq<TokenView>, i: int) -> bool {
    0 <= i < ts.len() && (ts[i].kind matches TokenKindView::CanonicalId(v) && v.len() > 0)
}

pub open spec fn id_capture(ts: Seq<TokenView>, i: int) -> CaptureView {
    CaptureView {
        value: match ts[i].kind {
            TokenKindView::CanonicalId(v) => v,
            _ => Seq::empty(),
        },
        start: ts[i].span.start,
        end: ts[i].span.end,
    }
}

pub open spec fn named(ts: Seq<TokenView>, lo: int, i: int) -> NamedHeaderView {
    NamedHeaderView { name: name_capture(ts, lo, i), id: id_capture(ts, i) }
}

/// `keyword name(id)`, with nothing after the stable ID.
pub open spec fn annotated_spec(ts: Seq<TokenView>, keyword: Seq<char>) -> Option<NamedHeaderView> {
    if ts.len() >= 3 && ts[0].kind == TokenKindView::Word(keyword) && names_ok(ts, 1, ts.len() - 1)
        && id_at(ts, ts.len() - 1) {
        Some(named(ts, 1, ts.len() - 1))
    } else {
        None
    }
}

pub open spec fn is_topic_marker(k: TokenKindView) -> bool {
    k == TokenKindView::Word(seq!['은']) || k == TokenKindView::Word(seq!['는'])
}

/// `name(id)은|는 <predicate words>.`
pub open spec fn natural_spec(ts: Seq<TokenView>, predicate: Seq<Seq<char>>) -> Option<
    NamedHeaderView,
> {
    let n = ts.len() - predicate.len() - 3;
    if ts.len() >= predicate.len() + 4 && names_ok(ts, 0, n) && id_at(ts, n) && is_topic_marker(
        ts[n + 1].kind,
    ) && (forall|k: int|
        0 <= k < predicate.len() ==> #[trigger] ts[n + 2 + k].kind == TokenKindView::Word(
            predicate[k],
        )) && ts.last().kind == TokenKindView::Period {
        Some(named(ts, 0, n))
    } else {
        None
    }
}

/// `name(id)`, the item of an enum block.
pub open spec fn enum_value_spec(ts: Seq<TokenView>) -> Option<NamedHeaderView> {
    if ts.len() >= 2 && names_ok(ts, 0, ts.len() - 1) && id_at(ts, ts.len() - 1) {
        Some(named(ts, 0, ts.len() - 1))
    } else {
        None
    }
}

/// Index of the first token that is not a name piece.
pub open spec fn name_end(ts: Seq<TokenView>, from: int) -> int
    decreases ts.len() - from,
{
    if from < 0 || from >= ts.len() {
        ts.len() as int
    } else if is_name_part(ts[from].kind) {
        name_end(ts, from + 1)
    } else {
        from
    }
}

pub struct FieldItemView {
    pub declaration: NamedHeaderView,
    pub required: bool,
    pub type_text: Seq<char>,
    pub span: Span,
}

/// `name(id): 필수|선택 type name`.
pub open spec fn field_item_spec(ts: Seq<TokenView>) -> Option<FieldItemView> {
    let i = name_end(ts, 0);
    if i >= 1 && id_at(ts, i) && i + 3 < ts.len() && ts[i + 1].kind == TokenKindView::Colon && (
    ts[i + 2].kind == TokenKindView::Word("필수"@) || ts[i + 2].kind == TokenKindView::Word(
        "선택"@,
    )) && names_ok(ts, i + 3, ts.len() as int) {
        Some(
            FieldItemView {
                declaration: named(ts, 0, i),
                required: ts[i + 2].kind == TokenKindView::Word("필수"@),
                type_text: joined(ts.subrange(i + 3, ts.len() as int)),
                span: Span { start: ts[0].span.start, end: ts.last().span.end },
            },
        )
    } else {
        None
    }
}

/// The type a field's type name stands for.
pub open spec fn type_matches(t: TypeReferenceAst, name: Seq<char>) -> bool {
    if name == "문자열"@ {
        t is String
    } else if name == "정수"@ {
        t is Integer
    } else if name == "불리언"@ {
        t is Boolean
    } else {
        t matches TypeReferenceAst::Named(n) && n@ == name
    }
}

pub open spec fn tokens_of(tokens: &[Token]) -> Seq<TokenView> {
    tokens@.map_values(|t: Token| t@)
}

pub(crate) fn is_name_token(t: &Token) -> (b: bool)
    ensures
        b == is_name_part(t@.kind),
{
    match &t.kind {
        TokenKind::Word(_) | TokenKind::QuotedIdentifier(_) => true,
        _ => false,
    }
}

fn names_in(tokens: &[Token], lo: usize, hi: usize) -> (b: bool)
    requires
        lo <= hi <= tokens@.len(),
    ensures
        b == names_ok(tokens_of(tokens), lo as int, hi as int),
{
    if lo == hi {
        return false;
    }
    let mut k = lo;
    while k < hi
        invariant
            lo <= k <= hi <= tokens@.len(),
            forall|j: int| lo <= j < k ==> is_name_part(#[trigger] tokens_of(tokens)[j].kind),
        decreases hi - k,
    {
        assert(tokens_of(tokens)[k as int] == tokens@[k as int]@);
        if !is_name_token(&tokens[k]) {
            return false;
        }
        k = k + 1;
    }
    true
}

pub(crate) fn join_names(tokens: &[Token], lo: usize, hi: usize) -> (s: String)
    requires
        lo <= hi <= tokens@.len(),
    ensures
        s@ == joined(tokens_of(tokens).subrange(lo as int, hi as int)),
{
    let ghost ts = tokens_of(tokens);
    let mut s = String::new();
    let mut k = lo;
    proof {
        assert(ts.subrange(lo as int, lo as int) =~= Seq::<TokenView>::empty());
    }
    while k < hi
        invariant
            lo <= k <= hi <= tokens@.len(),
            ts == tokens_of(tokens),
            s@ == joined(ts.subrange(lo as int, k as int)),
        decreases hi - k,
    {
        if k > lo {
            push_char(&mut s, ' ');
        }
        match &tokens[k].kind {
            TokenKind::Word(v) | TokenKind::QuotedIdentifier(v) => s.append(v.as_str()),
            _ => {},
        }
        proof {
            let sub = ts.subrange(lo as int, k + 1);
            assert(sub.drop_last() =~= ts.subrange(lo as int, k as int));
            assert(sub.last() == ts[k as int]);
            if k == lo {
                assert(s@ =~= part_text(ts[k as int].kind));
            }
        }
        k = k + 1;
    }
    s
}

pub(crate) fn name_capture_of(tokens: &[Token], lo: usize, hi: usize) -> (c: Capture)
    requires
        lo < hi <= tokens@.len(),
    ensures
        c@ == name_capture(tokens_of(tokens), lo as int, hi as int),
{
    Capture {
        value: join_names(tokens, lo, hi),
        start: tokens[lo].span.start,
        end: tokens[hi - 1].span.end,
    }
}

pub(crate) fn id_capture_at(tokens: &[Token], i: usize) -> (c: Option<Capture>)
    requires
        i < tokens@.len(),
    ensures
        c is Some <==> id_at(tokens_of(tokens), i as int),
        c matches Some(v) ==> v@ == id_capture(tokens_of(tokens), i as int),
{
    match &tokens[i].kind {
        TokenKind::CanonicalId(v) => {
            if v.as_str().is_empty() {
                None
            } else {
                Some(
                    Capture {
                        value: String::from_str(v.as_str()),
                        start: tokens[i].span.start,
                        end: tokens[i].span.end,
                    },
                )
            }
        },
        _ => None,
    }
}

pub(crate) fn is_word(t: &Token, w: &str) -> (b: bool)
    ensures
        b == (t@.kind == TokenKindView::Word(w@)),
{
    match &t.kind {
        TokenKind::Word(v) => str_eq(v.as_str(), w),
        _ => false,
    }
}

fn annotated(tokens: &[Token], keyword: &str) -> (r: Result<NamedHeader, ShapeMismatch>)
    ensures
        match r {
            Ok(h) => annotated_spec(tokens_of(tokens), keyword@) == Some(h@),
            Err(_) => annotated_spec(tokens_of(tokens), keyword@) is None,
        },
{
    let n = tokens.len();
    if n < 3 || !is_word(&tokens[0], keyword) || !names_in(tokens, 1, n - 1) {
        return Err(ShapeMismatch);
    }
    match id_capture_at(tokens, n - 1) {
        Some(id) => Ok(NamedHeader { name: name_capture_of(tokens, 1, n - 1), id }),
        None => Err(ShapeMismatch),
    }
}

fn natural(tokens: &[Token], predicate: &[&str]) -> (r: Result<NamedHeader, ShapeMismatch>)
    requires
        predicate@.len() < 8,
    ensures
        match r {
            Ok(h) => natural_spec(tokens_of(tokens), predicate@.map_values(|w: &str| w@)) == Some(
                h@,
            ),
            Err(_) => natural_spec(tokens_of(tokens), predicate@.map_values(|w: &str| w@)) is None,
        },
{
    let ghost ts = tokens_of(tokens);
    let ghost p = predicate@.map_values(|w: &str| w@);
    let len = tokens.len();
    let plen = predicate.len();
    if len < plen + 4 {
        return Err(ShapeMismatch);
    }
    let n = len - plen - 3;
    if !names_in(tokens, 0, n) {
        return Err(ShapeMismatch);
    }
    let id = match id_capture_at(tokens, n) {
        Some(id) => id,
        None => return Err(ShapeMismatch),
    };
    if !(is_word(&tokens[n + 1], "은") || is_word(&tokens[n + 1], "는")) {
        proof {
            reveal_strlit("은");
            reveal_strlit("는");
            assert("은"@ =~= seq!['은']);
            assert("는"@ =~= seq!['는']);
        }
        return Err(ShapeMismatch);
    }
    proof {
        reveal_strlit("은");
        reveal_strlit("는");
        assert("은"@ =~= seq!['은']);
        assert("는"@ =~= seq!['는']);
    }
    let mut k: usize = 0;
    while k < plen
        invariant
            ts == tokens_of(tokens),
            p == predicate@.map_values(|w: &str| w@),
            plen == predicate@.len(),
            len == tokens@.len(),
            n == len - plen - 3,
            k <= plen,
            forall|j: int| 0 <= j < k ==> #[trigger] ts[n + 2 + j].kind == TokenKindView::Word(p[j]),
        decreases plen - k,
    {
        assert(p[k as int] == predicate@[k as int]@);
        assert(ts[n + 2 + k] == tokens@[n + 2 + k]@);
        if !is_word(&tokens[n + 2 + k], predicate[k]) {
            return Err(ShapeMismatch);
        }
        k = k + 1;
    }
    match &tokens[len - 1].kind {
        TokenKind::Period => {},
        _ => {
            return Err(ShapeMismatch);
        },
    }
    Ok(NamedHeader { name: name_capture_of(tokens, 0, n), id })
}

/// `@모듈 name(id)`.
pub fn parse_module_header(tokens: &[Token]) -> (r: Result<NamedHeader, ShapeMismatch>)
    ensures
        match r {
            Ok(h) => annotated_spec(tokens_of(tokens), "@모듈"@) == Some(h@),
            Err(_) => annotated_spec(tokens_of(tokens), "@모듈"@) is None,
        },
{
    annotated(tokens, "@모듈")
}

pub open spec fn enum_predicate() -> Seq<Seq<char>> {
    seq!["다음"@, "값"@, "중"@, "하나다"@]
}

pub open spec fn data_model_predicate() -> Seq<Seq<char>> {
    seq!["다음"@, "필드들로"@, "구성되어"@, "있다"@]
}

/// `name(id)은|는 다음 값 중 하나다.`
pub fn parse_enum_header(tokens: &[Token]) -> (r: Result<NamedHeader, ShapeMismatch>)
    ensures
        match r {
            Ok(h) => natural_spec(tokens_of(tokens), enum_predicate()) == Some(h@),
            Err(_) => natural_spec(tokens_of(tokens), enum_predicate()) is None,
        },
{
    let words: [&str; 4] = ["다음", "값", "중", "하나다"];
    let r = natural(tokens, words.as_slice());
    proof {
        assert(words@.map_values(|w: &str| w@) =~= enum_predicate());
    }
    r
}

/// `name(id)은|는 다음 필드들로 구성되어 있다.`
pub fn parse_data_model_header(tokens: &[Token]) -> (r: Result<NamedHeader, ShapeMismatch>)
    ensures
        match r {
            Ok(h) => natural_spec(tokens_of(tokens), data_model_predicate()) == Some(h@),
            Err(_) => natural_spec(tokens_of(tokens), data_model_predicate()) is None,
        },
{
    let words: [&str; 4] = ["다음", "필드들로", "구성되어", "있다"];
    let r = natural(tokens, words.as_slice());
    proof {
        assert(words@.map_values(|w: &str| w@) =~= data_model_predicate());
    }
    r
}

fn single_word_header(tokens: &[Token], word: &str) -> (r: Result<NamedHeader, ShapeMismatch>)
    ensures
        match r {
            Ok(h) => natural_spec(tokens_of(tokens), seq![word@]) == Some(h@),
            Err(_) => natural_spec(tokens_of(tokens), seq![word@]) is None,
        },
{
    let words: [&str; 1] = [word];
    let r = natural(tokens, words.as_slice());
    proof {
        assert(words@.map_values(|w: &str| w@) =~= seq![word@]);
    }
    r
}

/// `name(id)은|는 역할이다.`
pub fn parse_role_header(tokens: &[Token]) -> (r: Result<NamedHeader, ShapeMismatch>)
    ensures
        match r {
            Ok(h) => natural_spec(tokens_of(tokens), seq!["역할이다"@]) == Some(h@),
            Err(_) => natural_spec(tokens_of(tokens), seq!["역할이다"@]) is None,
        },
{
    single_word_header(tokens, "역할이다")
}

/// `name(id)은|는 행동이다.`
pub fn parse_action_header(tokens: &[Token]) -> (r: Result<NamedHeader, ShapeMismatch>)
    ensures
        match r {
            Ok(h) => natural_spec(tokens_of(tokens), seq!["행동이다"@]) == Some(h@),
            Err(_) => natural_spec(tokens_of(tokens), seq!["행동이다"@]) is None,
        },
{
    single_word_header(tokens, "행동이다")
}

/// `name(id)은|는 사건이다.`
pub fn parse_event_header(tokens: &[Token]) -> (r: Result<NamedHeader, ShapeMismatch>)
    ensures
        match r {
            Ok(h) => natural_spec(tokens_of(tokens), seq!["사건이다"@]) == Some(h@),
            Err(_) => natural_spec(tokens_of(tokens), seq!["사건이다"@]) is None,
        },
{
    single_word_header(tokens, "사건이다")
}

/// `name(id)`: one value of an enum block.
pub fn parse_enum_value(tokens: &[Token]) -> (r: Result<NamedHeader, ShapeMismatch>)
    ensures
        match r {
            Ok(h) => enum_value_spec(tokens_of(tokens)) == Some(h@),
            Err(_) => enum_value_spec(tokens_of(tokens)) is None,
        },
{
    let n = tokens.len();
    if n < 2 || !names_in(tokens, 0, n - 1) {
        return Err(ShapeMismatch);
    }
    match id_capture_at(tokens, n - 1) {
        Some(id) => Ok(NamedHeader { name: name_capture_of(tokens, 0, n - 1), id }),
        None => Err(ShapeMismatch),
    }
}

pub(crate) proof fn lemma_name_end(ts: Seq<TokenView>, from: int, k: int)
    requires
        0 <= from <= k <= ts.len(),
        forall|j: int| from <= j < k ==> is_name_part(#[trigger] ts[j].kind),
        k == ts.len() || !is_name_part(ts[k].kind),
    ensures
        name_end(ts, from) == k,
    decreases k - from,
{
    if from < k {
        lemma_name_end(ts, from + 1, k);
    }
}

fn type_reference(text: String) -> (t: TypeReferenceAst)
    ensures
        type_matches(t, text@),
{
    if str_eq(text.as_str(), "문자열") {
        TypeReferenceAst::String
    } else if str_eq(text.as_str(), "정수") {
        TypeReferenceAst::Integer
    } else if str_eq(text.as_str(), "불리언") {
        TypeReferenceAst::Boolean
    } else {
        TypeReferenceAst::Named(text)
    }
}

/// `name(id): 필수|선택 type name`: one field of a data model block.
pub fn parse_field_item(tokens: &[Token]) -> (r: Result<FieldItem, ShapeMismatch>)
    ensures
        match r {
            Ok(f) => match field_item_spec(tokens_of(tokens)) {
                Some(v) => f.declaration@ == v.declaration && f.required == v.required
                    && type_matches(f.value_type, v.type_text) && f.span == v.span,
                None => false,
            },
            Err(_) => field_item_spec(tokens_of(tokens)) is None,
        },
{
    let ghost ts = tokens_of(tokens);
    let len = tokens.len();
    let mut i: usize = 0;
    while i < len && is_name_token(&tokens[i])
        invariant
            ts == tokens_of(tokens),
            len == tokens@.len(),
            i <= len,
            forall|j: int| 0 <= j < i ==> is_name_part(#[trigger] ts[j].kind),
        decreases len - i,
    {
        assert(ts[i as int] == tokens@[i as int]@);
        i = i + 1;
    }
    proof {
        if i < len {
            assert(ts[i as int] == tokens@[i as int]@);
        }
        lemma_name_end(ts, 0, i as int);
    }
    if i < 1 || len < 4 || i >= len - 3 {
        return Err(ShapeMismatch);
    }
    let id = match id_capture_at(tokens, i) {
        Some(id) => id,
        None => return Err(ShapeMismatch),
    };
    match &tokens[i + 1].kind {
        TokenKind::Colon => {},
        _ => {
            return Err(ShapeMismatch);
        },
    }
    let required = if is_word(&tokens[i + 2], "필수") {
        true
    } else if is_word(&tokens[i + 2], "선택") {
        false
    } else {
        return Err(ShapeMismatch);
    };
    if !names_in(tokens, i + 3, len) {
        return Err(ShapeMismatch);
    }
    let name = name_capture_of(tokens, 0, i);
    let value_type = type_reference(join_names(tokens, i + 3, len));
    Ok(
        FieldItem {
            declaration: NamedHeader { name, id },
            required,
            value_type,
            span: Span { start: tokens[0].span.start, end: tokens[len - 1].span.end },
        },
    )
}

} // verus!
