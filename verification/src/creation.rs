//! The conditional-creation sentence:
//! `name(id)은 action의 input이 variant이면 model을 하나 생성한다.` and its `생성하지 않는다`
//! twin. Each reference is a run of words whose last word carries the particle, or a quoted
//! name followed by the particle as a word of its own.
use vstd::prelude::*;
use vstd::string::StringExecFns;

use crate::declarations::{
    id_at, id_capture, id_capture_at, is_name_part, is_name_token, is_topic_marker, is_word,
    join_names, joined, lemma_name_end, name_capture, name_capture_of, name_end, tokens_of,
    Capture, CaptureView, ShapeMismatch,
};
use crate::scanner::{Token, TokenKind, TokenKindView, TokenView};
use crate::text::{byte_len, byte_length, chars_of, str_eq, string_of};

verus! {

/// `w` ends in `m`, with something before it.
pub open spec fn ends_in(w: Seq<char>, m: Seq<char>) -> bool {
    w.len() > m.len() && w.subrange(w.len() - m.len(), w.len() as int) == m
}

/// Index of the first of `ms[from..]` that `w` ends in, or -1.
pub open spec fn first_marker_from(w: Seq<char>, ms: Seq<Seq<char>>, from: int) -> int
    decreases ms.len() - from,
{
    if from < 0 || from >= ms.len() {
        -1
    } else if ends_in(w, ms[from]) {
        from
    } else {
        first_marker_from(w, ms, from + 1)
    }
}

pub open spec fn first_marker(w: Seq<char>, ms: Seq<Seq<char>>) -> int {
    first_marker_from(w, ms, 0)
}

/// `a - b`, or 0 when `b` is larger.
pub open spec fn minus_or_zero(a: usize, b: nat) -> usize {
    if a >= b {
        (a - b) as usize
    } else {
        0
    }
}

pub open spec fn word_text(k: TokenKindView) -> Seq<char> {
    match k {
        TokenKindView::Word(v) => v,
        _ => Seq::empty(),
    }
}

/// Words from `p` on, up to the first one at or after `i` that ends in one of `ms`: the
/// reference is the words before it and that word without its particle. The span ends where
/// the particle begins.
pub open spec fn bare_ref_spec(ts: Seq<TokenView>, p: int, i: int, ms: Seq<Seq<char>>) -> Option<
    (int, CaptureView),
>
    decreases ts.len() - i,
{
    if 0 <= p <= i < ts.len() && ts[i].kind is Word {
        let w = word_text(ts[i].kind);
        let k = first_marker(w, ms);
        if k >= 0 {
            let m = ms[k];
            let base = w.subrange(0, w.len() - m.len());
            Some(
                (
                    i + 1,
                    CaptureView {
                        value: if i == p {
                            base
                        } else {
                            joined(ts.subrange(p, i)) + seq![' '] + base
                        },
                        start: ts[p].span.start,
                        end: minus_or_zero(ts[i].span.end, byte_len(m)),
                    },
                ),
            )
        } else {
            bare_ref_spec(ts, p, i + 1, ms)
        }
    } else {
        None
    }
}

/// A reference followed by one of the particles `ms`, starting at `p`: the position after it
/// and the reference.
pub open spec fn marked_ref_spec(ts: Seq<TokenView>, p: int, ms: Seq<Seq<char>>) -> Option<
    (int, CaptureView),
> {
    if 0 <= p < ts.len() {
        match ts[p].kind {
            TokenKindView::QuotedIdentifier(v) => if p + 1 < ts.len() && ts[p + 1].kind is Word
                && ms.contains(word_text(ts[p + 1].kind)) {
                Some((p + 2, CaptureView { value: v, start: ts[p].span.start, end: ts[p].span.end }))
            } else {
                None
            },
            TokenKindView::Word(_) => bare_ref_spec(ts, p, p, ms),
            _ => None,
        }
    } else {
        None
    }
}

pub open spec fn possessive() -> Seq<Seq<char>> {
    seq!["의"@]
}

pub open spec fn subject_particles() -> Seq<Seq<char>> {
    seq!["이"@, "가"@]
}

pub open spec fn condition_particles() -> Seq<Seq<char>> {
    seq!["이면"@, "라면"@]
}

pub open spec fn object_particles() -> Seq<Seq<char>> {
    seq!["을"@, "를"@]
}

/// `하나 생성한다` or `생성하지 않는다` at `e`.
pub open spec fn decision_at(ts: Seq<TokenView>, e: int) -> bool {
    0 <= e && e + 1 < ts.len() && ((ts[e].kind == TokenKindView::Word("하나"@) && ts[e + 1].kind
        == TokenKindView::Word("생성한다"@)) || (ts[e].kind == TokenKindView::Word("생성하지"@)
        && ts[e + 1].kind == TokenKindView::Word("않는다"@)))
}

/// What a conditional-creation sentence names.
#[derive(Clone, Debug, PartialEq, Eq)]
pub struct CreationBranchShape {
    pub branch_name: Capture,
    pub branch_id: Capture,
    pub action: Capture,
    pub input: Capture,
    pub variant: Capture,
    pub output_model: Capture,
    pub decision: Capture,
}

pub struct CreationBranchShapeView {
    pub branch_name: CaptureView,
    pub branch_id: CaptureView,
    pub action: CaptureView,
    pub input: CaptureView,
    pub variant: CaptureView,
    pub output_model: CaptureView,
    pub decision: CaptureView,
}

impl View for CreationBranchShape {
    type V = CreationBranchShapeView;

    open spec fn view(&self) -> CreationBranchShapeView {
        CreationBranchShapeView {
            branch_name: self.branch_name@,
            branch_id: self.branch_id@,
            action: self.action@,
            input: self.input@,
            variant: self.variant@,
            output_model: self.output_model@,
            decision: self.decision@,
        }
    }
}

/// The whole line, in the order the sentence writes it, ending in its period.
pub open spec fn creation_branch_spec(ts: Seq<TokenView>) -> Option<CreationBranchShapeView> {
    let n = name_end(ts, 0);
    if n >= 1 && id_at(ts, n) && n + 1 < ts.len() && is_topic_marker(ts[n + 1].kind) {
        match marked_ref_spec(ts, n + 2, possessive()) {
            Some((a, action)) => match marked_ref_spec(ts, a, subject_particles()) {
                Some((b, input)) => match marked_ref_spec(ts, b, condition_particles()) {
                    Some((c, variant)) => match marked_ref_spec(ts, c, object_particles()) {
                        Some((e, output_model)) => if decision_at(ts, e) && e + 3 == ts.len()
                            && ts[e + 2].kind is Period {
                            Some(
                                CreationBranchShapeView {
                                    branch_name: name_capture(ts, 0, n),
                                    branch_id: id_capture(ts, n),
                                    action,
                                    input,
                                    variant,
                                    output_model,
                                    decision: name_capture(ts, e, e + 2),
                                },
                            )
                        } else {
                            None
                        },
                        None => None,
                    },
                    None => None,
                },
                None => None,
            },
            None => None,
        }
    } else {
        None
    }
}

pub open spec fn marker_views(ms: Seq<&str>) -> Seq<Seq<char>> {
    ms.map_values(|m: &str| m@)
}

pub(crate) proof fn lemma_first_marker(w: Seq<char>, ms: Seq<Seq<char>>, from: int)
    requires
        0 <= from,
    ensures
        first_marker_from(w, ms, from) >= 0 ==> from <= first_marker_from(w, ms, from) < ms.len()
            && ends_in(w, ms[first_marker_from(w, ms, from)]),
    decreases ms.len() - from,
{
    if from < ms.len() && !ends_in(w, ms[from]) {
        lemma_first_marker(w, ms, from + 1);
    }
}

pub(crate) fn ends_in_exec(w: &Vec<char>, m: &str) -> (b: bool)
    ensures
        b == ends_in(w@, m@),
{
    let mc = chars_of(m);
    let wl = w.len();
    let ml = mc.len();
    if wl <= ml {
        return false;
    }
    let off = wl - ml;
    let mut j: usize = 0;
    while j < ml
        invariant
            mc@ == m@,
            wl == w@.len(),
            ml == mc@.len(),
            off == wl - ml,
            j <= ml,
            forall|k: int| 0 <= k < j ==> w@[off + k] == mc@[k],
        decreases ml - j,
    {
        if w[off + j] != mc[j] {
            proof {
                assert(w@.subrange(off as int, wl as int)[j as int] == w@[off + j]);
            }
            return false;
        }
        j = j + 1;
    }
    proof {
        assert(w@.subrange(off as int, wl as int) =~= m@);
    }
    true
}

pub(crate) fn first_marker_exec(w: &Vec<char>, markers: &[&str]) -> (k: Option<usize>)
    ensures
        match k {
            Some(i) => i < markers@.len() && first_marker(w@, marker_views(markers@)) == i,
            None => first_marker(w@, marker_views(markers@)) == -1,
        },
{
    let ghost ms = marker_views(markers@);
    let mut i: usize = 0;
    while i < markers.len()
        invariant
            ms == marker_views(markers@),
            i <= markers@.len(),
            first_marker(w@, ms) == first_marker_from(w@, ms, i as int),
        decreases markers@.len() - i,
    {
        assert(ms[i as int] == markers@[i as int]@);
        if ends_in_exec(w, markers[i]) {
            return Some(i);
        }
        i = i + 1;
    }
    None
}

pub(crate) fn contains_marker(markers: &[&str], w: &str) -> (b: bool)
    ensures
        b == marker_views(markers@).contains(w@),
{
    let ghost ms = marker_views(markers@);
    let mut i: usize = 0;
    while i < markers.len()
        invariant
            ms == marker_views(markers@),
            i <= markers@.len(),
            forall|k: int| 0 <= k < i ==> ms[k] != w@,
        decreases markers@.len() - i,
    {
        assert(ms[i as int] == markers@[i as int]@);
        if str_eq(markers[i], w) {
            return true;
        }
        i = i + 1;
    }
    false
}

fn bare_ref(tokens: &[Token], p: usize, markers: &[&str]) -> (r: Option<(usize, Capture)>)
    requires
        p < tokens@.len(),
    ensures
        match r {
            Some((q, c)) => bare_ref_spec(tokens_of(tokens), p as int, p as int, marker_views(
                markers@,
            )) == Some((q as int, c@)),
            None => bare_ref_spec(tokens_of(tokens), p as int, p as int, marker_views(markers@))
                is None,
        },
{
    let ghost ts = tokens_of(tokens);
    let ghost ms = marker_views(markers@);
    let mut i: usize = p;
    while i < tokens.len()
        invariant
            ts == tokens_of(tokens),
            ms == marker_views(markers@),
            p <= i <= tokens@.len(),
            p < tokens@.len(),
            bare_ref_spec(ts, p as int, p as int, ms) == bare_ref_spec(ts, p as int, i as int, ms),
            forall|j: int| p <= j < i ==> (#[trigger] ts[j]).kind is Word,
        decreases tokens@.len() - i,
    {
        assert(ts[i as int] == tokens@[i as int]@);
        match &tokens[i].kind {
            TokenKind::Word(w) => {
                let wc = chars_of(w.as_str());
                match first_marker_exec(&wc, markers) {
                    Some(k) => {
                        let m = markers[k];
                        assert(ms[k as int] == m@);
                        proof {
                            lemma_first_marker(wc@, ms, 0);
                        }
                        let mc = chars_of(m);
                        let cut = wc.len() - mc.len();
                        let base = string_of(wc.as_slice(), 0, cut);
                        let value = if i == p {
                            base
                        } else {
                            let mut v = join_names(tokens, p, i);
                            v.append(" ");
                            v.append(base.as_str());
                            proof {
                                reveal_strlit(" ");
                                assert(" "@ =~= seq![' ']);
                            }
                            v
                        };
                        let n = byte_length(m);
                        let end = tokens[i].span.end;
                        let end = if end >= n {
                            end - n
                        } else {
                            0
                        };
                        return Some((i + 1, Capture { value, start: tokens[p].span.start, end }));
                    },
                    None => {},
                }
            },
            _ => {
                return None;
            },
        }
        i = i + 1;
    }
    None
}

pub(crate) fn marked_ref(tokens: &[Token], p: usize, markers: &[&str]) -> (r: Option<(usize, Capture)>)
    ensures
        match r {
            Some((q, c)) => marked_ref_spec(tokens_of(tokens), p as int, marker_views(markers@))
                == Some((q as int, c@)),
            None => marked_ref_spec(tokens_of(tokens), p as int, marker_views(markers@)) is None,
        },
{
    let ghost ts = tokens_of(tokens);
    if p >= tokens.len() {
        return None;
    }
    assert(ts[p as int] == tokens@[p as int]@);
    match &tokens[p].kind {
        TokenKind::QuotedIdentifier(v) => {
            if p + 1 < tokens.len() {
                assert(ts[p + 1] == tokens@[p + 1]@);
                match &tokens[p + 1].kind {
                    TokenKind::Word(m) => {
                        if contains_marker(markers, m.as_str()) {
                            let value = String::from_str(v.as_str());
                            return Some(
                                (
                                    p + 2,
                                    Capture {
                                        value,
                                        start: tokens[p].span.start,
                                        end: tokens[p].span.end,
                                    },
                                ),
                            );
                        }
                    },
                    _ => {},
                }
            }
            None
        },
        TokenKind::Word(_) => bare_ref(tokens, p, markers),
        _ => None,
    }
}

pub(crate) fn particles(first: &'static str, second: &'static str) -> (v: Vec<&'static str>)
    ensures
        marker_views(v@) == seq![first@, second@],
{
    let mut v: Vec<&'static str> = Vec::new();
    v.push(first);
    v.push(second);
    proof {
        assert(marker_views(v@) =~= seq![first@, second@]);
    }
    v
}

pub(crate) fn possessive_markers() -> (v: Vec<&'static str>)
    ensures
        marker_views(v@) == possessive(),
{
    let mut v: Vec<&'static str> = Vec::new();
    v.push("의");
    proof {
        assert(marker_views(v@) =~= possessive());
    }
    v
}

/// Reads the tokens of one line (layout tokens removed) as a conditional-creation sentence.
pub fn parse_creation_branch(tokens: &[Token]) -> (r: Result<CreationBranchShape, ShapeMismatch>)
    ensures
        match r {
            Ok(c) => creation_branch_spec(tokens_of(tokens)) == Some(c@),
            Err(_) => creation_branch_spec(tokens_of(tokens)) is None,
        },
{
    let ghost ts = tokens_of(tokens);
    let len = tokens.len();
    let mut n: usize = 0;
    while n < len && is_name_token(&tokens[n])
        invariant
            ts == tokens_of(tokens),
            len == tokens@.len(),
            n <= len,
            forall|j: int| 0 <= j < n ==> is_name_part(#[trigger] ts[j].kind),
        decreases len - n,
    {
        assert(ts[n as int] == tokens@[n as int]@);
        n = n + 1;
    }
    proof {
        if n < len {
            assert(ts[n as int] == tokens@[n as int]@);
        }
        lemma_name_end(ts, 0, n as int);
    }
    if n < 1 || n >= len || len - n < 2 {
        return Err(ShapeMismatch);
    }
    let branch_id = match id_capture_at(tokens, n) {
        Some(id) => id,
        None => {
            return Err(ShapeMismatch);
        },
    };
    proof {
        reveal_strlit("은");
        reveal_strlit("는");
        assert("은"@ =~= seq!['은']);
        assert("는"@ =~= seq!['는']);
    }
    if !(is_word(&tokens[n + 1], "은") || is_word(&tokens[n + 1], "는")) {
        return Err(ShapeMismatch);
    }
    let (a, action) = match marked_ref(tokens, n + 2, possessive_markers().as_slice()) {
        Some(x) => x,
        None => {
            return Err(ShapeMismatch);
        },
    };
    let (b, input) = match marked_ref(tokens, a, particles("이", "가").as_slice()) {
        Some(x) => x,
        None => {
            return Err(ShapeMismatch);
        },
    };
    let (c, variant) = match marked_ref(tokens, b, particles("이면", "라면").as_slice()) {
        Some(x) => x,
        None => {
            return Err(ShapeMismatch);
        },
    };
    let (e, output_model) = match marked_ref(tokens, c, particles("을", "를").as_slice()) {
        Some(x) => x,
        None => {
            return Err(ShapeMismatch);
        },
    };
    if e > len || len - e != 3 {
        return Err(ShapeMismatch);
    }
    let decided = (is_word(&tokens[e], "하나") && is_word(&tokens[e + 1], "생성한다")) || (is_word(
        &tokens[e],
        "생성하지",
    ) && is_word(&tokens[e + 1], "않는다"));
    if !decided {
        return Err(ShapeMismatch);
    }
    assert(ts[e + 2] == tokens@[e + 2]@);
    match &tokens[e + 2].kind {
        TokenKind::Period => {},
        _ => {
            return Err(ShapeMismatch);
        },
    }
    Ok(
        CreationBranchShape {
            branch_name: name_capture_of(tokens, 0, n),
            branch_id,
            action,
            input,
            variant,
            output_model,
            decision: name_capture_of(tokens, e, e + 2),
        },
    )
}

} // verus!
