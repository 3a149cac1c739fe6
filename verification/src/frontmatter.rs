//! Reader of the frontmatter block: the `---` block at the very start of a document.
//!
//! The block holds information architecture, screen layouts and screen paths in a small
//! YAML subset. It is read apart from the sentence grammar: both grammars give meaning to
//! indentation, so one scanner over both would let each cross the other's block boundaries.
//! This module reads shapes only; whether the referenced screens, fields, models and actions
//! exist is decided later.
//!
//! Positions inside the reader are character indices into a [`SourceText`]; every span it
//! reports is the byte range of the unmasked file.
use std::borrow::Cow;
use vstd::prelude::*;

use crate::ast::{
    layout_view, layouts_view, lemma_layouts_view, opt_ref_view, opt_text, refs_view,
    CategoryAst, FrontmatterAst, FrontmatterRefAst, LayoutElementAst, LayoutView, NamedIdAst,
    RefView, ScreenLayoutAst, ScreenLayoutKindAst, ScreenPathAst,
};
use crate::diagnostic::{diagnostics_view, push_diagnostic, Diagnostic, Span};
use crate::json::decode_json_string;
use crate::scanner::{content_end, first_visible, line_end};
use crate::text::{
    byte_len, char_width, find_char, find_from, is_space, is_whitespace, lemma_find_from,
    push_char, str_eq, string_of, width_of, SourceText,
};

verus! {

pub const UNTERMINATED_BLOCK: &'static str = "RSPDL-KO-FM-001";
pub const TAB_INDENTATION: &'static str = "RSPDL-KO-FM-002";
pub const INCONSISTENT_INDENT: &'static str = "RSPDL-KO-FM-003";
pub const UNSUPPORTED_YAML_FEATURE: &'static str = "RSPDL-KO-FM-004";
pub const UNKNOWN_KEY: &'static str = "RSPDL-KO-FM-005";
pub const DUPLICATE_KEY: &'static str = "RSPDL-KO-FM-006";
pub const INVALID_SCALAR_TYPE: &'static str = "RSPDL-KO-FM-007";
pub const INVALID_STRUCTURE: &'static str = "RSPDL-KO-FM-008";
pub const UNKNOWN_LAYOUT_ELEMENT: &'static str = "RSPDL-KO-FM-009";
pub const KEY_INDENTED_TOO_DEEP: &'static str = "RSPDL-KO-FM-011";

/// End of `[from, to)` once trailing white space is removed.
pub open spec fn trimmed_end(s: Seq<char>, from: int, to: int) -> int
    decreases to - from,
{
    if to <= from {
        from
    } else if is_space(s[to - 1]) {
        trimmed_end(s, from, to - 1)
    } else {
        to
    }
}

pub proof fn lemma_trimmed_end(s: Seq<char>, from: int, to: int)
    requires
        from <= to,
    ensures
        from <= trimmed_end(s, from, to) <= to,
        trimmed_end(s, from, to) > from ==> !is_space(s[trimmed_end(s, from, to) - 1]),
    decreases to - from,
{
    if from < to && is_space(s[to - 1]) {
        lemma_trimmed_end(s, from, to - 1);
    }
}

pub fn trimmed_end_exec(chars: &[char], from: usize, to: usize) -> (r: usize)
    requires
        from <= to <= chars@.len(),
    ensures
        r == trimmed_end(chars@, from as int, to as int),
{
    let mut e: usize = to;
    while e > from && is_whitespace(chars[e - 1])
        invariant
            from <= e <= to <= chars@.len(),
            trimmed_end(chars@, from as int, to as int) == trimmed_end(chars@, from as int, e as int),
        decreases e,
    {
        e = e - 1;
    }
    e
}

pub fn first_visible_exec(chars: &[char], from: usize, to: usize) -> (r: usize)
    requires
        from <= to <= chars@.len(),
    ensures
        r == first_visible(chars@, from as int, to as int),
{
    let mut v: usize = from;
    while v < to && is_whitespace(chars[v])
        invariant
            from <= v <= to <= chars@.len(),
            first_visible(chars@, from as int, to as int) == first_visible(chars@, v as int, to as int),
        decreases to - v,
    {
        v = v + 1;
    }
    v
}

pub proof fn lemma_first_visible(s: Seq<char>, from: int, to: int)
    requires
        from <= to,
    ensures
        from <= first_visible(s, from, to) <= to,
    decreases to - from,
{
    if from < to && is_space(s[from]) {
        lemma_first_visible(s, from + 1, to);
    }
}

/// Start of the line after the one starting at `i`.
pub open spec fn next_line(s: Seq<char>, i: int) -> int {
    let le = line_end(s, i);
    if le < s.len() {
        le + 1
    } else {
        s.len() as int
    }
}

pub proof fn lemma_next_line(s: Seq<char>, i: int)
    requires
        0 <= i < s.len(),
    ensures
        i < next_line(s, i) <= s.len(),
        i <= content_end(s, i) <= line_end(s, i) <= next_line(s, i),
        line_end(s, i) <= s.len(),
        line_end(s, i) < s.len() ==> s[line_end(s, i)] == '\n',
{
    lemma_find_from(s, i, s.len() as int, '\n');
}

/// The line starting at `i` is the `---` delimiter, possibly followed by white space.
pub open spec fn is_delimiter_line(s: Seq<char>, i: int) -> bool {
    let te = trimmed_end(s, i, content_end(s, i));
    te == i + 3 && s[i] == '-' && s[i + 1] == '-' && s[i + 2] == '-'
}

/// Where the frontmatter block lies: it always starts at the beginning of the text; `inner`
/// is the body between the two delimiters, absent when the block is never closed.
pub struct BlockSpan {
    pub start: int,
    pub end: int,
    pub inner: Option<(int, int)>,
}

pub open spec fn closing_from(s: Seq<char>, open_end: int, i: int) -> BlockSpan
    decreases s.len() - i,
{
    if i < 0 || i >= s.len() {
        BlockSpan { start: 0, end: s.len() as int, inner: None }
    } else if is_delimiter_line(s, i) {
        BlockSpan { start: 0, end: next_line(s, i), inner: Some((open_end, i)) }
    } else {
        proof {
            lemma_next_line(s, i);
        }
        closing_from(s, open_end, next_line(s, i))
    }
}

/// The frontmatter block of `s`: present only when the very first line is a delimiter.
pub open spec fn locate_spec(s: Seq<char>) -> Option<BlockSpan> {
    if s.len() == 0 || !is_delimiter_line(s, 0) {
        None
    } else {
        Some(closing_from(s, next_line(s, 0), next_line(s, 0)))
    }
}

pub struct Block {
    pub start: usize,
    pub end: usize,
    pub inner: Option<(usize, usize)>,
}

pub open spec fn block_matches(b: Block, v: BlockSpan) -> bool {
    &&& b.start == v.start
    &&& b.end == v.end
    &&& match (b.inner, v.inner) {
        (Some((x, y)), Some((p, q))) => x == p && y == q,
        (None, None) => true,
        _ => false,
    }
}

/// Index after the line that starts at `i`, and the end of that line's content without the
/// line break.
fn line_bounds(text: &SourceText, i: usize) -> (r: (usize, usize))
    requires
        i < text.chars@.len(),
    ensures
        r.0 == next_line(text.chars@, i as int),
        r.1 == content_end(text.chars@, i as int),
{
    let n = text.len();
    let le = find_char(&text.chars, i, n, '\n');
    proof {
        lemma_next_line(text.chars@, i as int);
    }
    let ce = if le > i && text.chars[le - 1] == '\r' {
        le - 1
    } else {
        le
    };
    let next = if le < n {
        le + 1
    } else {
        n
    };
    (next, ce)
}

fn is_delimiter_exec(text: &SourceText, i: usize) -> (b: bool)
    requires
        i < text.chars@.len(),
    ensures
        b == is_delimiter_line(text.chars@, i as int),
{
    let (_, ce) = line_bounds(text, i);
    proof {
        lemma_next_line(text.chars@, i as int);
    }
    let te = trimmed_end_exec(&text.chars, i, ce);
    te >= 3 && te - 3 == i && text.chars[i] == '-' && text.chars[i + 1] == '-' && text.chars[i
        + 2] == '-'
}

/// Finds the leading `---` block. A text whose first line is not a delimiter has none.
pub fn locate(text: &SourceText) -> (r: Option<Block>)
    ensures
        match (r, locate_spec(text.chars@)) {
            (Some(b), Some(v)) => block_matches(b, v),
            (None, None) => true,
            _ => false,
        },
{
    let n = text.len();
    if n == 0 || !is_delimiter_exec(text, 0) {
        return None;
    }
    let (open_end, _) = line_bounds(text, 0);
    let ghost s = text.chars@;
    let mut i: usize = open_end;
    while i < n
        invariant
            s == text.chars@,
            n == s.len(),
            open_end <= i <= n,
            open_end == next_line(s, 0),
            n > 0 && is_delimiter_line(s, 0),
            closing_from(s, open_end as int, open_end as int) == closing_from(
                s,
                open_end as int,
                i as int,
            ),
        decreases n - i,
    {
        let (next, _) = line_bounds(text, i);
        proof {
            lemma_next_line(s, i as int);
        }
        if is_delimiter_exec(text, i) {
            return Some(Block { start: 0, end: next, inner: Some((open_end, i)) });
        }
        i = next;
    }
    Some(Block { start: 0, end: n, inner: None })
}

/// The characters of `t` with every character other than a line feed replaced by as many
/// spaces as it has UTF-8 bytes.
pub open spec fn blanked(t: Seq<char>) -> Seq<char>
    decreases t.len(),
{
    if t.len() == 0 {
        Seq::empty()
    } else {
        blanked(t.drop_last()) + if t.last() == '\n' {
            seq!['\n']
        } else {
            Seq::new(char_width(t.last()), |k: int| ' ')
        }
    }
}

/// `s` with the characters in `[lo, hi)` blanked out.
pub open spec fn mask_spec(s: Seq<char>, lo: int, hi: int) -> Seq<char> {
    s.take(lo) + blanked(s.subrange(lo, hi)) + s.skip(hi)
}

/// Number of line feeds in `t`.
pub open spec fn line_feeds(t: Seq<char>) -> nat
    decreases t.len(),
{
    if t.len() == 0 {
        0
    } else {
        line_feeds(t.drop_last()) + if t.last() == '\n' {
            1nat
        } else {
            0nat
        }
    }
}

proof fn lemma_spaces(n: nat)
    ensures
        byte_len(Seq::new(n, |k: int| ' ')) == n,
        line_feeds(Seq::new(n, |k: int| ' ')) == 0,
    decreases n,
{
    if n > 0 {
        lemma_spaces((n - 1) as nat);
        assert(Seq::new(n, |k: int| ' ').drop_last() =~= Seq::new((n - 1) as nat, |k: int| ' '));
    }
}

proof fn lemma_line_feeds_concat(a: Seq<char>, b: Seq<char>)
    ensures
        line_feeds(a + b) == line_feeds(a) + line_feeds(b),
    decreases b.len(),
{
    if b.len() == 0 {
        assert(a + b =~= a);
    } else {
        assert((a + b).drop_last() =~= a + b.drop_last());
        lemma_line_feeds_concat(a, b.drop_last());
    }
}

proof fn lemma_blanked(t: Seq<char>)
    ensures
        byte_len(blanked(t)) == byte_len(t),
        line_feeds(blanked(t)) == line_feeds(t),
    decreases t.len(),
{
    if t.len() > 0 {
        lemma_blanked(t.drop_last());
        let tail = if t.last() == '\n' {
            seq!['\n']
        } else {
            Seq::new(char_width(t.last()), |k: int| ' ')
        };
        assert(blanked(t) == blanked(t.drop_last()) + tail);
        crate::text::lemma_byte_len_concat(blanked(t.drop_last()), tail);
        lemma_line_feeds_concat(blanked(t.drop_last()), tail);
        if t.last() == '\n' {
            let nl = seq!['\n'];
            assert(nl.drop_last() =~= Seq::<char>::empty());
            assert(nl.last() == '\n');
            assert(('\n' as u32) < 0x80);
            assert(byte_len(nl) == byte_len(nl.drop_last()) + char_width(nl.last()));
            assert(byte_len(nl) == 1);
            assert(line_feeds(nl) == line_feeds(nl.drop_last()) + 1);
            assert(line_feeds(nl) == 1);
        } else {
            lemma_spaces(char_width(t.last()));
        }
    }
}

/// Blanking out the frontmatter keeps the byte length and the line feeds of the text, so
/// every span computed on the masked text is a span of the unmasked file, and every line
/// keeps its number.
pub proof fn masking_keeps_bytes_and_lines(s: Seq<char>, lo: int, hi: int)
    requires
        0 <= lo <= hi <= s.len(),
    ensures
        byte_len(mask_spec(s, lo, hi)) == byte_len(s),
        line_feeds(mask_spec(s, lo, hi)) == line_feeds(s),
{
    let a = s.take(lo);
    let b = s.subrange(lo, hi);
    let c = s.skip(hi);
    assert(s =~= a + b + c);
    lemma_blanked(b);
    crate::text::lemma_byte_len_concat(a, blanked(b));
    crate::text::lemma_byte_len_concat(a + blanked(b), c);
    crate::text::lemma_byte_len_concat(a, b);
    crate::text::lemma_byte_len_concat(a + b, c);
    lemma_line_feeds_concat(a, blanked(b));
    lemma_line_feeds_concat(a + blanked(b), c);
    lemma_line_feeds_concat(a, b);
    lemma_line_feeds_concat(a + b, c);
}

/// Replaces the frontmatter with blanks of the same byte length, keeping line feeds, so that
/// the sentence reader sees the rest of the file at its own offsets.
pub fn mask(chars: &[char], start: usize, end: usize) -> (m: String)
    requires
        start <= end <= chars@.len(),
    ensures
        m@ == mask_spec(chars@, start as int, end as int),
{
    let mut m = String::new();
    let mut i: usize = 0;
    while i < start
        invariant
            i <= start <= end <= chars@.len(),
            m@ == chars@.take(i as int),
        decreases start - i,
    {
        push_char(&mut m, chars[i]);
        i = i + 1;
        proof {
            assert(m@ =~= chars@.take(i as int));
        }
    }
    while i < end
        invariant
            start <= i <= end <= chars@.len(),
            m@ == chars@.take(start as int) + blanked(chars@.subrange(start as int, i as int)),
        decreases end - i,
    {
        let ghost before = m@;
        let c = chars[i];
        if c == '\n' {
            push_char(&mut m, '\n');
        } else {
            let w = width_of(c);
            let mut k: usize = 0;
            while k < w
                invariant
                    k <= w,
                    w == char_width(c),
                    m@ == before + Seq::new(k as nat, |j: int| ' '),
                decreases w - k,
            {
                push_char(&mut m, ' ');
                k = k + 1;
                proof {
                    assert(m@ =~= before + Seq::new(k as nat, |j: int| ' '));
                }
            }
        }
        proof {
            let t = chars@.subrange(start as int, i + 1);
            assert(t.drop_last() =~= chars@.subrange(start as int, i as int));
            assert(m@ =~= chars@.take(start as int) + blanked(t));
        }
        i = i + 1;
    }
    while i < chars.len()
        invariant
            start <= end <= i <= chars@.len(),
            m@ == chars@.take(start as int) + blanked(chars@.subrange(start as int, end as int))
                + chars@.subrange(end as int, i as int),
        decreases chars@.len() - i,
    {
        push_char(&mut m, chars[i]);
        i = i + 1;
        proof {
            assert(m@ =~= chars@.take(start as int) + blanked(
                chars@.subrange(start as int, end as int),
            ) + chars@.subrange(end as int, i as int));
        }
    }
    proof {
        assert(chars@.subrange(end as int, i as int) =~= chars@.skip(end as int));
    }
    m
}

} // verus!

verus! {

/// One non-blank line of the block: its indentation, the character range of its body
/// (comment and surrounding white space removed) and the byte span of that body.
#[derive(Clone, Copy, Debug, PartialEq, Eq, Structural)]
pub struct FmLine {
    pub indent: usize,
    pub start: usize,
    pub end: usize,
    pub offset: usize,
    pub offset_end: usize,
}

/// Every line is well formed in `text` and no deeper than its own start.
pub open spec fn lines_wf(text: &SourceText, lines: Seq<FmLine>) -> bool {
    forall|k: int| 0 <= k < lines.len() ==> (#[trigger] lines[k]).wf_in(text) && lines[k].indent <= lines[k].start
}

impl FmLine {
    pub open spec fn wf_in(self, text: &SourceText) -> bool {
        &&& self.start < self.end <= text.chars@.len()
        &&& self.offset == text.offsets@[self.start as int]
        &&& self.offset_end == text.offsets@[self.end as int]
    }

    pub fn span(&self) -> (s: Span)
        ensures
            s == (Span { start: self.offset, end: self.offset_end }),
    {
        Span { start: self.offset, end: self.offset_end }
    }
}

/// Where a comment starts in `[i, to)`: a `#` outside quotes, first on the line or after
/// white space. `to` when there is none.
pub open spec fn comment_start(
    s: Seq<char>,
    i: int,
    to: int,
    quoted: bool,
    escaped: bool,
    after_space: bool,
) -> int
    decreases to - i,
{
    if i >= to {
        to
    } else {
        let c = s[i];
        if quoted {
            if escaped {
                comment_start(s, i + 1, to, true, false, false)
            } else if c == '\\' {
                comment_start(s, i + 1, to, true, true, false)
            } else if c == '"' {
                comment_start(s, i + 1, to, false, false, false)
            } else {
                comment_start(s, i + 1, to, true, false, false)
            }
        } else if c == '"' {
            comment_start(s, i + 1, to, true, escaped, false)
        } else if c == '#' && after_space {
            i
        } else {
            comment_start(s, i + 1, to, false, escaped, is_space(c))
        }
    }
}

pub proof fn lemma_comment_start(
    s: Seq<char>,
    i: int,
    to: int,
    quoted: bool,
    escaped: bool,
    after_space: bool,
)
    requires
        i <= to,
    ensures
        i <= comment_start(s, i, to, quoted, escaped, after_space) <= to,
    decreases to - i,
{
    if i < to {
        let c = s[i];
        if quoted {
            if escaped {
                lemma_comment_start(s, i + 1, to, true, false, false);
            } else if c == '\\' {
                lemma_comment_start(s, i + 1, to, true, true, false);
            } else if c == '"' {
                lemma_comment_start(s, i + 1, to, false, false, false);
            } else {
                lemma_comment_start(s, i + 1, to, true, false, false);
            }
        } else if c == '"' {
            lemma_comment_start(s, i + 1, to, true, escaped, false);
        } else if c == '#' && after_space {
        } else {
            lemma_comment_start(s, i + 1, to, false, escaped, is_space(c));
        }
    }
}

/// A `#` at `k` that stands first on the line from `from` or right after white space.
pub open spec fn comment_mark_at(s: Seq<char>, from: int, k: int) -> bool {
    s[k] == '#' && (k == from || is_space(s[k - 1]))
}

proof fn lemma_comment_start_marks(
    s: Seq<char>,
    from: int,
    i: int,
    to: int,
    quoted: bool,
    escaped: bool,
    after_space: bool,
)
    requires
        from <= i <= to <= s.len(),
        !quoted ==> (after_space == (i == from || is_space(s[i - 1]))),
        quoted ==> !after_space,
    ensures
        ({
            let r = comment_start(s, i, to, quoted, escaped, after_space);
            &&& i <= r <= to
            &&& r < to ==> comment_mark_at(s, from, r)
            &&& (!quoted && forall|k: int| i <= k < to ==> s[k] != '"') ==> forall|k: int|
                i <= k < r ==> !comment_mark_at(s, from, k)
        }),
    decreases to - i,
{
    if i < to {
        let c = s[i];
        if quoted {
            if escaped {
                lemma_comment_start_marks(s, from, i + 1, to, true, false, false);
            } else if c == '\\' {
                lemma_comment_start_marks(s, from, i + 1, to, true, true, false);
            } else if c == '"' {
                assert(!is_space(s[i]));
                lemma_comment_start_marks(s, from, i + 1, to, false, false, false);
            } else {
                lemma_comment_start_marks(s, from, i + 1, to, true, false, false);
            }
        } else if c == '"' {
            lemma_comment_start_marks(s, from, i + 1, to, true, escaped, false);
        } else if c == '#' && after_space {
            assert(comment_mark_at(s, from, i));
        } else {
            lemma_comment_start_marks(s, from, i + 1, to, false, escaped, is_space(c));
            if forall|k: int| i <= k < to ==> s[k] != '"' {
                assert(forall|k: int| i + 1 <= k < to ==> s[k] != '"');
                assert(!comment_mark_at(s, from, i));
            }
        }
    }
}

/// Cutting a comment off a line: the line keeps every character before the cut, and the cut
/// falls on a `#` that stands first on the line or right after white space, never on one
/// written onto a word. On a line without double quotes, the cut is at the first such `#`.
pub proof fn comments_start_only_after_white_space(s: Seq<char>, from: int, to: int)
    requires
        0 <= from <= to <= s.len(),
    ensures
        ({
            let r = comment_start(s, from, to, false, false, true);
            &&& from <= r <= to
            &&& r < to ==> comment_mark_at(s, from, r)
            &&& (forall|k: int| from <= k < to ==> s[k] != '"') ==> forall|k: int|
                from <= k < r ==> !comment_mark_at(s, from, k)
        }),
{
    lemma_comment_start_marks(s, from, from, to, false, false, true);
}

/// Where the content of the line from `i` ends: before its line feed, and before a carriage
/// return right in front of it.
pub open spec fn line_content_end(s: Seq<char>, i: int, end: int) -> int {
    let le = find_from(s, i, end, '\n');
    if le > i && s[le - 1] == '\r' {
        le - 1
    } else {
        le
    }
}

/// The body `[start, end)` of a line whose content ends at `ce` was cut at `r`: only white
/// space lies between the body and `r`, and `r` is the content's end or a `#` that stands first
/// or right after white space.
pub open spec fn cut_at(s: Seq<char>, start: int, end: int, ce: int, r: int) -> bool {
    &&& end <= r <= ce
    &&& forall|k: int| end <= k < r ==> is_space(#[trigger] s[k])
    &&& (r == ce || comment_mark_at(s, start, r))
}

/// A frontmatter line keeps its text up to a comment: what is cut off behind the line's body is
/// white space and then either nothing or a `#` that stands first or right after white space.
/// A `#` written onto a word, as in `C#`, stays in the body.
pub proof fn frontmatter_lines_end_at_a_comment_or_the_line_end(s: Seq<char>, o: Seq<usize>, i: int, end: int, acc: SplitState)
    requires
        0 <= i < end <= s.len(),
        s.len() <= usize::MAX,
        split_line(s, o, i, end, acc).1.lines.len() == acc.lines.len() + 1,
    ensures
        exists|r: int|
            #[trigger] cut_at(
                s,
                split_line(s, o, i, end, acc).1.lines.last().start as int,
                split_line(s, o, i, end, acc).1.lines.last().end as int,
                line_content_end(s, i, end),
                r,
            ),
{
    let le = find_from(s, i, end, '\n');
    lemma_find_from(s, i, end, '\n');
    let ce = if le > i && s[le - 1] == '\r' {
        le - 1
    } else {
        le
    };
    crate::scanner::lemma_prefix_end(s, i, ce);
    let pe = crate::scanner::prefix_end(s, i, ce);
    comments_start_only_after_white_space(s, pe, ce);
    let r = comment_start(s, pe, ce, false, false, true);
    lemma_trimmed_end_spaces(s, pe, r);
    let be = trimmed_end(s, pe, r);
    let tabbed = crate::scanner::last_tab(s, i, pe) is Some;
    let indent = crate::scanner::space_count(s, i, pe) as usize;
    let st = split_line(s, o, i, end, acc).1;
    assert(be > pe && !tabbed && !is_document_end(s, pe, be));
    let pushed = FmLine { indent, start: pe as usize, end: be as usize, offset: o[pe], offset_end: o[be] };
    assert(st.lines == acc.lines.push(pushed));
    let l = st.lines.last();
    assert(l == pushed);
    assert(l.end == be && l.start == pe);
    assert(cut_at(s, l.start as int, l.end as int, ce, r));
    assert(exists|r2: int| #[trigger] cut_at(s, l.start as int, l.end as int, ce, r2));
    assert(l == split_line(s, o, i, end, acc).1.lines.last());
    assert(ce == line_content_end(s, i, end));
    assert(cut_at(
        s,
        split_line(s, o, i, end, acc).1.lines.last().start as int,
        split_line(s, o, i, end, acc).1.lines.last().end as int,
        line_content_end(s, i, end),
        r,
    ));
}

proof fn lemma_trimmed_end_spaces(s: Seq<char>, from: int, to: int)
    requires
        from <= to,
    ensures
        from <= trimmed_end(s, from, to) <= to,
        forall|k: int| trimmed_end(s, from, to) <= k < to ==> is_space(#[trigger] s[k]),
    decreases to - from,
{
    if from < to && is_space(s[to - 1]) {
        lemma_trimmed_end_spaces(s, from, to - 1);
    }
}

/// End of `[from, to)` once a comment is cut off.
pub fn strip_comment(chars: &[char], from: usize, to: usize) -> (r: usize)
    requires
        from <= to <= chars@.len(),
    ensures
        r == comment_start(chars@, from as int, to as int, false, false, true),
{
    let mut quoted: bool = false;
    let mut escaped: bool = false;
    let mut after_space: bool = true;
    let mut i: usize = from;
    while i < to
        invariant
            from <= i <= to <= chars@.len(),
            comment_start(chars@, from as int, to as int, false, false, true) == comment_start(
                chars@,
                i as int,
                to as int,
                quoted,
                escaped,
                after_space,
            ),
        decreases to - i,
    {
        let c = chars[i];
        if quoted {
            if escaped {
                escaped = false;
            } else if c == '\\' {
                escaped = true;
            } else if c == '"' {
                quoted = false;
            }
            after_space = false;
        } else if c == '"' {
            quoted = true;
            after_space = false;
        } else if c == '#' && after_space {
            return i;
        } else {
            after_space = is_whitespace(c);
        }
        i = i + 1;
    }
    i
}

/// The body `[a, b)` is the YAML document end marker `...`.
pub open spec fn is_document_end(s: Seq<char>, a: int, b: int) -> bool {
    b == a + 3 && s[a] == '.' && s[a + 1] == '.' && s[a + 2] == '.'
}

/// Lines and diagnostics read so far.
pub struct SplitState {
    pub lines: Seq<FmLine>,
    pub diagnostics: Seq<crate::diagnostic::DiagnosticView>,
}

/// One tab diagnostic for each tab in `[i, to)`, in order.
pub open spec fn tab_diagnostics(
    s: Seq<char>,
    o: Seq<usize>,
    i: int,
    to: int,
    acc: Seq<crate::diagnostic::DiagnosticView>,
) -> Seq<crate::diagnostic::DiagnosticView>
    decreases to - i,
{
    if i >= to {
        acc
    } else if s[i] == '\t' {
        tab_diagnostics(
            s,
            o,
            i + 1,
            to,
            acc.push(
                crate::diagnostic::error_view(
                    TAB_INDENTATION@,
                    "ko.frontmatter.tab_indentation"@,
                    Span { start: o[i], end: o[i + 1] },
                ),
            ),
        )
    } else {
        tab_diagnostics(s, o, i + 1, to, acc)
    }
}

/// The line of the block body `[.., end)` that starts at `i`.
pub open spec fn split_line(s: Seq<char>, o: Seq<usize>, i: int, end: int, acc: SplitState) -> (
    int,
    SplitState,
) {
    let le = find_from(s, i, end, '\n');
    let ce = if le > i && s[le - 1] == '\r' {
        le - 1
    } else {
        le
    };
    let pe = crate::scanner::prefix_end(s, i, ce);
    let tabbed = crate::scanner::last_tab(s, i, pe) is Some;
    let indent = crate::scanner::space_count(s, i, pe) as usize;
    let diags = tab_diagnostics(s, o, i, pe, acc.diagnostics);
    let be = trimmed_end(s, pe, comment_start(s, pe, ce, false, false, true));
    let next = if le < end {
        le + 1
    } else {
        end
    };
    if be > pe && !tabbed {
        if is_document_end(s, pe, be) {
            (
                next,
                SplitState {
                    lines: acc.lines,
                    diagnostics: diags.push(
                        crate::diagnostic::with_argument_view(
                            crate::diagnostic::error_view(
                                UNSUPPORTED_YAML_FEATURE@,
                                "ko.frontmatter.unsupported_yaml_feature"@,
                                Span { start: o[pe], end: o[be] },
                            ),
                            "feature"@,
                            "document_end"@,
                        ),
                    ),
                },
            )
        } else {
            (
                next,
                SplitState {
                    lines: acc.lines.push(
                        FmLine { indent, start: pe as usize, end: be as usize, offset: o[pe], offset_end: o[be] },
                    ),
                    diagnostics: diags,
                },
            )
        }
    } else {
        (next, SplitState { lines: acc.lines, diagnostics: diags })
    }
}

pub open spec fn split_lines_from(s: Seq<char>, o: Seq<usize>, i: int, end: int, acc: SplitState) -> SplitState
    decreases end - i,
{
    if i < 0 || i >= end || end > s.len() {
        acc
    } else {
        let (next, acc2) = split_line(s, o, i, end, acc);
        proof {
            lemma_find_from(s, i, end, '\n');
        }
        split_lines_from(s, o, next, end, acc2)
    }
}

} // verus!

verus! {

/// Reads the non-blank lines of the block body `[start, end)`. Tab indentation is reported
/// once per tab and the line is left out, since its depth is unknown; a YAML document end
/// marker is rejected.
pub fn split_lines(
    text: &SourceText,
    start: usize,
    end: usize,
    diagnostics: &mut Vec<Diagnostic>,
) -> (lines: Vec<FmLine>)
    requires
        text.wf(),
        start <= end <= text.chars@.len(),
    ensures
        (SplitState { lines: lines@, diagnostics: diagnostics_view(final(diagnostics)@) })
            == split_lines_from(
            text.chars@,
            text.offsets@,
            start as int,
            end as int,
            SplitState { lines: Seq::empty(), diagnostics: diagnostics_view(old(diagnostics)@) },
        ),
        lines_wf(text, lines@),
{
    let ghost s = text.chars@;
    let ghost o = text.offsets@;
    let mut lines: Vec<FmLine> = Vec::new();
    let ghost target = split_lines_from(
        s,
        o,
        start as int,
        end as int,
        SplitState { lines: Seq::empty(), diagnostics: diagnostics_view(diagnostics@) },
    );
    let mut i: usize = start;
    while i < end
        invariant
            text.wf(),
            s == text.chars@,
            o == text.offsets@,
            start <= i <= end <= s.len(),
            target == split_lines_from(
                s,
                o,
                start as int,
                end as int,
                SplitState { lines: Seq::empty(), diagnostics: diagnostics_view(old(diagnostics)@) },
            ),
            target == split_lines_from(
                s,
                o,
                i as int,
                end as int,
                SplitState { lines: lines@, diagnostics: diagnostics_view(diagnostics@) },
            ),
            lines_wf(text, lines@),
        decreases end - i,
    {
        let le = find_char(&text.chars, i, end, '\n');
        proof {
            lemma_find_from(s, i as int, end as int, '\n');
        }
        let ce = if le > i && text.chars[le - 1] == '\r' {
            le - 1
        } else {
            le
        };
        let mut j: usize = i;
        let mut indent: usize = 0;
        let mut tabbed: bool = false;
        let ghost diags_at_line = diagnostics_view(diagnostics@);
        while j < ce && (text.chars[j] == ' ' || text.chars[j] == '\t')
            invariant
                text.wf(),
                s == text.chars@,
                o == text.offsets@,
                i <= j <= ce <= s.len(),
                crate::scanner::prefix_end(s, i as int, ce as int) == crate::scanner::prefix_end(
                    s,
                    j as int,
                    ce as int,
                ),
                indent == crate::scanner::space_count(s, i as int, j as int),
                tabbed == crate::scanner::last_tab(s, i as int, j as int) is Some,
                tab_diagnostics(s, o, i as int, j as int, diags_at_line) == diagnostics_view(
                    diagnostics@,
                ),
            decreases ce - j,
        {
            proof {
                crate::scanner::lemma_space_count(s, i as int, j as int);
            }
            if text.chars[j] == ' ' {
                indent = indent + 1;
            } else {
                push_diagnostic(
                    diagnostics,
                    Diagnostic::error(
                        TAB_INDENTATION,
                        "ko.frontmatter.tab_indentation",
                        Span { start: text.at(j), end: text.at(j + 1) },
                    ),
                );
                tabbed = true;
            }
            proof {
                lemma_tab_diagnostics_step(s, o, i as int, j as int, diags_at_line);
            }
            j = j + 1;
        }
        let pe = j;
        proof {
            crate::scanner::lemma_space_count(s, i as int, pe as int);
        }
        let cs = strip_comment(&text.chars, pe, ce);
        proof {
            lemma_comment_start(s, pe as int, ce as int, false, false, true);
        }
        let be = trimmed_end_exec(&text.chars, pe, cs);
        proof {
            lemma_trimmed_end(s, pe as int, cs as int);
        }
        if be > pe && !tabbed {
            if be - pe == 3 && text.chars[pe] == '.' && text.chars[pe + 1] == '.' && text.chars[pe
                + 2] == '.' {
                push_diagnostic(
                    diagnostics,
                    Diagnostic::error(
                        UNSUPPORTED_YAML_FEATURE,
                        "ko.frontmatter.unsupported_yaml_feature",
                        Span { start: text.at(pe), end: text.at(be) },
                    ).with_argument("feature", "document_end"),
                );
            } else {
                lines.push(
                    FmLine {
                        indent,
                        start: pe,
                        end: be,
                        offset: text.at(pe),
                        offset_end: text.at(be),
                    },
                );
            }
        }
        i = if le < end {
            le + 1
        } else {
            end
        };
    }
    lines
}

proof fn lemma_tab_diagnostics_step(
    s: Seq<char>,
    o: Seq<usize>,
    i: int,
    j: int,
    acc: Seq<crate::diagnostic::DiagnosticView>,
)
    requires
        i <= j < s.len(),
    ensures
        tab_diagnostics(s, o, i, j + 1, acc) == if s[j] == '\t' {
            tab_diagnostics(s, o, i, j, acc).push(
                crate::diagnostic::error_view(
                    TAB_INDENTATION@,
                    "ko.frontmatter.tab_indentation"@,
                    Span { start: o[j], end: o[j + 1] },
                ),
            )
        } else {
            tab_diagnostics(s, o, i, j, acc)
        },
    decreases j - i,
{
    if i < j {
        if s[i] == '\t' {
            let d = crate::diagnostic::error_view(
                TAB_INDENTATION@,
                "ko.frontmatter.tab_indentation"@,
                Span { start: o[i], end: o[i + 1] },
            );
            lemma_tab_diagnostics_step(s, o, i + 1, j, acc.push(d));
        } else {
            lemma_tab_diagnostics_step(s, o, i + 1, j, acc);
        }
    } else {
        reveal_with_fuel(tab_diagnostics, 2);
    }
}

} // verus!

verus! {

/// A scalar as written: its text (unescaped when it was a quoted string), whether it was
/// quoted, and where it stands.
#[derive(Debug)]
pub struct FmScalar {
    pub text: String,
    pub quoted: bool,
    pub span: Span,
}

#[derive(Debug)]
pub struct FmEntry {
    pub key: FmScalar,
    pub value: FmValue,
}

/// A value of the YAML subset, before any schema is applied.
#[derive(Debug)]
pub enum FmValue {
    Scalar(FmScalar),
    Sequence { items: Vec<FmValue>, span: Span },
    Mapping { entries: Vec<FmEntry>, span: Span },
    /// The place after a `key:` with nothing behind it.
    Empty { span: Span },
    /// A place that already has its diagnostic. One mistake is reported once: a rejected
    /// notation is not reported again as a broken structure.
    Rejected { span: Span },
}

impl FmValue {
    pub open spec fn span_of(&self) -> Span {
        match self {
            FmValue::Scalar(scalar) => scalar.span,
            FmValue::Sequence { span, .. } => *span,
            FmValue::Mapping { span, .. } => *span,
            FmValue::Empty { span } => *span,
            FmValue::Rejected { span } => *span,
        }
    }

    pub fn span(&self) -> (s: Span)
        ensures
            s == self.span_of(),
    {
        match self {
            FmValue::Scalar(scalar) => scalar.span,
            FmValue::Sequence { span, .. } => *span,
            FmValue::Mapping { span, .. } => *span,
            FmValue::Empty { span } => *span,
            FmValue::Rejected { span } => *span,
        }
    }
}

/// A sequence item is `-` alone or `-` followed by a space.
pub open spec fn sequence_item(s: Seq<char>, a: int, b: int) -> bool {
    a < b && s[a] == '-' && (b == a + 1 || s[a + 1] == ' ')
}

fn is_sequence_item(chars: &[char], a: usize, b: usize) -> (r: bool)
    requires
        a <= b <= chars@.len(),
    ensures
        r == sequence_item(chars@, a as int, b as int),
{
    a < b && chars[a] == '-' && (b == a + 1 || chars[a + 1] == ' ')
}

/// Where the first `:` outside quotes and flow brackets is, scanning `[i, to)` in the given
/// state; `None` when there is none.
pub open spec fn key_colon(
    s: Seq<char>,
    i: int,
    to: int,
    quoted: bool,
    escaped: bool,
    depth: nat,
) -> Option<int>
    decreases to - i,
{
    if i >= to {
        None
    } else {
        let c = s[i];
        if quoted {
            if escaped {
                key_colon(s, i + 1, to, true, false, depth)
            } else if c == '\\' {
                key_colon(s, i + 1, to, true, true, depth)
            } else if c == '"' {
                key_colon(s, i + 1, to, false, false, depth)
            } else {
                key_colon(s, i + 1, to, true, false, depth)
            }
        } else if c == '"' {
            key_colon(s, i + 1, to, true, escaped, depth)
        } else if c == '[' || c == '{' {
            key_colon(s, i + 1, to, false, escaped, depth + 1)
        } else if c == ']' || c == '}' {
            key_colon(s, i + 1, to, false, escaped, if depth > 0 {
                (depth - 1) as nat
            } else {
                0
            })
        } else if c == ':' && depth == 0 {
            Some(i)
        } else {
            key_colon(s, i + 1, to, false, escaped, depth)
        }
    }
}

pub proof fn lemma_key_colon(
    s: Seq<char>,
    i: int,
    to: int,
    quoted: bool,
    escaped: bool,
    depth: nat,
)
    ensures
        key_colon(s, i, to, quoted, escaped, depth) matches Some(k) ==> i <= k < to && s[k]
            == ':',
    decreases to - i,
{
    if i < to {
        let c = s[i];
        if quoted {
            if escaped {
                lemma_key_colon(s, i + 1, to, true, false, depth);
            } else if c == '\\' {
                lemma_key_colon(s, i + 1, to, true, true, depth);
            } else if c == '"' {
                lemma_key_colon(s, i + 1, to, false, false, depth);
            } else {
                lemma_key_colon(s, i + 1, to, true, false, depth);
            }
        } else if c == '"' {
            lemma_key_colon(s, i + 1, to, true, escaped, depth);
        } else if c == '[' || c == '{' {
            lemma_key_colon(s, i + 1, to, false, escaped, depth + 1);
        } else if c == ']' || c == '}' {
            lemma_key_colon(
                s,
                i + 1,
                to,
                false,
                escaped,
                if depth > 0 {
                    (depth - 1) as nat
                } else {
                    0
                },
            );
        } else if c == ':' && depth == 0 {
        } else {
            lemma_key_colon(s, i + 1, to, false, escaped, depth);
        }
    }
}

/// The key and value ranges of the mapping entry `[a, b)`: the key before the first free `:`
/// without trailing white space, the value after it without leading white space. `None` when
/// there is no free `:` or the key would be empty.
pub open spec fn split_key_spec(s: Seq<char>, a: int, b: int) -> Option<((int, int), (int, int))> {
    match key_colon(s, a, b, false, false, 0) {
        Some(k) => {
            let key_end = trimmed_end(s, a, k);
            if key_end == a {
                None
            } else {
                Some(((a, key_end), (first_visible(s, k + 1, b), b)))
            }
        },
        None => None,
    }
}

fn split_key(chars: &[char], a: usize, b: usize) -> (r: Option<((usize, usize), (usize, usize))>)
    requires
        a <= b <= chars@.len(),
    ensures
        match (r, split_key_spec(chars@, a as int, b as int)) {
            (Some(((p, q), (x, y))), Some(((p1, q1), (x1, y1)))) => p == p1 && q == q1 && x == x1
                && y == y1,
            (None, None) => true,
            _ => false,
        },
        r matches Some(((p, q), (x, y))) ==> a == p < q <= x <= y == b,
{
    let mut quoted: bool = false;
    let mut escaped: bool = false;
    let mut depth: usize = 0;
    let mut i: usize = a;
    while i < b
        invariant
            a <= i <= b <= chars@.len(),
            depth <= i - a,
            key_colon(chars@, a as int, b as int, false, false, 0) == key_colon(
                chars@,
                i as int,
                b as int,
                quoted,
                escaped,
                depth as nat,
            ),
        decreases b - i,
    {
        let c = chars[i];
        if quoted {
            if escaped {
                escaped = false;
            } else if c == '\\' {
                escaped = true;
            } else if c == '"' {
                quoted = false;
            }
        } else if c == '"' {
            quoted = true;
        } else if c == '[' || c == '{' {
            depth = depth + 1;
        } else if c == ']' || c == '}' {
            if depth > 0 {
                depth = depth - 1;
            }
        } else if c == ':' && depth == 0 {
            let key_end = trimmed_end_exec(chars, a, i);
            proof {
                lemma_trimmed_end(chars@, a as int, i as int);
                crate::frontmatter::lemma_first_visible(chars@, i + 1, b as int);
            }
            if key_end == a {
                return None;
            }
            let value_start = first_visible_exec(chars, i + 1, b);
            return Some(((a, key_end), (value_start, b)));
        }
        i = i + 1;
    }
    None
}

/// YAML features the reader refuses, as a key's first character shows them.
pub open spec fn key_feature(c: char) -> Option<Seq<char>> {
    if c == '?' {
        Some("complex_key"@)
    } else if c == '&' {
        Some("anchor"@)
    } else if c == '*' {
        Some("alias"@)
    } else if c == '!' {
        Some("tag"@)
    } else if c == '\'' {
        Some("single_quoted"@)
    } else {
        None
    }
}

/// YAML features the reader refuses, as a value's first character shows them.
pub open spec fn value_feature(c: char) -> Option<Seq<char>> {
    if c == '&' {
        Some("anchor"@)
    } else if c == '*' {
        Some("alias"@)
    } else if c == '!' {
        Some("tag"@)
    } else if c == '|' || c == '>' {
        Some("block_scalar"@)
    } else if c == '\'' {
        Some("single_quoted"@)
    } else {
        None
    }
}

fn unsupported_key_feature(chars: &[char], a: usize, b: usize) -> (r: Option<&'static str>)
    requires
        a <= b <= chars@.len(),
    ensures
        match r {
            Some(f) => a < b && key_feature(chars@[a as int]) == Some(f@),
            None => a == b || key_feature(chars@[a as int]) is None,
        },
{
    if a == b {
        return None;
    }
    let c = chars[a];
    if c == '?' {
        Some("complex_key")
    } else if c == '&' {
        Some("anchor")
    } else if c == '*' {
        Some("alias")
    } else if c == '!' {
        Some("tag")
    } else if c == '\'' {
        Some("single_quoted")
    } else {
        None
    }
}

fn unsupported_value_feature(chars: &[char], a: usize, b: usize) -> (r: Option<&'static str>)
    requires
        a <= b <= chars@.len(),
    ensures
        match r {
            Some(f) => a < b && value_feature(chars@[a as int]) == Some(f@),
            None => a == b || value_feature(chars@[a as int]) is None,
        },
{
    if a == b {
        return None;
    }
    let c = chars[a];
    if c == '&' {
        Some("anchor")
    } else if c == '*' {
        Some("alias")
    } else if c == '!' {
        Some("tag")
    } else if c == '|' || c == '>' {
        Some("block_scalar")
    } else if c == '\'' {
        Some("single_quoted")
    } else {
        None
    }
}

/// The parts of a flow body `[i, to)` separated by commas outside quotes and nested brackets,
/// appended to `acc` after the open part that started at `start`.
pub open spec fn flow_parts(
    s: Seq<char>,
    i: int,
    to: int,
    quoted: bool,
    escaped: bool,
    depth: nat,
    start: int,
    acc: Seq<(int, int)>,
) -> Seq<(int, int)>
    decreases to - i,
{
    if i >= to {
        acc.push((start, to))
    } else {
        let c = s[i];
        if quoted {
            if escaped {
                flow_parts(s, i + 1, to, true, false, depth, start, acc)
            } else if c == '\\' {
                flow_parts(s, i + 1, to, true, true, depth, start, acc)
            } else if c == '"' {
                flow_parts(s, i + 1, to, false, false, depth, start, acc)
            } else {
                flow_parts(s, i + 1, to, true, false, depth, start, acc)
            }
        } else if c == '"' {
            flow_parts(s, i + 1, to, true, escaped, depth, start, acc)
        } else if c == '[' || c == '{' {
            flow_parts(s, i + 1, to, false, escaped, depth + 1, start, acc)
        } else if c == ']' || c == '}' {
            flow_parts(s, i + 1, to, false, escaped, if depth > 0 {
                (depth - 1) as nat
            } else {
                0
            }, start, acc)
        } else if c == ',' && depth == 0 {
            flow_parts(s, i + 1, to, false, escaped, depth, i + 1, acc.push((start, i)))
        } else {
            flow_parts(s, i + 1, to, false, escaped, depth, start, acc)
        }
    }
}

pub proof fn lemma_flow_parts(
    s: Seq<char>,
    i: int,
    to: int,
    quoted: bool,
    escaped: bool,
    depth: nat,
    start: int,
    acc: Seq<(int, int)>,
    lo: int,
)
    requires
        lo <= start <= i <= to,
        forall|k: int| 0 <= k < acc.len() ==> lo <= (#[trigger] acc[k]).0 <= acc[k].1 <= to,
    ensures
        forall|k: int|
            0 <= k < flow_parts(s, i, to, quoted, escaped, depth, start, acc).len() ==> lo <= (
            #[trigger] flow_parts(s, i, to, quoted, escaped, depth, start, acc)[k]).0
                <= flow_parts(s, i, to, quoted, escaped, depth, start, acc)[k].1 <= to,
    decreases to - i,
{
    let r = flow_parts(s, i, to, quoted, escaped, depth, start, acc);
    if i < to {
        let c = s[i];
        let d2: nat = if depth > 0 {
            (depth - 1) as nat
        } else {
            0
        };
        let (q, e, d, st, next): (bool, bool, nat, int, Seq<(int, int)>) = if quoted {
            if escaped {
                (true, false, depth, start, acc)
            } else if c == '\\' {
                (true, true, depth, start, acc)
            } else if c == '"' {
                (false, false, depth, start, acc)
            } else {
                (true, false, depth, start, acc)
            }
        } else if c == '"' {
            (true, escaped, depth, start, acc)
        } else if c == '[' || c == '{' {
            (false, escaped, depth + 1, start, acc)
        } else if c == ']' || c == '}' {
            (false, escaped, d2, start, acc)
        } else if c == ',' && depth == 0 {
            (false, escaped, depth, i + 1, acc.push((start, i)))
        } else {
            (false, escaped, depth, start, acc)
        };
        assert(r == flow_parts(s, i + 1, to, q, e, d, st, next));
        assert forall|k: int| 0 <= k < next.len() implies lo <= (#[trigger] next[k]).0
            <= next[k].1 <= to by {
            if k < acc.len() {
                assert(next[k] == acc[k]);
            }
        }
        lemma_flow_parts(s, i + 1, to, q, e, d, st, next, lo);
    } else {
        let next = acc.push((start, to));
        assert(r == next);
        assert forall|k: int| 0 <= k < next.len() implies lo <= (#[trigger] next[k]).0 <= next[k].1
            <= to by {
            if k < acc.len() {
                assert(next[k] == acc[k]);
            }
        }
    }
}

/// Cuts a flow body into its comma-separated parts, counting bracket depth.
fn split_flow(chars: &[char], a: usize, b: usize) -> (parts: Vec<(usize, usize)>)
    requires
        a <= b <= chars@.len(),
    ensures
        parts@.map_values(|p: (usize, usize)| (p.0 as int, p.1 as int)) == flow_parts(
            chars@,
            a as int,
            b as int,
            false,
            false,
            0,
            a as int,
            Seq::empty(),
        ),
        forall|k: int| 0 <= k < parts@.len() ==> a <= (#[trigger] parts@[k]).0 <= parts@[k].1 <= b,
{
    let mut parts: Vec<(usize, usize)> = Vec::new();
    let mut quoted: bool = false;
    let mut escaped: bool = false;
    let mut depth: usize = 0;
    let mut start: usize = a;
    let mut i: usize = a;
    let ghost target = flow_parts(chars@, a as int, b as int, false, false, 0, a as int, Seq::empty());
    proof {
        assert(parts@.map_values(|p: (usize, usize)| (p.0 as int, p.1 as int)) =~= Seq::<(int, int)>::empty());
        lemma_flow_parts(chars@, a as int, b as int, false, false, 0, a as int, Seq::empty(), a as int);
    }
    while i < b
        invariant
            a <= start <= i <= b <= chars@.len(),
            depth <= i - a,
            forall|k: int| 0 <= k < parts@.len() ==> a <= (#[trigger] parts@[k]).0 <= parts@[k].1 <= b,
            target == flow_parts(chars@, a as int, b as int, false, false, 0, a as int, Seq::empty()),
            target == flow_parts(
                chars@,
                i as int,
                b as int,
                quoted,
                escaped,
                depth as nat,
                start as int,
                parts@.map_values(|p: (usize, usize)| (p.0 as int, p.1 as int)),
            ),
        decreases b - i,
    {
        let c = chars[i];
        if quoted {
            if escaped {
                escaped = false;
            } else if c == '\\' {
                escaped = true;
            } else if c == '"' {
                quoted = false;
            }
        } else if c == '"' {
            quoted = true;
        } else if c == '[' || c == '{' {
            depth = depth + 1;
        } else if c == ']' || c == '}' {
            if depth > 0 {
                depth = depth - 1;
            }
        } else if c == ',' && depth == 0 {
            let ghost before = parts@;
            parts.push((start, i));
            proof {
                assert(parts@.map_values(|p: (usize, usize)| (p.0 as int, p.1 as int)) =~= before.map_values(
                    |p: (usize, usize)| (p.0 as int, p.1 as int),
                ).push((start as int, i as int)));
            }
            start = i + 1;
        }
        i = i + 1;
    }
    let ghost before = parts@;
    parts.push((start, b));
    proof {
        assert(parts@.map_values(|p: (usize, usize)| (p.0 as int, p.1 as int)) =~= before.map_values(
            |p: (usize, usize)| (p.0 as int, p.1 as int),
        ).push((start as int, b as int)));
    }
    parts
}

/// The inside of a flow collection `[a, b)`: the opening bracket is dropped, and a closing
/// `]` or `}` when there is one.
pub open spec fn flow_body_spec(s: Seq<char>, a: int, b: int) -> (int, int) {
    if b > a + 1 && (s[b - 1] == ']' || s[b - 1] == '}') {
        (a + 1, b - 1)
    } else {
        (a + 1, b)
    }
}

fn flow_body(chars: &[char], a: usize, b: usize) -> (r: (usize, usize))
    requires
        a < b <= chars@.len(),
    ensures
        r.0 == flow_body_spec(chars@, a as int, b as int).0,
        r.1 == flow_body_spec(chars@, a as int, b as int).1,
        a < r.0 <= r.1 <= b,
{
    if b > a + 1 && (chars[b - 1] == ']' || chars[b - 1] == '}') {
        (a + 1, b - 1)
    } else {
        (a + 1, b)
    }
}

/// The scalar written in `[a, b)`: a double-quoted scalar is read as a JSON string, anything
/// else is taken as written.
pub open spec fn scalar_text(s: Seq<char>, a: int, b: int) -> (Seq<char>, bool) {
    if a < b && s[a] == '"' {
        match crate::json::json_string_value(s.subrange(a, b)) {
            Some(v) => (v, true),
            None => (Seq::empty(), true),
        }
    } else {
        (s.subrange(a, b), false)
    }
}

fn read_scalar(
    text: &SourceText,
    a: usize,
    b: usize,
    span: Span,
    diagnostics: &mut Vec<Diagnostic>,
) -> (r: FmScalar)
    requires
        a <= b <= text.chars@.len(),
    ensures
        r.text@ == scalar_text(text.chars@, a as int, b as int).0,
        r.quoted == scalar_text(text.chars@, a as int, b as int).1,
        r.span == span,
        diagnostics_view(final(diagnostics)@) == if a < b && text.chars@[a as int] == '"'
            && crate::json::json_string_value(text.chars@.subrange(a as int, b as int)) is None {
            diagnostics_view(old(diagnostics)@).push(
                crate::diagnostic::with_argument_view(
                    crate::diagnostic::error_view(
                        INVALID_SCALAR_TYPE@,
                        "ko.frontmatter.invalid_scalar_type"@,
                        span,
                    ),
                    "expected"@,
                    "string"@,
                ),
            )
        } else {
            diagnostics_view(old(diagnostics)@)
        },
{
    if a < b && text.chars[a] == '"' {
        let raw = string_of(&text.chars, a, b);
        match decode_json_string(raw.as_str()) {
            Some(value) => FmScalar { text: value, quoted: true, span },
            None => {
                push_diagnostic(diagnostics, scalar_error(span, "string"));
                FmScalar { text: String::new(), quoted: true, span }
            },
        }
    } else {
        FmScalar { text: string_of(&text.chars, a, b), quoted: false, span }
    }
}

fn structure_error(span: Span, expected: &str) -> (d: Diagnostic)
    ensures
        d@ == crate::diagnostic::with_argument_view(
            crate::diagnostic::error_view(
                INVALID_STRUCTURE@,
                "ko.frontmatter.invalid_structure"@,
                span,
            ),
            "expected"@,
            expected@,
        ),
{
    Diagnostic::error(INVALID_STRUCTURE, "ko.frontmatter.invalid_structure", span).with_argument(
        "expected",
        expected,
    )
}

/// The diagnostic for a place that does not have the structure `expected` names.
pub open spec fn structure_error_view(span: Span, expected: Seq<char>) -> crate::diagnostic::DiagnosticView {
    crate::diagnostic::with_argument_view(
        crate::diagnostic::error_view(INVALID_STRUCTURE@, "ko.frontmatter.invalid_structure"@, span),
        "expected"@,
        expected,
    )
}

/// The diagnostic for a scalar that is not the `expected` kind of scalar.
pub open spec fn scalar_error_view(span: Span, expected: Seq<char>) -> crate::diagnostic::DiagnosticView {
    crate::diagnostic::with_argument_view(
        crate::diagnostic::error_view(INVALID_SCALAR_TYPE@, "ko.frontmatter.invalid_scalar_type"@, span),
        "expected"@,
        expected,
    )
}

fn scalar_error(span: Span, expected: &str) -> (d: Diagnostic)
    ensures
        d@ == crate::diagnostic::with_argument_view(
            crate::diagnostic::error_view(
                INVALID_SCALAR_TYPE@,
                "ko.frontmatter.invalid_scalar_type"@,
                span,
            ),
            "expected"@,
            expected@,
        ),
{
    Diagnostic::error(INVALID_SCALAR_TYPE, "ko.frontmatter.invalid_scalar_type", span).with_argument(
        "expected",
        expected,
    )
}

/// The diagnostic for a key the schema does not know.
pub open spec fn unknown_key_view(key: FmScalar) -> crate::diagnostic::DiagnosticView {
    crate::diagnostic::with_argument_view(
        crate::diagnostic::error_view(UNKNOWN_KEY@, "ko.frontmatter.unknown_key"@, key.span),
        "key"@,
        key.text@,
    )
}

fn unknown_key(scalar: &FmScalar) -> (d: Diagnostic)
    ensures
        d@ == crate::diagnostic::with_argument_view(
            crate::diagnostic::error_view(UNKNOWN_KEY@, "ko.frontmatter.unknown_key"@, scalar.span),
            "key"@,
            scalar.text@,
        ),
{
    Diagnostic::error(UNKNOWN_KEY, "ko.frontmatter.unknown_key", scalar.span).with_argument(
        "key",
        scalar.text.as_str(),
    )
}

fn unsupported_feature(span: Span, feature: &str) -> (d: Diagnostic)
    ensures
        d@ == crate::diagnostic::with_argument_view(
            crate::diagnostic::error_view(
                UNSUPPORTED_YAML_FEATURE@,
                "ko.frontmatter.unsupported_yaml_feature"@,
                span,
            ),
            "feature"@,
            feature@,
        ),
{
    Diagnostic::error(
        UNSUPPORTED_YAML_FEATURE,
        "ko.frontmatter.unsupported_yaml_feature",
        span,
    ).with_argument("feature", feature)
}

} // verus!

verus! {

/// The top-level shape of an inline value written in `[a, b)`.
pub open spec fn inline_shape(s: Seq<char>, a: int, b: int, v: FmValue) -> bool {
    if value_feature(s[a]) is Some {
        v is Rejected
    } else if s[a] == '[' {
        v is Sequence
    } else if s[a] == '{' {
        v is Mapping
    } else {
        v matches FmValue::Scalar(sc) && sc.text@ == scalar_text(s, a, b).0 && sc.quoted
            == scalar_text(s, a, b).1
    }
}

fn is_rejected(value: &FmValue) -> (b: bool)
    ensures
        b == (value is Rejected),
{
    match value {
        FmValue::Rejected { .. } => true,
        _ => false,
    }
}

/// Where the first live entry from `i` on with the key text `key` was written.
pub open spec fn first_seen_spec(entries: Seq<FmEntry>, key: Seq<char>, i: int) -> Option<usize>
    decreases entries.len() - i,
{
    if i < 0 || i >= entries.len() {
        None
    } else if entries[i].key.text@ == key && !(entries[i].value is Rejected) {
        Some(entries[i].key.span.start)
    } else {
        first_seen_spec(entries, key, i + 1)
    }
}

/// Where a live entry with the key text `key` was first written, if there is one.
fn first_seen(entries: &Vec<FmEntry>, key: &String) -> (r: Option<usize>)
    ensures
        r == first_seen_spec(entries@, key@, 0),
        match r {
            Some(start) => exists|k: int|
                0 <= k < entries@.len() && (#[trigger] entries@[k]).key.text@ == key@
                    && !(entries@[k].value is Rejected) && entries@[k].key.span.start == start,
            None => forall|k: int|
                0 <= k < entries@.len() ==> !((#[trigger] entries@[k]).key.text@ == key@
                    && !(entries@[k].value is Rejected)),
        },
{
    let mut i: usize = 0;
    while i < entries.len()
        invariant
            i <= entries@.len(),
            first_seen_spec(entries@, key@, 0) == first_seen_spec(entries@, key@, i as int),
            forall|k: int|
                0 <= k < i ==> !((#[trigger] entries@[k]).key.text@ == key@
                    && !(entries@[k].value is Rejected)),
        decreases entries@.len() - i,
    {
        if str_eq(entries[i].key.text.as_str(), key.as_str()) && !is_rejected(&entries[i].value) {
            return Some(entries[i].key.span.start);
        }
        i = i + 1;
    }
    None
}

/// Reads an inline value: a flow sequence, a flow mapping or a scalar. Anchors, aliases,
/// tags, block scalars and single-quoted strings are rejected.
fn parse_inline(text: &SourceText, a: usize, b: usize, diagnostics: &mut Vec<Diagnostic>) -> (v:
    FmValue)
    requires
        text.wf(),
        a < b <= text.chars@.len(),
    ensures
        v.span_of() == (Span { start: text.offsets@[a as int], end: text.offsets@[b as int] }),
        inline_shape(text.chars@, a as int, b as int, v),
        inline_value(v, text.chars@, text.offsets@, a as int, b as int),
        diagnostics_view(final(diagnostics)@) == diagnostics_view(old(diagnostics)@) + inline_diags(
            text.chars@,
            text.offsets@,
            a as int,
            b as int,
        ),
    decreases b - a, 1int,
{
    let span = Span { start: text.at(a), end: text.at(b) };
    match unsupported_value_feature(&text.chars, a, b) {
        Some(feature) => {
            push_diagnostic(diagnostics, unsupported_feature(span, feature));
            return FmValue::Rejected { span };
        },
        None => {},
    }
    let c = text.chars[a];
    if c == '[' {
        parse_flow_sequence(text, a, b, diagnostics)
    } else if c == '{' {
        parse_flow_mapping(text, a, b, diagnostics)
    } else {
        FmValue::Scalar(read_scalar(text, a, b, span, diagnostics))
    }
}

/// Reads `[a, b)` as a flow sequence `[x, y, ...]`; empty parts are skipped.
fn parse_flow_sequence(
    text: &SourceText,
    a: usize,
    b: usize,
    diagnostics: &mut Vec<Diagnostic>,
) -> (v: FmValue)
    requires
        text.wf(),
        a < b <= text.chars@.len(),
        text.chars@[a as int] == '[',
    ensures
        v is Sequence,
        v.span_of() == (Span { start: text.offsets@[a as int], end: text.offsets@[b as int] }),
        inline_value(v, text.chars@, text.offsets@, a as int, b as int),
        diagnostics_view(final(diagnostics)@) == diagnostics_view(old(diagnostics)@) + flow_seq_diags(
            text.chars@,
            text.offsets@,
            a as int,
            b as int,
            flow_parts_of(text.chars@, a as int, b as int).len() as int,
        ),
    decreases b - a, 0int,
{
    let ghost s = text.chars@;
    let ghost o = text.offsets@;
    let ghost d0 = diagnostics_view(diagnostics@);
    let span = Span { start: text.at(a), end: text.at(b) };
    let (ba, bb) = flow_body(&text.chars, a, b);
    let parts = split_flow(&text.chars, ba, bb);
    let ghost ps = flow_parts_of(s, a as int, b as int);
    proof {
        assert(parts@.len() == ps.len());
        assert forall|j: int| 0 <= j < parts@.len() implies parts@[j].0 as int == ps[j].0 && parts@[j].1 as int
            == ps[j].1 by {
            assert(parts@.map_values(|p: (usize, usize)| (p.0 as int, p.1 as int))[j] == ps[j]);
        }
        assert(d0 + flow_seq_diags(s, o, a as int, b as int, 0) =~= d0);
    }
    let mut items: Vec<FmValue> = Vec::new();
    let mut k: usize = 0;
    while k < parts.len()
        invariant
            text.wf(),
            s == text.chars@,
            o == text.offsets@,
            a < ba <= bb <= b <= text.chars@.len(),
            forall|j: int| 0 <= j < parts@.len() ==> ba <= (#[trigger] parts@[j]).0 <= parts@[j].1 <= bb,
            parts@.len() == ps.len(),
            ps == flow_parts_of(s, a as int, b as int),
            forall|j: int| 0 <= j < parts@.len() ==> (#[trigger] parts@[j]).0 as int == ps[j].0 && parts@[j].1 as int
                == ps[j].1,
            k <= parts@.len(),
            items@.len() == kept_parts(s, ps, k as int).len(),
            forall|j: int|
                0 <= j < items@.len() ==> inline_value(
                    #[trigger] items@[j],
                    s,
                    o,
                    kept_parts(s, ps, k as int)[j].0,
                    kept_parts(s, ps, k as int)[j].1,
                ),
            diagnostics_view(diagnostics@) == d0 + flow_seq_diags(s, o, a as int, b as int, k as int),
        decreases parts@.len() - k,
    {
        let (p, q) = parts[k];
        let ts = first_visible_exec(&text.chars, p, q);
        let te = trimmed_end_exec(&text.chars, p, q);
        let ghost before = items@;
        let ghost dprev = diagnostics_view(diagnostics@);
        proof {
            lemma_first_visible(text.chars@, p as int, q as int);
            lemma_trimmed_end(text.chars@, p as int, q as int);
            assert(trim_part(s, ps[k as int]) == (ts as int, te as int));
        }
        if ts < te {
            let item = parse_inline(text, ts, te, diagnostics);
            items.push(item);
            proof {
                assert(kept_parts(s, ps, k + 1) == kept_parts(s, ps, k as int) + seq![(ts as int, te as int)]);
                assert forall|j: int| 0 <= j < items@.len() implies inline_value(
                    #[trigger] items@[j],
                    s,
                    o,
                    kept_parts(s, ps, k + 1)[j].0,
                    kept_parts(s, ps, k + 1)[j].1,
                ) by {
                    if j < before.len() {
                        assert(items@[j] == before[j]);
                    }
                }
                assert(diagnostics_view(diagnostics@) =~= d0 + flow_seq_diags(s, o, a as int, b as int, k + 1));
            }
        } else {
            proof {
                assert(kept_parts(s, ps, k + 1) =~= kept_parts(s, ps, k as int));
                assert(diagnostics_view(diagnostics@) =~= d0 + flow_seq_diags(s, o, a as int, b as int, k + 1));
            }
        }
        k = k + 1;
    }
    let v = FmValue::Sequence { items, span };
    proof {
        assert(value_feature(s[a as int]) is None);
    }
    v
}

/// Reads `[a, b)` as a flow mapping `{k: v, ...}`. A part without a key is a structure
/// error; a repeated key is reported and the first one kept.
fn parse_flow_mapping(
    text: &SourceText,
    a: usize,
    b: usize,
    diagnostics: &mut Vec<Diagnostic>,
) -> (v: FmValue)
    requires
        text.wf(),
        a < b <= text.chars@.len(),
        text.chars@[a as int] == '{',
    ensures
        v is Mapping,
        v.span_of() == (Span { start: text.offsets@[a as int], end: text.offsets@[b as int] }),
        inline_value(v, text.chars@, text.offsets@, a as int, b as int),
        diagnostics_view(final(diagnostics)@) == diagnostics_view(old(diagnostics)@) + flow_map_diags(
            text.chars@,
            text.offsets@,
            a as int,
            b as int,
            flow_parts_of(text.chars@, a as int, b as int).len() as int,
        ),
    decreases b - a, 0int,
{
    let ghost s = text.chars@;
    let ghost o = text.offsets@;
    let ghost d0 = diagnostics_view(diagnostics@);
    let span = Span { start: text.at(a), end: text.at(b) };
    let (ba, bb) = flow_body(&text.chars, a, b);
    let parts = split_flow(&text.chars, ba, bb);
    let ghost ps = flow_parts_of(s, a as int, b as int);
    proof {
        assert(parts@.len() == ps.len());
        assert forall|j: int| 0 <= j < parts@.len() implies parts@[j].0 as int == ps[j].0 && parts@[j].1 as int
            == ps[j].1 by {
            assert(parts@.map_values(|p: (usize, usize)| (p.0 as int, p.1 as int))[j] == ps[j]);
        }
        assert(d0 + flow_map_diags(s, o, a as int, b as int, 0) =~= d0);
    }
    let mut entries: Vec<FmEntry> = Vec::new();
    let mut k: usize = 0;
    while k < parts.len()
        invariant
            text.wf(),
            s == text.chars@,
            o == text.offsets@,
            a < ba <= bb <= b <= text.chars@.len(),
            forall|j: int| 0 <= j < parts@.len() ==> ba <= (#[trigger] parts@[j]).0 <= parts@[j].1 <= bb,
            parts@.len() == ps.len(),
            ps == flow_parts_of(s, a as int, b as int),
            forall|j: int| 0 <= j < parts@.len() ==> (#[trigger] parts@[j]).0 as int == ps[j].0 && parts@[j].1 as int
                == ps[j].1,
            k <= parts@.len(),
            entries@.len() == flow_map_walk(s, o, ps, k as int).len(),
            forall|j: int|
                0 <= j < entries@.len() ==> flow_entry_ok(
                    #[trigger] entries@[j],
                    s,
                    o,
                    flow_map_walk(s, o, ps, k as int)[j],
                ),
            diagnostics_view(diagnostics@) == d0 + flow_map_diags(s, o, a as int, b as int, k as int),
        decreases parts@.len() - k,
    {
        let (p, q) = parts[k];
        let ts = first_visible_exec(&text.chars, p, q);
        let te = trimmed_end_exec(&text.chars, p, q);
        let ghost w = flow_map_walk(s, o, ps, k as int);
        let ghost before = entries@;
        let ghost dprev = diagnostics_view(diagnostics@);
        proof {
            lemma_first_visible(text.chars@, p as int, q as int);
            lemma_trimmed_end(text.chars@, p as int, q as int);
            assert(trim_part(s, ps[k as int]) == (ts as int, te as int));
            lemma_part_bounds(s, a as int, b as int, k as int);
        }
        if ts < te {
            let part_span = Span { start: text.at(ts), end: text.at(te) };
            match split_key(&text.chars, ts, te) {
                None => {
                    push_diagnostic(diagnostics, structure_error(part_span, "mapping_entry"));
                    proof {
                        reveal_strlit("mapping_entry");
                        assert(split_key_spec(s, ts as int, te as int) is None);
                        assert(flow_part_diags(s, o, w, ts as int, te as int) == seq![
                            structure_error_view(part_span, "mapping_entry"@),
                        ]);
                        assert(flow_map_diags(s, o, a as int, b as int, k + 1) == flow_map_diags(
                            s,
                            o,
                            a as int,
                            b as int,
                            k as int,
                        ) + flow_part_diags(s, o, w, ts as int, te as int));
                        assert(diagnostics_view(diagnostics@) =~= d0 + flow_map_diags(s, o, a as int, b as int, k + 1));
                        assert(flow_map_walk(s, o, ps, k + 1) == w);
                    }
                },
                Some(((ka, kb), (va, vb))) => {
                    let key_span = Span { start: text.at(ka), end: text.at(kb) };
                    match unsupported_key_feature(&text.chars, ka, kb) {
                        Some(feature) => {
                            push_diagnostic(diagnostics, unsupported_feature(key_span, feature));
                            let e = FmEntry {
                                key: FmScalar { text: string_of(&text.chars, ka, kb), quoted: false, span: key_span },
                                value: FmValue::Rejected { span: key_span },
                            };
                            entries.push(e);
                            proof {
                                assert(flow_part_diags(s, o, w, ts as int, te as int) == seq![
                                    unsupported_view(key_span, feature@),
                                ]);
                                assert(flow_map_diags(s, o, a as int, b as int, k + 1) == flow_map_diags(
                                    s,
                                    o,
                                    a as int,
                                    b as int,
                                    k as int,
                                ) + flow_part_diags(s, o, w, ts as int, te as int));
                                assert(diagnostics_view(diagnostics@) =~= d0 + flow_map_diags(
                                    s,
                                    o,
                                    a as int,
                                    b as int,
                                    k + 1,
                                ));
                                let d = FlowEntryDesc { ka: ka as int, kb: kb as int, value: None, rejected_key: true };
                                assert(flow_map_walk(s, o, ps, k + 1) == w.push(d));
                                assert(flow_entry_ok(e, s, o, d));
                                assert forall|j: int| 0 <= j < entries@.len() implies flow_entry_ok(
                                    #[trigger] entries@[j],
                                    s,
                                    o,
                                    flow_map_walk(s, o, ps, k + 1)[j],
                                ) by {
                                    if j < before.len() {
                                        assert(entries@[j] == before[j]);
                                    }
                                }
                            }
                        },
                        None => {
                            let key = read_scalar(text, ka, kb, key_span, diagnostics);
                            let value = if va == vb {
                                FmValue::Empty { span: key.span }
                            } else {
                                parse_inline(text, va, vb, diagnostics)
                            };
                            let ghost dmid = diagnostics_view(diagnostics@);
                            let ghost part_d = flow_part_diags(s, o, w, ts as int, te as int);
                            proof {
                                assert(flow_map_diags(s, o, a as int, b as int, k + 1) == flow_map_diags(
                                    s,
                                    o,
                                    a as int,
                                    b as int,
                                    k as int,
                                ) + part_d);
                                assert(part_d == scalar_diags(s, ka as int, kb as int, key_span) + (if va == vb {
                                    Seq::<crate::diagnostic::DiagnosticView>::empty()
                                } else {
                                    inline_diags(s, o, va as int, vb as int)
                                }) + match flow_first_seen(s, o, w, key.text@, 0) {
                                    Some(first) => seq![duplicate_view(key.text@, key_span, first as nat)],
                                    None => Seq::<crate::diagnostic::DiagnosticView>::empty(),
                                });
                            }
                            proof {
                                lemma_flow_first_seen(s, o, w, entries@, key.text@, 0);
                            }
                            match first_seen(&entries, &key.text) {
                                Some(first) => {
                                    push_diagnostic(diagnostics, duplicate_key(&key, first));
                                    proof {
                                        assert(diagnostics_view(diagnostics@) =~= d0 + flow_map_diags(
                                            s,
                                            o,
                                            a as int,
                                            b as int,
                                            k + 1,
                                        ));
                                        assert(flow_map_walk(s, o, ps, k + 1) == w);
                                    }
                                },
                                None => {
                                    let e = FmEntry { key, value };
                                    entries.push(e);
                                    proof {
                                        assert(diagnostics_view(diagnostics@) =~= d0 + flow_map_diags(
                                            s,
                                            o,
                                            a as int,
                                            b as int,
                                            k + 1,
                                        ));
                                        let d = FlowEntryDesc {
                                            ka: ka as int,
                                            kb: kb as int,
                                            value: if va == vb {
                                                None
                                            } else {
                                                Some((va as int, vb as int))
                                            },
                                            rejected_key: false,
                                        };
                                        assert(flow_map_walk(s, o, ps, k + 1) == w.push(d));
                                        assert(flow_entry_ok(e, s, o, d));
                                        assert forall|j: int| 0 <= j < entries@.len() implies flow_entry_ok(
                                            #[trigger] entries@[j],
                                            s,
                                            o,
                                            flow_map_walk(s, o, ps, k + 1)[j],
                                        ) by {
                                            if j < before.len() {
                                                assert(entries@[j] == before[j]);
                                            }
                                        }
                                    }
                                },
                            }
                        },
                    }
                },
            }
        } else {
            proof {
                assert(diagnostics_view(diagnostics@) =~= d0 + flow_map_diags(s, o, a as int, b as int, k + 1));
                assert(flow_map_walk(s, o, ps, k + 1) == w);
            }
        }
        k = k + 1;
    }
    let v = FmValue::Mapping { entries, span };
    proof {
        assert(value_feature(s[a as int]) is None);
        let w = flow_map_walk(s, o, ps, ps.len() as int);
        assert forall|j: int| 0 <= j < entries@.len() implies flow_entry_ok(#[trigger] entries@[j], s, o, w[j]) by {}
    }
    v
}

pub open spec fn unsupported_view(span: Span, feature: Seq<char>) -> crate::diagnostic::DiagnosticView {
    crate::diagnostic::with_argument_view(
        crate::diagnostic::error_view(
            UNSUPPORTED_YAML_FEATURE@,
            "ko.frontmatter.unsupported_yaml_feature"@,
            span,
        ),
        "feature"@,
        feature,
    )
}

pub open spec fn duplicate_view(key: Seq<char>, span: Span, first: nat) -> crate::diagnostic::DiagnosticView {
    crate::diagnostic::with_argument_view(
        crate::diagnostic::with_argument_view(
            crate::diagnostic::error_view(DUPLICATE_KEY@, "ko.frontmatter.duplicate_key"@, span),
            "key"@,
            key,
        ),
        "first"@,
        crate::text::decimal_spec(first),
    )
}

/// What reading the scalar `[a, b)` reports: a double-quoted scalar that is no JSON string.
pub open spec fn scalar_diags(s: Seq<char>, a: int, b: int, span: Span) -> Seq<crate::diagnostic::DiagnosticView> {
    if a < b && s[a] == '"' && crate::json::json_string_value(s.subrange(a, b)) is None {
        seq![
            crate::diagnostic::with_argument_view(
                crate::diagnostic::error_view(INVALID_SCALAR_TYPE@, "ko.frontmatter.invalid_scalar_type"@, span),
                "expected"@,
                "string"@,
            ),
        ]
    } else {
        Seq::empty()
    }
}

/// The parts of the flow collection `[a, b)`, cut at its top-level commas.
pub open spec fn flow_parts_of(s: Seq<char>, a: int, b: int) -> Seq<(int, int)> {
    let (ba, bb) = flow_body_spec(s, a, b);
    flow_parts(s, ba, bb, false, false, 0, ba, Seq::empty())
}

/// A part with the white space around it taken off.
pub open spec fn trim_part(s: Seq<char>, p: (int, int)) -> (int, int) {
    (first_visible(s, p.0, p.1), trimmed_end(s, p.0, p.1))
}

pub proof fn lemma_part_bounds(s: Seq<char>, a: int, b: int, k: int)
    requires
        0 <= a < b <= s.len(),
        0 <= k < flow_parts_of(s, a, b).len(),
    ensures
        a < flow_parts_of(s, a, b)[k].0 <= trim_part(s, flow_parts_of(s, a, b)[k]).0,
        trim_part(s, flow_parts_of(s, a, b)[k]).1 <= flow_parts_of(s, a, b)[k].1 <= flow_body_spec(s, a, b).1
            <= b,
        flow_body_spec(s, a, b).1 - flow_body_spec(s, a, b).0 < b - a,
{
    let (ba, bb) = flow_body_spec(s, a, b);
    lemma_flow_parts(s, ba, bb, false, false, 0, ba, Seq::empty(), ba);
    let p = flow_parts_of(s, a, b)[k];
    lemma_first_visible(s, p.0, p.1);
    lemma_trimmed_end(s, p.0, p.1);
}

/// The key and value of one flow mapping entry, as positions.
pub struct FlowEntryDesc {
    pub ka: int,
    pub kb: int,
    /// The value's range; `None` for an entry with nothing after its colon.
    pub value: Option<(int, int)>,
    /// The key starts with a notation the reader refuses; the entry holds no value.
    pub rejected_key: bool,
}

/// The entry takes part in the duplicate-key check: its key and its value were both read.
pub open spec fn flow_live(s: Seq<char>, d: FlowEntryDesc) -> bool {
    !d.rejected_key && !(d.value matches Some((va, vb)) && value_feature(s[va]) is Some)
}

/// Where the first live entry of `ds` with the key text `key` was written.
pub open spec fn flow_first_seen(s: Seq<char>, o: Seq<usize>, ds: Seq<FlowEntryDesc>, key: Seq<char>, i: int) -> Option<usize>
    decreases ds.len() - i,
{
    if i < 0 || i >= ds.len() {
        None
    } else if flow_live(s, ds[i]) && scalar_text(s, ds[i].ka, ds[i].kb).0 == key {
        Some(o[ds[i].ka])
    } else {
        flow_first_seen(s, o, ds, key, i + 1)
    }
}

/// The entries that the first `n` parts of a flow mapping give.
pub open spec fn flow_map_walk(s: Seq<char>, o: Seq<usize>, parts: Seq<(int, int)>, n: int) -> Seq<FlowEntryDesc>
    decreases n,
{
    if n <= 0 || n > parts.len() {
        Seq::empty()
    } else {
        let prev = flow_map_walk(s, o, parts, n - 1);
        let (ts, te) = trim_part(s, parts[n - 1]);
        if ts >= te {
            prev
        } else {
            match split_key_spec(s, ts, te) {
                None => prev,
                Some(((ka, kb), (va, vb))) => if key_feature(s[ka]) is Some {
                    prev.push(FlowEntryDesc { ka, kb, value: None, rejected_key: true })
                } else if flow_first_seen(s, o, prev, scalar_text(s, ka, kb).0, 0) is Some {
                    prev
                } else {
                    prev.push(
                        FlowEntryDesc {
                            ka,
                            kb,
                            value: if va == vb {
                                None
                            } else {
                                Some((va, vb))
                            },
                            rejected_key: false,
                        },
                    )
                },
            }
        }
    }
}

/// The diagnostics of reading the inline value `[a, b)`.
pub open spec fn inline_diags(s: Seq<char>, o: Seq<usize>, a: int, b: int) -> Seq<crate::diagnostic::DiagnosticView>
    decreases b - a, 2int, 0int,
{
    if a < 0 || b <= a || b > s.len() {
        Seq::empty()
    } else {
        let span = Span { start: o[a], end: o[b] };
        match value_feature(s[a]) {
            Some(f) => seq![unsupported_view(span, f)],
            None => if s[a] == '[' {
                flow_seq_diags(s, o, a, b, flow_parts_of(s, a, b).len() as int)
            } else if s[a] == '{' {
                flow_map_diags(s, o, a, b, flow_parts_of(s, a, b).len() as int)
            } else {
                scalar_diags(s, a, b, span)
            },
        }
    }
}

/// The diagnostics of the first `n` parts of the flow sequence `[a, b)`.
pub open spec fn flow_seq_diags(s: Seq<char>, o: Seq<usize>, a: int, b: int, n: int) -> Seq<crate::diagnostic::DiagnosticView>
    decreases b - a, 1int, n,
{
    if a < 0 || b <= a || b > s.len() || n <= 0 || n > flow_parts_of(s, a, b).len() {
        Seq::empty()
    } else {
        let (ts, te) = trim_part(s, flow_parts_of(s, a, b)[n - 1]);
        proof {
            lemma_part_bounds(s, a, b, n - 1);
        }
        flow_seq_diags(s, o, a, b, n - 1) + if ts < te {
            inline_diags(s, o, ts, te)
        } else {
            Seq::empty()
        }
    }
}

/// What the part `(ts, te)` of a flow mapping reports, after the entries `prev`.
pub open spec fn flow_part_diags(
    s: Seq<char>,
    o: Seq<usize>,
    prev: Seq<FlowEntryDesc>,
    ts: int,
    te: int,
) -> Seq<crate::diagnostic::DiagnosticView>
    decreases te - ts, 3int, 0int,
{
    if ts < 0 || te <= ts || te > s.len() {
        Seq::empty()
    } else {
        match split_key_spec(s, ts, te) {
            None => seq![structure_error_view(Span { start: o[ts], end: o[te] }, "mapping_entry"@)],
            Some(((ka, kb), (va, vb))) => {
                let key_span = Span { start: o[ka], end: o[kb] };
                if key_feature(s[ka]) is Some {
                    seq![unsupported_view(key_span, key_feature(s[ka])->0)]
                } else {
                    let key = scalar_text(s, ka, kb).0;
                    scalar_diags(s, ka, kb, key_span) + (if va == vb || !(ts <= va < vb <= te) {
                        Seq::empty()
                    } else {
                        inline_diags(s, o, va, vb)
                    }) + match flow_first_seen(s, o, prev, key, 0) {
                        Some(first) => seq![duplicate_view(key, key_span, first as nat)],
                        None => Seq::empty(),
                    }
                }
            },
        }
    }
}

/// The diagnostics of the first `n` parts of the flow mapping `[a, b)`.
pub open spec fn flow_map_diags(s: Seq<char>, o: Seq<usize>, a: int, b: int, n: int) -> Seq<crate::diagnostic::DiagnosticView>
    decreases b - a, 1int, n,
{
    if a < 0 || b <= a || b > s.len() || n <= 0 || n > flow_parts_of(s, a, b).len() {
        Seq::empty()
    } else {
        let parts = flow_parts_of(s, a, b);
        let (ts, te) = trim_part(s, parts[n - 1]);
        proof {
            lemma_part_bounds(s, a, b, n - 1);
        }
        flow_map_diags(s, o, a, b, n - 1) + if ts < te {
            flow_part_diags(s, o, flow_map_walk(s, o, parts, n - 1), ts, te)
        } else {
            Seq::empty()
        }
    }
}

/// The entry `e` is what reading the flow mapping entry `d` gives.
pub open spec fn flow_entry_ok(e: FmEntry, s: Seq<char>, o: Seq<usize>, d: FlowEntryDesc) -> bool {
    let key_span = Span { start: o[d.ka], end: o[d.kb] };
    &&& e.key.span == key_span
    &&& if d.rejected_key {
        &&& e.key.text@ == s.subrange(d.ka, d.kb)
        &&& !e.key.quoted
        &&& e.value == (FmValue::Rejected { span: key_span })
    } else {
        &&& e.key.text@ == scalar_text(s, d.ka, d.kb).0
        &&& e.key.quoted == scalar_text(s, d.ka, d.kb).1
        &&& match d.value {
            None => e.value == (FmValue::Empty { span: key_span }),
            Some((va, vb)) => inline_value(e.value, s, o, va, vb),
        }
    }
}

pub proof fn lemma_flow_first_seen(
    s: Seq<char>,
    o: Seq<usize>,
    ds: Seq<FlowEntryDesc>,
    entries: Seq<FmEntry>,
    key: Seq<char>,
    i: int,
)
    requires
        0 <= i <= ds.len(),
        entries.len() == ds.len(),
        forall|j: int| 0 <= j < entries.len() ==> flow_entry_ok(#[trigger] entries[j], s, o, ds[j]),
    ensures
        first_seen_spec(entries, key, i) == flow_first_seen(s, o, ds, key, i),
    decreases ds.len() - i,
{
    if i < ds.len() {
        assert(flow_entry_ok(entries[i], s, o, ds[i]));
        let d = ds[i];
        if !d.rejected_key {
            match d.value {
                Some((va, vb)) => {
                    if value_feature(s[va]) is None {
                        assert(!(entries[i].value is Rejected));
                    }
                },
                None => {},
            }
        }
        lemma_flow_first_seen(s, o, ds, entries, key, i + 1);
    }
}

/// The trimmed parts among the first `n` that hold something: the items of a flow sequence.
pub open spec fn kept_parts(s: Seq<char>, parts: Seq<(int, int)>, n: int) -> Seq<(int, int)>
    decreases n,
{
    if n <= 0 || n > parts.len() {
        Seq::empty()
    } else {
        let t = trim_part(s, parts[n - 1]);
        kept_parts(s, parts, n - 1) + if t.0 < t.1 {
            seq![t]
        } else {
            Seq::empty()
        }
    }
}

/// The value `v` is what reading the inline value `[a, b)` gives.
pub open spec fn inline_value(v: FmValue, s: Seq<char>, o: Seq<usize>, a: int, b: int) -> bool
    decreases v,
{
    let span = Span { start: o[a], end: o[b] };
    if value_feature(s[a]) is Some {
        v == (FmValue::Rejected { span })
    } else if s[a] == '[' {
        match v {
            FmValue::Sequence { items, span: sp } => {
                let kept = kept_parts(s, flow_parts_of(s, a, b), flow_parts_of(s, a, b).len() as int);
                &&& sp == span
                &&& items@.len() == kept.len()
                &&& forall|k: int|
                    0 <= k < items@.len() ==> {
                        proof {
                            assert(decreases_to!(v => items@[k]));
                        }
                        inline_value(#[trigger] items@[k], s, o, kept[k].0, kept[k].1)
                    }
            },
            _ => false,
        }
    } else if s[a] == '{' {
        match v {
            FmValue::Mapping { entries, span: sp } => {
                let parts = flow_parts_of(s, a, b);
                let w = flow_map_walk(s, o, parts, parts.len() as int);
                &&& sp == span
                &&& entries@.len() == w.len()
                &&& forall|k: int|
                    0 <= k < entries@.len() ==> {
                        let e = #[trigger] entries@[k];
                        let d = w[k];
                        let key_span = Span { start: o[d.ka], end: o[d.kb] };
                        &&& e.key.span == key_span
                        &&& if d.rejected_key {
                            &&& e.key.text@ == s.subrange(d.ka, d.kb)
                            &&& !e.key.quoted
                            &&& e.value == (FmValue::Rejected { span: key_span })
                        } else {
                            &&& e.key.text@ == scalar_text(s, d.ka, d.kb).0
                            &&& e.key.quoted == scalar_text(s, d.ka, d.kb).1
                            &&& match d.value {
                                None => e.value == (FmValue::Empty { span: key_span }),
                                Some((va, vb)) => {
                                    proof {
                                        assert(decreases_to!(v => entries@[k]));
                                        assert(decreases_to!(entries@[k] => entries@[k].value));
                                    }
                                    inline_value(e.value, s, o, va, vb)
                                },
                            }
                        }
                    }
            },
            _ => false,
        }
    } else {
        v matches FmValue::Scalar(sc) && sc.text@ == scalar_text(s, a, b).0 && sc.quoted == scalar_text(s, a, b).1
            && sc.span == span
    }
}

fn duplicate_key(key: &FmScalar, first: usize) -> (d: Diagnostic)
    ensures
        d@ == crate::diagnostic::with_argument_view(
            crate::diagnostic::with_argument_view(
                crate::diagnostic::error_view(
                    DUPLICATE_KEY@,
                    "ko.frontmatter.duplicate_key"@,
                    key.span,
                ),
                "key"@,
                key.text@,
            ),
            "first"@,
            crate::text::decimal_spec(first as nat),
        ),
{
    let first_text = crate::text::decimal(first);
    Diagnostic::error(DUPLICATE_KEY, "ko.frontmatter.duplicate_key", key.span).with_argument(
        "key",
        key.text.as_str(),
    ).with_argument("first", first_text.as_str())
}

} // verus!

verus! {

/// Size measure of a run of lines: each line counts its characters plus one.
pub open spec fn weight(ls: Seq<FmLine>) -> nat
    decreases ls.len(),
{
    if ls.len() == 0 {
        0
    } else {
        weight(ls.drop_last()) + line_weight(ls.last())
    }
}

pub open spec fn line_weight(l: FmLine) -> nat {
    (if l.end > l.start {
        (l.end - l.start) as nat
    } else {
        0nat
    }) + 1
}

pub proof fn lemma_weight_concat(a: Seq<FmLine>, b: Seq<FmLine>)
    ensures
        weight(a + b) == weight(a) + weight(b),
    decreases b.len(),
{
    if b.len() == 0 {
        assert(a + b =~= a);
    } else {
        assert((a + b).drop_last() =~= a + b.drop_last());
        lemma_weight_concat(a, b.drop_last());
    }
}

/// Dropping the first line of a nonempty run makes it lighter, and any inner run weighs no
/// more than the run around it.
pub proof fn lemma_weight_sub(ls: Seq<FmLine>, lo: int, mid: int, hi: int)
    requires
        0 <= lo <= mid <= hi <= ls.len(),
    ensures
        weight(ls.subrange(mid, hi)) <= weight(ls.subrange(lo, hi)),
        lo < mid ==> weight(ls.subrange(mid, hi)) < weight(ls.subrange(lo, hi)),
{
    assert(ls.subrange(lo, hi) =~= ls.subrange(lo, mid) + ls.subrange(mid, hi));
    lemma_weight_concat(ls.subrange(lo, mid), ls.subrange(mid, hi));
    if lo < mid {
        let pre = ls.subrange(lo, mid);
        assert(pre =~= seq![ls[lo]] + ls.subrange(lo + 1, mid));
        lemma_weight_concat(seq![ls[lo]], ls.subrange(lo + 1, mid));
        assert(seq![ls[lo]].drop_last() =~= Seq::<FmLine>::empty());
    }
}

pub proof fn lemma_weight_within(ls: Seq<FmLine>, lo: int, c: int, e: int, hi: int)
    requires
        0 <= lo <= c <= e <= hi <= ls.len(),
    ensures
        weight(ls.subrange(c, e)) <= weight(ls.subrange(lo, hi)),
        c + 1 <= e ==> weight(ls.subrange(c + 1, e)) < weight(ls.subrange(lo, hi)),
{
    assert(ls.subrange(lo, hi) =~= ls.subrange(lo, c) + ls.subrange(c, e) + ls.subrange(e, hi));
    lemma_weight_concat(ls.subrange(lo, c), ls.subrange(c, e));
    lemma_weight_concat(ls.subrange(lo, c) + ls.subrange(c, e), ls.subrange(e, hi));
    if c + 1 <= e {
        lemma_weight_sub(ls, c, c + 1, e);
    }
}

/// First index in `[from, hi)` of a line no deeper than `indent`, or `hi`.
pub open spec fn extent(ls: Seq<FmLine>, from: int, hi: int, indent: usize) -> int
    decreases hi - from,
{
    if from >= hi {
        hi
    } else if ls[from].indent <= indent {
        from
    } else {
        extent(ls, from + 1, hi, indent)
    }
}

pub proof fn lemma_extent(ls: Seq<FmLine>, from: int, hi: int, indent: usize)
    requires
        from <= hi,
    ensures
        from <= extent(ls, from, hi, indent) <= hi,
    decreases hi - from,
{
    if from < hi && ls[from].indent > indent {
        lemma_extent(ls, from + 1, hi, indent);
    }
}

/// The lines that belong to the item at `start`: every deeper line after it.
fn child_extent(lines: &Vec<FmLine>, start: usize, hi: usize, indent: usize) -> (e: usize)
    requires
        start < hi <= lines@.len(),
    ensures
        e == extent(lines@, start + 1, hi as int, indent),
        start < e <= hi,
{
    proof {
        lemma_extent(lines@, start + 1, hi as int, indent);
    }
    let mut i: usize = start + 1;
    while i < hi && lines[i].indent > indent
        invariant
            start < i <= hi <= lines@.len(),
            extent(lines@, start + 1, hi as int, indent) == extent(lines@, i as int, hi as int, indent),
        decreases hi - i,
    {
        i = i + 1;
    }
    i
}

/// The lines a misindented line takes with it: its own children, measured from the deeper of
/// its own indentation and the block's.
fn dropped_extent(lines: &Vec<FmLine>, start: usize, hi: usize, indent: usize) -> (e: usize)
    requires
        start < hi <= lines@.len(),
    ensures
        e == extent(
            lines@,
            start + 1,
            hi as int,
            if lines@[start as int].indent > indent {
                lines@[start as int].indent
            } else {
                indent
            },
        ),
        start < e <= hi,
{
    let own = lines[start].indent;
    child_extent(lines, start, hi, if own > indent { own } else { indent })
}

fn report_inconsistent_indent(line: &FmLine, diagnostics: &mut Vec<Diagnostic>)
    ensures
        diagnostics_view(final(diagnostics)@) == diagnostics_view(old(diagnostics)@).push(
            crate::diagnostic::error_view(
                INCONSISTENT_INDENT@,
                "ko.frontmatter.inconsistent_indent"@,
                Span { start: line.offset, end: line.offset_end },
            ),
        ),
{
    push_diagnostic(
        diagnostics,
        Diagnostic::error(INCONSISTENT_INDENT, "ko.frontmatter.inconsistent_indent", line.span()),
    );
}

/// Reads a block of lines: a sequence when its first line is a sequence item, a mapping
/// otherwise, and an empty place when there are no lines.
fn parse_block(
    text: &SourceText,
    lines: &Vec<FmLine>,
    lo: usize,
    hi: usize,
    fallback: Span,
    diagnostics: &mut Vec<Diagnostic>,
) -> (v: FmValue)
    requires
        text.wf(),
        lo <= hi <= lines@.len(),
        lines_wf(text, lines@),
    ensures
        lo == hi ==> v == (FmValue::Empty { span: fallback }),
        lo < hi ==> v.span_of() == (Span {
            start: lines@[lo as int].offset,
            end: lines@[hi - 1].offset_end,
        }),
        lo < hi ==> (v is Sequence <==> sequence_item(
            text.chars@,
            lines@[lo as int].start as int,
            lines@[lo as int].end as int,
        )),
        lo < hi ==> (v is Sequence || v is Mapping),
        block_value(v, text, lines@, lo as int, hi as int, fallback),
        diagnostics_view(final(diagnostics)@) == diagnostics_view(old(diagnostics)@) + block_diags(
            text,
            lines@,
            lo as int,
            hi as int,
        ),
    decreases weight(lines@.subrange(lo as int, hi as int)), 1int,
{
    if lo == hi {
        return FmValue::Empty { span: fallback };
    }
    let first = lines[lo];
    let span = Span { start: first.offset, end: lines[hi - 1].offset_end };
    proof {
        assert(first == lines@[lo as int]);
    }
    if is_sequence_item(&text.chars, first.start, first.end) {
        let items = parse_sequence(text, lines, lo, hi, first.indent, diagnostics);
        let v = FmValue::Sequence { items, span };
        proof {
            let w = sequence_walk(text.chars@, lines@, hi as int, first.indent, lo as int);
            assert(forall|k: int| 0 <= k < items@.len() ==> item_shape(#[trigger] items@[k], text, lines@, w[k]));
        }
        v
    } else {
        let entries = parse_mapping(text, lines, lo, hi, first.indent, diagnostics);
        let v = FmValue::Mapping { entries, span };
        proof {
            let w = mapping_walk(text, lines@, hi as int, first.indent, lo as int, Seq::empty());
            assert(forall|k: int| 0 <= k < entries@.len() ==> entry_shape(#[trigger] entries@[k], text, lines@, w[k]));
        }
        v
    }
}

/// The lines of a sequence item whose first value is written on the item's own line after
/// `- `: that rest of the line, standing at its own column, followed by the item's children.
pub open spec fn inline_block_spec(text: &SourceText, lines: Seq<FmLine>, cursor: int, end: int, rest: int) -> Seq<FmLine> {
    let line = lines[cursor];
    seq![
        FmLine {
            indent: (line.indent + (rest - line.start)) as usize,
            start: rest as usize,
            end: line.end,
            offset: text.offsets@[rest],
            offset_end: line.offset_end,
        },
    ] + lines.subrange(cursor + 1, end)
}

fn inline_block(text: &SourceText, lines: &Vec<FmLine>, cursor: usize, end: usize, rest: usize) -> (block: Vec<FmLine>)
    requires
        text.wf(),
        cursor < end <= lines@.len(),
        lines_wf(text, lines@),
        lines@[cursor as int].start < rest < lines@[cursor as int].end,
    ensures
        lines_wf(text, block@),
        weight(block@.subrange(0, block@.len() as int)) < weight(lines@.subrange(cursor as int, end as int)),
        block@ == inline_block_spec(text, lines@, cursor as int, end as int, rest as int),
{
    let line = lines[cursor];
    let inline = FmLine {
        indent: line.indent + (rest - line.start),
        start: rest,
        end: line.end,
        offset: text.at(rest),
        offset_end: line.offset_end,
    };
    let mut block: Vec<FmLine> = Vec::new();
    block.push(inline);
    let mut j: usize = cursor + 1;
    while j < end
        invariant
            cursor < j <= end <= lines@.len(),
            block@ == seq![inline] + lines@.subrange(cursor + 1, j as int),
        decreases end - j,
    {
        block.push(lines[j]);
        j = j + 1;
        proof {
            assert(block@ =~= seq![inline] + lines@.subrange(cursor + 1, j as int));
        }
    }
    proof {
        assert(block@.subrange(0, block@.len() as int) =~= block@);
        lemma_weight_concat(seq![inline], lines@.subrange(cursor + 1, end as int));
        lemma_weight_concat(seq![line], lines@.subrange(cursor + 1, end as int));
        assert(seq![inline].drop_last() =~= Seq::<FmLine>::empty());
        assert(seq![line].drop_last() =~= Seq::<FmLine>::empty());
        assert(lines@.subrange(cursor as int, end as int) =~= seq![line] + lines@.subrange(
            cursor + 1,
            end as int,
        ));
        assert forall|k: int| 0 <= k < block@.len() implies (#[trigger] block@[k]).wf_in(text)
            && block@[k].indent <= block@[k].start by {
            if k > 0 {
                assert(block@[k] == lines@[cursor + k]);
            }
        }
    }
    block
}

/// The first index from `i` on that is not a space before `end`.
pub open spec fn skip_spaces(s: Seq<char>, i: int, end: int) -> int
    decreases end - i,
{
    if i < end && s[i] == ' ' {
        skip_spaces(s, i + 1, end)
    } else {
        i
    }
}

/// What [`parse_block`] promises of the value it reads from lines `[lo, hi)`.
pub open spec fn block_shape(v: FmValue, s: Seq<char>, lines: Seq<FmLine>, lo: int, hi: int, fallback: Span) -> bool {
    &&& lo <= hi
    &&& lo == hi ==> v == (FmValue::Empty { span: fallback })
    &&& lo < hi ==> v.span_of() == (Span { start: lines[lo].offset, end: lines[hi - 1].offset_end })
    &&& lo < hi ==> (v is Sequence <==> sequence_item(s, lines[lo].start as int, lines[lo].end as int))
    &&& lo < hi ==> (v is Sequence || v is Mapping)
}

/// The items of a sequence block, as `(line, end of its children, start of an inline value)`
/// for each item line at `indent` from `cursor` on. A line at another indentation is dropped
/// with its children; a line at `indent` that is no sequence item is dropped alone.
pub open spec fn sequence_walk(s: Seq<char>, lines: Seq<FmLine>, hi: int, indent: usize, cursor: int) -> Seq<(int, int, int)>
    decreases hi - cursor,
{
    if cursor < 0 || cursor >= hi || hi > lines.len() {
        Seq::empty()
    } else {
        let line = lines[cursor];
        if line.indent != indent {
            let deeper = if line.indent > indent {
                line.indent
            } else {
                indent
            };
            proof {
                lemma_extent(lines, cursor + 1, hi, deeper);
            }
            sequence_walk(s, lines, hi, indent, extent(lines, cursor + 1, hi, deeper))
        } else if !sequence_item(s, line.start as int, line.end as int) {
            sequence_walk(s, lines, hi, indent, cursor + 1)
        } else {
            proof {
                lemma_extent(lines, cursor + 1, hi, indent);
            }
            let e = extent(lines, cursor + 1, hi, indent);
            seq![(cursor, e, skip_spaces(s, line.start + 1, line.end as int))] + sequence_walk(
                s,
                lines,
                hi,
                indent,
                e,
            )
        }
    }
}

/// The item read for the walk step `(c, e, r)`: the value written after `- ` on the item's
/// line, with the item's children below it, or, when the line holds nothing more, the block
/// of its children.
pub open spec fn item_shape(v: FmValue, text: &SourceText, lines: Seq<FmLine>, step: (int, int, int)) -> bool
    decreases v, 1int,
{
    let (c, e, r) = step;
    if 0 <= c < lines.len() {
        let line = lines[c];
        let span = Span { start: line.offset, end: line.offset_end };
        if r < line.end {
            block_value(v, text, inline_block_spec(text, lines, c, e, r), 0, e - c, span)
        } else {
            block_value(v, text, lines, c + 1, e, span)
        }
    } else {
        false
    }
}

/// The value `v` is what reading the lines `[lo, hi)` as a block gives: its shape, and each of
/// its items or entries as the walk of the block describes it.
pub open spec fn block_value(v: FmValue, text: &SourceText, lines: Seq<FmLine>, lo: int, hi: int, fallback: Span) -> bool
    decreases v, 0int,
{
    &&& block_shape(v, text.chars@, lines, lo, hi, fallback)
    &&& (0 <= lo < hi <= lines.len()) ==> match v {
        FmValue::Sequence { items, .. } => {
            let w = sequence_walk(text.chars@, lines, hi, lines[lo].indent, lo);
            &&& items@.len() == w.len()
            &&& forall|k: int|
                0 <= k < items@.len() ==> {
                    proof {
                        assert(decreases_to!(v => items@[k]));
                    }
                    item_shape(#[trigger] items@[k], text, lines, w[k])
                }
        },
        FmValue::Mapping { entries, .. } => {
            let w = mapping_walk(text, lines, hi, lines[lo].indent, lo, Seq::empty());
            &&& entries@.len() == w.len()
            &&& forall|k: int|
                0 <= k < entries@.len() ==> {
                    proof {
                        assert(decreases_to!(v => entries@[k].value));
                    }
                    entry_shape(#[trigger] entries@[k], text, lines, w[k])
                }
        },
        _ => true,
    }
}

/// Reads the items of a sequence block whose items stand at `indent`.
#[verifier::spinoff_prover]
#[verifier::rlimit(100)]
fn parse_sequence(
    text: &SourceText,
    lines: &Vec<FmLine>,
    lo: usize,
    hi: usize,
    indent: usize,
    diagnostics: &mut Vec<Diagnostic>,
) -> (items: Vec<FmValue>)
    requires
        text.wf(),
        lo <= hi <= lines@.len(),
        lines_wf(text, lines@),
    ensures
        ({
            let w = sequence_walk(text.chars@, lines@, hi as int, indent, lo as int);
            &&& items@.len() == w.len()
            &&& forall|k: int| 0 <= k < items@.len() ==> #[trigger] item_shape(items@[k], text, lines@, w[k])
        }),
        diagnostics_view(final(diagnostics)@) == diagnostics_view(old(diagnostics)@) + seq_diags(
            text,
            lines@,
            hi as int,
            indent,
            lo as int,
        ),
    decreases weight(lines@.subrange(lo as int, hi as int)), 0int,
{
    let ghost d0 = diagnostics_view(diagnostics@);
    let ghost total = seq_diags(text, lines@, hi as int, indent, lo as int);
    let mut items: Vec<FmValue> = Vec::new();
    let mut cursor: usize = lo;
    let ghost mut done: Seq<(int, int, int)> = Seq::empty();
    proof {
        assert(done + sequence_walk(text.chars@, lines@, hi as int, indent, lo as int) =~= sequence_walk(
            text.chars@,
            lines@,
            hi as int,
            indent,
            lo as int,
        ));
    }
    while cursor < hi
        invariant
            text.wf(),
            lo <= cursor <= hi <= lines@.len(),
            lines_wf(text, lines@),
            done + sequence_walk(text.chars@, lines@, hi as int, indent, cursor as int)
                == sequence_walk(text.chars@, lines@, hi as int, indent, lo as int),
            items@.len() == done.len(),
            forall|k: int| 0 <= k < items@.len() ==> #[trigger] item_shape(items@[k], text, lines@, done[k]),
            total == seq_diags(text, lines@, hi as int, indent, lo as int),
            d0 + total == diagnostics_view(diagnostics@) + seq_diags(text, lines@, hi as int, indent, cursor as int),
        decreases hi - cursor,
    {
        let line = lines[cursor];
        let ghost dprev = diagnostics_view(diagnostics@);
        let ghost rest_before = seq_diags(text, lines@, hi as int, indent, cursor as int);
        proof {
            assert(line == lines@[cursor as int]);
            assert(lines@[cursor as int].wf_in(text));
        }
        if line.indent != indent {
            report_inconsistent_indent(&line, diagnostics);
            let next = dropped_extent(lines, cursor, hi, indent);
            proof {
                assert(rest_before == seq![inconsistent_view(Span { start: line.offset, end: line.offset_end })] + seq_diags(
                    text,
                    lines@,
                    hi as int,
                    indent,
                    next as int,
                ));
                assert(diagnostics_view(diagnostics@) + seq_diags(text, lines@, hi as int, indent, next as int)
                    =~= dprev + rest_before);
                assert(sequence_walk(text.chars@, lines@, hi as int, indent, cursor as int)
                    == sequence_walk(text.chars@, lines@, hi as int, indent, next as int));
            }
            cursor = next;
            continue;
        }
        if !is_sequence_item(&text.chars, line.start, line.end) {
            push_diagnostic(diagnostics, structure_error(line.span(), "sequence_item"));
            proof {
                reveal_strlit("sequence_item");
                assert(rest_before == seq![structure_error_view(Span { start: line.offset, end: line.offset_end }, "sequence_item"@)] + seq_diags(
                    text,
                    lines@,
                    hi as int,
                    indent,
                    cursor + 1,
                ));
                assert(diagnostics_view(diagnostics@) + seq_diags(text, lines@, hi as int, indent, cursor + 1)
                    =~= dprev + rest_before);
                assert(sequence_walk(text.chars@, lines@, hi as int, indent, cursor as int)
                    == sequence_walk(text.chars@, lines@, hi as int, indent, cursor + 1));
            }
            cursor = cursor + 1;
            continue;
        }
        let end = child_extent(lines, cursor, hi, indent);
        proof {
            lemma_weight_within(lines@, lo as int, cursor as int, end as int, hi as int);
        }
        let mut rest: usize = line.start + 1;
        while rest < line.end && text.chars[rest] == ' '
            invariant
                line.start < rest <= line.end <= text.chars@.len(),
                skip_spaces(text.chars@, line.start + 1, line.end as int) == skip_spaces(
                    text.chars@,
                    rest as int,
                    line.end as int,
                ),
            decreases line.end - rest,
        {
            rest = rest + 1;
        }
        let ghost step = (cursor as int, end as int, rest as int);
        let value = if rest < line.end {
            let block = inline_block(text, lines, cursor, end, rest);
            let v = parse_block(text, &block, 0, block.len(), line.span(), diagnostics);
            proof {
                assert(block@.len() == end - cursor);
                assert(rest_before == block_diags(text, block@, 0, block@.len() as int) + seq_diags(
                    text,
                    lines@,
                    hi as int,
                    indent,
                    end as int,
                ));
                assert(diagnostics_view(diagnostics@) + seq_diags(text, lines@, hi as int, indent, end as int)
                    =~= dprev + rest_before);
                assert(item_shape(v, text, lines@, step));
            }
            v
        } else {
            let v = parse_block(text, lines, cursor + 1, end, line.span(), diagnostics);
            proof {
                assert(rest_before == block_diags(text, lines@, cursor + 1, end as int) + seq_diags(
                    text,
                    lines@,
                    hi as int,
                    indent,
                    end as int,
                ));
                assert(diagnostics_view(diagnostics@) + seq_diags(text, lines@, hi as int, indent, end as int)
                    =~= dprev + rest_before);
                assert(item_shape(v, text, lines@, step));
            }
            v
        };
        let ghost before = items@;
        items.push(value);
        proof {
            let rest_walk = sequence_walk(text.chars@, lines@, hi as int, indent, end as int);
            assert(sequence_walk(text.chars@, lines@, hi as int, indent, cursor as int) == seq![step]
                + rest_walk);
            assert(done.push(step) + rest_walk =~= done + (seq![step] + rest_walk));
            done = done.push(step);
            assert forall|k: int| 0 <= k < items@.len() implies #[trigger] item_shape(items@[k], text, lines@, done[k]) by {
                if k < before.len() {
                    assert(items@[k] == before[k]);
                }
            }
        }
        cursor = end;
    }
    proof {
        assert(done + Seq::<(int, int, int)>::empty() =~= done);
        assert(diagnostics_view(diagnostics@) + seq_diags(text, lines@, hi as int, indent, cursor as int)
            =~= diagnostics_view(diagnostics@));
    }
    items
}

/// The key of `[a, b)` trimmed on both sides: the key that [`split_key_spec`] finds, without
/// its leading white space, when anything is left of it.
pub open spec fn trimmed_key_spec(s: Seq<char>, a: int, b: int) -> Option<(int, int)> {
    match split_key_spec(s, a, b) {
        Some(((ka, kb), _)) => {
            let p = first_visible(s, ka, kb);
            if p < kb {
                Some((p, kb))
            } else {
                None
            }
        },
        None => None,
    }
}

/// The key of `[a, b)` trimmed on both sides, when it reads as a key at all.
fn trimmed_key(chars: &[char], a: usize, b: usize) -> (r: Option<(usize, usize)>)
    requires
        a <= b <= chars@.len(),
    ensures
        r matches Some((p, q)) ==> a <= p < q <= b,
        match r {
            Some((p, q)) => trimmed_key_spec(chars@, a as int, b as int) == Some((p as int, q as int)),
            None => trimmed_key_spec(chars@, a as int, b as int) is None,
        },
{
    match split_key(chars, a, b) {
        Some(((ka, kb), _)) => {
            let p = first_visible_exec(chars, ka, kb);
            proof {
                lemma_first_visible(chars@, ka as int, kb as int);
            }
            if p < kb {
                Some((p, kb))
            } else {
                None
            }
        },
        None => None,
    }
}

/// The keys among lines `[lo, i)` that stand at `level` and are no sequence items, each with
/// its text and its span: from the line's first byte, as many bytes as the key has.
pub open spec fn overdeep_keys(text: &SourceText, lines: Seq<FmLine>, lo: int, level: usize, i: int) -> Seq<(Seq<char>, Span)>
    decreases i - lo,
{
    if i <= lo {
        Seq::empty()
    } else {
        let rest = overdeep_keys(text, lines, lo, level, i - 1);
        let line = lines[i - 1];
        if line.indent != level || sequence_item(text.chars@, line.start as int, line.end as int) {
            rest
        } else {
            match trimmed_key_spec(text.chars@, line.start as int, line.end as int) {
                Some((p, q)) => rest.push(
                    (
                        text.chars@.subrange(p, q),
                        Span {
                            start: line.offset,
                            end: (line.offset + (text.offsets@[q] - text.offsets@[p])) as usize,
                        },
                    ),
                ),
                None => rest,
            }
        }
    }
}

/// The diagnostics for keys indented too deep, one per key, naming it.
pub open spec fn overdeep_diagnostics(keys: Seq<(Seq<char>, Span)>) -> Seq<crate::diagnostic::DiagnosticView> {
    keys.map_values(
        |k: (Seq<char>, Span)|
            crate::diagnostic::with_argument_view(
                crate::diagnostic::error_view(
                    KEY_INDENTED_TOO_DEEP@,
                    "ko.frontmatter.key_indented_too_deep"@,
                    k.1,
                ),
                "key"@,
                k.0,
            ),
    )
}

/// `e` is the rejected place left for the key `k`: unquoted, the value rejected at the
/// key's span.
pub open spec fn is_slot(e: FmEntry, k: (Seq<char>, Span)) -> bool {
    &&& e.key.text@ == k.0
    &&& !e.key.quoted
    &&& e.key.span == k.1
    &&& e.value == (FmValue::Rejected { span: k.1 })
}

/// Entries for keys indented below a key that already has an inline value. The first level
/// of such lines is reported and each key left as a rejected place, so that whoever waits for
/// the key does not report it missing as well.
#[verifier::rlimit(60)]
fn overdeep_slots(
    text: &SourceText,
    lines: &Vec<FmLine>,
    lo: usize,
    hi: usize,
    diagnostics: &mut Vec<Diagnostic>,
) -> (slots: Vec<FmEntry>)
    requires
        text.wf(),
        lo <= hi <= lines@.len(),
        lines_wf(text, lines@),
    ensures
        forall|k: int| 0 <= k < slots@.len() ==> (#[trigger] slots@[k]).value is Rejected,
        lo < hi ==> ({
            let keys = overdeep_keys(text, lines@, lo as int, lines@[lo as int].indent, hi as int);
            &&& slots@.len() == keys.len()
            &&& forall|k: int| 0 <= k < slots@.len() ==> #[trigger] is_slot(slots@[k], keys[k])
            &&& diagnostics_view(final(diagnostics)@) == diagnostics_view(old(diagnostics)@)
                + overdeep_diagnostics(keys)
        }),
        lo == hi ==> slots@.len() == 0 && final(diagnostics)@ == old(diagnostics)@,
{
    let mut slots: Vec<FmEntry> = Vec::new();
    if lo == hi {
        return slots;
    }
    let level = lines[lo].indent;
    let mut i: usize = lo;
    let ghost mut keys: Seq<(Seq<char>, Span)> = Seq::empty();
    proof {
        assert(diagnostics_view(diagnostics@) + overdeep_diagnostics(keys) =~= diagnostics_view(
            diagnostics@,
        ));
    }
    while i < hi
        invariant
            text.wf(),
            lo <= i <= hi <= lines@.len(),
            lines_wf(text, lines@),
            forall|k: int| 0 <= k < slots@.len() ==> (#[trigger] slots@[k]).value is Rejected,
            lo < hi,
            level == lines@[lo as int].indent,
            keys == overdeep_keys(text, lines@, lo as int, level, i as int),
            slots@.len() == keys.len(),
            diagnostics_view(diagnostics@) == diagnostics_view(old(diagnostics)@) + overdeep_diagnostics(keys),
            forall|k: int| 0 <= k < slots@.len() ==> #[trigger] is_slot(slots@[k], keys[k]),
        decreases hi - i,
    {
        let line = lines[i];
        let ghost before = slots@;
        let ghost keys0 = keys;
        proof {
            assert(line == lines@[i as int]);
        }
        i = i + 1;
        if line.indent != level || is_sequence_item(&text.chars, line.start, line.end) {
            proof {
                assert(overdeep_keys(text, lines@, lo as int, level, i as int) == keys0);
            }
            continue;
        }
        let tk = trimmed_key(&text.chars, line.start, line.end);
        proof {
            assert(line.start <= line.end <= text.chars@.len()) by {
                assert(lines@[i - 1].wf_in(text));
            }
        }
        match tk {
            Some((p, q)) => {
                proof {
                    crate::text::lemma_byte_pos_monotone(text.chars@, p as int, q as int);
                    crate::text::lemma_byte_pos_monotone(text.chars@, line.start as int, p as int);
                    crate::text::lemma_byte_pos_monotone(text.chars@, q as int, text.chars@.len() as int);
                    assert(text.chars@.take(text.chars@.len() as int) =~= text.chars@);
                }
                let key_span = Span {
                    start: line.offset,
                    end: line.offset + (text.at(q) - text.at(p)),
                };
                let key_text = string_of(&text.chars, p, q);
                let ghost dbefore = diagnostics_view(diagnostics@);
                push_diagnostic(
                    diagnostics,
                    Diagnostic::error(
                        KEY_INDENTED_TOO_DEEP,
                        "ko.frontmatter.key_indented_too_deep",
                        key_span,
                    ).with_argument("key", key_text.as_str()),
                );
                slots.push(
                    FmEntry {
                        key: FmScalar { text: key_text, quoted: false, span: key_span },
                        value: FmValue::Rejected { span: key_span },
                    },
                );
                proof {
                    keys = keys0.push((text.chars@.subrange(p as int, q as int), key_span));
                    assert(keys == overdeep_keys(text, lines@, lo as int, level, i as int));
                    assert(overdeep_diagnostics(keys) =~= overdeep_diagnostics(keys0).push(
                        diagnostics_view(diagnostics@).last(),
                    ));
                    assert(diagnostics_view(diagnostics@) =~= diagnostics_view(old(diagnostics)@)
                        + overdeep_diagnostics(keys));
                    assert forall|k: int| 0 <= k < slots@.len() implies #[trigger] is_slot(slots@[k], keys[k]) by {
                        if k < before.len() {
                            assert(slots@[k] == before[k]);
                        }
                    }
                }
            },
            None => {
                proof {
                    assert(overdeep_keys(text, lines@, lo as int, level, i as int) == keys0);
                }
            },
        }
    }
    slots
}

/// What an entry's value will be read as: a rejected place, the block of lines `[lo, hi)`
/// (with the given span when it is empty), or the inline value written in `[a, b)`.
pub enum ValueDesc {
    Rejected(Span),
    Block(int, int, Span),
    Inline(int, int),
}

/// An entry as the mapping walk describes it: the key's text, whether it was quoted, its span,
/// and what its value is read as.
pub struct EntryDesc {
    pub key: Seq<char>,
    pub quoted: bool,
    pub span: Span,
    pub value: ValueDesc,
}

/// Whether the value will be a live one, not a rejected place.
pub open spec fn desc_live(s: Seq<char>, d: EntryDesc) -> bool {
    match d.value {
        ValueDesc::Rejected(_) => false,
        ValueDesc::Block(..) => true,
        ValueDesc::Inline(a, _) => value_feature(s[a]) is None,
    }
}

/// Whether a live entry with the key text `key` is already among `acc`.
pub open spec fn has_live_key(s: Seq<char>, acc: Seq<EntryDesc>, key: Seq<char>) -> bool {
    exists|k: int| 0 <= k < acc.len() && (#[trigger] acc[k]).key == key && desc_live(s, acc[k])
}

/// The rejected places left for keys indented too deep.
pub open spec fn slot_descs(keys: Seq<(Seq<char>, Span)>) -> Seq<EntryDesc> {
    keys.map_values(|k: (Seq<char>, Span)| EntryDesc { key: k.0, quoted: false, span: k.1, value: ValueDesc::Rejected(k.1) })
}

/// The entries of a mapping block whose keys stand at `indent`, read from line `cursor` on
/// after `acc`:
/// - a line at another indentation is dropped with its children, leaving a rejected place
///   for its key when it has one;
/// - a line without a key is dropped with its children;
/// - a key that opens with a refused YAML feature leaves a rejected place;
/// - otherwise the key takes the inline value after its colon, or else the block of its
///   children, unless a live entry already has that key; keys indented below an inline value
///   leave rejected places after it.
pub open spec fn mapping_walk(
    text: &SourceText,
    lines: Seq<FmLine>,
    hi: int,
    indent: usize,
    cursor: int,
    acc: Seq<EntryDesc>,
) -> Seq<EntryDesc>
    decreases hi - cursor,
{
    let s = text.chars@;
    if cursor < 0 || cursor >= hi || hi > lines.len() {
        acc
    } else {
        let line = lines[cursor];
        let lspan = Span { start: line.offset, end: line.offset_end };
        if line.indent != indent {
            let deeper = if line.indent > indent {
                line.indent
            } else {
                indent
            };
            proof {
                lemma_extent(lines, cursor + 1, hi, deeper);
            }
            let acc2 = if !sequence_item(s, line.start as int, line.end as int) && trimmed_key_spec(
                s,
                line.start as int,
                line.end as int,
            ) is Some {
                let (p, q) = trimmed_key_spec(s, line.start as int, line.end as int)->Some_0;
                acc.push(
                    EntryDesc {
                        key: s.subrange(p, q),
                        quoted: false,
                        span: lspan,
                        value: ValueDesc::Rejected(lspan),
                    },
                )
            } else {
                acc
            };
            mapping_walk(text, lines, hi, indent, extent(lines, cursor + 1, hi, deeper), acc2)
        } else {
            proof {
                lemma_extent(lines, cursor + 1, hi, indent);
            }
            let e = extent(lines, cursor + 1, hi, indent);
            match split_key_spec(s, line.start as int, line.end as int) {
                None => mapping_walk(text, lines, hi, indent, e, acc),
                Some(((ka, kb), (va, vb))) => {
                    let key_span = Span { start: line.offset, end: text.offsets@[kb] };
                    if key_feature(s[ka]) is Some {
                        mapping_walk(
                            text,
                            lines,
                            hi,
                            indent,
                            e,
                            acc.push(
                                EntryDesc {
                                    key: s.subrange(ka, kb),
                                    quoted: false,
                                    span: key_span,
                                    value: ValueDesc::Rejected(key_span),
                                },
                            ),
                        )
                    } else {
                        let (kt, kq) = scalar_text(s, ka, kb);
                        let value = if va == vb {
                            ValueDesc::Block(cursor + 1, e, lspan)
                        } else {
                            ValueDesc::Inline(va, vb)
                        };
                        let over = if va == vb || cursor + 1 >= e {
                            Seq::empty()
                        } else {
                            slot_descs(overdeep_keys(text, lines, cursor + 1, lines[cursor + 1].indent, e))
                        };
                        let acc2 = if has_live_key(s, acc, kt) {
                            acc
                        } else {
                            acc.push(EntryDesc { key: kt, quoted: kq, span: key_span, value })
                        };
                        mapping_walk(text, lines, hi, indent, e, acc2 + over)
                    }
                },
            }
        }
    }
}

/// `e` is the entry `d` describes, its value as the reader of that value promises it.
pub open spec fn entry_shape(e: FmEntry, text: &SourceText, lines: Seq<FmLine>, d: EntryDesc) -> bool
    decreases e.value, 1int,
{
    &&& e.key.text@ == d.key
    &&& e.key.quoted == d.quoted
    &&& e.key.span == d.span
    &&& match d.value {
        ValueDesc::Rejected(sp) => e.value == (FmValue::Rejected { span: sp }),
        ValueDesc::Block(lo, hi, fb) => block_value(e.value, text, lines, lo, hi, fb),
        ValueDesc::Inline(a, b) => e.value.span_of() == (Span {
            start: text.offsets@[a],
            end: text.offsets@[b],
        }) && inline_shape(text.chars@, a, b, e.value) && inline_value(
            e.value,
            text.chars@,
            text.offsets@,
            a,
            b,
        ),
    }
}

/// An entry is live exactly when its description says so.
proof fn lemma_entry_live(e: FmEntry, text: &SourceText, lines: Seq<FmLine>, d: EntryDesc)
    requires
        entry_shape(e, text, lines, d),
    ensures
        !(e.value is Rejected) <==> desc_live(text.chars@, d),
{
}

pub open spec fn inconsistent_view(span: Span) -> crate::diagnostic::DiagnosticView {
    crate::diagnostic::error_view(INCONSISTENT_INDENT@, "ko.frontmatter.inconsistent_indent"@, span)
}

/// Where the first live entry of `acc` from `i` on with the key `key` starts.
pub open spec fn desc_first_start(s: Seq<char>, acc: Seq<EntryDesc>, key: Seq<char>, i: int) -> Option<usize>
    decreases acc.len() - i,
{
    if i < 0 || i >= acc.len() {
        None
    } else if acc[i].key == key && desc_live(s, acc[i]) {
        Some(acc[i].span.start)
    } else {
        desc_first_start(s, acc, key, i + 1)
    }
}

pub proof fn lemma_inline_weight(text: &SourceText, lines: Seq<FmLine>, c: int, e: int, r: int)
    requires
        0 <= c < e <= lines.len(),
        lines[c].start < r < lines[c].end,
    ensures
        weight(inline_block_spec(text, lines, c, e, r)) < weight(lines.subrange(c, e)),
{
    let line = lines[c];
    let b = inline_block_spec(text, lines, c, e, r);
    let inline = b[0];
    assert(b =~= seq![inline] + lines.subrange(c + 1, e));
    lemma_weight_concat(seq![inline], lines.subrange(c + 1, e));
    lemma_weight_concat(seq![line], lines.subrange(c + 1, e));
    assert(seq![inline].drop_last() =~= Seq::<FmLine>::empty());
    assert(seq![line].drop_last() =~= Seq::<FmLine>::empty());
    assert(lines.subrange(c, e) =~= seq![line] + lines.subrange(c + 1, e));
}

/// The diagnostics of reading the lines `[lo, hi)` as a block.
pub open spec fn block_diags(text: &SourceText, lines: Seq<FmLine>, lo: int, hi: int) -> Seq<crate::diagnostic::DiagnosticView>
    decreases weight(lines.subrange(lo, hi)), 2int,
{
    if !(0 <= lo < hi <= lines.len()) {
        Seq::empty()
    } else if sequence_item(text.chars@, lines[lo].start as int, lines[lo].end as int) {
        seq_diags(text, lines, hi, lines[lo].indent, lo)
    } else {
        map_diags(text, lines, hi, lines[lo].indent, lo, Seq::empty())
    }
}

/// The diagnostics of the sequence block's lines from `cursor` on.
pub open spec fn seq_diags(text: &SourceText, lines: Seq<FmLine>, hi: int, indent: usize, cursor: int) -> Seq<
    crate::diagnostic::DiagnosticView,
>
    decreases weight(lines.subrange(cursor, hi)), 1int,
{
    let s = text.chars@;
    if cursor < 0 || cursor >= hi || hi > lines.len() {
        Seq::empty()
    } else {
        let line = lines[cursor];
        let lspan = Span { start: line.offset, end: line.offset_end };
        if line.indent != indent {
            let deeper = if line.indent > indent {
                line.indent
            } else {
                indent
            };
            proof {
                lemma_extent(lines, cursor + 1, hi, deeper);
                lemma_weight_sub(lines, cursor, extent(lines, cursor + 1, hi, deeper), hi);
            }
            seq![inconsistent_view(lspan)] + seq_diags(text, lines, hi, indent, extent(lines, cursor + 1, hi, deeper))
        } else if !sequence_item(s, line.start as int, line.end as int) {
            proof {
                lemma_weight_sub(lines, cursor, cursor + 1, hi);
            }
            seq![structure_error_view(lspan, "sequence_item"@)] + seq_diags(text, lines, hi, indent, cursor + 1)
        } else {
            proof {
                lemma_extent(lines, cursor + 1, hi, indent);
            }
            let e = extent(lines, cursor + 1, hi, indent);
            let r = skip_spaces(s, line.start + 1, line.end as int);
            proof {
                lemma_weight_sub(lines, cursor, e, hi);
                lemma_weight_within(lines, cursor, cursor, e, hi);
                if line.start < r < line.end {
                    lemma_inline_weight(text, lines, cursor, e, r);
                    assert(inline_block_spec(text, lines, cursor, e, r).subrange(0, e - cursor)
                        =~= inline_block_spec(text, lines, cursor, e, r));
                }
            }
            let nested = if line.start < r < line.end {
                block_diags(text, inline_block_spec(text, lines, cursor, e, r), 0, e - cursor)
            } else {
                block_diags(text, lines, cursor + 1, e)
            };
            nested + seq_diags(text, lines, hi, indent, e)
        }
    }
}

/// The diagnostics of the mapping block's lines from `cursor` on, after the entries `acc`.
pub open spec fn map_diags(
    text: &SourceText,
    lines: Seq<FmLine>,
    hi: int,
    indent: usize,
    cursor: int,
    acc: Seq<EntryDesc>,
) -> Seq<crate::diagnostic::DiagnosticView>
    decreases weight(lines.subrange(cursor, hi)), 1int,
{
    let s = text.chars@;
    if cursor < 0 || cursor >= hi || hi > lines.len() {
        Seq::empty()
    } else {
        let line = lines[cursor];
        let lspan = Span { start: line.offset, end: line.offset_end };
        if line.indent != indent {
            let deeper = if line.indent > indent {
                line.indent
            } else {
                indent
            };
            proof {
                lemma_extent(lines, cursor + 1, hi, deeper);
                lemma_weight_sub(lines, cursor, extent(lines, cursor + 1, hi, deeper), hi);
            }
            let acc2 = if !sequence_item(s, line.start as int, line.end as int) && trimmed_key_spec(
                s,
                line.start as int,
                line.end as int,
            ) is Some {
                let (p, q) = trimmed_key_spec(s, line.start as int, line.end as int)->Some_0;
                acc.push(EntryDesc { key: s.subrange(p, q), quoted: false, span: lspan, value: ValueDesc::Rejected(lspan) })
            } else {
                acc
            };
            seq![inconsistent_view(lspan)] + map_diags(text, lines, hi, indent, extent(lines, cursor + 1, hi, deeper), acc2)
        } else {
            proof {
                lemma_extent(lines, cursor + 1, hi, indent);
                lemma_weight_sub(lines, cursor, extent(lines, cursor + 1, hi, indent), hi);
                lemma_weight_within(lines, cursor, cursor, extent(lines, cursor + 1, hi, indent), hi);
            }
            let e = extent(lines, cursor + 1, hi, indent);
            match split_key_spec(s, line.start as int, line.end as int) {
                None => seq![structure_error_view(lspan, "mapping_entry"@)] + map_diags(text, lines, hi, indent, e, acc),
                Some(((ka, kb), (va, vb))) => {
                    let key_span = Span { start: line.offset, end: text.offsets@[kb] };
                    if key_feature(s[ka]) is Some {
                        seq![unsupported_view(key_span, key_feature(s[ka])->0)] + map_diags(
                            text,
                            lines,
                            hi,
                            indent,
                            e,
                            acc.push(
                                EntryDesc {
                                    key: s.subrange(ka, kb),
                                    quoted: false,
                                    span: key_span,
                                    value: ValueDesc::Rejected(key_span),
                                },
                            ),
                        )
                    } else {
                        let (kt, kq) = scalar_text(s, ka, kb);
                        let value = if va == vb {
                            ValueDesc::Block(cursor + 1, e, lspan)
                        } else {
                            ValueDesc::Inline(va, vb)
                        };
                        let over = if va == vb || cursor + 1 >= e {
                            Seq::empty()
                        } else {
                            slot_descs(overdeep_keys(text, lines, cursor + 1, lines[cursor + 1].indent, e))
                        };
                        let value_d = if va == vb {
                            block_diags(text, lines, cursor + 1, e)
                        } else {
                            (if cursor + 1 >= e {
                                Seq::empty()
                            } else {
                                overdeep_diagnostics(overdeep_keys(text, lines, cursor + 1, lines[cursor + 1].indent, e))
                            }) + inline_diags(s, text.offsets@, va, vb)
                        };
                        let dup = match desc_first_start(s, acc, kt, 0) {
                            Some(first) => seq![duplicate_view(kt, key_span, first as nat)],
                            None => Seq::empty(),
                        };
                        let acc2 = if has_live_key(s, acc, kt) {
                            acc
                        } else {
                            acc.push(EntryDesc { key: kt, quoted: kq, span: key_span, value })
                        };
                        scalar_diags(s, ka, kb, key_span) + value_d + dup + map_diags(text, lines, hi, indent, e, acc2 + over)
                    }
                },
            }
        }
    }
}

/// Reads the entries of a mapping block whose keys stand at `indent`.
#[verifier::spinoff_prover]
#[verifier::rlimit(100)]
fn parse_mapping(
    text: &SourceText,
    lines: &Vec<FmLine>,
    lo: usize,
    hi: usize,
    indent: usize,
    diagnostics: &mut Vec<Diagnostic>,
) -> (entries: Vec<FmEntry>)
    requires
        text.wf(),
        lo <= hi <= lines@.len(),
        lines_wf(text, lines@),
    ensures
        ({
            let w = mapping_walk(text, lines@, hi as int, indent, lo as int, Seq::empty());
            &&& entries@.len() == w.len()
            &&& forall|k: int| 0 <= k < entries@.len() ==> #[trigger] entry_shape(entries@[k], text, lines@, w[k])
        }),
        diagnostics_view(final(diagnostics)@) == diagnostics_view(old(diagnostics)@) + map_diags(
            text,
            lines@,
            hi as int,
            indent,
            lo as int,
            Seq::empty(),
        ),
    decreases weight(lines@.subrange(lo as int, hi as int)), 0int,
{
    let ghost d0 = diagnostics_view(diagnostics@);
    let ghost total = map_diags(text, lines@, hi as int, indent, lo as int, Seq::empty());
    let mut entries: Vec<FmEntry> = Vec::new();
    let mut cursor: usize = lo;
    let ghost mut acc: Seq<EntryDesc> = Seq::empty();
    let ghost target = mapping_walk(text, lines@, hi as int, indent, lo as int, Seq::empty());
    while cursor < hi
        invariant
            text.wf(),
            lo <= cursor <= hi <= lines@.len(),
            lines_wf(text, lines@),
            target == mapping_walk(text, lines@, hi as int, indent, lo as int, Seq::empty()),
            mapping_walk(text, lines@, hi as int, indent, cursor as int, acc) == target,
            entries@.len() == acc.len(),
            forall|k: int| 0 <= k < entries@.len() ==> #[trigger] entry_shape(entries@[k], text, lines@, acc[k]),
            total == map_diags(text, lines@, hi as int, indent, lo as int, Seq::empty()),
            d0 + total == diagnostics_view(diagnostics@) + map_diags(text, lines@, hi as int, indent, cursor as int, acc),
        decreases hi - cursor,
    {
        let line = lines[cursor];
        let ghost before = entries@;
        let ghost acc0 = acc;
        let ghost dprev = diagnostics_view(diagnostics@);
        let ghost rest_before = map_diags(text, lines@, hi as int, indent, cursor as int, acc0);
        let ghost lsp = Span { start: line.offset, end: line.offset_end };
        proof {
            assert(line == lines@[cursor as int]);
            assert(lines@[cursor as int].wf_in(text));
        }
        if line.indent != indent {
            report_inconsistent_indent(&line, diagnostics);
            if !is_sequence_item(&text.chars, line.start, line.end) {
                match trimmed_key(&text.chars, line.start, line.end) {
                    Some((p, q)) => {
                        entries.push(
                            FmEntry {
                                key: FmScalar {
                                    text: string_of(&text.chars, p, q),
                                    quoted: false,
                                    span: line.span(),
                                },
                                value: FmValue::Rejected { span: line.span() },
                            },
                        );
                        proof {
                            let lspan = Span { start: line.offset, end: line.offset_end };
                            acc = acc0.push(
                                EntryDesc {
                                    key: text.chars@.subrange(p as int, q as int),
                                    quoted: false,
                                    span: lspan,
                                    value: ValueDesc::Rejected(lspan),
                                },
                            );
                            assert forall|k: int| 0 <= k < entries@.len() implies #[trigger] entry_shape(
                                entries@[k],
                                text,
                                lines@,
                                acc[k],
                            ) by {
                                if k < before.len() {
                                    assert(entries@[k] == before[k]);
                                }
                            }
                        }
                    },
                    None => {},
                }
            }
            let next = dropped_extent(lines, cursor, hi, indent);
            proof {
                assert(mapping_walk(text, lines@, hi as int, indent, cursor as int, acc0)
                    == mapping_walk(text, lines@, hi as int, indent, next as int, acc));
                assert(rest_before == seq![inconsistent_view(lsp)] + map_diags(
                    text,
                    lines@,
                    hi as int,
                    indent,
                    next as int,
                    acc,
                ));
                assert(diagnostics_view(diagnostics@) + map_diags(text, lines@, hi as int, indent, next as int, acc)
                    =~= dprev + rest_before);
            }
            cursor = next;
            continue;
        }
        let end = child_extent(lines, cursor, hi, indent);
        let ((ka, kb), (va, vb)) = match split_key(&text.chars, line.start, line.end) {
            Some(r) => r,
            None => {
                push_diagnostic(diagnostics, structure_error(line.span(), "mapping_entry"));
                proof {
                    reveal_strlit("mapping_entry");
                    assert(rest_before == seq![structure_error_view(lsp, "mapping_entry"@)] + map_diags(
                        text,
                        lines@,
                        hi as int,
                        indent,
                        end as int,
                        acc0,
                    ));
                    assert(diagnostics_view(diagnostics@) + map_diags(text, lines@, hi as int, indent, end as int, acc0)
                        =~= dprev + rest_before);
                    assert(mapping_walk(text, lines@, hi as int, indent, cursor as int, acc0)
                        == mapping_walk(text, lines@, hi as int, indent, end as int, acc0));
                }
                cursor = end;
                continue;
            },
        };
        let key_span = Span { start: line.offset, end: text.at(kb) };
        match unsupported_key_feature(&text.chars, ka, kb) {
            Some(feature) => {
                push_diagnostic(diagnostics, unsupported_feature(key_span, feature));
                entries.push(
                    FmEntry {
                        key: FmScalar {
                            text: string_of(&text.chars, ka, kb),
                            quoted: false,
                            span: key_span,
                        },
                        value: FmValue::Rejected { span: key_span },
                    },
                );
                proof {
                    acc = acc0.push(
                        EntryDesc {
                            key: text.chars@.subrange(ka as int, kb as int),
                            quoted: false,
                            span: key_span,
                            value: ValueDesc::Rejected(key_span),
                        },
                    );
                    assert(mapping_walk(text, lines@, hi as int, indent, cursor as int, acc0)
                        == mapping_walk(text, lines@, hi as int, indent, end as int, acc));
                    assert(rest_before == seq![unsupported_view(key_span, feature@)] + map_diags(
                        text,
                        lines@,
                        hi as int,
                        indent,
                        end as int,
                        acc,
                    ));
                    assert(diagnostics_view(diagnostics@) + map_diags(text, lines@, hi as int, indent, end as int, acc)
                        =~= dprev + rest_before);
                    assert forall|k: int| 0 <= k < entries@.len() implies #[trigger] entry_shape(
                        entries@[k],
                        text,
                        lines@,
                        acc[k],
                    ) by {
                        if k < before.len() {
                            assert(entries@[k] == before[k]);
                        }
                    }
                }
                cursor = end;
                continue;
            },
            None => {},
        }
        let key = read_scalar(text, ka, kb, key_span, diagnostics);
        let ghost dkey = diagnostics_view(diagnostics@);
        let mut overdeep: Vec<FmEntry> = Vec::new();
        let ghost lspan = Span { start: line.offset, end: line.offset_end };
        let ghost vdesc = if va == vb {
            ValueDesc::Block(cursor + 1, end as int, lspan)
        } else {
            ValueDesc::Inline(va as int, vb as int)
        };
        let value = if va == vb {
            proof {
                lemma_weight_within(lines@, lo as int, cursor as int, end as int, hi as int);
            }
            parse_block(text, lines, cursor + 1, end, line.span(), diagnostics)
        } else {
            overdeep = overdeep_slots(text, lines, cursor + 1, end, diagnostics);
            parse_inline(text, va, vb, diagnostics)
        };
        let ghost over = if va == vb || cursor + 1 >= end {
            Seq::<EntryDesc>::empty()
        } else {
            slot_descs(overdeep_keys(text, lines@, cursor + 1, lines@[cursor + 1].indent, end as int))
        };
        let ghost d = EntryDesc { key: key.text@, quoted: key.quoted, span: key_span, value: vdesc };
        let ghost dval = diagnostics_view(diagnostics@);
        proof {
            lemma_desc_first_start(text.chars@, acc0, entries@, text, lines@, key.text@, 0);
            assert(overdeep@.len() == over.len());
            assert forall|k: int| 0 <= k < overdeep@.len() implies #[trigger] entry_shape(
                overdeep@[k],
                text,
                lines@,
                over[k],
            ) by {
                let keys = overdeep_keys(text, lines@, cursor + 1, lines@[cursor + 1].indent, end as int);
                assert(is_slot(overdeep@[k], keys[k]));
            }
            assert forall|k: int|
                0 <= k < acc0.len() && (#[trigger] acc0[k]).key == key.text@ && desc_live(
                    text.chars@,
                    acc0[k],
                ) implies entries@[k].key.text@ == key.text@ && !(entries@[k].value is Rejected) by {
                assert(entry_shape(entries@[k], text, lines@, acc0[k]));
                lemma_entry_live(entries@[k], text, lines@, acc0[k]);
            }
            assert forall|k: int|
                0 <= k < entries@.len() && (#[trigger] entries@[k]).key.text@ == key.text@ && !(
                entries@[k].value is Rejected) implies acc0[k].key == key.text@ && desc_live(
                text.chars@,
                acc0[k],
            ) by {
                assert(entry_shape(entries@[k], text, lines@, acc0[k]));
                lemma_entry_live(entries@[k], text, lines@, acc0[k]);
            }
        }
        match first_seen(&entries, &key.text) {
            Some(first) => {
                push_diagnostic(diagnostics, duplicate_key(&key, first));
                proof {
                    assert(has_live_key(text.chars@, acc0, key.text@));
                    acc = acc0;
                }
            },
            None => {
                entries.push(FmEntry { key, value });
                proof {
                    assert(!has_live_key(text.chars@, acc0, d.key));
                    acc = acc0.push(d);
                    assert forall|k: int| 0 <= k < entries@.len() implies #[trigger] entry_shape(
                        entries@[k],
                        text,
                        lines@,
                        acc[k],
                    ) by {
                        if k < before.len() {
                            assert(entries@[k] == before[k]);
                        }
                    }
                }
            },
        }
        let ghost mid = entries@;
        let ghost overdeep_old = overdeep@;
        entries.append(&mut overdeep);
        proof {
            let acc1 = acc;
            acc = acc1 + over;
            assert(mapping_walk(text, lines@, hi as int, indent, cursor as int, acc0)
                == mapping_walk(text, lines@, hi as int, indent, end as int, acc));
            let value_d = if va == vb {
                block_diags(text, lines@, cursor + 1, end as int)
            } else {
                (if cursor + 1 >= end {
                    Seq::<crate::diagnostic::DiagnosticView>::empty()
                } else {
                    overdeep_diagnostics(overdeep_keys(text, lines@, cursor + 1, lines@[cursor + 1].indent, end as int))
                }) + inline_diags(text.chars@, text.offsets@, va as int, vb as int)
            };
            let dup = match desc_first_start(text.chars@, acc0, key.text@, 0) {
                Some(first) => seq![duplicate_view(key.text@, key_span, first as nat)],
                None => Seq::<crate::diagnostic::DiagnosticView>::empty(),
            };
            assert(dkey == dprev + scalar_diags(text.chars@, ka as int, kb as int, key_span));
            assert(dval =~= dkey + value_d);
            assert(diagnostics_view(diagnostics@) =~= dval + dup);
            assert(rest_before == scalar_diags(text.chars@, ka as int, kb as int, key_span) + value_d + dup
                + map_diags(text, lines@, hi as int, indent, end as int, acc));
            assert(diagnostics_view(diagnostics@) + map_diags(text, lines@, hi as int, indent, end as int, acc)
                =~= dprev + rest_before);
            assert forall|k: int| 0 <= k < entries@.len() implies #[trigger] entry_shape(
                entries@[k],
                text,
                lines@,
                acc[k],
            ) by {
                if k < mid.len() {
                    assert(entries@[k] == mid[k]);
                } else {
                    assert(entries@[k] == overdeep_old[k - mid.len()]);
                }
            }
        }
        cursor = end;
    }
    proof {
        assert(diagnostics_view(diagnostics@) + map_diags(text, lines@, hi as int, indent, cursor as int, acc)
            =~= diagnostics_view(diagnostics@));
    }
    entries
}

pub proof fn lemma_desc_first_start(
    s: Seq<char>,
    acc: Seq<EntryDesc>,
    entries: Seq<FmEntry>,
    text: &SourceText,
    lines: Seq<FmLine>,
    key: Seq<char>,
    i: int,
)
    requires
        s == text.chars@,
        0 <= i <= acc.len(),
        entries.len() == acc.len(),
        forall|k: int| 0 <= k < entries.len() ==> #[trigger] entry_shape(entries[k], text, lines, acc[k]),
    ensures
        first_seen_spec(entries, key, i) == desc_first_start(s, acc, key, i),
    decreases acc.len() - i,
{
    if i < acc.len() {
        assert(entry_shape(entries[i], text, lines, acc[i]));
        lemma_entry_live(entries[i], text, lines, acc[i]);
        lemma_desc_first_start(s, acc, entries, text, lines, key, i + 1);
    }
}

} // verus!

verus! {

/// Last index in `[a, b)` holding `c`, or `a - 1` when there is none.
pub open spec fn last_in(s: Seq<char>, a: int, b: int, c: char) -> int
    decreases b - a,
{
    if b <= a {
        a - 1
    } else if s[b - 1] == c {
        b - 1
    } else {
        last_in(s, a, b - 1, c)
    }
}

proof fn lemma_last_in(s: Seq<char>, a: int, b: int, c: char)
    requires
        a <= b,
    ensures
        a - 1 <= last_in(s, a, b, c) < b,
        last_in(s, a, b, c) >= a ==> s[last_in(s, a, b, c)] == c,
    decreases b - a,
{
    if a < b && s[b - 1] != c {
        lemma_last_in(s, a, b - 1, c);
    }
}

fn last_index(chars: &[char], a: usize, b: usize, c: char) -> (r: Option<usize>)
    requires
        a <= b <= chars@.len(),
    ensures
        match r {
            Some(k) => k as int == last_in(chars@, a as int, b as int, c) && a <= k < b,
            None => last_in(chars@, a as int, b as int, c) == a - 1,
        },
{
    proof {
        lemma_last_in(chars@, a as int, b as int, c);
    }
    let mut e: usize = b;
    while e > a
        invariant
            a <= e <= b <= chars@.len(),
            last_in(chars@, a as int, b as int, c) == last_in(chars@, a as int, e as int, c),
        decreases e,
    {
        if chars[e - 1] == c {
            return Some(e - 1);
        }
        e = e - 1;
    }
    None
}

/// A name the document coins itself: not empty, without white space or dots.
pub open spec fn id_like(t: Seq<char>) -> bool {
    t.len() > 0 && forall|k: int| 0 <= k < t.len() ==> !is_space(#[trigger] t[k]) && t[k] != '.'
}

fn is_id_like(chars: &[char], a: usize, b: usize) -> (r: bool)
    requires
        a <= b <= chars@.len(),
    ensures
        r == id_like(chars@.subrange(a as int, b as int)),
{
    if a == b {
        return false;
    }
    let mut i: usize = a;
    while i < b
        invariant
            a <= i <= b <= chars@.len(),
            forall|k: int| a <= k < i ==> !is_space(#[trigger] chars@[k]) && chars@[k] != '.',
        decreases b - i,
    {
        if is_whitespace(chars[i]) || chars[i] == '.' {
            proof {
                assert(chars@.subrange(a as int, b as int)[i - a] == chars@[i as int]);
            }
            return false;
        }
        i = i + 1;
    }
    proof {
        assert forall|k: int| 0 <= k < chars@.subrange(a as int, b as int).len() implies !is_space(
            #[trigger] chars@.subrange(a as int, b as int)[k],
        ) && chars@.subrange(a as int, b as int)[k] != '.' by {
            assert(chars@.subrange(a as int, b as int)[k] == chars@[a + k]);
        }
    }
    true
}

/// The `name(stable_id)` pair written in `t`, trimmed: the name before the last `(`, the id
/// between it and the closing `)`.
pub open spec fn named_id_spec(t: Seq<char>) -> Option<(Seq<char>, Seq<char>)> {
    let a = first_visible(t, 0, t.len() as int);
    let b = trimmed_end(t, a, t.len() as int);
    if b > a && t[b - 1] == ')' {
        let open = last_in(t, a, b, '(');
        if open >= a && open < b - 1 {
            let name = t.subrange(a, trimmed_end(t, a, open));
            let id = t.subrange(open + 1, b - 1);
            if name.len() > 0 && id_like(id) {
                Some((name, id))
            } else {
                None
            }
        } else {
            None
        }
    } else {
        None
    }
}

/// Reads `표시 이름(stable_id)`, the notation sentence declarations use too. Quoted text is
/// not a name.
fn read_named_id(scalar: &FmScalar, diagnostics: &mut Vec<Diagnostic>) -> (r: Option<NamedIdAst>)
    ensures
        match r {
            Some(n) => !scalar.quoted && named_id_spec(scalar.text@) == Some((n.name@, n.id@))
                && n.span == scalar.span,
            None => scalar.quoted || named_id_spec(scalar.text@) is None,
        },
        diagnostics_view(final(diagnostics)@) == if r is Some {
            diagnostics_view(old(diagnostics)@)
        } else {
            diagnostics_view(old(diagnostics)@).push(scalar_error_view(scalar.span, "named_id"@))
        },
{
    if scalar.quoted {
        push_diagnostic(diagnostics, scalar_error(scalar.span, "named_id"));
        return None;
    }
    let t = crate::text::chars_of(scalar.text.as_str());
    let n = t.len();
    let a = first_visible_exec(&t, 0, n);
    proof {
        lemma_first_visible(t@, 0, n as int);
    }
    let b = trimmed_end_exec(&t, a, n);
    proof {
        lemma_trimmed_end(t@, a as int, n as int);
    }
    if b > a && t[b - 1] == ')' {
        match last_index(&t, a, b, '(') {
            Some(open) => {
                if open < b - 1 {
                    let name_end = trimmed_end_exec(&t, a, open);
                    proof {
                        lemma_trimmed_end(t@, a as int, open as int);
                    }
                    if name_end > a && is_id_like(&t, open + 1, b - 1) {
                        return Some(
                            NamedIdAst {
                                name: string_of(&t, a, name_end),
                                id: string_of(&t, open + 1, b - 1),
                                span: scalar.span,
                            },
                        );
                    }
                }
            },
            None => {},
        }
    }
    push_diagnostic(diagnostics, scalar_error(scalar.span, "named_id"));
    None
}

/// A reference to another declaration, written the way sentences write it: the trimmed text,
/// which must not be empty.
fn read_ref(scalar: &FmScalar, diagnostics: &mut Vec<Diagnostic>) -> (r: Option<FrontmatterRefAst>)
    ensures
        match r {
            Some(f) => {
                let t = scalar.text@;
                let a = first_visible(t, 0, t.len() as int);
                let b = trimmed_end(t, a, t.len() as int);
                a < b && f.text@ == t.subrange(a, b) && f.span == scalar.span
            },
            None => {
                let t = scalar.text@;
                let a = first_visible(t, 0, t.len() as int);
                trimmed_end(t, a, t.len() as int) == a
            },
        },
        diagnostics_view(final(diagnostics)@) == if r is Some {
            diagnostics_view(old(diagnostics)@)
        } else {
            diagnostics_view(old(diagnostics)@).push(scalar_error_view(scalar.span, "reference"@))
        },
{
    let t = crate::text::chars_of(scalar.text.as_str());
    let n = t.len();
    let a = first_visible_exec(&t, 0, n);
    proof {
        lemma_first_visible(t@, 0, n as int);
    }
    let b = trimmed_end_exec(&t, a, n);
    proof {
        lemma_trimmed_end(t@, a as int, n as int);
    }
    if a == b {
        push_diagnostic(diagnostics, scalar_error(scalar.span, "reference"));
        return None;
    }
    Some(FrontmatterRefAst { text: string_of(&t, a, b), span: scalar.span })
}

/// A name the document coins itself, such as a button id: unquoted and id-like.
fn read_stable_id(scalar: &FmScalar, diagnostics: &mut Vec<Diagnostic>) -> (r: Option<String>)
    ensures
        match r {
            Some(id) => !scalar.quoted && id_like(scalar.text@) && id@ == scalar.text@,
            None => scalar.quoted || !id_like(scalar.text@),
        },
        diagnostics_view(final(diagnostics)@) == if r is Some {
            diagnostics_view(old(diagnostics)@)
        } else {
            diagnostics_view(old(diagnostics)@).push(scalar_error_view(scalar.span, "stable_id"@))
        },
{
    let t = crate::text::chars_of(scalar.text.as_str());
    proof {
        assert(t@.subrange(0, t@.len() as int) =~= t@);
    }
    if scalar.quoted || !is_id_like(&t, 0, t.len()) {
        push_diagnostic(diagnostics, scalar_error(scalar.span, "stable_id"));
        return None;
    }
    Some(string_of(&t, 0, t.len()))
}

/// The entries of a mapping; an empty or rejected place has none, anything else is a
/// structure error.
fn expect_mapping<'a>(value: &'a FmValue, expected: &str, diagnostics: &mut Vec<Diagnostic>) -> (r:
    &'a [FmEntry])
    ensures
        value matches FmValue::Mapping { entries, .. } ==> r@ == entries@,
        !(value is Mapping) ==> r@.len() == 0,
        (value is Mapping || value is Empty || value is Rejected) ==> diagnostics_view(
            final(diagnostics)@,
        ) == diagnostics_view(old(diagnostics)@),
        !(value is Mapping || value is Empty || value is Rejected) ==> diagnostics_view(
            final(diagnostics)@,
        ) == diagnostics_view(old(diagnostics)@).push(structure_error_view(value.span_of(), expected@)),
{
    match value {
        FmValue::Mapping { entries, .. } => entries.as_slice(),
        FmValue::Empty { .. } => &[],
        FmValue::Rejected { .. } => &[],
        _ => {
            push_diagnostic(diagnostics, structure_error(value.span(), expected));
            &[]
        },
    }
}

/// The items of a sequence; an empty or rejected place has none, anything else is a
/// structure error.
fn expect_sequence<'a>(value: &'a FmValue, expected: &str, diagnostics: &mut Vec<Diagnostic>) -> (r:
    &'a [FmValue])
    ensures
        value matches FmValue::Sequence { items, .. } ==> r@ == items@,
        !(value is Sequence) ==> r@.len() == 0,
        diagnostics_view(final(diagnostics)@) == diagnostics_view(old(diagnostics)@) + sequence_diagnostics(
            *value,
            expected@,
        ),
{
    proof {
        assert(diagnostics_view(diagnostics@) + Seq::<crate::diagnostic::DiagnosticView>::empty() =~= diagnostics_view(diagnostics@));
        assert(diagnostics_view(diagnostics@).push(structure_error_view(value.span_of(), expected@)) =~= diagnostics_view(diagnostics@) + seq![structure_error_view(value.span_of(), expected@)]);
    }
    match value {
        FmValue::Sequence { items, .. } => items.as_slice(),
        FmValue::Empty { .. } => &[],
        FmValue::Rejected { .. } => &[],
        _ => {
            push_diagnostic(diagnostics, structure_error(value.span(), expected));
            &[]
        },
    }
}

/// The scalar at a place; a rejected place gives none quietly, anything else is a structure
/// error.
fn expect_scalar<'a>(value: &'a FmValue, expected: &str, diagnostics: &mut Vec<Diagnostic>) -> (r:
    Option<&'a FmScalar>)
    ensures
        match value {
            FmValue::Scalar(sc) => r == Some(sc),
            _ => r is None,
        },
        diagnostics_view(final(diagnostics)@) == match value {
            FmValue::Scalar(_) => diagnostics_view(old(diagnostics)@),
            FmValue::Rejected { .. } => diagnostics_view(old(diagnostics)@),
            _ => diagnostics_view(old(diagnostics)@).push(structure_error_view(value.span_of(), expected@)),
        },
{
    match value {
        FmValue::Scalar(scalar) => Some(scalar),
        FmValue::Rejected { .. } => None,
        _ => {
            push_diagnostic(diagnostics, structure_error(value.span(), expected));
            None
        },
    }
}

/// A mapping with a rejected entry never reports a key as missing: the rejected key may well
/// have been the one.
fn has_rejected(entries: &[FmEntry]) -> (r: bool)
    ensures
        r == exists|k: int| 0 <= k < entries@.len() && (#[trigger] entries@[k]).value is Rejected,
{
    let mut i: usize = 0;
    while i < entries.len()
        invariant
            i <= entries@.len(),
            forall|k: int| 0 <= k < i ==> !((#[trigger] entries@[k]).value is Rejected),
        decreases entries@.len() - i,
    {
        if is_rejected(&entries[i].value) {
            return true;
        }
        i = i + 1;
    }
    false
}

/// The value of the first entry whose key text is `key`.
pub open spec fn find_spec(es: Seq<FmEntry>, key: Seq<char>) -> Option<FmValue>
    decreases es.len(),
{
    if es.len() == 0 {
        None
    } else {
        match find_spec(es.drop_last(), key) {
            Some(v) => Some(v),
            None => if es.last().key.text@ == key {
                Some(es.last().value)
            } else {
                None
            },
        }
    }
}

/// A value found in a prefix is found in the whole.
proof fn lemma_find_prefix(es: Seq<FmEntry>, key: Seq<char>, k: int)
    requires
        0 <= k <= es.len(),
        find_spec(es.take(k), key) is Some,
    ensures
        find_spec(es, key) == find_spec(es.take(k), key),
    decreases es.len() - k,
{
    if k == es.len() {
        assert(es.take(k) =~= es);
    } else {
        assert(es.take(k + 1).drop_last() =~= es.take(k));
        lemma_find_prefix(es, key, k + 1);
    }
}

/// The value of the first entry whose key text is `key`.
fn find<'a>(entries: &'a [FmEntry], key: &str) -> (r: Option<&'a FmValue>)
    ensures
        match r {
            Some(v) => find_spec(entries@, key@) == Some(*v),
            None => find_spec(entries@, key@) is None,
        },
        match r {
            Some(v) => exists|k: int|
                0 <= k < entries@.len() && (#[trigger] entries@[k]).key.text@ == key@ && *v
                    == entries@[k].value && forall|j: int|
                    0 <= j < k ==> entries@[j].key.text@ != key@,
            None => forall|k: int| 0 <= k < entries@.len() ==> (#[trigger] entries@[k]).key.text@ != key@,
        },
{
    let mut i: usize = 0;
    proof {
        assert(entries@.take(0) =~= Seq::<FmEntry>::empty());
    }
    while i < entries.len()
        invariant
            i <= entries@.len(),
            forall|k: int| 0 <= k < i ==> (#[trigger] entries@[k]).key.text@ != key@,
            find_spec(entries@.take(i as int), key@) is None,
        decreases entries@.len() - i,
    {
        proof {
            assert(entries@.take(i + 1).drop_last() =~= entries@.take(i as int));
            assert(entries@.take(i + 1).last() == entries@[i as int]);
        }
        if str_eq(entries[i].key.text.as_str(), key) {
            proof {
                lemma_find_prefix(entries@, key@, i + 1);
            }
            return Some(&entries[i].value);
        }
        i = i + 1;
    }
    proof {
        assert(entries@.take(entries@.len() as int) =~= entries@);
    }
    None
}

/// A reference written as the trimmed text of a scalar, which must not be empty.
pub open spec fn ref_text_spec(t: Seq<char>) -> Option<Seq<char>> {
    let a = first_visible(t, 0, t.len() as int);
    let b = trimmed_end(t, a, t.len() as int);
    if a < b {
        Some(t.subrange(a, b))
    } else {
        None
    }
}

/// The reference a value holds: a scalar with a reference in it, at the scalar's span.
pub open spec fn ref_value_spec(v: FmValue) -> Option<RefView> {
    match v {
        FmValue::Scalar(sc) => match ref_text_spec(sc.text@) {
            Some(t) => Some(RefView { text: t, span: sc.span }),
            None => None,
        },
        _ => None,
    }
}

/// What reading a reference reports: a place that is no scalar is a structure error, unless
/// it was already rejected; a scalar with nothing in it is a scalar error.
pub open spec fn ref_value_diagnostics(v: FmValue) -> Seq<crate::diagnostic::DiagnosticView> {
    match v {
        FmValue::Scalar(sc) => if ref_text_spec(sc.text@) is Some {
            Seq::empty()
        } else {
            seq![scalar_error_view(sc.span, "reference"@)]
        },
        FmValue::Rejected { .. } => Seq::empty(),
        _ => seq![structure_error_view(v.span_of(), "reference"@)],
    }
}

fn read_ref_value(value: &FmValue, diagnostics: &mut Vec<Diagnostic>) -> (r: Option<FrontmatterRefAst>)
    ensures
        r is Some ==> value is Scalar,
        opt_ref_view(r) == ref_value_spec(*value),
        diagnostics_view(final(diagnostics)@) == diagnostics_view(old(diagnostics)@) + ref_value_diagnostics(
            *value,
        ),
{
    let ghost d0 = diagnostics_view(diagnostics@);
    match expect_scalar(value, "reference", diagnostics) {
        Some(scalar) => {
            let r = read_ref(scalar, diagnostics);
            proof {
                if r is Some {
                    assert(d0 + Seq::<crate::diagnostic::DiagnosticView>::empty() =~= d0);
                } else {
                    assert(d0.push(scalar_error_view(scalar.span, "reference"@)) =~= d0 + seq![
                        scalar_error_view(scalar.span, "reference"@),
                    ]);
                }
            }
            r
        },
        None => {
            proof {
                assert(d0 + Seq::<crate::diagnostic::DiagnosticView>::empty() =~= d0);
                assert(d0.push(structure_error_view(value.span_of(), "reference"@)) =~= d0 + seq![
                    structure_error_view(value.span_of(), "reference"@),
                ]);
            }
            None
        },
    }
}

/// What asking for a scalar reports: nothing for a scalar or a rejected place, a structure
/// error for anything else.
pub open spec fn scalar_diagnostics(v: FmValue, expected: Seq<char>) -> Seq<crate::diagnostic::DiagnosticView> {
    match v {
        FmValue::Scalar(_) => Seq::empty(),
        FmValue::Rejected { .. } => Seq::empty(),
        _ => seq![structure_error_view(v.span_of(), expected)],
    }
}

fn read_text_value(value: &FmValue, diagnostics: &mut Vec<Diagnostic>) -> (r: Option<String>)
    ensures
        match value {
            FmValue::Scalar(sc) => r matches Some(t) && t@ == sc.text@,
            _ => r is None,
        },
        diagnostics_view(final(diagnostics)@) == diagnostics_view(old(diagnostics)@) + scalar_diagnostics(
            *value,
            "text"@,
        ),
{
    proof {
        assert(diagnostics_view(diagnostics@) + Seq::<crate::diagnostic::DiagnosticView>::empty() =~= diagnostics_view(diagnostics@));
        assert(diagnostics_view(diagnostics@).push(structure_error_view(value.span_of(), "text"@)) =~= diagnostics_view(diagnostics@) + seq![structure_error_view(value.span_of(), "text"@)]);
    }
    match expect_scalar(value, "text", diagnostics) {
        Some(scalar) => Some(scalar.text.clone()),
        None => None,
    }
}

/// The screen kind, from the closed set `page`, `popup`, `tab` and `link`.
pub open spec fn screen_kind_spec(t: Seq<char>) -> Option<ScreenLayoutKindAst> {
    if t == "page"@ {
        Some(ScreenLayoutKindAst::Page)
    } else if t == "popup"@ {
        Some(ScreenLayoutKindAst::Popup)
    } else if t == "tab"@ {
        Some(ScreenLayoutKindAst::Tab)
    } else if t == "link"@ {
        Some(ScreenLayoutKindAst::Link)
    } else {
        None
    }
}

fn read_screen_kind(scalar: &FmScalar, diagnostics: &mut Vec<Diagnostic>) -> (r: Option<
    ScreenLayoutKindAst,
>)
    ensures
        r == screen_kind_spec(scalar.text@),
        diagnostics_view(final(diagnostics)@) == if r is Some {
            diagnostics_view(old(diagnostics)@)
        } else {
            diagnostics_view(old(diagnostics)@).push(scalar_error_view(scalar.span, "screen_kind"@))
        },
{
    let t = scalar.text.as_str();
    if str_eq(t, "page") {
        Some(ScreenLayoutKindAst::Page)
    } else if str_eq(t, "popup") {
        Some(ScreenLayoutKindAst::Popup)
    } else if str_eq(t, "tab") {
        Some(ScreenLayoutKindAst::Tab)
    } else if str_eq(t, "link") {
        Some(ScreenLayoutKindAst::Link)
    } else {
        push_diagnostic(diagnostics, scalar_error(scalar.span, "screen_kind"));
        None
    }
}

} // verus!

verus! {

/// Bytes needed to encode `t`, or `usize::MAX` when that is more.
pub open spec fn saturated_len(t: Seq<char>) -> usize {
    if byte_len(t) <= usize::MAX {
        byte_len(t) as usize
    } else {
        usize::MAX
    }
}

/// Bytes needed to encode `chars[a..b)`, saturating at `usize::MAX`.
fn encoded_len(chars: &[char], a: usize, b: usize) -> (n: usize)
    requires
        a <= b <= chars@.len(),
    ensures
        byte_len(chars@.subrange(a as int, b as int)) <= usize::MAX ==> n == byte_len(
            chars@.subrange(a as int, b as int),
        ),
        n == saturated_len(chars@.subrange(a as int, b as int)),
{
    let mut n: usize = 0;
    let mut i: usize = a;
    let mut saturated: bool = false;
    while i < b
        invariant
            a <= i <= b <= chars@.len(),
            !saturated ==> n == byte_len(chars@.subrange(a as int, i as int)),
            saturated ==> byte_len(chars@.subrange(a as int, i as int)) > usize::MAX,
            saturated ==> n == usize::MAX,
        decreases b - i,
    {
        proof {
            assert(chars@.subrange(a as int, i + 1).drop_last() =~= chars@.subrange(a as int, i as int));
        }
        let w = width_of(chars[i]);
        if !saturated {
            match n.checked_add(w) {
                Some(m) => n = m,
                None => {
                    saturated = true;
                    n = usize::MAX;
                },
            }
        }
        i = i + 1;
    }
    n
}

/// `screen.element`: the path of an element inside a screen, split at the last dot, since a
/// display name may hold dots while an element id may not.
pub open spec fn element_path_spec(t: Seq<char>) -> Option<(Seq<char>, Seq<char>)> {
    let dot = last_in(t, 0, t.len() as int, '.');
    if dot < 0 {
        None
    } else {
        let a = first_visible(t, 0, dot);
        let screen = t.subrange(a, trimmed_end(t, a, dot));
        let element = t.subrange(dot + 1, t.len() as int);
        if screen.len() > 0 && id_like(element) {
            Some((screen, element))
        } else {
            None
        }
    }
}

/// The screen and element references of an element path written as a scalar: the screen
/// spans the scalar's start up to the bytes of the screen's name, the element the rest after
/// the dot (byte positions saturating at `usize::MAX`).
pub open spec fn element_path_value_spec(v: FmValue) -> Option<(RefView, RefView)> {
    match v {
        FmValue::Scalar(sc) => {
            let t = sc.text@;
            match element_path_spec(t) {
                Some((screen, element)) => {
                    let dot = last_in(t, 0, t.len() as int, '.');
                    let a = first_visible(t, 0, dot);
                    let b = trimmed_end(t, a, dot);
                    let end = sc.span.start.saturating_add(saturated_len(t.subrange(a, b)));
                    Some(
                        (
                            RefView { text: screen, span: Span { start: sc.span.start, end } },
                            RefView {
                                text: element,
                                span: Span { start: end.saturating_add(1), end: sc.span.end },
                            },
                        ),
                    )
                },
                None => None,
            }
        },
        _ => None,
    }
}

fn read_element_path(value: &FmValue, diagnostics: &mut Vec<Diagnostic>) -> (r: Option<
    (FrontmatterRefAst, FrontmatterRefAst),
>)
    ensures
        match r {
            Some((screen, element)) => element_path_value_spec(*value) == Some((screen@, element@)),
            None => element_path_value_spec(*value) is None,
        },
        diagnostics_view(final(diagnostics)@) == diagnostics_view(old(diagnostics)@) + match *value {
            FmValue::Scalar(sc) => if element_path_spec(sc.text@) is Some {
                Seq::empty()
            } else {
                seq![scalar_error_view(sc.span, "element_path"@)]
            },
            _ => scalar_diagnostics(*value, "element_path"@),
        },
        match r {
            Some((screen, element)) => value matches FmValue::Scalar(sc) && element_path_spec(
                sc.text@,
            ) == Some((screen.text@, element.text@)),
            None => !(value matches FmValue::Scalar(sc) && element_path_spec(sc.text@) is Some),
        },
{
    let ghost d0 = diagnostics_view(diagnostics@);
    let scalar = match expect_scalar(value, "element_path", diagnostics) {
        Some(s) => s,
        None => {
            proof {
                assert(d0 + Seq::<crate::diagnostic::DiagnosticView>::empty() =~= d0);
                assert(d0.push(structure_error_view(value.span_of(), "element_path"@)) =~= d0 + seq![
                    structure_error_view(value.span_of(), "element_path"@),
                ]);
            }
            return None;
        },
    };
    proof {
        assert(d0 + Seq::<crate::diagnostic::DiagnosticView>::empty() =~= d0);
        assert(d0.push(scalar_error_view(scalar.span, "element_path"@)) =~= d0 + seq![
            scalar_error_view(scalar.span, "element_path"@),
        ]);
    }
    let t = crate::text::chars_of(scalar.text.as_str());
    let n = t.len();
    proof {
        lemma_last_in(t@, 0, n as int, '.');
    }
    let dot = match last_index(&t, 0, n, '.') {
        Some(d) => d,
        None => {
            push_diagnostic(diagnostics, scalar_error(scalar.span, "element_path"));
            return None;
        },
    };
    let a = first_visible_exec(&t, 0, dot);
    proof {
        lemma_first_visible(t@, 0, dot as int);
    }
    let b = trimmed_end_exec(&t, a, dot);
    proof {
        lemma_trimmed_end(t@, a as int, dot as int);
    }
    if a == b || !is_id_like(&t, dot + 1, n) {
        push_diagnostic(diagnostics, scalar_error(scalar.span, "element_path"));
        return None;
    }
    let screen_end = scalar.span.start.saturating_add(encoded_len(&t, a, b));
    let screen_span = Span { start: scalar.span.start, end: screen_end };
    let element_span = Span { start: screen_end.saturating_add(1), end: scalar.span.end };
    Some(
        (
            FrontmatterRefAst { text: string_of(&t, a, b), span: screen_span },
            FrontmatterRefAst { text: string_of(&t, dot + 1, n), span: element_span },
        ),
    )
}

/// The span an element was declared at.
fn element_span(element: &LayoutElementAst) -> (s: Span)
    ensures
        s == match element {
            LayoutElementAst::Header { span, .. } => *span,
            LayoutElementAst::Section { span, .. } => *span,
            LayoutElementAst::Heading { span, .. } => *span,
            LayoutElementAst::Form { span, .. } => *span,
            LayoutElementAst::Input { span, .. } => *span,
            LayoutElementAst::List { span, .. } => *span,
            LayoutElementAst::Button { span, .. } => *span,
            LayoutElementAst::Placeholder { span, .. } => *span,
        },
{
    match element {
        LayoutElementAst::Header { span, .. } => *span,
        LayoutElementAst::Section { span, .. } => *span,
        LayoutElementAst::Heading { span, .. } => *span,
        LayoutElementAst::Form { span, .. } => *span,
        LayoutElementAst::Input { span, .. } => *span,
        LayoutElementAst::List { span, .. } => *span,
        LayoutElementAst::Button { span, .. } => *span,
        LayoutElementAst::Placeholder { span, .. } => *span,
    }
}

/// The layout vocabulary: the element kind each key names.
pub open spec fn element_kind_matches(key: Seq<char>, e: LayoutElementAst) -> bool {
    if key == "머리말"@ {
        e is Header
    } else if key == "구역"@ {
        e is Section
    } else if key == "제목"@ {
        e is Heading
    } else if key == "자리"@ {
        e is Placeholder
    } else if key == "입력"@ {
        e is Input
    } else if key == "폼"@ {
        e is Form
    } else if key == "목록"@ {
        e is List
    } else if key == "버튼"@ {
        e is Button
    } else {
        false
    }
}

/// The input elements among `ls`, in order.
pub open spec fn inputs_of(ls: Seq<LayoutView>) -> Seq<LayoutView>
    decreases ls.len(),
{
    if ls.len() == 0 {
        Seq::empty()
    } else {
        (if ls[0] is Input {
            seq![ls[0]]
        } else {
            Seq::empty()
        }) + inputs_of(ls.drop_first())
    }
}

/// The layout element a value describes: a mapping with exactly one entry whose key names
/// the kind. Headers and sections hold the elements of their sequence, a form only the
/// inputs among them; headings and placeholders take a text, an input a reference.
pub open spec fn element_spec(v: FmValue) -> Option<LayoutView>
    decreases v, 0int, 0int,
{
    match v {
        FmValue::Mapping { entries, .. } => if entries@.len() != 1 {
            None
        } else {
            proof {
                assert(decreases_to!(v => entries@[0].value));
            }
            let e = entries@[0];
            let key = e.key.text@;
            let span = e.key.span;
            if key == "머리말"@ {
                Some(
                    LayoutView::Header {
                        id: None,
                        children: elements_upto(e.value, items_of(e.value).len() as int),
                        span,
                    },
                )
            } else if key == "구역"@ {
                Some(
                    LayoutView::Section {
                        id: None,
                        children: elements_upto(e.value, items_of(e.value).len() as int),
                        span,
                    },
                )
            } else if key == "제목"@ {
                match text_value_spec(e.value) {
                    Some(t) => Some(LayoutView::Heading { id: None, text: t, span }),
                    None => None,
                }
            } else if key == "자리"@ {
                match text_value_spec(e.value) {
                    Some(t) => Some(LayoutView::Placeholder { id: None, text: t, span }),
                    None => None,
                }
            } else if key == "입력"@ {
                match ref_value_spec(e.value) {
                    Some(f) => Some(LayoutView::Input { id: None, field: f, span }),
                    None => None,
                }
            } else if key == "폼"@ {
                Some(
                    LayoutView::Form {
                        id: None,
                        inputs: inputs_of(elements_upto(e.value, items_of(e.value).len() as int)),
                        span,
                    },
                )
            } else if key == "목록"@ {
                list_spec(e.value, span)
            } else if key == "버튼"@ {
                button_spec(e.value, span)
            } else {
                None
            }
        },
        _ => None,
    }
}

/// The elements described by the first `n` items of a sequence value, items that describe
/// none left out.
pub open spec fn elements_upto(v: FmValue, n: int) -> Seq<LayoutView>
    decreases v, 1int, n,
{
    if n <= 0 || n > items_of(v).len() {
        Seq::empty()
    } else {
        proof {
            if let FmValue::Sequence { items, .. } = v {
                assert(decreases_to!(v => items@[n - 1]));
            }
        }
        match element_spec(items_of(v)[n - 1]) {
            Some(e) => elements_upto(v, n - 1).push(e),
            None => elements_upto(v, n - 1),
        }
    }
}

/// The span an element view was declared at.
pub open spec fn lv_span(l: LayoutView) -> Span {
    match l {
        LayoutView::Header { span, .. } => span,
        LayoutView::Section { span, .. } => span,
        LayoutView::Heading { span, .. } => span,
        LayoutView::Form { span, .. } => span,
        LayoutView::Input { span, .. } => span,
        LayoutView::List { span, .. } => span,
        LayoutView::Button { span, .. } => span,
        LayoutView::Placeholder { span, .. } => span,
    }
}

/// A form reports each child that is no input, in order.
pub open spec fn non_input_diagnostics(ls: Seq<LayoutView>) -> Seq<crate::diagnostic::DiagnosticView>
    decreases ls.len(),
{
    if ls.len() == 0 {
        Seq::empty()
    } else {
        (if ls[0] is Input {
            Seq::empty()
        } else {
            seq![structure_error_view(lv_span(ls[0]), "입력"@)]
        }) + non_input_diagnostics(ls.drop_first())
    }
}

/// What reading one layout element reports.
pub open spec fn element_diagnostics(v: FmValue) -> Seq<crate::diagnostic::DiagnosticView>
    decreases v, 0int, 0int,
{
    match v {
        FmValue::Mapping { entries, .. } => if entries@.len() != 1 {
            if entries@.len() != 0 {
                seq![structure_error_view(v.span_of(), "layout_element"@)]
            } else {
                Seq::empty()
            }
        } else {
            proof {
                assert(decreases_to!(v => entries@[0].value));
            }
            let e = entries@[0];
            let key = e.key.text@;
            let span = e.key.span;
            let n = items_of(e.value).len() as int;
            if key == "머리말"@ || key == "구역"@ {
                sequence_diagnostics(e.value, "layout_sequence"@) + element_diagnostics_upto(e.value, n)
            } else if key == "제목"@ || key == "자리"@ {
                scalar_diagnostics(e.value, "text"@)
            } else if key == "입력"@ {
                ref_value_diagnostics(e.value)
            } else if key == "폼"@ {
                sequence_diagnostics(e.value, "layout_sequence"@) + element_diagnostics_upto(e.value, n)
                    + non_input_diagnostics(elements_upto(e.value, n))
            } else if key == "목록"@ {
                list_diagnostics(e.value, span)
            } else if key == "버튼"@ {
                button_diagnostics(e.value, span)
            } else {
                seq![
                    crate::diagnostic::with_argument_view(
                        crate::diagnostic::error_view(
                            UNKNOWN_LAYOUT_ELEMENT@,
                            "ko.frontmatter.unknown_layout_element"@,
                            span,
                        ),
                        "element"@,
                        key,
                    ),
                ]
            }
        },
        _ => mapping_diagnostics(v, "layout_element"@),
    }
}

/// What reading the elements of the first `n` items of a sequence value reports.
pub open spec fn element_diagnostics_upto(v: FmValue, n: int) -> Seq<crate::diagnostic::DiagnosticView>
    decreases v, 1int, n,
{
    if n <= 0 || n > items_of(v).len() {
        Seq::empty()
    } else {
        proof {
            if let FmValue::Sequence { items, .. } = v {
                assert(decreases_to!(v => items@[n - 1]));
            }
        }
        element_diagnostics_upto(v, n - 1) + element_diagnostics(items_of(v)[n - 1])
    }
}

/// What reading a layout sequence reports.
pub open spec fn elements_diagnostics(v: FmValue) -> Seq<crate::diagnostic::DiagnosticView> {
    sequence_diagnostics(v, "layout_sequence"@) + element_diagnostics_upto(v, items_of(v).len() as int)
}

fn build_elements(value: &FmValue, diagnostics: &mut Vec<Diagnostic>) -> (elements: Vec<
    LayoutElementAst,
>)
    ensures
        layouts_view(elements@) == elements_upto(*value, items_of(*value).len() as int),
        diagnostics_view(final(diagnostics)@) == diagnostics_view(old(diagnostics)@) + elements_diagnostics(
            *value,
        ),
    decreases value, 1int,
{
    let mut elements: Vec<LayoutElementAst> = Vec::new();
    let items = expect_sequence(value, "layout_sequence", diagnostics);
    let ghost d0 = diagnostics_view(diagnostics@);
    proof {
        assert(items@ =~= items_of(*value));
        assert(d0 + element_diagnostics_upto(*value, 0) =~= d0);
    }
    let mut i: usize = 0;
    while i < items.len()
        invariant
            value matches FmValue::Sequence { items: its, .. } ==> items@ == its@,
            !(value is Sequence) ==> items@.len() == 0,
            items@ == items_of(*value),
            i <= items@.len(),
            layouts_view(elements@) == elements_upto(*value, i as int),
            d0 == diagnostics_view(old(diagnostics)@) + sequence_diagnostics(*value, "layout_sequence"@),
            diagnostics_view(diagnostics@) == d0 + element_diagnostics_upto(*value, i as int),
        decreases items@.len() - i,
    {
        proof {
            if let FmValue::Sequence { items: its, .. } = value {
                assert(decreases_to!(value => items@[i as int]));
            }
        }
        let ghost dprev = diagnostics_view(diagnostics@);
        let built = build_element(&items[i], diagnostics);
        proof {
            assert(diagnostics_view(diagnostics@) =~= d0 + element_diagnostics_upto(*value, i + 1));
        }
        match built {
            Some(e) => {
                let ghost before = elements@;
                elements.push(e);
                proof {
                    assert(elements@.subrange(0, elements@.len() - 1) =~= before);
                }
            },
            None => {},
        }
        i = i + 1;
    }
    elements
}

/// One layout element: a mapping with exactly one entry whose key names the element kind.
fn build_element(value: &FmValue, diagnostics: &mut Vec<Diagnostic>) -> (r: Option<LayoutElementAst>)
    ensures
        r matches Some(e) ==> value matches FmValue::Mapping { entries, .. } && entries@.len() == 1
            && element_kind_matches(entries@[0].key.text@, e),
        opt_layout_view(r) == element_spec(*value),
        diagnostics_view(final(diagnostics)@) == diagnostics_view(old(diagnostics)@) + element_diagnostics(
            *value,
        ),
    decreases value, 0int,
{
    let ghost d0 = diagnostics_view(diagnostics@);
    let entries = expect_mapping(value, "layout_element", diagnostics);
    if entries.len() != 1 {
        if entries.len() != 0 {
            push_diagnostic(diagnostics, structure_error(value.span(), "layout_element"));
        }
        proof {
            if value is Mapping {
                if entries@.len() != 0 {
                    assert(diagnostics_view(diagnostics@) =~= d0 + seq![
                        structure_error_view(value.span_of(), "layout_element"@),
                    ]);
                } else {
                    assert(diagnostics_view(diagnostics@) =~= d0 + Seq::<crate::diagnostic::DiagnosticView>::empty());
                }
            } else if value is Empty || value is Rejected {
                assert(diagnostics_view(diagnostics@) =~= d0 + Seq::<crate::diagnostic::DiagnosticView>::empty());
            } else {
                assert(diagnostics_view(diagnostics@) =~= d0 + seq![
                    structure_error_view(value.span_of(), "layout_element"@),
                ]);
            }
        }
        return None;
    }
    let entry = &entries[0];
    proof {
        if let FmValue::Mapping { entries: es, .. } = value {
            assert(decreases_to!(value => entry.value));
        }
    }
    let span = entry.key.span;
    let key = entry.key.text.as_str();
    if str_eq(key, "머리말") {
        Some(LayoutElementAst::Header { id: None, children: build_elements(&entry.value, diagnostics), span })
    } else if str_eq(key, "구역") {
        Some(LayoutElementAst::Section { id: None, children: build_elements(&entry.value, diagnostics), span })
    } else if str_eq(key, "제목") {
        match read_text_value(&entry.value, diagnostics) {
            Some(text) => Some(LayoutElementAst::Heading { id: None, text, span }),
            None => None,
        }
    } else if str_eq(key, "자리") {
        match read_text_value(&entry.value, diagnostics) {
            Some(text) => Some(LayoutElementAst::Placeholder { id: None, text, span }),
            None => None,
        }
    } else if str_eq(key, "입력") {
        match read_ref_value(&entry.value, diagnostics) {
            Some(field) => Some(LayoutElementAst::Input { id: None, field, span }),
            None => None,
        }
    } else if str_eq(key, "폼") {
        let children = build_elements(&entry.value, diagnostics);
        let ghost all = children@.map_values(|e: LayoutElementAst| layout_view(e));
        let ghost dstart = diagnostics_view(diagnostics@);
        let ghost mut dd: Seq<crate::diagnostic::DiagnosticView> = Seq::empty();
        proof {
            lemma_layouts_view(children@);
        }
        let mut inputs: Vec<LayoutElementAst> = Vec::new();
        let mut children = children;
        proof {
            assert(inputs@.map_values(|e: LayoutElementAst| layout_view(e)) + inputs_of(
                children@.map_values(|e: LayoutElementAst| layout_view(e)),
            ) =~= inputs_of(all));
            assert(dd + non_input_diagnostics(all) =~= non_input_diagnostics(all));
            assert(dstart + dd =~= dstart);
        }
        while children.len() > 0
            invariant
                inputs@.map_values(|e: LayoutElementAst| layout_view(e)) + inputs_of(
                    children@.map_values(|e: LayoutElementAst| layout_view(e)),
                ) == inputs_of(all),
                dd + non_input_diagnostics(children@.map_values(|e: LayoutElementAst| layout_view(e)))
                    == non_input_diagnostics(all),
                diagnostics_view(diagnostics@) == dstart + dd,
            decreases children@.len(),
        {
            let ghost cs = children@.map_values(|e: LayoutElementAst| layout_view(e));
            let ghost before = inputs@;
            let child = children.remove(0);
            proof {
                assert(children@.map_values(|e: LayoutElementAst| layout_view(e)) =~= cs.drop_first());
                assert(cs[0] == layout_view(child));
            }
            match child {
                LayoutElementAst::Input { .. } => {
                    inputs.push(child);
                    proof {
                        assert(inputs@.map_values(|e: LayoutElementAst| layout_view(e)) =~= before.map_values(
                            |e: LayoutElementAst| layout_view(e),
                        ).push(cs[0]));
                        assert(inputs@.map_values(|e: LayoutElementAst| layout_view(e)) + inputs_of(
                            cs.drop_first(),
                        ) =~= before.map_values(|e: LayoutElementAst| layout_view(e)) + inputs_of(cs));
                        assert(non_input_diagnostics(cs) =~= non_input_diagnostics(cs.drop_first()));
                    }
                },
                other => {
                    let sp = element_span(&other);
                    let ghost dprev = dd;
                    push_diagnostic(diagnostics, structure_error(sp, "입력"));
                    proof {
                        assert(inputs_of(cs) =~= inputs_of(cs.drop_first()));
                        assert(lv_span(cs[0]) == sp);
                        dd = dprev.push(structure_error_view(sp, "입력"@));
                        assert(non_input_diagnostics(cs) =~= seq![structure_error_view(sp, "입력"@)]
                            + non_input_diagnostics(cs.drop_first()));
                        assert(dd + non_input_diagnostics(cs.drop_first()) =~= dprev + non_input_diagnostics(cs));
                        assert(diagnostics_view(diagnostics@) =~= dstart + dd);
                    }
                },
            }
        }
        proof {
            assert(inputs@.map_values(|e: LayoutElementAst| layout_view(e)) =~= inputs_of(all));
            lemma_layouts_view(inputs@);
            assert(children@.map_values(|e: LayoutElementAst| layout_view(e)) =~= Seq::<LayoutView>::empty());
            assert(dd + Seq::<crate::diagnostic::DiagnosticView>::empty() =~= dd);
            assert(diagnostics_view(diagnostics@) =~= d0 + element_diagnostics(*value));
        }
        Some(LayoutElementAst::Form { id: None, inputs, span })
    } else if str_eq(key, "목록") {
        build_list(&entry.value, span, diagnostics)
    } else if str_eq(key, "버튼") {
        build_button(&entry.value, span, diagnostics)
    } else {
        push_diagnostic(
            diagnostics,
            Diagnostic::error(
                UNKNOWN_LAYOUT_ELEMENT,
                "ko.frontmatter.unknown_layout_element",
                span,
            ).with_argument("element", key),
        );
        None
    }
}

/// The entries of a mapping value; any other value has none.
pub open spec fn entries_of(v: FmValue) -> Seq<FmEntry> {
    match v {
        FmValue::Mapping { entries, .. } => entries@,
        _ => Seq::empty(),
    }
}

/// The items of a sequence value; any other value has none.
pub open spec fn items_of(v: FmValue) -> Seq<FmValue> {
    match v {
        FmValue::Sequence { items, .. } => items@,
        _ => Seq::empty(),
    }
}

/// The text of a scalar value.
pub open spec fn text_value_spec(v: FmValue) -> Option<Seq<char>> {
    match v {
        FmValue::Scalar(sc) => Some(sc.text@),
        _ => None,
    }
}

/// A coined id: an unquoted, id-like scalar.
pub open spec fn stable_id_value_spec(v: FmValue) -> Option<Seq<char>> {
    match v {
        FmValue::Scalar(sc) => if !sc.quoted && id_like(sc.text@) {
            Some(sc.text@)
        } else {
            None
        },
        _ => None,
    }
}

/// The references among the first `n` values, in order; values holding none are skipped.
pub open spec fn refs_of_values(vs: Seq<FmValue>, n: int) -> Seq<RefView>
    decreases n,
{
    if n <= 0 {
        Seq::empty()
    } else {
        match ref_value_spec(vs[n - 1]) {
            Some(r) => refs_of_values(vs, n - 1).push(r),
            None => refs_of_values(vs, n - 1),
        }
    }
}

/// The model and fields of a list body after its first `n` entries: each live `모델` entry
/// sets the model anew, each live `필드` entry adds the references its sequence holds.
pub open spec fn list_fields(es: Seq<FmEntry>, n: int) -> (Option<RefView>, Seq<RefView>)
    decreases n,
{
    if n <= 0 {
        (None, Seq::empty())
    } else {
        let (model, fields) = list_fields(es, n - 1);
        let e = es[n - 1];
        if e.value is Rejected {
            (model, fields)
        } else if e.key.text@ == "모델"@ {
            (ref_value_spec(e.value), fields)
        } else if e.key.text@ == "필드"@ {
            (model, fields + refs_of_values(items_of(e.value), items_of(e.value).len() as int))
        } else {
            (model, fields)
        }
    }
}

/// A list element at `span`, when its body names a model.
pub open spec fn list_spec(v: FmValue, span: Span) -> Option<LayoutView> {
    let es = entries_of(v);
    let (model, fields) = list_fields(es, es.len() as int);
    match model {
        Some(m) => Some(LayoutView::List { id: None, model: m, fields, span }),
        None => None,
    }
}

pub open spec fn opt_layout_view(o: Option<LayoutElementAst>) -> Option<LayoutView> {
    match o {
        Some(e) => Some(layout_view(e)),
        None => None,
    }
}

/// A list element: a model and its fields.
fn build_list(value: &FmValue, span: Span, diagnostics: &mut Vec<Diagnostic>) -> (r: Option<LayoutElementAst>)
    ensures
        r matches Some(e) ==> e is List,
        opt_layout_view(r) == list_spec(*value, span),
        diagnostics_view(final(diagnostics)@) == diagnostics_view(old(diagnostics)@) + list_diagnostics(
            *value,
            span,
        ),
{
    let fields = expect_mapping(value, "list_body", diagnostics);
    let ghost es = entries_of(*value);
    let ghost d0 = diagnostics_view(old(diagnostics)@) + mapping_diagnostics(*value, "list_body"@);
    proof {
        assert(fields@ =~= es);
        assert(diagnostics_view(diagnostics@) =~= d0);
        assert(d0 + list_field_diagnostics(es, 0) =~= d0);
    }
    let mut model: Option<FrontmatterRefAst> = None;
    let mut field_refs: Vec<FrontmatterRefAst> = Vec::new();
    let mut i: usize = 0;
    proof {
        assert(refs_view(field_refs@) =~= Seq::<RefView>::empty());
    }
    while i < fields.len()
        invariant
            fields@ == es,
            es == entries_of(*value),
            i <= es.len(),
            (opt_ref_view(model), refs_view(field_refs@)) == list_fields(es, i as int),
            d0 == diagnostics_view(old(diagnostics)@) + mapping_diagnostics(*value, "list_body"@),
            diagnostics_view(diagnostics@) == d0 + list_field_diagnostics(es, i as int),
        decreases fields@.len() - i,
    {
        let field = &fields[i];
        proof {
            assert(*field == es[i as int]);
        }
        i = i + 1;
        if is_rejected(&field.value) {
            continue;
        }
        let key = field.key.text.as_str();
        if str_eq(key, "모델") {
            model = read_ref_value(&field.value, diagnostics);
        } else if str_eq(key, "필드") {
            let items = expect_sequence(&field.value, "field_sequence", diagnostics);
            let ghost its = items_of(field.value);
            let ghost before = refs_view(field_refs@);
            let ghost dstart = diagnostics_view(diagnostics@);
            proof {
                assert(items@ =~= its);
                assert(dstart + refs_diagnostics(its, 0) =~= dstart);
            }
            let mut j: usize = 0;
            while j < items.len()
                invariant
                    items@ == its,
                    j <= its.len(),
                    refs_view(field_refs@) == before + refs_of_values(its, j as int),
                    diagnostics_view(diagnostics@) == dstart + refs_diagnostics(its, j as int),
                decreases items@.len() - j,
            {
                let got = read_ref_value(&items[j], diagnostics);
                proof {
                    assert(its[j as int] == items@[j as int]);
                    assert(opt_ref_view(got) == ref_value_spec(its[j as int]));
                }
                match got {
                    Some(reference) => {
                        let ghost prev = field_refs@;
                        field_refs.push(reference);
                        proof {
                            assert(ref_value_spec(its[j as int]) == Some(reference@));
                            assert(refs_of_values(its, j + 1) == refs_of_values(its, j as int).push(reference@));
                            assert(refs_view(field_refs@) =~= refs_view(prev).push(reference@));
                            assert(refs_view(field_refs@) =~= before + refs_of_values(its, j + 1));
                        }
                    },
                    None => {
                        proof {
                            assert(refs_of_values(its, j + 1) == refs_of_values(its, j as int));
                        }
                    },
                }
                proof {
                    assert(diagnostics_view(diagnostics@) =~= dstart + refs_diagnostics(its, j + 1));
                }
                j = j + 1;
            }
        } else {
            push_diagnostic(diagnostics, unknown_key(&field.key));
        }
        proof {
            assert(diagnostics_view(diagnostics@) =~= d0 + list_field_diagnostics(es, i as int));
        }
    }
    let ghost d1 = diagnostics_view(diagnostics@);
    proof {
        assert(d1 =~= diagnostics_view(old(diagnostics)@) + mapping_diagnostics(*value, "list_body"@)
            + list_field_diagnostics(es, es.len() as int));
    }
    match model {
        Some(model) => {
            proof {
                assert(diagnostics_view(diagnostics@) =~= d1 + Seq::<crate::diagnostic::DiagnosticView>::empty());
            }
            Some(LayoutElementAst::List { id: None, model, fields: field_refs, span })
        },
        None => {
            // A value that could not be read already has its diagnostic; only a model that is
            // not written at all is reported missing.
            if find(fields, "모델").is_none() && !has_rejected(fields) {
                push_diagnostic(diagnostics, structure_error(span, "모델"));
            }
            proof {
                assert(diagnostics_view(diagnostics@) =~= d1 + missing_diagnostics(es, "모델"@, span));
            }
            None
        },
    }
}

/// The id, label and action of a button body after its first `n` entries: each live `id`,
/// `이름` or `행동` entry sets its part anew.
pub open spec fn button_fields(es: Seq<FmEntry>, n: int) -> (Option<Seq<char>>, Option<Seq<char>>, Option<RefView>)
    decreases n,
{
    if n <= 0 {
        (None, None, None)
    } else {
        let (id, name, action) = button_fields(es, n - 1);
        let e = es[n - 1];
        if e.value is Rejected {
            (id, name, action)
        } else if e.key.text@ == "id"@ {
            (stable_id_value_spec(e.value), name, action)
        } else if e.key.text@ == "이름"@ {
            (id, text_value_spec(e.value), action)
        } else if e.key.text@ == "행동"@ {
            (id, name, ref_value_spec(e.value))
        } else {
            (id, name, action)
        }
    }
}

/// What asking for a mapping reports: nothing for a mapping, an empty or a rejected place, a
/// structure error for anything else.
pub open spec fn mapping_diagnostics(v: FmValue, expected: Seq<char>) -> Seq<crate::diagnostic::DiagnosticView> {
    match v {
        FmValue::Mapping { .. } => Seq::empty(),
        FmValue::Empty { .. } => Seq::empty(),
        FmValue::Rejected { .. } => Seq::empty(),
        _ => seq![structure_error_view(v.span_of(), expected)],
    }
}

/// What asking for a sequence reports: nothing for a sequence, an empty or a rejected place, a
/// structure error for anything else.
pub open spec fn sequence_diagnostics(v: FmValue, expected: Seq<char>) -> Seq<crate::diagnostic::DiagnosticView> {
    match v {
        FmValue::Sequence { .. } => Seq::empty(),
        FmValue::Empty { .. } => Seq::empty(),
        FmValue::Rejected { .. } => Seq::empty(),
        _ => seq![structure_error_view(v.span_of(), expected)],
    }
}

/// What reading the references among the first `n` values reports.
pub open spec fn refs_diagnostics(vs: Seq<FmValue>, n: int) -> Seq<crate::diagnostic::DiagnosticView>
    decreases n,
{
    if n <= 0 {
        Seq::empty()
    } else {
        refs_diagnostics(vs, n - 1) + ref_value_diagnostics(vs[n - 1])
    }
}

/// What the first `n` entries of a list body report.
pub open spec fn list_field_diagnostics(es: Seq<FmEntry>, n: int) -> Seq<crate::diagnostic::DiagnosticView>
    decreases n,
{
    if n <= 0 {
        Seq::empty()
    } else {
        let prev = list_field_diagnostics(es, n - 1);
        let e = es[n - 1];
        if e.value is Rejected {
            prev
        } else if e.key.text@ == "모델"@ {
            prev + ref_value_diagnostics(e.value)
        } else if e.key.text@ == "필드"@ {
            prev + sequence_diagnostics(e.value, "field_sequence"@) + refs_diagnostics(
                items_of(e.value),
                items_of(e.value).len() as int,
            )
        } else {
            prev.push(unknown_key_view(e.key))
        }
    }
}

/// What reading a list at `span` reports: its body, its entries, then a model it lacks.
pub open spec fn list_diagnostics(v: FmValue, span: Span) -> Seq<crate::diagnostic::DiagnosticView> {
    let es = entries_of(v);
    mapping_diagnostics(v, "list_body"@) + list_field_diagnostics(es, es.len() as int) + if list_fields(
        es,
        es.len() as int,
    ).0 is None {
        missing_diagnostics(es, "모델"@, span)
    } else {
        Seq::empty()
    }
}

/// What reading a coined id reports.
pub open spec fn stable_id_diagnostics(v: FmValue) -> Seq<crate::diagnostic::DiagnosticView> {
    match v {
        FmValue::Scalar(sc) => if !sc.quoted && id_like(sc.text@) {
            Seq::empty()
        } else {
            seq![scalar_error_view(sc.span, "stable_id"@)]
        },
        _ => scalar_diagnostics(v, "stable_id"@),
    }
}

/// A key that is missing is reported at `span`, unless some entry was rejected: the rejected
/// key may well have been the one.
pub open spec fn missing_diagnostics(es: Seq<FmEntry>, key: Seq<char>, span: Span) -> Seq<crate::diagnostic::DiagnosticView> {
    if find_spec(es, key) is None && !(exists|k: int| 0 <= k < es.len() && (#[trigger] es[k]).value is Rejected) {
        seq![structure_error_view(span, key)]
    } else {
        Seq::empty()
    }
}

/// What the first `n` entries of a button body report.
pub open spec fn button_field_diagnostics(es: Seq<FmEntry>, n: int) -> Seq<crate::diagnostic::DiagnosticView>
    decreases n,
{
    if n <= 0 {
        Seq::empty()
    } else {
        let prev = button_field_diagnostics(es, n - 1);
        let e = es[n - 1];
        if e.value is Rejected {
            prev
        } else if e.key.text@ == "id"@ {
            prev + stable_id_diagnostics(e.value)
        } else if e.key.text@ == "이름"@ {
            prev + scalar_diagnostics(e.value, "text"@)
        } else if e.key.text@ == "행동"@ {
            prev + ref_value_diagnostics(e.value)
        } else {
            prev.push(unknown_key_view(e.key))
        }
    }
}

/// What reading a button at `span` reports: its body, its entries, then the first of id and
/// label that it lacks.
pub open spec fn button_diagnostics(v: FmValue, span: Span) -> Seq<crate::diagnostic::DiagnosticView> {
    let es = entries_of(v);
    let (id, name, _) = button_fields(es, es.len() as int);
    mapping_diagnostics(v, "button_body"@) + button_field_diagnostics(es, es.len() as int) + if id is None {
        missing_diagnostics(es, "id"@, span)
    } else if name is None {
        missing_diagnostics(es, "이름"@, span)
    } else {
        Seq::empty()
    }
}

/// A button element at `span`, when its body gives it an id and a label.
pub open spec fn button_spec(v: FmValue, span: Span) -> Option<LayoutView> {
    let es = entries_of(v);
    let (id, name, action) = button_fields(es, es.len() as int);
    match (id, name) {
        (Some(i), Some(n)) => Some(LayoutView::Button { id: i, name: n, action, span }),
        _ => None,
    }
}

/// A button element: its coined id, its label and an optional action.
fn build_button(value: &FmValue, span: Span, diagnostics: &mut Vec<Diagnostic>) -> (r: Option<LayoutElementAst>)
    ensures
        r matches Some(e) ==> e is Button,
        opt_layout_view(r) == button_spec(*value, span),
        diagnostics_view(final(diagnostics)@) == diagnostics_view(old(diagnostics)@) + button_diagnostics(
            *value,
            span,
        ),
{
    let fields = expect_mapping(value, "button_body", diagnostics);
    let ghost es = entries_of(*value);
    let ghost d0 = diagnostics_view(old(diagnostics)@) + mapping_diagnostics(*value, "button_body"@);
    proof {
        assert(fields@ =~= es);
        assert(diagnostics_view(diagnostics@) =~= d0);
        assert(d0 + button_field_diagnostics(es, 0) =~= d0);
    }
    let mut id: Option<String> = None;
    let mut name: Option<String> = None;
    let mut action: Option<FrontmatterRefAst> = None;
    let mut i: usize = 0;
    while i < fields.len()
        invariant
            fields@ == es,
            es == entries_of(*value),
            i <= es.len(),
            (opt_text(id), opt_text(name), opt_ref_view(action)) == button_fields(es, i as int),
            d0 == diagnostics_view(old(diagnostics)@) + mapping_diagnostics(*value, "button_body"@),
            diagnostics_view(diagnostics@) == d0 + button_field_diagnostics(es, i as int),
        decreases fields@.len() - i,
    {
        let field = &fields[i];
        let ghost dprev = diagnostics_view(diagnostics@);
        proof {
            assert(*field == es[i as int]);
        }
        i = i + 1;
        if is_rejected(&field.value) {
            continue;
        }
        let key = field.key.text.as_str();
        if str_eq(key, "id") {
            id = match expect_scalar(&field.value, "stable_id", diagnostics) {
                Some(scalar) => read_stable_id(scalar, diagnostics),
                None => None,
            };
            proof {
                assert(diagnostics_view(diagnostics@) =~= dprev + stable_id_diagnostics(field.value));
            }
        } else if str_eq(key, "이름") {
            name = read_text_value(&field.value, diagnostics);
        } else if str_eq(key, "행동") {
            action = read_ref_value(&field.value, diagnostics);
        } else {
            push_diagnostic(diagnostics, unknown_key(&field.key));
        }
        proof {
            assert(diagnostics_view(diagnostics@) =~= d0 + button_field_diagnostics(es, i as int));
        }
    }
    let ghost d1 = diagnostics_view(diagnostics@);
    proof {
        assert(d1 =~= diagnostics_view(old(diagnostics)@) + mapping_diagnostics(*value, "button_body"@)
            + button_field_diagnostics(es, es.len() as int));
    }
    let id = match id {
        Some(id) => id,
        None => {
            if find(fields, "id").is_none() && !has_rejected(fields) {
                push_diagnostic(diagnostics, structure_error(span, "id"));
                proof {
                    assert(diagnostics_view(diagnostics@) =~= d1 + missing_diagnostics(es, "id"@, span));
                }
            } else {
                proof {
                    assert(diagnostics_view(diagnostics@) =~= d1 + missing_diagnostics(es, "id"@, span));
                }
            }
            return None;
        },
    };
    let name = match name {
        Some(name) => name,
        None => {
            if find(fields, "이름").is_none() && !has_rejected(fields) {
                push_diagnostic(diagnostics, structure_error(span, "이름"));
                proof {
                    assert(diagnostics_view(diagnostics@) =~= d1 + missing_diagnostics(es, "이름"@, span));
                }
            } else {
                proof {
                    assert(diagnostics_view(diagnostics@) =~= d1 + missing_diagnostics(es, "이름"@, span));
                }
            }
            return None;
        },
    };
    proof {
        assert(diagnostics_view(diagnostics@) =~= d1 + Seq::<crate::diagnostic::DiagnosticView>::empty());
    }
    Some(LayoutElementAst::Button { id, name, action, span })
}

} // verus!

verus! {

/// An entry of the category mapping gives a category when it is live and its key is an
/// unquoted `name(id)`.
pub open spec fn category_entry(e: FmEntry) -> bool {
    !(e.value is Rejected) && !e.key.quoted && named_id_spec(e.key.text@) is Some
}

/// `cs` are the categories that the first `n` entries of the mapping `v` give, in order: each
/// declared by its key at the key's span, a sequence listing its screens, a mapping holding
/// its sub-categories, anything else leaving it empty.
pub open spec fn categories_match(cs: Seq<CategoryAst>, v: FmValue, n: int) -> bool
    decreases v, n,
{
    if n <= 0 || n > entries_of(v).len() {
        cs.len() == 0
    } else {
        let e = entries_of(v)[n - 1];
        if !category_entry(e) {
            categories_match(cs, v, n - 1)
        } else {
            proof {
                if let FmValue::Mapping { entries, .. } = v {
                    assert(decreases_to!(v => entries@[n - 1].value));
                }
            }
            let c = cs.last();
            let (name, id) = named_id_spec(e.key.text@)->Some_0;
            &&& cs.len() > 0
            &&& categories_match(cs.drop_last(), v, n - 1)
            &&& c.declaration.name@ == name
            &&& c.declaration.id@ == id
            &&& c.declaration.span == e.key.span
            &&& c.span == e.key.span
            &&& match e.value {
                FmValue::Sequence { items, .. } => c.children@.len() == 0 && refs_view(c.screens@)
                    == refs_of_values(items@, items@.len() as int),
                FmValue::Mapping { entries, .. } => c.screens@.len() == 0 && categories_match(
                    c.children@,
                    e.value,
                    entries@.len() as int,
                ),
                _ => c.children@.len() == 0 && c.screens@.len() == 0,
            }
        }
    }
}

/// What reading the category mapping `v` reports.
pub open spec fn categories_diagnostics(v: FmValue) -> Seq<crate::diagnostic::DiagnosticView>
    decreases v, 1int, 0int,
{
    mapping_diagnostics(v, "category_mapping"@) + categories_diagnostics_upto(v, entries_of(v).len() as int)
}

/// What reading the first `n` entries of the category mapping `v` reports.
pub open spec fn categories_diagnostics_upto(v: FmValue, n: int) -> Seq<crate::diagnostic::DiagnosticView>
    decreases v, 0int, n,
{
    if n <= 0 || n > entries_of(v).len() {
        Seq::empty()
    } else {
        let prev = categories_diagnostics_upto(v, n - 1);
        let e = entries_of(v)[n - 1];
        if e.value is Rejected {
            prev
        } else if !category_entry(e) {
            prev.push(scalar_error_view(e.key.span, "named_id"@))
        } else {
            proof {
                if let FmValue::Mapping { entries, .. } = v {
                    assert(decreases_to!(v => entries@[n - 1].value));
                }
            }
            prev + match e.value {
                FmValue::Sequence { items, .. } => refs_diagnostics(items@, items@.len() as int),
                FmValue::Mapping { .. } => categories_diagnostics(e.value),
                FmValue::Empty { .. } => Seq::empty(),
                _ => seq![structure_error_view(e.value.span_of(), "category_body"@)],
            }
        }
    }
}

/// The category tree: a mapping of `name(id)` keys whose leaves list screens and whose
/// branches hold sub-categories. Depth is not limited here.
fn build_categories(value: &FmValue, diagnostics: &mut Vec<Diagnostic>) -> (categories: Vec<
    CategoryAst,
>)
    ensures
        categories@.len() <= match value {
            FmValue::Mapping { entries, .. } => entries@.len(),
            _ => 0,
        },
        categories_match(categories@, *value, entries_of(*value).len() as int),
        diagnostics_view(final(diagnostics)@) == diagnostics_view(old(diagnostics)@) + categories_diagnostics(
            *value,
        ),
    decreases value,
{
    let mut categories: Vec<CategoryAst> = Vec::new();
    let entries = expect_mapping(value, "category_mapping", diagnostics);
    let ghost d0 = diagnostics_view(diagnostics@);
    proof {
        assert(d0 + categories_diagnostics_upto(*value, 0) =~= d0);
    }
    let mut i: usize = 0;
    while i < entries.len()
        invariant
            value matches FmValue::Mapping { entries: es, .. } ==> entries@ == es@,
            !(value is Mapping) ==> entries@.len() == 0,
            i <= entries@.len(),
            categories@.len() <= i,
            entries@ == entries_of(*value),
            categories_match(categories@, *value, i as int),
            d0 == diagnostics_view(old(diagnostics)@) + mapping_diagnostics(*value, "category_mapping"@),
            diagnostics_view(diagnostics@) == d0 + categories_diagnostics_upto(*value, i as int),
        decreases entries@.len() - i,
    {
        let entry = &entries[i];
        proof {
            if let FmValue::Mapping { entries: es, .. } = value {
                assert(decreases_to!(value => entry.value));
            }
            assert(*entry == entries_of(*value)[i as int]);
        }
        i = i + 1;
        if is_rejected(&entry.value) {
            continue;
        }
        let ghost dprev = diagnostics_view(diagnostics@);
        let declaration = match read_named_id(&entry.key, diagnostics) {
            Some(d) => d,
            None => {
                proof {
                    assert(diagnostics_view(diagnostics@) =~= d0 + categories_diagnostics_upto(*value, i as int));
                }
                continue;
            },
        };
        let mut category = CategoryAst {
            declaration,
            children: Vec::new(),
            screens: Vec::new(),
            span: entry.key.span,
        };
        match &entry.value {
            FmValue::Sequence { items, .. } => {
                let mut j: usize = 0;
                proof {
                    assert(refs_view(category.screens@) =~= Seq::<RefView>::empty());
                    assert(dprev + refs_diagnostics(items@, 0) =~= dprev);
                }
                while j < items.len()
                    invariant
                        j <= items@.len(),
                        category.children@.len() == 0,
                        category.span == entry.key.span,
                        category.declaration == declaration,
                        refs_view(category.screens@) == refs_of_values(items@, j as int),
                        diagnostics_view(diagnostics@) == dprev + refs_diagnostics(items@, j as int),
                    decreases items@.len() - j,
                {
                    let got = read_ref_value(&items[j], diagnostics);
                    proof {
                        assert(diagnostics_view(diagnostics@) =~= dprev + refs_diagnostics(items@, j + 1));
                    }
                    match got {
                        Some(reference) => {
                            let ghost prev = category.screens@;
                            category.screens.push(reference);
                            proof {
                                assert(refs_view(category.screens@) =~= refs_view(prev).push(reference@));
                            }
                        },
                        None => {},
                    }
                    j = j + 1;
                }
            },
            FmValue::Mapping { .. } => {
                category.children = build_categories(&entry.value, diagnostics);
            },
            FmValue::Empty { .. } => {},
            other => push_diagnostic(diagnostics, structure_error(other.span(), "category_body")),
        }
        proof {
            assert(diagnostics_view(diagnostics@) =~= d0 + categories_diagnostics_upto(*value, i as int));
        }
        let ghost before = categories@;
        categories.push(category);
        proof {
            assert(categories@.drop_last() =~= before);
        }
    }
    proof {
        assert(entries@.len() == entries_of(*value).len());
    }
    categories
}

/// A screen layout as values: its screen, its kind, its elements and its span.
pub struct LayoutShape {
    pub screen: RefView,
    pub kind: Option<ScreenLayoutKindAst>,
    pub elements: Seq<LayoutView>,
    pub span: Span,
}

pub open spec fn layout_shape(l: ScreenLayoutAst) -> LayoutShape {
    LayoutShape { screen: l.screen@, kind: l.kind, elements: layouts_view(l.elements@), span: l.span }
}

/// The kind and elements of a screen body after its first `n` entries: a live `유형` scalar
/// sets the kind, a live `레이아웃` entry the elements.
pub open spec fn screen_body(es: Seq<FmEntry>, n: int) -> (Option<ScreenLayoutKindAst>, Seq<LayoutView>)
    decreases n,
{
    if n <= 0 {
        (None, Seq::empty())
    } else {
        let (kind, elements) = screen_body(es, n - 1);
        let e = es[n - 1];
        if e.value is Rejected {
            (kind, elements)
        } else if e.key.text@ == "유형"@ {
            match e.value {
                FmValue::Scalar(sc) => (screen_kind_spec(sc.text@), elements),
                _ => (kind, elements),
            }
        } else if e.key.text@ == "레이아웃"@ {
            (kind, elements_upto(e.value, items_of(e.value).len() as int))
        } else {
            (kind, elements)
        }
    }
}

/// The layouts the first `n` entries of the `화면` mapping give: one per live entry whose key
/// reads as a reference, at the key's span.
pub open spec fn screen_layouts_upto(es: Seq<FmEntry>, n: int) -> Seq<LayoutShape>
    decreases n,
{
    if n <= 0 {
        Seq::empty()
    } else {
        let rest = screen_layouts_upto(es, n - 1);
        let e = es[n - 1];
        if e.value is Rejected {
            rest
        } else {
            match ref_text_spec(e.key.text@) {
                None => rest,
                Some(t) => {
                    let body = entries_of(e.value);
                    let (kind, elements) = screen_body(body, body.len() as int);
                    rest.push(
                        LayoutShape {
                            screen: RefView { text: t, span: e.key.span },
                            kind,
                            elements,
                            span: e.key.span,
                        },
                    )
                },
            }
        }
    }
}

/// What the first `n` entries of a screen body report.
pub open spec fn screen_body_diagnostics(es: Seq<FmEntry>, n: int) -> Seq<crate::diagnostic::DiagnosticView>
    decreases n,
{
    if n <= 0 {
        Seq::empty()
    } else {
        let prev = screen_body_diagnostics(es, n - 1);
        let e = es[n - 1];
        if e.value is Rejected {
            prev
        } else if e.key.text@ == "유형"@ {
            prev + scalar_diagnostics(e.value, "screen_kind"@) + match e.value {
                FmValue::Scalar(sc) => if screen_kind_spec(sc.text@) is None {
                    seq![scalar_error_view(sc.span, "screen_kind"@)]
                } else {
                    Seq::empty()
                },
                _ => Seq::empty(),
            }
        } else if e.key.text@ == "레이아웃"@ {
            prev + elements_diagnostics(e.value)
        } else {
            prev.push(unknown_key_view(e.key))
        }
    }
}

/// What the first `n` entries of the `화면` mapping report.
pub open spec fn screen_layouts_diagnostics(es: Seq<FmEntry>, n: int) -> Seq<crate::diagnostic::DiagnosticView>
    decreases n,
{
    if n <= 0 {
        Seq::empty()
    } else {
        let prev = screen_layouts_diagnostics(es, n - 1);
        let e = es[n - 1];
        if e.value is Rejected {
            prev
        } else if ref_text_spec(e.key.text@) is None {
            prev.push(scalar_error_view(e.key.span, "reference"@))
        } else {
            let body = entries_of(e.value);
            prev + mapping_diagnostics(e.value, "screen_body"@) + screen_body_diagnostics(body, body.len() as int)
        }
    }
}

fn build_screen_layouts(value: &FmValue, diagnostics: &mut Vec<Diagnostic>) -> (layouts: Vec<
    ScreenLayoutAst,
>)
    ensures
        layouts@.len() <= match value {
            FmValue::Mapping { entries, .. } => entries@.len(),
            _ => 0,
        },
        layouts@.map_values(|l: ScreenLayoutAst| layout_shape(l)) == screen_layouts_upto(
            entries_of(*value),
            entries_of(*value).len() as int,
        ),
        diagnostics_view(final(diagnostics)@) == diagnostics_view(old(diagnostics)@) + mapping_diagnostics(
            *value,
            "screen_mapping"@,
        ) + screen_layouts_diagnostics(entries_of(*value), entries_of(*value).len() as int),
{
    let mut layouts: Vec<ScreenLayoutAst> = Vec::new();
    let entries = expect_mapping(value, "screen_mapping", diagnostics);
    let ghost es = entries_of(*value);
    let ghost d0 = diagnostics_view(diagnostics@);
    proof {
        assert(entries@ =~= es);
        assert(layouts@.map_values(|l: ScreenLayoutAst| layout_shape(l)) =~= Seq::<LayoutShape>::empty());
        assert(d0 + screen_layouts_diagnostics(es, 0) =~= d0);
        assert(d0 =~= diagnostics_view(old(diagnostics)@) + mapping_diagnostics(*value, "screen_mapping"@));
    }
    let mut i: usize = 0;
    while i < entries.len()
        invariant
            value matches FmValue::Mapping { entries: es, .. } ==> entries@ == es@,
            !(value is Mapping) ==> entries@.len() == 0,
            entries@ == es,
            es == entries_of(*value),
            i <= entries@.len(),
            layouts@.len() <= i,
            layouts@.map_values(|l: ScreenLayoutAst| layout_shape(l)) == screen_layouts_upto(es, i as int),
            d0 == diagnostics_view(old(diagnostics)@) + mapping_diagnostics(*value, "screen_mapping"@),
            diagnostics_view(diagnostics@) == d0 + screen_layouts_diagnostics(es, i as int),
        decreases entries@.len() - i,
    {
        let entry = &entries[i];
        proof {
            assert(*entry == es[i as int]);
        }
        i = i + 1;
        if is_rejected(&entry.value) {
            continue;
        }
        let ghost dprev = diagnostics_view(diagnostics@);
        let screen = match read_ref(&entry.key, diagnostics) {
            Some(s) => s,
            None => {
                proof {
                    assert(diagnostics_view(diagnostics@) =~= d0 + screen_layouts_diagnostics(es, i as int));
                }
                continue;
            },
        };
        let mut layout = ScreenLayoutAst {
            screen,
            kind: None,
            elements: Vec::new(),
            span: entry.key.span,
        };
        let fields = expect_mapping(&entry.value, "screen_body", diagnostics);
        let ghost body = entries_of(entry.value);
        let ghost d1 = diagnostics_view(diagnostics@);
        proof {
            assert(fields@ =~= body);
            assert(layouts_view(layout.elements@) =~= Seq::<LayoutView>::empty());
            assert(d1 + screen_body_diagnostics(body, 0) =~= d1);
        }
        let mut j: usize = 0;
        while j < fields.len()
            invariant
                fields@ == body,
                j <= body.len(),
                layout.screen == screen,
                layout.span == entry.key.span,
                (layout.kind, layouts_view(layout.elements@)) == screen_body(body, j as int),
                diagnostics_view(diagnostics@) == d1 + screen_body_diagnostics(body, j as int),
            decreases fields@.len() - j,
        {
            let field = &fields[j];
            proof {
                assert(*field == body[j as int]);
            }
            let ghost dj = diagnostics_view(diagnostics@);
            j = j + 1;
            if is_rejected(&field.value) {
                continue;
            }
            let key = field.key.text.as_str();
            if str_eq(key, "유형") {
                match expect_scalar(&field.value, "screen_kind", diagnostics) {
                    Some(scalar) => {
                        layout.kind = read_screen_kind(scalar, diagnostics);
                    },
                    None => {},
                }
                proof {
                    assert(diagnostics_view(diagnostics@) =~= d1 + screen_body_diagnostics(body, j as int));
                }
            } else if str_eq(key, "레이아웃") {
                layout.elements = build_elements(&field.value, diagnostics);
                proof {
                    assert(diagnostics_view(diagnostics@) =~= d1 + screen_body_diagnostics(body, j as int));
                }
            } else {
                push_diagnostic(diagnostics, unknown_key(&field.key));
                proof {
                    assert(diagnostics_view(diagnostics@) =~= d1 + screen_body_diagnostics(body, j as int));
                }
            }
        }
        let ghost before = layouts@;
        layouts.push(layout);
        proof {
            assert(layouts@.map_values(|l: ScreenLayoutAst| layout_shape(l)) =~= before.map_values(
                |l: ScreenLayoutAst| layout_shape(l),
            ).push(layout_shape(layouts@.last())));
            assert(diagnostics_view(diagnostics@) =~= d0 + screen_layouts_diagnostics(es, i as int));
        }
    }
    layouts
}

/// Is `key` one of the keys a path entry may have?
fn is_path_key(key: &str) -> (b: bool)
    ensures
        b == (key@ == "출발"@ || key@ == "도착"@ || key@ == "설명"@),
{
    str_eq(key, "출발") || str_eq(key, "도착") || str_eq(key, "설명")
}

/// A screen path as values: its source screen and element, its target, its label and span.
pub struct PathShape {
    pub source_screen: RefView,
    pub source_element: RefView,
    pub target_screen: RefView,
    pub label: Option<Seq<char>>,
    pub span: Span,
}

pub open spec fn path_shape(p: ScreenPathAst) -> PathShape {
    PathShape {
        source_screen: p.source_screen@,
        source_element: p.source_element@,
        target_screen: p.target_screen@,
        label: opt_text(p.label),
        span: p.span,
    }
}

/// The path one item of the `흐름` sequence describes: a mapping whose `출발` is an element
/// path and whose `도착` is a reference, with the text of `설명` as its label.
pub open spec fn path_spec(item: FmValue) -> Option<PathShape> {
    let es = entries_of(item);
    if es.len() == 0 {
        None
    } else {
        match (find_spec(es, "출발"@), find_spec(es, "도착"@)) {
            (Some(source), Some(target)) => match (
                element_path_value_spec(source),
                ref_value_spec(target),
            ) {
                (Some((screen, element)), Some(t)) => Some(
                    PathShape {
                        source_screen: screen,
                        source_element: element,
                        target_screen: t,
                        label: match find_spec(es, "설명"@) {
                            Some(v) => text_value_spec(v),
                            None => None,
                        },
                        span: item.span_of(),
                    },
                ),
                _ => None,
            },
            _ => None,
        }
    }
}

/// What reading an element path reports.
pub open spec fn element_path_diagnostics(v: FmValue) -> Seq<crate::diagnostic::DiagnosticView> {
    match v {
        FmValue::Scalar(sc) => if element_path_spec(sc.text@) is Some {
            Seq::empty()
        } else {
            seq![scalar_error_view(sc.span, "element_path"@)]
        },
        _ => scalar_diagnostics(v, "element_path"@),
    }
}

/// The keys among the first `n` live entries of a path that a path may not have.
pub open spec fn path_key_diagnostics(es: Seq<FmEntry>, n: int) -> Seq<crate::diagnostic::DiagnosticView>
    decreases n,
{
    if n <= 0 {
        Seq::empty()
    } else {
        let prev = path_key_diagnostics(es, n - 1);
        let e = es[n - 1];
        if !(e.value is Rejected) && !(e.key.text@ == "출발"@ || e.key.text@ == "도착"@ || e.key.text@
            == "설명"@) {
            prev.push(unknown_key_view(e.key))
        } else {
            prev
        }
    }
}

/// A missing key is reported at `span` unless some entry was rejected.
pub open spec fn missing_unless_rejected(es: Seq<FmEntry>, key: Seq<char>, span: Span) -> Seq<crate::diagnostic::DiagnosticView> {
    if !(exists|k: int| 0 <= k < es.len() && (#[trigger] es[k]).value is Rejected) {
        seq![structure_error_view(span, key)]
    } else {
        Seq::empty()
    }
}

/// What reading one item of the `흐름` sequence reports: its shape, unknown keys, then the
/// first part that is missing or unreadable, and the label's shape.
pub open spec fn path_item_diagnostics(item: FmValue) -> Seq<crate::diagnostic::DiagnosticView> {
    let es = entries_of(item);
    let head = mapping_diagnostics(item, "path_entry"@);
    if es.len() == 0 {
        head
    } else {
        let keys = head + path_key_diagnostics(es, es.len() as int);
        match find_spec(es, "출발"@) {
            None => keys + missing_unless_rejected(es, "출발"@, item.span_of()),
            Some(source) => match find_spec(es, "도착"@) {
                None => keys + missing_unless_rejected(es, "도착"@, item.span_of()),
                Some(target) => {
                    let path = keys + element_path_diagnostics(source);
                    if element_path_value_spec(source) is None {
                        path
                    } else {
                        let target_d = path + ref_value_diagnostics(target);
                        if ref_value_spec(target) is None {
                            target_d
                        } else {
                            target_d + match find_spec(es, "설명"@) {
                                Some(v) => scalar_diagnostics(v, "text"@),
                                None => Seq::empty(),
                            }
                        }
                    }
                },
            },
        }
    }
}

/// What reading the first `n` items of the `흐름` sequence reports.
pub open spec fn paths_diagnostics_upto(items: Seq<FmValue>, n: int) -> Seq<crate::diagnostic::DiagnosticView>
    decreases n,
{
    if n <= 0 {
        Seq::empty()
    } else {
        paths_diagnostics_upto(items, n - 1) + path_item_diagnostics(items[n - 1])
    }
}

/// The paths the first `n` items describe, in order.
pub open spec fn paths_upto(items: Seq<FmValue>, n: int) -> Seq<PathShape>
    decreases n,
{
    if n <= 0 {
        Seq::empty()
    } else {
        match path_spec(items[n - 1]) {
            Some(p) => paths_upto(items, n - 1).push(p),
            None => paths_upto(items, n - 1),
        }
    }
}

/// Screen paths: each leaves from an element inside a screen and arrives at a screen.
fn build_paths(value: &FmValue, diagnostics: &mut Vec<Diagnostic>) -> (paths: Vec<ScreenPathAst>)
    ensures
        paths@.len() <= match value {
            FmValue::Sequence { items, .. } => items@.len(),
            _ => 0,
        },
        paths@.map_values(|p: ScreenPathAst| path_shape(p)) == paths_upto(
            items_of(*value),
            items_of(*value).len() as int,
        ),
        diagnostics_view(final(diagnostics)@) == diagnostics_view(old(diagnostics)@) + sequence_diagnostics(
            *value,
            "path_sequence"@,
        ) + paths_diagnostics_upto(items_of(*value), items_of(*value).len() as int),
{
    let mut paths: Vec<ScreenPathAst> = Vec::new();
    let items = expect_sequence(value, "path_sequence", diagnostics);
    let ghost its = items_of(*value);
    let ghost d0 = diagnostics_view(diagnostics@);
    proof {
        assert(items@ =~= its);
        assert(paths@.map_values(|p: ScreenPathAst| path_shape(p)) =~= Seq::<PathShape>::empty());
        assert(d0 + paths_diagnostics_upto(its, 0) =~= d0);
    }
    let mut i: usize = 0;
    while i < items.len()
        invariant
            value matches FmValue::Sequence { items: its, .. } ==> items@ == its@,
            !(value is Sequence) ==> items@.len() == 0,
            items@ == its,
            its == items_of(*value),
            i <= items@.len(),
            paths@.len() <= i,
            paths@.map_values(|p: ScreenPathAst| path_shape(p)) == paths_upto(its, i as int),
            d0 == diagnostics_view(old(diagnostics)@) + sequence_diagnostics(*value, "path_sequence"@),
            diagnostics_view(diagnostics@) == d0 + paths_diagnostics_upto(its, i as int),
        decreases items@.len() - i,
    {
        let item = &items[i];
        proof {
            assert(*item == its[i as int]);
        }
        let ghost dstart = diagnostics_view(diagnostics@);
        let ghost target_d = d0 + paths_diagnostics_upto(its, i + 1);
        proof {
            assert(target_d =~= dstart + path_item_diagnostics(*item));
        }
        i = i + 1;
        let entries = expect_mapping(item, "path_entry", diagnostics);
        let ghost es = entries_of(*item);
        proof {
            assert(entries@ =~= es);
            assert(diagnostics_view(diagnostics@) =~= dstart + mapping_diagnostics(*item, "path_entry"@));
        }
        if entries.len() == 0 {
            proof {
                assert(diagnostics_view(diagnostics@) =~= target_d);
            }
            continue;
        }
        let ghost dk = diagnostics_view(diagnostics@);
        let mut j: usize = 0;
        proof {
            assert(dk + path_key_diagnostics(es, 0) =~= dk);
        }
        while j < entries.len()
            invariant
                entries@ == es,
                j <= es.len(),
                diagnostics_view(diagnostics@) == dk + path_key_diagnostics(es, j as int),
            decreases entries@.len() - j,
        {
            let entry = &entries[j];
            proof {
                assert(*entry == es[j as int]);
            }
            j = j + 1;
            if is_rejected(&entry.value) {
                continue;
            }
            if !is_path_key(entry.key.text.as_str()) {
                push_diagnostic(diagnostics, unknown_key(&entry.key));
            }
        }
        let ghost dkeys = diagnostics_view(diagnostics@);
        proof {
            assert(dkeys =~= dstart + (mapping_diagnostics(*item, "path_entry"@) + path_key_diagnostics(
                es,
                es.len() as int,
            )));
        }
        let span = item.span();
        let source = match find(entries, "출발") {
            Some(v) => v,
            None => {
                if !has_rejected(entries) {
                    push_diagnostic(diagnostics, structure_error(span, "출발"));
                }
                proof {
                    assert(diagnostics_view(diagnostics@) =~= target_d);
                }
                continue;
            },
        };
        let target = match find(entries, "도착") {
            Some(v) => v,
            None => {
                if !has_rejected(entries) {
                    push_diagnostic(diagnostics, structure_error(span, "도착"));
                }
                proof {
                    assert(diagnostics_view(diagnostics@) =~= target_d);
                }
                continue;
            },
        };
        let (source_screen, source_element) = match read_element_path(source, diagnostics) {
            Some(p) => p,
            None => {
                proof {
                    assert(diagnostics_view(diagnostics@) =~= target_d);
                }
                continue;
            },
        };
        let target_screen = match read_ref_value(target, diagnostics) {
            Some(t) => t,
            None => {
                proof {
                    assert(diagnostics_view(diagnostics@) =~= target_d);
                }
                continue;
            },
        };
        let label = match find(entries, "설명") {
            Some(v) => read_text_value(v, diagnostics),
            None => None,
        };
        proof {
            assert(diagnostics_view(diagnostics@) =~= target_d);
        }
        let ghost before = paths@;
        paths.push(ScreenPathAst { source_screen, source_element, target_screen, label, span });
        proof {
            assert(paths@.map_values(|p: ScreenPathAst| path_shape(p)) =~= before.map_values(
                |p: ScreenPathAst| path_shape(p),
            ).push(path_shape(paths@.last())));
        }
    }
    paths
}

/// The module that the scalar of a `모듈` entry names: an unquoted `name(id)`.
pub open spec fn module_of(sc: FmScalar) -> Option<(Seq<char>, Seq<char>, Span)> {
    if sc.quoted {
        None
    } else {
        match named_id_spec(sc.text@) {
            Some((name, id)) => Some((name, id, sc.span)),
            None => None,
        }
    }
}

/// What the entry `e` of the frontmatter mapping reports.
pub open spec fn schema_entry_diagnostics(e: FmEntry) -> Seq<crate::diagnostic::DiagnosticView> {
    let key = e.key.text@;
    if e.value is Rejected {
        Seq::empty()
    } else if key == "모듈"@ {
        match e.value {
            FmValue::Scalar(sc) => if module_of(sc) is Some {
                Seq::empty()
            } else {
                seq![scalar_error_view(sc.span, "named_id"@)]
            },
            _ => seq![structure_error_view(e.value.span_of(), "named_id"@)],
        }
    } else if key == "정보구조"@ {
        categories_diagnostics(e.value)
    } else if key == "화면"@ {
        mapping_diagnostics(e.value, "screen_mapping"@) + screen_layouts_diagnostics(
            entries_of(e.value),
            entries_of(e.value).len() as int,
        )
    } else if key == "흐름"@ {
        sequence_diagnostics(e.value, "path_sequence"@) + paths_diagnostics_upto(
            items_of(e.value),
            items_of(e.value).len() as int,
        )
    } else {
        seq![unknown_key_view(e.key)]
    }
}

/// What the first `n` entries of the frontmatter mapping report.
pub open spec fn schema_diagnostics(es: Seq<FmEntry>, n: int) -> Seq<crate::diagnostic::DiagnosticView>
    decreases n,
{
    if n <= 0 {
        Seq::empty()
    } else {
        schema_diagnostics(es, n - 1) + schema_entry_diagnostics(es[n - 1])
    }
}

/// The index of the last entry among the first `n` with the key `key` and a value that was
/// not rejected, or -1.
pub open spec fn last_live(es: Seq<FmEntry>, n: int, key: Seq<char>) -> int
    decreases n,
{
    if n <= 0 {
        -1
    } else if es[n - 1].key.text@ == key && !(es[n - 1].value is Rejected) {
        n - 1
    } else {
        last_live(es, n - 1, key)
    }
}

/// The module after the first `n` entries: each `모듈` entry with a scalar value sets it.
pub open spec fn module_upto(es: Seq<FmEntry>, n: int) -> Option<(Seq<char>, Seq<char>, Span)>
    decreases n,
{
    if n <= 0 {
        None
    } else {
        let e = es[n - 1];
        match e.value {
            FmValue::Scalar(sc) => if e.key.text@ == "모듈"@ {
                module_of(sc)
            } else {
                module_upto(es, n - 1)
            },
            _ => module_upto(es, n - 1),
        }
    }
}

pub open spec fn named_opt_view(n: Option<NamedIdAst>) -> Option<(Seq<char>, Seq<char>, Span)> {
    match n {
        Some(d) => Some((d.name@, d.id@, d.span)),
        None => None,
    }
}

/// The frontmatter read from the first `n` entries: each of `정보구조`, `화면` and `흐름` is
/// what its last live entry holds.
pub open spec fn schema_upto(fm: FrontmatterAst, es: Seq<FmEntry>, n: int) -> bool {
    &&& named_opt_view(fm.module) == module_upto(es, n)
    &&& {
        let k = last_live(es, n, "정보구조"@);
        if k < 0 {
            fm.information_architecture@.len() == 0
        } else {
            categories_match(fm.information_architecture@, es[k].value, entries_of(es[k].value).len() as int)
        }
    }
    &&& {
        let k = last_live(es, n, "화면"@);
        fm.screens@.map_values(|l: ScreenLayoutAst| layout_shape(l)) == if k < 0 {
            Seq::<LayoutShape>::empty()
        } else {
            screen_layouts_upto(entries_of(es[k].value), entries_of(es[k].value).len() as int)
        }
    }
    &&& {
        let k = last_live(es, n, "흐름"@);
        fm.paths@.map_values(|p: ScreenPathAst| path_shape(p)) == if k < 0 {
            Seq::<PathShape>::empty()
        } else {
            paths_upto(items_of(es[k].value), items_of(es[k].value).len() as int)
        }
    }
    &&& fm.workflows@.len() == 0
}

proof fn lemma_last_live_other(es: Seq<FmEntry>, n: int, key: Seq<char>)
    requires
        0 < n <= es.len(),
        es[n - 1].key.text@ != key || es[n - 1].value is Rejected,
    ensures
        last_live(es, n, key) == last_live(es, n - 1, key),
{
}

proof fn lemma_schema_keys()
    ensures
        "모듈"@ != "정보구조"@,
        "모듈"@ != "화면"@,
        "모듈"@ != "흐름"@,
        "정보구조"@ != "화면"@,
        "정보구조"@ != "흐름"@,
        "화면"@ != "흐름"@,
{
    reveal_strlit("모듈");
    reveal_strlit("정보구조");
    reveal_strlit("화면");
    reveal_strlit("흐름");
    assert("모듈"@.len() != "정보구조"@.len());
    assert("화면"@.len() != "정보구조"@.len());
    assert("흐름"@.len() != "정보구조"@.len());
    assert("모듈"@[0] != "화면"@[0]);
    assert("모듈"@[0] != "흐름"@[0]);
    assert("화면"@[0] != "흐름"@[0]);
}

/// The frontmatter schema: `모듈`, `정보구조`, `화면` and `흐름`; any other key is unknown.
#[verifier::rlimit(60)]
fn build_frontmatter(value: &FmValue, span: Span, diagnostics: &mut Vec<Diagnostic>) -> (fm:
    FrontmatterAst)
    ensures
        fm.span == span,
        schema_upto(fm, entries_of(*value), entries_of(*value).len() as int),
        diagnostics_view(final(diagnostics)@) == diagnostics_view(old(diagnostics)@) + mapping_diagnostics(
            *value,
            "frontmatter"@,
        ) + schema_diagnostics(entries_of(*value), entries_of(*value).len() as int),
{
    let mut frontmatter = FrontmatterAst {
        module: None,
        information_architecture: Vec::new(),
        screens: Vec::new(),
        paths: Vec::new(),
        workflows: Vec::new(),
        span,
    };
    let entries = expect_mapping(value, "frontmatter", diagnostics);
    let ghost es = entries_of(*value);
    let ghost d0 = diagnostics_view(diagnostics@);
    proof {
        assert(entries@ == es);
        assert(frontmatter.screens@.map_values(|l: ScreenLayoutAst| layout_shape(l)) =~= Seq::<LayoutShape>::empty());
        assert(frontmatter.paths@.map_values(|p: ScreenPathAst| path_shape(p)) =~= Seq::<PathShape>::empty());
        assert(d0 + schema_diagnostics(es, 0) =~= d0);
    }
    let mut i: usize = 0;
    while i < entries.len()
        invariant
            entries@ == es,
            i <= es.len(),
            frontmatter.span == span,
            schema_upto(frontmatter, es, i as int),
            diagnostics_view(diagnostics@) == d0 + schema_diagnostics(es, i as int),
        decreases entries@.len() - i,
    {
        let entry = &entries[i];
        let ghost e = es[i as int];
        let ghost dprev = diagnostics_view(diagnostics@);
        proof {
            assert(*entry == e);
        }
        i = i + 1;
        if is_rejected(&entry.value) {
            proof {
                assert(dprev + schema_entry_diagnostics(e) =~= dprev);
                lemma_last_live_other(es, i as int, "모듈"@);
                lemma_last_live_other(es, i as int, "정보구조"@);
                lemma_last_live_other(es, i as int, "화면"@);
                lemma_last_live_other(es, i as int, "흐름"@);
            }
            continue;
        }
        let key = entry.key.text.as_str();
        if str_eq(key, "모듈") {
            proof {
                reveal_strlit("모듈");
            }
            match expect_scalar(&entry.value, "named_id", diagnostics) {
                Some(scalar) => {
                    frontmatter.module = read_named_id(scalar, diagnostics);
                },
                None => {},
            }
            proof {
                reveal_strlit("named_id");
                assert(diagnostics_view(diagnostics@) =~= dprev + schema_entry_diagnostics(e));
                lemma_schema_keys();
                lemma_last_live_other(es, i as int, "정보구조"@);
                lemma_last_live_other(es, i as int, "화면"@);
                lemma_last_live_other(es, i as int, "흐름"@);
            }
        } else if str_eq(key, "정보구조") {
            frontmatter.information_architecture = build_categories(&entry.value, diagnostics);
            proof {
                reveal_strlit("정보구조");
                reveal_strlit("모듈");
                assert(diagnostics_view(diagnostics@) =~= dprev + schema_entry_diagnostics(e));
                lemma_schema_keys();
                lemma_last_live_other(es, i as int, "모듈"@);
                lemma_last_live_other(es, i as int, "화면"@);
                lemma_last_live_other(es, i as int, "흐름"@);
            }
        } else if str_eq(key, "화면") {
            frontmatter.screens = build_screen_layouts(&entry.value, diagnostics);
            proof {
                reveal_strlit("화면");
                reveal_strlit("정보구조");
                reveal_strlit("모듈");
                assert(diagnostics_view(diagnostics@) =~= dprev + schema_entry_diagnostics(e));
                lemma_schema_keys();
                lemma_last_live_other(es, i as int, "모듈"@);
                lemma_last_live_other(es, i as int, "정보구조"@);
                lemma_last_live_other(es, i as int, "흐름"@);
            }
        } else if str_eq(key, "흐름") {
            frontmatter.paths = build_paths(&entry.value, diagnostics);
            proof {
                reveal_strlit("흐름");
                reveal_strlit("화면");
                reveal_strlit("정보구조");
                reveal_strlit("모듈");
                assert(diagnostics_view(diagnostics@) =~= dprev + schema_entry_diagnostics(e));
                lemma_schema_keys();
                lemma_last_live_other(es, i as int, "모듈"@);
                lemma_last_live_other(es, i as int, "정보구조"@);
                lemma_last_live_other(es, i as int, "화면"@);
            }
        } else {
            push_diagnostic(diagnostics, unknown_key(&entry.key));
            proof {
                reveal_strlit("흐름");
                reveal_strlit("화면");
                reveal_strlit("정보구조");
                reveal_strlit("모듈");
                assert(diagnostics_view(diagnostics@) =~= dprev + schema_entry_diagnostics(e));
                lemma_schema_keys();
                lemma_last_live_other(es, i as int, "모듈"@);
                lemma_last_live_other(es, i as int, "정보구조"@);
                lemma_last_live_other(es, i as int, "화면"@);
                lemma_last_live_other(es, i as int, "흐름"@);
            }
        }
    }
    frontmatter
}

/// What reading the frontmatter gives: the frontmatter when there is a closed block, the
/// text the sentence reader sees, and diagnostics.
pub struct FrontmatterOutput<'a> {
    pub frontmatter: Option<FrontmatterAst>,
    /// The source with the block blanked out rather than cut off, so that every later span is
    /// still a span of the file.
    pub source: Cow<'a, str>,
    pub diagnostics: Vec<Diagnostic>,
}

/// What reading the frontmatter of `source` gives: the frontmatter, the text with the block
/// blanked out, and the diagnostics.
pub open spec fn read_holds(
    source: Seq<char>,
    frontmatter: Option<FrontmatterAst>,
    text: Seq<char>,
    diagnostics: Seq<crate::diagnostic::DiagnosticView>,
) -> bool {
    match locate_spec(source) {
        None => frontmatter is None && text == source && diagnostics.len() == 0,
        Some(b) => match b.inner {
            None => frontmatter is None && text == source && diagnostics == seq![
                crate::diagnostic::error_view(
                    UNTERMINATED_BLOCK@,
                    "ko.frontmatter.unterminated_block"@,
                    Span {
                        start: crate::text::byte_offsets(source)[b.start],
                        end: crate::text::byte_offsets(source)[b.end],
                    },
                ),
            ],
            Some((p, q)) => {
                let o = crate::text::byte_offsets(source);
                let block_span = Span { start: o[b.start], end: o[b.end] };
                let split = split_lines_from(
                    source,
                    o,
                    p,
                    q,
                    SplitState { lines: Seq::empty(), diagnostics: Seq::empty() },
                );
                &&& text == mask_spec(source, b.start, b.end)
                &&& exists|v: FmValue, t: SourceText|
                    {
                        &&& t.chars@ == source
                        &&& t.offsets@ == o
                        &&& block_value(v, &t, split.lines, 0, split.lines.len() as int, block_span)
                        &&& frontmatter matches Some(f) && f.span == block_span && schema_upto(
                            f,
                            entries_of(v),
                            entries_of(v).len() as int,
                        )
                        &&& diagnostics == split.diagnostics + block_diags(&t, split.lines, 0, split.lines.len() as int)
                            + mapping_diagnostics(v, "frontmatter"@) + schema_diagnostics(
                            entries_of(v),
                            entries_of(v).len() as int,
                        )
                    }
            },
        },
    }
}

/// Reads the frontmatter of `source`. Without a leading `---` line there is none and the
/// text is left alone; a block that is never closed is reported and the text left alone too,
/// since where the block ends cannot be known.
pub fn read(source: &str) -> (out: FrontmatterOutput<'_>)
    ensures
        read_holds(source@, out.frontmatter, out.source@, diagnostics_view(out.diagnostics@)),
{
    let text = SourceText::new(source);
    let block = match locate(&text) {
        Some(b) => b,
        None => {
            return FrontmatterOutput {
                frontmatter: None,
                source: Cow::Borrowed(source),
                diagnostics: Vec::new(),
            };
        },
    };
    proof {
        crate::text::lemma_find_from(text.chars@, 0, text.chars@.len() as int, '\n');
        lemma_block_bounds(text.chars@);
    }
    let mut diagnostics: Vec<Diagnostic> = Vec::new();
    let block_span = Span { start: text.at(block.start), end: text.at(block.end) };
    let (inner_start, inner_end) = match block.inner {
        Some(inner) => inner,
        None => {
            push_diagnostic(
                &mut diagnostics,
                Diagnostic::error(UNTERMINATED_BLOCK, "ko.frontmatter.unterminated_block", block_span),
            );
            proof {
                assert(diagnostics_view(diagnostics@) =~= seq![
                    crate::diagnostic::error_view(
                        UNTERMINATED_BLOCK@,
                        "ko.frontmatter.unterminated_block"@,
                        block_span,
                    ),
                ]);
            }
            return FrontmatterOutput { frontmatter: None, source: Cow::Borrowed(source), diagnostics };
        },
    };
    proof {
        assert(diagnostics_view(diagnostics@) =~= Seq::<crate::diagnostic::DiagnosticView>::empty());
    }
    let lines = split_lines(&text, inner_start, inner_end, &mut diagnostics);
    let ghost split = split_lines_from(
        text.chars@,
        text.offsets@,
        inner_start as int,
        inner_end as int,
        SplitState { lines: Seq::empty(), diagnostics: Seq::empty() },
    );
    let ghost dsplit = diagnostics_view(diagnostics@);
    proof {
        assert(lines@ == split.lines);
        assert(dsplit == split.diagnostics);
    }
    let value = parse_block(&text, &lines, 0, lines.len(), block_span, &mut diagnostics);
    let frontmatter = build_frontmatter(&value, block_span, &mut diagnostics);
    let masked = mask(&text.chars, block.start, block.end);
    proof {
        assert(text.offsets@ == crate::text::byte_offsets(source@));
        assert(block_value(value, &text, split.lines, 0, split.lines.len() as int, block_span));
        assert(schema_upto(frontmatter, entries_of(value), entries_of(value).len() as int));
        assert(exists|v: FmValue, t: SourceText|
            {
                &&& t.chars@ == source@
                &&& t.offsets@ == crate::text::byte_offsets(source@)
                &&& block_value(v, &t, split.lines, 0, split.lines.len() as int, block_span)
                &&& Some(frontmatter) matches Some(f) && f.span == block_span && schema_upto(
                    f,
                    entries_of(v),
                    entries_of(v).len() as int,
                )
                &&& diagnostics_view(diagnostics@) == split.diagnostics + block_diags(
                    &t,
                    split.lines,
                    0,
                    split.lines.len() as int,
                ) + mapping_diagnostics(v, "frontmatter"@) + schema_diagnostics(
                    entries_of(v),
                    entries_of(v).len() as int,
                )
            }) by {
            assert(text.chars@ == source@);
        }
    }
    FrontmatterOutput { frontmatter: Some(frontmatter), source: Cow::Owned(masked), diagnostics }
}

proof fn lemma_closing_bounds(s: Seq<char>, open_end: int, i: int)
    requires
        0 <= open_end <= i <= s.len(),
    ensures
        closing_from(s, open_end, i).start == 0,
        closing_from(s, open_end, i).end <= s.len(),
        closing_from(s, open_end, i).inner matches Some((p, q)) ==> open_end <= p <= q
            <= closing_from(s, open_end, i).end,
    decreases s.len() - i,
{
    if i < s.len() {
        lemma_next_line(s, i);
        if !is_delimiter_line(s, i) {
            lemma_closing_bounds(s, open_end, next_line(s, i));
        }
    }
}

proof fn lemma_block_bounds(s: Seq<char>)
    ensures
        locate_spec(s) matches Some(b) ==> b.start == 0 && b.end <= s.len() && (b.inner matches Some(
            (p, q),
        ) ==> 0 <= p <= q <= b.end),
{
    if s.len() > 0 && is_delimiter_line(s, 0) {
        lemma_next_line(s, 0);
        lemma_closing_bounds(s, next_line(s, 0), next_line(s, 0));
    }
}

} // verus!
