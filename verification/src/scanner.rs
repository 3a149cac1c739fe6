//! Sentence scanner: turns source text into words, identifiers, literals and layout tokens.
//!
//! Indentation is significant. A line indented deeper than the enclosing block opens a block
//! (`Indent`); a shallower line closes blocks (`Dedent`) until it meets a block of the same
//! depth. Blank lines and comment lines do not take part in the layout.
use vstd::prelude::*;

use crate::diagnostic::{diagnostics_view, error_view, push_diagnostic, Diagnostic, DiagnosticView, Span};
use crate::json::{decode_json_string, json_string_value};
use crate::text::{
    byte_len, byte_offsets, find_char, find_from, is_space, is_whitespace, lemma_find_from, string_of, SourceText,
};

verus! {

#[derive(Clone, Debug, PartialEq, Eq)]
pub enum TokenKind {
    Word(String),
    QuotedIdentifier(String),
    CanonicalId(String),
    StringLiteral(String),
    Colon,
    Period,
    Indent,
    Dedent,
    Newline,
}

pub enum TokenKindView {
    Word(Seq<char>),
    QuotedIdentifier(Seq<char>),
    CanonicalId(Seq<char>),
    StringLiteral(Seq<char>),
    Colon,
    Period,
    Indent,
    Dedent,
    Newline,
}

impl View for TokenKind {
    type V = TokenKindView;

    open spec fn view(&self) -> TokenKindView {
        match self {
            TokenKind::Word(s) => TokenKindView::Word(s@),
            TokenKind::QuotedIdentifier(s) => TokenKindView::QuotedIdentifier(s@),
            TokenKind::CanonicalId(s) => TokenKindView::CanonicalId(s@),
            TokenKind::StringLiteral(s) => TokenKindView::StringLiteral(s@),
            TokenKind::Colon => TokenKindView::Colon,
            TokenKind::Period => TokenKindView::Period,
            TokenKind::Indent => TokenKindView::Indent,
            TokenKind::Dedent => TokenKindView::Dedent,
            TokenKind::Newline => TokenKindView::Newline,
        }
    }
}

#[derive(Clone, Debug, PartialEq, Eq)]
pub struct Token {
    pub kind: TokenKind,
    pub span: Span,
}

pub struct TokenView {
    pub kind: TokenKindView,
    pub span: Span,
}

impl View for Token {
    type V = TokenView;

    open spec fn view(&self) -> TokenView {
        TokenView { kind: self.kind@, span: self.span }
    }
}

#[derive(Clone, Debug)]
pub struct ScanOutput {
    pub tokens: Vec<Token>,
    pub diagnostics: Vec<Diagnostic>,
}

/// Tokens and diagnostics produced so far.
pub struct Lexed {
    pub tokens: Seq<TokenView>,
    pub diagnostics: Seq<DiagnosticView>,
}

impl Lexed {
    pub open spec fn token(self, kind: TokenKindView, span: Span) -> Lexed {
        Lexed { tokens: self.tokens.push(TokenView { kind, span }), ..self }
    }

    pub open spec fn diag(self, d: DiagnosticView) -> Lexed {
        Lexed { diagnostics: self.diagnostics.push(d), ..self }
    }
}

pub open spec fn tokens_view(v: Seq<Token>) -> Seq<TokenView> {
    v.map_values(|t: Token| t@)
}

pub open spec fn lexed_of(tokens: Seq<Token>, diagnostics: Seq<Diagnostic>) -> Lexed {
    Lexed { tokens: tokens_view(tokens), diagnostics: diagnostics_view(diagnostics) }
}

impl View for ScanOutput {
    type V = Lexed;

    open spec fn view(&self) -> Lexed {
        lexed_of(self.tokens@, self.diagnostics@)
    }
}

/// The byte span between the character boundaries `a` and `b`.
pub open spec fn span_of(o: Seq<usize>, a: int, b: int) -> Span {
    Span { start: o[a], end: o[b] }
}

/// Characters that end a word.
pub open spec fn is_word_stop(c: char) -> bool {
    is_space(c) || c == ':' || c == '.' || c == '#' || c == '`' || c == '[' || c == '(' || c
        == '"'
}

/// First index in `[from, to)` holding a word stop, or `to`.
pub open spec fn word_end(s: Seq<char>, from: int, to: int) -> int
    decreases to - from,
{
    if from >= to {
        to
    } else if is_word_stop(s[from]) {
        from
    } else {
        word_end(s, from + 1, to)
    }
}

/// Index just after the closing quote of a string literal whose body starts at `from`, or `to`
/// when the literal is not closed. A backslash escapes the character after it.
pub open spec fn string_end(s: Seq<char>, from: int, to: int, escaped: bool) -> int
    decreases to - from,
{
    if from >= to {
        to
    } else if s[from] == '"' && !escaped {
        from + 1
    } else {
        string_end(s, from + 1, to, s[from] == '\\' && !escaped)
    }
}

pub proof fn lemma_word_end(s: Seq<char>, from: int, to: int)
    requires
        from <= to,
    ensures
        from <= word_end(s, from, to) <= to,
    decreases to - from,
{
    if from < to && !is_word_stop(s[from]) {
        lemma_word_end(s, from + 1, to);
    }
}

pub proof fn lemma_string_end(s: Seq<char>, from: int, to: int, escaped: bool)
    requires
        from <= to,
    ensures
        from <= string_end(s, from, to, escaped) <= to,
        from < to ==> from < string_end(s, from, to, escaped),
    decreases to - from,
{
    if from < to && !(s[from] == '"' && !escaped) {
        lemma_string_end(s, from + 1, to, s[from] == '\\' && !escaped);
    }
}

/// Tokens of the characters `[cur, end)` of one line's content, appended to `acc`.
pub open spec fn lex(s: Seq<char>, o: Seq<usize>, cur: int, end: int, acc: Lexed) -> Lexed
    decreases end - cur,
{
    if cur >= end {
        acc
    } else {
        let c = s[cur];
        if is_space(c) {
            lex(s, o, cur + 1, end, acc)
        } else if c == '#' {
            acc
        } else if c == ':' {
            lex(s, o, cur + 1, end, acc.token(TokenKindView::Colon, span_of(o, cur, cur + 1)))
        } else if c == '.' {
            lex(s, o, cur + 1, end, acc.token(TokenKindView::Period, span_of(o, cur, cur + 1)))
        } else if c == '`' {
            let close = find_from(s, cur + 1, end, '`');
            if close >= end {
                acc.diag(
                    error_view(
                        "RSPDL-KO-LEX-003"@,
                        "닫히지 않은 backtick 식별자입니다."@,
                        span_of(o, cur, end),
                    ),
                )
            } else {
                proof {
                    lemma_find_from(s, cur + 1, end, '`');
                }
                lex(
                    s,
                    o,
                    close + 1,
                    end,
                    acc.token(
                        TokenKindView::QuotedIdentifier(s.subrange(cur + 1, close)),
                        span_of(o, cur, close + 1),
                    ),
                )
            }
        } else if c == '(' {
            let close = find_from(s, cur + 1, end, ')');
            if close >= end {
                acc.diag(
                    error_view(
                        "RSPDL-KO-LEX-004"@,
                        "`)`로 닫히지 않은 stable ID입니다."@,
                        span_of(o, cur, end),
                    ),
                )
            } else {
                proof {
                    lemma_find_from(s, cur + 1, end, ')');
                }
                lex(
                    s,
                    o,
                    close + 1,
                    end,
                    acc.token(
                        TokenKindView::CanonicalId(s.subrange(cur + 1, close)),
                        span_of(o, cur, close + 1),
                    ),
                )
            }
        } else if c == '"' {
            let e = string_end(s, cur + 1, end, false);
            proof {
                lemma_string_end(s, cur + 1, end, false);
            }
            let next = match json_string_value(s.subrange(cur, e)) {
                Some(v) => acc.token(TokenKindView::StringLiteral(v), span_of(o, cur, e)),
                None => acc.diag(
                    error_view(
                        "RSPDL-KO-LEX-005"@,
                        "문자열 literal 형식이 올바르지 않습니다."@,
                        span_of(o, cur, e),
                    ),
                ),
            };
            lex(s, o, e, end, next)
        } else {
            let w = word_end(s, cur, end);
            proof {
                lemma_word_end(s, cur, end);
            }
            let stop = if w == cur {
                cur + 1
            } else {
                w
            };
            lex(
                s,
                o,
                stop,
                end,
                acc.token(TokenKindView::Word(s.subrange(cur, stop)), span_of(o, cur, stop)),
            )
        }
    }
}

/// Pops every open block deeper than `width`, one `Dedent` each.
pub open spec fn pop_blocks(st: Seq<usize>, width: usize, sp: Span, acc: Lexed) -> (
    Seq<usize>,
    Lexed,
)
    decreases st.len(),
{
    if st.len() > 0 && st.last() > width {
        pop_blocks(st.drop_last(), width, sp, acc.token(TokenKindView::Dedent, sp))
    } else {
        (st, acc)
    }
}

/// Layout tokens for a significant line of indentation `width`.
pub open spec fn layout(st: Seq<usize>, width: usize, sp: Span, acc: Lexed) -> (Seq<usize>, Lexed) {
    let current = st.last();
    if width > current {
        (st.push(width), acc.token(TokenKindView::Indent, sp))
    } else if width < current {
        let (st2, acc2) = pop_blocks(st, width, sp, acc);
        if st2.len() == 0 || st2.last() != width {
            (
                st2.push(width),
                acc2.diag(
                    error_view(
                        "RSPDL-KO-LEX-002"@,
                        "이전 블록과 일치하지 않는 들여쓰기입니다."@,
                        sp,
                    ),
                ).token(TokenKindView::Indent, sp),
            )
        } else {
            (st2, acc2)
        }
    } else {
        (st, acc)
    }
}

/// Index of the line feed that ends the line starting at `i`, or the end of the text.
pub open spec fn line_end(s: Seq<char>, i: int) -> int {
    find_from(s, i, s.len() as int, '\n')
}

/// End of a line's content: the line feed, or a carriage return right before it.
pub open spec fn content_end(s: Seq<char>, i: int) -> int {
    let le = line_end(s, i);
    if le > i && s[le - 1] == '\r' {
        le - 1
    } else {
        le
    }
}

/// End of the run of spaces and tabs that starts at `from`.
pub open spec fn prefix_end(s: Seq<char>, from: int, to: int) -> int
    decreases to - from,
{
    if from >= to {
        to
    } else if s[from] == ' ' || s[from] == '\t' {
        prefix_end(s, from + 1, to)
    } else {
        from
    }
}

/// Number of spaces in `[from, to)`.
pub open spec fn space_count(s: Seq<char>, from: int, to: int) -> nat
    decreases to - from,
{
    if from >= to {
        0
    } else {
        space_count(s, from, to - 1) + if s[to - 1] == ' ' {
            1nat
        } else {
            0nat
        }
    }
}

pub proof fn lemma_space_count(s: Seq<char>, from: int, to: int)
    requires
        from <= to,
    ensures
        space_count(s, from, to) <= to - from,
    decreases to - from,
{
    if from < to {
        lemma_space_count(s, from, to - 1);
    }
}

/// The last tab in `[from, to)`, scanning backwards from `to`.
pub open spec fn last_tab(s: Seq<char>, from: int, to: int) -> Option<int>
    decreases to - from,
{
    if from >= to {
        None
    } else if s[to - 1] == '\t' {
        Some(to - 1)
    } else {
        last_tab(s, from, to - 1)
    }
}

pub proof fn lemma_last_tab(s: Seq<char>, from: int, to: int)
    ensures
        last_tab(s, from, to) matches Some(t) ==> from <= t < to,
    decreases to - from,
{
    if from < to && s[to - 1] != '\t' {
        lemma_last_tab(s, from, to - 1);
    }
}

/// First character in `[from, to)` that is not white space, or `to`.
pub open spec fn first_visible(s: Seq<char>, from: int, to: int) -> int
    decreases to - from,
{
    if from >= to {
        to
    } else if is_space(s[from]) {
        first_visible(s, from + 1, to)
    } else {
        from
    }
}

/// A line takes part in the layout unless it is blank or a comment.
pub open spec fn significant(s: Seq<char>, from: int, to: int) -> bool {
    let v = first_visible(s, from, to);
    v < to && s[v] != '#'
}

/// Scan state between lines: the open block widths and what has been produced.
pub open spec fn scan_line(s: Seq<char>, o: Seq<usize>, i: int, st: Seq<usize>, acc: Lexed) -> (
    int,
    Seq<usize>,
    Lexed,
) {
    let le = line_end(s, i);
    let ce = content_end(s, i);
    let pe = prefix_end(s, i, ce);
    let width = space_count(s, i, pe) as usize;
    let acc1 = match last_tab(s, i, pe) {
        Some(t) => acc.diag(
            error_view(
                "RSPDL-KO-LEX-001"@,
                "들여쓰기에 tab을 사용할 수 없습니다."@,
                span_of(o, t, t + 1),
            ),
        ),
        None => acc,
    };
    let (st2, acc2) = if significant(s, pe, ce) {
        let (st2, a) = layout(st, width, span_of(o, i, pe), acc1);
        (st2, lex(s, o, pe, ce, a))
    } else {
        (st, acc1)
    };
    let newline_end = if le < s.len() {
        (o[ce] + 1) as usize
    } else {
        o[ce]
    };
    let acc3 = acc2.token(TokenKindView::Newline, Span { start: o[ce], end: newline_end });
    let next = if le < s.len() {
        le + 1
    } else {
        s.len() as int
    };
    (next, st2, acc3)
}

pub open spec fn scan_lines(s: Seq<char>, o: Seq<usize>, i: int, st: Seq<usize>, acc: Lexed) -> (
    Seq<usize>,
    Lexed,
)
    decreases s.len() - i,
{
    if i < 0 || i >= s.len() {
        (st, acc)
    } else {
        let (next, st2, acc2) = scan_line(s, o, i, st, acc);
        proof {
            lemma_find_from(s, i, s.len() as int, '\n');
        }
        scan_lines(s, o, next, st2, acc2)
    }
}

/// Closes every block still open at the end of the text.
pub open spec fn close_blocks(st: Seq<usize>, at: usize, acc: Lexed) -> Lexed
    decreases st.len(),
{
    if st.len() > 1 {
        close_blocks(st.drop_last(), at, acc.token(TokenKindView::Dedent, Span { start: at, end: at }))
    } else {
        acc
    }
}

/// The complete scan of `s`, whose character boundaries lie at the byte offsets `o`.
pub open spec fn scan_spec(s: Seq<char>, o: Seq<usize>) -> Lexed {
    let empty = Lexed { tokens: Seq::empty(), diagnostics: Seq::empty() };
    let (st, acc) = scan_lines(s, o, 0, seq![0usize], empty);
    let acc2 = if s.len() == 0 {
        acc.token(TokenKindView::Newline, Span { start: 0, end: 0 })
    } else {
        acc
    };
    close_blocks(st, o[s.len() as int], acc2)
}

} // verus!

verus! {

fn push(tokens: &mut Vec<Token>, kind: TokenKind, start: usize, end: usize)
    ensures
        tokens_view(final(tokens)@) == tokens_view(old(tokens)@).push(
            TokenView { kind: kind@, span: Span { start, end } },
        ),
{
    let ghost before = tokens@;
    tokens.push(Token { kind, span: Span { start, end } });
    proof {
        assert(tokens_view(tokens@) =~= tokens_view(before).push(
            TokenView { kind: kind@, span: Span { start, end } },
        ));
    }
}

fn word_end_exec(chars: &[char], from: usize, to: usize) -> (r: usize)
    requires
        from <= to <= chars@.len(),
    ensures
        r == word_end(chars@, from as int, to as int),
{
    let mut i: usize = from;
    while i < to
        invariant
            from <= i <= to <= chars@.len(),
            word_end(chars@, from as int, to as int) == word_end(chars@, i as int, to as int),
        decreases to - i,
    {
        let c = chars[i];
        if is_whitespace(c) || c == ':' || c == '.' || c == '#' || c == '`' || c == '[' || c
            == '(' || c == '"' {
            return i;
        }
        i = i + 1;
    }
    i
}

fn string_end_exec(chars: &[char], from: usize, to: usize) -> (r: usize)
    requires
        from <= to <= chars@.len(),
    ensures
        r == string_end(chars@, from as int, to as int, false),
{
    let mut i: usize = from;
    let mut escaped: bool = false;
    while i < to
        invariant
            from <= i <= to <= chars@.len(),
            string_end(chars@, from as int, to as int, false) == string_end(
                chars@,
                i as int,
                to as int,
                escaped,
            ),
        decreases to - i,
    {
        let c = chars[i];
        if c == '"' && !escaped {
            return i + 1;
        }
        escaped = c == '\\' && !escaped;
        i = i + 1;
    }
    i
}

/// Appends the tokens of the content `[start, end)` of one line.
fn scan_content(
    text: &SourceText,
    start: usize,
    end: usize,
    tokens: &mut Vec<Token>,
    diagnostics: &mut Vec<Diagnostic>,
)
    requires
        text.wf(),
        start <= end <= text.chars@.len(),
    ensures
        lexed_of(final(tokens)@, final(diagnostics)@) == lex(
            text.chars@,
            text.offsets@,
            start as int,
            end as int,
            lexed_of(old(tokens)@, old(diagnostics)@),
        ),
{
    let ghost s = text.chars@;
    let ghost o = text.offsets@;
    let ghost target = lex(s, o, start as int, end as int, lexed_of(tokens@, diagnostics@));
    let mut cursor: usize = start;
    while cursor < end
        invariant
            text.wf(),
            s == text.chars@,
            o == text.offsets@,
            start <= cursor <= end <= s.len(),
            target == lex(s, o, start as int, end as int, lexed_of(old(tokens)@, old(diagnostics)@)),
            target == lex(s, o, cursor as int, end as int, lexed_of(tokens@, diagnostics@)),
        decreases end - cursor,
    {
        let c = text.chars[cursor];
        if is_whitespace(c) {
            cursor = cursor + 1;
            continue;
        }
        if c == '#' {
            return;
        }
        let begin = cursor;
        if c == ':' {
            push(tokens, TokenKind::Colon, text.at(begin), text.at(begin + 1));
            cursor = cursor + 1;
        } else if c == '.' {
            push(tokens, TokenKind::Period, text.at(begin), text.at(begin + 1));
            cursor = cursor + 1;
        } else if c == '`' {
            let close = find_char(&text.chars, begin + 1, end, '`');
            proof {
                lemma_find_from(s, begin + 1, end as int, '`');
            }
            if close == end {
                push_diagnostic(
                    diagnostics,
                    Diagnostic::error(
                        "RSPDL-KO-LEX-003",
                        "닫히지 않은 backtick 식별자입니다.",
                        Span { start: text.at(begin), end: text.at(end) },
                    ),
                );
                return;
            }
            let value = string_of(&text.chars, begin + 1, close);
            push(tokens, TokenKind::QuotedIdentifier(value), text.at(begin), text.at(close + 1));
            cursor = close + 1;
        } else if c == '(' {
            let close = find_char(&text.chars, begin + 1, end, ')');
            proof {
                lemma_find_from(s, begin + 1, end as int, ')');
            }
            if close == end {
                push_diagnostic(
                    diagnostics,
                    Diagnostic::error(
                        "RSPDL-KO-LEX-004",
                        "`)`로 닫히지 않은 stable ID입니다.",
                        Span { start: text.at(begin), end: text.at(end) },
                    ),
                );
                return;
            }
            let value = string_of(&text.chars, begin + 1, close);
            push(tokens, TokenKind::CanonicalId(value), text.at(begin), text.at(close + 1));
            cursor = close + 1;
        } else if c == '"' {
            let e = string_end_exec(&text.chars, begin + 1, end);
            proof {
                lemma_string_end(s, begin + 1, end as int, false);
            }
            let raw = string_of(&text.chars, begin, e);
            match decode_json_string(raw.as_str()) {
                Some(value) => push(
                    tokens,
                    TokenKind::StringLiteral(value),
                    text.at(begin),
                    text.at(e),
                ),
                None => push_diagnostic(
                    diagnostics,
                    Diagnostic::error(
                        "RSPDL-KO-LEX-005",
                        "문자열 literal 형식이 올바르지 않습니다.",
                        Span { start: text.at(begin), end: text.at(e) },
                    ),
                ),
            }
            cursor = e;
        } else {
            let w = word_end_exec(&text.chars, begin, end);
            proof {
                lemma_word_end(s, begin as int, end as int);
            }
            let stop = if w == begin {
                begin + 1
            } else {
                w
            };
            let value = string_of(&text.chars, begin, stop);
            push(tokens, TokenKind::Word(value), text.at(begin), text.at(stop));
            cursor = stop;
        }
    }
}

} // verus!

verus! {

/// Opens or closes blocks for a significant line indented by `width` spaces.
fn layout_exec(
    indents: &mut Vec<usize>,
    width: usize,
    sp: Span,
    tokens: &mut Vec<Token>,
    diagnostics: &mut Vec<Diagnostic>,
)
    requires
        old(indents)@.len() >= 1,
        old(indents)@[0] == 0,
    ensures
        final(indents)@.len() >= 1,
        final(indents)@[0] == 0,
        (final(indents)@, lexed_of(final(tokens)@, final(diagnostics)@)) == layout(
            old(indents)@,
            width,
            sp,
            lexed_of(old(tokens)@, old(diagnostics)@),
        ),
{
    let current = indents[indents.len() - 1];
    if width > current {
        indents.push(width);
        push(tokens, TokenKind::Indent, sp.start, sp.end);
    } else if width < current {
        let ghost target = pop_blocks(
            old(indents)@,
            width,
            sp,
            lexed_of(old(tokens)@, old(diagnostics)@),
        );
        while indents.len() > 0 && indents[indents.len() - 1] > width
            invariant
                indents@.len() >= 1,
                indents@[0] == 0,
                target == pop_blocks(
                    old(indents)@,
                    width,
                    sp,
                    lexed_of(old(tokens)@, old(diagnostics)@),
                ),
                target == pop_blocks(indents@, width, sp, lexed_of(tokens@, diagnostics@)),
            decreases indents@.len(),
        {
            let ghost before = indents@;
            indents.pop();
            proof {
                assert(indents@ =~= before.drop_last());
            }
            push(tokens, TokenKind::Dedent, sp.start, sp.end);
        }
        if indents[indents.len() - 1] != width {
            push_diagnostic(
                diagnostics,
                Diagnostic::error(
                    "RSPDL-KO-LEX-002",
                    "이전 블록과 일치하지 않는 들여쓰기입니다.",
                    sp,
                ),
            );
            indents.push(width);
            push(tokens, TokenKind::Indent, sp.start, sp.end);
        }
    }
}

/// Scans the line that starts at `i` and returns where the next line starts.
fn scan_line_exec(
    text: &SourceText,
    i: usize,
    indents: &mut Vec<usize>,
    tokens: &mut Vec<Token>,
    diagnostics: &mut Vec<Diagnostic>,
) -> (next: usize)
    requires
        text.wf(),
        i < text.chars@.len(),
        old(indents)@.len() >= 1,
        old(indents)@[0] == 0,
    ensures
        final(indents)@.len() >= 1,
        final(indents)@[0] == 0,
        i < next <= text.chars@.len(),
        (next as int, final(indents)@, lexed_of(final(tokens)@, final(diagnostics)@)) == scan_line(
            text.chars@,
            text.offsets@,
            i as int,
            old(indents)@,
            lexed_of(old(tokens)@, old(diagnostics)@),
        ),
{
    let ghost s = text.chars@;
    let ghost o = text.offsets@;
    let n = text.len();
    let le = find_char(&text.chars, i, n, '\n');
    proof {
        lemma_find_from(s, i as int, n as int, '\n');
    }
    let ce = if le > i && text.chars[le - 1] == '\r' {
        le - 1
    } else {
        le
    };
    let mut j: usize = i;
    let mut width: usize = 0;
    let mut tab: Option<usize> = None;
    while j < ce && (text.chars[j] == ' ' || text.chars[j] == '\t')
        invariant
            s == text.chars@,
            i <= j <= ce <= s.len(),
            prefix_end(s, i as int, ce as int) == prefix_end(s, j as int, ce as int),
            width == space_count(s, i as int, j as int),
            match tab {
                Some(t) => last_tab(s, i as int, j as int) == Some(t as int),
                None => last_tab(s, i as int, j as int) is None,
            },
        decreases ce - j,
    {
        proof {
            lemma_space_count(s, i as int, j as int);
        }
        if text.chars[j] == ' ' {
            width = width + 1;
        } else {
            tab = Some(j);
        }
        j = j + 1;
    }
    let pe = j;
    proof {
        lemma_last_tab(s, i as int, pe as int);
    }
    match tab {
        Some(t) => {
            push_diagnostic(
                diagnostics,
                Diagnostic::error(
                    "RSPDL-KO-LEX-001",
                    "들여쓰기에 tab을 사용할 수 없습니다.",
                    Span { start: text.at(t), end: text.at(t + 1) },
                ),
            );
        },
        None => {},
    }
    let mut v: usize = pe;
    while v < ce && is_whitespace(text.chars[v])
        invariant
            s == text.chars@,
            pe <= v <= ce <= s.len(),
            first_visible(s, pe as int, ce as int) == first_visible(s, v as int, ce as int),
        decreases ce - v,
    {
        v = v + 1;
    }
    if v < ce && text.chars[v] != '#' {
        layout_exec(indents, width, Span { start: text.at(i), end: text.at(pe) }, tokens, diagnostics);
        scan_content(text, pe, ce, tokens, diagnostics);
    }
    let start = text.at(ce);
    let end = if le < n {
        proof {
            crate::text::lemma_byte_pos_step(s, ce as int);
            crate::text::lemma_byte_pos_monotone(s, ce as int + 1, n as int);
            assert(s.take(n as int) =~= s);
        }
        start + 1
    } else {
        start
    };
    push(tokens, TokenKind::Newline, start, end);
    if le < n {
        le + 1
    } else {
        n
    }
}

/// Scans a whole text.
fn scan_text(text: &SourceText) -> (out: ScanOutput)
    requires
        text.wf(),
    ensures
        out@ == scan_spec(text.chars@, text.offsets@),
{
    let ghost s = text.chars@;
    let ghost o = text.offsets@;
    let n = text.len();
    let mut tokens: Vec<Token> = Vec::new();
    let mut diagnostics: Vec<Diagnostic> = Vec::new();
    let mut indents: Vec<usize> = Vec::new();
    indents.push(0);
    let ghost empty = Lexed { tokens: Seq::empty(), diagnostics: Seq::empty() };
    proof {
        assert(lexed_of(tokens@, diagnostics@) == empty) by {
            assert(tokens_view(tokens@) =~= Seq::<TokenView>::empty());
            assert(diagnostics_view(diagnostics@) =~= Seq::<DiagnosticView>::empty());
        }
        assert(indents@ =~= seq![0usize]);
    }
    let ghost lines = scan_lines(s, o, 0, seq![0usize], empty);
    let mut i: usize = 0;
    while i < n
        invariant
            text.wf(),
            s == text.chars@,
            o == text.offsets@,
            n == s.len(),
            i <= n,
            indents@.len() >= 1,
            indents@[0] == 0,
            lines == scan_lines(s, o, 0, seq![0usize], empty),
            lines == scan_lines(s, o, i as int, indents@, lexed_of(tokens@, diagnostics@)),
        decreases n - i,
    {
        i = scan_line_exec(text, i, &mut indents, &mut tokens, &mut diagnostics);
    }
    if n == 0 {
        push(&mut tokens, TokenKind::Newline, 0, 0);
    }
    let total = text.at(n);
    let ghost closing = lexed_of(tokens@, diagnostics@);
    while indents.len() > 1
        invariant
            indents@.len() >= 1,
            scan_spec(s, o) == close_blocks(indents@, total, lexed_of(tokens@, diagnostics@)),
        decreases indents@.len(),
    {
        let ghost before = indents@;
        indents.pop();
        proof {
            assert(indents@ =~= before.drop_last());
        }
        push(&mut tokens, TokenKind::Dedent, total, total);
    }
    ScanOutput { tokens, diagnostics }
}

/// Scans `source` into tokens, reporting tab indentation, indentation that matches no open
/// block, and unterminated identifiers or literals.
pub fn scan(source: &str) -> (out: ScanOutput)
    ensures
        out@ == scan_spec(source@, crate::text::byte_offsets(source@)),
{
    let text = SourceText::new(source);
    scan_text(&text)
}

} // verus!

verus! {

/// Opened blocks minus closed blocks among `tokens`.
pub open spec fn block_balance(tokens: Seq<TokenView>) -> int
    decreases tokens.len(),
{
    if tokens.len() == 0 {
        0
    } else {
        block_balance(tokens.drop_last()) + match tokens.last().kind {
            TokenKindView::Indent => 1int,
            TokenKindView::Dedent => -1int,
            _ => 0int,
        }
    }
}

/// No prefix of `tokens` closes more blocks than it opens.
pub open spec fn prefix_balanced(tokens: Seq<TokenView>) -> bool {
    forall|k: int| 0 <= k <= tokens.len() ==> block_balance(#[trigger] tokens.take(k)) >= 0
}

/// `sp` runs between two character boundaries of a text of `n` characters.
pub open spec fn boundary_span(o: Seq<usize>, n: int, sp: Span) -> bool {
    exists|a: int, b: int| 0 <= a <= b <= n && sp == span_of(o, a, b)
}

/// Every span of `tokens` runs between two character boundaries of a text of `n` characters.
pub open spec fn spans_at_boundaries(tokens: Seq<TokenView>, o: Seq<usize>, n: int) -> bool {
    forall|i: int| 0 <= i < tokens.len() ==> boundary_span(o, n, #[trigger] tokens[i].span)
}

proof fn lemma_boundary(o: Seq<usize>, n: int, a: int, b: int)
    requires
        0 <= a <= b <= n,
    ensures
        boundary_span(o, n, span_of(o, a, b)),
{
    assert(0 <= a <= b <= n && span_of(o, a, b) == span_of(o, a, b));
}

proof fn lemma_span_push(acc: Lexed, kind: TokenKindView, sp: Span, o: Seq<usize>, n: int)
    ensures
        spans_at_boundaries(acc.tokens, o, n) && boundary_span(o, n, sp) ==> spans_at_boundaries(
            acc.token(kind, sp).tokens,
            o,
            n,
        ),
{
    let ts = acc.token(kind, sp).tokens;
    if spans_at_boundaries(acc.tokens, o, n) && boundary_span(o, n, sp) {
        assert forall|i: int| 0 <= i < ts.len() implies boundary_span(o, n, #[trigger] ts[i].span) by {
            if i < acc.tokens.len() {
                assert(ts[i] == acc.tokens[i]);
            }
        }
    }
}

/// A stack of open block widths rests on the unindented top level.
pub open spec fn grounded(st: Seq<usize>) -> bool {
    st.len() >= 1 && st[0] == 0
}

proof fn lemma_token_balance(acc: Lexed, kind: TokenKindView, sp: Span)
    ensures
        block_balance(acc.token(kind, sp).tokens) == block_balance(acc.tokens) + match kind {
            TokenKindView::Indent => 1int,
            TokenKindView::Dedent => -1int,
            _ => 0int,
        },
        prefix_balanced(acc.tokens) && (kind is Dedent ==> block_balance(acc.tokens) >= 1)
            ==> prefix_balanced(acc.token(kind, sp).tokens),
{
    let ts = acc.token(kind, sp).tokens;
    assert(ts.drop_last() =~= acc.tokens);
    if prefix_balanced(acc.tokens) && (kind is Dedent ==> block_balance(acc.tokens) >= 1) {
        assert forall|k: int| 0 <= k <= ts.len() implies block_balance(#[trigger] ts.take(k)) >= 0 by {
            if k <= acc.tokens.len() {
                assert(ts.take(k) =~= acc.tokens.take(k));
            } else {
                assert(ts.take(k) =~= ts);
                assert(acc.tokens.take(acc.tokens.len() as int) =~= acc.tokens);
            }
        }
    }
}

proof fn lemma_lex_balance(s: Seq<char>, o: Seq<usize>, cur: int, end: int, acc: Lexed)
    ensures
        block_balance(lex(s, o, cur, end, acc).tokens) == block_balance(acc.tokens),
        prefix_balanced(acc.tokens) ==> prefix_balanced(lex(s, o, cur, end, acc).tokens),
        0 <= cur && end <= s.len() && spans_at_boundaries(acc.tokens, o, s.len() as int)
            ==> spans_at_boundaries(lex(s, o, cur, end, acc).tokens, o, s.len() as int),
    decreases end - cur,
{
    if cur < end {
        let c = s[cur];
        if is_space(c) {
            lemma_lex_balance(s, o, cur + 1, end, acc);
        } else if c == '#' {
        } else if c == ':' {
            let k = TokenKindView::Colon;
            lemma_token_balance(acc, k, span_of(o, cur, cur + 1));
            lemma_span_push(acc, k, span_of(o, cur, cur + 1), o, s.len() as int);
            if 0 <= cur && cur + 1 <= s.len() {
                lemma_boundary(o, s.len() as int, cur, cur + 1);
            }
            lemma_lex_balance(s, o, cur + 1, end, acc.token(k, span_of(o, cur, cur + 1)));
        } else if c == '.' {
            let k = TokenKindView::Period;
            lemma_token_balance(acc, k, span_of(o, cur, cur + 1));
            lemma_span_push(acc, k, span_of(o, cur, cur + 1), o, s.len() as int);
            if 0 <= cur && cur + 1 <= s.len() {
                lemma_boundary(o, s.len() as int, cur, cur + 1);
            }
            lemma_lex_balance(s, o, cur + 1, end, acc.token(k, span_of(o, cur, cur + 1)));
        } else if c == '`' || c == '(' {
            let closing = if c == '`' {
                '`'
            } else {
                ')'
            };
            let close = find_from(s, cur + 1, end, closing);
            lemma_find_from(s, cur + 1, end, closing);
            if close < end {
                let k = if c == '`' {
                    TokenKindView::QuotedIdentifier(s.subrange(cur + 1, close))
                } else {
                    TokenKindView::CanonicalId(s.subrange(cur + 1, close))
                };
                lemma_token_balance(acc, k, span_of(o, cur, close + 1));
                lemma_span_push(acc, k, span_of(o, cur, close + 1), o, s.len() as int);
                if 0 <= cur && close + 1 <= s.len() {
                    lemma_boundary(o, s.len() as int, cur, close + 1);
                }
                lemma_lex_balance(s, o, close + 1, end, acc.token(k, span_of(o, cur, close + 1)));
            }
        } else if c == '"' {
            let e = string_end(s, cur + 1, end, false);
            lemma_string_end(s, cur + 1, end, false);
            match json_string_value(s.subrange(cur, e)) {
                Some(v) => {
                    let k = TokenKindView::StringLiteral(v);
                    lemma_token_balance(acc, k, span_of(o, cur, e));
                    lemma_span_push(acc, k, span_of(o, cur, e), o, s.len() as int);
                    if 0 <= cur && e <= s.len() {
                        lemma_boundary(o, s.len() as int, cur, e);
                    }
                    lemma_lex_balance(s, o, e, end, acc.token(k, span_of(o, cur, e)));
                },
                None => {
                    let d = error_view(
                        "RSPDL-KO-LEX-005"@,
                        "문자열 literal 형식이 올바르지 않습니다."@,
                        span_of(o, cur, e),
                    );
                    lemma_lex_balance(s, o, e, end, acc.diag(d));
                },
            }
        } else {
            let w = word_end(s, cur, end);
            lemma_word_end(s, cur, end);
            let stop = if w == cur {
                cur + 1
            } else {
                w
            };
            let k = TokenKindView::Word(s.subrange(cur, stop));
            lemma_token_balance(acc, k, span_of(o, cur, stop));
            lemma_span_push(acc, k, span_of(o, cur, stop), o, s.len() as int);
            if 0 <= cur && stop <= s.len() {
                lemma_boundary(o, s.len() as int, cur, stop);
            }
            lemma_lex_balance(s, o, stop, end, acc.token(k, span_of(o, cur, stop)));
        }
    }
}

proof fn lemma_pop_balance(st: Seq<usize>, width: usize, sp: Span, acc: Lexed)
    requires
        grounded(st),
    ensures
        grounded(pop_blocks(st, width, sp, acc).0),
        pop_blocks(st, width, sp, acc).0.len() <= st.len(),
        block_balance(pop_blocks(st, width, sp, acc).1.tokens) - block_balance(acc.tokens)
            == pop_blocks(st, width, sp, acc).0.len() - st.len(),
        prefix_balanced(acc.tokens) && block_balance(acc.tokens) == st.len() - 1 ==> prefix_balanced(
            pop_blocks(st, width, sp, acc).1.tokens,
        ),
    decreases st.len(),
{
    if st.len() > 0 && st.last() > width {
        lemma_token_balance(acc, TokenKindView::Dedent, sp);
        lemma_pop_balance(st.drop_last(), width, sp, acc.token(TokenKindView::Dedent, sp));
    }
}

proof fn lemma_layout_balance(st: Seq<usize>, width: usize, sp: Span, acc: Lexed)
    requires
        grounded(st),
    ensures
        grounded(layout(st, width, sp, acc).0),
        block_balance(layout(st, width, sp, acc).1.tokens) - block_balance(acc.tokens)
            == layout(st, width, sp, acc).0.len() - st.len(),
        prefix_balanced(acc.tokens) && block_balance(acc.tokens) == st.len() - 1 ==> prefix_balanced(
            layout(st, width, sp, acc).1.tokens,
        ),
{
    let current = st.last();
    if width > current {
        lemma_token_balance(acc, TokenKindView::Indent, sp);
    } else if width < current {
        lemma_pop_balance(st, width, sp, acc);
        let (st2, acc2) = pop_blocks(st, width, sp, acc);
        if st2.len() == 0 || st2.last() != width {
            let d = error_view(
                "RSPDL-KO-LEX-002"@,
                "이전 블록과 일치하지 않는 들여쓰기입니다."@,
                sp,
            );
            lemma_token_balance(acc2.diag(d), TokenKindView::Indent, sp);
        }
    }
}

proof fn lemma_line_balance(s: Seq<char>, o: Seq<usize>, i: int, st: Seq<usize>, acc: Lexed)
    requires
        grounded(st),
    ensures
        grounded(scan_line(s, o, i, st, acc).1),
        block_balance(scan_line(s, o, i, st, acc).2.tokens) - block_balance(acc.tokens)
            == scan_line(s, o, i, st, acc).1.len() - st.len(),
        prefix_balanced(acc.tokens) && block_balance(acc.tokens) == st.len() - 1 ==> prefix_balanced(
            scan_line(s, o, i, st, acc).2.tokens,
        ),
{
    let le = line_end(s, i);
    let ce = content_end(s, i);
    let pe = prefix_end(s, i, ce);
    let width = space_count(s, i, pe) as usize;
    let acc1 = match last_tab(s, i, pe) {
        Some(t) => acc.diag(
            error_view(
                "RSPDL-KO-LEX-001"@,
                "들여쓰기에 tab을 사용할 수 없습니다."@,
                span_of(o, t, t + 1),
            ),
        ),
        None => acc,
    };
    assert(acc1.tokens == acc.tokens);
    let (st2, acc2) = if significant(s, pe, ce) {
        let (st2, a) = layout(st, width, span_of(o, i, pe), acc1);
        (st2, lex(s, o, pe, ce, a))
    } else {
        (st, acc1)
    };
    if significant(s, pe, ce) {
        lemma_layout_balance(st, width, span_of(o, i, pe), acc1);
        let (st3, a) = layout(st, width, span_of(o, i, pe), acc1);
        lemma_lex_balance(s, o, pe, ce, a);
    }
    let newline_end = if le < s.len() {
        (o[ce] + 1) as usize
    } else {
        o[ce]
    };
    lemma_token_balance(acc2, TokenKindView::Newline, Span { start: o[ce], end: newline_end });
}

proof fn lemma_lines_balance(s: Seq<char>, o: Seq<usize>, i: int, st: Seq<usize>, acc: Lexed)
    requires
        grounded(st),
    ensures
        grounded(scan_lines(s, o, i, st, acc).0),
        block_balance(scan_lines(s, o, i, st, acc).1.tokens) - block_balance(acc.tokens)
            == scan_lines(s, o, i, st, acc).0.len() - st.len(),
        prefix_balanced(acc.tokens) && block_balance(acc.tokens) == st.len() - 1 ==> prefix_balanced(
            scan_lines(s, o, i, st, acc).1.tokens,
        ),
    decreases s.len() - i,
{
    if 0 <= i < s.len() {
        lemma_find_from(s, i, s.len() as int, '\n');
        lemma_line_balance(s, o, i, st, acc);
        let (next, st2, acc2) = scan_line(s, o, i, st, acc);
        lemma_lines_balance(s, o, next, st2, acc2);
    }
}

proof fn lemma_close_balance(st: Seq<usize>, at: usize, acc: Lexed)
    requires
        st.len() >= 1,
    ensures
        block_balance(close_blocks(st, at, acc).tokens) == block_balance(acc.tokens) - (st.len()
            - 1),
        prefix_balanced(acc.tokens) && block_balance(acc.tokens) == st.len() - 1 ==> prefix_balanced(
            close_blocks(st, at, acc).tokens,
        ),
    decreases st.len(),
{
    if st.len() > 1 {
        let sp = Span { start: at, end: at };
        lemma_token_balance(acc, TokenKindView::Dedent, sp);
        lemma_close_balance(st.drop_last(), at, acc.token(TokenKindView::Dedent, sp));
    }
}

/// Every block the scanner opens is closed again: a scan holds as many `Indent` tokens as
/// `Dedent` tokens, whatever the text.
pub proof fn scan_closes_every_block(s: Seq<char>, o: Seq<usize>)
    ensures
        block_balance(scan_spec(s, o).tokens) == 0,
{
    let empty = Lexed { tokens: Seq::empty(), diagnostics: Seq::empty() };
    lemma_lines_balance(s, o, 0, seq![0usize], empty);
    let (st, acc) = scan_lines(s, o, 0, seq![0usize], empty);
    let acc2 = if s.len() == 0 {
        acc.token(TokenKindView::Newline, Span { start: 0, end: 0 })
    } else {
        acc
    };
    lemma_token_balance(acc, TokenKindView::Newline, Span { start: 0, end: 0 });
    lemma_close_balance(st, o[s.len() as int], acc2);
}

proof fn lemma_pop_spans(st: Seq<usize>, width: usize, sp: Span, acc: Lexed, o: Seq<usize>, n: int)
    ensures
        spans_at_boundaries(acc.tokens, o, n) && boundary_span(o, n, sp) ==> spans_at_boundaries(
            pop_blocks(st, width, sp, acc).1.tokens,
            o,
            n,
        ),
    decreases st.len(),
{
    if st.len() > 0 && st.last() > width {
        lemma_span_push(acc, TokenKindView::Dedent, sp, o, n);
        lemma_pop_spans(st.drop_last(), width, sp, acc.token(TokenKindView::Dedent, sp), o, n);
    }
}

proof fn lemma_layout_spans(st: Seq<usize>, width: usize, sp: Span, acc: Lexed, o: Seq<usize>, n: int)
    ensures
        spans_at_boundaries(acc.tokens, o, n) && boundary_span(o, n, sp) ==> spans_at_boundaries(
            layout(st, width, sp, acc).1.tokens,
            o,
            n,
        ),
{
    let current = st.last();
    if width > current {
        lemma_span_push(acc, TokenKindView::Indent, sp, o, n);
    } else if width < current {
        lemma_pop_spans(st, width, sp, acc, o, n);
        let (st2, acc2) = pop_blocks(st, width, sp, acc);
        if st2.len() == 0 || st2.last() != width {
            let d = error_view(
                "RSPDL-KO-LEX-002"@,
                "이전 블록과 일치하지 않는 들여쓰기입니다."@,
                sp,
            );
            lemma_span_push(acc2.diag(d), TokenKindView::Indent, sp, o, n);
        }
    }
}

pub proof fn lemma_prefix_end(s: Seq<char>, from: int, to: int)
    requires
        from <= to,
    ensures
        from <= prefix_end(s, from, to) <= to,
    decreases to - from,
{
    if from < to && (s[from] == ' ' || s[from] == '\t') {
        lemma_prefix_end(s, from + 1, to);
    }
}

proof fn lemma_line_spans(s: Seq<char>, i: int, st: Seq<usize>, acc: Lexed)
    requires
        0 <= i < s.len(),
        byte_len(s) <= usize::MAX,
    ensures
        spans_at_boundaries(acc.tokens, byte_offsets(s), s.len() as int) ==> spans_at_boundaries(
            scan_line(s, byte_offsets(s), i, st, acc).2.tokens,
            byte_offsets(s),
            s.len() as int,
        ),
{
    let o = byte_offsets(s);
    let n = s.len() as int;
    let le = line_end(s, i);
    let ce = content_end(s, i);
    lemma_find_from(s, i, n, '\n');
    lemma_prefix_end(s, i, ce);
    let pe = prefix_end(s, i, ce);
    let width = space_count(s, i, pe) as usize;
    let acc1 = match last_tab(s, i, pe) {
        Some(t) => acc.diag(
            error_view(
                "RSPDL-KO-LEX-001"@,
                "들여쓰기에 tab을 사용할 수 없습니다."@,
                span_of(o, t, t + 1),
            ),
        ),
        None => acc,
    };
    assert(acc1.tokens == acc.tokens);
    let (st2, acc2) = if significant(s, pe, ce) {
        let (st2, a) = layout(st, width, span_of(o, i, pe), acc1);
        (st2, lex(s, o, pe, ce, a))
    } else {
        (st, acc1)
    };
    if significant(s, pe, ce) {
        lemma_boundary(o, n, i, pe);
        lemma_layout_spans(st, width, span_of(o, i, pe), acc1, o, n);
        let (st3, a) = layout(st, width, span_of(o, i, pe), acc1);
        lemma_lex_balance(s, o, pe, ce, a);
    }
    let newline_end = if le < s.len() {
        (o[ce] + 1) as usize
    } else {
        o[ce]
    };
    let sp = Span { start: o[ce], end: newline_end };
    if le < s.len() {
        assert(s[ce] == '\n' || s[ce] == '\r');
        crate::text::lemma_byte_pos_step(s, ce);
        crate::text::lemma_byte_pos_monotone(s, ce + 1, n);
        assert(s.take(n) =~= s);
        assert(sp == span_of(o, ce, ce + 1));
        lemma_boundary(o, n, ce, ce + 1);
    } else {
        assert(sp == span_of(o, ce, ce));
        lemma_boundary(o, n, ce, ce);
    }
    lemma_span_push(acc2, TokenKindView::Newline, sp, o, n);
}

proof fn lemma_lines_spans(s: Seq<char>, i: int, st: Seq<usize>, acc: Lexed)
    requires
        byte_len(s) <= usize::MAX,
    ensures
        spans_at_boundaries(acc.tokens, byte_offsets(s), s.len() as int) ==> spans_at_boundaries(
            scan_lines(s, byte_offsets(s), i, st, acc).1.tokens,
            byte_offsets(s),
            s.len() as int,
        ),
    decreases s.len() - i,
{
    if 0 <= i < s.len() {
        lemma_find_from(s, i, s.len() as int, '\n');
        lemma_line_spans(s, i, st, acc);
        let (next, st2, acc2) = scan_line(s, byte_offsets(s), i, st, acc);
        lemma_lines_spans(s, next, st2, acc2);
    }
}

proof fn lemma_close_spans(st: Seq<usize>, acc: Lexed, o: Seq<usize>, n: int)
    requires
        0 <= n < o.len(),
    ensures
        spans_at_boundaries(acc.tokens, o, n) ==> spans_at_boundaries(close_blocks(st, o[n], acc).tokens, o, n),
    decreases st.len(),
{
    if st.len() > 1 {
        let sp = Span { start: o[n], end: o[n] };
        assert(sp == span_of(o, n, n));
        lemma_boundary(o, n, n, n);
        lemma_span_push(acc, TokenKindView::Dedent, sp, o, n);
        lemma_close_spans(st.drop_last(), acc.token(TokenKindView::Dedent, sp), o, n);
    }
}

/// Every token of a scan covers a run of whole characters of the text: its span starts and
/// ends at character boundaries, at most at the end of the text.
pub proof fn scan_spans_lie_on_character_boundaries(s: Seq<char>)
    requires
        byte_len(s) <= usize::MAX,
    ensures
        spans_at_boundaries(scan_spec(s, byte_offsets(s)).tokens, byte_offsets(s), s.len() as int),
{
    let o = byte_offsets(s);
    let n = s.len() as int;
    let empty = Lexed { tokens: Seq::empty(), diagnostics: Seq::empty() };
    lemma_lines_spans(s, 0, seq![0usize], empty);
    let (st, acc) = scan_lines(s, o, 0, seq![0usize], empty);
    let sp0 = Span { start: 0, end: 0 };
    let acc2 = if s.len() == 0 {
        acc.token(TokenKindView::Newline, sp0)
    } else {
        acc
    };
    assert(s.take(0) =~= Seq::<char>::empty());
    assert(sp0 == span_of(o, 0, 0));
    lemma_boundary(o, n, 0, 0);
    lemma_span_push(acc, TokenKindView::Newline, sp0, o, n);
    lemma_close_spans(st, acc2, o, n);
}

/// The spans of `tokens` start in ascending order.
pub open spec fn starts_ascending(tokens: Seq<TokenView>) -> bool {
    forall|i: int, j: int| 0 <= i <= j < tokens.len() ==> #[trigger] tokens[i].span.start <= #[trigger] tokens[j].span.start
}

/// No span of `tokens` starts after `x`.
pub open spec fn starts_upto(tokens: Seq<TokenView>, x: usize) -> bool {
    forall|i: int| 0 <= i < tokens.len() ==> #[trigger] tokens[i].span.start <= x
}

proof fn lemma_order_push(acc: Lexed, kind: TokenKindView, sp: Span)
    ensures
        starts_ascending(acc.tokens) && starts_upto(acc.tokens, sp.start) ==> starts_ascending(
            acc.token(kind, sp).tokens,
        ) && starts_upto(acc.token(kind, sp).tokens, sp.start),
{
    let ts = acc.token(kind, sp).tokens;
    if starts_ascending(acc.tokens) && starts_upto(acc.tokens, sp.start) {
        assert forall|i: int, j: int| 0 <= i <= j < ts.len() implies #[trigger] ts[i].span.start
            <= #[trigger] ts[j].span.start by {
            if j < acc.tokens.len() {
                assert(ts[i] == acc.tokens[i] && ts[j] == acc.tokens[j]);
            } else if i < acc.tokens.len() {
                assert(ts[i] == acc.tokens[i]);
            }
        }
        assert forall|i: int| 0 <= i < ts.len() implies #[trigger] ts[i].span.start <= sp.start by {
            if i < acc.tokens.len() {
                assert(ts[i] == acc.tokens[i]);
            }
        }
    }
}

proof fn lemma_upto_weaken(ts: Seq<TokenView>, x: usize, y: usize)
    requires
        x <= y,
    ensures
        starts_upto(ts, x) ==> starts_upto(ts, y),
{
}

proof fn lemma_offsets_monotone(s: Seq<char>, i: int, j: int)
    requires
        0 <= i <= j <= s.len(),
        byte_len(s) <= usize::MAX,
    ensures
        byte_offsets(s)[i] <= byte_offsets(s)[j],
        byte_offsets(s)[j] == crate::text::byte_pos(s, j),
{
    crate::text::lemma_byte_pos_monotone(s, i, j);
    crate::text::lemma_byte_pos_monotone(s, j, s.len() as int);
    assert(s.take(s.len() as int) =~= s);
}

proof fn lemma_lex_order(s: Seq<char>, cur: int, end: int, acc: Lexed)
    requires
        0 <= cur <= end <= s.len(),
        byte_len(s) <= usize::MAX,
    ensures
        starts_ascending(acc.tokens) && starts_upto(acc.tokens, byte_offsets(s)[cur])
            ==> starts_ascending(lex(s, byte_offsets(s), cur, end, acc).tokens) && starts_upto(
            lex(s, byte_offsets(s), cur, end, acc).tokens,
            byte_offsets(s)[end],
        ),
    decreases end - cur,
{
    let o = byte_offsets(s);
    lemma_offsets_monotone(s, cur, end);
    lemma_upto_weaken(acc.tokens, o[cur], o[end]);
    if cur < end {
        let c = s[cur];
        if is_space(c) {
            lemma_offsets_monotone(s, cur, cur + 1);
            lemma_upto_weaken(acc.tokens, o[cur], o[cur + 1]);
            lemma_lex_order(s, cur + 1, end, acc);
        } else if c == '#' {
        } else if c == ':' || c == '.' {
            let k = if c == ':' {
                TokenKindView::Colon
            } else {
                TokenKindView::Period
            };
            let sp = span_of(o, cur, cur + 1);
            lemma_order_push(acc, k, sp);
            lemma_offsets_monotone(s, cur, cur + 1);
            lemma_upto_weaken(acc.token(k, sp).tokens, o[cur], o[cur + 1]);
            lemma_lex_order(s, cur + 1, end, acc.token(k, sp));
        } else if c == '`' || c == '(' {
            let closing = if c == '`' {
                '`'
            } else {
                ')'
            };
            let close = find_from(s, cur + 1, end, closing);
            lemma_find_from(s, cur + 1, end, closing);
            if close < end {
                let k = if c == '`' {
                    TokenKindView::QuotedIdentifier(s.subrange(cur + 1, close))
                } else {
                    TokenKindView::CanonicalId(s.subrange(cur + 1, close))
                };
                let sp = span_of(o, cur, close + 1);
                lemma_order_push(acc, k, sp);
                lemma_offsets_monotone(s, cur, close + 1);
                lemma_upto_weaken(acc.token(k, sp).tokens, o[cur], o[close + 1]);
                lemma_lex_order(s, close + 1, end, acc.token(k, sp));
            }
        } else if c == '"' {
            let e = string_end(s, cur + 1, end, false);
            lemma_string_end(s, cur + 1, end, false);
            lemma_offsets_monotone(s, cur, e);
            match json_string_value(s.subrange(cur, e)) {
                Some(v) => {
                    let k = TokenKindView::StringLiteral(v);
                    let sp = span_of(o, cur, e);
                    lemma_order_push(acc, k, sp);
                    lemma_upto_weaken(acc.token(k, sp).tokens, o[cur], o[e]);
                    lemma_lex_order(s, e, end, acc.token(k, sp));
                },
                None => {
                    let d = error_view(
                        "RSPDL-KO-LEX-005"@,
                        "문자열 literal 형식이 올바르지 않습니다."@,
                        span_of(o, cur, e),
                    );
                    lemma_upto_weaken(acc.tokens, o[cur], o[e]);
                    lemma_lex_order(s, e, end, acc.diag(d));
                },
            }
        } else {
            let w = word_end(s, cur, end);
            lemma_word_end(s, cur, end);
            let stop = if w == cur {
                cur + 1
            } else {
                w
            };
            let k = TokenKindView::Word(s.subrange(cur, stop));
            let sp = span_of(o, cur, stop);
            lemma_order_push(acc, k, sp);
            lemma_offsets_monotone(s, cur, stop);
            lemma_upto_weaken(acc.token(k, sp).tokens, o[cur], o[stop]);
            lemma_lex_order(s, stop, end, acc.token(k, sp));
        }
    }
}

proof fn lemma_pop_order(st: Seq<usize>, width: usize, sp: Span, acc: Lexed)
    ensures
        starts_ascending(acc.tokens) && starts_upto(acc.tokens, sp.start) ==> starts_ascending(
            pop_blocks(st, width, sp, acc).1.tokens,
        ) && starts_upto(pop_blocks(st, width, sp, acc).1.tokens, sp.start),
    decreases st.len(),
{
    if st.len() > 0 && st.last() > width {
        lemma_order_push(acc, TokenKindView::Dedent, sp);
        lemma_pop_order(st.drop_last(), width, sp, acc.token(TokenKindView::Dedent, sp));
    }
}

proof fn lemma_layout_order(st: Seq<usize>, width: usize, sp: Span, acc: Lexed)
    ensures
        starts_ascending(acc.tokens) && starts_upto(acc.tokens, sp.start) ==> starts_ascending(
            layout(st, width, sp, acc).1.tokens,
        ) && starts_upto(layout(st, width, sp, acc).1.tokens, sp.start),
{
    let current = st.last();
    if width > current {
        lemma_order_push(acc, TokenKindView::Indent, sp);
    } else if width < current {
        lemma_pop_order(st, width, sp, acc);
        let (st2, acc2) = pop_blocks(st, width, sp, acc);
        if st2.len() == 0 || st2.last() != width {
            let d = error_view(
                "RSPDL-KO-LEX-002"@,
                "이전 블록과 일치하지 않는 들여쓰기입니다."@,
                sp,
            );
            lemma_order_push(acc2.diag(d), TokenKindView::Indent, sp);
        }
    }
}

proof fn lemma_line_order(s: Seq<char>, i: int, st: Seq<usize>, acc: Lexed)
    requires
        0 <= i < s.len(),
        byte_len(s) <= usize::MAX,
    ensures
        scan_line(s, byte_offsets(s), i, st, acc).0 <= s.len(),
        i < scan_line(s, byte_offsets(s), i, st, acc).0,
        starts_ascending(acc.tokens) && starts_upto(acc.tokens, byte_offsets(s)[i]) ==> starts_ascending(
            scan_line(s, byte_offsets(s), i, st, acc).2.tokens,
        ) && starts_upto(
            scan_line(s, byte_offsets(s), i, st, acc).2.tokens,
            byte_offsets(s)[scan_line(s, byte_offsets(s), i, st, acc).0],
        ),
{
    let o = byte_offsets(s);
    let n = s.len() as int;
    let le = line_end(s, i);
    let ce = content_end(s, i);
    lemma_find_from(s, i, n, '\n');
    lemma_prefix_end(s, i, ce);
    let pe = prefix_end(s, i, ce);
    let width = space_count(s, i, pe) as usize;
    let acc1 = match last_tab(s, i, pe) {
        Some(t) => acc.diag(
            error_view(
                "RSPDL-KO-LEX-001"@,
                "들여쓰기에 tab을 사용할 수 없습니다."@,
                span_of(o, t, t + 1),
            ),
        ),
        None => acc,
    };
    assert(acc1.tokens == acc.tokens);
    let (st2, acc2) = if significant(s, pe, ce) {
        let (st2, a) = layout(st, width, span_of(o, i, pe), acc1);
        (st2, lex(s, o, pe, ce, a))
    } else {
        (st, acc1)
    };
    lemma_offsets_monotone(s, i, pe);
    lemma_offsets_monotone(s, pe, ce);
    lemma_offsets_monotone(s, i, ce);
    if significant(s, pe, ce) {
        lemma_layout_order(st, width, span_of(o, i, pe), acc1);
        let (st3, a) = layout(st, width, span_of(o, i, pe), acc1);
        lemma_upto_weaken(a.tokens, o[i], o[pe]);
        lemma_lex_order(s, pe, ce, a);
    } else {
        lemma_upto_weaken(acc1.tokens, o[i], o[ce]);
    }
    let newline_end = if le < s.len() {
        (o[ce] + 1) as usize
    } else {
        o[ce]
    };
    let sp = Span { start: o[ce], end: newline_end };
    lemma_order_push(acc2, TokenKindView::Newline, sp);
    let next = if le < s.len() {
        le + 1
    } else {
        n
    };
    lemma_offsets_monotone(s, ce, next);
    lemma_upto_weaken(acc2.token(TokenKindView::Newline, sp).tokens, o[ce], o[next]);
}

proof fn lemma_lines_order(s: Seq<char>, i: int, st: Seq<usize>, acc: Lexed)
    requires
        0 <= i <= s.len(),
        byte_len(s) <= usize::MAX,
    ensures
        starts_ascending(acc.tokens) && starts_upto(acc.tokens, byte_offsets(s)[i]) ==> starts_ascending(
            scan_lines(s, byte_offsets(s), i, st, acc).1.tokens,
        ) && starts_upto(scan_lines(s, byte_offsets(s), i, st, acc).1.tokens, byte_offsets(s)[s.len() as int]),
    decreases s.len() - i,
{
    if i < s.len() {
        lemma_find_from(s, i, s.len() as int, '\n');
        lemma_line_order(s, i, st, acc);
        let (next, st2, acc2) = scan_line(s, byte_offsets(s), i, st, acc);
        lemma_lines_order(s, next, st2, acc2);
    }
}

proof fn lemma_close_order(st: Seq<usize>, at: usize, acc: Lexed)
    ensures
        starts_ascending(acc.tokens) && starts_upto(acc.tokens, at) ==> starts_ascending(
            close_blocks(st, at, acc).tokens,
        ),
    decreases st.len(),
{
    if st.len() > 1 {
        let sp = Span { start: at, end: at };
        lemma_order_push(acc, TokenKindView::Dedent, sp);
        lemma_close_order(st.drop_last(), at, acc.token(TokenKindView::Dedent, sp));
    }
}

/// The tokens of a scan come in the order of the text: their spans start in ascending order.
pub proof fn scan_tokens_follow_the_text(s: Seq<char>)
    requires
        byte_len(s) <= usize::MAX,
    ensures
        starts_ascending(scan_spec(s, byte_offsets(s)).tokens),
{
    let o = byte_offsets(s);
    let n = s.len() as int;
    let empty = Lexed { tokens: Seq::empty(), diagnostics: Seq::empty() };
    lemma_lines_order(s, 0, seq![0usize], empty);
    let (st, acc) = scan_lines(s, o, 0, seq![0usize], empty);
    let sp0 = Span { start: 0, end: 0 };
    assert(s.take(0) =~= Seq::<char>::empty());
    lemma_offsets_monotone(s, 0, n);
    let acc2 = if s.len() == 0 {
        acc.token(TokenKindView::Newline, sp0)
    } else {
        acc
    };
    lemma_order_push(acc, TokenKindView::Newline, sp0);
    lemma_close_order(st, o[n], acc2);
}

/// Every diagnostic of `ds` spans a run between two character boundaries of a text of `n`
/// characters.
pub open spec fn diagnostics_at_boundaries(ds: Seq<DiagnosticView>, o: Seq<usize>, n: int) -> bool {
    forall|i: int| 0 <= i < ds.len() ==> boundary_span(o, n, #[trigger] ds[i].span)
}

proof fn lemma_diag_push(acc: Lexed, d: DiagnosticView, o: Seq<usize>, n: int)
    ensures
        diagnostics_at_boundaries(acc.diagnostics, o, n) && boundary_span(o, n, d.span)
            ==> diagnostics_at_boundaries(acc.diag(d).diagnostics, o, n),
{
    let ds = acc.diag(d).diagnostics;
    if diagnostics_at_boundaries(acc.diagnostics, o, n) && boundary_span(o, n, d.span) {
        assert forall|i: int| 0 <= i < ds.len() implies boundary_span(o, n, #[trigger] ds[i].span) by {
            if i < acc.diagnostics.len() {
                assert(ds[i] == acc.diagnostics[i]);
            }
        }
    }
}

proof fn lemma_lex_diags(s: Seq<char>, o: Seq<usize>, cur: int, end: int, acc: Lexed)
    requires
        0 <= cur,
        end <= s.len(),
    ensures
        diagnostics_at_boundaries(acc.diagnostics, o, s.len() as int) ==> diagnostics_at_boundaries(
            lex(s, o, cur, end, acc).diagnostics,
            o,
            s.len() as int,
        ),
    decreases end - cur,
{
    let n = s.len() as int;
    if cur < end {
        let c = s[cur];
        if is_space(c) {
            lemma_lex_diags(s, o, cur + 1, end, acc);
        } else if c == '#' {
        } else if c == ':' || c == '.' {
            let k = if c == ':' {
                TokenKindView::Colon
            } else {
                TokenKindView::Period
            };
            lemma_lex_diags(s, o, cur + 1, end, acc.token(k, span_of(o, cur, cur + 1)));
        } else if c == '`' || c == '(' {
            let closing = if c == '`' {
                '`'
            } else {
                ')'
            };
            let close = find_from(s, cur + 1, end, closing);
            lemma_find_from(s, cur + 1, end, closing);
            if close < end {
                let k = if c == '`' {
                    TokenKindView::QuotedIdentifier(s.subrange(cur + 1, close))
                } else {
                    TokenKindView::CanonicalId(s.subrange(cur + 1, close))
                };
                lemma_lex_diags(s, o, close + 1, end, acc.token(k, span_of(o, cur, close + 1)));
            } else {
                lemma_boundary(o, n, cur, end);
                let d = if c == '`' {
                    error_view("RSPDL-KO-LEX-003"@, "닫히지 않은 backtick 식별자입니다."@, span_of(o, cur, end))
                } else {
                    error_view("RSPDL-KO-LEX-004"@, "`)`로 닫히지 않은 stable ID입니다."@, span_of(o, cur, end))
                };
                lemma_diag_push(acc, d, o, n);
            }
        } else if c == '"' {
            let e = string_end(s, cur + 1, end, false);
            lemma_string_end(s, cur + 1, end, false);
            match json_string_value(s.subrange(cur, e)) {
                Some(v) => {
                    lemma_lex_diags(s, o, e, end, acc.token(TokenKindView::StringLiteral(v), span_of(o, cur, e)));
                },
                None => {
                    let d = error_view(
                        "RSPDL-KO-LEX-005"@,
                        "문자열 literal 형식이 올바르지 않습니다."@,
                        span_of(o, cur, e),
                    );
                    lemma_boundary(o, n, cur, e);
                    lemma_diag_push(acc, d, o, n);
                    lemma_lex_diags(s, o, e, end, acc.diag(d));
                },
            }
        } else {
            let w = word_end(s, cur, end);
            lemma_word_end(s, cur, end);
            let stop = if w == cur {
                cur + 1
            } else {
                w
            };
            lemma_lex_diags(s, o, stop, end, acc.token(TokenKindView::Word(s.subrange(cur, stop)), span_of(o, cur, stop)));
        }
    }
}

proof fn lemma_pop_diags(st: Seq<usize>, width: usize, sp: Span, acc: Lexed)
    ensures
        pop_blocks(st, width, sp, acc).1.diagnostics == acc.diagnostics,
    decreases st.len(),
{
    if st.len() > 0 && st.last() > width {
        lemma_pop_diags(st.drop_last(), width, sp, acc.token(TokenKindView::Dedent, sp));
    }
}

proof fn lemma_close_diags(st: Seq<usize>, at: usize, acc: Lexed)
    ensures
        close_blocks(st, at, acc).diagnostics == acc.diagnostics,
    decreases st.len(),
{
    if st.len() > 1 {
        lemma_close_diags(st.drop_last(), at, acc.token(TokenKindView::Dedent, Span { start: at, end: at }));
    }
}

proof fn lemma_line_diags(s: Seq<char>, o: Seq<usize>, i: int, st: Seq<usize>, acc: Lexed)
    requires
        0 <= i < s.len(),
    ensures
        diagnostics_at_boundaries(acc.diagnostics, o, s.len() as int) ==> diagnostics_at_boundaries(
            scan_line(s, o, i, st, acc).2.diagnostics,
            o,
            s.len() as int,
        ),
{
    let n = s.len() as int;
    let le = line_end(s, i);
    let ce = content_end(s, i);
    lemma_find_from(s, i, n, '\n');
    lemma_prefix_end(s, i, ce);
    let pe = prefix_end(s, i, ce);
    let width = space_count(s, i, pe) as usize;
    lemma_last_tab(s, i, pe);
    let acc1 = match last_tab(s, i, pe) {
        Some(t) => {
            let d = error_view(
                "RSPDL-KO-LEX-001"@,
                "들여쓰기에 tab을 사용할 수 없습니다."@,
                span_of(o, t, t + 1),
            );
            lemma_boundary(o, n, t, t + 1);
            lemma_diag_push(acc, d, o, n);
            acc.diag(d)
        },
        None => acc,
    };
    if significant(s, pe, ce) {
        let sp = span_of(o, i, pe);
        lemma_boundary(o, n, i, pe);
        let current = st.last();
        if width < current {
            lemma_pop_diags(st, width, sp, acc1);
            let (st2, acc2) = pop_blocks(st, width, sp, acc1);
            if st2.len() == 0 || st2.last() != width {
                let d = error_view(
                    "RSPDL-KO-LEX-002"@,
                    "이전 블록과 일치하지 않는 들여쓰기입니다."@,
                    sp,
                );
                lemma_diag_push(acc2, d, o, n);
            }
        }
        let (st3, a) = layout(st, width, sp, acc1);
        lemma_lex_diags(s, o, pe, ce, a);
    }
}

proof fn lemma_lines_diags(s: Seq<char>, o: Seq<usize>, i: int, st: Seq<usize>, acc: Lexed)
    ensures
        diagnostics_at_boundaries(acc.diagnostics, o, s.len() as int) ==> diagnostics_at_boundaries(
            scan_lines(s, o, i, st, acc).1.diagnostics,
            o,
            s.len() as int,
        ),
    decreases s.len() - i,
{
    if 0 <= i < s.len() {
        lemma_find_from(s, i, s.len() as int, '\n');
        lemma_line_diags(s, o, i, st, acc);
        let (next, st2, acc2) = scan_line(s, o, i, st, acc);
        lemma_lines_diags(s, o, next, st2, acc2);
    }
}

/// Every diagnostic of a scan points into the text: its span runs between two character
/// boundaries, at most at the end of the text.
pub proof fn scan_diagnostics_lie_within_the_text(s: Seq<char>, o: Seq<usize>)
    ensures
        diagnostics_at_boundaries(scan_spec(s, o).diagnostics, o, s.len() as int),
{
    let empty = Lexed { tokens: Seq::empty(), diagnostics: Seq::empty() };
    lemma_lines_diags(s, o, 0, seq![0usize], empty);
    let (st, acc) = scan_lines(s, o, 0, seq![0usize], empty);
    let acc2 = if s.len() == 0 {
        acc.token(TokenKindView::Newline, Span { start: 0, end: 0 })
    } else {
        acc
    };
    lemma_close_diags(st, o[s.len() as int], acc2);
}

proof fn lemma_prefix_visible(s: Seq<char>, from: int, to: int)
    requires
        from <= to,
    ensures
        first_visible(s, from, to) == first_visible(s, prefix_end(s, from, to), to),
    decreases to - from,
{
    if from < to && (s[from] == ' ' || s[from] == '\t') {
        assert(is_space(s[from]));
        lemma_prefix_visible(s, from + 1, to);
    }
}

/// The first visible character of the line starting at `i` is `#`: a whole-line comment.
pub open spec fn comment_line(s: Seq<char>, i: int) -> bool {
    let ce = content_end(s, i);
    let v = first_visible(s, i, ce);
    v < ce && s[v] == '#'
}

/// The line starting at `i` holds nothing but white space.
pub open spec fn blank_line(s: Seq<char>, i: int) -> bool {
    first_visible(s, i, content_end(s, i)) >= content_end(s, i)
}

/// A whole-line comment or a blank line takes no part in the layout, wherever it is indented:
/// scanning it leaves the open blocks as they were and adds nothing but the line's end.
pub proof fn comment_lines_leave_the_layout_alone(s: Seq<char>, o: Seq<usize>, i: int, st: Seq<usize>, acc: Lexed)
    requires
        0 <= i < s.len(),
        comment_line(s, i) || blank_line(s, i),
    ensures
        scan_line(s, o, i, st, acc).1 == st,
        scan_line(s, o, i, st, acc).2.tokens.len() == acc.tokens.len() + 1,
        scan_line(s, o, i, st, acc).2.tokens.subrange(0, acc.tokens.len() as int) == acc.tokens,
        scan_line(s, o, i, st, acc).2.tokens.last().kind == TokenKindView::Newline,
{
    let ce = content_end(s, i);
    lemma_find_from(s, i, s.len() as int, '\n');
    lemma_prefix_end(s, i, ce);
    lemma_prefix_visible(s, i, ce);
    let pe = prefix_end(s, i, ce);
    assert(!significant(s, pe, ce));
    let r = scan_line(s, o, i, st, acc);
    assert(r.2.tokens.subrange(0, acc.tokens.len() as int) =~= acc.tokens);
}

/// No block is closed before it was opened: at every point of a scan, the `Dedent` tokens so
/// far are at most the `Indent` tokens so far, whatever the text.
pub proof fn scan_never_closes_an_unopened_block(s: Seq<char>, o: Seq<usize>)
    ensures
        prefix_balanced(scan_spec(s, o).tokens),
{
    let empty = Lexed { tokens: Seq::empty(), diagnostics: Seq::empty() };
    assert forall|k: int| 0 <= k <= empty.tokens.len() implies block_balance(#[trigger] empty.tokens.take(k)) >= 0 by {
        assert(empty.tokens.take(k) =~= Seq::<TokenView>::empty());
    }
    lemma_lines_balance(s, o, 0, seq![0usize], empty);
    let (st, acc) = scan_lines(s, o, 0, seq![0usize], empty);
    let acc2 = if s.len() == 0 {
        acc.token(TokenKindView::Newline, Span { start: 0, end: 0 })
    } else {
        acc
    };
    lemma_token_balance(acc, TokenKindView::Newline, Span { start: 0, end: 0 });
    lemma_close_balance(st, o[s.len() as int], acc2);
}

} // verus!
