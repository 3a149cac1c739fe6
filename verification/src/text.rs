//! Characters, byte offsets and the small string toolkit shared by the readers.
//!
//! Source text is read as a sequence of `char`s, while every span the library reports is a
//! byte range of the UTF-8 encoding of that text. [`SourceText`] keeps both views side by side.
use vstd::prelude::*;

verus! {

/// Number of bytes of the UTF-8 encoding of `c`.
pub open spec fn char_width(c: char) -> nat {
    if (c as u32) < 0x80 {
        1
    } else if (c as u32) < 0x800 {
        2
    } else if (c as u32) < 0x10000 {
        3
    } else {
        4
    }
}

/// Number of bytes of the UTF-8 encoding of `s`.
pub open spec fn byte_len(s: Seq<char>) -> nat
    decreases s.len(),
{
    if s.len() == 0 {
        0
    } else {
        byte_len(s.drop_last()) + char_width(s.last())
    }
}

/// Byte offset of the character at index `i` of `s`.
pub open spec fn byte_pos(s: Seq<char>, i: int) -> nat {
    byte_len(s.take(i))
}

/// The byte offset of every character boundary of `s`, from `0` to the full length.
pub open spec fn byte_offsets(s: Seq<char>) -> Seq<usize> {
    Seq::new((s.len() + 1) as nat, |i: int| byte_pos(s, i) as usize)
}

pub proof fn lemma_byte_len_concat(a: Seq<char>, b: Seq<char>)
    ensures
        byte_len(a + b) == byte_len(a) + byte_len(b),
    decreases b.len(),
{
    if b.len() == 0 {
        assert(a + b =~= a);
    } else {
        assert((a + b).drop_last() =~= a + b.drop_last());
        lemma_byte_len_concat(a, b.drop_last());
    }
}

pub proof fn lemma_byte_pos_step(s: Seq<char>, i: int)
    requires
        0 <= i < s.len(),
    ensures
        byte_pos(s, i + 1) == byte_pos(s, i) + char_width(s[i]),
{
    assert(s.take(i + 1).drop_last() =~= s.take(i));
}

pub proof fn lemma_byte_pos_monotone(s: Seq<char>, i: int, j: int)
    requires
        0 <= i <= j <= s.len(),
    ensures
        byte_pos(s, i) <= byte_pos(s, j),
        byte_pos(s, j) == byte_pos(s, i) + byte_len(s.subrange(i, j)),
{
    assert(s.take(j) =~= s.take(i) + s.subrange(i, j));
    lemma_byte_len_concat(s.take(i), s.subrange(i, j));
}

proof fn lemma_encode_len_concat(a: Seq<char>, b: Seq<char>)
    ensures
        vstd::utf8::encode_utf8(a + b).len() == vstd::utf8::encode_utf8(a).len()
            + vstd::utf8::encode_utf8(b).len(),
    decreases a.len(),
{
    if a.len() == 0 {
        assert(a + b =~= b);
    } else {
        assert((a + b).drop_first() =~= a.drop_first() + b);
        lemma_encode_len_concat(a.drop_first(), b);
    }
}

pub proof fn lemma_byte_len_is_encoding_len(s: Seq<char>)
    ensures
        byte_len(s) == vstd::utf8::encode_utf8(s).len(),
    decreases s.len(),
{
    if s.len() > 0 {
        let init = s.drop_last();
        let last = s.last();
        lemma_byte_len_is_encoding_len(init);
        assert(s =~= init + seq![last]);
        lemma_encode_len_concat(init, seq![last]);
        assert(seq![last].drop_first() =~= Seq::<char>::empty());
        vstd::utf8::char_is_scalar(last);
        assert(vstd::utf8::encode_utf8(seq![last]) =~= vstd::utf8::encode_scalar(last as u32)
            + vstd::utf8::encode_utf8(Seq::<char>::empty()));
        assert(vstd::utf8::encode_scalar(last as u32).len() == char_width(last));
    }
}

/// Bytes needed to encode `c`, as `char::len_utf8` reports it.
pub fn width_of(c: char) -> (w: usize)
    ensures
        w == char_width(c),
        1 <= w <= 4,
{
    let v: u32 = c as u32;
    if v < 0x80 {
        1
    } else if v < 0x800 {
        2
    } else if v < 0x10000 {
        3
    } else {
        4
    }
}

/// The Unicode `White_Space` property, which is what `char::is_whitespace` tests.
pub open spec fn is_space(c: char) -> bool {
    let v = c as u32;
    ||| 0x09 <= v <= 0x0D
    ||| v == 0x20
    ||| v == 0x85
    ||| v == 0xA0
    ||| v == 0x1680
    ||| 0x2000 <= v <= 0x200A
    ||| v == 0x2028
    ||| v == 0x2029
    ||| v == 0x202F
    ||| v == 0x205F
    ||| v == 0x3000
}

pub fn is_whitespace(c: char) -> (b: bool)
    ensures
        b == is_space(c),
{
    let v: u32 = c as u32;
    (0x09 <= v && v <= 0x0D) || v == 0x20 || v == 0x85 || v == 0xA0 || v == 0x1680 || (0x2000
        <= v && v <= 0x200A) || v == 0x2028 || v == 0x2029 || v == 0x202F || v == 0x205F || v
        == 0x3000
}

/// A source text held both as characters and as the byte offsets of their boundaries.
pub struct SourceText {
    pub chars: Vec<char>,
    pub offsets: Vec<usize>,
}

impl SourceText {
    pub open spec fn wf(&self) -> bool {
        &&& self.offsets@ == byte_offsets(self.chars@)
        &&& byte_len(self.chars@) <= usize::MAX
    }

    /// Reads `source` character by character, recording where each one starts.
    pub fn new(source: &str) -> (t: SourceText)
        ensures
            t.wf(),
            t.chars@ == source@,
    {
        proof {
            lemma_byte_len_is_encoding_len(source@);
        }
        let bytes: &[u8] = source.as_bytes();
        let total: usize = bytes.len();
        let mut chars: Vec<char> = Vec::new();
        let mut offsets: Vec<usize> = Vec::new();
        let mut pos: usize = 0;
        offsets.push(0);
        proof {
            assert(source@.take(0) =~= Seq::<char>::empty());
        }
        for c in it: source.chars()
            invariant
                it.seq() == source@,
                chars@ == source@.take(it.index() as int),
                offsets@.len() == chars@.len() + 1,
                forall|k: int|
                    0 <= k < offsets@.len() ==> #[trigger] offsets@[k] == byte_pos(source@, k),
                pos == byte_pos(source@, it.index() as int),
                byte_len(source@) == total,
        {
            proof {
                let i = it.index() as int;
                lemma_byte_pos_step(source@, i);
                lemma_byte_pos_monotone(source@, i + 1, source@.len() as int);
                assert(source@.take(source@.len() as int) =~= source@);
            }
            let w: usize = width_of(c);
            pos = pos + w;
            chars.push(c);
            offsets.push(pos);
            proof {
                assert(chars@ =~= source@.take(it.index() + 1));
            }
        }
        proof {
            assert(chars@ =~= source@);
            assert(offsets@ =~= byte_offsets(source@));
        }
        SourceText { chars, offsets }
    }

    pub fn len(&self) -> (n: usize)
        ensures
            n == self.chars@.len(),
    {
        self.chars.len()
    }

    /// Byte offset of the character boundary at index `i`.
    pub fn at(&self, i: usize) -> (b: usize)
        requires
            self.wf(),
            i <= self.chars@.len(),
        ensures
            b == byte_pos(self.chars@, i as int),
            b == self.offsets@[i as int],
    {
        proof {
            lemma_byte_pos_monotone(self.chars@, i as int, self.chars@.len() as int);
            assert(self.chars@.take(self.chars@.len() as int) =~= self.chars@);
        }
        self.offsets[i]
    }

    /// The characters in `[lo, hi)` as an owned string.
    pub fn slice(&self, lo: usize, hi: usize) -> (s: String)
        requires
            lo <= hi <= self.chars@.len(),
        ensures
            s@ == self.chars@.subrange(lo as int, hi as int),
    {
        string_of(&self.chars, lo, hi)
    }
}

/// Number of bytes of the UTF-8 encoding of `s`, as `str::len` reports it.
pub fn byte_length(s: &str) -> (n: usize)
    ensures
        n == byte_len(s@),
{
    proof {
        lemma_byte_len_is_encoding_len(s@);
    }
    let bytes: &[u8] = s.as_bytes();
    bytes.len()
}

/// Appends one character, as `String::push` documents it.
#[verifier::external_body]
pub fn push_char(s: &mut String, c: char)
    ensures
        final(s)@ == old(s)@.push(c),
{
    s.push(c);
}

/// Compares two string slices for equality of their characters, as `<str as PartialEq>::eq`
/// documents it.
#[verifier::external_body]
pub fn str_eq(a: &str, b: &str) -> (r: bool)
    ensures
        r == (a@ == b@),
{
    a == b
}

/// The characters of `chars` in `[lo, hi)` as an owned string.
pub fn string_of(chars: &[char], lo: usize, hi: usize) -> (s: String)
    requires
        lo <= hi <= chars@.len(),
    ensures
        s@ == chars@.subrange(lo as int, hi as int),
{
    let mut s = String::new();
    let mut i: usize = lo;
    while i < hi
        invariant
            lo <= i <= hi <= chars@.len(),
            s@ == chars@.subrange(lo as int, i as int),
        decreases hi - i,
    {
        push_char(&mut s, chars[i]);
        i = i + 1;
        proof {
            assert(s@ =~= chars@.subrange(lo as int, i as int));
        }
    }
    s
}

/// The characters of `s`, in order.
pub fn chars_of(s: &str) -> (v: Vec<char>)
    ensures
        v@ == s@,
{
    let mut v: Vec<char> = Vec::new();
    for c in it: s.chars()
        invariant
            v@ == it.seq().take(it.index() as int),
            it.seq() == s@,
    {
        v.push(c);
    }
    v
}

/// Index of the first `c` in `chars[from..to)`, or `to` when there is none.
pub open spec fn find_from(chars: Seq<char>, from: int, to: int, c: char) -> int
    decreases to - from,
{
    if from >= to {
        to
    } else if chars[from] == c {
        from
    } else {
        find_from(chars, from + 1, to, c)
    }
}

pub proof fn lemma_find_from(chars: Seq<char>, from: int, to: int, c: char)
    requires
        from <= to,
    ensures
        from <= find_from(chars, from, to, c) <= to,
        forall|k: int| from <= k < find_from(chars, from, to, c) ==> chars[k] != c,
        find_from(chars, from, to, c) < to ==> chars[find_from(chars, from, to, c)] == c,
    decreases to - from,
{
    if from < to && chars[from] != c {
        lemma_find_from(chars, from + 1, to, c);
    }
}

pub fn find_char(chars: &[char], from: usize, to: usize, c: char) -> (r: usize)
    requires
        from <= to <= chars@.len(),
    ensures
        r == find_from(chars@, from as int, to as int, c),
{
    let mut i: usize = from;
    while i < to
        invariant
            from <= i <= to <= chars@.len(),
            find_from(chars@, from as int, to as int, c) == find_from(
                chars@,
                i as int,
                to as int,
                c,
            ),
        decreases to - i,
    {
        if chars[i] == c {
            return i;
        }
        i = i + 1;
    }
    i
}

} // verus!

verus! {

/// Decimal digits of `n`, most significant first.
pub open spec fn decimal_spec(n: nat) -> Seq<char>
    decreases n,
{
    if n < 10 {
        seq![digit_char(n)]
    } else {
        decimal_spec(n / 10).push(digit_char(n % 10))
    }
}

pub open spec fn digit_char(d: nat) -> char {
    if d == 0 {
        '0'
    } else if d == 1 {
        '1'
    } else if d == 2 {
        '2'
    } else if d == 3 {
        '3'
    } else if d == 4 {
        '4'
    } else if d == 5 {
        '5'
    } else if d == 6 {
        '6'
    } else if d == 7 {
        '7'
    } else if d == 8 {
        '8'
    } else {
        '9'
    }
}

fn digit(d: usize) -> (c: char)
    requires
        d < 10,
    ensures
        c == digit_char(d as nat),
{
    if d == 0 {
        '0'
    } else if d == 1 {
        '1'
    } else if d == 2 {
        '2'
    } else if d == 3 {
        '3'
    } else if d == 4 {
        '4'
    } else if d == 5 {
        '5'
    } else if d == 6 {
        '6'
    } else if d == 7 {
        '7'
    } else if d == 8 {
        '8'
    } else {
        '9'
    }
}

/// `n` in base 10, as `usize::to_string` writes it.
pub fn decimal(n: usize) -> (s: String)
    ensures
        s@ == decimal_spec(n as nat),
    decreases n,
{
    if n < 10 {
        let mut s = String::new();
        push_char(&mut s, digit(n));
        proof {
            assert(s@ =~= seq![digit_char(n as nat)]);
        }
        s
    } else {
        let mut s = decimal(n / 10);
        push_char(&mut s, digit(n % 10));
        s
    }
}

} // verus!
