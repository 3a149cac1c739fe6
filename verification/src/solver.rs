//! The solver front: a unit handle and the names under which declarations are handed to
//! the SMT backend.
//!
//! Names are length-prefixed, so no two distinct identifiers, nor two distinct
//! (enum, variant) pairs, can ever share a name.
use vstd::prelude::*;
use vstd::string::StringExecFns;

use crate::text::{
    byte_len, byte_length, char_width, decimal, decimal_spec, digit_char, lemma_byte_len_concat,
    push_char,
};

verus! {

/// The SMT-backed constraint solver handle.
#[derive(Debug, Default)]
pub struct Z3Solver;

/// `prefix_<bytes of id>_<id>`.
pub open spec fn symbol_spec(prefix: Seq<char>, id: Seq<char>) -> Seq<char> {
    prefix + seq!['_'] + decimal_spec(byte_len(id)) + seq!['_'] + id
}

/// `rspdl_e_<bytes of enum>_<enum>_<bytes of variant>_<variant>`.
pub open spec fn enum_symbol_spec(kind: Seq<char>, variant: Seq<char>) -> Seq<char> {
    "rspdl_e"@ + seq!['_'] + decimal_spec(byte_len(kind)) + seq!['_'] + kind + seq!['_']
        + decimal_spec(byte_len(variant)) + seq!['_'] + variant
}

pub open spec fn is_ascii_digit(c: char) -> bool {
    '0' <= c && c <= '9'
}

pub open spec fn all_digits(s: Seq<char>) -> bool {
    forall|i: int| 0 <= i < s.len() ==> is_ascii_digit(#[trigger] s[i])
}

/// The canonical base-10 text of an integer as the backend renders it: plain digits stay
/// as they are, and `(- digits)` becomes `-digits`; anything else is no integer.
pub open spec fn canonical_integer_spec(rendered: Seq<char>) -> Option<Seq<char>> {
    if all_digits(rendered) {
        Some(rendered)
    } else if rendered.len() > 4 && rendered.take(3) == seq!['(', '-', ' '] && rendered.last()
        == ')' && all_digits(rendered.subrange(3, rendered.len() - 1)) {
        Some(seq!['-'] + rendered.subrange(3, rendered.len() - 1))
    } else {
        None
    }
}

fn digits_in(chars: &Vec<char>, lo: usize, hi: usize) -> (b: bool)
    requires
        lo <= hi <= chars@.len(),
    ensures
        b == all_digits(chars@.subrange(lo as int, hi as int)),
{
    let mut i = lo;
    while i < hi
        invariant
            lo <= i <= hi <= chars@.len(),
            forall|k: int| lo <= k < i ==> is_ascii_digit(#[trigger] chars@[k]),
        decreases hi - i,
    {
        if !('0' <= chars[i] && chars[i] <= '9') {
            assert(chars@.subrange(lo as int, hi as int)[i - lo] == chars@[i as int]);
            return false;
        }
        i = i + 1;
    }
    assert forall|k: int| 0 <= k < hi - lo implies is_ascii_digit(
        #[trigger] chars@.subrange(lo as int, hi as int)[k],
    ) by {
        assert(chars@.subrange(lo as int, hi as int)[k] == chars@[lo + k]);
    }
    true
}

impl Z3Solver {
    /// Reads an integer that the backend rendered as text.
    pub fn canonical_integer_text(rendered: &str) -> (r: Option<String>)
        ensures
            match r {
                Some(t) => canonical_integer_spec(rendered@) == Some(t@),
                None => canonical_integer_spec(rendered@) is None,
            },
    {
        let chars = crate::text::chars_of(rendered);
        let n = chars.len();
        proof {
            assert(chars@.subrange(0, n as int) =~= rendered@);
        }
        if digits_in(&chars, 0, n) {
            return Some(String::from_str(rendered));
        }
        if n > 4 && chars[0] == '(' && chars[1] == '-' && chars[2] == ' ' && chars[n - 1] == ')'
            && digits_in(&chars, 3, n - 1) {
            let mut t = String::new();
            push_char(&mut t, '-');
            let mut i: usize = 3;
            while i < n - 1
                invariant
                    3 <= i <= n - 1,
                    n == chars@.len(),
                    n > 4,
                    t@ == seq!['-'] + chars@.subrange(3, i as int),
                decreases n - 1 - i,
            {
                push_char(&mut t, chars[i]);
                i = i + 1;
                proof {
                    assert(t@ =~= seq!['-'] + chars@.subrange(3, i as int));
                }
            }
            proof {
                assert(rendered@.take(3) =~= seq!['(', '-', ' ']);
            }
            return Some(t);
        }
        proof {
            if n > 4 && rendered@.take(3) == seq!['(', '-', ' '] {
                assert(rendered@.take(3)[0] == chars@[0]);
                assert(rendered@.take(3)[1] == chars@[1]);
                assert(rendered@.take(3)[2] == chars@[2]);
            }
        }
        None
    }

    pub fn new() -> (s: Self)
        ensures
            s == Z3Solver,
    {
        Z3Solver
    }

    /// The SMT name of a declaration with identifier `id` under `prefix`.
    pub fn symbol(prefix: &str, id: &str) -> (s: String)
        ensures
            s@ == symbol_spec(prefix@, id@),
    {
        let mut s = String::from_str(prefix);
        push_char(&mut s, '_');
        let n = decimal(byte_length(id));
        s.append(n.as_str());
        push_char(&mut s, '_');
        s.append(id);
        s
    }

    /// The SMT name of the constructor for `variant` of the enum `kind`.
    pub fn enum_symbol(kind: &str, variant: &str) -> (s: String)
        ensures
            s@ == enum_symbol_spec(kind@, variant@),
    {
        let mut s = String::from_str("rspdl_e");
        push_char(&mut s, '_');
        let n = decimal(byte_length(kind));
        s.append(n.as_str());
        push_char(&mut s, '_');
        s.append(kind);
        push_char(&mut s, '_');
        let m = decimal(byte_length(variant));
        s.append(m.as_str());
        push_char(&mut s, '_');
        s.append(variant);
        s
    }
}

proof fn lemma_digit_not_underscore(d: nat)
    ensures
        digit_char(d) != '_',
{
}

proof fn lemma_decimal_no_underscore(n: nat)
    ensures
        !decimal_spec(n).contains('_'),
        decimal_spec(n).len() >= 1,
    decreases n,
{
    if n >= 10 {
        lemma_decimal_no_underscore(n / 10);
        lemma_digit_not_underscore(n % 10);
        let d = decimal_spec(n / 10);
        assert forall|i: int| 0 <= i < decimal_spec(n).len() implies decimal_spec(n)[i] != '_' by {
            if i < d.len() {
                assert(decimal_spec(n)[i] == d[i]);
                assert(!d.contains('_'));
                if d[i] == '_' {
                    assert(d.contains('_'));
                }
            }
        }
    } else {
        lemma_digit_not_underscore(n);
    }
}

proof fn lemma_digit_injective(a: nat, b: nat)
    requires
        a < 10,
        b < 10,
        digit_char(a) == digit_char(b),
    ensures
        a == b,
{
}

proof fn lemma_decimal_injective(a: nat, b: nat)
    requires
        decimal_spec(a) == decimal_spec(b),
    ensures
        a == b,
    decreases a,
{
    lemma_decimal_no_underscore(a / 10);
    lemma_decimal_no_underscore(b / 10);
    if a < 10 && b < 10 {
        assert(decimal_spec(a)[0] == digit_char(a));
        assert(decimal_spec(b)[0] == digit_char(b));
        lemma_digit_injective(a, b);
    } else if a >= 10 && b >= 10 {
        let da = decimal_spec(a);
        assert(da.last() == digit_char(a % 10));
        assert(decimal_spec(b).last() == digit_char(b % 10));
        lemma_digit_injective(a % 10, b % 10);
        assert(decimal_spec(a / 10) =~= da.drop_last());
        assert(decimal_spec(b / 10) =~= decimal_spec(b).drop_last());
        lemma_decimal_injective(a / 10, b / 10);
    } else if a < 10 {
        assert(decimal_spec(a).len() == 1);
        assert(decimal_spec(b).len() == decimal_spec(b / 10).len() + 1);
    } else {
        assert(decimal_spec(b).len() == 1);
        assert(decimal_spec(a).len() == decimal_spec(a / 10).len() + 1);
    }
}

/// Splitting at the first `c`: `x c y == x2 c y2` with `c` in neither `x` nor `x2`.
proof fn lemma_split_at_separator(x: Seq<char>, y: Seq<char>, x2: Seq<char>, y2: Seq<char>, c: char)
    requires
        !x.contains(c),
        !x2.contains(c),
        x + seq![c] + y == x2 + seq![c] + y2,
    ensures
        x == x2,
        y == y2,
{
    let s = x + seq![c] + y;
    let s2 = x2 + seq![c] + y2;
    if x.len() < x2.len() {
        assert(s[x.len() as int] == c);
        assert(s2[x.len() as int] == x2[x.len() as int]);
        assert(x2.contains(c));
    } else if x2.len() < x.len() {
        assert(s2[x2.len() as int] == c);
        assert(s[x2.len() as int] == x[x2.len() as int]);
        assert(x.contains(c));
    }
    assert(x =~= s.take(x.len() as int));
    assert(x2 =~= s2.take(x2.len() as int));
    assert(y =~= s.skip(x.len() as int + 1));
    assert(y2 =~= s2.skip(x2.len() as int + 1));
}

proof fn lemma_byte_len_at_least_len(s: Seq<char>)
    ensures
        byte_len(s) >= s.len(),
    decreases s.len(),
{
    if s.len() > 0 {
        lemma_byte_len_at_least_len(s.drop_last());
        assert(char_width(s.last()) >= 1);
    }
}

/// Two strings of one byte length, each followed by the rest of one sequence, are equal.
proof fn lemma_split_at_byte_len(k: Seq<char>, r: Seq<char>, k2: Seq<char>, r2: Seq<char>)
    requires
        byte_len(k) == byte_len(k2),
        k + r == k2 + r2,
    ensures
        k == k2,
        r == r2,
{
    let s = k + r;
    if k.len() < k2.len() {
        let t = k2.skip(k.len() as int);
        assert(k2 =~= k + t) by {
            assert(k =~= s.take(k.len() as int));
            assert(k2.take(k.len() as int) =~= s.take(k.len() as int));
        }
        lemma_byte_len_concat(k, t);
        lemma_byte_len_at_least_len(t);
        assert(false);
    } else if k2.len() < k.len() {
        let t = k.skip(k2.len() as int);
        assert(k =~= k2 + t) by {
            assert(k2 =~= s.take(k2.len() as int));
            assert(k.take(k2.len() as int) =~= s.take(k2.len() as int));
        }
        lemma_byte_len_concat(k2, t);
        lemma_byte_len_at_least_len(t);
        assert(false);
    }
    assert(k =~= s.take(k.len() as int));
    assert(k2 =~= s.take(k2.len() as int));
    assert(r =~= s.skip(k.len() as int));
    assert(r2 =~= s.skip(k2.len() as int));
}

/// Under one prefix, distinct identifiers get distinct SMT names.
pub proof fn symbols_are_collision_free(prefix: Seq<char>, a: Seq<char>, b: Seq<char>)
    requires
        symbol_spec(prefix, a) == symbol_spec(prefix, b),
    ensures
        a == b,
{
    let s = symbol_spec(prefix, a);
    let rest_a = decimal_spec(byte_len(a)) + seq!['_'] + a;
    let rest_b = decimal_spec(byte_len(b)) + seq!['_'] + b;
    assert(s =~= (prefix + seq!['_']) + rest_a);
    assert(symbol_spec(prefix, b) =~= (prefix + seq!['_']) + rest_b);
    assert(rest_a =~= s.skip(prefix.len() as int + 1));
    assert(rest_b =~= s.skip(prefix.len() as int + 1));
    lemma_decimal_no_underscore(byte_len(a));
    lemma_decimal_no_underscore(byte_len(b));
    lemma_split_at_separator(decimal_spec(byte_len(a)), a, decimal_spec(byte_len(b)), b, '_');
}

/// Distinct (enum, variant) pairs get distinct constructor names.
pub proof fn enum_symbols_are_collision_free(
    kind: Seq<char>,
    variant: Seq<char>,
    kind2: Seq<char>,
    variant2: Seq<char>,
)
    requires
        enum_symbol_spec(kind, variant) == enum_symbol_spec(kind2, variant2),
    ensures
        kind == kind2,
        variant == variant2,
{
    let head = "rspdl_e"@ + seq!['_'];
    let tail = |k: Seq<char>, v: Seq<char>|
        k + seq!['_'] + decimal_spec(byte_len(v)) + seq!['_'] + v;
    let rest = decimal_spec(byte_len(kind)) + seq!['_'] + tail(kind, variant);
    let rest2 = decimal_spec(byte_len(kind2)) + seq!['_'] + tail(kind2, variant2);
    let s = enum_symbol_spec(kind, variant);
    assert(s =~= head + rest);
    assert(enum_symbol_spec(kind2, variant2) =~= head + rest2);
    assert(rest =~= s.skip(head.len() as int));
    assert(rest2 =~= s.skip(head.len() as int));
    lemma_decimal_no_underscore(byte_len(kind));
    lemma_decimal_no_underscore(byte_len(kind2));
    lemma_split_at_separator(
        decimal_spec(byte_len(kind)),
        tail(kind, variant),
        decimal_spec(byte_len(kind2)),
        tail(kind2, variant2),
        '_',
    );
    lemma_decimal_injective(byte_len(kind), byte_len(kind2));
    let r = seq!['_'] + decimal_spec(byte_len(variant)) + seq!['_'] + variant;
    let r2 = seq!['_'] + decimal_spec(byte_len(variant2)) + seq!['_'] + variant2;
    assert(tail(kind, variant) =~= kind + r);
    assert(tail(kind2, variant2) =~= kind2 + r2);
    lemma_split_at_byte_len(kind, r, kind2, r2);
    assert(r.skip(1) =~= decimal_spec(byte_len(variant)) + seq!['_'] + variant);
    assert(r2.skip(1) =~= decimal_spec(byte_len(variant2)) + seq!['_'] + variant2);
    lemma_decimal_no_underscore(byte_len(variant));
    lemma_decimal_no_underscore(byte_len(variant2));
    lemma_split_at_separator(
        decimal_spec(byte_len(variant)),
        variant,
        decimal_spec(byte_len(variant2)),
        variant2,
        '_',
    );
}

} // verus!
