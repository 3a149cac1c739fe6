//! Locale-neutral diagnostics: a stable rule id, a message key, a byte span and named
//! arguments.
use vstd::prelude::*;

use crate::text::{chars_of, str_eq};

verus! {

/// A byte range `[start, end)` of a source file.
#[derive(Clone, Copy, Debug, PartialEq, Eq, Structural)]
pub struct Span {
    pub start: usize,
    pub end: usize,
}

impl Default for Span {
    fn default() -> (s: Span)
        ensures
            s == (Span { start: 0, end: 0 }),
    {
        Span { start: 0, end: 0 }
    }
}

/// The smallest span that covers both.
pub open spec fn span_join(a: Span, b: Span) -> Span {
    Span {
        start: if a.start <= b.start {
            a.start
        } else {
            b.start
        },
        end: if a.end >= b.end {
            a.end
        } else {
            b.end
        },
    }
}

impl Span {
    /// The smallest span that covers both.
    pub fn join(self, other: Span) -> (s: Span)
        ensures
            s == span_join(self, other),
    {
        Span {
            start: if self.start <= other.start {
                self.start
            } else {
                other.start
            },
            end: if self.end >= other.end {
                self.end
            } else {
                other.end
            },
        }
    }
}

#[derive(Clone, Copy, Debug, PartialEq, Eq, Structural)]
pub enum Severity {
    Error,
    Warning,
}

/// One finding about a source text.
#[derive(Clone, Debug)]
pub struct Diagnostic {
    pub rule_id: String,
    pub message_key: String,
    pub severity: Severity,
    pub span: Span,
    pub arguments: Vec<(String, String)>,
}

/// What a [`Diagnostic`] says, with its strings as character sequences.
pub struct DiagnosticView {
    pub rule_id: Seq<char>,
    pub message_key: Seq<char>,
    pub severity: Severity,
    pub span: Span,
    pub arguments: Seq<(Seq<char>, Seq<char>)>,
}

pub open spec fn pair_view(p: (String, String)) -> (Seq<char>, Seq<char>) {
    (p.0@, p.1@)
}

impl View for Diagnostic {
    type V = DiagnosticView;

    open spec fn view(&self) -> DiagnosticView {
        DiagnosticView {
            rule_id: self.rule_id@,
            message_key: self.message_key@,
            severity: self.severity,
            span: self.span,
            arguments: self.arguments@.map_values(|p: (String, String)| pair_view(p)),
        }
    }
}

/// An error diagnostic without arguments.
pub open spec fn error_view(rule_id: Seq<char>, message_key: Seq<char>, span: Span) -> DiagnosticView {
    DiagnosticView {
        rule_id,
        message_key,
        severity: Severity::Error,
        span,
        arguments: Seq::empty(),
    }
}

/// Index of the first argument named `key` at or after `i`, or `-1` when there is none.
pub open spec fn argument_index_from(args: Seq<(Seq<char>, Seq<char>)>, key: Seq<char>, i: int) -> int
    decreases args.len() - i,
{
    if i < 0 || i >= args.len() {
        -1
    } else if args[i].0 == key {
        i
    } else {
        argument_index_from(args, key, i + 1)
    }
}

/// Index of the argument named `key`, or `-1` when there is none.
pub open spec fn argument_index(args: Seq<(Seq<char>, Seq<char>)>, key: Seq<char>) -> int {
    argument_index_from(args, key, 0)
}

/// `a` comes before `b` in character order; a proper prefix comes first.
pub open spec fn key_less(a: Seq<char>, b: Seq<char>) -> bool
    decreases a.len(),
{
    if a.len() == 0 {
        b.len() > 0
    } else if b.len() == 0 {
        false
    } else if a[0] != b[0] {
        a[0] < b[0]
    } else {
        key_less(a.drop_first(), b.drop_first())
    }
}

/// The keys strictly increase: every key occurs once, in character order.
pub open spec fn keys_sorted(args: Seq<(Seq<char>, Seq<char>)>) -> bool {
    forall|i: int, j: int| 0 <= i < j < args.len() ==> key_less(args[i].0, args[j].0)
}

/// Index of the first argument at or after `i` whose key does not come before `key`, or the
/// length when there is none.
pub open spec fn insert_position_from(args: Seq<(Seq<char>, Seq<char>)>, key: Seq<char>, i: int) -> int
    decreases args.len() - i,
{
    if i < 0 || i >= args.len() {
        args.len() as int
    } else if !key_less(args[i].0, key) {
        i
    } else {
        insert_position_from(args, key, i + 1)
    }
}

pub open spec fn insert_position(args: Seq<(Seq<char>, Seq<char>)>, key: Seq<char>) -> int {
    insert_position_from(args, key, 0)
}

/// The arguments after setting `key` to `value`: an entry with that key is replaced; a new
/// one goes before the first key that does not come before it.
pub open spec fn set_argument(
    args: Seq<(Seq<char>, Seq<char>)>,
    key: Seq<char>,
    value: Seq<char>,
) -> Seq<(Seq<char>, Seq<char>)> {
    let p = insert_position(args, key);
    if p < args.len() && args[p].0 == key {
        args.update(p, (key, value))
    } else {
        args.insert(p, (key, value))
    }
}

proof fn lemma_key_less_irreflexive(a: Seq<char>)
    ensures
        !key_less(a, a),
    decreases a.len(),
{
    if a.len() > 0 {
        lemma_key_less_irreflexive(a.drop_first());
    }
}

proof fn lemma_key_less_total(a: Seq<char>, b: Seq<char>)
    ensures
        a == b || key_less(a, b) || key_less(b, a),
    decreases a.len(),
{
    if a.len() > 0 && b.len() > 0 && a[0] == b[0] {
        lemma_key_less_total(a.drop_first(), b.drop_first());
        if a.drop_first() == b.drop_first() {
            assert(a =~= seq![a[0]] + a.drop_first());
            assert(b =~= seq![b[0]] + b.drop_first());
        }
    } else if a.len() == 0 && b.len() == 0 {
        assert(a =~= b);
    }
}

proof fn lemma_key_less_transitive(a: Seq<char>, b: Seq<char>, c: Seq<char>)
    requires
        key_less(a, b),
        key_less(b, c),
    ensures
        key_less(a, c),
    decreases a.len(),
{
    if a.len() > 0 && b.len() > 0 && c.len() > 0 && a[0] == b[0] && b[0] == c[0] {
        lemma_key_less_transitive(a.drop_first(), b.drop_first(), c.drop_first());
    }
}

proof fn lemma_insert_position_from(args: Seq<(Seq<char>, Seq<char>)>, key: Seq<char>, i: int)
    requires
        0 <= i <= args.len(),
    ensures
        i <= insert_position_from(args, key, i) <= args.len(),
        forall|k: int| i <= k < insert_position_from(args, key, i) ==> key_less(#[trigger] args[k].0, key),
        insert_position_from(args, key, i) < args.len() ==> !key_less(
            args[insert_position_from(args, key, i)].0,
            key,
        ),
    decreases args.len() - i,
{
    if i < args.len() && key_less(args[i].0, key) {
        lemma_insert_position_from(args, key, i + 1);
    }
}

/// Setting an argument keeps the keys sorted, gives `key` the value `value`, and leaves every
/// other key with the value it had.
pub proof fn setting_an_argument_keeps_keys_sorted(
    args: Seq<(Seq<char>, Seq<char>)>,
    key: Seq<char>,
    value: Seq<char>,
)
    requires
        keys_sorted(args),
    ensures
        keys_sorted(set_argument(args, key, value)),
        argument_of_args(set_argument(args, key, value), key) == Some(value),
        forall|other: Seq<char>|
            other != key ==> argument_of_args(set_argument(args, key, value), other)
                == argument_of_args(args, other),
{
    let p = insert_position(args, key);
    lemma_insert_position_from(args, key, 0);
    let r = set_argument(args, key, value);
    if p < args.len() && args[p].0 == key {
        assert forall|i: int, j: int| 0 <= i < j < r.len() implies key_less(r[i].0, r[j].0) by {
            assert(r[i].0 == args[i].0);
            assert(r[j].0 == args[j].0);
        }
    } else {
        if p < args.len() {
            lemma_key_less_total(args[p].0, key);
        }
        assert forall|i: int, j: int| 0 <= i < j < r.len() implies key_less(r[i].0, r[j].0) by {
            if j < p {
            } else if j == p {
                assert(r[j].0 == key);
                assert(r[i].0 == args[i].0);
            } else if i == p {
                assert(r[i].0 == key);
                assert(r[j].0 == args[j - 1].0);
                if j - 1 > p {
                    lemma_key_less_transitive(key, args[p].0, args[j - 1].0);
                }
            } else if i < p {
                assert(r[i].0 == args[i].0);
                assert(r[j].0 == args[j - 1].0);
                if i < j - 1 {
                } else {
                    assert(false);
                }
            } else {
                assert(r[i].0 == args[i - 1].0);
                assert(r[j].0 == args[j - 1].0);
            }
        }
    }
    assert(r[p].0 == key && r[p].1 == value);
    lemma_sorted_lookup(r, key);
    assert(argument_index(r, key) >= 0);
    lemma_unique_key(r, key, argument_index(r, key), p);
    assert forall|other: Seq<char>| other != key implies argument_of_args(r, other)
        == argument_of_args(args, other) by {
        lemma_sorted_lookup(r, other);
        lemma_sorted_lookup(args, other);
        let ia = argument_position(args, other);
        let ir = argument_position(r, other);
        if ia >= 0 {
            let jr = if p < args.len() && args[p].0 == key {
                ia
            } else if ia < p {
                ia
            } else {
                ia + 1
            };
            assert(r[jr] == args[ia]);
            lemma_unique_key(r, other, ir, jr);
        } else if ir >= 0 {
            let ja = if p < args.len() && args[p].0 == key {
                ir
            } else if ir < p {
                ir
            } else {
                ir - 1
            };
            assert(r[ir].0 == other);
            assert(args[ja] == r[ir]);
        }
    }
}

/// Where `key` sits among sorted arguments, or -1.
pub open spec fn argument_position(args: Seq<(Seq<char>, Seq<char>)>, key: Seq<char>) -> int {
    argument_index(args, key)
}

/// The value recorded under `key` in `args`, if any.
pub open spec fn argument_of_args(args: Seq<(Seq<char>, Seq<char>)>, key: Seq<char>) -> Option<
    Seq<char>,
> {
    let i = argument_index(args, key);
    if i < 0 {
        None
    } else {
        Some(args[i].1)
    }
}

proof fn lemma_sorted_lookup(args: Seq<(Seq<char>, Seq<char>)>, key: Seq<char>)
    ensures
        argument_index(args, key) == -1 || 0 <= argument_index(args, key) < args.len(),
        argument_index(args, key) >= 0 ==> args[argument_index(args, key)].0 == key,
        argument_index(args, key) < 0 ==> forall|k: int| 0 <= k < args.len() ==> args[k].0 != key,
{
    lemma_argument_index_from(args, key, 0);
}

proof fn lemma_unique_key(args: Seq<(Seq<char>, Seq<char>)>, key: Seq<char>, i: int, j: int)
    requires
        keys_sorted(args),
        0 <= i < args.len(),
        0 <= j < args.len(),
        args[i].0 == key,
        args[j].0 == key,
    ensures
        i == j,
{
    lemma_key_less_irreflexive(key);
    if i < j {
        assert(key_less(args[i].0, args[j].0));
    } else if j < i {
        assert(key_less(args[j].0, args[i].0));
    }
}

pub open spec fn with_argument_view(d: DiagnosticView, key: Seq<char>, value: Seq<char>) -> DiagnosticView {
    DiagnosticView { arguments: set_argument(d.arguments, key, value), ..d }
}

/// The value recorded under `key`, if any.
pub open spec fn argument_of(d: DiagnosticView, key: Seq<char>) -> Option<Seq<char>> {
    let i = argument_index(d.arguments, key);
    if i < 0 {
        None
    } else {
        Some(d.arguments[i].1)
    }
}

pub proof fn lemma_argument_index_from(args: Seq<(Seq<char>, Seq<char>)>, key: Seq<char>, i: int)
    requires
        0 <= i,
    ensures
        argument_index_from(args, key, i) == -1 || i <= argument_index_from(args, key, i) < args.len(),
        argument_index_from(args, key, i) >= 0 ==> args[argument_index_from(args, key, i)].0 == key,
        forall|k: int|
            i <= k < args.len() && (argument_index_from(args, key, i) < 0 || k < argument_index_from(args, key, i))
                ==> args[k].0 != key,
    decreases args.len() - i,
{
    if i < args.len() && args[i].0 != key {
        lemma_argument_index_from(args, key, i + 1);
    }
}

fn key_less_exec(a: &str, b: &str) -> (r: bool)
    ensures
        r == key_less(a@, b@),
{
    let ac = chars_of(a);
    let bc = chars_of(b);
    let mut i: usize = 0;
    proof {
        assert(a@.skip(0) =~= a@);
        assert(b@.skip(0) =~= b@);
    }
    while i < ac.len() && i < bc.len() && ac[i] == bc[i]
        invariant
            ac@ == a@,
            bc@ == b@,
            i <= ac@.len(),
            i <= bc@.len(),
            key_less(a@, b@) == key_less(a@.skip(i as int), b@.skip(i as int)),
        decreases ac@.len() - i,
    {
        proof {
            assert(a@.skip(i as int).drop_first() =~= a@.skip(i + 1));
            assert(b@.skip(i as int).drop_first() =~= b@.skip(i + 1));
        }
        i = i + 1;
    }
    if i == ac.len() {
        i < bc.len()
    } else if i == bc.len() {
        false
    } else {
        ac[i] < bc[i]
    }
}

fn insert_position_exec(args: &Vec<(String, String)>, key: &str) -> (p: usize)
    ensures
        p as int == insert_position(args@.map_values(|q: (String, String)| pair_view(q)), key@),
{
    let ghost view = args@.map_values(|q: (String, String)| pair_view(q));
    let mut i: usize = 0;
    while i < args.len()
        invariant
            i <= args@.len(),
            view == args@.map_values(|q: (String, String)| pair_view(q)),
            insert_position(view, key@) == insert_position_from(view, key@, i as int),
        decreases args.len() - i,
    {
        if !key_less_exec(args[i].0.as_str(), key) {
            return i;
        }
        i = i + 1;
    }
    i
}

fn find_argument(args: &Vec<(String, String)>, key: &str) -> (r: Option<usize>)
    ensures
        match r {
            Some(i) => i < args@.len() && i as int == argument_index(
                args@.map_values(|p: (String, String)| pair_view(p)),
                key@,
            ),
            None => argument_index(args@.map_values(|p: (String, String)| pair_view(p)), key@)
                < 0,
        },
{
    let ghost view = args@.map_values(|p: (String, String)| pair_view(p));
    let mut i: usize = 0;
    while i < args.len()
        invariant
            i <= args@.len(),
            view == args@.map_values(|p: (String, String)| pair_view(p)),
            argument_index(view, key@) == argument_index_from(view, key@, i as int),
        decreases args.len() - i,
    {
        if str_eq(args[i].0.as_str(), key) {
            return Some(i);
        }
        i = i + 1;
    }
    None
}

pub open spec fn diagnostics_view(v: Seq<Diagnostic>) -> Seq<DiagnosticView> {
    v.map_values(|d: Diagnostic| d@)
}

/// Appends `d` to the diagnostics reported so far.
pub fn push_diagnostic(diagnostics: &mut Vec<Diagnostic>, d: Diagnostic)
    ensures
        diagnostics_view(final(diagnostics)@) == diagnostics_view(old(diagnostics)@).push(d@),
{
    let ghost before = diagnostics@;
    diagnostics.push(d);
    proof {
        assert(diagnostics_view(diagnostics@) =~= diagnostics_view(before).push(d@));
    }
}

impl Diagnostic {
    /// An error diagnostic with no arguments.
    pub fn error(rule_id: &str, message_key: &str, span: Span) -> (d: Diagnostic)
        ensures
            d@ == error_view(rule_id@, message_key@, span),
    {
        let d = Diagnostic {
            rule_id: rule_id.to_owned(),
            message_key: message_key.to_owned(),
            severity: Severity::Error,
            span,
            arguments: Vec::new(),
        };
        proof {
            assert(d@.arguments =~= Seq::<(Seq<char>, Seq<char>)>::empty());
        }
        d
    }

    /// A warning diagnostic with no arguments: it is reported but does not block.
    pub fn warning(rule_id: &str, message_key: &str, span: Span) -> (d: Diagnostic)
        ensures
            d@ == (DiagnosticView { severity: Severity::Warning, ..error_view(rule_id@, message_key@, span) }),
    {
        let d = Diagnostic {
            rule_id: rule_id.to_owned(),
            message_key: message_key.to_owned(),
            severity: Severity::Warning,
            span,
            arguments: Vec::new(),
        };
        proof {
            assert(d@.arguments =~= Seq::<(Seq<char>, Seq<char>)>::empty());
        }
        d
    }

    /// Records `value` under `key`, replacing an earlier value of the same key; the arguments
    /// stay in key order.
    pub fn with_argument(self, key: &str, value: &str) -> (d: Diagnostic)
        ensures
            d@ == with_argument_view(self@, key@, value@),
    {
        let mut d = self;
        let ghost before = d@.arguments;
        let p = insert_position_exec(&d.arguments, key);
        proof {
            lemma_insert_position_from(before, key@, 0);
        }
        let replace = p < d.arguments.len() && str_eq(d.arguments[p].0.as_str(), key);
        let pair = (key.to_owned(), value.to_owned());
        if replace {
            d.arguments.set(p, pair);
        } else {
            d.arguments.insert(p, pair);
        }
        proof {
            assert(d@.arguments =~= set_argument(before, key@, value@));
        }
        d
    }

    /// The value recorded under `key`.
    pub fn argument(&self, key: &str) -> (r: Option<&str>)
        ensures
            match r {
                Some(v) => argument_of(self@, key@) == Some(v@),
                None => argument_of(self@, key@) is None,
            },
    {
        match find_argument(&self.arguments, key) {
            Some(i) => Some(self.arguments[i].1.as_str()),
            None => None,
        }
    }
}

} // verus!
