//! The field-producer sentence:
//! `name(id)은 action이 실행될 때 source를 model의 field로 기록한다.`, its `발생할` form for an
//! event, its conditional form `name(id)은 action의 input이 variant이면 ...`, and the template form
//! `... "text"를 model의 field로 조합한다.` The source is an action input, a field of an input
//! (`input의 field를`), a constant (`상수 literal을`) or, without a condition, a template string.
//! The relation-producer sentence `name(id)은 action이 실행될 때 input을 model의 relation으로
//! 연결한다.` fills a relation slot of the output instead.
use vstd::prelude::*;

use crate::ast::ProducerTriggerKindAst;
use crate::creation::{
    condition_particles, marked_ref, marked_ref_spec, particles, possessive,
    possessive_markers, subject_particles, word_text,
};
use crate::declarations::{
    id_at, id_capture, id_capture_at, is_name_part, is_name_token, is_topic_marker, is_word,
    lemma_name_end, name_capture, name_capture_of, name_end, tokens_of, Capture, CaptureView,
    ShapeMismatch,
};
use crate::scanner::{Token, TokenKind, TokenKindView, TokenView};
use crate::text::chars_of;
use vstd::string::StringExecFns;

verus! {

pub open spec fn object_markers() -> Seq<Seq<char>> {
    seq!["을"@, "를"@]
}

pub open spec fn directional_markers() -> Seq<Seq<char>> {
    seq!["으로"@, "로"@]
}

/// A word that ends a possessive or a condition: it cannot be part of a direct source.
pub open spec fn ends_clause(k: TokenKindView) -> bool {
    k is Word && (word_text(k).len() > 0 && word_text(k).last() == '의' || ends_in_or_is(
        word_text(k),
        "이면"@,
    ) || ends_in_or_is(word_text(k), "라면"@))
}

/// `w` ends in `m` (possibly being `m` itself).
pub open spec fn ends_in_or_is(w: Seq<char>, m: Seq<char>) -> bool {
    w.len() >= m.len() && w.subrange(w.len() - m.len(), w.len() as int) == m
}

/// An action input as the source: a reference that does not start with `상수` and has no word
/// ending in `의`, `이면` or `라면`.
pub open spec fn direct_source_spec(ts: Seq<TokenView>, p: int) -> Option<(int, CaptureView)> {
    match marked_ref_spec(ts, p, object_markers()) {
        Some((q, c)) => if ts[p].kind != TokenKindView::Word("상수"@) && (forall|j: int|
            p <= j < q ==> !ends_clause(#[trigger] ts[j].kind)) {
            Some((q, c))
        } else {
            None
        },
        None => None,
    }
}

/// A literal: a string or quoted name followed by a particle word (captured with the particle's
/// span), or else a reference with its particle.
pub open spec fn literal_spec(ts: Seq<TokenView>, p: int) -> Option<(int, CaptureView)> {
    if 0 <= p < ts.len() && (ts[p].kind is StringLiteral || ts[p].kind is QuotedIdentifier) {
        if p + 1 < ts.len() && ts[p + 1].kind is Word && object_markers().contains(
            word_text(ts[p + 1].kind),
        ) {
            Some(
                (
                    p + 2,
                    CaptureView {
                        value: match ts[p].kind {
                            TokenKindView::StringLiteral(v) => v,
                            TokenKindView::QuotedIdentifier(v) => v,
                            _ => Seq::empty(),
                        },
                        start: ts[p + 1].span.start,
                        end: ts[p + 1].span.end,
                    },
                ),
            )
        } else {
            None
        }
    } else {
        marked_ref_spec(ts, p, object_markers())
    }
}

/// A string literal followed by a particle word.
pub open spec fn template_spec(ts: Seq<TokenView>, p: int) -> Option<(int, CaptureView)> {
    if 0 <= p && p + 1 < ts.len() && ts[p].kind is StringLiteral && ts[p + 1].kind is Word
        && object_markers().contains(word_text(ts[p + 1].kind)) {
        Some(
            (
                p + 2,
                CaptureView {
                    value: match ts[p].kind {
                        TokenKindView::StringLiteral(v) => v,
                        _ => Seq::empty(),
                    },
                    start: ts[p].span.start,
                    end: ts[p].span.end,
                },
            ),
        )
    } else {
        None
    }
}

/// Where a producer's value comes from.
pub enum SourceView {
    Input(CaptureView),
    ExistingField(CaptureView, CaptureView),
    Constant(CaptureView),
    Template(CaptureView),
}

/// The verb: `조합한다` after a template, `기록한다` after any other source.
pub open spec fn verb_fits(k: TokenKindView, source: SourceView) -> bool {
    if source is Template {
        k == TokenKindView::Word("조합한다"@)
    } else {
        k == TokenKindView::Word("기록한다"@)
    }
}

/// `model의 field로 verb.` from `b` to the end of the line: the output model and field.
pub open spec fn tail_spec(ts: Seq<TokenView>, b: int, source: SourceView) -> Option<
    (CaptureView, CaptureView),
> {
    match marked_ref_spec(ts, b, possessive()) {
        Some((c, model)) => match marked_ref_spec(ts, c, directional_markers()) {
            Some((e, field)) => if e + 2 == ts.len() && verb_fits(ts[e].kind, source) && ts[e
                + 1].kind is Period {
                Some((model, field))
            } else {
                None
            },
            None => None,
        },
        None => None,
    }
}

/// The source and the output from `a` on, the first of the source shapes with which the rest
/// of the line reads: an action input, a field of an input, a constant and, only where the
/// producer has no condition, a template.
pub open spec fn after_when_spec(ts: Seq<TokenView>, a: int, conditional: bool) -> Option<
    (SourceView, CaptureView, CaptureView),
> {
    let direct = match direct_source_spec(ts, a) {
        Some((b, c)) => match tail_spec(ts, b, SourceView::Input(c)) {
            Some((m, f)) => Some((SourceView::Input(c), m, f)),
            None => None,
        },
        None => None,
    };
    let existing = match marked_ref_spec(ts, a, possessive()) {
        Some((q, i)) => match marked_ref_spec(ts, q, object_markers()) {
            Some((b, f0)) => match tail_spec(ts, b, SourceView::ExistingField(i, f0)) {
                Some((m, f)) => Some((SourceView::ExistingField(i, f0), m, f)),
                None => None,
            },
            None => None,
        },
        None => None,
    };
    let constant = if 0 <= a < ts.len() && ts[a].kind == TokenKindView::Word("상수"@) {
        match literal_spec(ts, a + 1) {
            Some((b, c)) => match tail_spec(ts, b, SourceView::Constant(c)) {
                Some((m, f)) => Some((SourceView::Constant(c), m, f)),
                None => None,
            },
            None => None,
        }
    } else {
        None
    };
    let template = if conditional {
        None
    } else {
        match template_spec(ts, a) {
            Some((b, c)) => match tail_spec(ts, b, SourceView::Template(c)) {
                Some((m, f)) => Some((SourceView::Template(c), m, f)),
                None => None,
            },
            None => None,
        }
    };
    if direct is Some {
        direct
    } else if existing is Some {
        existing
    } else if constant is Some {
        constant
    } else {
        template
    }
}

/// What a field-producer sentence names.
#[derive(Debug)]
pub struct FieldProducerShape {
    pub producer_name: Capture,
    pub producer_id: Capture,
    pub action: Capture,
    pub trigger_kind: ProducerTriggerKindAst,
    pub condition_input: Option<Capture>,
    pub condition_variant: Option<Capture>,
    pub output_model: Capture,
    pub output_field: Capture,
    pub input: Option<Capture>,
    pub existing_input: Option<Capture>,
    pub existing_field: Option<Capture>,
    pub constant: Option<Capture>,
    pub template: Option<Capture>,
}

pub struct FieldProducerShapeView {
    pub producer_name: CaptureView,
    pub producer_id: CaptureView,
    pub action: CaptureView,
    pub trigger_kind: ProducerTriggerKindAst,
    pub condition_input: Option<CaptureView>,
    pub condition_variant: Option<CaptureView>,
    pub output_model: CaptureView,
    pub output_field: CaptureView,
    pub input: Option<CaptureView>,
    pub existing_input: Option<CaptureView>,
    pub existing_field: Option<CaptureView>,
    pub constant: Option<CaptureView>,
    pub template: Option<CaptureView>,
}

pub open spec fn opt_capture(o: Option<Capture>) -> Option<CaptureView> {
    match o {
        Some(c) => Some(c@),
        None => None,
    }
}

impl View for FieldProducerShape {
    type V = FieldProducerShapeView;

    open spec fn view(&self) -> FieldProducerShapeView {
        FieldProducerShapeView {
            producer_name: self.producer_name@,
            producer_id: self.producer_id@,
            action: self.action@,
            trigger_kind: self.trigger_kind,
            condition_input: opt_capture(self.condition_input),
            condition_variant: opt_capture(self.condition_variant),
            output_model: self.output_model@,
            output_field: self.output_field@,
            input: opt_capture(self.input),
            existing_input: opt_capture(self.existing_input),
            existing_field: opt_capture(self.existing_field),
            constant: opt_capture(self.constant),
            template: opt_capture(self.template),
        }
    }
}

pub open spec fn assembled(
    name: CaptureView,
    id: CaptureView,
    action: CaptureView,
    kind: ProducerTriggerKindAst,
    condition: Option<(CaptureView, CaptureView)>,
    rest: (SourceView, CaptureView, CaptureView),
) -> FieldProducerShapeView {
    FieldProducerShapeView {
        producer_name: name,
        producer_id: id,
        action,
        trigger_kind: kind,
        condition_input: match condition {
            Some((i, _)) => Some(i),
            None => None,
        },
        condition_variant: match condition {
            Some((_, v)) => Some(v),
            None => None,
        },
        output_model: rest.1,
        output_field: rest.2,
        input: match rest.0 {
            SourceView::Input(c) => Some(c),
            _ => None,
        },
        existing_input: match rest.0 {
            SourceView::ExistingField(i, _) => Some(i),
            _ => None,
        },
        existing_field: match rest.0 {
            SourceView::ExistingField(_, f) => Some(f),
            _ => None,
        },
        constant: match rest.0 {
            SourceView::Constant(c) => Some(c),
            _ => None,
        },
        template: match rest.0 {
            SourceView::Template(c) => Some(c),
            _ => None,
        },
    }
}

/// `action이 실행될|발생할 때` at `p`: the position after it, the action and the trigger kind.
pub open spec fn fires_spec(ts: Seq<TokenView>, p: int) -> Option<
    (int, CaptureView, ProducerTriggerKindAst),
> {
    match marked_ref_spec(ts, p, subject_particles()) {
        Some((q, action)) => if 0 <= q && q + 1 < ts.len() && (ts[q].kind == TokenKindView::Word(
            "실행될"@,
        ) || ts[q].kind == TokenKindView::Word("발생할"@)) && ts[q + 1].kind
            == TokenKindView::Word("때"@) {
            Some(
                (
                    q + 2,
                    action,
                    if ts[q].kind == TokenKindView::Word("발생할"@) {
                        ProducerTriggerKindAst::Event
                    } else {
                        ProducerTriggerKindAst::Action
                    },
                ),
            )
        } else {
            None
        },
        None => None,
    }
}

/// `action의 input이 variant이면` at `p`: the position after it and the three references.
pub open spec fn condition_spec(ts: Seq<TokenView>, p: int) -> Option<
    (int, CaptureView, CaptureView, CaptureView),
> {
    match marked_ref_spec(ts, p, possessive()) {
        Some((q, action)) => match marked_ref_spec(ts, q, subject_particles()) {
            Some((r, input)) => match marked_ref_spec(ts, r, condition_particles()) {
                Some((s, variant)) => Some((s, action, input, variant)),
                None => None,
            },
            None => None,
        },
        None => None,
    }
}

/// The whole line: `name(id)은|는`, when it runs, its source and output, the verb and the
/// period. The unconditional reading is tried first.
pub open spec fn field_producer_spec(ts: Seq<TokenView>) -> Option<FieldProducerShapeView> {
    let n = name_end(ts, 0);
    if n >= 1 && id_at(ts, n) && n + 1 < ts.len() && is_topic_marker(ts[n + 1].kind) {
        let name = name_capture(ts, 0, n);
        let id = id_capture(ts, n);
        let fired = match fires_spec(ts, n + 2) {
            Some((a, action, kind)) => match after_when_spec(ts, a, false) {
                Some(rest) => Some(assembled(name, id, action, kind, None, rest)),
                None => None,
            },
            None => None,
        };
        if fired is Some {
            fired
        } else {
            match condition_spec(ts, n + 2) {
                Some((a, action, input, variant)) => match after_when_spec(ts, a, true) {
                    Some(rest) => Some(
                        assembled(
                            name,
                            id,
                            action,
                            ProducerTriggerKindAst::Action,
                            Some((input, variant)),
                            rest,
                        ),
                    ),
                    None => None,
                },
                None => None,
            }
        }
    } else {
        None
    }
}

fn ends_with_exec(w: &Vec<char>, m: &str) -> (b: bool)
    ensures
        b == ends_in_or_is(w@, m@),
{
    let mc = chars_of(m);
    let wl = w.len();
    let ml = mc.len();
    if wl < ml {
        return false;
    }
    let off = wl - ml;
    let mut j: usize = 0;
    while j < ml
        invariant
            mc@ == m@,
            wl == w@.len(),
            ml == mc@.len(),
            off == wl - ml,
            j <= ml,
            forall|k: int| 0 <= k < j ==> w@[off + k] == mc@[k],
        decreases ml - j,
    {
        if w[off + j] != mc[j] {
            proof {
                assert(w@.subrange(off as int, wl as int)[j as int] == w@[off + j]);
            }
            return false;
        }
        j = j + 1;
    }
    proof {
        assert(w@.subrange(off as int, wl as int) =~= m@);
    }
    true
}

fn closes_clause(t: &Token) -> (b: bool)
    ensures
        b == ends_clause(t@.kind),
{
    match &t.kind {
        TokenKind::Word(w) => {
            let wc = chars_of(w.as_str());
            (wc.len() > 0 && wc[wc.len() - 1] == '의') || ends_with_exec(&wc, "이면")
                || ends_with_exec(&wc, "라면")
        },
        _ => false,
    }
}

fn direct_source(tokens: &[Token], p: usize) -> (r: Option<(usize, Capture)>)
    ensures
        match r {
            Some((q, c)) => direct_source_spec(tokens_of(tokens), p as int) == Some((q as int, c@)),
            None => direct_source_spec(tokens_of(tokens), p as int) is None,
        },
{
    let ghost ts = tokens_of(tokens);
    let objects = particles("을", "를");
    let (q, c) = match marked_ref(tokens, p, objects.as_slice()) {
        Some(x) => x,
        None => {
            return None;
        },
    };
    proof {
        lemma_marked_ref_bounds(ts, p as int, object_markers());
    }
    assert(ts[p as int] == tokens@[p as int]@);
    if is_word(&tokens[p], "상수") {
        return None;
    }
    let mut j = p;
    while j < q
        invariant
            ts == tokens_of(tokens),
            p <= j <= q <= tokens@.len(),
            marked_ref_spec(ts, p as int, object_markers()) == Some((q as int, c@)),
            ts[p as int].kind != TokenKindView::Word("상수"@),
            forall|k: int| p <= k < j ==> !ends_clause(#[trigger] ts[k].kind),
        decreases q - j,
    {
        assert(ts[j as int] == tokens@[j as int]@);
        if closes_clause(&tokens[j]) {
            assert(ends_clause(ts[j as int].kind));
            return None;
        }
        j = j + 1;
    }
    Some((q, c))
}

/// What `marked_ref_spec` hands back starts after `p` and ends within the line.
proof fn lemma_marked_ref_bounds(ts: Seq<TokenView>, p: int, ms: Seq<Seq<char>>)
    ensures
        marked_ref_spec(ts, p, ms) matches Some((q, _)) ==> 0 <= p < q <= ts.len(),
{
    if 0 <= p < ts.len() && ts[p].kind is Word {
        lemma_bare_ref_bounds(ts, p, p, ms);
    }
}

proof fn lemma_bare_ref_bounds(ts: Seq<TokenView>, p: int, i: int, ms: Seq<Seq<char>>)
    requires
        0 <= p,
    ensures
        crate::creation::bare_ref_spec(ts, p, i, ms) matches Some((q, _)) ==> p <= i < q
            <= ts.len(),
    decreases ts.len() - i,
{
    if 0 <= p <= i < ts.len() && ts[i].kind is Word {
        lemma_bare_ref_bounds(ts, p, i + 1, ms);
    }
}

fn literal(tokens: &[Token], p: usize) -> (r: Option<(usize, Capture)>)
    ensures
        match r {
            Some((q, c)) => literal_spec(tokens_of(tokens), p as int) == Some((q as int, c@)),
            None => literal_spec(tokens_of(tokens), p as int) is None,
        },
{
    let ghost ts = tokens_of(tokens);
    let objects = particles("을", "를");
    if p < tokens.len() {
        assert(ts[p as int] == tokens@[p as int]@);
        let value = match &tokens[p].kind {
            TokenKind::StringLiteral(v) => Some(String::from_str(v.as_str())),
            TokenKind::QuotedIdentifier(v) => Some(String::from_str(v.as_str())),
            _ => None,
        };
        match value {
            Some(value) => {
                if p + 1 < tokens.len() {
                    assert(ts[p + 1] == tokens@[p + 1]@);
                    match &tokens[p + 1].kind {
                        TokenKind::Word(m) => {
                            if crate::creation::contains_marker(objects.as_slice(), m.as_str()) {
                                return Some(
                                    (
                                        p + 2,
                                        Capture {
                                            value,
                                            start: tokens[p + 1].span.start,
                                            end: tokens[p + 1].span.end,
                                        },
                                    ),
                                );
                            }
                        },
                        _ => {},
                    }
                }
                return None;
            },
            None => {},
        }
    }
    marked_ref(tokens, p, objects.as_slice())
}

fn template(tokens: &[Token], p: usize) -> (r: Option<(usize, Capture)>)
    ensures
        match r {
            Some((q, c)) => template_spec(tokens_of(tokens), p as int) == Some((q as int, c@)),
            None => template_spec(tokens_of(tokens), p as int) is None,
        },
{
    let ghost ts = tokens_of(tokens);
    let objects = particles("을", "를");
    if p >= tokens.len() || tokens.len() - p < 2 {
        return None;
    }
    assert(ts[p as int] == tokens@[p as int]@);
    assert(ts[p + 1] == tokens@[p + 1]@);
    match &tokens[p].kind {
        TokenKind::StringLiteral(v) => match &tokens[p + 1].kind {
            TokenKind::Word(m) => {
                if crate::creation::contains_marker(objects.as_slice(), m.as_str()) {
                    Some(
                        (
                            p + 2,
                            Capture {
                                value: String::from_str(v.as_str()),
                                start: tokens[p].span.start,
                                end: tokens[p].span.end,
                            },
                        ),
                    )
                } else {
                    None
                }
            },
            _ => None,
        },
        _ => None,
    }
}

enum ProducerSource {
    Input(Capture),
    ExistingField(Capture, Capture),
    Constant(Capture),
    Template(Capture),
}

impl View for ProducerSource {
    type V = SourceView;

    closed spec fn view(&self) -> SourceView {
        match self {
            ProducerSource::Input(c) => SourceView::Input(c@),
            ProducerSource::ExistingField(i, f) => SourceView::ExistingField(i@, f@),
            ProducerSource::Constant(c) => SourceView::Constant(c@),
            ProducerSource::Template(c) => SourceView::Template(c@),
        }
    }
}

fn tail(tokens: &[Token], b: usize, source: &ProducerSource) -> (r: Option<(Capture, Capture)>)
    ensures
        match r {
            Some((m, f)) => tail_spec(tokens_of(tokens), b as int, source@) == Some((m@, f@)),
            None => tail_spec(tokens_of(tokens), b as int, source@) is None,
        },
{
    let ghost ts = tokens_of(tokens);
    let (c, model) = match marked_ref(tokens, b, possessive_markers().as_slice()) {
        Some(x) => x,
        None => {
            return None;
        },
    };
    let (e, field) = match marked_ref(tokens, c, particles("으로", "로").as_slice()) {
        Some(x) => x,
        None => {
            return None;
        },
    };
    proof {
        lemma_marked_ref_bounds(ts, c as int, directional_markers());
    }
    if tokens.len() - e != 2 {
        return None;
    }
    assert(ts[e as int] == tokens@[e as int]@);
    assert(ts[e + 1] == tokens@[e + 1]@);
    let verb = match source {
        ProducerSource::Template(_) => is_word(&tokens[e], "조합한다"),
        _ => is_word(&tokens[e], "기록한다"),
    };
    if !verb {
        return None;
    }
    match &tokens[e + 1].kind {
        TokenKind::Period => Some((model, field)),
        _ => None,
    }
}

spec fn rest_view(r: (ProducerSource, Capture, Capture)) -> (SourceView, CaptureView, CaptureView) {
    (r.0@, r.1@, r.2@)
}

fn after_when(tokens: &[Token], a: usize, conditional: bool) -> (r: Option<
    (ProducerSource, Capture, Capture),
>)
    ensures
        match r {
            Some(x) => after_when_spec(tokens_of(tokens), a as int, conditional) == Some(rest_view(x)),
            None => after_when_spec(tokens_of(tokens), a as int, conditional) is None,
        },
{
    let ghost ts = tokens_of(tokens);
    match direct_source(tokens, a) {
        Some((b, c)) => {
            let source = ProducerSource::Input(c);
            match tail(tokens, b, &source) {
                Some((m, f)) => {
                    return Some((source, m, f));
                },
                None => {},
            }
        },
        None => {},
    }
    match marked_ref(tokens, a, possessive_markers().as_slice()) {
        Some((q, i)) => match marked_ref(tokens, q, particles("을", "를").as_slice()) {
            Some((b, f0)) => {
                let source = ProducerSource::ExistingField(i, f0);
                match tail(tokens, b, &source) {
                    Some((m, f)) => {
                        return Some((source, m, f));
                    },
                    None => {},
                }
            },
            None => {},
        },
        None => {},
    }
    if a < tokens.len() {
        assert(ts[a as int] == tokens@[a as int]@);
        if is_word(&tokens[a], "상수") {
            match literal(tokens, a + 1) {
                Some((b, c)) => {
                    let source = ProducerSource::Constant(c);
                    match tail(tokens, b, &source) {
                        Some((m, f)) => {
                            return Some((source, m, f));
                        },
                        None => {},
                    }
                },
                None => {},
            }
        }
    }
    if conditional {
        return None;
    }
    match template(tokens, a) {
        Some((b, c)) => {
            let source = ProducerSource::Template(c);
            match tail(tokens, b, &source) {
                Some((m, f)) => Some((source, m, f)),
                None => None,
            }
        },
        None => None,
    }
}

pub(crate) fn fires(tokens: &[Token], p: usize) -> (r: Option<(usize, Capture, ProducerTriggerKindAst)>)
    ensures
        match r {
            Some((q, c, k)) => fires_spec(tokens_of(tokens), p as int) == Some((q as int, c@, k)),
            None => fires_spec(tokens_of(tokens), p as int) is None,
        },
{
    let ghost ts = tokens_of(tokens);
    let (q, action) = match marked_ref(tokens, p, particles("이", "가").as_slice()) {
        Some(x) => x,
        None => {
            return None;
        },
    };
    proof {
        lemma_marked_ref_bounds(ts, p as int, subject_particles());
    }
    if tokens.len() - q < 2 {
        return None;
    }
    assert(ts[q as int] == tokens@[q as int]@);
    assert(ts[q + 1] == tokens@[q + 1]@);
    let kind = if is_word(&tokens[q], "발생할") {
        ProducerTriggerKindAst::Event
    } else if is_word(&tokens[q], "실행될") {
        ProducerTriggerKindAst::Action
    } else {
        return None;
    };
    if !is_word(&tokens[q + 1], "때") {
        return None;
    }
    Some((q + 2, action, kind))
}

fn condition(tokens: &[Token], p: usize) -> (r: Option<(usize, Capture, Capture, Capture)>)
    ensures
        match r {
            Some((q, a, i, v)) => condition_spec(tokens_of(tokens), p as int) == Some(
                (q as int, a@, i@, v@),
            ),
            None => condition_spec(tokens_of(tokens), p as int) is None,
        },
{
    let (q, action) = match marked_ref(tokens, p, possessive_markers().as_slice()) {
        Some(x) => x,
        None => {
            return None;
        },
    };
    let (r, input) = match marked_ref(tokens, q, particles("이", "가").as_slice()) {
        Some(x) => x,
        None => {
            return None;
        },
    };
    match marked_ref(tokens, r, particles("이면", "라면").as_slice()) {
        Some((s, variant)) => Some((s, action, input, variant)),
        None => None,
    }
}

fn assemble(
    name: Capture,
    id: Capture,
    action: Capture,
    kind: ProducerTriggerKindAst,
    condition: Option<(Capture, Capture)>,
    rest: (ProducerSource, Capture, Capture),
) -> (f: FieldProducerShape)
    ensures
        f@ == assembled(
            name@,
            id@,
            action@,
            kind,
            match condition {
                Some((i, v)) => Some((i@, v@)),
                None => None,
            },
            rest_view(rest),
        ),
{
    let (condition_input, condition_variant) = match condition {
        Some((i, v)) => (Some(i), Some(v)),
        None => (None, None),
    };
    let (source, output_model, output_field) = rest;
    let (input, existing_input, existing_field, constant, template) = match source {
        ProducerSource::Input(c) => (Some(c), None, None, None, None),
        ProducerSource::ExistingField(i, f) => (None, Some(i), Some(f), None, None),
        ProducerSource::Constant(c) => (None, None, None, Some(c), None),
        ProducerSource::Template(c) => (None, None, None, None, Some(c)),
    };
    FieldProducerShape {
        producer_name: name,
        producer_id: id,
        action,
        trigger_kind: kind,
        condition_input,
        condition_variant,
        output_model,
        output_field,
        input,
        existing_input,
        existing_field,
        constant,
        template,
    }
}

/// Reads the tokens of one line (line breaks removed) as a field-producer sentence.
pub fn parse_field_producer(tokens: &[Token]) -> (r: Result<FieldProducerShape, ShapeMismatch>)
    ensures
        match r {
            Ok(f) => field_producer_spec(tokens_of(tokens)) == Some(f@),
            Err(_) => field_producer_spec(tokens_of(tokens)) is None,
        },
{
    let ghost ts = tokens_of(tokens);
    let len = tokens.len();
    let mut n: usize = 0;
    while n < len && is_name_token(&tokens[n])
        invariant
            ts == tokens_of(tokens),
            len == tokens@.len(),
            n <= len,
            forall|j: int| 0 <= j < n ==> is_name_part(#[trigger] ts[j].kind),
        decreases len - n,
    {
        assert(ts[n as int] == tokens@[n as int]@);
        n = n + 1;
    }
    proof {
        if n < len {
            assert(ts[n as int] == tokens@[n as int]@);
        }
        lemma_name_end(ts, 0, n as int);
    }
    if n < 1 || n >= len || len - n < 2 {
        return Err(ShapeMismatch);
    }
    let id = match id_capture_at(tokens, n) {
        Some(id) => id,
        None => {
            return Err(ShapeMismatch);
        },
    };
    proof {
        reveal_strlit("은");
        reveal_strlit("는");
        assert("은"@ =~= seq!['은']);
        assert("는"@ =~= seq!['는']);
    }
    if !(is_word(&tokens[n + 1], "은") || is_word(&tokens[n + 1], "는")) {
        return Err(ShapeMismatch);
    }
    match fires(tokens, n + 2) {
        Some((a, action, kind)) => match after_when(tokens, a, false) {
            Some(rest) => {
                return Ok(assemble(name_capture_of(tokens, 0, n), id, action, kind, None, rest));
            },
            None => {},
        },
        None => {},
    }
    match condition(tokens, n + 2) {
        Some((a, action, input, variant)) => match after_when(tokens, a, true) {
            Some(rest) => Ok(
                assemble(
                    name_capture_of(tokens, 0, n),
                    id,
                    action,
                    ProducerTriggerKindAst::Action,
                    Some((input, variant)),
                    rest,
                ),
            ),
            None => Err(ShapeMismatch),
        },
        None => Err(ShapeMismatch),
    }
}

/// What a relation-producer sentence names.
#[derive(Debug)]
pub struct RelationProducerShape {
    pub producer_name: Capture,
    pub producer_id: Capture,
    pub action: Capture,
    pub trigger_kind: ProducerTriggerKindAst,
    pub input: Capture,
    pub output_model: Capture,
    pub relation: Capture,
}

pub struct RelationProducerShapeView {
    pub producer_name: CaptureView,
    pub producer_id: CaptureView,
    pub action: CaptureView,
    pub trigger_kind: ProducerTriggerKindAst,
    pub input: CaptureView,
    pub output_model: CaptureView,
    pub relation: CaptureView,
}

impl View for RelationProducerShape {
    type V = RelationProducerShapeView;

    open spec fn view(&self) -> RelationProducerShapeView {
        RelationProducerShapeView {
            producer_name: self.producer_name@,
            producer_id: self.producer_id@,
            action: self.action@,
            trigger_kind: self.trigger_kind,
            input: self.input@,
            output_model: self.output_model@,
            relation: self.relation@,
        }
    }
}

/// `name(id)은|는 action이 실행될|발생할 때 input을 model의 relation으로 연결한다.`
pub open spec fn relation_producer_spec(ts: Seq<TokenView>) -> Option<RelationProducerShapeView> {
    let n = name_end(ts, 0);
    if n >= 1 && id_at(ts, n) && n + 1 < ts.len() && is_topic_marker(ts[n + 1].kind) {
        match fires_spec(ts, n + 2) {
            Some((a, action, kind)) => match marked_ref_spec(ts, a, object_markers()) {
                Some((b, input)) => match marked_ref_spec(ts, b, possessive()) {
                    Some((c, output_model)) => match marked_ref_spec(ts, c, directional_markers()) {
                        Some((e, relation)) => if e + 2 == ts.len() && ts[e].kind
                            == TokenKindView::Word("연결한다"@) && ts[e + 1].kind is Period {
                            Some(
                                RelationProducerShapeView {
                                    producer_name: name_capture(ts, 0, n),
                                    producer_id: id_capture(ts, n),
                                    action,
                                    trigger_kind: kind,
                                    input,
                                    output_model,
                                    relation,
                                },
                            )
                        } else {
                            None
                        },
                        None => None,
                    },
                    None => None,
                },
                None => None,
            },
            None => None,
        }
    } else {
        None
    }
}

/// Reads the tokens of one line (line breaks removed) as a relation-producer sentence.
pub fn parse_relation_producer(tokens: &[Token]) -> (r: Result<RelationProducerShape, ShapeMismatch>)
    ensures
        match r {
            Ok(f) => relation_producer_spec(tokens_of(tokens)) == Some(f@),
            Err(_) => relation_producer_spec(tokens_of(tokens)) is None,
        },
{
    let ghost ts = tokens_of(tokens);
    let len = tokens.len();
    let mut n: usize = 0;
    while n < len && is_name_token(&tokens[n])
        invariant
            ts == tokens_of(tokens),
            len == tokens@.len(),
            n <= len,
            forall|j: int| 0 <= j < n ==> is_name_part(#[trigger] ts[j].kind),
        decreases len - n,
    {
        assert(ts[n as int] == tokens@[n as int]@);
        n = n + 1;
    }
    proof {
        if n < len {
            assert(ts[n as int] == tokens@[n as int]@);
        }
        lemma_name_end(ts, 0, n as int);
    }
    if n < 1 || n >= len || len - n < 2 {
        return Err(ShapeMismatch);
    }
    let id = match id_capture_at(tokens, n) {
        Some(id) => id,
        None => {
            return Err(ShapeMismatch);
        },
    };
    proof {
        reveal_strlit("은");
        reveal_strlit("는");
        assert("은"@ =~= seq!['은']);
        assert("는"@ =~= seq!['는']);
    }
    if !(is_word(&tokens[n + 1], "은") || is_word(&tokens[n + 1], "는")) {
        return Err(ShapeMismatch);
    }
    let (a, action, kind) = match fires(tokens, n + 2) {
        Some(x) => x,
        None => {
            return Err(ShapeMismatch);
        },
    };
    let (b, input) = match marked_ref(tokens, a, particles("을", "를").as_slice()) {
        Some(x) => x,
        None => {
            return Err(ShapeMismatch);
        },
    };
    let (c, output_model) = match marked_ref(tokens, b, possessive_markers().as_slice()) {
        Some(x) => x,
        None => {
            return Err(ShapeMismatch);
        },
    };
    let (e, relation) = match marked_ref(tokens, c, particles("으로", "로").as_slice()) {
        Some(x) => x,
        None => {
            return Err(ShapeMismatch);
        },
    };
    proof {
        lemma_marked_ref_bounds(ts, c as int, directional_markers());
    }
    if len - e != 2 {
        return Err(ShapeMismatch);
    }
    assert(ts[e as int] == tokens@[e as int]@);
    assert(ts[e + 1] == tokens@[e + 1]@);
    if !is_word(&tokens[e], "연결한다") {
        return Err(ShapeMismatch);
    }
    match &tokens[e + 1].kind {
        TokenKind::Period => {},
        _ => {
            return Err(ShapeMismatch);
        },
    }
    Ok(
        RelationProducerShape {
            producer_name: name_capture_of(tokens, 0, n),
            producer_id: id,
            action,
            trigger_kind: kind,
            input,
            output_model,
            relation,
        },
    )
}

} // verus!
