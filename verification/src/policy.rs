//! The policy sentence: `role은 model의 field를 action할 수 있다.`, or `없다` for a denial. Each
//! reference is a run of words whose last word carries the particle, or a quoted name followed
//! by the particle as a word of its own.
use vstd::prelude::*;

use crate::creation::{marked_ref, marked_ref_spec, marker_views, particles, possessive, possessive_markers};
use crate::declarations::{is_word, tokens_of, Capture, CaptureView, ShapeMismatch};
use crate::scanner::{Token, TokenKind, TokenKindView, TokenView};
use vstd::string::StringExecFns;

verus! {

pub open spec fn topic_markers() -> Seq<Seq<char>> {
    seq!["은"@, "는"@]
}

pub open spec fn policy_objects() -> Seq<Seq<char>> {
    seq!["을"@, "를"@]
}

pub open spec fn verb_marker() -> Seq<Seq<char>> {
    seq!["할"@]
}

/// What a policy sentence names; the effect is the word `있다` or `없다`.
#[derive(Clone, Debug, PartialEq, Eq)]
pub struct PolicyShape {
    pub role: Capture,
    pub model: Capture,
    pub field: Capture,
    pub action: Capture,
    pub effect: Capture,
}

pub struct PolicyShapeView {
    pub role: CaptureView,
    pub model: CaptureView,
    pub field: CaptureView,
    pub action: CaptureView,
    pub effect: CaptureView,
}

impl View for PolicyShape {
    type V = PolicyShapeView;

    open spec fn view(&self) -> PolicyShapeView {
        PolicyShapeView {
            role: self.role@,
            model: self.model@,
            field: self.field@,
            action: self.action@,
            effect: self.effect@,
        }
    }
}

/// `role은|는 model의 field을|를 action할 수 있다|없다.`, with nothing after the period.
pub open spec fn policy_spec(ts: Seq<TokenView>) -> Option<PolicyShapeView> {
    match marked_ref_spec(ts, 0, topic_markers()) {
        Some((a, role)) => match marked_ref_spec(ts, a, possessive()) {
            Some((b, model)) => match marked_ref_spec(ts, b, policy_objects()) {
                Some((c, field)) => match marked_ref_spec(ts, c, verb_marker()) {
                    Some((d, action)) => if 0 <= d && d + 3 == ts.len() && ts[d].kind
                        == TokenKindView::Word("수"@) && (ts[d + 1].kind == TokenKindView::Word(
                        "있다"@,
                    ) || ts[d + 1].kind == TokenKindView::Word("없다"@)) && ts[d + 2].kind is Period {
                        Some(
                            PolicyShapeView {
                                role,
                                model,
                                field,
                                action,
                                effect: CaptureView {
                                    value: match ts[d + 1].kind {
                                        TokenKindView::Word(w) => w,
                                        _ => Seq::empty(),
                                    },
                                    start: ts[d + 1].span.start,
                                    end: ts[d + 1].span.end,
                                },
                            },
                        )
                    } else {
                        None
                    },
                    None => None,
                },
                None => None,
            },
            None => None,
        },
        None => None,
    }
}

/// Reads the tokens of one line (layout tokens removed) as a policy sentence.
pub fn parse_policy(tokens: &[Token]) -> (r: Result<PolicyShape, ShapeMismatch>)
    ensures
        match r {
            Ok(p) => policy_spec(tokens_of(tokens)) == Some(p@),
            Err(_) => policy_spec(tokens_of(tokens)) is None,
        },
{
    let ghost ts = tokens_of(tokens);
    let (a, role) = match marked_ref(tokens, 0, particles("은", "는").as_slice()) {
        Some(x) => x,
        None => {
            return Err(ShapeMismatch);
        },
    };
    let (b, model) = match marked_ref(tokens, a, possessive_markers().as_slice()) {
        Some(x) => x,
        None => {
            return Err(ShapeMismatch);
        },
    };
    let (c, field) = match marked_ref(tokens, b, particles("을", "를").as_slice()) {
        Some(x) => x,
        None => {
            return Err(ShapeMismatch);
        },
    };
    let mut verb: Vec<&'static str> = Vec::new();
    verb.push("할");
    proof {
        assert(marker_views(verb@) =~= verb_marker());
    }
    let (d, action) = match marked_ref(tokens, c, verb.as_slice()) {
        Some(x) => x,
        None => {
            return Err(ShapeMismatch);
        },
    };
    if d > tokens.len() || tokens.len() - d != 3 {
        return Err(ShapeMismatch);
    }
    assert(ts[d as int] == tokens@[d as int]@);
    assert(ts[d + 1] == tokens@[d + 1]@);
    assert(ts[d + 2] == tokens@[d + 2]@);
    if !is_word(&tokens[d], "수") {
        return Err(ShapeMismatch);
    }
    let effect = match &tokens[d + 1].kind {
        TokenKind::Word(w) => {
            if is_word(&tokens[d + 1], "있다") || is_word(&tokens[d + 1], "없다") {
                Capture {
                    value: String::from_str(w.as_str()),
                    start: tokens[d + 1].span.start,
                    end: tokens[d + 1].span.end,
                }
            } else {
                return Err(ShapeMismatch);
            }
        },
        _ => {
            return Err(ShapeMismatch);
        },
    };
    match &tokens[d + 2].kind {
        TokenKind::Period => {},
        _ => {
            return Err(ShapeMismatch);
        },
    }
    Ok(PolicyShape { role, model, field, action, effect })
}

} // verus!
