//! Structured edits of a screen layout: insert, delete, move and update elements by their
//! explicit ids, and the hash that ties an edit to the source it was made against.
use vstd::prelude::*;
use vstd::string::StringExecFns;

use crate::ast::{
    layout_view, layouts_view, lemma_layouts_view, opt_text, refs_view,
    DeclarationAst, DocumentAst, FrontmatterAst, FrontmatterRefAst, LayoutElementAst, LayoutView,
    RefView, ScreenLayoutAst, ScreenPathAst,
};
use crate::frontmatter::{path_shape, PathShape};
use crate::diagnostic::Span;
use crate::document::{parse, parse_holds, ParseOutput};
use crate::formatter::{document_text, format_document, opt_string};
use crate::sdk::SUPPORTED_LOCALE;
use crate::text::{
    chars_of, decimal, decimal_spec, digit_char, find_char, find_from, lemma_find_from, push_char,
    str_eq, string_of,
};
use sha2::{Digest, Sha256};

verus! {

pub const EDIT_SCHEMA_VERSION: u32 = 1;

/// The source file an edit is made against.
#[derive(Clone, Debug)]
pub struct EditSource {
    pub path: String,
    pub text: String,
}

/// Where a new or moved element goes under its parent.
#[derive(Clone, Copy, Debug, PartialEq, Eq, Structural)]
pub enum EditSlot {
    Root,
    Children,
    Inputs,
}

#[derive(Clone, Copy, Debug, PartialEq, Eq, Structural)]
pub enum EditHandlerKind {
    State,
    Message,
    Popup,
    Loading,
}

/// A same-screen reaction named by a path instead of a target screen.
#[derive(Clone, Debug)]
pub struct EditHandler {
    pub kind: EditHandlerKind,
    pub id: String,
    pub content: Option<String>,
}

/// A new element, with the id it will be known by.
#[derive(Clone, Debug)]
pub enum EditElement {
    Header { id: String },
    Section { id: String },
    Form { id: String },
    Heading { id: String, text: String },
    Input { id: String, field_id: String },
    List { id: String, model_id: String, field_ids: Vec<String> },
    Button { id: String, name: String, action_id: Option<String> },
    Placeholder { id: String, text: String },
}

/// The scalar properties an update sets; what is `None` stays as it is.
#[derive(Clone, Debug)]
pub struct EditPatch {
    pub text: Option<String>,
    pub field_id: Option<String>,
    pub model_id: Option<String>,
    pub field_ids: Option<Vec<String>>,
    pub name: Option<String>,
    pub action_id: Option<String>,
    pub clear_action: bool,
}

impl Default for EditPatch {
    fn default() -> (p: EditPatch)
        ensures
            p.text is None,
            p.field_id is None,
            p.model_id is None,
            p.field_ids is None,
            p.name is None,
            p.action_id is None,
            !p.clear_action,
    {
        EditPatch {
            text: None,
            field_id: None,
            model_id: None,
            field_ids: None,
            name: None,
            action_id: None,
            clear_action: false,
        }
    }
}

/// One structured edit.
#[derive(Clone, Debug)]
pub enum EditOperation {
    Insert {
        screen_id: String,
        parent_element_id: Option<String>,
        slot: EditSlot,
        before_element_id: Option<String>,
        element: EditElement,
    },
    Delete { screen_id: String, element_id: String },
    Move {
        screen_id: String,
        element_id: String,
        parent_element_id: Option<String>,
        slot: EditSlot,
        before_element_id: Option<String>,
    },
    Update { screen_id: String, element_id: String, patch: EditPatch },
    /// Adds a screen path from an element to a target screen. A screen path of the document
    /// has no outcome and no same-screen handler, so a connect that names either is refused
    /// (see `path_edit_unsupported`).
    Connect {
        source_screen_id: String,
        source_element_id: String,
        target_screen_id: Option<String>,
        outcome_id: Option<String>,
        handler: Option<EditHandler>,
        label: Option<String>,
    },
    /// Removes the one screen path that matches.
    Disconnect {
        source_screen_id: String,
        source_element_id: String,
        target_screen_id: Option<String>,
        outcome_id: Option<String>,
        handler: Option<EditHandler>,
        label: Option<String>,
    },
}

/// A request to edit one source.
#[derive(Clone, Debug)]
pub struct EditRequest {
    pub schema_version: u32,
    pub locale: String,
    pub source: EditSource,
    pub expected_source_hash: String,
    pub edit: EditOperation,
}

/// Whether an edit was applied, or why not.
#[derive(Clone, Debug, PartialEq, Eq)]
pub enum EditOutcome {
    Applied,
    Rejected { code: &'static str, reason: String },
}

/// The id of a layout element: a button always has one, other elements may.
pub open spec fn ident(v: LayoutView) -> Option<Seq<char>> {
    match v {
        LayoutView::Header { id, .. } => id,
        LayoutView::Section { id, .. } => id,
        LayoutView::Heading { id, .. } => id,
        LayoutView::Form { id, .. } => id,
        LayoutView::Input { id, .. } => id,
        LayoutView::List { id, .. } => id,
        LayoutView::Button { id, .. } => Some(id),
        LayoutView::Placeholder { id, .. } => id,
    }
}

/// The elements nested in `v`: a header's and a section's children, a form's inputs.
pub open spec fn kids(v: LayoutView) -> Option<Seq<LayoutView>> {
    match v {
        LayoutView::Header { children, .. } => Some(children),
        LayoutView::Section { children, .. } => Some(children),
        LayoutView::Form { inputs, .. } => Some(inputs),
        _ => None,
    }
}

/// `v` with its nested elements replaced by `ks`.
pub open spec fn with_kids(v: LayoutView, ks: Seq<LayoutView>) -> LayoutView {
    match v {
        LayoutView::Header { id, span, .. } => LayoutView::Header { id, children: ks, span },
        LayoutView::Section { id, span, .. } => LayoutView::Section { id, children: ks, span },
        LayoutView::Form { id, span, .. } => LayoutView::Form { id, inputs: ks, span },
        _ => v,
    }
}

/// How many elements of the forest `vs`, at any depth, have the id `id`.
pub open spec fn count_spec(vs: Seq<LayoutView>, id: Seq<char>) -> nat
    decreases vs,
{
    if vs.len() == 0 {
        0
    } else {
        let e = vs[vs.len() - 1];
        proof {
            assert(decreases_to!(vs => vs[vs.len() - 1]));
            assert(decreases_to!(vs => vs.subrange(0, vs.len() - 1)));
        }
        let here: nat = if ident(e) == Some(id) {
            1
        } else {
            0
        };
        let below: nat = match e {
            LayoutView::Header { children, .. } => count_spec(children, id),
            LayoutView::Section { children, .. } => count_spec(children, id),
            LayoutView::Form { inputs, .. } => count_spec(inputs, id),
            _ => 0,
        };
        count_spec(vs.subrange(0, vs.len() - 1), id) + here + below
    }
}

/// The elements at any depth below `v` that have the id `id`.
pub open spec fn below_count(v: LayoutView, id: Seq<char>) -> nat {
    match kids(v) {
        Some(ks) => count_spec(ks, id),
        None => 0,
    }
}

pub open spec fn here_count(v: LayoutView, id: Seq<char>) -> nat {
    if ident(v) == Some(id) {
        1
    } else {
        0
    }
}

proof fn lemma_count_step(vs: Seq<LayoutView>, i: int, id: Seq<char>)
    requires
        0 <= i < vs.len(),
    ensures
        count_spec(vs.take(i + 1), id) == count_spec(vs.take(i), id) + here_count(vs[i], id)
            + below_count(vs[i], id),
{
    assert(vs.take(i + 1).subrange(0, i) =~= vs.take(i));
}

proof fn lemma_count_prefix(vs: Seq<LayoutView>, j: int, id: Seq<char>)
    requires
        0 <= j <= vs.len(),
    ensures
        count_spec(vs.take(j), id) <= count_spec(vs, id),
    decreases vs.len(),
{
    if j < vs.len() {
        let init = vs.subrange(0, vs.len() - 1);
        lemma_count_prefix(init, j, id);
        assert(init.take(j) =~= vs.take(j));
    } else {
        assert(vs.take(j) =~= vs);
    }
}

/// The id of `element`.
pub fn element_id(element: &LayoutElementAst) -> (r: Option<&str>)
    ensures
        match r {
            Some(s) => ident(element@) == Some(s@),
            None => ident(element@) is None,
        },
{
    let id = match element {
        LayoutElementAst::Header { id, .. } => id,
        LayoutElementAst::Section { id, .. } => id,
        LayoutElementAst::Heading { id, .. } => id,
        LayoutElementAst::Form { id, .. } => id,
        LayoutElementAst::Input { id, .. } => id,
        LayoutElementAst::List { id, .. } => id,
        LayoutElementAst::Placeholder { id, .. } => id,
        LayoutElementAst::Button { id, .. } => {
            return Some(id.as_str());
        },
    };
    match id {
        Some(s) => Some(s.as_str()),
        None => None,
    }
}

fn has_id(element: &LayoutElementAst, id: &str) -> (b: bool)
    ensures
        b == (ident(element@) == Some(id@)),
{
    match element_id(element) {
        Some(s) => str_eq(s, id),
        None => false,
    }
}

/// How many elements of `elements`, at any depth, have the id `id`.
pub fn count_elements(elements: &[LayoutElementAst], id: &str) -> (n: usize)
    requires
        count_spec(layouts_view(elements@), id@) <= usize::MAX,
    ensures
        n == count_spec(layouts_view(elements@), id@),
    decreases elements@,
{
    let ghost vs = layouts_view(elements@);
    proof {
        lemma_layouts_view(elements@);
        assert(vs.take(0) =~= Seq::<LayoutView>::empty());
    }
    let mut total: usize = 0;
    let mut i: usize = 0;
    while i < elements.len()
        invariant
            i <= elements@.len(),
            vs == layouts_view(elements@),
            vs =~= elements@.map_values(|e: LayoutElementAst| layout_view(e)),
            total == count_spec(vs.take(i as int), id@),
            count_spec(vs, id@) <= usize::MAX,
        decreases elements@.len() - i,
    {
        let e = &elements[i];
        proof {
            lemma_count_step(vs, i as int, id@);
            lemma_count_prefix(vs, i + 1, id@);
            assert(vs[i as int] == layout_view(elements@[i as int]));
        }
        let here: usize = if has_id(e, id) {
            1
        } else {
            0
        };
        let below: usize = match e {
            LayoutElementAst::Header { children, .. } => {
                proof {
                    assert(decreases_to!(elements@ => elements@[i as int]));
                }
                count_elements(children.as_slice(), id)
            },
            LayoutElementAst::Section { children, .. } => {
                proof {
                    assert(decreases_to!(elements@ => elements@[i as int]));
                }
                count_elements(children.as_slice(), id)
            },
            LayoutElementAst::Form { inputs, .. } => {
                proof {
                    assert(decreases_to!(elements@ => elements@[i as int]));
                }
                count_elements(inputs.as_slice(), id)
            },
            _ => 0,
        };
        total = total + here + below;
        i = i + 1;
    }
    proof {
        assert(vs.take(elements@.len() as int) =~= vs);
    }
    total
}

/// The first element of `vs`, in document order and at any depth, with the id `id`: an
/// element comes before the elements nested in it, and those before its next sibling.
pub open spec fn find_spec(vs: Seq<LayoutView>, id: Seq<char>) -> Option<LayoutView>
    decreases vs,
{
    if vs.len() == 0 {
        None
    } else {
        let e = vs[0];
        proof {
            assert(decreases_to!(vs => vs[0]));
            assert(decreases_to!(vs => vs.subrange(1, vs.len() as int)));
        }
        if ident(e) == Some(id) {
            Some(e)
        } else {
            let inner = match e {
                LayoutView::Header { children, .. } => find_spec(children, id),
                LayoutView::Section { children, .. } => find_spec(children, id),
                LayoutView::Form { inputs, .. } => find_spec(inputs, id),
                _ => None,
            };
            if inner is Some {
                inner
            } else {
                find_spec(vs.subrange(1, vs.len() as int), id)
            }
        }
    }
}

/// The first element of `elements` with the id `id`, in document order.
pub fn find_element<'a>(elements: &'a [LayoutElementAst], id: &str) -> (r: Option<
    &'a LayoutElementAst,
>)
    ensures
        match r {
            Some(e) => find_spec(layouts_view(elements@), id@) == Some(e@),
            None => find_spec(layouts_view(elements@), id@) is None,
        },
    decreases elements@,
{
    let ghost vs = layouts_view(elements@);
    proof {
        lemma_layouts_view(elements@);
        assert(vs.subrange(0, vs.len() as int) =~= vs);
    }
    let n = elements.len();
    let mut i: usize = 0;
    while i < n
        invariant
            n == elements@.len(),
            i <= n,
            vs == layouts_view(elements@),
            vs =~= elements@.map_values(|e: LayoutElementAst| layout_view(e)),
            find_spec(vs, id@) == find_spec(vs.subrange(i as int, n as int), id@),
        decreases n - i,
    {
        let e = &elements[i];
        proof {
            let rest = vs.subrange(i as int, n as int);
            assert(rest[0] == vs[i as int]);
            assert(rest.subrange(1, rest.len() as int) =~= vs.subrange(i + 1, n as int));
            assert(vs[i as int] == layout_view(elements@[i as int]));
        }
        if has_id(e, id) {
            return Some(e);
        }
        let inner = match e {
            LayoutElementAst::Header { children, .. } => {
                proof {
                    assert(decreases_to!(elements@ => elements@[i as int]));
                }
                find_element(children.as_slice(), id)
            },
            LayoutElementAst::Section { children, .. } => {
                proof {
                    assert(decreases_to!(elements@ => elements@[i as int]));
                }
                find_element(children.as_slice(), id)
            },
            LayoutElementAst::Form { inputs, .. } => {
                proof {
                    assert(decreases_to!(elements@ => elements@[i as int]));
                }
                find_element(inputs.as_slice(), id)
            },
            _ => None,
        };
        if inner.is_some() {
            return inner;
        }
        i = i + 1;
    }
    None
}

/// Index of the first element of `vs` from `i` on, at this level only, with the id `id`;
/// `-1` when there is none.
pub open spec fn level_index_from(vs: Seq<LayoutView>, id: Seq<char>, i: int) -> int
    decreases vs.len() - i,
{
    if i < 0 || i >= vs.len() {
        -1
    } else if ident(vs[i]) == Some(id) {
        i
    } else {
        level_index_from(vs, id, i + 1)
    }
}

pub open spec fn level_index(vs: Seq<LayoutView>, id: Seq<char>) -> int {
    level_index_from(vs, id, 0)
}

proof fn lemma_level_index_from(vs: Seq<LayoutView>, id: Seq<char>, i: int)
    requires
        0 <= i,
    ensures
        level_index_from(vs, id, i) == -1 || (i <= level_index_from(vs, id, i) < vs.len() && ident(
            vs[level_index_from(vs, id, i)],
        ) == Some(id)),
    decreases vs.len() - i,
{
    if i < vs.len() && ident(vs[i]) != Some(id) {
        lemma_level_index_from(vs, id, i + 1);
    }
}

fn level_position(elements: &[LayoutElementAst], id: &str) -> (r: Option<usize>)
    ensures
        match r {
            Some(i) => level_index(layouts_view(elements@), id@) == i as int,
            None => level_index(layouts_view(elements@), id@) == -1,
        },
{
    let ghost vs = layouts_view(elements@);
    proof {
        lemma_layouts_view(elements@);
    }
    let n = elements.len();
    let mut i: usize = 0;
    while i < n
        invariant
            n == elements@.len(),
            i <= n,
            vs == layouts_view(elements@),
            vs =~= elements@.map_values(|e: LayoutElementAst| layout_view(e)),
            level_index(vs, id@) == level_index_from(vs, id@, i as int),
        decreases n - i,
    {
        proof {
            assert(vs[i as int] == layout_view(elements@[i as int]));
        }
        if has_id(&elements[i], id) {
            return Some(i);
        }
        i = i + 1;
    }
    None
}

pub open spec fn lift(
    pre: Seq<LayoutView>,
    r: Option<(Seq<LayoutView>, LayoutView)>,
) -> Option<(Seq<LayoutView>, LayoutView)> {
    match r {
        Some((rest, found)) => Some((pre + rest, found)),
        None => None,
    }
}

/// Removing the element with the id `id`: the first one at this level if there is one,
/// else the first one found below, element by element. The forest left and the element
/// taken out.
pub open spec fn remove_spec(vs: Seq<LayoutView>, id: Seq<char>) -> Option<
    (Seq<LayoutView>, LayoutView),
>
    decreases vs, 1nat,
{
    let i = level_index(vs, id);
    if 0 <= i < vs.len() {
        Some((vs.remove(i), vs[i]))
    } else {
        remove_below(vs, id)
    }
}

pub open spec fn remove_below(vs: Seq<LayoutView>, id: Seq<char>) -> Option<
    (Seq<LayoutView>, LayoutView),
>
    decreases vs, 0nat,
{
    if vs.len() == 0 {
        None
    } else {
        let e = vs[0];
        proof {
            assert(decreases_to!(vs => vs[0]));
            assert(decreases_to!(vs => vs.subrange(1, vs.len() as int)));
        }
        let inner = match e {
            LayoutView::Header { children, .. } => remove_spec(children, id),
            LayoutView::Section { children, .. } => remove_spec(children, id),
            LayoutView::Form { inputs, .. } => remove_spec(inputs, id),
            _ => None,
        };
        match inner {
            Some((ks, found)) => Some((vs.update(0, with_kids(e, ks)), found)),
            None => lift(seq![e], remove_below(vs.subrange(1, vs.len() as int), id)),
        }
    }
}

/// Removal inside the elements nested in `v`.
pub open spec fn remove_in(v: LayoutView, id: Seq<char>) -> Option<(Seq<LayoutView>, LayoutView)> {
    match kids(v) {
        Some(ks) => remove_spec(ks, id),
        None => None,
    }
}

fn remove_owned(forest: Vec<LayoutElementAst>, id: &str) -> (r: (
    Vec<LayoutElementAst>,
    Option<LayoutElementAst>,
))
    ensures
        match remove_spec(layouts_view(forest@), id@) {
            Some((rest, found)) => layouts_view(r.0@) == rest && (r.1 matches Some(x) && x@ == found),
            None => layouts_view(r.0@) == layouts_view(forest@) && r.1 is None,
        },
    decreases forest@,
{
    let ghost old_elements = forest@;
    let ghost vs = layouts_view(forest@);
    proof {
        lemma_layouts_view(forest@);
    }
    let mut elements = forest;
    match level_position(elements.as_slice(), id) {
        Some(i) => {
            proof {
                lemma_level_index_from(vs, id@, 0);
            }
            let e = elements.remove(i);
            proof {
                lemma_layouts_view(elements@);
                assert(layouts_view(elements@) =~= vs.remove(i as int));
            }
            return (elements, Some(e));
        },
        None => {},
    }
    let n = elements.len();
    let mut k: usize = 0;
    proof {
        assert(vs.take(0) + vs.subrange(0, n as int) =~= vs);
        assert(lift(vs.take(0), remove_below(vs.subrange(0, n as int), id@)) == remove_below(
            vs,
            id@,
        )) by {
            assert(vs.take(0) =~= Seq::<LayoutView>::empty());
            assert(vs.subrange(0, n as int) =~= vs);
            match remove_below(vs, id@) {
                Some((rest, f)) => {
                    assert(Seq::<LayoutView>::empty() + rest =~= rest);
                },
                None => {},
            }
        }
    }
    while k < n
        invariant
            n == elements@.len(),
            k <= n,
            old_elements == forest@,
            old_elements.len() == n,
            forall|m: int| k <= m < n ==> elements@[m] == old_elements[m],
            layouts_view(elements@) == vs,
            vs == layouts_view(old_elements),
            vs =~= old_elements.map_values(|e: LayoutElementAst| layout_view(e)),
            level_index(vs, id@) == -1,
            remove_spec(vs, id@) == remove_below(vs, id@),
            remove_below(vs, id@) == lift(
                vs.take(k as int),
                remove_below(vs.subrange(k as int, n as int), id@),
            ),
        decreases n - k,
    {
        let ghost tail = vs.subrange(k as int, n as int);
        proof {
            assert(tail[0] == vs[k as int]);
            assert(tail.subrange(1, tail.len() as int) =~= vs.subrange(k + 1, n as int));
            assert(vs[k as int] == layout_view(old_elements[k as int]));
            assert(decreases_to!(old_elements => old_elements[k as int]));
        }
        let ghost before = elements@;
        let e = elements.remove(k);
        proof {
            assert(e == old_elements[k as int]);
            assert(decreases_to!(old_elements => e));
        }
        let ghost e0 = e;
        let (e2, found) = match e {
            LayoutElementAst::Header { id: eid, children, span } => {
                proof {
                    assert(decreases_to!(old_elements => children@));
                }
                let (rest, found) = remove_owned(children, id);
                (LayoutElementAst::Header { id: eid, children: rest, span }, found)
            },
            LayoutElementAst::Section { id: eid, children, span } => {
                proof {
                    assert(decreases_to!(old_elements => children@));
                }
                let (rest, found) = remove_owned(children, id);
                (LayoutElementAst::Section { id: eid, children: rest, span }, found)
            },
            LayoutElementAst::Form { id: eid, inputs, span } => {
                proof {
                    assert(decreases_to!(old_elements => inputs@));
                }
                let (rest, found) = remove_owned(inputs, id);
                (LayoutElementAst::Form { id: eid, inputs: rest, span }, found)
            },
            other => (other, None),
        };
        proof {
            assert(match remove_in(e0@, id@) {
                Some((ks, f)) => e2@ == with_kids(e0@, ks) && (found matches Some(x) && x@ == f),
                None => e2@ == e0@ && found is None,
            });
        }
        elements.insert(k, e2);
        proof {
            assert(elements@ =~= before.update(k as int, e2));
            lemma_layouts_view(elements@);
            lemma_layouts_view(before);
        }
        if found.is_some() {
            proof {
                lemma_layouts_view(elements@);
                match remove_in(vs[k as int], id@) {
                    Some((ks, f)) => {
                        assert(tail.update(0, with_kids(vs[k as int], ks)) =~= vs.update(
                            k as int,
                            with_kids(vs[k as int], ks),
                        ).subrange(k as int, n as int));
                        assert(vs.take(k as int) + tail.update(0, with_kids(vs[k as int], ks))
                            =~= vs.update(k as int, with_kids(vs[k as int], ks)));
                        assert(layouts_view(elements@) =~= vs.update(
                            k as int,
                            with_kids(vs[k as int], ks),
                        ));
                    },
                    None => {},
                }
            }
            return (elements, found);
        }
        proof {
            assert(layouts_view(elements@) =~= vs);
            let r = remove_below(vs.subrange(k + 1, n as int), id@);
            assert(vs.take(k as int).push(vs[k as int]) =~= vs.take(k + 1));
            match r {
                Some((rest, f)) => {
                    assert(vs.take(k as int) + (seq![vs[k as int]] + rest) =~= vs.take(k + 1)
                        + rest);
                },
                None => {},
            }
        }
        k = k + 1;
    }
    proof {
        assert(vs.subrange(n as int, n as int) =~= Seq::<LayoutView>::empty());
    }
    (elements, None)
}

/// Takes the element with the id `id` out of `elements`: the first one at the top level if
/// there is one, else the first one found inside the elements, one after another.
pub fn remove_element(elements: &mut Vec<LayoutElementAst>, id: &str) -> (r: Option<
    LayoutElementAst,
>)
    ensures
        match remove_spec(layouts_view(old(elements)@), id@) {
            Some((rest, found)) => layouts_view(final(elements)@) == rest && (r matches Some(x)
                && x@ == found),
            None => layouts_view(final(elements)@) == layouts_view(old(elements)@) && r is None,
        },
{
    let mut taken: Vec<LayoutElementAst> = Vec::new();
    std::mem::swap(elements, &mut taken);
    let (rest, found) = remove_owned(taken, id);
    *elements = rest;
    found
}

/// What an edit returns: nothing, or a stable code and a reason.
pub type EditResult = Result<(), (&'static str, String)>;

/// The code and reason of a rejected edit, as character sequences.
pub open spec fn result_view(r: EditResult) -> Result<(), (Seq<char>, Seq<char>)> {
    match r {
        Ok(()) => Ok(()),
        Err((code, reason)) => Err((code@, reason@)),
    }
}

/// `v` can take new elements in `slot`: a header's or section's children, a form's inputs.
pub open spec fn slot_fits(v: LayoutView, slot: EditSlot) -> bool {
    match v {
        LayoutView::Header { .. } => slot == EditSlot::Children,
        LayoutView::Section { .. } => slot == EditSlot::Children,
        LayoutView::Form { .. } => slot == EditSlot::Inputs,
        _ => false,
    }
}

/// How the search for the parent `p` ends.
#[derive(Clone, Copy, Debug, PartialEq, Eq, Structural)]
pub enum Located {
    /// The parent was found and takes elements in the slot.
    Found,
    /// The first element at the top level with the id has no such slot.
    WrongSlot,
    /// No parent that takes elements in the slot was found.
    Missing,
}

/// The search for the parent `p`, in document order. A parent without the slot ends the
/// search at its own level; below the top level such an end is passed over.
pub open spec fn locate(vs: Seq<LayoutView>, p: Seq<char>, slot: EditSlot) -> Located
    decreases vs,
{
    if vs.len() == 0 {
        Located::Missing
    } else {
        let e = vs[0];
        proof {
            assert(decreases_to!(vs => vs[0]));
            assert(decreases_to!(vs => vs.subrange(1, vs.len() as int)));
        }
        if ident(e) == Some(p) {
            if slot_fits(e, slot) {
                Located::Found
            } else {
                Located::WrongSlot
            }
        } else {
            let inner = match e {
                LayoutView::Header { children, .. } => locate(children, p, slot),
                LayoutView::Section { children, .. } => locate(children, p, slot),
                LayoutView::Form { inputs, .. } => locate(inputs, p, slot),
                _ => Located::Missing,
            };
            if inner == Located::Found {
                Located::Found
            } else {
                locate(vs.subrange(1, vs.len() as int), p, slot)
            }
        }
    }
}

/// The list of elements that the search for `p` ends at.
pub open spec fn target(vs: Seq<LayoutView>, p: Seq<char>, slot: EditSlot) -> Seq<LayoutView>
    decreases vs,
{
    if vs.len() == 0 {
        Seq::empty()
    } else {
        let e = vs[0];
        proof {
            assert(decreases_to!(vs => vs[0]));
            assert(decreases_to!(vs => vs.subrange(1, vs.len() as int)));
        }
        if ident(e) == Some(p) {
            match kids(e) {
                Some(ks) => ks,
                None => Seq::empty(),
            }
        } else {
            match e {
                LayoutView::Header { children, .. } => if locate(children, p, slot)
                    == Located::Found {
                    target(children, p, slot)
                } else {
                    target(vs.subrange(1, vs.len() as int), p, slot)
                },
                LayoutView::Section { children, .. } => if locate(children, p, slot)
                    == Located::Found {
                    target(children, p, slot)
                } else {
                    target(vs.subrange(1, vs.len() as int), p, slot)
                },
                LayoutView::Form { inputs, .. } => if locate(inputs, p, slot) == Located::Found {
                    target(inputs, p, slot)
                } else {
                    target(vs.subrange(1, vs.len() as int), p, slot)
                },
                _ => target(vs.subrange(1, vs.len() as int), p, slot),
            }
        }
    }
}

/// `vs` with the list that the search for `p` ends at replaced by `t`.
pub open spec fn replace_target(
    vs: Seq<LayoutView>,
    p: Seq<char>,
    slot: EditSlot,
    t: Seq<LayoutView>,
) -> Seq<LayoutView>
    decreases vs,
{
    if vs.len() == 0 {
        vs
    } else {
        let e = vs[0];
        proof {
            assert(decreases_to!(vs => vs[0]));
            assert(decreases_to!(vs => vs.subrange(1, vs.len() as int)));
        }
        if ident(e) == Some(p) {
            vs.update(0, with_kids(e, t))
        } else {
            match e {
                LayoutView::Header { children, .. } => if locate(children, p, slot)
                    == Located::Found {
                    vs.update(0, with_kids(e, replace_target(children, p, slot, t)))
                } else {
                    seq![e] + replace_target(vs.subrange(1, vs.len() as int), p, slot, t)
                },
                LayoutView::Section { children, .. } => if locate(children, p, slot)
                    == Located::Found {
                    vs.update(0, with_kids(e, replace_target(children, p, slot, t)))
                } else {
                    seq![e] + replace_target(vs.subrange(1, vs.len() as int), p, slot, t)
                },
                LayoutView::Form { inputs, .. } => if locate(inputs, p, slot) == Located::Found {
                    vs.update(0, with_kids(e, replace_target(inputs, p, slot, t)))
                } else {
                    seq![e] + replace_target(vs.subrange(1, vs.len() as int), p, slot, t)
                },
                _ => seq![e] + replace_target(vs.subrange(1, vs.len() as int), p, slot, t),
            }
        }
    }
}

/// `new` placed into the list `t`: before the element with the id `before` at this level,
/// or last.
pub open spec fn place_spec(t: Seq<LayoutView>, before: Option<Seq<char>>, new: LayoutView) -> Result<
    Seq<LayoutView>,
    (Seq<char>, Seq<char>),
> {
    match before {
        None => Ok(t.push(new)),
        Some(b) => {
            let i = level_index(t, b);
            if 0 <= i < t.len() {
                Ok(t.insert(i, new))
            } else {
                Err(("RSPDL-EDIT-NOT-FOUND"@, "before element "@ + b + " not found"@))
            }
        },
    }
}

/// Inserting `new` under the parent `parent` (the top level when there is none), in `slot`,
/// before `before` or last.
pub open spec fn insert_spec(
    vs: Seq<LayoutView>,
    parent: Option<Seq<char>>,
    slot: EditSlot,
    before: Option<Seq<char>>,
    new: LayoutView,
) -> Result<Seq<LayoutView>, (Seq<char>, Seq<char>)> {
    match parent {
        Some(p) => match locate(vs, p, slot) {
            Located::Found => match place_spec(target(vs, p, slot), before, new) {
                Ok(t) => Ok(replace_target(vs, p, slot, t)),
                Err(e) => Err(e),
            },
            Located::WrongSlot => Err(("RSPDL-EDIT-SLOT"@, "invalid slot for "@ + p)),
            Located::Missing => Err(
                ("RSPDL-EDIT-NOT-FOUND"@, "parent element "@ + p + " not found"@),
            ),
        },
        None => if slot == EditSlot::Root {
            place_spec(vs, before, new)
        } else {
            Err(("RSPDL-EDIT-SLOT"@, "non-root slot needs parent"@))
        },
    }
}

pub open spec fn opt_str(o: Option<&str>) -> Option<Seq<char>> {
    match o {
        Some(s) => Some(s@),
        None => None,
    }
}

fn locate_parent(elements: &[LayoutElementAst], p: &str, slot: EditSlot) -> (r: Located)
    ensures
        r == locate(layouts_view(elements@), p@, slot),
    decreases elements@,
{
    let ghost vs = layouts_view(elements@);
    proof {
        lemma_layouts_view(elements@);
        assert(vs.subrange(0, vs.len() as int) =~= vs);
    }
    let n = elements.len();
    let mut i: usize = 0;
    while i < n
        invariant
            n == elements@.len(),
            i <= n,
            vs == layouts_view(elements@),
            vs =~= elements@.map_values(|e: LayoutElementAst| layout_view(e)),
            locate(vs, p@, slot) == locate(vs.subrange(i as int, n as int), p@, slot),
        decreases n - i,
    {
        let e = &elements[i];
        proof {
            let rest = vs.subrange(i as int, n as int);
            assert(rest[0] == vs[i as int]);
            assert(rest.subrange(1, rest.len() as int) =~= vs.subrange(i + 1, n as int));
            assert(vs[i as int] == layout_view(elements@[i as int]));
            assert(decreases_to!(elements@ => elements@[i as int]));
        }
        if has_id(e, p) {
            let fits = match e {
                LayoutElementAst::Header { .. } => slot == EditSlot::Children,
                LayoutElementAst::Section { .. } => slot == EditSlot::Children,
                LayoutElementAst::Form { .. } => slot == EditSlot::Inputs,
                _ => false,
            };
            return if fits {
                Located::Found
            } else {
                Located::WrongSlot
            };
        }
        let inner = match e {
            LayoutElementAst::Header { children, .. } => locate_parent(children.as_slice(), p, slot),
            LayoutElementAst::Section { children, .. } => locate_parent(
                children.as_slice(),
                p,
                slot,
            ),
            LayoutElementAst::Form { inputs, .. } => locate_parent(inputs.as_slice(), p, slot),
            _ => Located::Missing,
        };
        if inner == Located::Found {
            return Located::Found;
        }
        i = i + 1;
    }
    Located::Missing
}

fn text_of(s: &str) -> (r: String)
    ensures
        r@ == s@,
{
    String::from_str(s)
}

fn place(t: &mut Vec<LayoutElementAst>, before: Option<&str>, element: LayoutElementAst) -> (r:
    EditResult)
    ensures
        match place_spec(layouts_view(old(t)@), opt_str(before), element@) {
            Ok(t2) => r is Ok && layouts_view(final(t)@) == t2,
            Err(e) => result_view(r) == Err::<(), (Seq<char>, Seq<char>)>(e) && final(t)@ == old(
                t,
            )@,
        },
{
    let ghost before_t = t@;
    proof {
        lemma_layouts_view(t@);
    }
    match before {
        None => {
            t.push(element);
            proof {
                lemma_layouts_view(t@);
                assert(layouts_view(t@) =~= layouts_view(before_t).push(element@));
            }
            Ok(())
        },
        Some(b) => match level_position(t.as_slice(), b) {
            Some(i) => {
                proof {
                    lemma_level_index_from(layouts_view(before_t), b@, 0);
                }
                t.insert(i, element);
                proof {
                    lemma_layouts_view(t@);
                    assert(layouts_view(t@) =~= layouts_view(before_t).insert(i as int, element@));
                }
                Ok(())
            },
            None => {
                let mut reason = text_of("before element ");
                reason.append(b);
                reason.append(" not found");
                Err(("RSPDL-EDIT-NOT-FOUND", reason))
            },
        },
    }
}

fn insert_at_target(
    forest: Vec<LayoutElementAst>,
    p: &str,
    slot: EditSlot,
    before: Option<&str>,
    element: LayoutElementAst,
) -> (r: (Vec<LayoutElementAst>, EditResult))
    requires
        locate(layouts_view(forest@), p@, slot) == Located::Found,
    ensures
        match place_spec(target(layouts_view(forest@), p@, slot), opt_str(before), element@) {
            Ok(t2) => r.1 is Ok && layouts_view(r.0@) == replace_target(
                layouts_view(forest@),
                p@,
                slot,
                t2,
            ),
            Err(e) => result_view(r.1) == Err::<(), (Seq<char>, Seq<char>)>(e) && layouts_view(
                r.0@,
            ) == layouts_view(forest@),
        },
    decreases forest@,
{
    let ghost old_elements = forest@;
    let ghost vs = layouts_view(forest@);
    proof {
        lemma_layouts_view(forest@);
        assert(vs.subrange(0, vs.len() as int) =~= vs);
        assert forall|t: Seq<LayoutView>| #[trigger]
            replace_target(vs, p@, slot, t) == vs.take(0) + replace_target(
                vs.subrange(0, vs.len() as int),
                p@,
                slot,
                t,
            ) by {
            assert(vs.take(0) + replace_target(vs, p@, slot, t) =~= replace_target(vs, p@, slot, t));
        }
    }
    let mut elements = forest;
    let n = elements.len();
    let mut k: usize = 0;
    while k < n
        invariant
            old_elements == forest@,
            n == elements@.len(),
            k <= n,
            elements@ == old_elements,
            vs == layouts_view(old_elements),
            vs =~= old_elements.map_values(|e: LayoutElementAst| layout_view(e)),
            locate(vs.subrange(k as int, n as int), p@, slot) == Located::Found,
            target(vs, p@, slot) == target(vs.subrange(k as int, n as int), p@, slot),
            forall|t: Seq<LayoutView>| #[trigger]
                replace_target(vs, p@, slot, t) == vs.take(k as int) + replace_target(
                    vs.subrange(k as int, n as int),
                    p@,
                    slot,
                    t,
                ),
        decreases n - k,
    {
        let ghost tail = vs.subrange(k as int, n as int);
        let ghost e0 = vs[k as int];
        proof {
            assert(tail[0] == e0);
            assert(tail.subrange(1, tail.len() as int) =~= vs.subrange(k + 1, n as int));
            assert(e0 == layout_view(old_elements[k as int]));
        }
        if has_id(&elements[k], p) {
            let ghost before_elements = elements@;
            let e = elements.remove(k);
            let (e2, res) = match e {
                LayoutElementAst::Header { id: eid, mut children, span } => {
                    let res = place(&mut children, before, element);
                    (LayoutElementAst::Header { id: eid, children, span }, res)
                },
                LayoutElementAst::Section { id: eid, mut children, span } => {
                    let res = place(&mut children, before, element);
                    (LayoutElementAst::Section { id: eid, children, span }, res)
                },
                LayoutElementAst::Form { id: eid, mut inputs, span } => {
                    let res = place(&mut inputs, before, element);
                    (LayoutElementAst::Form { id: eid, inputs, span }, res)
                },
                other => {
                    proof {
                        assert(!slot_fits(e0, slot));
                        assert(false);
                    }
                    (other, Ok(()))
                },
            };
            elements.insert(k, e2);
            proof {
                assert(elements@ =~= before_elements.update(k as int, e2));
                lemma_layouts_view(elements@);
                match place_spec(target(vs, p@, slot), opt_str(before), element@) {
                    Ok(t2) => {
                        assert(tail.update(0, with_kids(e0, t2)) =~= vs.update(
                            k as int,
                            with_kids(e0, t2),
                        ).subrange(k as int, n as int));
                        assert(vs.take(k as int) + tail.update(0, with_kids(e0, t2)) =~= vs.update(
                            k as int,
                            with_kids(e0, t2),
                        ));
                        assert(layouts_view(elements@) =~= vs.update(k as int, with_kids(e0, t2)));
                    },
                    Err(_) => {
                        assert(layouts_view(elements@) =~= vs);
                    },
                }
            }
            return (elements, res);
        }
        let inner_found = match &elements[k] {
            LayoutElementAst::Header { children, .. } => locate_parent(children.as_slice(), p, slot)
                == Located::Found,
            LayoutElementAst::Section { children, .. } => locate_parent(
                children.as_slice(),
                p,
                slot,
            ) == Located::Found,
            LayoutElementAst::Form { inputs, .. } => locate_parent(inputs.as_slice(), p, slot)
                == Located::Found,
            _ => false,
        };
        if inner_found {
            let ghost before_elements = elements@;
            let e = elements.remove(k);
            proof {
                assert(e == old_elements[k as int]);
            }
            let (e2, res) = match e {
                LayoutElementAst::Header { id: eid, children, span } => {
                    proof {
                        assert(decreases_to!(old_elements => children@));
                    }
                    let (c2, res) = insert_at_target(children, p, slot, before, element);
                    (LayoutElementAst::Header { id: eid, children: c2, span }, res)
                },
                LayoutElementAst::Section { id: eid, children, span } => {
                    proof {
                        assert(decreases_to!(old_elements => children@));
                    }
                    let (c2, res) = insert_at_target(children, p, slot, before, element);
                    (LayoutElementAst::Section { id: eid, children: c2, span }, res)
                },
                LayoutElementAst::Form { id: eid, inputs, span } => {
                    proof {
                        assert(decreases_to!(old_elements => inputs@));
                    }
                    let (c2, res) = insert_at_target(inputs, p, slot, before, element);
                    (LayoutElementAst::Form { id: eid, inputs: c2, span }, res)
                },
                other => {
                    proof {
                        assert(false);
                    }
                    (other, Ok(()))
                },
            };
            elements.insert(k, e2);
            proof {
                assert(elements@ =~= before_elements.update(k as int, e2));
                lemma_layouts_view(elements@);
                let ks = kids(e0)->0;
                match place_spec(target(vs, p@, slot), opt_str(before), element@) {
                    Ok(t2) => {
                        let e1 = with_kids(e0, replace_target(ks, p@, slot, t2));
                        assert(vs.take(k as int) + tail.update(0, e1) =~= vs.update(k as int, e1));
                        assert(layouts_view(elements@) =~= vs.update(k as int, e1));
                    },
                    Err(_) => {
                        assert(layouts_view(elements@) =~= vs);
                    },
                }
            }
            return (elements, res);
        }
        proof {
            assert forall|t: Seq<LayoutView>| #[trigger]
                replace_target(vs, p@, slot, t) == vs.take(k + 1) + replace_target(
                    vs.subrange(k + 1, n as int),
                    p@,
                    slot,
                    t,
                ) by {
                let x = replace_target(vs.subrange(k + 1, n as int), p@, slot, t);
                assert(replace_target(vs, p@, slot, t) == vs.take(k as int) + replace_target(
                    tail,
                    p@,
                    slot,
                    t,
                ));
                assert(vs.take(k as int) + (seq![e0] + x) =~= vs.take(k + 1) + x);
            }
        }
        k = k + 1;
    }
    proof {
        assert(vs.subrange(n as int, n as int) =~= Seq::<LayoutView>::empty());
    }
    (elements, Ok(()))
}

/// Inserts `element` under the element `parent` (at the top level when there is none), in
/// `slot`, before the element `before` at that level or last.
pub fn insert(
    elements: &mut Vec<LayoutElementAst>,
    parent: Option<&str>,
    slot: EditSlot,
    before: Option<&str>,
    element: LayoutElementAst,
) -> (r: EditResult)
    ensures
        match insert_spec(
            layouts_view(old(elements)@),
            opt_str(parent),
            slot,
            opt_str(before),
            element@,
        ) {
            Ok(v2) => r is Ok && layouts_view(final(elements)@) == v2,
            Err(e) => result_view(r) == Err::<(), (Seq<char>, Seq<char>)>(e) && layouts_view(
                final(elements)@,
            ) == layouts_view(old(elements)@),
        },
{
    match parent {
        Some(p) => match locate_parent(elements.as_slice(), p, slot) {
            Located::Found => {
                let mut taken: Vec<LayoutElementAst> = Vec::new();
                std::mem::swap(elements, &mut taken);
                let (rest, res) = insert_at_target(taken, p, slot, before, element);
                *elements = rest;
                res
            },
            Located::WrongSlot => {
                let mut reason = text_of("invalid slot for ");
                reason.append(p);
                Err(("RSPDL-EDIT-SLOT", reason))
            },
            Located::Missing => {
                let mut reason = text_of("parent element ");
                reason.append(p);
                reason.append(" not found");
                Err(("RSPDL-EDIT-NOT-FOUND", reason))
            },
        },
        None => {
            if slot == EditSlot::Root {
                place(elements, before, element)
            } else {
                Err(("RSPDL-EDIT-SLOT", text_of("non-root slot needs parent")))
            }
        },
    }
}

/// What an [`EditPatch`] sets, with its strings as character sequences.
pub struct PatchView {
    pub text: Option<Seq<char>>,
    pub field_id: Option<Seq<char>>,
    pub model_id: Option<Seq<char>>,
    pub field_ids: Option<Seq<Seq<char>>>,
    pub name: Option<Seq<char>>,
    pub action_id: Option<Seq<char>>,
    pub clear_action: bool,
}

pub open spec fn strings_view(v: Seq<String>) -> Seq<Seq<char>> {
    v.map_values(|s: String| s@)
}

pub open spec fn opt_strings(o: Option<Vec<String>>) -> Option<Seq<Seq<char>>> {
    match o {
        Some(v) => Some(strings_view(v@)),
        None => None,
    }
}

impl View for EditPatch {
    type V = PatchView;

    open spec fn view(&self) -> PatchView {
        PatchView {
            text: opt_text(self.text),
            field_id: opt_text(self.field_id),
            model_id: opt_text(self.model_id),
            field_ids: opt_strings(self.field_ids),
            name: opt_text(self.name),
            action_id: opt_text(self.action_id),
            clear_action: self.clear_action,
        }
    }
}

/// A reference written by an edit: the text, at no position of the source.
pub open spec fn reference_view(s: Seq<char>) -> RefView {
    RefView { text: s, span: Span { start: 0, end: 0 } }
}

pub open spec fn refs_of(ts: Seq<Seq<char>>) -> Seq<RefView> {
    ts.map_values(|t: Seq<char>| reference_view(t))
}

pub open spec fn ref_texts(rs: Seq<RefView>) -> Seq<Seq<char>> {
    rs.map_values(|r: RefView| r.text)
}

pub open spec fn patch_is_empty(pv: PatchView) -> bool {
    pv.text is None && pv.field_id is None && pv.model_id is None && pv.field_ids is None
        && pv.name is None && pv.action_id is None && !pv.clear_action
}

pub open spec fn invalid_patch_view() -> Result<(), (Seq<char>, Seq<char>)> {
    Err(
        (
            "RSPDL-EDIT-PATCH"@,
            "patch contains properties unsupported by this element kind"@,
        ),
    )
}

pub open spec fn unchanged_patch_view() -> Result<(), (Seq<char>, Seq<char>)> {
    Err(("RSPDL-EDIT-UNCHANGED"@, "update does not change the element"@))
}

/// The element after an update, and whether the update was accepted. A list or a button
/// takes the values it was given even when they change nothing.
pub open spec fn update_spec(v: LayoutView, pv: PatchView) -> (
    LayoutView,
    Result<(), (Seq<char>, Seq<char>)>,
) {
    if patch_is_empty(pv) {
        (v, Err(("RSPDL-EDIT-UNCHANGED"@, "update patch is empty"@)))
    } else {
        match v {
            LayoutView::Heading { id, text, span } => if pv.field_id is Some || pv.model_id is Some
                || pv.field_ids is Some || pv.name is Some || pv.action_id is Some
                || pv.clear_action {
                (v, invalid_patch_view())
            } else {
                match pv.text {
                    None => (v, invalid_patch_view()),
                    Some(t) => if t == text {
                        (v, unchanged_patch_view())
                    } else {
                        (LayoutView::Heading { id, text: t, span }, Ok(()))
                    },
                }
            },
            LayoutView::Placeholder { id, text, span } => if pv.field_id is Some || pv.model_id
                is Some || pv.field_ids is Some || pv.name is Some || pv.action_id is Some
                || pv.clear_action {
                (v, invalid_patch_view())
            } else {
                match pv.text {
                    None => (v, invalid_patch_view()),
                    Some(t) => if t == text {
                        (v, unchanged_patch_view())
                    } else {
                        (LayoutView::Placeholder { id, text: t, span }, Ok(()))
                    },
                }
            },
            LayoutView::Input { id, field, span } => if pv.text is Some || pv.model_id is Some
                || pv.field_ids is Some || pv.name is Some || pv.action_id is Some
                || pv.clear_action {
                (v, invalid_patch_view())
            } else {
                match pv.field_id {
                    None => (v, invalid_patch_view()),
                    Some(f) => if field.text == f {
                        (v, unchanged_patch_view())
                    } else {
                        (LayoutView::Input { id, field: reference_view(f), span }, Ok(()))
                    },
                }
            },
            LayoutView::List { id, model, fields, span } => if pv.text is Some || pv.field_id
                is Some || pv.name is Some || pv.action_id is Some || pv.clear_action {
                (v, invalid_patch_view())
            } else {
                let model2 = match pv.model_id {
                    Some(m) => reference_view(m),
                    None => model,
                };
                let fields2 = match pv.field_ids {
                    Some(fs) => refs_of(fs),
                    None => fields,
                };
                let changed = (match pv.model_id {
                    Some(m) => model.text != m,
                    None => false,
                }) || (match pv.field_ids {
                    Some(fs) => ref_texts(fields) != fs,
                    None => false,
                });
                (
                    LayoutView::List { id, model: model2, fields: fields2, span },
                    if changed {
                        Ok(())
                    } else {
                        unchanged_patch_view()
                    },
                )
            },
            LayoutView::Button { id, name, action, span } => if pv.text is Some || pv.field_id
                is Some || pv.model_id is Some || pv.field_ids is Some || (pv.action_id is Some
                && pv.clear_action) {
                (v, invalid_patch_view())
            } else {
                let name2 = match pv.name {
                    Some(n) => n,
                    None => name,
                };
                let action2 = if pv.clear_action {
                    None
                } else {
                    match pv.action_id {
                        Some(a) => Some(reference_view(a)),
                        None => action,
                    }
                };
                let changed = (match pv.name {
                    Some(n) => name != n,
                    None => false,
                }) || (match pv.action_id {
                    Some(a) => match action {
                        Some(r) => r.text != a,
                        None => true,
                    },
                    None => false,
                }) || (pv.clear_action && action is Some);
                (
                    LayoutView::Button { id, name: name2, action: action2, span },
                    if changed {
                        Ok(())
                    } else {
                        unchanged_patch_view()
                    },
                )
            },
            _ => (
                v,
                Err(("RSPDL-EDIT-PATCH"@, "element kind has no editable scalar properties"@)),
            ),
        }
    }
}

/// A reference to `value`, at no position of the source.
pub fn reference(value: &str) -> (r: FrontmatterRefAst)
    ensures
        r@ == reference_view(value@),
{
    FrontmatterRefAst { text: text_of(value), span: Span { start: 0, end: 0 } }
}

fn references(values: &Vec<String>) -> (r: Vec<FrontmatterRefAst>)
    ensures
        refs_view(r@) == refs_of(strings_view(values@)),
{
    let mut out: Vec<FrontmatterRefAst> = Vec::new();
    let mut i: usize = 0;
    while i < values.len()
        invariant
            i <= values@.len(),
            out@.len() == i,
            forall|j: int| 0 <= j < i ==> #[trigger] out@[j]@ == reference_view(values@[j]@),
        decreases values@.len() - i,
    {
        out.push(reference(values[i].as_str()));
        i = i + 1;
    }
    proof {
        assert(refs_view(out@) =~= refs_of(strings_view(values@)));
    }
    out
}

fn texts_differ(fields: &Vec<FrontmatterRefAst>, values: &Vec<String>) -> (b: bool)
    ensures
        b == (ref_texts(refs_view(fields@)) != strings_view(values@)),
{
    if fields.len() != values.len() {
        proof {
            assert(ref_texts(refs_view(fields@)).len() != strings_view(values@).len());
        }
        return true;
    }
    let mut i: usize = 0;
    while i < fields.len()
        invariant
            fields@.len() == values@.len(),
            i <= fields@.len(),
            forall|j: int| 0 <= j < i ==> fields@[j].text@ == values@[j]@,
        decreases fields@.len() - i,
    {
        if !str_eq(fields[i].text.as_str(), values[i].as_str()) {
            proof {
                assert(ref_texts(refs_view(fields@))[i as int] != strings_view(values@)[i as int]);
            }
            return true;
        }
        i = i + 1;
    }
    proof {
        assert(ref_texts(refs_view(fields@)) =~= strings_view(values@));
    }
    false
}

fn invalid_patch() -> (r: EditResult)
    ensures
        result_view(r) == invalid_patch_view(),
{
    Err(("RSPDL-EDIT-PATCH", text_of("patch contains properties unsupported by this element kind")))
}

fn unchanged_patch() -> (r: EditResult)
    ensures
        result_view(r) == unchanged_patch_view(),
{
    Err(("RSPDL-EDIT-UNCHANGED", text_of("update does not change the element")))
}

fn updated(e: LayoutElementAst, patch: &EditPatch) -> (r: (LayoutElementAst, EditResult))
    ensures
        r.0@ == update_spec(e@, patch@).0,
        result_view(r.1) == update_spec(e@, patch@).1,
{
    if patch.text.is_none() && patch.field_id.is_none() && patch.model_id.is_none()
        && patch.field_ids.is_none() && patch.name.is_none() && patch.action_id.is_none()
        && !patch.clear_action {
        return (e, Err(("RSPDL-EDIT-UNCHANGED", text_of("update patch is empty"))));
    }
    match e {
        LayoutElementAst::Heading { id, text, span } => {
            if patch.field_id.is_some() || patch.model_id.is_some() || patch.field_ids.is_some()
                || patch.name.is_some() || patch.action_id.is_some() || patch.clear_action {
                return (LayoutElementAst::Heading { id, text, span }, invalid_patch());
            }
            match &patch.text {
                None => (LayoutElementAst::Heading { id, text, span }, invalid_patch()),
                Some(value) => if str_eq(text.as_str(), value.as_str()) {
                    (LayoutElementAst::Heading { id, text, span }, unchanged_patch())
                } else {
                    (LayoutElementAst::Heading { id, text: text_of(value.as_str()), span }, Ok(()))
                },
            }
        },
        LayoutElementAst::Placeholder { id, text, span } => {
            if patch.field_id.is_some() || patch.model_id.is_some() || patch.field_ids.is_some()
                || patch.name.is_some() || patch.action_id.is_some() || patch.clear_action {
                return (LayoutElementAst::Placeholder { id, text, span }, invalid_patch());
            }
            match &patch.text {
                None => (LayoutElementAst::Placeholder { id, text, span }, invalid_patch()),
                Some(value) => if str_eq(text.as_str(), value.as_str()) {
                    (LayoutElementAst::Placeholder { id, text, span }, unchanged_patch())
                } else {
                    (
                        LayoutElementAst::Placeholder { id, text: text_of(value.as_str()), span },
                        Ok(()),
                    )
                },
            }
        },
        LayoutElementAst::Input { id, field, span } => {
            if patch.text.is_some() || patch.model_id.is_some() || patch.field_ids.is_some()
                || patch.name.is_some() || patch.action_id.is_some() || patch.clear_action {
                return (LayoutElementAst::Input { id, field, span }, invalid_patch());
            }
            match &patch.field_id {
                None => (LayoutElementAst::Input { id, field, span }, invalid_patch()),
                Some(value) => if str_eq(field.text.as_str(), value.as_str()) {
                    (LayoutElementAst::Input { id, field, span }, unchanged_patch())
                } else {
                    (
                        LayoutElementAst::Input { id, field: reference(value.as_str()), span },
                        Ok(()),
                    )
                },
            }
        },
        LayoutElementAst::List { id, model, fields, span } => {
            if patch.text.is_some() || patch.field_id.is_some() || patch.name.is_some()
                || patch.action_id.is_some() || patch.clear_action {
                return (LayoutElementAst::List { id, model, fields, span }, invalid_patch());
            }
            let mut changed = false;
            let mut model = model;
            let mut fields = fields;
            match &patch.model_id {
                Some(value) => {
                    if !str_eq(model.text.as_str(), value.as_str()) {
                        changed = true;
                    }
                    model = reference(value.as_str());
                },
                None => {},
            }
            match &patch.field_ids {
                Some(values) => {
                    if texts_differ(&fields, values) {
                        changed = true;
                    }
                    fields = references(values);
                },
                None => {},
            }
            let res = if changed {
                Ok(())
            } else {
                unchanged_patch()
            };
            (LayoutElementAst::List { id, model, fields, span }, res)
        },
        LayoutElementAst::Button { id, name, action, span } => {
            if patch.text.is_some() || patch.field_id.is_some() || patch.model_id.is_some()
                || patch.field_ids.is_some() || (patch.action_id.is_some() && patch.clear_action) {
                return (LayoutElementAst::Button { id, name, action, span }, invalid_patch());
            }
            let mut changed = false;
            let mut name = name;
            let mut action = action;
            match &patch.name {
                Some(value) => {
                    if !str_eq(name.as_str(), value.as_str()) {
                        changed = true;
                    }
                    name = text_of(value.as_str());
                },
                None => {},
            }
            match &patch.action_id {
                Some(value) => {
                    let same = match &action {
                        Some(r) => str_eq(r.text.as_str(), value.as_str()),
                        None => false,
                    };
                    if !same {
                        changed = true;
                    }
                    action = Some(reference(value.as_str()));
                },
                None => {},
            }
            if patch.clear_action {
                if action.is_some() {
                    changed = true;
                }
                action = None;
            }
            let res = if changed {
                Ok(())
            } else {
                unchanged_patch()
            };
            (LayoutElementAst::Button { id, name, action, span }, res)
        },
        other => (
            other,
            Err(("RSPDL-EDIT-PATCH", text_of("element kind has no editable scalar properties"))),
        ),
    }
}

/// Applies `patch` to `element`.
pub fn update_element(element: &mut LayoutElementAst, patch: &EditPatch) -> (r: EditResult)
    ensures
        final(element)@ == update_spec(old(element)@, patch@).0,
        result_view(r) == update_spec(old(element)@, patch@).1,
{
    let mut taken = LayoutElementAst::Placeholder {
        id: None,
        text: String::new(),
        span: Span { start: 0, end: 0 },
    };
    std::mem::swap(element, &mut taken);
    let (e2, res) = updated(taken, patch);
    *element = e2;
    res
}

/// The id a new element is given.
pub open spec fn edit_id(e: EditElement) -> Seq<char> {
    match e {
        EditElement::Header { id } => id@,
        EditElement::Section { id } => id@,
        EditElement::Form { id } => id@,
        EditElement::Heading { id, .. } => id@,
        EditElement::Input { id, .. } => id@,
        EditElement::List { id, .. } => id@,
        EditElement::Button { id, .. } => id@,
        EditElement::Placeholder { id, .. } => id@,
    }
}

/// The layout element a new element becomes: no children yet, at no position.
pub open spec fn edit_view(e: EditElement) -> LayoutView {
    let none = Span { start: 0, end: 0 };
    match e {
        EditElement::Header { id } => LayoutView::Header {
            id: Some(id@),
            children: Seq::empty(),
            span: none,
        },
        EditElement::Section { id } => LayoutView::Section {
            id: Some(id@),
            children: Seq::empty(),
            span: none,
        },
        EditElement::Form { id } => LayoutView::Form {
            id: Some(id@),
            inputs: Seq::empty(),
            span: none,
        },
        EditElement::Heading { id, text } => LayoutView::Heading {
            id: Some(id@),
            text: text@,
            span: none,
        },
        EditElement::Input { id, field_id } => LayoutView::Input {
            id: Some(id@),
            field: reference_view(field_id@),
            span: none,
        },
        EditElement::List { id, model_id, field_ids } => LayoutView::List {
            id: Some(id@),
            model: reference_view(model_id@),
            fields: refs_of(strings_view(field_ids@)),
            span: none,
        },
        EditElement::Button { id, name, action_id } => LayoutView::Button {
            id: id@,
            name: name@,
            action: match action_id {
                Some(a) => Some(reference_view(a@)),
                None => None,
            },
            span: none,
        },
        EditElement::Placeholder { id, text } => LayoutView::Placeholder {
            id: Some(id@),
            text: text@,
            span: none,
        },
    }
}

/// The id of a new element.
pub fn element_id_of_edit(element: &EditElement) -> (r: &str)
    ensures
        r@ == edit_id(*element),
{
    match element {
        EditElement::Header { id } => id.as_str(),
        EditElement::Section { id } => id.as_str(),
        EditElement::Form { id } => id.as_str(),
        EditElement::Heading { id, .. } => id.as_str(),
        EditElement::Input { id, .. } => id.as_str(),
        EditElement::List { id, .. } => id.as_str(),
        EditElement::Button { id, .. } => id.as_str(),
        EditElement::Placeholder { id, .. } => id.as_str(),
    }
}

/// The layout element that a new element becomes.
pub fn to_ast(element: EditElement) -> (r: LayoutElementAst)
    ensures
        r@ == edit_view(element),
{
    let none = Span { start: 0, end: 0 };
    match element {
        EditElement::Header { id } => {
            let r = LayoutElementAst::Header { id: Some(id), children: Vec::new(), span: none };
            proof {
                assert(layouts_view(Seq::<LayoutElementAst>::empty()) =~= Seq::<LayoutView>::empty());
            }
            r
        },
        EditElement::Section { id } => {
            let r = LayoutElementAst::Section { id: Some(id), children: Vec::new(), span: none };
            proof {
                assert(layouts_view(Seq::<LayoutElementAst>::empty()) =~= Seq::<LayoutView>::empty());
            }
            r
        },
        EditElement::Form { id } => {
            let r = LayoutElementAst::Form { id: Some(id), inputs: Vec::new(), span: none };
            proof {
                assert(layouts_view(Seq::<LayoutElementAst>::empty()) =~= Seq::<LayoutView>::empty());
            }
            r
        },
        EditElement::Heading { id, text } => LayoutElementAst::Heading {
            id: Some(id),
            text,
            span: none,
        },
        EditElement::Input { id, field_id } => LayoutElementAst::Input {
            id: Some(id),
            field: reference(field_id.as_str()),
            span: none,
        },
        EditElement::List { id, model_id, field_ids } => LayoutElementAst::List {
            id: Some(id),
            model: reference(model_id.as_str()),
            fields: references(&field_ids),
            span: none,
        },
        EditElement::Button { id, name, action_id } => {
            let action = match action_id {
                Some(a) => Some(reference(a.as_str())),
                None => None,
            };
            LayoutElementAst::Button { id, name, action, span: none }
        },
        EditElement::Placeholder { id, text } => LayoutElementAst::Placeholder {
            id: Some(id),
            text,
            span: none,
        },
    }
}

/// Number of elements in the forest, at any depth.
pub open spec fn forest_size(vs: Seq<LayoutView>) -> nat
    decreases vs,
{
    if vs.len() == 0 {
        0
    } else {
        let e = vs[vs.len() - 1];
        proof {
            assert(decreases_to!(vs => vs[vs.len() - 1]));
            assert(decreases_to!(vs => vs.subrange(0, vs.len() - 1)));
        }
        let below: nat = match e {
            LayoutView::Header { children, .. } => forest_size(children),
            LayoutView::Section { children, .. } => forest_size(children),
            LayoutView::Form { inputs, .. } => forest_size(inputs),
            _ => 0,
        };
        forest_size(vs.subrange(0, vs.len() - 1)) + 1 + below
    }
}

pub proof fn lemma_count_le_size(vs: Seq<LayoutView>, x: Seq<char>)
    ensures
        count_spec(vs, x) <= forest_size(vs),
    decreases vs,
{
    if vs.len() > 0 {
        let e = vs[vs.len() - 1];
        assert(decreases_to!(vs => vs[vs.len() - 1]));
        lemma_count_le_size(vs.subrange(0, vs.len() - 1), x);
        match e {
            LayoutView::Header { children, .. } => lemma_count_le_size(children, x),
            LayoutView::Section { children, .. } => lemma_count_le_size(children, x),
            LayoutView::Form { inputs, .. } => lemma_count_le_size(inputs, x),
            _ => {},
        }
    }
}

/// Counting a forest made of two parts counts each part.
pub proof fn lemma_count_concat(a: Seq<LayoutView>, b: Seq<LayoutView>, x: Seq<char>)
    ensures
        count_spec(a + b, x) == count_spec(a, x) + count_spec(b, x),
    decreases b.len(),
{
    if b.len() == 0 {
        assert(a + b =~= a);
    } else {
        let ab = a + b;
        assert(ab.subrange(0, ab.len() - 1) =~= a + b.subrange(0, b.len() - 1));
        assert(ab[ab.len() - 1] == b[b.len() - 1]);
        lemma_count_concat(a, b.subrange(0, b.len() - 1), x);
    }
}

pub proof fn lemma_count_single(e: LayoutView, x: Seq<char>)
    ensures
        count_spec(seq![e], x) == here_count(e, x) + below_count(e, x),
{
    assert(seq![e].subrange(0, 0) =~= Seq::<LayoutView>::empty());
    assert(count_spec(Seq::<LayoutView>::empty(), x) == 0);
    assert(seq![e][0] == e);
}

proof fn lemma_count_front(vs: Seq<LayoutView>, x: Seq<char>)
    requires
        vs.len() > 0,
    ensures
        count_spec(vs, x) == here_count(vs[0], x) + below_count(vs[0], x) + count_spec(
            vs.subrange(1, vs.len() as int),
            x,
        ),
{
    assert(vs =~= seq![vs[0]] + vs.subrange(1, vs.len() as int));
    lemma_count_concat(seq![vs[0]], vs.subrange(1, vs.len() as int), x);
    lemma_count_single(vs[0], x);
}

/// An element found by id lies in the forest: what is below it is counted in the forest.
pub proof fn lemma_found_below(vs: Seq<LayoutView>, id: Seq<char>, x: Seq<char>)
    requires
        find_spec(vs, id) is Some,
    ensures
        below_count(find_spec(vs, id)->0, x) <= count_spec(vs, x),
        here_count(find_spec(vs, id)->0, x) + below_count(find_spec(vs, id)->0, x) <= count_spec(vs, x),
    decreases vs,
{
    let e = vs[0];
    assert(decreases_to!(vs => vs[0]));
    lemma_count_front(vs, x);
    if ident(e) != Some(id) {
        let inner = match e {
            LayoutView::Header { children, .. } => find_spec(children, id),
            LayoutView::Section { children, .. } => find_spec(children, id),
            LayoutView::Form { inputs, .. } => find_spec(inputs, id),
            _ => None,
        };
        if inner is Some {
            match e {
                LayoutView::Header { children, .. } => lemma_found_below(children, id, x),
                LayoutView::Section { children, .. } => lemma_found_below(children, id, x),
                LayoutView::Form { inputs, .. } => lemma_found_below(inputs, id, x),
                _ => {},
            }
        } else {
            lemma_found_below(vs.subrange(1, vs.len() as int), id, x);
        }
    }
}

/// An id that is counted is found.
pub proof fn lemma_counted_is_found(vs: Seq<LayoutView>, id: Seq<char>)
    requires
        count_spec(vs, id) > 0,
    ensures
        find_spec(vs, id) is Some,
        ident(find_spec(vs, id)->0) == Some(id),
    decreases vs,
{
    let e = vs[0];
    assert(decreases_to!(vs => vs[0]));
    lemma_count_front(vs, id);
    if ident(e) != Some(id) {
        let inner = match e {
            LayoutView::Header { children, .. } => find_spec(children, id),
            LayoutView::Section { children, .. } => find_spec(children, id),
            LayoutView::Form { inputs, .. } => find_spec(inputs, id),
            _ => None,
        };
        if below_count(e, id) > 0 {
            match e {
                LayoutView::Header { children, .. } => lemma_counted_is_found(children, id),
                LayoutView::Section { children, .. } => lemma_counted_is_found(children, id),
                LayoutView::Form { inputs, .. } => lemma_counted_is_found(inputs, id),
                _ => {},
            }
        } else if inner is None {
            lemma_counted_is_found(vs.subrange(1, vs.len() as int), id);
        } else {
            match e {
                LayoutView::Header { children, .. } => lemma_find_has_id(children, id),
                LayoutView::Section { children, .. } => lemma_find_has_id(children, id),
                LayoutView::Form { inputs, .. } => lemma_find_has_id(inputs, id),
                _ => {},
            }
        }
    }
}

/// What is found by id has that id.
pub proof fn lemma_find_has_id(vs: Seq<LayoutView>, id: Seq<char>)
    requires
        find_spec(vs, id) is Some,
    ensures
        ident(find_spec(vs, id)->0) == Some(id),
    decreases vs,
{
    let e = vs[0];
    assert(decreases_to!(vs => vs[0]));
    if ident(e) != Some(id) {
        let inner = match e {
            LayoutView::Header { children, .. } => find_spec(children, id),
            LayoutView::Section { children, .. } => find_spec(children, id),
            LayoutView::Form { inputs, .. } => find_spec(inputs, id),
            _ => None,
        };
        if inner is Some {
            match e {
                LayoutView::Header { children, .. } => lemma_find_has_id(children, id),
                LayoutView::Section { children, .. } => lemma_find_has_id(children, id),
                LayoutView::Form { inputs, .. } => lemma_find_has_id(inputs, id),
                _ => {},
            }
        } else {
            lemma_find_has_id(vs.subrange(1, vs.len() as int), id);
        }
    }
}

/// `<what> <id> matched <count> times`.
pub open spec fn matched_reason(what: Seq<char>, id: Seq<char>, count: nat) -> Seq<char> {
    what + " "@ + id + " matched "@ + decimal_spec(count) + " times"@
}

/// The id names exactly one element of the forest.
pub open spec fn unique_spec(vs: Seq<LayoutView>, id: Seq<char>, what: Seq<char>) -> Result<
    (),
    (Seq<char>, Seq<char>),
> {
    let c = count_spec(vs, id);
    if c == 1 {
        Ok(())
    } else if c == 0 {
        Err(("RSPDL-EDIT-NOT-FOUND"@, what + " "@ + id + " not found"@))
    } else {
        Err(("RSPDL-EDIT-AMBIGUOUS"@, matched_reason(what, id, c)))
    }
}

/// The element an edit names exists exactly once.
pub open spec fn target_check_spec(vs: Seq<LayoutView>, id: Seq<char>) -> Result<
    (),
    (Seq<char>, Seq<char>),
> {
    let c = count_spec(vs, id);
    if c == 1 {
        Ok(())
    } else {
        Err(
            (
                if c == 0 {
                    "RSPDL-EDIT-NOT-FOUND"@
                } else {
                    "RSPDL-EDIT-AMBIGUOUS"@
                },
                matched_reason("element"@, id, c),
            ),
        )
    }
}

/// The parent and the element to insert before each name exactly one element, and a slot
/// other than the top level has a parent.
pub open spec fn validate_insert_spec(
    vs: Seq<LayoutView>,
    parent: Option<Seq<char>>,
    slot: EditSlot,
    before: Option<Seq<char>>,
) -> Result<(), (Seq<char>, Seq<char>)> {
    let first = match parent {
        Some(p) => unique_spec(vs, p, "parent element"@),
        None => if slot == EditSlot::Root {
            Ok(())
        } else {
            Err(("RSPDL-EDIT-SLOT"@, "non-root slot needs parent"@))
        },
    };
    match first {
        Err(e) => Err(e),
        Ok(()) => match before {
            Some(b) => unique_spec(vs, b, "before element"@),
            None => Ok(()),
        },
    }
}

fn found_reason(what: &str, id: &str, count: usize) -> (r: String)
    ensures
        r@ == matched_reason(what@, id@, count as nat),
{
    let mut r = text_of(what);
    r.append(" ");
    r.append(id);
    r.append(" matched ");
    let n = decimal(count);
    r.append(n.as_str());
    r.append(" times");
    r
}

/// Checks that `id` names exactly one element.
pub fn require_unique(elements: &[LayoutElementAst], id: &str, what: &str) -> (r: EditResult)
    requires
        forest_size(layouts_view(elements@)) <= usize::MAX,
    ensures
        result_view(r) == unique_spec(layouts_view(elements@), id@, what@),
{
    proof {
        lemma_count_le_size(layouts_view(elements@), id@);
    }
    let count = count_elements(elements, id);
    if count == 1 {
        Ok(())
    } else if count == 0 {
        let mut reason = text_of(what);
        reason.append(" ");
        reason.append(id);
        reason.append(" not found");
        Err(("RSPDL-EDIT-NOT-FOUND", reason))
    } else {
        Err(("RSPDL-EDIT-AMBIGUOUS", found_reason(what, id, count)))
    }
}

fn check_target(elements: &[LayoutElementAst], id: &str) -> (r: EditResult)
    requires
        forest_size(layouts_view(elements@)) <= usize::MAX,
    ensures
        result_view(r) == target_check_spec(layouts_view(elements@), id@),
{
    proof {
        lemma_count_le_size(layouts_view(elements@), id@);
    }
    let count = count_elements(elements, id);
    if count == 1 {
        Ok(())
    } else {
        let code = if count == 0 {
            "RSPDL-EDIT-NOT-FOUND"
        } else {
            "RSPDL-EDIT-AMBIGUOUS"
        };
        Err((code, found_reason("element", id, count)))
    }
}

/// Checks where a new element would go before anything changes.
pub fn validate_insert_address(
    elements: &[LayoutElementAst],
    parent: Option<&str>,
    slot: EditSlot,
    before: Option<&str>,
) -> (r: EditResult)
    requires
        forest_size(layouts_view(elements@)) <= usize::MAX,
    ensures
        result_view(r) == validate_insert_spec(
            layouts_view(elements@),
            opt_str(parent),
            slot,
            opt_str(before),
        ),
{
    match parent {
        Some(p) => {
            let r = require_unique(elements, p, "parent element");
            if r.is_err() {
                return r;
            }
        },
        None => {
            if slot != EditSlot::Root {
                return Err(("RSPDL-EDIT-SLOT", text_of("non-root slot needs parent")));
            }
        },
    }
    match before {
        Some(b) => require_unique(elements, b, "before element"),
        None => Ok(()),
    }
}

/// How many elements below `element` have the id `id`.
pub fn count_elements_in(element: &LayoutElementAst, id: &str) -> (n: usize)
    requires
        below_count(element@, id@) <= usize::MAX,
    ensures
        n == below_count(element@, id@),
{
    match element {
        LayoutElementAst::Header { children, .. } => count_elements(children.as_slice(), id),
        LayoutElementAst::Section { children, .. } => count_elements(children.as_slice(), id),
        LayoutElementAst::Form { inputs, .. } => count_elements(inputs.as_slice(), id),
        _ => 0,
    }
}

/// Inserting a new element: its id must be new, the address must check out.
pub open spec fn insert_element_spec(
    vs: Seq<LayoutView>,
    new: EditElement,
    parent: Option<Seq<char>>,
    slot: EditSlot,
    before: Option<Seq<char>>,
) -> (Seq<LayoutView>, Result<(), (Seq<char>, Seq<char>)>) {
    insert_view_spec(vs, edit_id(new), edit_view(new), parent, slot, before)
}

/// Inserting the element `nv` with the id `id`.
pub open spec fn insert_view_spec(
    vs: Seq<LayoutView>,
    id: Seq<char>,
    nv: LayoutView,
    parent: Option<Seq<char>>,
    slot: EditSlot,
    before: Option<Seq<char>>,
) -> (Seq<LayoutView>, Result<(), (Seq<char>, Seq<char>)>) {
    if count_spec(vs, id) != 0 {
        (vs, Err(("RSPDL-EDIT-AMBIGUOUS"@, "inserted element id already exists"@)))
    } else {
        match validate_insert_spec(vs, parent, slot, before) {
            Err(e) => (vs, Err(e)),
            Ok(()) => match insert_spec(vs, parent, slot, before, nv) {
                Ok(v2) => (v2, Ok(())),
                Err(e) => (vs, Err(e)),
            },
        }
    }
}

/// Inserts a new element under `parent` (the top level when there is none), in `slot`,
/// before `before` or last.
pub fn insert_element(
    elements: &mut Vec<LayoutElementAst>,
    element: EditElement,
    parent: Option<&str>,
    slot: EditSlot,
    before: Option<&str>,
) -> (r: EditResult)
    requires
        forest_size(layouts_view(old(elements)@)) <= usize::MAX,
    ensures
        layouts_view(final(elements)@) == insert_element_spec(
            layouts_view(old(elements)@),
            element,
            opt_str(parent),
            slot,
            opt_str(before),
        ).0,
        result_view(r) == insert_element_spec(
            layouts_view(old(elements)@),
            element,
            opt_str(parent),
            slot,
            opt_str(before),
        ).1,
{
    proof {
        lemma_count_le_size(layouts_view(elements@), edit_id(element));
    }
    if count_elements(elements.as_slice(), element_id_of_edit(&element)) != 0 {
        return Err(("RSPDL-EDIT-AMBIGUOUS", text_of("inserted element id already exists")));
    }
    let r = validate_insert_address(elements.as_slice(), parent, slot, before);
    if r.is_err() {
        return r;
    }
    insert(elements, parent, slot, before, to_ast(element))
}

/// Deleting the element `id`: it must exist exactly once.
pub open spec fn delete_spec(vs: Seq<LayoutView>, id: Seq<char>) -> (
    Seq<LayoutView>,
    Result<(), (Seq<char>, Seq<char>)>,
) {
    match target_check_spec(vs, id) {
        Err(e) => (vs, Err(e)),
        Ok(()) => match remove_spec(vs, id) {
            Some((rest, _)) => (rest, Ok(())),
            None => (vs, Err(("RSPDL-EDIT-NOT-FOUND"@, "element "@ + id + " not found"@))),
        },
    }
}

fn not_found_element(id: &str) -> (r: EditResult)
    ensures
        result_view(r) == Err::<(), (Seq<char>, Seq<char>)>(
            ("RSPDL-EDIT-NOT-FOUND"@, "element "@ + id@ + " not found"@),
        ),
{
    let mut reason = text_of("element ");
    reason.append(id);
    reason.append(" not found");
    Err(("RSPDL-EDIT-NOT-FOUND", reason))
}

/// Deletes the element `id` with everything nested in it.
pub fn delete_element(elements: &mut Vec<LayoutElementAst>, id: &str) -> (r: EditResult)
    requires
        forest_size(layouts_view(old(elements)@)) <= usize::MAX,
    ensures
        layouts_view(final(elements)@) == delete_spec(layouts_view(old(elements)@), id@).0,
        result_view(r) == delete_spec(layouts_view(old(elements)@), id@).1,
{
    let r = check_target(elements.as_slice(), id);
    if r.is_err() {
        return r;
    }
    match remove_element(elements, id) {
        Some(_) => Ok(()),
        None => not_found_element(id),
    }
}

/// Moving the element `id` under `parent` (the top level when there is none), in `slot`,
/// before `before` or last. It is taken out first and then placed; a placement that fails
/// leaves it out.
pub open spec fn move_spec(
    vs: Seq<LayoutView>,
    id: Seq<char>,
    parent: Option<Seq<char>>,
    slot: EditSlot,
    before: Option<Seq<char>>,
) -> (Seq<LayoutView>, Result<(), (Seq<char>, Seq<char>)>) {
    match target_check_spec(vs, id) {
        Err(e) => (vs, Err(e)),
        Ok(()) => if before == Some(id) {
            (vs, Err(("RSPDL-EDIT-UNCHANGED"@, "cannot move an element before itself"@)))
        } else {
            let moving = find_spec(vs, id)->0;
            let parent_check = match parent {
                Some(p) => match unique_spec(vs, p, "parent element"@) {
                    Err(e) => Err(e),
                    Ok(()) => if ident(moving) == Some(p) || below_count(moving, p) != 0 {
                        Err(
                            (
                                "RSPDL-EDIT-SLOT"@,
                                "cannot move an element into itself or its descendant"@,
                            ),
                        )
                    } else {
                        Ok(())
                    },
                },
                None => Ok(()),
            };
            let before_check = match before {
                Some(b) => match unique_spec(vs, b, "before element"@) {
                    Err(e) => Err(e),
                    Ok(()) => if below_count(moving, b) != 0 {
                        Err(
                            (
                                "RSPDL-EDIT-SLOT"@,
                                "cannot place an element relative to its descendant"@,
                            ),
                        )
                    } else {
                        Ok(())
                    },
                },
                None => Ok(()),
            };
            if parent_check is Err {
                (vs, parent_check)
            } else if before_check is Err {
                (vs, before_check)
            } else {
                match remove_spec(vs, id) {
                    None => (vs, Err(("RSPDL-EDIT-NOT-FOUND"@, "element "@ + id + " not found"@))),
                    Some((rest, e)) => match insert_spec(rest, parent, slot, before, e) {
                        Ok(v2) => (v2, Ok(())),
                        Err(err) => (rest, Err(err)),
                    },
                }
            }
        },
    }
}

/// Moves the element `id` with everything nested in it.
pub fn move_element(
    elements: &mut Vec<LayoutElementAst>,
    id: &str,
    parent: Option<&str>,
    slot: EditSlot,
    before: Option<&str>,
) -> (r: EditResult)
    requires
        forest_size(layouts_view(old(elements)@)) <= usize::MAX,
    ensures
        layouts_view(final(elements)@) == move_spec(
            layouts_view(old(elements)@),
            id@,
            opt_str(parent),
            slot,
            opt_str(before),
        ).0,
        result_view(r) == move_spec(
            layouts_view(old(elements)@),
            id@,
            opt_str(parent),
            slot,
            opt_str(before),
        ).1,
{
    let ghost vs = layouts_view(elements@);
    let r = check_target(elements.as_slice(), id);
    if r.is_err() {
        return r;
    }
    let before_self = match before {
        Some(b) => str_eq(b, id),
        None => false,
    };
    if before_self {
        return Err(("RSPDL-EDIT-UNCHANGED", text_of("cannot move an element before itself")));
    }
    proof {
        lemma_counted_is_found(vs, id@);
    }
    match parent {
        Some(p) => {
            let r = require_unique(elements.as_slice(), p, "parent element");
            if r.is_err() {
                return r;
            }
            let moving = find_element(elements.as_slice(), id).unwrap();
            proof {
                lemma_found_below(vs, id@, p@);
                lemma_count_le_size(vs, p@);
            }
            if has_id(moving, p) || count_elements_in(moving, p) != 0 {
                return Err(
                    (
                        "RSPDL-EDIT-SLOT",
                        text_of("cannot move an element into itself or its descendant"),
                    ),
                );
            }
        },
        None => {},
    }
    match before {
        Some(b) => {
            let r = require_unique(elements.as_slice(), b, "before element");
            if r.is_err() {
                return r;
            }
            let moving = find_element(elements.as_slice(), id).unwrap();
            proof {
                lemma_found_below(vs, id@, b@);
                lemma_count_le_size(vs, b@);
            }
            if count_elements_in(moving, b) != 0 {
                return Err(
                    (
                        "RSPDL-EDIT-SLOT",
                        text_of("cannot place an element relative to its descendant"),
                    ),
                );
            }
        },
        None => {},
    }
    let element = match remove_element(elements, id) {
        Some(e) => e,
        None => {
            return not_found_element(id);
        },
    };
    insert(elements, parent, slot, before, element)
}

/// Applying `pv` to the element found by `id`, in document order.
pub open spec fn update_at(vs: Seq<LayoutView>, id: Seq<char>, pv: PatchView) -> (
    Seq<LayoutView>,
    Result<(), (Seq<char>, Seq<char>)>,
)
    decreases vs,
{
    if vs.len() == 0 {
        (vs, Ok(()))
    } else {
        let e = vs[0];
        proof {
            assert(decreases_to!(vs => vs[0]));
            assert(decreases_to!(vs => vs.subrange(1, vs.len() as int)));
        }
        if ident(e) == Some(id) {
            (vs.update(0, update_spec(e, pv).0), update_spec(e, pv).1)
        } else {
            match e {
                LayoutView::Header { children, .. } => if find_spec(children, id) is Some {
                    let (ks, r) = update_at(children, id, pv);
                    (vs.update(0, with_kids(e, ks)), r)
                } else {
                    let (rest, r) = update_at(vs.subrange(1, vs.len() as int), id, pv);
                    (seq![e] + rest, r)
                },
                LayoutView::Section { children, .. } => if find_spec(children, id) is Some {
                    let (ks, r) = update_at(children, id, pv);
                    (vs.update(0, with_kids(e, ks)), r)
                } else {
                    let (rest, r) = update_at(vs.subrange(1, vs.len() as int), id, pv);
                    (seq![e] + rest, r)
                },
                LayoutView::Form { inputs, .. } => if find_spec(inputs, id) is Some {
                    let (ks, r) = update_at(inputs, id, pv);
                    (vs.update(0, with_kids(e, ks)), r)
                } else {
                    let (rest, r) = update_at(vs.subrange(1, vs.len() as int), id, pv);
                    (seq![e] + rest, r)
                },
                _ => {
                    let (rest, r) = update_at(vs.subrange(1, vs.len() as int), id, pv);
                    (seq![e] + rest, r)
                },
            }
        }
    }
}

fn update_owned(forest: Vec<LayoutElementAst>, id: &str, patch: &EditPatch) -> (r: (
    Vec<LayoutElementAst>,
    EditResult,
))
    requires
        find_spec(layouts_view(forest@), id@) is Some,
    ensures
        layouts_view(r.0@) == update_at(layouts_view(forest@), id@, patch@).0,
        result_view(r.1) == update_at(layouts_view(forest@), id@, patch@).1,
    decreases forest@,
{
    let ghost old_elements = forest@;
    let ghost vs = layouts_view(forest@);
    proof {
        lemma_layouts_view(forest@);
        assert(vs.subrange(0, vs.len() as int) =~= vs);
        assert(vs.take(0) + update_at(vs, id@, patch@).0 =~= update_at(vs, id@, patch@).0);
    }
    let mut elements = forest;
    let n = elements.len();
    let mut k: usize = 0;
    while k < n
        invariant
            old_elements == forest@,
            n == elements@.len(),
            k <= n,
            elements@ == old_elements,
            vs == layouts_view(old_elements),
            vs =~= old_elements.map_values(|e: LayoutElementAst| layout_view(e)),
            find_spec(vs.subrange(k as int, n as int), id@) is Some,
            update_at(vs, id@, patch@).1 == update_at(vs.subrange(k as int, n as int), id@, patch@).1,
            update_at(vs, id@, patch@).0 == vs.take(k as int) + update_at(
                vs.subrange(k as int, n as int),
                id@,
                patch@,
            ).0,
        decreases n - k,
    {
        let ghost tail = vs.subrange(k as int, n as int);
        let ghost e0 = vs[k as int];
        proof {
            assert(tail[0] == e0);
            assert(tail.subrange(1, tail.len() as int) =~= vs.subrange(k + 1, n as int));
            assert(e0 == layout_view(old_elements[k as int]));
        }
        if has_id(&elements[k], id) {
            let ghost before_elements = elements@;
            let e = elements.remove(k);
            let (e2, res) = updated(e, patch);
            elements.insert(k, e2);
            proof {
                assert(elements@ =~= before_elements.update(k as int, e2));
                lemma_layouts_view(elements@);
                let e1 = update_spec(e0, patch@).0;
                assert(vs.take(k as int) + tail.update(0, e1) =~= vs.update(k as int, e1));
                assert(layouts_view(elements@) =~= vs.update(k as int, e1));
            }
            return (elements, res);
        }
        let inner_found = match &elements[k] {
            LayoutElementAst::Header { children, .. } => find_element(children.as_slice(), id)
                .is_some(),
            LayoutElementAst::Section { children, .. } => find_element(children.as_slice(), id)
                .is_some(),
            LayoutElementAst::Form { inputs, .. } => find_element(inputs.as_slice(), id).is_some(),
            _ => false,
        };
        if inner_found {
            let ghost before_elements = elements@;
            let e = elements.remove(k);
            proof {
                assert(e == old_elements[k as int]);
            }
            let (e2, res) = match e {
                LayoutElementAst::Header { id: eid, children, span } => {
                    proof {
                        assert(decreases_to!(old_elements => children@));
                    }
                    let (c2, res) = update_owned(children, id, patch);
                    (LayoutElementAst::Header { id: eid, children: c2, span }, res)
                },
                LayoutElementAst::Section { id: eid, children, span } => {
                    proof {
                        assert(decreases_to!(old_elements => children@));
                    }
                    let (c2, res) = update_owned(children, id, patch);
                    (LayoutElementAst::Section { id: eid, children: c2, span }, res)
                },
                LayoutElementAst::Form { id: eid, inputs, span } => {
                    proof {
                        assert(decreases_to!(old_elements => inputs@));
                    }
                    let (c2, res) = update_owned(inputs, id, patch);
                    (LayoutElementAst::Form { id: eid, inputs: c2, span }, res)
                },
                other => {
                    proof {
                        assert(false);
                    }
                    (other, Ok(()))
                },
            };
            elements.insert(k, e2);
            proof {
                assert(elements@ =~= before_elements.update(k as int, e2));
                lemma_layouts_view(elements@);
                let ks = kids(e0)->0;
                let e1 = with_kids(e0, update_at(ks, id@, patch@).0);
                assert(vs.take(k as int) + tail.update(0, e1) =~= vs.update(k as int, e1));
                assert(layouts_view(elements@) =~= vs.update(k as int, e1));
            }
            return (elements, res);
        }
        proof {
            let x = update_at(vs.subrange(k + 1, n as int), id@, patch@).0;
            assert(vs.take(k as int) + (seq![e0] + x) =~= vs.take(k + 1) + x);
        }
        k = k + 1;
    }
    proof {
        assert(vs.subrange(n as int, n as int) =~= Seq::<LayoutView>::empty());
    }
    (elements, Ok(()))
}

/// Updating the element `id`: it must exist exactly once.
pub open spec fn update_by_id_spec(vs: Seq<LayoutView>, id: Seq<char>, pv: PatchView) -> (
    Seq<LayoutView>,
    Result<(), (Seq<char>, Seq<char>)>,
) {
    match target_check_spec(vs, id) {
        Err(e) => (vs, Err(e)),
        Ok(()) => update_at(vs, id, pv),
    }
}

/// Applies `patch` to the element `id`.
pub fn update_element_by_id(
    elements: &mut Vec<LayoutElementAst>,
    id: &str,
    patch: &EditPatch,
) -> (r: EditResult)
    requires
        forest_size(layouts_view(old(elements)@)) <= usize::MAX,
    ensures
        layouts_view(final(elements)@) == update_by_id_spec(
            layouts_view(old(elements)@),
            id@,
            patch@,
        ).0,
        result_view(r) == update_by_id_spec(layouts_view(old(elements)@), id@, patch@).1,
{
    let r = check_target(elements.as_slice(), id);
    if r.is_err() {
        return r;
    }
    proof {
        lemma_counted_is_found(layouts_view(elements@), id@);
    }
    let mut taken: Vec<LayoutElementAst> = Vec::new();
    std::mem::swap(elements, &mut taken);
    let (rest, res) = update_owned(taken, id, patch);
    *elements = rest;
    res
}

proof fn lemma_zero_count_top(vs: Seq<LayoutView>, id: Seq<char>)
    requires
        count_spec(vs, id) == 0,
    ensures
        forall|j: int| 0 <= j < vs.len() ==> ident(#[trigger] vs[j]) != Some(id),
    decreases vs.len(),
{
    if vs.len() > 0 {
        let init = vs.subrange(0, vs.len() - 1);
        lemma_zero_count_top(init, id);
        assert forall|j: int| 0 <= j < vs.len() implies ident(#[trigger] vs[j]) != Some(id) by {
            if j < vs.len() - 1 {
                assert(vs[j] == init[j]);
            }
        }
    }
}

proof fn lemma_level_index_only(vs: Seq<LayoutView>, id: Seq<char>, i: int, k: int)
    requires
        0 <= k <= i < vs.len(),
        ident(vs[i]) == Some(id),
        forall|j: int| 0 <= j < vs.len() && j != i ==> ident(#[trigger] vs[j]) != Some(id),
    ensures
        level_index_from(vs, id, k) == i,
    decreases i - k,
{
    if k < i {
        lemma_level_index_only(vs, id, i, k + 1);
    }
}

proof fn lemma_new_element_shape(new: EditElement)
    ensures
        ident(edit_view(new)) == Some(edit_id(new)),
        forall|x: Seq<char>| below_count(edit_view(new), x) == 0,
{
    assert forall|x: Seq<char>| below_count(edit_view(new), x) == 0 by {
        assert(count_spec(Seq::<LayoutView>::empty(), x) == 0);
    }
}

proof fn lemma_count_remove_at(vs: Seq<LayoutView>, i: int, x: Seq<char>)
    requires
        0 <= i < vs.len(),
    ensures
        count_spec(vs, x) == count_spec(vs.remove(i), x) + here_count(vs[i], x) + below_count(
            vs[i],
            x,
        ),
{
    assert(vs =~= vs.take(i) + seq![vs[i]] + vs.skip(i + 1));
    assert(vs.remove(i) =~= vs.take(i) + vs.skip(i + 1));
    lemma_count_concat(vs.take(i) + seq![vs[i]], vs.skip(i + 1), x);
    lemma_count_concat(vs.take(i), seq![vs[i]], x);
    lemma_count_concat(vs.take(i), vs.skip(i + 1), x);
    lemma_count_single(vs[i], x);
}

proof fn lemma_with_kids(e: LayoutView, ks: Seq<LayoutView>, x: Seq<char>)
    requires
        kids(e) is Some,
    ensures
        ident(with_kids(e, ks)) == ident(e),
        kids(with_kids(e, ks)) == Some(ks),
        below_count(with_kids(e, ks), x) == count_spec(ks, x),
        here_count(with_kids(e, ks), x) == here_count(e, x),
{
}

/// Deleting an element takes out that element and what is nested in it, nothing else: every
/// id is counted as often as before, less its occurrences in what was taken out.
pub proof fn removal_takes_out_one_subtree(vs: Seq<LayoutView>, id: Seq<char>, x: Seq<char>)
    requires
        remove_spec(vs, id) is Some,
    ensures
        count_spec((remove_spec(vs, id)->0).0, x) + here_count((remove_spec(vs, id)->0).1, x)
            + below_count((remove_spec(vs, id)->0).1, x) == count_spec(vs, x),
    decreases vs, 1nat,
{
    let i = level_index(vs, id);
    if 0 <= i < vs.len() {
        lemma_count_remove_at(vs, i, x);
    } else {
        lemma_remove_below_counts(vs, id, x);
    }
}

proof fn lemma_remove_below_counts(vs: Seq<LayoutView>, id: Seq<char>, x: Seq<char>)
    requires
        remove_below(vs, id) is Some,
    ensures
        count_spec((remove_below(vs, id)->0).0, x) + here_count((remove_below(vs, id)->0).1, x)
            + below_count((remove_below(vs, id)->0).1, x) == count_spec(vs, x),
    decreases vs, 0nat,
{
    let e = vs[0];
    assert(decreases_to!(vs => vs[0]));
    let rest = vs.subrange(1, vs.len() as int);
    lemma_count_front(vs, x);
    let inner = match e {
        LayoutView::Header { children, .. } => remove_spec(children, id),
        LayoutView::Section { children, .. } => remove_spec(children, id),
        LayoutView::Form { inputs, .. } => remove_spec(inputs, id),
        _ => None,
    };
    match inner {
        Some((ks, found)) => {
            match e {
                LayoutView::Header { children, .. } => removal_takes_out_one_subtree(children, id, x),
                LayoutView::Section { children, .. } => removal_takes_out_one_subtree(children, id, x),
                LayoutView::Form { inputs, .. } => removal_takes_out_one_subtree(inputs, id, x),
                _ => {},
            }
            let v2 = vs.update(0, with_kids(e, ks));
            lemma_with_kids(e, ks, x);
            lemma_count_front(v2, x);
            assert(v2.subrange(1, v2.len() as int) =~= rest);
        },
        None => {
            lemma_remove_below_counts(rest, id, x);
            let (r2, found) = remove_below(rest, id)->0;
            lemma_count_concat(seq![e], r2, x);
            lemma_count_single(e, x);
        },
    }
}

proof fn lemma_update_keeps_shape(v: LayoutView, pv: PatchView)
    ensures
        ident(update_spec(v, pv).0) == ident(v),
        kids(update_spec(v, pv).0) == kids(v),
{
}

/// An accepted update of a list with new field ids gives the list exactly those fields, in
/// that order, and with a new model id, that model.
pub proof fn list_updates_set_their_fields(v: LayoutView, pv: PatchView)
    requires
        v is List,
        update_spec(v, pv).1 is Ok,
    ensures
        update_spec(v, pv).0 is List,
        pv.field_ids matches Some(fs) ==> ref_texts(update_spec(v, pv).0->List_fields) == fs,
        pv.field_ids is None ==> update_spec(v, pv).0->List_fields == v->List_fields,
        pv.model_id matches Some(m) ==> update_spec(v, pv).0->List_model.text == m,
        update_spec(v, pv).0->List_id == v->List_id,
{
    if let Some(fs) = pv.field_ids {
        assert(ref_texts(refs_of(fs)) =~= fs);
    }
}

/// An accepted update writes what the patch names and keeps the rest: a heading or a place
/// holder takes the new text, an input the new field, a list the new model and fields, a
/// button the new name and action (or none when the action is cleared). The element keeps its
/// kind, id and span; containers take no update.
pub proof fn accepted_updates_apply_the_patch(v: LayoutView, pv: PatchView)
    requires
        update_spec(v, pv).1 is Ok,
    ensures
        ({
            let u = update_spec(v, pv).0;
            &&& ident(u) == ident(v)
            &&& !(v is Header || v is Section || v is Form)
            &&& v is Heading ==> u is Heading && pv.text == Some(u->Heading_text) && u->Heading_span
                == v->Heading_span
            &&& v is Placeholder ==> u is Placeholder && pv.text == Some(u->Placeholder_text)
            &&& v is Input ==> u is Input && pv.field_id == Some(u->Input_field.text)
            &&& v is List ==> u is List && (pv.model_id matches Some(m) ==> u->List_model.text == m)
                && (pv.model_id is None ==> u->List_model == v->List_model) && (pv.field_ids matches Some(fs)
                ==> ref_texts(u->List_fields) == fs) && (pv.field_ids is None ==> u->List_fields
                == v->List_fields)
            &&& v is Button ==> u is Button && (pv.name matches Some(n) ==> u->Button_name == n) && (
            pv.name is None ==> u->Button_name == v->Button_name) && (pv.clear_action
                ==> u->Button_action is None) && (pv.action_id matches Some(a) ==> u->Button_action
                == Some(reference_view(a))) && (pv.action_id is None && !pv.clear_action
                ==> u->Button_action == v->Button_action)
        }),
{
    lemma_update_keeps_shape(v, pv);
    if let Some(fs) = pv.field_ids {
        assert(ref_texts(refs_of(fs)) =~= fs);
    }
}

/// Updating the element `id` of a forest puts the updated element where the element was:
/// looking `id` up afterwards finds what the patch makes of the element it found before.
pub proof fn the_updated_element_is_found_in_place(vs: Seq<LayoutView>, id: Seq<char>, pv: PatchView)
    requires
        find_spec(vs, id) is Some,
    ensures
        find_spec(update_at(vs, id, pv).0, id) == Some(update_spec(find_spec(vs, id)->0, pv).0),
        update_at(vs, id, pv).1 == update_spec(find_spec(vs, id)->0, pv).1,
    decreases vs,
{
    let e = vs[0];
    assert(decreases_to!(vs => vs[0]));
    let rest = vs.subrange(1, vs.len() as int);
    let v2 = update_at(vs, id, pv).0;
    if ident(e) == Some(id) {
        lemma_update_keeps_shape(e, pv);
    } else {
        let inner_found = match e {
            LayoutView::Header { children, .. } => find_spec(children, id) is Some,
            LayoutView::Section { children, .. } => find_spec(children, id) is Some,
            LayoutView::Form { inputs, .. } => find_spec(inputs, id) is Some,
            _ => false,
        };
        if inner_found {
            match e {
                LayoutView::Header { children, .. } => the_updated_element_is_found_in_place(children, id, pv),
                LayoutView::Section { children, .. } => the_updated_element_is_found_in_place(children, id, pv),
                LayoutView::Form { inputs, .. } => the_updated_element_is_found_in_place(inputs, id, pv),
                _ => {},
            }
            assert(v2[0] == with_kids(e, update_at(kids(e)->0, id, pv).0));
        } else {
            the_updated_element_is_found_in_place(rest, id, pv);
            assert(v2 == seq![e] + update_at(rest, id, pv).0);
            assert(v2[0] == e);
            assert(v2.subrange(1, v2.len() as int) =~= update_at(rest, id, pv).0);
        }
    }
}

/// An accepted update of the list `id` with new field ids leaves, in the updated forest, a list
/// under that id whose fields are exactly those ids.
pub proof fn updating_a_list_sets_its_fields(vs: Seq<LayoutView>, id: Seq<char>, pv: PatchView, fs: Seq<Seq<char>>)
    requires
        find_spec(vs, id) matches Some(v) && v is List,
        pv.field_ids == Some(fs),
        update_by_id_spec(vs, id, pv).1 is Ok,
    ensures
        find_spec(update_by_id_spec(vs, id, pv).0, id) matches Some(u) && u is List && ref_texts(
            u->List_fields,
        ) == fs,
{
    let v = find_spec(vs, id)->0;
    assert(target_check_spec(vs, id) is Ok);
    the_updated_element_is_found_in_place(vs, id, pv);
    list_updates_set_their_fields(v, pv);
}

/// Updating an element changes none of its ids and moves nothing: every id is counted as
/// often as before.
pub proof fn update_keeps_every_id(vs: Seq<LayoutView>, id: Seq<char>, pv: PatchView, x: Seq<char>)
    requires
        find_spec(vs, id) is Some,
    ensures
        count_spec(update_at(vs, id, pv).0, x) == count_spec(vs, x),
    decreases vs,
{
    let e = vs[0];
    assert(decreases_to!(vs => vs[0]));
    let rest = vs.subrange(1, vs.len() as int);
    lemma_count_front(vs, x);
    let v2 = update_at(vs, id, pv).0;
    if ident(e) == Some(id) {
        lemma_update_keeps_shape(e, pv);
        lemma_count_front(v2, x);
        assert(v2.subrange(1, v2.len() as int) =~= rest);
    } else {
        let inner_found = match e {
            LayoutView::Header { children, .. } => find_spec(children, id) is Some,
            LayoutView::Section { children, .. } => find_spec(children, id) is Some,
            LayoutView::Form { inputs, .. } => find_spec(inputs, id) is Some,
            _ => false,
        };
        if inner_found {
            let ks = kids(e)->0;
            match e {
                LayoutView::Header { children, .. } => update_keeps_every_id(children, id, pv, x),
                LayoutView::Section { children, .. } => update_keeps_every_id(children, id, pv, x),
                LayoutView::Form { inputs, .. } => update_keeps_every_id(inputs, id, pv, x),
                _ => {},
            }
            lemma_with_kids(e, update_at(ks, id, pv).0, x);
            lemma_count_front(v2, x);
            assert(v2.subrange(1, v2.len() as int) =~= rest);
        } else {
            update_keeps_every_id(rest, id, pv, x);
            lemma_count_concat(seq![e], update_at(rest, id, pv).0, x);
            lemma_count_single(e, x);
        }
    }
}

proof fn lemma_zero_count_parts(vs: Seq<LayoutView>, x: Seq<char>)
    requires
        vs.len() > 0,
        count_spec(vs, x) == 0,
    ensures
        here_count(vs[0], x) == 0,
        below_count(vs[0], x) == 0,
        count_spec(vs.subrange(1, vs.len() as int), x) == 0,
{
    lemma_count_front(vs, x);
}

/// An id that does not occur is not removed.
proof fn lemma_absent_not_removed(vs: Seq<LayoutView>, id: Seq<char>)
    requires
        count_spec(vs, id) == 0,
    ensures
        remove_spec(vs, id) is None,
        remove_below(vs, id) is None,
        level_index(vs, id) == -1,
    decreases vs,
{
    lemma_zero_count_top(vs, id);
    lemma_absent_level(vs, id, 0);
    if vs.len() > 0 {
        let e = vs[0];
        assert(decreases_to!(vs => vs[0]));
        lemma_zero_count_parts(vs, id);
        match e {
            LayoutView::Header { children, .. } => lemma_absent_not_removed(children, id),
            LayoutView::Section { children, .. } => lemma_absent_not_removed(children, id),
            LayoutView::Form { inputs, .. } => lemma_absent_not_removed(inputs, id),
            _ => {},
        }
        lemma_absent_not_removed(vs.subrange(1, vs.len() as int), id);
    }
}

proof fn lemma_absent_level(vs: Seq<LayoutView>, id: Seq<char>, k: int)
    requires
        0 <= k,
        forall|j: int| 0 <= j < vs.len() ==> ident(#[trigger] vs[j]) != Some(id),
    ensures
        level_index_from(vs, id, k) == -1,
    decreases vs.len() - k,
{
    if k < vs.len() {
        lemma_absent_level(vs, id, k + 1);
    }
}

/// Replacing the list the search ends at keeps the top level's elements and their ids.
proof fn lemma_replace_target_top(
    vs: Seq<LayoutView>,
    p: Seq<char>,
    slot: EditSlot,
    t: Seq<LayoutView>,
)
    ensures
        replace_target(vs, p, slot, t).len() == vs.len(),
        forall|j: int|
            0 <= j < vs.len() ==> ident(#[trigger] replace_target(vs, p, slot, t)[j]) == ident(
                vs[j],
            ),
    decreases vs,
{
    if vs.len() > 0 {
        let e = vs[0];
        assert(decreases_to!(vs => vs[0]));
        let rest = vs.subrange(1, vs.len() as int);
        lemma_replace_target_top(rest, p, slot, t);
        let r = replace_target(vs, p, slot, t);
        assert forall|j: int| 0 <= j < vs.len() implies ident(#[trigger] r[j]) == ident(vs[j]) by {
            if j > 0 {
                assert(vs[j] == rest[j - 1]);
            }
        }
    }
}

/// What the search for a parent ends at lies in the forest: its ids are counted there.
proof fn lemma_target_count(vs: Seq<LayoutView>, p: Seq<char>, slot: EditSlot, t: Seq<LayoutView>, x: Seq<char>)
    requires
        locate(vs, p, slot) == Located::Found,
    ensures
        count_spec(target(vs, p, slot), x) <= count_spec(vs, x),
        count_spec(replace_target(vs, p, slot, t), x) + count_spec(target(vs, p, slot), x)
            == count_spec(vs, x) + count_spec(t, x),
    decreases vs,
{
    let e = vs[0];
    assert(decreases_to!(vs => vs[0]));
    let rest = vs.subrange(1, vs.len() as int);
    lemma_count_front(vs, x);
    let r = replace_target(vs, p, slot, t);
    if ident(e) == Some(p) {
        lemma_with_kids(e, t, x);
        lemma_count_front(r, x);
        assert(r.subrange(1, r.len() as int) =~= rest);
    } else {
        let inner = match e {
            LayoutView::Header { children, .. } => locate(children, p, slot),
            LayoutView::Section { children, .. } => locate(children, p, slot),
            LayoutView::Form { inputs, .. } => locate(inputs, p, slot),
            _ => Located::Missing,
        };
        if inner == Located::Found {
            let ks = kids(e)->0;
            match e {
                LayoutView::Header { children, .. } => lemma_target_count(children, p, slot, t, x),
                LayoutView::Section { children, .. } => lemma_target_count(children, p, slot, t, x),
                LayoutView::Form { inputs, .. } => lemma_target_count(inputs, p, slot, t, x),
                _ => {},
            }
            lemma_with_kids(e, replace_target(ks, p, slot, t), x);
            lemma_count_front(r, x);
            assert(r.subrange(1, r.len() as int) =~= rest);
        } else {
            lemma_target_count(rest, p, slot, t, x);
            lemma_count_concat(seq![e], replace_target(rest, p, slot, t), x);
            lemma_count_single(e, x);
        }
    }
}

/// Removing the only occurrence of an id from a replaced list gives back the forest, when
/// removing it from the new list gives back the old one.
proof fn lemma_remove_from_replaced(
    vs: Seq<LayoutView>,
    p: Seq<char>,
    slot: EditSlot,
    t2: Seq<LayoutView>,
    id: Seq<char>,
    nv: LayoutView,
)
    requires
        locate(vs, p, slot) == Located::Found,
        count_spec(vs, id) == 0,
        remove_spec(t2, id) == Some((target(vs, p, slot), nv)),
    ensures
        remove_spec(replace_target(vs, p, slot, t2), id) == Some((vs, nv)),
    decreases vs,
{
    let e = vs[0];
    assert(decreases_to!(vs => vs[0]));
    let rest = vs.subrange(1, vs.len() as int);
    let r = replace_target(vs, p, slot, t2);
    lemma_zero_count_parts(vs, id);
    lemma_zero_count_top(vs, id);
    lemma_replace_target_top(vs, p, slot, t2);
    assert forall|j: int| 0 <= j < r.len() implies ident(#[trigger] r[j]) != Some(id) by {
        assert(ident(r[j]) == ident(vs[j]));
    }
    lemma_absent_level(r, id, 0);
    assert(r.subrange(1, r.len() as int).len() == rest.len());
    if ident(e) == Some(p) {
        let e1 = with_kids(e, t2);
        assert(r == vs.update(0, e1));
        assert(r[0] == e1);
        assert(with_kids(e1, target(vs, p, slot)) == e);
        assert(r.update(0, e) =~= vs);
    } else {
        let inner = match e {
            LayoutView::Header { children, .. } => locate(children, p, slot),
            LayoutView::Section { children, .. } => locate(children, p, slot),
            LayoutView::Form { inputs, .. } => locate(inputs, p, slot),
            _ => Located::Missing,
        };
        if inner == Located::Found {
            let ks = kids(e)->0;
            match e {
                LayoutView::Header { children, .. } => lemma_remove_from_replaced(
                    children,
                    p,
                    slot,
                    t2,
                    id,
                    nv,
                ),
                LayoutView::Section { children, .. } => lemma_remove_from_replaced(
                    children,
                    p,
                    slot,
                    t2,
                    id,
                    nv,
                ),
                LayoutView::Form { inputs, .. } => lemma_remove_from_replaced(
                    inputs,
                    p,
                    slot,
                    t2,
                    id,
                    nv,
                ),
                _ => {},
            }
            let e1 = with_kids(e, replace_target(ks, p, slot, t2));
            assert(r == vs.update(0, e1));
            assert(r[0] == e1);
            assert(with_kids(e1, ks) == e);
            assert(r.update(0, e) =~= vs);
        } else {
            let rest2 = replace_target(rest, p, slot, t2);
            lemma_remove_from_replaced(rest, p, slot, t2, id, nv);
            assert(r == seq![e] + rest2);
            assert(r[0] == e);
            assert(r.subrange(1, r.len() as int) =~= rest2);
            match e {
                LayoutView::Header { children, .. } => lemma_absent_not_removed(children, id),
                LayoutView::Section { children, .. } => lemma_absent_not_removed(children, id),
                LayoutView::Form { inputs, .. } => lemma_absent_not_removed(inputs, id),
                _ => {},
            }
            lemma_zero_count_top(rest, id);
            lemma_replace_target_top(rest, p, slot, t2);
            assert forall|j: int| 0 <= j < rest2.len() implies ident(#[trigger] rest2[j]) != Some(
                id,
            ) by {
                assert(ident(rest2[j]) == ident(rest[j]));
            }
            lemma_absent_level(rest2, id, 0);
            assert(seq![e] + rest =~= vs);
        }
    }
}

/// Placing a new element into a list where its id does not occur, and then removing that
/// id, gives back the list.
proof fn lemma_place_then_remove(
    t: Seq<LayoutView>,
    before: Option<Seq<char>>,
    nv: LayoutView,
    id: Seq<char>,
)
    requires
        count_spec(t, id) == 0,
        ident(nv) == Some(id),
        place_spec(t, before, nv) is Ok,
    ensures
        remove_spec(place_spec(t, before, nv)->Ok_0, id) == Some((t, nv)),
        count_spec(place_spec(t, before, nv)->Ok_0, id) == count_spec(seq![nv], id),
{
    let t2 = place_spec(t, before, nv)->Ok_0;
    lemma_zero_count_top(t, id);
    let i: int = match before {
        None => t.len() as int,
        Some(b) => level_index(t, b),
    };
    assert(t2 =~= t.insert(i, nv)) by {
        if before is None {
            assert(t.push(nv) =~= t.insert(t.len() as int, nv));
        }
    }
    assert(t2 =~= t.take(i) + seq![nv] + t.skip(i));
    assert(t =~= t.take(i) + t.skip(i));
    lemma_count_concat(t.take(i), t.skip(i), id);
    lemma_count_concat(t.take(i) + seq![nv], t.skip(i), id);
    lemma_count_concat(t.take(i), seq![nv], id);
    assert forall|j: int| 0 <= j < t2.len() && j != i implies ident(#[trigger] t2[j]) != Some(id) by {
        if j < i {
            assert(t2[j] == t[j]);
        } else {
            assert(t2[j] == t[j - 1]);
        }
    }
    lemma_level_index_only(t2, id, i, 0);
    assert(t2.remove(i) =~= t);
}

/// A new element inserted anywhere is taken out again by deleting its id, and the forest
/// is as it was before.
pub proof fn insert_then_delete_restores(
    vs: Seq<LayoutView>,
    new: EditElement,
    parent: Option<Seq<char>>,
    slot: EditSlot,
    before: Option<Seq<char>>,
)
    requires
        insert_element_spec(vs, new, parent, slot, before).1 is Ok,
    ensures
        delete_spec(insert_element_spec(vs, new, parent, slot, before).0, edit_id(new)) == (
            vs,
            Ok::<(), (Seq<char>, Seq<char>)>(()),
        ),
{
    let id = edit_id(new);
    let nv = edit_view(new);
    lemma_new_element_shape(new);
    lemma_count_single(nv, id);
    let v2 = insert_element_spec(vs, new, parent, slot, before).0;
    match parent {
        None => {
            lemma_place_then_remove(vs, before, nv, id);
        },
        Some(p) => {
            let t = target(vs, p, slot);
            let t2 = place_spec(t, before, nv)->Ok_0;
            lemma_target_count(vs, p, slot, t2, id);
            lemma_place_then_remove(t, before, nv, id);
            lemma_remove_from_replaced(vs, p, slot, t2, id, nv);
        },
    }
}

/// SHA-256 of a byte string.
pub uninterp spec fn sha256_digest(data: Seq<u8>) -> Seq<u8>;

/// `<sha2::Sha256 as Digest>::digest`: the SHA-256 digest of `data`, a function of the bytes
/// alone and 32 bytes long (`Sha256`'s output size is `U32`).
#[verifier::external_body]
fn sha256(data: &[u8]) -> (d: Vec<u8>)
    ensures
        d@ == sha256_digest(data@),
        d@.len() == 32,
{
    Sha256::digest(data).to_vec()
}

/// The lower-case hexadecimal digit for `n < 16`.
pub open spec fn hex_digit(n: nat) -> char {
    if n < 10 {
        digit_char(n)
    } else if n == 10 {
        'a'
    } else if n == 11 {
        'b'
    } else if n == 12 {
        'c'
    } else if n == 13 {
        'd'
    } else if n == 14 {
        'e'
    } else {
        'f'
    }
}

/// Two lower-case hexadecimal digits per byte, high half first.
pub open spec fn lower_hex(bytes: Seq<u8>) -> Seq<char>
    decreases bytes.len(),
{
    if bytes.len() == 0 {
        Seq::empty()
    } else {
        let b = bytes.last();
        lower_hex(bytes.drop_last()) + seq![hex_digit(b as nat / 16), hex_digit(b as nat % 16)]
    }
}

fn hex_char(n: u8) -> (c: char)
    requires
        n < 16,
    ensures
        c == hex_digit(n as nat),
{
    if n == 0 {
        '0'
    } else if n == 1 {
        '1'
    } else if n == 2 {
        '2'
    } else if n == 3 {
        '3'
    } else if n == 4 {
        '4'
    } else if n == 5 {
        '5'
    } else if n == 6 {
        '6'
    } else if n == 7 {
        '7'
    } else if n == 8 {
        '8'
    } else if n == 9 {
        '9'
    } else if n == 10 {
        'a'
    } else if n == 11 {
        'b'
    } else if n == 12 {
        'c'
    } else if n == 13 {
        'd'
    } else if n == 14 {
        'e'
    } else {
        'f'
    }
}

/// `bytes` written in lower-case hexadecimal, as `{:x}` writes a digest.
pub fn hex_of(bytes: &[u8]) -> (s: String)
    ensures
        s@ == lower_hex(bytes@),
        s@.len() == 2 * bytes@.len(),
{
    let mut s = String::new();
    let mut i: usize = 0;
    proof {
        assert(bytes@.take(0) =~= Seq::<u8>::empty());
    }
    while i < bytes.len()
        invariant
            i <= bytes@.len(),
            s@ == lower_hex(bytes@.take(i as int)),
            s@.len() == 2 * i,
        decreases bytes@.len() - i,
    {
        let b = bytes[i];
        push_char(&mut s, hex_char(b / 16));
        push_char(&mut s, hex_char(b % 16));
        proof {
            assert(bytes@.take(i + 1).drop_last() =~= bytes@.take(i as int));
            assert(bytes@.take(i + 1).last() == b);
        }
        i = i + 1;
    }
    proof {
        assert(bytes@.take(bytes@.len() as int) =~= bytes@);
    }
    s
}

/// The hash an edit is checked against: SHA-256 of the UTF-8 text, in lower-case hex.
pub open spec fn source_hash_spec(text: Seq<char>) -> Seq<char> {
    lower_hex(sha256_digest(vstd::utf8::encode_utf8(text)))
}

/// SHA-256 of the source text, in lower-case hexadecimal.
pub fn source_hash(text: &str) -> (h: String)
    ensures
        h@ == source_hash_spec(text@),
        h@.len() == 64,
{
    let bytes: &[u8] = text.as_bytes();
    let digest = sha256(bytes);
    hex_of(digest.as_slice())
}

/// Whether an edit request may be applied: its schema version, its locale, and the hash of
/// the source it was made against.
pub open spec fn admit_spec(
    schema_version: u32,
    locale: Seq<char>,
    text: Seq<char>,
    expected_hash: Seq<char>,
) -> Result<(), (Seq<char>, Seq<char>)> {
    if schema_version != EDIT_SCHEMA_VERSION {
        Err(("RSPDL-EDIT-001"@, "unsupported edit schema version"@))
    } else if locale != SUPPORTED_LOCALE@ {
        Err(("RSPDL-EDIT-002"@, "unsupported locale"@))
    } else if expected_hash != source_hash_spec(text) {
        Err(("RSPDL-EDIT-STALE"@, "source hash does not match"@))
    } else {
        Ok(())
    }
}

/// The hash of the request's source, and whether the request may be applied to it.
pub fn admit_edit(request: &EditRequest) -> (r: (String, EditResult))
    ensures
        r.0@ == source_hash_spec(request.source.text@),
        result_view(r.1) == admit_spec(
            request.schema_version,
            request.locale@,
            request.source.text@,
            request.expected_source_hash@,
        ),
{
    let actual = source_hash(request.source.text.as_str());
    if request.schema_version != EDIT_SCHEMA_VERSION {
        return (actual, Err(("RSPDL-EDIT-001", text_of("unsupported edit schema version"))));
    }
    if !str_eq(request.locale.as_str(), SUPPORTED_LOCALE) {
        return (actual, Err(("RSPDL-EDIT-002", text_of("unsupported locale"))));
    }
    if !str_eq(request.expected_source_hash.as_str(), actual.as_str()) {
        return (actual, Err(("RSPDL-EDIT-STALE", text_of("source hash does not match"))));
    }
    (actual, Ok(()))
}

/// What an edit produced before the candidate is compiled: the hash of the source it was made
/// against and, when it was applied, the candidate text, its hash and the ids it retired.
#[derive(Debug)]
pub struct EditDraft {
    pub source_hash: String,
    pub candidate_source_hash: Option<String>,
    pub candidate_text: Option<String>,
    pub outcome: EditOutcome,
    pub tombstones: Vec<String>,
}

/// A rejection: no candidate, no tombstones.
pub open spec fn rejected_draft(d: EditDraft, hash: Seq<char>, code: Seq<char>, reason: Seq<char>) -> bool {
    &&& d.source_hash@ == hash
    &&& d.candidate_source_hash is None
    &&& d.candidate_text is None
    &&& d.tombstones@.len() == 0
    &&& d.outcome matches EditOutcome::Rejected { code: c, reason: r } && c@ == code && r@ == reason
}

pub fn reject_edit(source_hash: String, code: &'static str, reason: String) -> (d: EditDraft)
    ensures
        rejected_draft(d, source_hash@, code@, reason@),
{
    EditDraft {
        source_hash,
        candidate_source_hash: None,
        candidate_text: None,
        outcome: EditOutcome::Rejected { code, reason },
        tombstones: Vec::new(),
    }
}

/// The draft that the last steps of an edit give for `document`, with `tombstones` retired.
pub open spec fn finished_draft(source_hash: Seq<char>, document: DocumentAst, tombstones: Seq<Seq<char>>, d: EditDraft) -> bool {
    match document_text(document) {
        Err(e) => rejected_draft(d, source_hash, "RSPDL-EDIT-FORMAT"@, e),
        Ok(t) => if source_hash_spec(t) == source_hash {
            rejected_draft(d, source_hash, "RSPDL-EDIT-UNCHANGED"@, "edit produced no source change"@)
        } else {
            &&& d.source_hash@ == source_hash
            &&& d.outcome == EditOutcome::Applied
            &&& d.candidate_text matches Some(c) && c@ == t
            &&& d.candidate_source_hash matches Some(h) && h@ == source_hash_spec(t)
            &&& strings_view(d.tombstones@) == tombstones
        },
    }
}

/// The last steps of an edit, once the operation has been applied to `document`: write the
/// document back as text, refuse a text whose hash is that of the source, and otherwise hand
/// back the text as the candidate with the retired ids.
pub fn finish_edit(source_hash: String, document: &DocumentAst, tombstones: Vec<String>) -> (d:
    EditDraft)
    ensures
        finished_draft(source_hash@, *document, strings_view(tombstones@), d),
{
    let candidate = match format_document(document) {
        Ok(text) => text,
        Err(error) => {
            let reason = text_of(error.message());
            return reject_edit(source_hash, "RSPDL-EDIT-FORMAT", reason);
        },
    };
    let candidate_hash = self::source_hash(candidate.as_str());
    if str_eq(candidate_hash.as_str(), source_hash.as_str()) {
        return reject_edit(
            source_hash,
            "RSPDL-EDIT-UNCHANGED",
            text_of("edit produced no source change"),
        );
    }
    EditDraft {
        source_hash,
        candidate_source_hash: Some(candidate_hash),
        candidate_text: Some(candidate),
        outcome: EditOutcome::Applied,
        tombstones,
    }
}

/// The pieces of `s` from `lo` on, cut at every `.`.
pub open spec fn split_from(s: Seq<char>, lo: int) -> Seq<Seq<char>>
    decreases s.len() - lo,
{
    if lo < 0 || lo > s.len() {
        Seq::empty()
    } else {
        let i = find_from(s, lo, s.len() as int, '.');
        proof {
            lemma_find_from(s, lo, s.len() as int, '.');
        }
        if i >= s.len() {
            seq![s.subrange(lo, s.len() as int)]
        } else {
            seq![s.subrange(lo, i)] + split_from(s, i + 1)
        }
    }
}

/// `s` cut at every `.`, as `str::split('.')` cuts it.
pub open spec fn split_dots(s: Seq<char>) -> Seq<Seq<char>> {
    split_from(s, 0)
}

fn split_dots_exec(value: &str) -> (parts: Vec<String>)
    ensures
        strings_view(parts@) == split_dots(value@),
        parts@.len() >= 1,
{
    let chars = chars_of(value);
    let n = chars.len();
    let mut parts: Vec<String> = Vec::new();
    let mut lo: usize = 0;
    loop
        invariant_except_break
            chars@ == value@,
            n == chars@.len(),
            lo <= n,
            strings_view(parts@) + split_from(value@, lo as int) == split_dots(value@),
        ensures
            strings_view(parts@) == split_dots(value@),
            parts@.len() >= 1,
        decreases n - lo,
    {
        let i = find_char(&chars, lo, n, '.');
        proof {
            lemma_find_from(chars@, lo as int, n as int, '.');
        }
        let piece = string_of(&chars, lo, i);
        let ghost before = parts@;
        parts.push(piece);
        proof {
            assert(strings_view(parts@) =~= strings_view(before).push(piece@));
            let rest = split_from(value@, lo as int);
            if i < n {
                assert(rest =~= seq![value@.subrange(lo as int, i as int)] + split_from(
                    value@,
                    i + 1,
                ));
                assert(strings_view(before) + rest =~= strings_view(parts@) + split_from(
                    value@,
                    i + 1,
                ));
            } else {
                assert(rest =~= seq![value@.subrange(lo as int, n as int)]);
                assert(strings_view(before) + rest =~= strings_view(parts@));
            }
        }
        if i == n {
            break;
        }
        lo = i + 1;
    }
    parts
}

/// The pieces of a reference: a bare name, or a full id of this source's module with
/// `expected` pieces.
pub open spec fn canonical_parts_spec(module_id: Seq<char>, value: Seq<char>, expected: nat) -> Result<
    Seq<Seq<char>>,
    (Seq<char>, Seq<char>),
> {
    let parts = split_dots(value);
    if parts.len() == 1 {
        Ok(parts)
    } else if parts.len() != expected || parts[0] != module_id {
        Err(("RSPDL-EDIT-PATCH"@, "reference "@ + value + " is outside this source module"@))
    } else {
        Ok(parts)
    }
}

pub open spec fn declares(decls: Seq<DeclarationAst>, kind: Seq<char>, local: Seq<char>) -> bool {
    exists|j: int|
        0 <= j < decls.len() && match #[trigger] decls[j] {
            DeclarationAst::DataModel(m) => kind == "model"@ && m.declaration.id@ == local,
            DeclarationAst::Action(a) => kind == "action"@ && a.declaration.id@ == local,
            _ => false,
        }
}

pub open spec fn declares_field(decls: Seq<DeclarationAst>, model: Seq<char>, field: Seq<char>) -> bool {
    exists|j: int|
        0 <= j < decls.len() && match #[trigger] decls[j] {
            DeclarationAst::DataModel(m) => m.declaration.id@ == model && exists|k: int|
                0 <= k < m.fields@.len() && (#[trigger] m.fields@[k]).declaration.id@ == field,
            _ => false,
        }
}

/// A model or action reference as the layout keeps it: the local id.
pub open spec fn normalize_decl_ref_spec(doc: DocumentAst, value: Seq<char>, kind: Seq<char>) -> Result<
    Seq<char>,
    (Seq<char>, Seq<char>),
> {
    match canonical_parts_spec(doc.module.declaration.id@, value, 2) {
        Err(e) => Err(e),
        Ok(parts) => {
            let local = parts.last();
            if parts.len() > 1 && !declares(doc.declarations@, kind, local) {
                Err(("RSPDL-EDIT-PATCH"@, "unknown "@ + kind + " reference "@ + value))
            } else {
                Ok(local)
            }
        },
    }
}

/// A field reference as the layout keeps it: a bare name as written, a full id as the
/// field's local id.
pub open spec fn normalize_field_spec(doc: DocumentAst, value: Seq<char>) -> Result<
    Seq<char>,
    (Seq<char>, Seq<char>),
> {
    match canonical_parts_spec(doc.module.declaration.id@, value, 3) {
        Err(e) => Err(e),
        Ok(parts) => if parts.len() == 1 {
            Ok(value)
        } else if !declares_field(doc.declarations@, parts[1], parts[2]) {
            Err(("RSPDL-EDIT-PATCH"@, "unknown field reference "@ + value))
        } else {
            Ok(parts[2])
        },
    }
}

fn canonical_parts(document: &DocumentAst, value: &str, expected: usize) -> (r: Result<
    Vec<String>,
    (&'static str, String),
>)
    ensures
        match r {
            Ok(parts) => canonical_parts_spec(document.module.declaration.id@, value@, expected as nat)
                == Ok::<Seq<Seq<char>>, (Seq<char>, Seq<char>)>(strings_view(parts@)),
            Err((code, reason)) => canonical_parts_spec(
                document.module.declaration.id@,
                value@,
                expected as nat,
            ) == Err::<Seq<Seq<char>>, (Seq<char>, Seq<char>)>((code@, reason@)),
        },
{
    let parts = split_dots_exec(value);
    if parts.len() == 1 {
        return Ok(parts);
    }
    if parts.len() != expected || !str_eq(parts[0].as_str(), document.module.declaration.id.as_str()) {
        proof {
            assert(strings_view(parts@)[0] == parts@[0]@);
        }
        let mut reason = text_of("reference ");
        reason.append(value);
        reason.append(" is outside this source module");
        return Err(("RSPDL-EDIT-PATCH", reason));
    }
    proof {
        assert(strings_view(parts@)[0] == parts@[0]@);
    }
    Ok(parts)
}

fn has_declaration(document: &DocumentAst, kind: &str, local: &str) -> (b: bool)
    ensures
        b == declares(document.declarations@, kind@, local@),
{
    let decls = &document.declarations;
    let is_model = str_eq(kind, "model");
    let is_action = str_eq(kind, "action");
    let mut j: usize = 0;
    while j < decls.len()
        invariant
            decls@ == document.declarations@,
            j <= decls@.len(),
            is_model == (kind@ == "model"@),
            is_action == (kind@ == "action"@),
            forall|m: int|
                0 <= m < j ==> !match #[trigger] decls@[m] {
                    DeclarationAst::DataModel(x) => kind@ == "model"@ && x.declaration.id@ == local@,
                    DeclarationAst::Action(x) => kind@ == "action"@ && x.declaration.id@ == local@,
                    _ => false,
                },
        decreases decls@.len() - j,
    {
        let hit = match &decls[j] {
            DeclarationAst::DataModel(m) => is_model && str_eq(m.declaration.id.as_str(), local),
            DeclarationAst::Action(a) => is_action && str_eq(a.declaration.id.as_str(), local),
            _ => false,
        };
        if hit {
            proof {
                let w = decls@[j as int];
                assert(match w {
                    DeclarationAst::DataModel(x) => kind@ == "model"@ && x.declaration.id@ == local@,
                    DeclarationAst::Action(x) => kind@ == "action"@ && x.declaration.id@ == local@,
                    _ => false,
                });
            }
            return true;
        }
        j = j + 1;
    }
    false
}

fn has_field(document: &DocumentAst, model: &str, field: &str) -> (b: bool)
    ensures
        b == declares_field(document.declarations@, model@, field@),
{
    let decls = &document.declarations;
    let mut j: usize = 0;
    while j < decls.len()
        invariant
            decls@ == document.declarations@,
            j <= decls@.len(),
            forall|m: int|
                0 <= m < j ==> !match #[trigger] decls@[m] {
                    DeclarationAst::DataModel(x) => x.declaration.id@ == model@ && exists|k: int|
                        0 <= k < x.fields@.len() && (#[trigger] x.fields@[k]).declaration.id@
                            == field@,
                    _ => false,
                },
        decreases decls@.len() - j,
    {
        match &decls[j] {
            DeclarationAst::DataModel(m) => {
                if str_eq(m.declaration.id.as_str(), model) {
                    let mut k: usize = 0;
                    while k < m.fields.len()
                        invariant
                            decls@ == document.declarations@,
                            j < decls@.len(),
                            decls@[j as int] == DeclarationAst::DataModel(*m),
                            m.declaration.id@ == model@,
                            k <= m.fields@.len(),
                            forall|q: int|
                                0 <= q < k ==> (#[trigger] m.fields@[q]).declaration.id@ != field@,
                        decreases m.fields@.len() - k,
                    {
                        if str_eq(m.fields[k].declaration.id.as_str(), field) {
                            proof {
                                let w = decls@[j as int];
                                assert(m.fields@[k as int].declaration.id@ == field@);
                                assert(match w {
                                    DeclarationAst::DataModel(x) => x.declaration.id@ == model@
                                        && exists|q: int|
                                        0 <= q < x.fields@.len()
                                            && (#[trigger] x.fields@[q]).declaration.id@ == field@,
                                    _ => false,
                                });
                            }
                            return true;
                        }
                        k = k + 1;
                    }
                }
            },
            _ => {},
        }
        j = j + 1;
    }
    false
}

/// A model or action reference as the layout keeps it.
pub fn normalize_decl_ref(document: &DocumentAst, value: &str, kind: &str) -> (r: Result<
    String,
    (&'static str, String),
>)
    ensures
        match r {
            Ok(v) => normalize_decl_ref_spec(*document, value@, kind@) == Ok::<
                Seq<char>,
                (Seq<char>, Seq<char>),
            >(v@),
            Err((code, reason)) => normalize_decl_ref_spec(*document, value@, kind@) == Err::<
                Seq<char>,
                (Seq<char>, Seq<char>),
            >((code@, reason@)),
        },
{
    let parts = match canonical_parts(document, value, 2) {
        Ok(p) => p,
        Err(e) => {
            return Err(e);
        },
    };
    let last = parts.len() - 1;
    let local = parts[last].as_str();
    proof {
        assert(strings_view(parts@).last() == parts@[last as int]@);
    }
    if parts.len() > 1 && !has_declaration(document, kind, local) {
        let mut reason = text_of("unknown ");
        reason.append(kind);
        reason.append(" reference ");
        reason.append(value);
        return Err(("RSPDL-EDIT-PATCH", reason));
    }
    Ok(text_of(local))
}

/// A field reference as the layout keeps it.
pub fn normalize_field(document: &DocumentAst, value: &str) -> (r: Result<
    String,
    (&'static str, String),
>)
    ensures
        match r {
            Ok(v) => normalize_field_spec(*document, value@) == Ok::<
                Seq<char>,
                (Seq<char>, Seq<char>),
            >(v@),
            Err((code, reason)) => normalize_field_spec(*document, value@) == Err::<
                Seq<char>,
                (Seq<char>, Seq<char>),
            >((code@, reason@)),
        },
{
    let parts = match canonical_parts(document, value, 3) {
        Ok(p) => p,
        Err(e) => {
            return Err(e);
        },
    };
    if parts.len() == 1 {
        return Ok(text_of(value));
    }
    proof {
        assert(strings_view(parts@)[1] == parts@[1]@);
        assert(strings_view(parts@)[2] == parts@[2]@);
    }
    if !has_field(document, parts[1].as_str(), parts[2].as_str()) {
        let mut reason = text_of("unknown field reference ");
        reason.append(value);
        return Err(("RSPDL-EDIT-PATCH", reason));
    }
    Ok(text_of(parts[2].as_str()))
}

/// `d` declares the screen whose full id is `screen_id`.
pub open spec fn declares_screen(d: DeclarationAst, module_id: Seq<char>, screen_id: Seq<char>) -> bool {
    match d {
        DeclarationAst::Screen(s) => screen_id == module_id + "."@ + s.declaration.id@,
        _ => false,
    }
}

/// Index of the first declaration from `j` on of the screen `screen_id`, or `-1`.
pub open spec fn screen_decl_from(
    decls: Seq<DeclarationAst>,
    module_id: Seq<char>,
    screen_id: Seq<char>,
    j: int,
) -> int
    decreases decls.len() - j,
{
    if j < 0 || j >= decls.len() {
        -1
    } else if declares_screen(decls[j], module_id, screen_id) {
        j
    } else {
        screen_decl_from(decls, module_id, screen_id, j + 1)
    }
}

/// A layout is the layout of a screen when it names the screen by its display name, its
/// local id or its full id.
pub open spec fn layout_names(l: ScreenLayoutAst, name: Seq<char>, local: Seq<char>, full: Seq<char>) -> bool {
    l.screen.text@ == name || l.screen.text@ == local || l.screen.text@ == full
}

/// How many of the layouts from `k` on name the screen.
pub open spec fn layouts_naming(
    ls: Seq<ScreenLayoutAst>,
    name: Seq<char>,
    local: Seq<char>,
    full: Seq<char>,
    k: int,
) -> nat
    decreases ls.len() - k,
{
    if k < 0 || k >= ls.len() {
        0
    } else {
        (if layout_names(ls[k], name, local, full) {
            1nat
        } else {
            0nat
        }) + layouts_naming(ls, name, local, full, k + 1)
    }
}

/// Index of the first layout from `k` on that names the screen, or `-1`.
pub open spec fn layout_from(
    ls: Seq<ScreenLayoutAst>,
    name: Seq<char>,
    local: Seq<char>,
    full: Seq<char>,
    k: int,
) -> int
    decreases ls.len() - k,
{
    if k < 0 || k >= ls.len() {
        -1
    } else if layout_names(ls[k], name, local, full) {
        k
    } else {
        layout_from(ls, name, local, full, k + 1)
    }
}

pub open spec fn screen_of(d: DeclarationAst) -> (Seq<char>, Seq<char>) {
    match d {
        DeclarationAst::Screen(s) => (s.declaration.name@, s.declaration.id@),
        _ => (Seq::empty(), Seq::empty()),
    }
}

/// The layout of the screen `screen_id` in the frontmatter `fm`: the screen must be
/// declared, and exactly one layout must name it.
pub open spec fn screen_layout_spec(doc: DocumentAst, fm: FrontmatterAst, screen_id: Seq<char>) -> Result<
    int,
    (Seq<char>, Seq<char>),
> {
    let j = screen_decl_from(doc.declarations@, doc.module.declaration.id@, screen_id, 0);
    if j < 0 {
        Err(("RSPDL-EDIT-SCREEN-NOT-FOUND"@, "screen "@ + screen_id + " not found"@))
    } else {
        let (name, local) = screen_of(doc.declarations@[j]);
        let c = layouts_naming(fm.screens@, name, local, screen_id, 0);
        if c != 1 {
            Err(
                (
                    if c == 0 {
                        "RSPDL-EDIT-SCREEN-NOT-FOUND"@
                    } else {
                        "RSPDL-EDIT-AMBIGUOUS"@
                    },
                    "screen "@ + screen_id + " layout matched "@ + decimal_spec(c) + " times"@,
                ),
            )
        } else {
            Ok(layout_from(fm.screens@, name, local, screen_id, 0))
        }
    }
}

proof fn lemma_layout_from(
    ls: Seq<ScreenLayoutAst>,
    name: Seq<char>,
    local: Seq<char>,
    full: Seq<char>,
    k: int,
)
    requires
        0 <= k,
        layouts_naming(ls, name, local, full, k) > 0,
    ensures
        k <= layout_from(ls, name, local, full, k) < ls.len(),
    decreases ls.len() - k,
{
    if k < ls.len() && !layout_names(ls[k], name, local, full) {
        lemma_layout_from(ls, name, local, full, k + 1);
    }
}

proof fn lemma_screen_decl_from(
    decls: Seq<DeclarationAst>,
    module_id: Seq<char>,
    screen_id: Seq<char>,
    j: int,
)
    requires
        0 <= j,
    ensures
        screen_decl_from(decls, module_id, screen_id, j) == -1 || (j <= screen_decl_from(
            decls,
            module_id,
            screen_id,
            j,
        ) < decls.len() && declares_screen(
            decls[screen_decl_from(decls, module_id, screen_id, j)],
            module_id,
            screen_id,
        )),
    decreases decls.len() - j,
{
    if j < decls.len() && !declares_screen(decls[j], module_id, screen_id) {
        lemma_screen_decl_from(decls, module_id, screen_id, j + 1);
    }
}

fn full_id(module_id: &str, local: &str) -> (r: String)
    ensures
        r@ == module_id@ + "."@ + local@,
{
    let mut r = text_of(module_id);
    r.append(".");
    r.append(local);
    r
}

fn screen_declaration(document: &DocumentAst, screen_id: &str) -> (r: Option<usize>)
    ensures
        match r {
            Some(j) => j < document.declarations@.len() && screen_decl_from(
                document.declarations@,
                document.module.declaration.id@,
                screen_id@,
                0,
            ) == j as int && declares_screen(
                document.declarations@[j as int],
                document.module.declaration.id@,
                screen_id@,
            ),
            None => screen_decl_from(
                document.declarations@,
                document.module.declaration.id@,
                screen_id@,
                0,
            ) == -1,
        },
{
    let decls = &document.declarations;
    let module_id = document.module.declaration.id.as_str();
    let mut j: usize = 0;
    while j < decls.len()
        invariant
            decls@ == document.declarations@,
            module_id@ == document.module.declaration.id@,
            j <= decls@.len(),
            screen_decl_from(decls@, module_id@, screen_id@, 0) == screen_decl_from(
                decls@,
                module_id@,
                screen_id@,
                j as int,
            ),
        decreases decls@.len() - j,
    {
        let hit = match &decls[j] {
            DeclarationAst::Screen(s) => str_eq(
                full_id(module_id, s.declaration.id.as_str()).as_str(),
                screen_id,
            ),
            _ => false,
        };
        if hit {
            return Some(j);
        }
        j = j + 1;
    }
    None
}

/// How many layouts name the screen, and the first one that does.
fn count_layouts(fm: &FrontmatterAst, name: &str, local: &str, screen_id: &str) -> (r: (
    usize,
    usize,
))
    ensures
        r.0 == layouts_naming(fm.screens@, name@, local@, screen_id@, 0),
        r.0 > 0 ==> r.1 as int == layout_from(fm.screens@, name@, local@, screen_id@, 0) && r.1
            < fm.screens@.len(),
{
    let ls = &fm.screens;
    let n: usize = ls.len();
    let mut k: usize = n;
    let mut count: usize = 0;
    let mut first: usize = n;
    while k > 0
        invariant
            ls@ == fm.screens@,
            n == ls@.len(),
            k <= ls@.len(),
            count <= ls@.len() - k,
            count == layouts_naming(ls@, name@, local@, screen_id@, k as int),
            first == (if layout_from(ls@, name@, local@, screen_id@, k as int) < 0 {
                ls@.len() as int
            } else {
                layout_from(ls@, name@, local@, screen_id@, k as int)
            }),
        decreases k,
    {
        k = k - 1;
        let t = ls[k].screen.text.as_str();
        if str_eq(t, name) || str_eq(t, local) || str_eq(t, screen_id) {
            count = count + 1;
            first = k;
        }
    }
    proof {
        if count > 0 {
            lemma_layout_from(ls@, name@, local@, screen_id@, 0);
        }
    }
    (count, first)
}

fn screen_names(document: &DocumentAst, j: usize) -> (r: (&str, &str))
    requires
        j < document.declarations@.len(),
    ensures
        (r.0@, r.1@) == screen_of(document.declarations@[j as int]),
{
    match &document.declarations[j] {
        DeclarationAst::Screen(s) => (s.declaration.name.as_str(), s.declaration.id.as_str()),
        _ => {
            proof {
                reveal_strlit("");
            }
            ("", "")
        },
    }
}

fn matched_layouts_reason(screen_id: &str, count: usize) -> (r: String)
    ensures
        r@ == "screen "@ + screen_id@ + " layout matched "@ + decimal_spec(count as nat) + " times"@,
{
    let mut reason = text_of("screen ");
    reason.append(screen_id);
    reason.append(" layout matched ");
    let n = decimal(count);
    reason.append(n.as_str());
    reason.append(" times");
    reason
}

fn screen_not_found(screen_id: &str, tail: &str) -> (r: String)
    ensures
        r@ == "screen "@ + screen_id@ + tail@,
{
    let mut reason = text_of("screen ");
    reason.append(screen_id);
    reason.append(tail);
    reason
}

/// Finds the layout of the screen `screen_id`.
fn screen_layout(document: &DocumentAst, fm: &FrontmatterAst, screen_id: &str) -> (r: Result<
    usize,
    (&'static str, String),
>)
    ensures
        match r {
            Ok(k) => screen_layout_spec(*document, *fm, screen_id@) == Ok::<
                int,
                (Seq<char>, Seq<char>),
            >(k as int) && k < fm.screens@.len(),
            Err((code, reason)) => screen_layout_spec(*document, *fm, screen_id@) == Err::<
                int,
                (Seq<char>, Seq<char>),
            >((code@, reason@)),
        },
{
    let j = match screen_declaration(document, screen_id) {
        Some(j) => j,
        None => {
            return Err(("RSPDL-EDIT-SCREEN-NOT-FOUND", screen_not_found(screen_id, " not found")));
        },
    };
    let (name, local) = screen_names(document, j);
    let (count, first) = count_layouts(fm, name, local, screen_id);
    if count != 1 {
        let code = if count == 0 {
            "RSPDL-EDIT-SCREEN-NOT-FOUND"
        } else {
            "RSPDL-EDIT-AMBIGUOUS"
        };
        return Err((code, matched_layouts_reason(screen_id, count)));
    }
    Ok(first)
}

/// A screen that an edit names exists when its full id is the module id, a dot and the local
/// id of a screen declaration.
pub open spec fn validate_screen_spec(doc: DocumentAst, screen_id: Seq<char>) -> Result<(), (Seq<char>, Seq<char>)> {
    if screen_decl_from(doc.declarations@, doc.module.declaration.id@, screen_id, 0) >= 0 {
        Ok(())
    } else {
        Err(("RSPDL-EDIT-SCREEN-NOT-FOUND"@, "screen "@ + screen_id + " not found"@))
    }
}

/// Checks that the document declares the screen `screen_id`.
pub fn validate_screen(document: &DocumentAst, screen_id: &str) -> (r: EditResult)
    ensures
        result_view(r) == validate_screen_spec(*document, screen_id@),
{
    match screen_declaration(document, screen_id) {
        Some(_) => Ok(()),
        None => Err(("RSPDL-EDIT-SCREEN-NOT-FOUND", screen_not_found(screen_id, " not found"))),
    }
}

/// The layout of the screen `screen_id` as the tombstones of a deletion look it up.
pub open spec fn screen_elements_spec(doc: DocumentAst, fm: FrontmatterAst, screen_id: Seq<char>) -> Result<
    int,
    (Seq<char>, Seq<char>),
> {
    let j = screen_decl_from(doc.declarations@, doc.module.declaration.id@, screen_id, 0);
    if j < 0 {
        Err(("RSPDL-EDIT-SCREEN-NOT-FOUND"@, "screen "@ + screen_id + " not found"@))
    } else {
        let (name, local) = screen_of(doc.declarations@[j]);
        let c = layouts_naming(fm.screens@, name, local, screen_id, 0);
        if c == 1 {
            Ok(layout_from(fm.screens@, name, local, screen_id, 0))
        } else if c == 0 {
            Err(("RSPDL-EDIT-SCREEN-NOT-FOUND"@, "screen "@ + screen_id + " has no layout"@))
        } else {
            Err(
                (
                    "RSPDL-EDIT-AMBIGUOUS"@,
                    "screen "@ + screen_id + " layout matched "@ + decimal_spec(c) + " times"@,
                ),
            )
        }
    }
}

/// The ids a deletion retires: the deleted element's and those nested in it. Other edits
/// retire none.
pub open spec fn tombstones_spec(doc: DocumentAst, op: EditOperation) -> Result<
    Seq<Seq<char>>,
    (Seq<char>, Seq<char>),
> {
    match op {
        EditOperation::Delete { screen_id, element_id } => {
            let j = screen_decl_from(
                doc.declarations@,
                doc.module.declaration.id@,
                screen_id@,
                0,
            );
            if j < 0 {
                Err(("RSPDL-EDIT-SCREEN-NOT-FOUND"@, "screen "@ + screen_id@ + " not found"@))
            } else {
                match screen_elements_spec(doc, doc.frontmatter->0, screen_id@) {
                    Err(e) => Err(e),
                    Ok(k) => match find_spec(forest_at(doc.frontmatter->0, k), element_id@) {
                        None => Ok(Seq::empty()),
                        Some(e) => Ok(subtree_ids(e)),
                    },
                }
            }
        },
        _ => Ok(Seq::empty()),
    }
}

/// The ids that deleting an element retires.
pub fn deletion_tombstones(document: &DocumentAst, operation: &EditOperation) -> (r: Result<
    Vec<String>,
    (&'static str, String),
>)
    requires
        match *operation {
            EditOperation::Delete { screen_id, .. } => document.frontmatter is None
                ==> screen_decl_from(
                document.declarations@,
                document.module.declaration.id@,
                screen_id@,
                0,
            ) == -1,
            _ => true,
        },
    ensures
        match r {
            Ok(ids) => tombstones_spec(*document, *operation) == Ok::<
                Seq<Seq<char>>,
                (Seq<char>, Seq<char>),
            >(strings_view(ids@)),
            Err((code, reason)) => tombstones_spec(*document, *operation) == Err::<
                Seq<Seq<char>>,
                (Seq<char>, Seq<char>),
            >((code@, reason@)),
        },
{
    let (screen_id, element_id) = match operation {
        EditOperation::Delete { screen_id, element_id } => (screen_id.as_str(), element_id.as_str()),
        _ => {
            let none: Vec<String> = Vec::new();
            proof {
                assert(strings_view(none@) =~= Seq::<Seq<char>>::empty());
            }
            return Ok(none);
        },
    };
    let j = match screen_declaration(document, screen_id) {
        Some(j) => j,
        None => {
            return Err(("RSPDL-EDIT-SCREEN-NOT-FOUND", screen_not_found(screen_id, " not found")));
        },
    };
    let fm = document.frontmatter.as_ref().unwrap();
    let (name, local) = screen_names(document, j);
    let (count, first) = count_layouts(fm, name, local, screen_id);
    if count == 0 {
        return Err(("RSPDL-EDIT-SCREEN-NOT-FOUND", screen_not_found(screen_id, " has no layout")));
    }
    if count > 1 {
        return Err(("RSPDL-EDIT-AMBIGUOUS", matched_layouts_reason(screen_id, count)));
    }
    let mut ids: Vec<String> = Vec::new();
    proof {
        assert(strings_view(ids@) =~= Seq::<Seq<char>>::empty());
    }
    match find_element(fm.screens[first].elements.as_slice(), element_id) {
        Some(e) => {
            collect_ids(e, &mut ids);
            proof {
                assert(Seq::<Seq<char>>::empty() + subtree_ids(e@) =~= subtree_ids(e@));
            }
        },
        None => {},
    }
    Ok(ids)
}


/// Field references normalized one after another; the first that fails decides.
pub open spec fn normalize_fields_spec(doc: DocumentAst, fs: Seq<Seq<char>>) -> Result<
    Seq<Seq<char>>,
    (Seq<char>, Seq<char>),
>
    decreases fs.len(),
{
    if fs.len() == 0 {
        Ok(Seq::empty())
    } else {
        match normalize_fields_spec(doc, fs.drop_last()) {
            Err(e) => Err(e),
            Ok(init) => match normalize_field_spec(doc, fs.last()) {
                Err(e) => Err(e),
                Ok(f) => Ok(init.push(f)),
            },
        }
    }
}

/// The layout element a new element becomes once its references are normalized.
pub open spec fn normalize_element_spec(doc: DocumentAst, e: EditElement) -> Result<
    LayoutView,
    (Seq<char>, Seq<char>),
> {
    let none = Span { start: 0, end: 0 };
    match e {
        EditElement::Input { id, field_id } => match normalize_field_spec(doc, field_id@) {
            Err(x) => Err(x),
            Ok(f) => Ok(LayoutView::Input { id: Some(id@), field: reference_view(f), span: none }),
        },
        EditElement::List { id, model_id, field_ids } => match normalize_decl_ref_spec(
            doc,
            model_id@,
            "model"@,
        ) {
            Err(x) => Err(x),
            Ok(m) => match normalize_fields_spec(doc, strings_view(field_ids@)) {
                Err(x) => Err(x),
                Ok(fs) => Ok(
                    LayoutView::List {
                        id: Some(id@),
                        model: reference_view(m),
                        fields: refs_of(fs),
                        span: none,
                    },
                ),
            },
        },
        EditElement::Button { id, name, action_id } => match action_id {
            None => Ok(edit_view(e)),
            Some(a) => match normalize_decl_ref_spec(doc, a@, "action"@) {
                Err(x) => Err(x),
                Ok(a2) => Ok(
                    LayoutView::Button {
                        id: id@,
                        name: name@,
                        action: Some(reference_view(a2)),
                        span: none,
                    },
                ),
            },
        },
        _ => Ok(edit_view(e)),
    }
}

proof fn lemma_fields_error_prefix(doc: DocumentAst, fs: Seq<Seq<char>>, j: int)
    requires
        0 <= j <= fs.len(),
        normalize_fields_spec(doc, fs.take(j)) is Err,
    ensures
        normalize_fields_spec(doc, fs) == normalize_fields_spec(doc, fs.take(j)),
    decreases fs.len(),
{
    if j == fs.len() {
        assert(fs.take(j) =~= fs);
    } else {
        assert(fs.drop_last().take(j) =~= fs.take(j));
        lemma_fields_error_prefix(doc, fs.drop_last(), j);
    }
}

fn normalize_fields(document: &DocumentAst, values: &Vec<String>) -> (r: Result<
    Vec<String>,
    (&'static str, String),
>)
    ensures
        match r {
            Ok(v) => normalize_fields_spec(*document, strings_view(values@)) == Ok::<
                Seq<Seq<char>>,
                (Seq<char>, Seq<char>),
            >(strings_view(v@)),
            Err((code, reason)) => normalize_fields_spec(*document, strings_view(values@)) == Err::<
                Seq<Seq<char>>,
                (Seq<char>, Seq<char>),
            >((code@, reason@)),
        },
{
    let mut out: Vec<String> = Vec::new();
    let mut i: usize = 0;
    proof {
        assert(strings_view(values@).take(0) =~= Seq::<Seq<char>>::empty());
        assert(strings_view(out@) =~= Seq::<Seq<char>>::empty());
    }
    while i < values.len()
        invariant
            i <= values@.len(),
            out@.len() == i,
            normalize_fields_spec(*document, strings_view(values@).take(i as int)) == Ok::<
                Seq<Seq<char>>,
                (Seq<char>, Seq<char>),
            >(strings_view(out@)),
        decreases values@.len() - i,
    {
        let ghost before = out@;
        proof {
            let t = strings_view(values@).take(i + 1);
            assert(t.drop_last() =~= strings_view(values@).take(i as int));
            assert(t.last() == values@[i as int]@);
        }
        match normalize_field(document, values[i].as_str()) {
            Ok(f) => {
                out.push(f);
                proof {
                    assert(strings_view(out@) =~= strings_view(before).push(out@[i as int]@));
                }
            },
            Err(e) => {
                proof {
                    lemma_fields_error_prefix(*document, strings_view(values@), i + 1);
                }
                return Err(e);
            },
        }
        i = i + 1;
    }
    proof {
        assert(strings_view(values@).take(values@.len() as int) =~= strings_view(values@));
    }
    Ok(out)
}

/// A new element with its references normalized.
pub fn normalize_edit_element(document: &DocumentAst, element: &EditElement) -> (r: Result<
    EditElement,
    (&'static str, String),
>)
    ensures
        match r {
            Ok(e2) => normalize_element_spec(*document, *element) == Ok::<
                LayoutView,
                (Seq<char>, Seq<char>),
            >(edit_view(e2)) && edit_id(e2) == edit_id(*element),
            Err((code, reason)) => normalize_element_spec(*document, *element) == Err::<
                LayoutView,
                (Seq<char>, Seq<char>),
            >((code@, reason@)),
        },
{
    match element {
        EditElement::Input { id, field_id } => {
            let f = match normalize_field(document, field_id.as_str()) {
                Ok(f) => f,
                Err(e) => {
                    return Err(e);
                },
            };
            Ok(EditElement::Input { id: text_of(id.as_str()), field_id: f })
        },
        EditElement::List { id, model_id, field_ids } => {
            let m = match normalize_decl_ref(document, model_id.as_str(), "model") {
                Ok(m) => m,
                Err(e) => {
                    return Err(e);
                },
            };
            let fs = match normalize_fields(document, field_ids) {
                Ok(fs) => fs,
                Err(e) => {
                    return Err(e);
                },
            };
            Ok(EditElement::List { id: text_of(id.as_str()), model_id: m, field_ids: fs })
        },
        EditElement::Button { id, name, action_id } => match action_id {
            None => Ok(
                EditElement::Button {
                    id: text_of(id.as_str()),
                    name: text_of(name.as_str()),
                    action_id: None,
                },
            ),
            Some(a) => {
                let a2 = match normalize_decl_ref(document, a.as_str(), "action") {
                    Ok(a2) => a2,
                    Err(e) => {
                        return Err(e);
                    },
                };
                Ok(
                    EditElement::Button {
                        id: text_of(id.as_str()),
                        name: text_of(name.as_str()),
                        action_id: Some(a2),
                    },
                )
            },
        },
        EditElement::Header { id } => Ok(EditElement::Header { id: text_of(id.as_str()) }),
        EditElement::Section { id } => Ok(EditElement::Section { id: text_of(id.as_str()) }),
        EditElement::Form { id } => Ok(EditElement::Form { id: text_of(id.as_str()) }),
        EditElement::Heading { id, text } => Ok(
            EditElement::Heading { id: text_of(id.as_str()), text: text_of(text.as_str()) },
        ),
        EditElement::Placeholder { id, text } => Ok(
            EditElement::Placeholder { id: text_of(id.as_str()), text: text_of(text.as_str()) },
        ),
    }
}

pub open spec fn normalize_opt_field(doc: DocumentAst, o: Option<Seq<char>>) -> Result<
    Option<Seq<char>>,
    (Seq<char>, Seq<char>),
> {
    match o {
        None => Ok(None),
        Some(v) => match normalize_field_spec(doc, v) {
            Err(e) => Err(e),
            Ok(f) => Ok(Some(f)),
        },
    }
}

pub open spec fn normalize_opt_ref(doc: DocumentAst, o: Option<Seq<char>>, kind: Seq<char>) -> Result<
    Option<Seq<char>>,
    (Seq<char>, Seq<char>),
> {
    match o {
        None => Ok(None),
        Some(v) => match normalize_decl_ref_spec(doc, v, kind) {
            Err(e) => Err(e),
            Ok(f) => Ok(Some(f)),
        },
    }
}

/// A patch with its references normalized: field, model, fields, action, in that order.
pub open spec fn normalize_patch_spec(doc: DocumentAst, pv: PatchView) -> Result<
    PatchView,
    (Seq<char>, Seq<char>),
> {
    match normalize_opt_field(doc, pv.field_id) {
        Err(e) => Err(e),
        Ok(field_id) => match normalize_opt_ref(doc, pv.model_id, "model"@) {
            Err(e) => Err(e),
            Ok(model_id) => match (match pv.field_ids {
                None => Ok(None),
                Some(fs) => match normalize_fields_spec(doc, fs) {
                    Err(e) => Err(e),
                    Ok(n) => Ok(Some(n)),
                },
            }) {
                Err(e) => Err(e),
                Ok(field_ids) => match normalize_opt_ref(doc, pv.action_id, "action"@) {
                    Err(e) => Err(e),
                    Ok(action_id) => Ok(PatchView { field_id, model_id, field_ids, action_id, ..pv }),
                },
            },
        },
    }
}

fn copy_opt(o: &Option<String>) -> (r: Option<String>)
    ensures
        opt_text(r) == opt_text(*o),
{
    match o {
        Some(s) => Some(text_of(s.as_str())),
        None => None,
    }
}

/// A patch with its references normalized.
pub fn normalize_patch(document: &DocumentAst, patch: &EditPatch) -> (r: Result<
    EditPatch,
    (&'static str, String),
>)
    ensures
        match r {
            Ok(p) => normalize_patch_spec(*document, patch@) == Ok::<
                PatchView,
                (Seq<char>, Seq<char>),
            >(p@),
            Err((code, reason)) => normalize_patch_spec(*document, patch@) == Err::<
                PatchView,
                (Seq<char>, Seq<char>),
            >((code@, reason@)),
        },
{
    let field_id = match &patch.field_id {
        None => None,
        Some(v) => match normalize_field(document, v.as_str()) {
            Ok(f) => Some(f),
            Err(e) => {
                return Err(e);
            },
        },
    };
    let model_id = match &patch.model_id {
        None => None,
        Some(v) => match normalize_decl_ref(document, v.as_str(), "model") {
            Ok(f) => Some(f),
            Err(e) => {
                return Err(e);
            },
        },
    };
    let field_ids = match &patch.field_ids {
        None => None,
        Some(vs) => match normalize_fields(document, vs) {
            Ok(n) => Some(n),
            Err(e) => {
                return Err(e);
            },
        },
    };
    let action_id = match &patch.action_id {
        None => None,
        Some(v) => match normalize_decl_ref(document, v.as_str(), "action") {
            Ok(f) => Some(f),
            Err(e) => {
                return Err(e);
            },
        },
    };
    let p = EditPatch {
        text: copy_opt(&patch.text),
        field_id,
        model_id,
        field_ids,
        name: copy_opt(&patch.name),
        action_id,
        clear_action: patch.clear_action,
    };
    proof {
        assert(p@ == (PatchView {
            field_id: p@.field_id,
            model_id: p@.model_id,
            field_ids: p@.field_ids,
            action_id: p@.action_id,
            ..patch@
        }));
    }
    Ok(p)
}

/// Every layout of the document is small enough to count.
pub open spec fn layouts_fit(doc: DocumentAst) -> bool {
    match doc.frontmatter {
        Some(fm) => forall|k: int|
            0 <= k < fm.screens@.len() ==> forest_size(
                layouts_view(#[trigger] fm.screens@[k].elements@),
            ) <= usize::MAX,
        None => true,
    }
}

pub open spec fn forest_at(fm: FrontmatterAst, k: int) -> Seq<LayoutView> {
    layouts_view(fm.screens@[k].elements@)
}

/// `new` is `old` with the elements of the layout `k` replaced by `forest`.
pub open spec fn with_layout(old: DocumentAst, new: DocumentAst, k: int, forest: Seq<LayoutView>) -> bool {
    &&& new.module == old.module
    &&& new.declarations == old.declarations
    &&& old.frontmatter is Some
    &&& new.frontmatter is Some
    &&& {
        let f0 = old.frontmatter->0;
        let f1 = new.frontmatter->0;
        &&& f1.module == f0.module
        &&& f1.information_architecture == f0.information_architecture
        &&& f1.paths == f0.paths
        &&& f1.workflows == f0.workflows
        &&& f1.span == f0.span
        &&& 0 <= k < f0.screens@.len()
        &&& f1.screens@.len() == f0.screens@.len()
        &&& forall|m: int|
            0 <= m < f0.screens@.len() && m != k ==> #[trigger] f1.screens@[m] == f0.screens@[m]
        &&& f1.screens@[k].screen == f0.screens@[k].screen
        &&& f1.screens@[k].kind == f0.screens@[k].kind
        &&& f1.screens@[k].span == f0.screens@[k].span
        &&& layouts_view(f1.screens@[k].elements@) == forest
    }
}

/// What a structured edit of a document does.
pub enum DocEdit {
    /// Rejected before anything changed.
    Rejected((Seq<char>, Seq<char>)),
    /// The layout `k` was edited: its new elements and the edit's result.
    Edited(int, Seq<LayoutView>, Result<(), (Seq<char>, Seq<char>)>),
    /// The screen paths were replaced by these, and the edit succeeded.
    Paths(Seq<PathShape>),
}

pub open spec fn doc_edit_holds(old: DocumentAst, new: DocumentAst, r: EditResult, e: DocEdit) -> bool {
    match e {
        DocEdit::Rejected(err) => new == old && result_view(r) == Err::<(), (Seq<char>, Seq<char>)>(
            err,
        ),
        DocEdit::Edited(k, forest, res) => with_layout(old, new, k, forest) && result_view(r)
            == res,
        DocEdit::Paths(ps) => with_paths(old, new, ps) && result_view(r) == Ok::<
            (),
            (Seq<char>, Seq<char>),
        >(()),
    }
}

/// `new` is `old` with its screen paths replaced by `ps`.
pub open spec fn with_paths(old: DocumentAst, new: DocumentAst, ps: Seq<PathShape>) -> bool {
    &&& new.module == old.module
    &&& new.declarations == old.declarations
    &&& old.frontmatter is Some
    &&& new.frontmatter is Some
    &&& {
        let f0 = old.frontmatter->0;
        let f1 = new.frontmatter->0;
        &&& f1.module == f0.module
        &&& f1.information_architecture == f0.information_architecture
        &&& f1.screens == f0.screens
        &&& f1.workflows == f0.workflows
        &&& f1.span == f0.span
        &&& f1.paths@.map_values(|p: ScreenPathAst| path_shape(p)) == ps
    }
}

pub open spec fn no_frontmatter() -> (Seq<char>, Seq<char>) {
    ("RSPDL-EDIT-NO-FRONTMATTER"@, "document has no frontmatter"@)
}

fn no_frontmatter_error() -> (r: EditResult)
    ensures
        result_view(r) == Err::<(), (Seq<char>, Seq<char>)>(no_frontmatter()),
{
    Err(("RSPDL-EDIT-NO-FRONTMATTER", text_of("document has no frontmatter")))
}

/// Deleting an element of a screen's layout.
pub open spec fn delete_doc_spec(doc: DocumentAst, screen_id: Seq<char>, id: Seq<char>) -> DocEdit {
    match doc.frontmatter {
        None => DocEdit::Rejected(no_frontmatter()),
        Some(fm) => match screen_layout_spec(doc, fm, screen_id) {
            Err(e) => DocEdit::Rejected(e),
            Ok(k) => DocEdit::Edited(
                k,
                delete_spec(forest_at(fm, k), id).0,
                delete_spec(forest_at(fm, k), id).1,
            ),
        },
    }
}

/// Inserting a new element into a screen's layout; its references are normalized first.
pub open spec fn insert_doc_spec(
    doc: DocumentAst,
    screen_id: Seq<char>,
    element: EditElement,
    parent: Option<Seq<char>>,
    slot: EditSlot,
    before: Option<Seq<char>>,
) -> DocEdit {
    match doc.frontmatter {
        None => DocEdit::Rejected(no_frontmatter()),
        Some(fm) => match normalize_element_spec(doc, element) {
            Err(e) => DocEdit::Rejected(e),
            Ok(nv) => match screen_layout_spec(doc, fm, screen_id) {
                Err(e) => DocEdit::Rejected(e),
                Ok(k) => DocEdit::Edited(
                    k,
                    insert_view_spec(forest_at(fm, k), edit_id(element), nv, parent, slot, before).0,
                    insert_view_spec(forest_at(fm, k), edit_id(element), nv, parent, slot, before).1,
                ),
            },
        },
    }
}

/// Moving an element within a screen's layout.
pub open spec fn move_doc_spec(
    doc: DocumentAst,
    screen_id: Seq<char>,
    id: Seq<char>,
    parent: Option<Seq<char>>,
    slot: EditSlot,
    before: Option<Seq<char>>,
) -> DocEdit {
    match doc.frontmatter {
        None => DocEdit::Rejected(no_frontmatter()),
        Some(fm) => match screen_layout_spec(doc, fm, screen_id) {
            Err(e) => DocEdit::Rejected(e),
            Ok(k) => DocEdit::Edited(
                k,
                move_spec(forest_at(fm, k), id, parent, slot, before).0,
                move_spec(forest_at(fm, k), id, parent, slot, before).1,
            ),
        },
    }
}

/// Updating an element of a screen's layout; the patch's references are normalized first.
pub open spec fn update_doc_spec(
    doc: DocumentAst,
    screen_id: Seq<char>,
    id: Seq<char>,
    pv: PatchView,
) -> DocEdit {
    match doc.frontmatter {
        None => DocEdit::Rejected(no_frontmatter()),
        Some(fm) => match normalize_patch_spec(doc, pv) {
            Err(e) => DocEdit::Rejected(e),
            Ok(p2) => match screen_layout_spec(doc, fm, screen_id) {
                Err(e) => DocEdit::Rejected(e),
                Ok(k) => DocEdit::Edited(
                    k,
                    update_by_id_spec(forest_at(fm, k), id, p2).0,
                    update_by_id_spec(forest_at(fm, k), id, p2).1,
                ),
            },
        },
    }
}

/// Deletes the element `element_id` from the layout of the screen `screen_id`.
pub fn apply_delete(document: &mut DocumentAst, screen_id: &str, element_id: &str) -> (r:
    EditResult)
    requires
        layouts_fit(*old(document)),
    ensures
        doc_edit_holds(*old(document), *final(document), r, delete_doc_spec(*old(document), screen_id@, element_id@)),
{
    if document.frontmatter.is_none() {
        return no_frontmatter_error();
    }
    let k = match screen_layout(document, document.frontmatter.as_ref().unwrap(), screen_id) {
        Ok(k) => k,
        Err(e) => {
            return Err(e);
        },
    };
    let ghost old_doc = *document;
    let mut fm = document.frontmatter.take().unwrap();
    let ghost f0 = fm;
    let mut layout = fm.screens.remove(k);
    let ghost l0 = layout;
    proof {
        assert(fm.screens@.len() + 1 == f0.screens@.len());
        assert(l0 == f0.screens@[k as int]);
    }
    let r = delete_element(&mut layout.elements, element_id);
    fm.screens.insert(k, layout);
    document.frontmatter = Some(fm);
    proof {
        assert(forall|m: int| 0 <= m < f0.screens@.len() && m != k ==> #[trigger] fm.screens@[m] == f0.screens@[m]);
    }
    r
}

/// Inserts a new element into the layout of the screen `screen_id`.
pub fn apply_insert(
    document: &mut DocumentAst,
    screen_id: &str,
    parent: Option<&str>,
    slot: EditSlot,
    before: Option<&str>,
    element: &EditElement,
) -> (r: EditResult)
    requires
        layouts_fit(*old(document)),
    ensures
        doc_edit_holds(
            *old(document),
            *final(document),
            r,
            insert_doc_spec(*old(document), screen_id@, *element, opt_str(parent), slot, opt_str(before)),
        ),
{
    if document.frontmatter.is_none() {
        return no_frontmatter_error();
    }
    let normalized = match normalize_edit_element(document, element) {
        Ok(e) => e,
        Err(e) => {
            return Err(e);
        },
    };
    let k = match screen_layout(document, document.frontmatter.as_ref().unwrap(), screen_id) {
        Ok(k) => k,
        Err(e) => {
            return Err(e);
        },
    };
    let mut fm = document.frontmatter.take().unwrap();
    let ghost f0 = fm;
    let mut layout = fm.screens.remove(k);
    proof {
        assert(layout == f0.screens@[k as int]);
    }
    let r = insert_element(&mut layout.elements, normalized, parent, slot, before);
    fm.screens.insert(k, layout);
    document.frontmatter = Some(fm);
    proof {
        assert(forall|m: int| 0 <= m < f0.screens@.len() && m != k ==> #[trigger] fm.screens@[m] == f0.screens@[m]);
    }
    r
}

/// Moves the element `element_id` within the layout of the screen `screen_id`.
pub fn apply_move(
    document: &mut DocumentAst,
    screen_id: &str,
    element_id: &str,
    parent: Option<&str>,
    slot: EditSlot,
    before: Option<&str>,
) -> (r: EditResult)
    requires
        layouts_fit(*old(document)),
    ensures
        doc_edit_holds(
            *old(document),
            *final(document),
            r,
            move_doc_spec(*old(document), screen_id@, element_id@, opt_str(parent), slot, opt_str(before)),
        ),
{
    if document.frontmatter.is_none() {
        return no_frontmatter_error();
    }
    let k = match screen_layout(document, document.frontmatter.as_ref().unwrap(), screen_id) {
        Ok(k) => k,
        Err(e) => {
            return Err(e);
        },
    };
    let mut fm = document.frontmatter.take().unwrap();
    let ghost f0 = fm;
    let mut layout = fm.screens.remove(k);
    proof {
        assert(layout == f0.screens@[k as int]);
    }
    let r = move_element(&mut layout.elements, element_id, parent, slot, before);
    fm.screens.insert(k, layout);
    document.frontmatter = Some(fm);
    proof {
        assert(forall|m: int| 0 <= m < f0.screens@.len() && m != k ==> #[trigger] fm.screens@[m] == f0.screens@[m]);
    }
    r
}

/// Applies `patch` to the element `element_id` of the layout of the screen `screen_id`.
pub fn apply_update(
    document: &mut DocumentAst,
    screen_id: &str,
    element_id: &str,
    patch: &EditPatch,
) -> (r: EditResult)
    requires
        layouts_fit(*old(document)),
    ensures
        doc_edit_holds(
            *old(document),
            *final(document),
            r,
            update_doc_spec(*old(document), screen_id@, element_id@, patch@),
        ),
{
    if document.frontmatter.is_none() {
        return no_frontmatter_error();
    }
    let normalized = match normalize_patch(document, patch) {
        Ok(p) => p,
        Err(e) => {
            return Err(e);
        },
    };
    let k = match screen_layout(document, document.frontmatter.as_ref().unwrap(), screen_id) {
        Ok(k) => k,
        Err(e) => {
            return Err(e);
        },
    };
    let mut fm = document.frontmatter.take().unwrap();
    let ghost f0 = fm;
    let mut layout = fm.screens.remove(k);
    proof {
        assert(layout == f0.screens@[k as int]);
    }
    let r = update_element_by_id(&mut layout.elements, element_id, &normalized);
    fm.screens.insert(k, layout);
    document.frontmatter = Some(fm);
    proof {
        assert(forall|m: int| 0 <= m < f0.screens@.len() && m != k ==> #[trigger] fm.screens@[m] == f0.screens@[m]);
    }
    r
}

/// The last piece of `s` cut at its dots.
pub open spec fn last_piece(s: Seq<char>) -> Seq<char> {
    split_dots(s).last()
}

/// The declaration `d` is the screen whose full id is `canonical`, and `text` names it: by
/// its display name, its full id or the last piece of its full id.
pub open spec fn names_screen(d: DeclarationAst, module_id: Seq<char>, text: Seq<char>, canonical: Seq<char>) -> bool {
    match d {
        DeclarationAst::Screen(sc) => canonical == module_id + "."@ + sc.declaration.id@ && (text
            == sc.declaration.name@ || text == canonical || text == last_piece(canonical)),
        _ => false,
    }
}

/// Some screen declaration of the document has the full id `canonical` and is named by `text`.
pub open spec fn screen_ref_matches_spec(doc: DocumentAst, text: Seq<char>, canonical: Seq<char>) -> bool {
    exists|j: int|
        0 <= j < doc.declarations@.len() && names_screen(
            #[trigger] doc.declarations@[j],
            doc.module.declaration.id@,
            text,
            canonical,
        )
}

/// The path `p` runs from the element `elem` of the screen `src` to the screen `target`, with
/// the label `label`. A path of the document has no outcome and no same-screen handler.
pub open spec fn path_matches(
    doc: DocumentAst,
    p: PathShape,
    src: Seq<char>,
    elem: Seq<char>,
    target: Option<Seq<char>>,
    label: Option<Seq<char>>,
) -> bool {
    &&& screen_ref_matches_spec(doc, p.source_screen.text, src)
    &&& p.source_element.text == elem
    &&& target matches Some(t) && screen_ref_matches_spec(doc, p.target_screen.text, t)
    &&& p.label == label
}

/// How many of the paths from `k` on match.
pub open spec fn count_paths(
    ps: Seq<PathShape>,
    doc: DocumentAst,
    src: Seq<char>,
    elem: Seq<char>,
    target: Option<Seq<char>>,
    label: Option<Seq<char>>,
    k: int,
) -> nat
    decreases ps.len() - k,
{
    if k < 0 || k >= ps.len() {
        0
    } else {
        (if path_matches(doc, ps[k], src, elem, target, label) {
            1nat
        } else {
            0nat
        }) + count_paths(ps, doc, src, elem, target, label, k + 1)
    }
}

/// The index of the first path from `k` on that matches, or -1.
pub open spec fn first_path(
    ps: Seq<PathShape>,
    doc: DocumentAst,
    src: Seq<char>,
    elem: Seq<char>,
    target: Option<Seq<char>>,
    label: Option<Seq<char>>,
    k: int,
) -> int
    decreases ps.len() - k,
{
    if k < 0 || k >= ps.len() {
        -1
    } else if path_matches(doc, ps[k], src, elem, target, label) {
        k
    } else {
        first_path(ps, doc, src, elem, target, label, k + 1)
    }
}

/// How a path refers to the screen with the full id `canonical`: by its display name, or by
/// its local id when it has none.
pub open spec fn screen_source_ref_spec(doc: DocumentAst, canonical: Seq<char>) -> Result<
    Seq<char>,
    (Seq<char>, Seq<char>),
> {
    let j = screen_decl_from(doc.declarations@, doc.module.declaration.id@, canonical, 0);
    if j < 0 {
        Err(("RSPDL-EDIT-SCREEN-NOT-FOUND"@, "screen "@ + canonical + " not found"@))
    } else {
        let (name, local) = screen_of(doc.declarations@[j]);
        Ok(
            if name.len() == 0 {
                local
            } else {
                name
            },
        )
    }
}

/// The error for a path with an outcome or a same-screen handler: a path of the document is
/// a source element, a target screen and a label, and cannot hold either.
pub open spec fn path_edit_unsupported() -> (Seq<char>, Seq<char>) {
    ("RSPDL-EDIT-INVALID"@, "a screen path cannot hold an outcome or a handler"@)
}

pub open spec fn paths_view(ps: Seq<ScreenPathAst>) -> Seq<PathShape> {
    ps.map_values(|p: ScreenPathAst| path_shape(p))
}

/// Connecting the element `elem` of the screen `src`: the element must be the only one with
/// its id in the screen's layout, exactly one of a target screen and a handler is named, a
/// named target screen must be declared, and the same path must not be there already. The
/// new path refers to the screens as paths write them and has no position in the source.
pub open spec fn connect_spec(
    doc: DocumentAst,
    fm: FrontmatterAst,
    src: Seq<char>,
    elem: Seq<char>,
    target: Option<Seq<char>>,
    has_outcome: bool,
    has_handler: bool,
    label: Option<Seq<char>>,
) -> DocEdit {
    match screen_layout_spec(doc, fm, src) {
        Err(e) => DocEdit::Rejected(e),
        Ok(k) => {
            let c = count_spec(forest_at(fm, k), elem);
            if c != 1 {
                DocEdit::Rejected(
                    (
                        if c == 0 {
                            "RSPDL-EDIT-NOT-FOUND"@
                        } else {
                            "RSPDL-EDIT-AMBIGUOUS"@
                        },
                        "source element matched "@ + decimal_spec(c) + " times"@,
                    ),
                )
            } else if (target is Some) == has_handler {
                DocEdit::Rejected(
                    ("RSPDL-EDIT-INVALID"@, "connect requires exactly one target_screen_id or handler"@),
                )
            } else if target matches Some(t) && validate_screen_spec(doc, t) is Err {
                DocEdit::Rejected(validate_screen_spec(doc, target->0)->Err_0)
            } else {
                match screen_source_ref_spec(doc, src) {
                    Err(e) => DocEdit::Rejected(e),
                    Ok(sref) => if count_paths(paths_view(fm.paths@), doc, src, elem, target, label, 0) > 0 {
                        DocEdit::Rejected(("RSPDL-EDIT-UNCHANGED"@, "screen path already exists"@))
                    } else if has_outcome || has_handler {
                        DocEdit::Rejected(path_edit_unsupported())
                    } else {
                        match screen_source_ref_spec(doc, target->0) {
                            Err(e) => DocEdit::Rejected(e),
                            Ok(tref) => DocEdit::Paths(
                                paths_view(fm.paths@).push(
                                    PathShape {
                                        source_screen: reference_view(sref),
                                        source_element: reference_view(elem),
                                        target_screen: reference_view(tref),
                                        label,
                                        span: Span { start: 0, end: 0 },
                                    },
                                ),
                            ),
                        }
                    },
                }
            }
        },
    }
}

/// Disconnecting takes out the one path that matches. A path of the document has no outcome
/// and no handler, so a request that names either matches none.
pub open spec fn disconnect_spec(
    doc: DocumentAst,
    fm: FrontmatterAst,
    src: Seq<char>,
    elem: Seq<char>,
    target: Option<Seq<char>>,
    has_outcome: bool,
    has_handler: bool,
    label: Option<Seq<char>>,
) -> DocEdit {
    if (target is Some) == has_handler {
        DocEdit::Rejected(
            ("RSPDL-EDIT-INVALID"@, "disconnect requires exactly one target_screen_id or handler"@),
        )
    } else {
        let m = if has_outcome || has_handler {
            0
        } else {
            count_paths(paths_view(fm.paths@), doc, src, elem, target, label, 0)
        };
        if m == 0 {
            DocEdit::Rejected(("RSPDL-EDIT-NOT-FOUND"@, "screen path not found"@))
        } else if m > 1 {
            DocEdit::Rejected(("RSPDL-EDIT-AMBIGUOUS"@, "screen path matched "@ + decimal_spec(m) + " times"@))
        } else {
            DocEdit::Paths(paths_view(fm.paths@).remove(first_path(paths_view(fm.paths@), doc, src, elem, target, label, 0)))
        }
    }
}

proof fn lemma_size_step(vs: Seq<LayoutView>, i: int)
    requires
        0 <= i < vs.len(),
    ensures
        forest_size(vs.take(i + 1)) == forest_size(vs.take(i)) + 1 + match vs[i] {
            LayoutView::Header { children, .. } => forest_size(children),
            LayoutView::Section { children, .. } => forest_size(children),
            LayoutView::Form { inputs, .. } => forest_size(inputs),
            _ => 0,
        },
{
    assert(vs.take(i + 1).subrange(0, i) =~= vs.take(i));
}

proof fn lemma_size_prefix(vs: Seq<LayoutView>, j: int)
    requires
        0 <= j <= vs.len(),
    ensures
        forest_size(vs.take(j)) <= forest_size(vs),
    decreases vs.len(),
{
    if j < vs.len() {
        let init = vs.subrange(0, vs.len() - 1);
        lemma_size_prefix(init, j);
        assert(init.take(j) =~= vs.take(j));
    } else {
        assert(vs.take(j) =~= vs);
    }
}

/// The number of elements of `elements` at any depth, or `None` when it does not fit in a
/// `usize`.
pub fn forest_count(elements: &[LayoutElementAst]) -> (r: Option<usize>)
    ensures
        match r {
            Some(n) => n == forest_size(layouts_view(elements@)),
            None => forest_size(layouts_view(elements@)) > usize::MAX,
        },
    decreases elements@,
{
    let ghost vs = layouts_view(elements@);
    proof {
        lemma_layouts_view(elements@);
        assert(vs.take(0) =~= Seq::<LayoutView>::empty());
    }
    let mut total: usize = 0;
    let mut i: usize = 0;
    while i < elements.len()
        invariant
            i <= elements@.len(),
            vs == layouts_view(elements@),
            vs =~= elements@.map_values(|e: LayoutElementAst| layout_view(e)),
            total == forest_size(vs.take(i as int)),
        decreases elements@.len() - i,
    {
        let e = &elements[i];
        proof {
            lemma_size_step(vs, i as int);
            lemma_size_prefix(vs, i + 1);
            assert(vs[i as int] == layout_view(elements@[i as int]));
        }
        let below: Option<usize> = match e {
            LayoutElementAst::Header { children, .. } => {
                proof {
                    assert(decreases_to!(elements@ => elements@[i as int]));
                }
                forest_count(children.as_slice())
            },
            LayoutElementAst::Section { children, .. } => {
                proof {
                    assert(decreases_to!(elements@ => elements@[i as int]));
                }
                forest_count(children.as_slice())
            },
            LayoutElementAst::Form { inputs, .. } => {
                proof {
                    assert(decreases_to!(elements@ => elements@[i as int]));
                }
                forest_count(inputs.as_slice())
            },
            _ => Some(0),
        };
        let b = match below {
            Some(b) => b,
            None => {
                return None;
            },
        };
        let with_one = match total.checked_add(1) {
            Some(t) => t,
            None => {
                return None;
            },
        };
        total = match with_one.checked_add(b) {
            Some(t) => t,
            None => {
                return None;
            },
        };
        i = i + 1;
    }
    proof {
        assert(vs.take(elements@.len() as int) =~= vs);
    }
    Some(total)
}

/// Whether every layout of the document is small enough to count.
pub fn layouts_fit_check(document: &DocumentAst) -> (b: bool)
    ensures
        b == layouts_fit(*document),
{
    match &document.frontmatter {
        None => true,
        Some(fm) => {
            let mut k: usize = 0;
            while k < fm.screens.len()
                invariant
                    document.frontmatter == Some(*fm),
                    k <= fm.screens@.len(),
                    forall|m: int|
                        0 <= m < k ==> forest_size(layouts_view(#[trigger] fm.screens@[m].elements@))
                            <= usize::MAX,
                decreases fm.screens@.len() - k,
            {
                match forest_count(fm.screens[k].elements.as_slice()) {
                    Some(_) => {},
                    None => {
                        proof {
                            assert(forest_size(layouts_view(fm.screens@[k as int].elements@)) > usize::MAX);
                        }
                        return false;
                    },
                }
                k = k + 1;
            }
            true
        },
    }
}

/// What one structured operation does to a document.
pub open spec fn apply_spec(doc: DocumentAst, op: EditOperation) -> DocEdit {
    if doc.frontmatter is None {
        DocEdit::Rejected(no_frontmatter())
    } else {
        match op {
            EditOperation::Insert { screen_id, parent_element_id, slot, before_element_id, element } =>
                insert_doc_spec(
                doc,
                screen_id@,
                element,
                opt_string(parent_element_id),
                slot,
                opt_string(before_element_id),
            ),
            EditOperation::Delete { screen_id, element_id } => delete_doc_spec(doc, screen_id@, element_id@),
            EditOperation::Move { screen_id, element_id, parent_element_id, slot, before_element_id } =>
                move_doc_spec(
                doc,
                screen_id@,
                element_id@,
                opt_string(parent_element_id),
                slot,
                opt_string(before_element_id),
            ),
            EditOperation::Update { screen_id, element_id, patch } => update_doc_spec(
                doc,
                screen_id@,
                element_id@,
                patch@,
            ),
            EditOperation::Connect {
                source_screen_id,
                source_element_id,
                target_screen_id,
                outcome_id,
                handler,
                label,
            } => connect_spec(
                doc,
                doc.frontmatter->0,
                source_screen_id@,
                source_element_id@,
                opt_string(target_screen_id),
                outcome_id is Some,
                handler is Some,
                opt_string(label),
            ),
            EditOperation::Disconnect {
                source_screen_id,
                source_element_id,
                target_screen_id,
                outcome_id,
                handler,
                label,
            } => disconnect_spec(
                doc,
                doc.frontmatter->0,
                source_screen_id@,
                source_element_id@,
                opt_string(target_screen_id),
                outcome_id is Some,
                handler is Some,
                opt_string(label),
            ),
        }
    }
}

fn as_opt_str(o: &Option<String>) -> (r: Option<&str>)
    ensures
        opt_str(r) == opt_string(*o),
{
    match o {
        Some(s) => Some(s.as_str()),
        None => None,
    }
}

/// Whether some screen declaration of the document has the full id `canonical` and is named
/// by `text`.
fn screen_ref_matches(document: &DocumentAst, text: &str, canonical: &str) -> (b: bool)
    ensures
        b == screen_ref_matches_spec(*document, text@, canonical@),
{
    let parts = split_dots_exec(canonical);
    let last = parts[parts.len() - 1].as_str();
    proof {
        assert(last@ == split_dots(canonical@).last());
    }
    let decls = &document.declarations;
    let module_id = document.module.declaration.id.as_str();
    let mut j: usize = 0;
    while j < decls.len()
        invariant
            decls@ == document.declarations@,
            module_id@ == document.module.declaration.id@,
            last@ == last_piece(canonical@),
            j <= decls@.len(),
            forall|q: int| 0 <= q < j ==> !names_screen(#[trigger] decls@[q], module_id@, text@, canonical@),
        decreases decls@.len() - j,
    {
        let hit = match &decls[j] {
            DeclarationAst::Screen(sc) => str_eq(
                full_id(module_id, sc.declaration.id.as_str()).as_str(),
                canonical,
            ) && (str_eq(text, sc.declaration.name.as_str()) || str_eq(text, canonical) || str_eq(
                text,
                last,
            )),
            _ => false,
        };
        if hit {
            proof {
                assert(names_screen(decls@[j as int], module_id@, text@, canonical@));
            }
            return true;
        }
        j = j + 1;
    }
    false
}

fn same_label(a: &Option<String>, b: &Option<String>) -> (r: bool)
    ensures
        r == (opt_string(*a) == opt_string(*b)),
{
    match (a, b) {
        (Some(x), Some(y)) => str_eq(x.as_str(), y.as_str()),
        (None, None) => true,
        _ => false,
    }
}

fn path_matches_exec(
    document: &DocumentAst,
    p: &ScreenPathAst,
    src: &str,
    elem: &str,
    target: Option<&str>,
    label: &Option<String>,
) -> (b: bool)
    ensures
        b == path_matches(*document, path_shape(*p), src@, elem@, opt_str(target), opt_string(*label)),
{
    let t = match target {
        Some(t) => t,
        None => {
            return false;
        },
    };
    screen_ref_matches(document, p.source_screen.text.as_str(), src) && str_eq(
        p.source_element.text.as_str(),
        elem,
    ) && screen_ref_matches(document, p.target_screen.text.as_str(), t) && same_label(&p.label, label)
}

/// How many paths match, and the first one that does.
fn count_paths_exec(
    document: &DocumentAst,
    paths: &Vec<ScreenPathAst>,
    src: &str,
    elem: &str,
    target: Option<&str>,
    label: &Option<String>,
) -> (r: (usize, usize))
    ensures
        r.0 == count_paths(paths_view(paths@), *document, src@, elem@, opt_str(target), opt_string(*label), 0),
        r.0 > 0 ==> r.1 as int == first_path(paths_view(paths@), *document, src@, elem@, opt_str(target), opt_string(*label), 0)
            && r.1 < paths@.len(),
{
    let ghost ps = paths_view(paths@);
    let ghost t = opt_str(target);
    let ghost l = opt_string(*label);
    let n: usize = paths.len();
    let mut k: usize = n;
    let mut count: usize = 0;
    let mut first: usize = n;
    while k > 0
        invariant
            n == paths@.len(),
            ps == paths_view(paths@),
            k <= paths@.len(),
            t == opt_str(target),
            l == opt_string(*label),
            count <= paths@.len() - k,
            count == count_paths(ps, *document, src@, elem@, t, l, k as int),
            first == (if first_path(ps, *document, src@, elem@, t, l, k as int) < 0 {
                paths@.len() as int
            } else {
                first_path(ps, *document, src@, elem@, t, l, k as int)
            }),
            first_path(ps, *document, src@, elem@, t, l, k as int) < paths@.len(),
            count > 0 ==> first_path(ps, *document, src@, elem@, t, l, k as int) >= 0,
        decreases k,
    {
        k = k - 1;
        proof {
            assert(ps[k as int] == path_shape(paths@[k as int]));
        }
        if path_matches_exec(document, &paths[k], src, elem, target, label) {
            count = count + 1;
            first = k;
        }
    }
    (count, first)
}

/// How a path refers to the screen with the full id `canonical`.
fn screen_source_reference(document: &DocumentAst, canonical: &str) -> (r: Result<
    String,
    (&'static str, String),
>)
    ensures
        match r {
            Ok(v) => screen_source_ref_spec(*document, canonical@) == Ok::<
                Seq<char>,
                (Seq<char>, Seq<char>),
            >(v@),
            Err((code, reason)) => screen_source_ref_spec(*document, canonical@) == Err::<
                Seq<char>,
                (Seq<char>, Seq<char>),
            >((code@, reason@)),
        },
{
    let j = match screen_declaration(document, canonical) {
        Some(j) => j,
        None => {
            return Err(("RSPDL-EDIT-SCREEN-NOT-FOUND", screen_not_found(canonical, " not found")));
        },
    };
    let (name, local) = screen_names(document, j);
    let n = chars_of(name);
    if n.len() == 0 {
        Ok(text_of(local))
    } else {
        Ok(text_of(name))
    }
}

fn matched_times(prefix: &str, count: usize) -> (r: String)
    ensures
        r@ == prefix@ + decimal_spec(count as nat) + " times"@,
{
    let mut reason = text_of(prefix);
    let n = decimal(count);
    reason.append(n.as_str());
    reason.append(" times");
    reason
}

/// Adds the screen path from the element `elem` of the screen `src` to the screen `target`.
pub fn apply_connect(
    document: &mut DocumentAst,
    src: &str,
    elem: &str,
    target: Option<&str>,
    has_outcome: bool,
    has_handler: bool,
    label: &Option<String>,
) -> (r: EditResult)
    requires
        layouts_fit(*old(document)),
        old(document).frontmatter is Some,
    ensures
        doc_edit_holds(
            *old(document),
            *final(document),
            r,
            connect_spec(
                *old(document),
                old(document).frontmatter->0,
                src@,
                elem@,
                opt_str(target),
                has_outcome,
                has_handler,
                opt_string(*label),
            ),
        ),
{
    let ghost d0 = *document;
    let k = match screen_layout(document, document.frontmatter.as_ref().unwrap(), src) {
        Ok(k) => k,
        Err(e) => {
            return Err(e);
        },
    };
    let c = {
        let fm = document.frontmatter.as_ref().unwrap();
        proof {
            lemma_count_le_size(layouts_view(fm.screens@[k as int].elements@), elem@);
        }
        count_elements(fm.screens[k].elements.as_slice(), elem)
    };
    if c != 1 {
        let code = if c == 0 {
            "RSPDL-EDIT-NOT-FOUND"
        } else {
            "RSPDL-EDIT-AMBIGUOUS"
        };
        return Err((code, matched_times("source element matched ", c)));
    }
    if target.is_some() == has_handler {
        return Err(("RSPDL-EDIT-INVALID", text_of("connect requires exactly one target_screen_id or handler")));
    }
    match target {
        Some(t) => match validate_screen(document, t) {
            Ok(()) => {},
            Err(e) => {
                return Err(e);
            },
        },
        None => {},
    }
    let sref = match screen_source_reference(document, src) {
        Ok(v) => v,
        Err(e) => {
            return Err(e);
        },
    };
    let (m, _) = count_paths_exec(
        document,
        &document.frontmatter.as_ref().unwrap().paths,
        src,
        elem,
        target,
        label,
    );
    if m > 0 {
        return Err(("RSPDL-EDIT-UNCHANGED", text_of("screen path already exists")));
    }
    if has_outcome || has_handler {
        return Err(("RSPDL-EDIT-INVALID", text_of("a screen path cannot hold an outcome or a handler")));
    }
    let t = target.unwrap();
    let tref = match screen_source_reference(document, t) {
        Ok(v) => v,
        Err(e) => {
            return Err(e);
        },
    };
    let path = ScreenPathAst {
        source_screen: reference(sref.as_str()),
        source_element: reference(elem),
        target_screen: reference(tref.as_str()),
        label: copy_opt(label),
        span: Span { start: 0, end: 0 },
    };
    let mut fm = document.frontmatter.take().unwrap();
    let ghost before = fm.paths@;
    fm.paths.push(path);
    document.frontmatter = Some(fm);
    proof {
        assert(paths_view(fm.paths@) =~= paths_view(before).push(path_shape(path)));
    }
    Ok(())
}

/// Takes out the one screen path from the element `elem` of the screen `src` to `target`.
pub fn apply_disconnect(
    document: &mut DocumentAst,
    src: &str,
    elem: &str,
    target: Option<&str>,
    has_outcome: bool,
    has_handler: bool,
    label: &Option<String>,
) -> (r: EditResult)
    requires
        old(document).frontmatter is Some,
    ensures
        doc_edit_holds(
            *old(document),
            *final(document),
            r,
            disconnect_spec(
                *old(document),
                old(document).frontmatter->0,
                src@,
                elem@,
                opt_str(target),
                has_outcome,
                has_handler,
                opt_string(*label),
            ),
        ),
{
    if target.is_some() == has_handler {
        return Err(
            ("RSPDL-EDIT-INVALID", text_of("disconnect requires exactly one target_screen_id or handler")),
        );
    }
    if has_outcome || has_handler {
        return Err(("RSPDL-EDIT-NOT-FOUND", text_of("screen path not found")));
    }
    let (m, first) = count_paths_exec(
        document,
        &document.frontmatter.as_ref().unwrap().paths,
        src,
        elem,
        target,
        label,
    );
    if m == 0 {
        return Err(("RSPDL-EDIT-NOT-FOUND", text_of("screen path not found")));
    }
    if m > 1 {
        return Err(("RSPDL-EDIT-AMBIGUOUS", matched_times("screen path matched ", m)));
    }
    let mut fm = document.frontmatter.take().unwrap();
    let ghost before = fm.paths@;
    let _ = fm.paths.remove(first);
    document.frontmatter = Some(fm);
    proof {
        assert(paths_view(fm.paths@) =~= paths_view(before).remove(first as int));
    }
    Ok(())
}

proof fn lemma_count_push(
    ps: Seq<PathShape>,
    x: PathShape,
    doc: DocumentAst,
    src: Seq<char>,
    elem: Seq<char>,
    target: Option<Seq<char>>,
    label: Option<Seq<char>>,
    k: int,
)
    requires
        0 <= k <= ps.len(),
    ensures
        count_paths(ps.push(x), doc, src, elem, target, label, k) == count_paths(ps, doc, src, elem, target, label, k)
            + if path_matches(doc, x, src, elem, target, label) {
            1nat
        } else {
            0nat
        },
        count_paths(ps, doc, src, elem, target, label, k) == 0 && path_matches(doc, x, src, elem, target, label)
            ==> first_path(ps.push(x), doc, src, elem, target, label, k) == ps.len(),
    decreases ps.len() - k,
{
    if k < ps.len() {
        assert(ps.push(x)[k] == ps[k]);
        lemma_count_push(ps, x, doc, src, elem, target, label, k + 1);
    } else {
        assert(ps.push(x)[k] == x);
        assert(count_paths(ps.push(x), doc, src, elem, target, label, k + 1) == 0);
        assert(count_paths(ps, doc, src, elem, target, label, k) == 0);
        assert(first_path(ps, doc, src, elem, target, label, k) == -1);
    }
}

proof fn lemma_count_same_names(
    ps: Seq<PathShape>,
    d0: DocumentAst,
    d1: DocumentAst,
    src: Seq<char>,
    elem: Seq<char>,
    target: Option<Seq<char>>,
    label: Option<Seq<char>>,
    k: int,
)
    requires
        0 <= k <= ps.len(),
        d1.declarations == d0.declarations,
        d1.module == d0.module,
    ensures
        count_paths(ps, d1, src, elem, target, label, k) == count_paths(ps, d0, src, elem, target, label, k),
        first_path(ps, d1, src, elem, target, label, k) == first_path(ps, d0, src, elem, target, label, k),
    decreases ps.len() - k,
{
    if k < ps.len() {
        assert(screen_ref_matches_spec(d1, ps[k].source_screen.text, src) == screen_ref_matches_spec(
            d0,
            ps[k].source_screen.text,
            src,
        ));
        if target is Some {
            assert(screen_ref_matches_spec(d1, ps[k].target_screen.text, target->0)
                == screen_ref_matches_spec(d0, ps[k].target_screen.text, target->0));
        }
        lemma_count_same_names(ps, d0, d1, src, elem, target, label, k + 1);
    }
}

/// A screen named by its full id is matched by the reference a new path writes for it.
proof fn lemma_written_reference_matches(doc: DocumentAst, canonical: Seq<char>)
    requires
        screen_source_ref_spec(doc, canonical) is Ok,
        forall|j: int|
            0 <= j < doc.declarations@.len() ==> (#[trigger] doc.declarations@[j] matches DeclarationAst::Screen(
                sc,
            ) ==> sc.declaration.name@.len() > 0),
    ensures
        screen_ref_matches_spec(doc, screen_source_ref_spec(doc, canonical)->Ok_0, canonical),
{
    let j = screen_decl_from(doc.declarations@, doc.module.declaration.id@, canonical, 0);
    lemma_screen_decl_from(doc.declarations@, doc.module.declaration.id@, canonical, 0);
    assert(names_screen(
        doc.declarations@[j],
        doc.module.declaration.id@,
        screen_source_ref_spec(doc, canonical)->Ok_0,
        canonical,
    ));
}

/// Disconnecting the path that a connect has just added takes it out again: the screen paths
/// are what they were before the connect. Every screen is taken to have a display name, as
/// every screen sentence gives it one.
pub proof fn disconnect_undoes_connect(
    d0: DocumentAst,
    d1: DocumentAst,
    r: EditResult,
    src: Seq<char>,
    elem: Seq<char>,
    target: Seq<char>,
    label: Option<Seq<char>>,
)
    requires
        d0.frontmatter is Some,
        forall|j: int|
            0 <= j < d0.declarations@.len() ==> (#[trigger] d0.declarations@[j] matches DeclarationAst::Screen(
                sc,
            ) ==> sc.declaration.name@.len() > 0),
        doc_edit_holds(d0, d1, r, connect_spec(d0, d0.frontmatter->0, src, elem, Some(target), false, false, label)),
        r is Ok,
    ensures
        disconnect_spec(d1, d1.frontmatter->0, src, elem, Some(target), false, false, label)
            == DocEdit::Paths(paths_view((d0.frontmatter->0).paths@)),
{
    let fm0 = d0.frontmatter->0;
    let p0 = paths_view(fm0.paths@);
    let e = connect_spec(d0, fm0, src, elem, Some(target), false, false, label);
    assert(e is Paths);
    let sref = screen_source_ref_spec(d0, src)->Ok_0;
    let tref = screen_source_ref_spec(d0, target)->Ok_0;
    let x = PathShape {
        source_screen: reference_view(sref),
        source_element: reference_view(elem),
        target_screen: reference_view(tref),
        label,
        span: Span { start: 0, end: 0 },
    };
    assert(screen_source_ref_spec(d0, src) is Ok);
    assert(screen_source_ref_spec(d0, target) is Ok);
    assert(count_paths(p0, d0, src, elem, Some(target), label, 0) == 0);
    assert(e == DocEdit::Paths(p0.push(x)));
    lemma_written_reference_matches(d0, src);
    lemma_written_reference_matches(d0, target);
    assert(path_matches(d0, x, src, elem, Some(target), label));
    let fm1 = d1.frontmatter->0;
    assert(paths_view(fm1.paths@) == p0.push(x));
    lemma_count_push(p0, x, d0, src, elem, Some(target), label, 0);
    lemma_count_same_names(p0.push(x), d0, d1, src, elem, Some(target), label, 0);
    assert(p0.push(x).remove(p0.len() as int) =~= p0);
}

/// Applies one structured operation to a document.
pub fn apply(document: &mut DocumentAst, operation: &EditOperation) -> (r: EditResult)
    requires
        layouts_fit(*old(document)),
    ensures
        doc_edit_holds(*old(document), *final(document), r, apply_spec(*old(document), *operation)),
{
    if document.frontmatter.is_none() {
        return no_frontmatter_error();
    }
    match operation {
        EditOperation::Insert { screen_id, parent_element_id, slot, before_element_id, element } =>
            apply_insert(
            document,
            screen_id.as_str(),
            as_opt_str(parent_element_id),
            *slot,
            as_opt_str(before_element_id),
            element,
        ),
        EditOperation::Delete { screen_id, element_id } => apply_delete(
            document,
            screen_id.as_str(),
            element_id.as_str(),
        ),
        EditOperation::Move { screen_id, element_id, parent_element_id, slot, before_element_id } =>
            apply_move(
            document,
            screen_id.as_str(),
            element_id.as_str(),
            as_opt_str(parent_element_id),
            *slot,
            as_opt_str(before_element_id),
        ),
        EditOperation::Update { screen_id, element_id, patch } => apply_update(
            document,
            screen_id.as_str(),
            element_id.as_str(),
            patch,
        ),
        EditOperation::Connect {
            source_screen_id,
            source_element_id,
            target_screen_id,
            outcome_id,
            handler,
            label,
        } => apply_connect(
            document,
            source_screen_id.as_str(),
            source_element_id.as_str(),
            as_opt_str(target_screen_id),
            outcome_id.is_some(),
            handler.is_some(),
            label,
        ),
        EditOperation::Disconnect {
            source_screen_id,
            source_element_id,
            target_screen_id,
            outcome_id,
            handler,
            label,
        } => apply_disconnect(
            document,
            source_screen_id.as_str(),
            source_element_id.as_str(),
            as_opt_str(target_screen_id),
            outcome_id.is_some(),
            handler.is_some(),
            label,
        ),
    }
}

pub open spec fn layout_limit() -> (Seq<char>, Seq<char>) {
    ("RSPDL-EDIT-INVALID"@, "a layout has more elements than can be counted"@)
}

/// What editing the document `doc` read from a source with the hash `source_hash` gives: the
/// operation is applied, and the edited document written back; a deletion retires the ids of
/// the deleted subtree.
pub open spec fn document_edit_holds(source_hash: Seq<char>, doc: DocumentAst, op: EditOperation, d: EditDraft) -> bool {
    if doc.frontmatter is None {
        rejected_draft(d, source_hash, no_frontmatter().0, no_frontmatter().1)
    } else if !layouts_fit(doc) {
        rejected_draft(d, source_hash, layout_limit().0, layout_limit().1)
    } else {
        let tombstones = match tombstones_spec(doc, op) {
            Ok(ids) => ids,
            Err(_) => Seq::empty(),
        };
        exists|edited: DocumentAst, r: EditResult|
            doc_edit_holds(doc, edited, r, apply_spec(doc, op)) && match result_view(r) {
                Err((code, reason)) => rejected_draft(d, source_hash, code, reason),
                Ok(()) => finished_draft(source_hash, edited, tombstones, d),
            }
    }
}

/// What an edit gives once its source was read as `parsed`: a source with diagnostics, or one
/// that gave no document, is refused; otherwise its document is edited.
pub open spec fn edit_after_parse(source_hash: Seq<char>, parsed: ParseOutput, op: EditOperation, d: EditDraft) -> bool {
    if parsed.diagnostics@.len() > 0 {
        rejected_draft(d, source_hash, "RSPDL-EDIT-PARSE"@, "source has parse diagnostics"@)
    } else {
        match parsed.document {
            None => rejected_draft(d, source_hash, "RSPDL-EDIT-PARSE"@, "source does not parse"@),
            Some(doc) => document_edit_holds(source_hash, doc, op, d),
        }
    }
}

/// Edits the source that was read as `parsed`, whose hash is `source_hash`. A document
/// without a frontmatter is refused before anything else, as applying the operation would.
pub fn edit_document(source_hash: String, parsed: ParseOutput, operation: &EditOperation) -> (d: EditDraft)
    ensures
        edit_after_parse(source_hash@, parsed, *operation, d),
{
    if parsed.diagnostics.len() > 0 {
        return reject_edit(source_hash, "RSPDL-EDIT-PARSE", text_of("source has parse diagnostics"));
    }
    let mut document = match parsed.document {
        Some(doc) => doc,
        None => {
            return reject_edit(source_hash, "RSPDL-EDIT-PARSE", text_of("source does not parse"));
        },
    };
    let ghost doc0 = document;
    if document.frontmatter.is_none() {
        return reject_edit(source_hash, "RSPDL-EDIT-NO-FRONTMATTER", text_of("document has no frontmatter"));
    }
    if !layouts_fit_check(&document) {
        return reject_edit(
            source_hash,
            "RSPDL-EDIT-INVALID",
            text_of("a layout has more elements than can be counted"),
        );
    }
    let tombstones = match deletion_tombstones(&document, operation) {
        Ok(ids) => ids,
        Err(_) => Vec::new(),
    };
    let outcome = apply(&mut document, operation);
    let ghost edited = document;
    match outcome {
        Err((code, reason)) => {
            let d = reject_edit(source_hash, code, reason);
            proof {
                assert(doc_edit_holds(doc0, edited, outcome, apply_spec(doc0, *operation)));
            }
            d
        },
        Ok(()) => {
            let d = finish_edit(source_hash, &document, tombstones);
            proof {
                assert(doc_edit_holds(doc0, edited, outcome, apply_spec(doc0, *operation)));
            }
            d
        },
    }
}

/// What an edit request gives: a request with another schema version or locale, or made
/// against another source, is refused; otherwise its source is read and edited.
pub open spec fn edit_holds(request: EditRequest, d: EditDraft) -> bool {
    let hash = source_hash_spec(request.source.text@);
    match admit_spec(request.schema_version, request.locale@, request.source.text@, request.expected_source_hash@) {
        Err((code, reason)) => rejected_draft(d, hash, code, reason),
        Ok(()) => exists|parsed: ParseOutput| parse_holds(request.source.text@, parsed) && edit_after_parse(
            hash,
            parsed,
            request.edit,
            d,
        ),
    }
}

/// Applies the structured edit of `request` to its source and writes the candidate text.
pub fn edit(request: &EditRequest) -> (d: EditDraft)
    ensures
        edit_holds(*request, d),
{
    let (hash, admitted) = admit_edit(request);
    match admitted {
        Err((code, reason)) => reject_edit(hash, code, reason),
        Ok(()) => {
            let parsed = parse(request.source.text.as_str());
            let ghost p = parsed;
            let d = edit_document(hash, parsed, &request.edit);
            proof {
                assert(parse_holds(request.source.text@, p));
            }
            d
        },
    }
}

/// The ids of a forest in document order: an element's own id, then those nested in it, then
/// those of its next sibling.
pub open spec fn ids_in(vs: Seq<LayoutView>) -> Seq<Seq<char>>
    decreases vs,
{
    if vs.len() == 0 {
        Seq::empty()
    } else {
        let e = vs[0];
        proof {
            assert(decreases_to!(vs => vs[0]));
            assert(decreases_to!(vs => vs.subrange(1, vs.len() as int)));
        }
        let own = match ident(e) {
            Some(x) => seq![x],
            None => Seq::empty(),
        };
        let below = match e {
            LayoutView::Header { children, .. } => ids_in(children),
            LayoutView::Section { children, .. } => ids_in(children),
            LayoutView::Form { inputs, .. } => ids_in(inputs),
            _ => Seq::empty(),
        };
        own + below + ids_in(vs.subrange(1, vs.len() as int))
    }
}

proof fn lemma_ids_concat(a: Seq<LayoutView>, b: Seq<LayoutView>)
    ensures
        ids_in(a + b) == ids_in(a) + ids_in(b),
    decreases a.len(),
{
    if a.len() == 0 {
        assert(a + b =~= b);
        assert(ids_in(a) + ids_in(b) =~= ids_in(b));
    } else {
        let ab = a + b;
        assert(ab[0] == a[0]);
        assert(ab.subrange(1, ab.len() as int) =~= a.subrange(1, a.len() as int) + b);
        lemma_ids_concat(a.subrange(1, a.len() as int), b);
        let e = a[0];
        let own = match ident(e) {
            Some(x) => seq![x],
            None => Seq::<Seq<char>>::empty(),
        };
        let below = match e {
            LayoutView::Header { children, .. } => ids_in(children),
            LayoutView::Section { children, .. } => ids_in(children),
            LayoutView::Form { inputs, .. } => ids_in(inputs),
            _ => Seq::empty(),
        };
        assert(own + below + (ids_in(a.subrange(1, a.len() as int)) + ids_in(b)) =~= own + below
            + ids_in(a.subrange(1, a.len() as int)) + ids_in(b));
    }
}

/// The id of the element and of everything nested in it, in document order.
pub open spec fn subtree_ids(v: LayoutView) -> Seq<Seq<char>> {
    ids_in(seq![v])
}

fn push_text(ids: &mut Vec<String>, s: &str)
    ensures
        strings_view(final(ids)@) == strings_view(old(ids)@).push(s@),
{
    ids.push(text_of(s));
    proof {
        assert(strings_view(final(ids)@) =~= strings_view(old(ids)@).push(s@));
    }
}

/// Appends the ids of `element` and of everything nested in it.
pub fn collect_ids(element: &LayoutElementAst, ids: &mut Vec<String>)
    ensures
        strings_view(final(ids)@) == strings_view(old(ids)@) + subtree_ids(element@),
    decreases element,
{
    let ghost start = strings_view(ids@);
    let ghost v = element@;
    proof {
        assert(seq![v][0] == v);
        assert(seq![v].subrange(1, 1) =~= Seq::<LayoutView>::empty());
        assert(ids_in(Seq::<LayoutView>::empty()) =~= Seq::<Seq<char>>::empty());
    }
    match element_id(element) {
        Some(id) => push_text(ids, id),
        None => {},
    }
    let ghost own = match ident(v) {
        Some(x) => seq![x],
        None => Seq::<Seq<char>>::empty(),
    };
    proof {
        assert(strings_view(ids@) =~= start + own);
    }
    let children: &[LayoutElementAst] = match element {
        LayoutElementAst::Header { children, .. } => children.as_slice(),
        LayoutElementAst::Section { children, .. } => children.as_slice(),
        LayoutElementAst::Form { inputs, .. } => inputs.as_slice(),
        _ => &[],
    };
    let ghost ks = layouts_view(children@);
    proof {
        lemma_layouts_view(children@);
        assert(ks.take(0) =~= Seq::<LayoutView>::empty());
        assert(ids_in(ks.take(0)) =~= Seq::<Seq<char>>::empty());
    }
    let mut i: usize = 0;
    while i < children.len()
        invariant
            i <= children@.len(),
            ks == layouts_view(children@),
            ks =~= children@.map_values(|e: LayoutElementAst| layout_view(e)),
            strings_view(ids@) == start + own + ids_in(ks.take(i as int)),
            match *element {
                LayoutElementAst::Header { children: c, .. } => c@ == children@,
                LayoutElementAst::Section { children: c, .. } => c@ == children@,
                LayoutElementAst::Form { inputs: c, .. } => c@ == children@,
                _ => children@.len() == 0,
            },
        decreases children@.len() - i,
    {
        proof {
            assert(decreases_to!(*element => children@[i as int]));
        }
        collect_ids(&children[i], ids);
        proof {
            assert(ks.take(i + 1) =~= ks.take(i as int) + seq![ks[i as int]]);
            lemma_ids_concat(ks.take(i as int), seq![ks[i as int]]);
            assert(ks[i as int] == children@[i as int]@);
        }
        i = i + 1;
    }
    proof {
        assert(ks.take(children@.len() as int) =~= ks);
        let below = match v {
            LayoutView::Header { children, .. } => ids_in(children),
            LayoutView::Section { children, .. } => ids_in(children),
            LayoutView::Form { inputs, .. } => ids_in(inputs),
            _ => Seq::empty(),
        };
        assert(below == ids_in(ks));
        assert(subtree_ids(v) =~= own + below + ids_in(Seq::<LayoutView>::empty()));
        assert(strings_view(ids@) =~= start + subtree_ids(v));
    }
}

} // verus!
