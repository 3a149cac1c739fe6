use rspdl::ast::{FrontmatterRefAst, LayoutElementAst};
use rspdl::diagnostic::Span;
use rspdl::edit::{
    admit_edit, count_elements, delete_element, element_id, element_id_of_edit, find_element,
    insert, insert_element, move_element, remove_element, require_unique, source_hash, to_ast,
    update_element, update_element_by_id, validate_insert_address, EditElement, EditOperation,
    EditPatch, EditRequest, EditSlot, EditSource, EDIT_SCHEMA_VERSION,
};

fn span() -> Span {
    Span::default()
}

fn heading(id: &str, text: &str) -> LayoutElementAst {
    LayoutElementAst::Heading {
        id: Some(id.to_owned()),
        text: text.to_owned(),
        span: span(),
    }
}

fn section(id: &str, children: Vec<LayoutElementAst>) -> LayoutElementAst {
    LayoutElementAst::Section {
        id: Some(id.to_owned()),
        children,
        span: span(),
    }
}

fn form(id: &str, inputs: Vec<LayoutElementAst>) -> LayoutElementAst {
    LayoutElementAst::Form {
        id: Some(id.to_owned()),
        inputs,
        span: span(),
    }
}

fn input(id: &str, field: &str) -> LayoutElementAst {
    LayoutElementAst::Input {
        id: Some(id.to_owned()),
        field: FrontmatterRefAst {
            text: field.to_owned(),
            span: span(),
        },
        span: span(),
    }
}

fn button(id: &str, name: &str, action: Option<&str>) -> LayoutElementAst {
    LayoutElementAst::Button {
        id: id.to_owned(),
        name: name.to_owned(),
        action: action.map(|a| FrontmatterRefAst {
            text: a.to_owned(),
            span: span(),
        }),
        span: span(),
    }
}

/// title, content{ product_form{ quantity }, submit }
fn layout() -> Vec<LayoutElementAst> {
    vec![
        heading("title", "상품"),
        section(
            "content",
            vec![
                form("product_form", vec![input("quantity", "수량")]),
                button("submit", "저장", Some("save")),
            ],
        ),
    ]
}

fn ids(elements: &[LayoutElementAst]) -> Vec<String> {
    let mut out = Vec::new();
    for element in elements {
        if let Some(id) = element_id(element) {
            out.push(id.to_owned());
        }
        let children: &[LayoutElementAst] = match element {
            LayoutElementAst::Header { children, .. } | LayoutElementAst::Section { children, .. } => {
                children
            }
            LayoutElementAst::Form { inputs, .. } => inputs,
            _ => &[],
        };
        out.extend(ids(children));
    }
    out
}

#[test]
fn source_hash_is_lower_hex_sha256() {
    assert_eq!(
        source_hash(""),
        "e3b0c44298fc1c149afbf4c8996fb92427ae41e4649b934ca495991b7852b855"
    );
    assert_eq!(
        source_hash("abc"),
        "ba7816bf8f01cfea414140de5dae2223b00361a396177a9cb410ff61f20015ad"
    );
    assert_eq!(source_hash("가").len(), 64);
}

fn request(schema_version: u32, locale: &str, text: &str, hash: &str) -> EditRequest {
    EditRequest {
        schema_version,
        locale: locale.to_owned(),
        source: EditSource {
            path: "a.rspdl".to_owned(),
            text: text.to_owned(),
        },
        expected_source_hash: hash.to_owned(),
        edit: EditOperation::Delete {
            screen_id: "m.s".to_owned(),
            element_id: "x".to_owned(),
        },
    }
}

#[test]
fn requests_are_checked_for_version_locale_and_staleness() {
    let text = "@모듈 재고(inventory)\n";
    let hash = source_hash(text);
    let (actual, result) = admit_edit(&request(EDIT_SCHEMA_VERSION, "ko-KR", text, &hash));
    assert_eq!(actual, hash);
    assert!(result.is_ok());
    let (_, result) = admit_edit(&request(2, "ko-KR", text, &hash));
    assert_eq!(result.unwrap_err().0, "RSPDL-EDIT-001");
    let (_, result) = admit_edit(&request(EDIT_SCHEMA_VERSION, "en-US", text, &hash));
    assert_eq!(result.unwrap_err().0, "RSPDL-EDIT-002");
    let (actual, result) = admit_edit(&request(EDIT_SCHEMA_VERSION, "ko-KR", text, "00"));
    assert_eq!(actual, hash);
    assert_eq!(
        result.unwrap_err(),
        ("RSPDL-EDIT-STALE", "source hash does not match".to_owned())
    );
}

#[test]
fn counts_and_finds_at_any_depth() {
    let elements = layout();
    assert_eq!(count_elements(&elements, "quantity"), 1);
    assert_eq!(count_elements(&elements, "missing"), 0);
    let found = find_element(&elements, "submit").unwrap();
    assert_eq!(element_id(found), Some("submit"));
    assert!(find_element(&elements, "missing").is_none());
    let mut twice = layout();
    twice.push(heading("quantity", "again"));
    assert_eq!(count_elements(&twice, "quantity"), 2);
    assert!(matches!(
        require_unique(&twice, "quantity", "parent element"),
        Err(("RSPDL-EDIT-AMBIGUOUS", reason)) if reason == "parent element quantity matched 2 times"
    ));
    assert!(matches!(
        require_unique(&twice, "nothing", "before element"),
        Err(("RSPDL-EDIT-NOT-FOUND", reason)) if reason == "before element nothing not found"
    ));
}

#[test]
fn remove_prefers_the_top_level() {
    let mut elements = layout();
    elements.push(heading("quantity", "top"));
    let removed = remove_element(&mut elements, "quantity").unwrap();
    assert!(matches!(removed, LayoutElementAst::Heading { ref text, .. } if text == "top"));
    assert_eq!(ids(&elements), vec!["title", "content", "product_form", "quantity", "submit"]);
    let removed = remove_element(&mut elements, "product_form").unwrap();
    assert_eq!(ids(std::slice::from_ref(&removed)), vec!["product_form", "quantity"]);
    assert_eq!(ids(&elements), vec!["title", "content", "submit"]);
    assert!(remove_element(&mut elements, "missing").is_none());
}

#[test]
fn insert_goes_into_the_slot_before_the_named_element() {
    let mut elements = layout();
    insert(
        &mut elements,
        Some("content"),
        EditSlot::Children,
        Some("submit"),
        heading("notice", "안내"),
    )
    .unwrap();
    assert_eq!(
        ids(&elements),
        vec!["title", "content", "product_form", "quantity", "notice", "submit"]
    );
    insert(&mut elements, None, EditSlot::Root, None, heading("footer", "끝")).unwrap();
    assert_eq!(ids(&elements).last().map(String::as_str), Some("footer"));
    insert(&mut elements, Some("product_form"), EditSlot::Inputs, None, input("price", "가격")).unwrap();
    assert_eq!(count_elements(&elements, "price"), 1);
}

#[test]
fn insert_rejects_bad_addresses() {
    let mut elements = layout();
    let before = ids(&elements);
    assert_eq!(
        insert(&mut elements, Some("content"), EditSlot::Inputs, None, heading("x", "x")),
        Err(("RSPDL-EDIT-SLOT", "invalid slot for content".to_owned()))
    );
    assert_eq!(
        insert(&mut elements, Some("nowhere"), EditSlot::Children, None, heading("x", "x")),
        Err(("RSPDL-EDIT-NOT-FOUND", "parent element nowhere not found".to_owned()))
    );
    assert_eq!(
        insert(&mut elements, None, EditSlot::Children, None, heading("x", "x")),
        Err(("RSPDL-EDIT-SLOT", "non-root slot needs parent".to_owned()))
    );
    assert_eq!(
        insert(&mut elements, Some("content"), EditSlot::Children, Some("title"), heading("x", "x")),
        Err(("RSPDL-EDIT-NOT-FOUND", "before element title not found".to_owned()))
    );
    assert_eq!(ids(&elements), before);
    assert_eq!(
        validate_insert_address(&elements, None, EditSlot::Inputs, None),
        Err(("RSPDL-EDIT-SLOT", "non-root slot needs parent".to_owned()))
    );
    assert!(validate_insert_address(&elements, Some("content"), EditSlot::Children, Some("submit")).is_ok());
}

#[test]
fn inserting_then_deleting_a_new_element_restores_the_layout() {
    let before = layout();
    let mut elements = layout();
    let new = EditElement::Heading {
        id: "notice".to_owned(),
        text: "안내".to_owned(),
    };
    assert_eq!(element_id_of_edit(&new), "notice");
    insert_element(&mut elements, new, Some("content"), EditSlot::Children, Some("submit")).unwrap();
    assert_ne!(elements, before);
    delete_element(&mut elements, "notice").unwrap();
    assert_eq!(elements, before);

    let duplicate = EditElement::Section {
        id: "title".to_owned(),
    };
    assert_eq!(
        insert_element(&mut elements, duplicate, None, EditSlot::Root, None),
        Err(("RSPDL-EDIT-AMBIGUOUS", "inserted element id already exists".to_owned()))
    );
}

#[test]
fn new_elements_start_empty_with_their_id() {
    let list = to_ast(EditElement::List {
        id: "orders".to_owned(),
        model_id: "order".to_owned(),
        field_ids: vec!["amount".to_owned(), "status".to_owned()],
    });
    match list {
        LayoutElementAst::List { id, model, fields, span } => {
            assert_eq!(id.as_deref(), Some("orders"));
            assert_eq!(model.text, "order");
            assert_eq!(fields.iter().map(|f| f.text.as_str()).collect::<Vec<_>>(), vec!["amount", "status"]);
            assert_eq!(span, Span::default());
        }
        other => panic!("{other:?}"),
    }
    assert_eq!(
        to_ast(EditElement::Section { id: "s".to_owned() }),
        section("s", vec![])
    );
}

#[test]
fn delete_needs_exactly_one_element() {
    let mut elements = layout();
    assert_eq!(
        delete_element(&mut elements, "missing"),
        Err(("RSPDL-EDIT-NOT-FOUND", "element missing matched 0 times".to_owned()))
    );
    elements.push(heading("title", "again"));
    assert_eq!(
        delete_element(&mut elements, "title"),
        Err(("RSPDL-EDIT-AMBIGUOUS", "element title matched 2 times".to_owned()))
    );
    let mut elements = layout();
    delete_element(&mut elements, "content").unwrap();
    assert_eq!(ids(&elements), vec!["title"]);
}

#[test]
fn move_keeps_the_subtree_and_refuses_cycles() {
    let mut elements = layout();
    move_element(&mut elements, "title", Some("content"), EditSlot::Children, Some("product_form")).unwrap();
    assert_eq!(ids(&elements), vec!["content", "title", "product_form", "quantity", "submit"]);
    assert_eq!(
        move_element(&mut elements, "content", Some("content"), EditSlot::Children, None),
        Err(("RSPDL-EDIT-SLOT", "cannot move an element into itself or its descendant".to_owned()))
    );
    assert_eq!(
        move_element(&mut elements, "content", Some("product_form"), EditSlot::Inputs, None),
        Err(("RSPDL-EDIT-SLOT", "cannot move an element into itself or its descendant".to_owned()))
    );
    assert_eq!(
        move_element(&mut elements, "content", None, EditSlot::Root, Some("submit")),
        Err(("RSPDL-EDIT-SLOT", "cannot place an element relative to its descendant".to_owned()))
    );
    assert_eq!(
        move_element(&mut elements, "submit", None, EditSlot::Root, Some("submit")),
        Err(("RSPDL-EDIT-UNCHANGED", "cannot move an element before itself".to_owned()))
    );
}

#[test]
fn updates_touch_only_the_editable_properties() {
    let mut element = heading("title", "상품");
    let patch = EditPatch {
        text: Some("새 상품".to_owned()),
        ..Default::default()
    };
    update_element(&mut element, &patch).unwrap();
    assert_eq!(element, heading("title", "새 상품"));
    assert_eq!(
        update_element(&mut element, &patch),
        Err(("RSPDL-EDIT-UNCHANGED", "update does not change the element".to_owned()))
    );
    assert_eq!(
        update_element(&mut element, &EditPatch::default()),
        Err(("RSPDL-EDIT-UNCHANGED", "update patch is empty".to_owned()))
    );
    let wrong = EditPatch {
        name: Some("x".to_owned()),
        ..Default::default()
    };
    assert_eq!(
        update_element(&mut element, &wrong),
        Err((
            "RSPDL-EDIT-PATCH",
            "patch contains properties unsupported by this element kind".to_owned()
        ))
    );
    let mut section_element = section("s", vec![]);
    assert_eq!(
        update_element(&mut section_element, &patch),
        Err(("RSPDL-EDIT-PATCH", "element kind has no editable scalar properties".to_owned()))
    );

    let mut submit = button("submit", "저장", Some("save"));
    let clear = EditPatch {
        clear_action: true,
        ..Default::default()
    };
    update_element(&mut submit, &clear).unwrap();
    assert_eq!(submit, button("submit", "저장", None));
    let both = EditPatch {
        action_id: Some("save".to_owned()),
        clear_action: true,
        ..Default::default()
    };
    assert!(update_element(&mut submit, &both).is_err());

    let mut elements = layout();
    let field = EditPatch {
        field_id: Some("가격".to_owned()),
        ..Default::default()
    };
    update_element_by_id(&mut elements, "quantity", &field).unwrap();
    let found = find_element(&elements, "quantity").unwrap();
    assert_eq!(found, &input("quantity", "가격"));
    assert_eq!(ids(&elements), ids(&layout()));
}
