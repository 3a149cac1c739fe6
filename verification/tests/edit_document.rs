use rspdl::ast::{
    ActionAst, DataModelAst, DeclarationAst, DocumentAst, FieldAst, FrontmatterAst,
    FrontmatterRefAst, LayoutElementAst, ModuleAst, NamedIdAst, ScreenAst, ScreenLayoutAst,
    ScreenOperationKindAst, TypeReferenceAst,
};
use rspdl::diagnostic::Span;
use rspdl::formatter::format_document;
use rspdl::edit::{
    apply, apply_delete, apply_insert, apply_move, apply_update, deletion_tombstones, find_element,
    finish_edit, source_hash, EditOutcome,
    normalize_decl_ref, normalize_edit_element, normalize_field, normalize_patch, validate_screen, EditElement,
    EditOperation, EditPatch, EditSlot,
};

fn span() -> Span {
    Span::default()
}

fn named(name: &str, id: &str) -> NamedIdAst {
    NamedIdAst {
        name: name.to_owned(),
        id: id.to_owned(),
        span: span(),
    }
}

fn reference(text: &str) -> FrontmatterRefAst {
    FrontmatterRefAst {
        text: text.to_owned(),
        span: span(),
    }
}

fn document(with_frontmatter: bool) -> DocumentAst {
    let elements = vec![
        LayoutElementAst::Heading {
            id: Some("title".to_owned()),
            text: "상품".to_owned(),
            span: span(),
        },
        LayoutElementAst::Section {
            id: Some("content".to_owned()),
            children: vec![
                LayoutElementAst::Form {
                    id: Some("product_form".to_owned()),
                    inputs: vec![LayoutElementAst::Input {
                        id: Some("quantity".to_owned()),
                        field: reference("수량"),
                        span: span(),
                    }],
                    span: span(),
                },
                LayoutElementAst::Button {
                    id: "submit".to_owned(),
                    name: "저장".to_owned(),
                    action: None,
                    span: span(),
                },
            ],
            span: span(),
        },
    ];
    DocumentAst {
        frontmatter: if with_frontmatter {
            Some(FrontmatterAst {
                module: None,
                information_architecture: vec![],
                screens: vec![ScreenLayoutAst {
                    screen: reference("상품 입력 화면"),
                    kind: None,
                    elements,
                    span: span(),
                }],
                paths: vec![],
                workflows: vec![],
                span: span(),
            })
        } else {
            None
        },
        module: ModuleAst {
            declaration: named("상품", "catalog"),
            span: span(),
        },
        declarations: vec![
            DeclarationAst::DataModel(DataModelAst {
                declaration: named("상품", "product"),
                fields: vec![FieldAst {
                    declaration: named("가격", "price"),
                    required: true,
                    value_type: TypeReferenceAst::Integer,
                    span: span(),
                }],
                span: span(),
            }),
            DeclarationAst::Action(ActionAst {
                declaration: named("저장", "save"),
                span: span(),
            }),
            DeclarationAst::Screen(ScreenAst {
                declaration: named("상품 입력 화면", "product_form"),
                model: "상품".to_owned(),
                fields: vec![],
                operation: ScreenOperationKindAst::Create,
                span: span(),
            }),
        ],
    }
}

fn elements(document: &DocumentAst) -> &Vec<LayoutElementAst> {
    &document.frontmatter.as_ref().unwrap().screens[0].elements
}

#[test]
fn references_are_normalized_to_local_ids() {
    let doc = document(true);
    assert_eq!(normalize_field(&doc, "가격").unwrap(), "가격");
    assert_eq!(normalize_field(&doc, "catalog.product.price").unwrap(), "price");
    assert_eq!(
        normalize_field(&doc, "catalog.product.weight").unwrap_err(),
        ("RSPDL-EDIT-PATCH", "unknown field reference catalog.product.weight".to_owned())
    );
    assert_eq!(
        normalize_field(&doc, "other.product.price").unwrap_err(),
        (
            "RSPDL-EDIT-PATCH",
            "reference other.product.price is outside this source module".to_owned()
        )
    );
    assert_eq!(normalize_decl_ref(&doc, "catalog.save", "action").unwrap(), "save");
    assert_eq!(normalize_decl_ref(&doc, "저장", "action").unwrap(), "저장");
    assert_eq!(
        normalize_decl_ref(&doc, "catalog.save", "model").unwrap_err(),
        ("RSPDL-EDIT-PATCH", "unknown model reference catalog.save".to_owned())
    );
    let button = normalize_edit_element(
        &doc,
        &EditElement::Button {
            id: "go".to_owned(),
            name: "가기".to_owned(),
            action_id: Some("catalog.save".to_owned()),
        },
    )
    .unwrap();
    assert!(matches!(button, EditElement::Button { action_id: Some(ref a), .. } if a == "save"));
    let patch = normalize_patch(
        &doc,
        &EditPatch {
            field_ids: Some(vec!["catalog.product.price".to_owned(), "수량".to_owned()]),
            ..Default::default()
        },
    )
    .unwrap();
    assert_eq!(patch.field_ids, Some(vec!["price".to_owned(), "수량".to_owned()]));
}

#[test]
fn documents_without_frontmatter_are_rejected() {
    let mut doc = document(false);
    assert_eq!(
        apply_delete(&mut doc, "catalog.product_form", "title"),
        Err(("RSPDL-EDIT-NO-FRONTMATTER", "document has no frontmatter".to_owned()))
    );
}

#[test]
fn screens_are_named_by_their_full_id() {
    let mut doc = document(true);
    assert_eq!(
        apply_delete(&mut doc, "other.product_form", "title"),
        Err((
            "RSPDL-EDIT-SCREEN-NOT-FOUND",
            "screen other.product_form not found".to_owned()
        ))
    );
    apply_delete(&mut doc, "catalog.product_form", "title").unwrap();
    assert!(find_element(elements(&doc), "title").is_none());
}

#[test]
fn every_structured_operation_uses_explicit_ids() {
    let mut doc = document(true);
    apply(
        &mut doc,
        &EditOperation::Insert {
            screen_id: "catalog.product_form".into(),
            parent_element_id: None,
            slot: EditSlot::Root,
            before_element_id: None,
            element: EditElement::Heading {
                id: "notice".into(),
                text: "안내".into(),
            },
        },
    )
    .unwrap();
    apply(
        &mut doc,
        &EditOperation::Move {
            screen_id: "catalog.product_form".into(),
            element_id: "notice".into(),
            parent_element_id: Some("content".into()),
            slot: EditSlot::Children,
            before_element_id: Some("product_form".into()),
        },
    )
    .unwrap();
    apply(
        &mut doc,
        &EditOperation::Update {
            screen_id: "catalog.product_form".into(),
            element_id: "notice".into(),
            patch: EditPatch {
                text: Some("필수 입력".into()),
                ..Default::default()
            },
        },
    )
    .unwrap();
    let notice = find_element(elements(&doc), "notice").unwrap();
    assert!(matches!(notice, LayoutElementAst::Heading { text, .. } if text == "필수 입력"));
    apply(
        &mut doc,
        &EditOperation::Connect {
            source_screen_id: "catalog.product_form".into(),
            source_element_id: "submit".into(),
            target_screen_id: Some("catalog.product_form".into()),
            outcome_id: None,
            handler: None,
            label: Some("저장 뒤".into()),
        },
    )
    .unwrap();
    let paths = &doc.frontmatter.as_ref().unwrap().paths;
    assert_eq!(paths.len(), 1);
    assert_eq!(paths[0].source_screen.text, "상품 입력 화면");
    assert_eq!(paths[0].source_element.text, "submit");
    assert_eq!(paths[0].target_screen.text, "상품 입력 화면");
    assert_eq!(paths[0].label.as_deref(), Some("저장 뒤"));
    apply(
        &mut doc,
        &EditOperation::Disconnect {
            source_screen_id: "catalog.product_form".into(),
            source_element_id: "submit".into(),
            target_screen_id: Some("catalog.product_form".into()),
            outcome_id: None,
            handler: None,
            label: Some("저장 뒤".into()),
        },
    )
    .unwrap();
    let tombstones = deletion_tombstones(
        &doc,
        &EditOperation::Delete {
            screen_id: "catalog.product_form".to_owned(),
            element_id: "content".to_owned(),
        },
    )
    .unwrap();
    assert_eq!(
        tombstones,
        vec!["content", "notice", "product_form", "quantity", "submit"]
    );
    apply(
        &mut doc,
        &EditOperation::Delete {
            screen_id: "catalog.product_form".into(),
            element_id: "notice".into(),
        },
    )
    .unwrap();
    let formatted = format_document(&doc).unwrap();
    assert!(!formatted.contains("notice"));
    assert_eq!(doc, document(true));
}

#[test]
fn an_applied_edit_hands_back_the_written_document() {
    let before = document(true);
    let before_text = format_document(&before).unwrap();
    let before_hash = source_hash(&before_text);
    let mut after = document(true);
    let tombstones = deletion_tombstones(
        &after,
        &EditOperation::Delete {
            screen_id: "catalog.product_form".to_owned(),
            element_id: "title".to_owned(),
        },
    )
    .unwrap();
    assert_eq!(tombstones, vec!["title".to_owned()]);
    apply_delete(&mut after, "catalog.product_form", "title").unwrap();
    let draft = finish_edit(before_hash.clone(), &after, tombstones);
    assert_eq!(draft.outcome, EditOutcome::Applied);
    let candidate = draft.candidate_text.unwrap();
    assert!(!candidate.contains("제목"), "{candidate}");
    assert_eq!(candidate, format_document(&after).unwrap());
    assert_eq!(draft.candidate_source_hash, Some(source_hash(&candidate)));
    assert_eq!(draft.source_hash, before_hash);
    assert_eq!(draft.tombstones, vec!["title".to_owned()]);
}

#[test]
fn an_edit_that_changes_nothing_is_refused() {
    let doc = document(true);
    let hash = source_hash(&format_document(&doc).unwrap());
    let draft = finish_edit(hash.clone(), &doc, vec!["title".to_owned()]);
    assert_eq!(
        draft.outcome,
        EditOutcome::Rejected {
            code: "RSPDL-EDIT-UNCHANGED",
            reason: "edit produced no source change".to_owned(),
        }
    );
    assert_eq!(draft.candidate_text, None);
    assert!(draft.tombstones.is_empty());
    assert_eq!(draft.source_hash, hash);
}

#[test]
fn a_document_the_grammar_cannot_write_is_refused() {
    let mut doc = document(true);
    doc.declarations.push(DeclarationAst::DataModel(DataModelAst {
        declaration: named("빈 모델", "empty"),
        fields: vec![],
        span: span(),
    }));
    let draft = finish_edit("0".repeat(64), &doc, vec![]);
    assert_eq!(
        draft.outcome,
        EditOutcome::Rejected {
            code: "RSPDL-EDIT-FORMAT",
            reason: "필드가 없는 데이터 모델은 Korean 문법으로 표현할 수 없습니다.".to_owned(),
        }
    );
    assert_eq!(draft.candidate_source_hash, None);
}

#[test]
fn a_screen_target_must_be_declared_under_the_module_id() {
    let doc = document(true);
    assert_eq!(validate_screen(&doc, "catalog.product_form"), Ok(()));
    for screen_id in ["product_form", "other.product_form", "catalog.missing", "catalog."] {
        assert_eq!(
            validate_screen(&doc, screen_id),
            Err(("RSPDL-EDIT-SCREEN-NOT-FOUND", format!("screen {screen_id} not found"))),
            "{screen_id}"
        );
    }
}
