use rspdl::ast::LayoutElementAst;
use rspdl::document::parse;
use rspdl::edit::{
    apply, edit, source_hash, EditOperation, EditOutcome, EditPatch, EditRequest, EditSource,
    EDIT_SCHEMA_VERSION,
};
use rspdl::sdk::SUPPORTED_LOCALE;

const CATALOG: &str = "---\n모듈: 상품 관리(catalog)\n\n화면:\n  상품 입력 화면:\n    레이아웃:\n      - 제목: \"상품\"\n      - 버튼: { id: submit, 이름: 저장 }\n      - 버튼: { id: cancel, 이름: 취소 }\n---\n\n상품(product)은 다음 필드들로 구성되어 있다.\n    이름(name): 필수 문자열\n\n상품 입력 화면(product_form)에서는 상품을 생성할 수 있다.\n";

fn edit_request(text: &str, operation: EditOperation) -> EditRequest {
    EditRequest {
        schema_version: EDIT_SCHEMA_VERSION,
        locale: SUPPORTED_LOCALE.to_owned(),
        source: EditSource {
            path: "catalog.rspdl".to_owned(),
            text: text.to_owned(),
        },
        expected_source_hash: source_hash(text),
        edit: operation,
    }
}

fn rejection(outcome: &EditOutcome) -> Option<&str> {
    match outcome {
        EditOutcome::Applied => None,
        EditOutcome::Rejected { code, .. } => Some(code),
    }
}

#[test]
fn an_update_through_the_whole_edit_writes_the_candidate() {
    let draft = edit(&edit_request(
        CATALOG,
        EditOperation::Update {
            screen_id: "catalog.product_form".to_owned(),
            element_id: "submit".to_owned(),
            patch: EditPatch {
                name: Some("등록".to_owned()),
                ..Default::default()
            },
        },
    ));
    assert_eq!(rejection(&draft.outcome), None);
    assert_eq!(draft.source_hash, source_hash(CATALOG));
    let candidate = draft.candidate_text.unwrap();
    assert!(candidate.contains("버튼: { id: submit, 이름: 등록 }"), "{candidate}");
    assert_eq!(draft.candidate_source_hash, Some(source_hash(&candidate)));
    assert!(draft.tombstones.is_empty());
}

#[test]
fn a_deletion_through_the_whole_edit_retires_the_id() {
    let draft = edit(&edit_request(
        CATALOG,
        EditOperation::Delete {
            screen_id: "catalog.product_form".to_owned(),
            element_id: "cancel".to_owned(),
        },
    ));
    assert_eq!(rejection(&draft.outcome), None);
    assert_eq!(draft.tombstones, vec!["cancel".to_owned()]);
    assert!(!draft.candidate_text.unwrap().contains("cancel"));
}

#[test]
fn a_source_with_diagnostics_is_not_edited() {
    let text = CATALOG.replace("생성할 수 있다.", "생성할 수 있다");
    let draft = edit(&edit_request(
        &text,
        EditOperation::Delete {
            screen_id: "catalog.product_form".to_owned(),
            element_id: "cancel".to_owned(),
        },
    ));
    assert_eq!(rejection(&draft.outcome), Some("RSPDL-EDIT-PARSE"));
    assert!(draft.candidate_text.is_none());
}

#[test]
fn a_source_without_a_frontmatter_is_not_edited() {
    let text = "@모듈 상품 관리(catalog)\n상품 입력 화면(product_form)에서는 상품을 생성할 수 있다.\n";
    let draft = edit(&edit_request(
        text,
        EditOperation::Delete {
            screen_id: "catalog.product_form".to_owned(),
            element_id: "cancel".to_owned(),
        },
    ));
    assert_eq!(rejection(&draft.outcome), Some("RSPDL-EDIT-NO-FRONTMATTER"));
}

#[test]
fn a_stale_request_is_refused_before_reading() {
    let mut request = edit_request(
        CATALOG,
        EditOperation::Delete {
            screen_id: "catalog.product_form".to_owned(),
            element_id: "cancel".to_owned(),
        },
    );
    request.expected_source_hash = source_hash("다른 원문");
    let draft = edit(&request);
    assert_eq!(rejection(&draft.outcome), Some("RSPDL-EDIT-STALE"));
}

fn connect(target: Option<&str>, label: Option<&str>) -> EditOperation {
    EditOperation::Connect {
        source_screen_id: "catalog.product_form".to_owned(),
        source_element_id: "submit".to_owned(),
        target_screen_id: target.map(str::to_owned),
        outcome_id: None,
        handler: None,
        label: label.map(str::to_owned),
    }
}

fn disconnect(target: Option<&str>, label: Option<&str>) -> EditOperation {
    EditOperation::Disconnect {
        source_screen_id: "catalog.product_form".to_owned(),
        source_element_id: "submit".to_owned(),
        target_screen_id: target.map(str::to_owned),
        outcome_id: None,
        handler: None,
        label: label.map(str::to_owned),
    }
}

#[test]
fn a_connect_then_the_matching_disconnect_restores_the_document() {
    let mut document = parse(CATALOG).document.unwrap();
    let before = format!("{:?}", document);
    apply(&mut document, &connect(Some("catalog.product_form"), Some("다시"))).unwrap();
    assert_eq!(document.frontmatter.as_ref().unwrap().paths.len(), 1);
    assert_eq!(
        apply(&mut document, &connect(Some("catalog.product_form"), Some("다시"))).unwrap_err().0,
        "RSPDL-EDIT-UNCHANGED"
    );
    assert_eq!(
        apply(&mut document, &disconnect(Some("catalog.product_form"), None)).unwrap_err().0,
        "RSPDL-EDIT-NOT-FOUND"
    );
    apply(&mut document, &disconnect(Some("catalog.product_form"), Some("다시"))).unwrap();
    assert_eq!(format!("{:?}", document), before);
}

#[test]
fn path_edits_check_their_ids_and_their_target() {
    let mut document = parse(CATALOG).document.unwrap();
    let before = format!("{:?}", document);
    assert_eq!(
        apply(&mut document, &connect(None, None)).unwrap_err().0,
        "RSPDL-EDIT-INVALID"
    );
    assert_eq!(
        apply(&mut document, &connect(Some("catalog.missing"), None)).unwrap_err().0,
        "RSPDL-EDIT-SCREEN-NOT-FOUND"
    );
    let mut other = connect(Some("catalog.product_form"), None);
    if let EditOperation::Connect { source_screen_id, .. } = &mut other {
        *source_screen_id = "other.product_form".to_owned();
    }
    assert_eq!(apply(&mut document, &other).unwrap_err().0, "RSPDL-EDIT-SCREEN-NOT-FOUND");
    let mut missing = connect(Some("catalog.product_form"), None);
    if let EditOperation::Connect { source_element_id, .. } = &mut missing {
        *source_element_id = "nothing".to_owned();
    }
    assert_eq!(
        apply(&mut document, &missing).unwrap_err(),
        ("RSPDL-EDIT-NOT-FOUND", "source element matched 0 times".to_owned())
    );
    let mut with_outcome = connect(Some("catalog.product_form"), None);
    if let EditOperation::Connect { outcome_id, .. } = &mut with_outcome {
        *outcome_id = Some("found".to_owned());
    }
    assert_eq!(apply(&mut document, &with_outcome).unwrap_err().0, "RSPDL-EDIT-INVALID");
    assert_eq!(format!("{:?}", document), before);
}

#[test]
fn a_connect_through_the_whole_edit_writes_the_path() {
    let draft = edit(&edit_request(CATALOG, connect(Some("catalog.product_form"), Some("다시"))));
    assert_eq!(rejection(&draft.outcome), None);
    let candidate = draft.candidate_text.unwrap();
    assert!(candidate.contains("출발: 상품 입력 화면.submit"), "{candidate}");
    assert!(candidate.contains("도착: 상품 입력 화면"), "{candidate}");
    let reread = parse(&candidate);
    assert!(reread.diagnostics.is_empty(), "{:?}", reread.diagnostics);
    assert_eq!(
        rspdl::formatter::format_document(&reread.document.unwrap()).unwrap(),
        candidate
    );
}

#[test]
fn apply_dispatches_to_the_element_operations() {
    let mut document = parse(CATALOG).document.unwrap();
    apply(
        &mut document,
        &EditOperation::Delete {
            screen_id: "catalog.product_form".to_owned(),
            element_id: "cancel".to_owned(),
        },
    )
    .unwrap();
    let elements = &document.frontmatter.as_ref().unwrap().screens[0].elements;
    assert_eq!(elements.len(), 2);
    assert!(matches!(&elements[1], LayoutElementAst::Button { id, .. } if id == "submit"));
    assert_eq!(
        apply(
            &mut document,
            &EditOperation::Delete {
                screen_id: "other.product_form".to_owned(),
                element_id: "submit".to_owned(),
            },
        )
        .unwrap_err()
        .0,
        "RSPDL-EDIT-SCREEN-NOT-FOUND"
    );
}
