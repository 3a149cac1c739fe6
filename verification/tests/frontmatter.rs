use std::borrow::Cow;

use rspdl::ast::{LayoutElementAst, ScreenLayoutKindAst};
use rspdl::diagnostic::Diagnostic;
use rspdl::frontmatter::read;

const SAMPLE: &str = r#"---
모듈: 장바구니(shopping)

정보구조:
  주문(order):
    결제(payment): [create_cart, create_item]
    조회(inquiry): [cart_detail]

화면:
  create_item:
    유형: page
    레이아웃:
      - 머리말:
          - 제목: "항목 추가"
      - 구역:
          - 폼:
              - 입력: 수량
              - 입력: 금액
          - 버튼: { id: submit, 이름: "담기", 행동: 항목_담기 }
          - 자리: "배송지 지도"

흐름:
  - 출발: create_item.submit
    도착: cart_detail
    설명: "담기 성공"
---

장바구니 항목 입력 화면(create_item)에서는 장바구니 항목을 생성할 수 있다.
"#;

fn keys(diagnostics: &[Diagnostic]) -> Vec<&str> {
    diagnostics
        .iter()
        .map(|diagnostic| diagnostic.message_key.as_str())
        .collect()
}

#[test]
fn reads_the_reference_document() {
    let output = read(SAMPLE);
    assert_eq!(keys(&output.diagnostics), Vec::<&str>::new());
    let frontmatter = output.frontmatter.expect("frontmatter");

    let module = frontmatter.module.expect("module");
    assert_eq!(module.name, "장바구니");
    assert_eq!(module.id, "shopping");

    // 분류는 한 갈래가 두 하위 분류를 가지고, 잎에 화면이 달린다.
    assert_eq!(frontmatter.information_architecture.len(), 1);
    let order = &frontmatter.information_architecture[0];
    assert_eq!(order.declaration.id, "order");
    assert_eq!(order.children.len(), 2);
    assert_eq!(order.children[0].declaration.id, "payment");
    let screens: Vec<&str> = order.children[0]
        .screens
        .iter()
        .map(|reference| reference.text.as_str())
        .collect();
    assert_eq!(screens, vec!["create_cart", "create_item"]);

    assert_eq!(frontmatter.screens.len(), 1);
    let layout = &frontmatter.screens[0];
    assert_eq!(layout.screen.text, "create_item");
    assert_eq!(layout.kind, Some(ScreenLayoutKindAst::Page));
    assert_eq!(layout.elements.len(), 2);

    let LayoutElementAst::Header { children, .. } = &layout.elements[0] else {
        panic!("첫 요소는 머리말이어야 한다: {:?}", layout.elements[0]);
    };
    assert!(matches!(
        children.as_slice(),
        [LayoutElementAst::Heading { text, .. }] if text == "항목 추가"
    ));

    let LayoutElementAst::Section { children, .. } = &layout.elements[1] else {
        panic!("둘째 요소는 구역이어야 한다");
    };
    assert_eq!(children.len(), 3);
    let LayoutElementAst::Form { inputs, .. } = &children[0] else {
        panic!("구역의 첫 자식은 폼이어야 한다");
    };
    assert_eq!(inputs.len(), 2);
    assert!(matches!(
        &children[1],
        LayoutElementAst::Button { id, name, action: Some(action), .. }
            if id == "submit" && name == "담기" && action.text == "항목_담기"
    ));
    // 선언할 수 없는 자리는 이름표만 남는다.
    assert!(matches!(
        &children[2],
        LayoutElementAst::Placeholder { text, .. } if text == "배송지 지도"
    ));

    assert_eq!(frontmatter.paths.len(), 1);
    let path = &frontmatter.paths[0];
    assert_eq!(path.source_screen.text, "create_item");
    assert_eq!(path.source_element.text, "submit");
    assert_eq!(path.target_screen.text, "cart_detail");
    assert_eq!(path.label.as_deref(), Some("담기 성공"));
}

#[test]
fn document_without_frontmatter_is_untouched() {
    let source = "@모듈 재고(inventory)\n";
    let output = read(source);
    assert!(output.frontmatter.is_none());
    assert!(output.diagnostics.is_empty());
    assert!(matches!(output.source, Cow::Borrowed(_)));
}

#[test]
fn masking_preserves_byte_length_and_newlines() {
    let output = read(SAMPLE);
    assert_eq!(output.source.len(), SAMPLE.len());
    assert_eq!(
        output.source.matches('\n').count(),
        SAMPLE.matches('\n').count()
    );
    // 머리말 구간은 전부 지워지고 본문 문장만 남는다.
    assert!(
        output
            .source
            .contains("장바구니 항목 입력 화면(create_item)")
    );
    assert!(!output.source.contains("정보구조"));
}

#[test]
fn spans_point_at_the_original_file() {
    let source = "---\n모듈: 장바구니(shopping)\n없는키: 값\n---\n";
    let output = read(source);
    assert_eq!(
        keys(&output.diagnostics),
        vec!["ko.frontmatter.unknown_key"]
    );
    let span = output.diagnostics[0].span;
    // 머리말을 잘라 내지 않았으므로 span 이 파일 기준으로 그대로 맞아야 한다.
    assert_eq!(span.start, source.find("없는키").expect("key offset"));
    assert_eq!(&source[span.start..span.end], "없는키");
}

#[test]
fn unterminated_block_is_reported() {
    let output = read("---\n모듈: 가(a)\n");
    assert_eq!(
        keys(&output.diagnostics),
        vec!["ko.frontmatter.unterminated_block"]
    );
    // 어디까지가 머리말인지 모르므로 원문을 건드리지 않는다.
    assert!(matches!(output.source, Cow::Borrowed(_)));
}

// 한 실수는 진단 하나다. 아래 묶음은 전부 "거절한 자리를 다시 구조 오류로 또 말하지
// 않는다"를 고정한다 — 두 번째 진단은 없는 문제를 찾아가게 만드는 오탐이다.

#[test]
fn tab_indentation_is_rejected() {
    let output = read("---\n정보구조:\n\t주문(order): [s1]\n---\n");
    assert_eq!(
        keys(&output.diagnostics),
        vec!["ko.frontmatter.tab_indentation"]
    );
}

#[test]
fn aliases_are_rejected() {
    let output = read("---\n모듈: *기준\n---\n");
    assert_eq!(
        keys(&output.diagnostics),
        vec!["ko.frontmatter.unsupported_yaml_feature"]
    );
    assert_eq!(output.diagnostics[0].argument("feature"), Some("alias"));
}

#[test]
fn tags_are_rejected() {
    let output = read("---\n모듈: !!str 가\n---\n");
    assert_eq!(
        keys(&output.diagnostics),
        vec!["ko.frontmatter.unsupported_yaml_feature"]
    );
    assert_eq!(output.diagnostics[0].argument("feature"), Some("tag"));
}

#[test]
fn single_quoted_strings_are_rejected() {
    let output = read("---\n모듈: '가(a)'\n---\n");
    assert_eq!(
        keys(&output.diagnostics),
        vec!["ko.frontmatter.unsupported_yaml_feature"]
    );
    assert_eq!(
        output.diagnostics[0].argument("feature"),
        Some("single_quoted")
    );
}

#[test]
fn document_end_marker_is_rejected() {
    let output = read("---\n모듈: 가(a)\n...\n---\n");
    assert_eq!(
        keys(&output.diagnostics),
        vec!["ko.frontmatter.unsupported_yaml_feature"]
    );
    assert_eq!(
        output.diagnostics[0].argument("feature"),
        Some("document_end")
    );
}

#[test]
fn rejected_key_is_not_also_reported_as_missing() {
    // 거절된 키가 원래 `출발` 이었을 수도 있다. 없다고 단정하지 않는다.
    let output = read("---\n흐름:\n  - &기준: s1.go\n    도착: s2\n---\n");
    assert_eq!(
        keys(&output.diagnostics),
        vec!["ko.frontmatter.unsupported_yaml_feature"]
    );
}

#[test]
fn rejected_button_field_is_not_also_reported_as_unknown() {
    let output = read(
        "---\n화면:\n  s1:\n    레이아웃:\n      - 버튼: { id: go, 이름: \"가기\", 행동: *기준 }\n---\n",
    );
    assert_eq!(
        keys(&output.diagnostics),
        vec!["ko.frontmatter.unsupported_yaml_feature"]
    );
}

#[test]
fn references_are_written_the_way_sentences_write_them() {
    // 머리말 전체가 한국어 표시 이름이다. 따옴표 없이, 띄어쓰기를 담은 채로.
    let source = "---\n모듈: 장바구니(shopping)\n정보구조:\n  주문(order): [장바구니 항목 입력 화면, 장바구니 상세 화면]\n화면:\n  장바구니 항목 입력 화면:\n    레이아웃:\n      - 폼:\n          - 입력: 수량\n      - 버튼: { id: submit, 이름: \"담기\", 행동: 항목 담기 }\n흐름:\n  - 출발: 장바구니 항목 입력 화면.submit\n    도착: 장바구니 상세 화면\n---\n";
    let output = read(source);
    assert_eq!(keys(&output.diagnostics), Vec::<&str>::new());
    let frontmatter = output.frontmatter.expect("frontmatter");

    let screens: Vec<&str> = frontmatter.information_architecture[0]
        .screens
        .iter()
        .map(|reference| reference.text.as_str())
        .collect();
    assert_eq!(
        screens,
        vec!["장바구니 항목 입력 화면", "장바구니 상세 화면"]
    );
    assert_eq!(
        frontmatter.screens[0].screen.text,
        "장바구니 항목 입력 화면"
    );

    let path = &frontmatter.paths[0];
    assert_eq!(path.source_screen.text, "장바구니 항목 입력 화면");
    assert_eq!(path.source_element.text, "submit");
    // 따옴표 없이 띄어쓴 이름이 통째로 도착으로 실려야 한다.
    assert_eq!(path.target_screen.text, "장바구니 상세 화면");
}

#[test]
fn element_path_splits_at_the_last_dot() {
    let output = read("---\n흐름:\n  - 출발: 버전 1.2 화면.submit\n    도착: 끝 화면\n---\n");
    assert_eq!(keys(&output.diagnostics), Vec::<&str>::new());
    let paths = output.frontmatter.expect("frontmatter").paths;
    // 화면 이름 안의 점은 이름의 일부다. 첫 점에서 끊으면 이름이 반토막 난다.
    assert_eq!(paths[0].source_screen.text, "버전 1.2 화면");
    assert_eq!(paths[0].source_element.text, "submit");
}

#[test]
fn button_id_is_coined_not_referenced() {
    // 버튼의 id 는 문서가 스스로 짓는 이름이므로 표시 이름 규칙을 따르지 않는다.
    let output = read(
        "---\n화면:\n  s1:\n    레이아웃:\n      - 버튼: { id: 보내기 버튼, 이름: \"보내기\" }\n---\n",
    );
    assert_eq!(
        keys(&output.diagnostics),
        vec!["ko.frontmatter.invalid_scalar_type"]
    );
    assert_eq!(
        output.diagnostics[0].argument("expected"),
        Some("stable_id")
    );
}

#[test]
fn inconsistent_indent_is_reported_once() {
    let output = read("---\n화면:\n  s1:\n      유형: page\n    레이아웃:\n---\n");
    assert_eq!(
        keys(&output.diagnostics),
        vec!["ko.frontmatter.inconsistent_indent"]
    );
}

#[test]
fn duplicate_key_is_reported() {
    let output = read("---\n모듈: 가(a)\n모듈: 나(b)\n---\n");
    assert_eq!(
        keys(&output.diagnostics),
        vec!["ko.frontmatter.duplicate_key"]
    );
    // 먼저 쓴 쪽이 남는다.
    let module = output
        .frontmatter
        .expect("frontmatter")
        .module
        .expect("module");
    assert_eq!(module.id, "a");
}

#[test]
fn anchors_are_rejected() {
    let output = read("---\n모듈: &기준 가(a)\n---\n");
    assert_eq!(
        keys(&output.diagnostics),
        vec!["ko.frontmatter.unsupported_yaml_feature"]
    );
    assert_eq!(output.diagnostics[0].argument("feature"), Some("anchor"));
}

#[test]
fn block_scalars_are_rejected() {
    let output = read("---\n화면:\n  s1:\n    레이아웃: |\n      글\n---\n");
    assert!(
        keys(&output.diagnostics).contains(&"ko.frontmatter.unsupported_yaml_feature"),
        "{:?}",
        keys(&output.diagnostics)
    );
}

#[test]
fn screen_kind_comes_from_a_closed_set() {
    let output = read("---\n화면:\n  s1:\n    유형: 팝업\n---\n");
    assert_eq!(
        keys(&output.diagnostics),
        vec!["ko.frontmatter.invalid_scalar_type"]
    );
    assert_eq!(
        output.diagnostics[0].argument("expected"),
        Some("screen_kind")
    );
}

#[test]
fn unknown_layout_element_is_reported() {
    let output = read("---\n화면:\n  s1:\n    레이아웃:\n      - 지도: \"여기\"\n---\n");
    assert_eq!(
        keys(&output.diagnostics),
        vec!["ko.frontmatter.unknown_layout_element"]
    );
    assert_eq!(output.diagnostics[0].argument("element"), Some("지도"));
}

#[test]
fn scalars_are_never_type_inferred() {
    // `page` 가 아닌 자리에서 `no` 는 그냥 글자다. YAML 1.1 처럼 거짓으로 읽지 않는다.
    let output = read("---\n화면:\n  s1:\n    레이아웃:\n      - 제목: no\n---\n");
    assert!(output.diagnostics.is_empty(), "{:?}", output.diagnostics);
    let frontmatter = output.frontmatter.expect("frontmatter");
    assert!(matches!(
        &frontmatter.screens[0].elements[0],
        LayoutElementAst::Heading { text, .. } if text == "no"
    ));
}

#[test]
fn path_needs_both_endpoints() {
    let output = read("---\n흐름:\n  - 출발: s1.go\n---\n");
    assert_eq!(
        keys(&output.diagnostics),
        vec!["ko.frontmatter.invalid_structure"]
    );
    assert_eq!(output.diagnostics[0].argument("expected"), Some("도착"));
}

#[test]
fn path_source_must_name_an_element() {
    let output = read("---\n흐름:\n  - 출발: s1\n    도착: s2\n---\n");
    assert_eq!(
        keys(&output.diagnostics),
        vec!["ko.frontmatter.invalid_scalar_type"]
    );
    assert_eq!(
        output.diagnostics[0].argument("expected"),
        Some("element_path")
    );
}

