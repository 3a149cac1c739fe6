use rspdl::ast::{
    DataModelAst, DeclarationAst, RelationalConstraintAst, RelationalConstraintKindAst, ScreenAst,
    ScreenOperationKindAst,
};
use rspdl::diagnostic::{Diagnostic, Severity, Span};
use rspdl::document::parse;

const SOURCE: &str = r#"@모듈 비용 승인(expense)

비용 상태(status)는 다음 값 중 하나다.
    작성 중(draft)
    승인됨(approved)

비용 신청(request)은 다음 필드들로 구성되어 있다.
    식별자(id): 필수 문자열
    금액(amount): 필수 정수
    상태(status): 필수 비용 상태

비용 신청의 금액은 0보다 커야 한다.

회계 관리자(accounting_manager)는 역할이다.
변경(change)은 행동이다.

회계 관리자는 비용 신청의 상태를 변경할 수 있다.
"#;

fn is_error(diagnostic: &Diagnostic) -> bool {
    diagnostic.severity == Severity::Error
}

#[test]
fn parses_the_vertical_slice() {
    let output = parse(SOURCE);
    assert!(output.diagnostics.is_empty(), "{:?}", output.diagnostics);
    let document = output.document.unwrap();
    assert_eq!(document.declarations.len(), 6);
    let DeclarationAst::Constraint(constraint) = &document.declarations[2] else {
        panic!("third declaration should be a constraint sentence");
    };
    assert!(constraint.declaration.name.is_empty());
    assert!(constraint.declaration.id.is_empty());
    let DeclarationAst::Policy(policy) = &document.declarations[5] else {
        panic!("last declaration should be a policy sentence");
    };
    assert!(policy.declaration.name.is_empty());
    assert!(policy.declaration.id.is_empty());
}

#[test]
fn anonymous_semantic_rules_do_not_allocate_locale_ids() {
    let alternate_labels = SOURCE
        .replace("비용 승인", "지출 승인")
        .replace("비용 상태", "처리 상태")
        .replace("비용 신청", "지출 요청")
        .replace("회계 관리자", "재무 담당자")
        .replace("금액", "합계")
        .replace("상태", "단계")
        .replace("변경", "수정");

    for source in [SOURCE, &alternate_labels] {
        let document = parse(source).document.unwrap();
        let DeclarationAst::Constraint(constraint) = &document.declarations[2] else {
            panic!("third declaration should be a constraint sentence");
        };
        let DeclarationAst::Policy(policy) = &document.declarations[5] else {
            panic!("last declaration should be a policy sentence");
        };
        assert!(constraint.declaration.id.is_empty());
        assert!(policy.declaration.id.is_empty());
    }
}

#[test]
fn requires_sentence_periods() {
    let output = parse(&SOURCE.replace("커야 한다.", "커야 한다"));
    assert!(output
        .diagnostics
        .iter()
        .any(|diagnostic| diagnostic.rule_id == "RSPDL-KO-SYN-040"));
}

#[test]
fn data_models_do_not_use_an_annotation() {
    let output = parse(&SOURCE.replace("비용 신청(request)은", "@데이터 비용 신청(request)은"));
    assert!(output.diagnostics.iter().any(is_error));
}

#[test]
fn parses_sentence_shaped_screen_and_sum_derivation_rules() {
    let source = r#"@모듈 장바구니(shopping)
장바구니(cart)는 다음 필드들로 구성되어 있다.
    결제 예정 금액(total): 필수 정수
장바구니 항목(item)은 다음 필드들로 구성되어 있다.
    수량(quantity): 필수 정수
    금액(amount): 필수 정수
장바구니 작성 화면(create_cart)에서는 장바구니를 생성할 수 있다.
장바구니 항목 입력 화면(create_item)에서는 장바구니 항목을 생성할 수 있다.
장바구니 항목 입력 화면(create_item)에서는 장바구니 항목의 수량, 금액을 입력할 수 있다.
장바구니 상세 화면(cart_detail)에서는 장바구니의 결제 예정 금액을 조회할 수 있다.
장바구니 항목 화면(item_detail)에서는 장바구니 항목의 수량, 금액을 조회할 수 있다.
장바구니 항목 수정 화면(update_item)에서는 장바구니 항목의 금액을 수정할 수 있다.
장바구니 항목 삭제 화면(delete_item)에서는 장바구니 항목을 삭제할 수 있다.
장바구니의 결제 예정 금액은 장바구니 항목의 금액의 합계로 계산한다.
장바구니 항목의 금액이 바뀔 때 장바구니의 결제 예정 금액을 다시 계산한다.
"#;
    let output = parse(source);
    assert!(output.diagnostics.is_empty(), "{:?}", output.diagnostics);
    let document = output.document.unwrap();
    assert!(document.declarations.iter().any(|declaration| matches!(
        declaration,
        DeclarationAst::Screen(ScreenAst { fields, .. }) if fields.len() == 2
    )));
    assert!(document
        .declarations
        .iter()
        .any(|declaration| matches!(declaration, DeclarationAst::SumDerivation(_))));
    assert!(document
        .declarations
        .iter()
        .any(|declaration| matches!(declaration, DeclarationAst::Recalculation(_))));
    assert!(document.declarations.iter().any(|declaration| matches!(
        declaration,
        DeclarationAst::Screen(ScreenAst {
            operation: ScreenOperationKindAst::Delete,
            ..
        })
    )));

    let quoted = parse(
        "@모듈 배송(delivery)\n배송 입력 화면(input)에서는 배송의 `배송 주소`, `수령인 이름`을 입력할 수 있다.\n",
    );
    assert!(quoted.diagnostics.is_empty(), "{:?}", quoted.diagnostics);
    assert!(quoted.document.unwrap().declarations.iter().any(|declaration| {
        matches!(
            declaration,
            DeclarationAst::Screen(ScreenAst { fields, .. })
                if fields == &["배송 주소", "수령인 이름"]
        )
    }));
}

fn assert_diagnostic_span(source: &str, line: &str, rule_id: &str) {
    let diagnostic = parse(source)
        .diagnostics
        .into_iter()
        .find(|diagnostic| diagnostic.rule_id == rule_id)
        .unwrap_or_else(|| panic!("missing diagnostic {rule_id}"));
    let start = source.find(line).expect("test line should be present");
    assert_eq!(
        diagnostic.span,
        Span {
            start,
            end: start + line.len(),
        }
    );
}

#[test]
fn reports_exact_spans_for_invalid_data_usage_sentences() {
    let screen_line = "항목 작성 화면(create_item)에서는 항목을 생성할 수 있다.";
    let screen_with_body = format!("@모듈 테스트(test)\n{screen_line}\n    잘못된 블록\n");
    assert_diagnostic_span(&screen_with_body, screen_line, "RSPDL-KO-SYN-060");

    let missing_marker_line = "항목 작성 화면(create_item)에서는 항목의 금액 조회할 수 있다.";
    let missing_marker = format!("@모듈 테스트(test)\n{missing_marker_line}\n");
    assert_diagnostic_span(&missing_marker, missing_marker_line, "RSPDL-KO-SYN-062");

    let derivation_line = "항목의 합계는 항목의 금액의 합계로 계산한다.";
    let derivation_with_body = format!("@모듈 테스트(test)\n{derivation_line}\n    잘못된 블록\n");
    assert_diagnostic_span(&derivation_with_body, derivation_line, "RSPDL-KO-SYN-063");
}

#[test]
fn unnatural_particles_are_non_blocking_warnings() {
    let output = parse(&SOURCE.replace("회계 관리자는", "회계 관리자은"));
    assert!(output.document.is_some());
    assert!(output.diagnostics.iter().any(|diagnostic| diagnostic.rule_id == "RSPDL-KO-W001"
        && diagnostic.severity == Severity::Warning));
    assert!(!output.diagnostics.iter().any(is_error));
}

#[test]
fn parses_relations_and_relational_meta_rules() {
    let source = r#"@모듈 관계(relations)
프로젝트(project)는 다음 필드들로 구성되어 있다.
    이름(name): 필수 문자열
사용자(user)는 다음 필드들로 구성되어 있다.
    이름(name): 필수 문자열
프로젝트는 사용자를 소유자(owner)로 가질 수 있다.
사용자는 내부(internal)에 해당할 수 있다.
사용자는 외부(external)에 해당할 수 있다.
프로젝트는 하나 이상 존재해야 한다.
모든 프로젝트는 소유자를 하나 이상 가져야 한다.
각 프로젝트는 소유자를 최대 하나만 가질 수 있다.
내부, 외부 중 둘 이상은 동시에 성립할 수 없다.
내부, 외부 중 하나 이상은 항상 성립해야 한다.
소유자, 소유자 후보는 동시에 성립할 수 있다.
"#;
    let output = parse(source);

    assert!(output.diagnostics.is_empty(), "{:?}", output.diagnostics);
    let declarations = output.document.unwrap().declarations;
    assert_eq!(
        declarations
            .iter()
            .filter(|declaration| matches!(
                declaration,
                DeclarationAst::DataModel(DataModelAst { fields, .. }) if !fields.is_empty()
            ))
            .count(),
        2
    );
    assert_eq!(
        declarations
            .iter()
            .filter(|declaration| matches!(declaration, DeclarationAst::Relation(_)))
            .count(),
        3
    );
    assert_eq!(
        declarations
            .iter()
            .filter(|declaration| matches!(declaration, DeclarationAst::RelationalConstraint(_)))
            .count(),
        6
    );
}

#[test]
fn relation_group_separator_does_not_split_a_name_containing_jung() {
    let source = r#"@모듈 상태(status)
신청(request)은 다음 필드들로 구성되어 있다.
    이름(name): 필수 문자열
신청은 승인 중(pending)에 해당할 수 있다.
신청은 검토 완료(checked)에 해당할 수 있다.
승인 중, 검토 완료 중 둘 이상은 동시에 성립할 수 없다.
승인 중, 검토 완료 중 하나 이상은 항상 성립해야 한다.
"#;

    let output = parse(source);
    assert!(output.diagnostics.is_empty(), "{:?}", output.diagnostics);
    let declarations = output.document.unwrap().declarations;
    let groups = declarations
        .iter()
        .filter_map(|declaration| match declaration {
            DeclarationAst::RelationalConstraint(RelationalConstraintAst {
                constraint:
                    RelationalConstraintKindAst::Exclusive { relations }
                    | RelationalConstraintKindAst::Exhaustive { relations },
                ..
            }) => Some(relations),
            _ => None,
        })
        .collect::<Vec<_>>();

    assert_eq!(groups.len(), 2);
    assert!(groups
        .iter()
        .all(|relations| relations.as_slice() == ["승인 중", "검토 완료"]));
}

#[test]
fn domain_annotations_are_rejected() {
    let source = "@모듈 관계(relations)\n@열거형 상태(status)\n@개체 프로젝트(project)\n@관계 소유자(owner)\n@비어있지않음 프로젝트\n@필수 소유자\n@유일 소유자\n@배타 소유자, 검토자\n@전체 소유자, 검토자\n@공존 소유자, 검토자\n@역할 관리자(manager)\n@행동 변경(change)\n";
    let output = parse(source);

    assert_eq!(
        output
            .diagnostics
            .iter()
            .filter(|diagnostic| diagnostic.rule_id == "RSPDL-KO-SYN-003")
            .count(),
        11
    );
    assert!(output
        .diagnostics
        .iter()
        .all(|diagnostic| diagnostic.message_key == "ko.syntax.domain_annotation_forbidden"));
}

#[test]
fn a_source_without_lines_has_no_module() {
    let output = parse("");
    assert!(output.document.is_none());
    assert_eq!(output.diagnostics.len(), 1);
    assert_eq!(output.diagnostics[0].rule_id, "RSPDL-KO-SYN-001");
    assert_eq!(output.diagnostics[0].message_key, "ko.syntax.module_required");
}

#[test]
fn the_frontmatter_names_the_module() {
    let source = "---\n모듈: 장바구니(shopping)\n---\n상품은 하나 이상 존재해야 한다.\n";
    let output = parse(source);
    assert!(output.diagnostics.is_empty(), "{:?}", output.diagnostics);
    let document = output.document.unwrap();
    assert_eq!(document.module.declaration.name, "장바구니");
    assert_eq!(document.module.declaration.id, "shopping");
    assert_eq!(document.declarations.len(), 1);
}

#[test]
fn indented_lines_under_a_sentence_are_reported_one_by_one() {
    let source = "@모듈 테스트(test)\n상품은 하나 이상 존재해야 한다.\n    첫째\n    둘째\n";
    let output = parse(source);
    let rule_ids: Vec<&str> = output.diagnostics.iter().map(|d| d.rule_id.as_str()).collect();
    assert_eq!(
        rule_ids,
        vec!["RSPDL-KO-SYN-063", "RSPDL-KO-SYN-002", "RSPDL-KO-SYN-002"]
    );
    assert!(output.document.unwrap().declarations.is_empty());
}
