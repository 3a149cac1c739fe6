use rspdl::diagnostic::{Diagnostic, Span};
use rspdl::render::{object_marker, render_diagnostic, subject_marker};

#[test]
fn renders_structured_semantic_diagnostics_in_korean() {
    let diagnostic = Diagnostic::error(
        "RSPDL-LINK-003",
        "semantic.symbol.not_found",
        Span::default(),
    )
    .with_argument("kind", "role")
    .with_argument("reference", "manager");

    assert_eq!(
        render_diagnostic(&diagnostic),
        "역할 manager을 찾을 수 없습니다."
    );
    assert!(
        !format!("{:?}", diagnostic).contains("찾을 수")
    );

    let vowel_ending = Diagnostic::error(
        "RSPDL-LINK-003",
        "semantic.model.not_found",
        Span::default(),
    )
    .with_argument("reference", "상태");
    let consonant_ending = Diagnostic::error(
        "RSPDL-LINK-003",
        "semantic.model.not_found",
        Span::default(),
    )
    .with_argument("reference", "금액");
    assert_eq!(
        render_diagnostic(&vowel_ending),
        "데이터 모델 상태를 찾을 수 없습니다."
    );
    assert_eq!(
        render_diagnostic(&consonant_ending),
        "데이터 모델 금액을 찾을 수 없습니다."
    );
}

#[test]
fn renders_natural_particles_for_relation_diagnostics() {
    for (reference, expected) in [
        ("소유자", "관계 소유자를 찾을 수 없습니다."),
        ("검토팀", "관계 검토팀을 찾을 수 없습니다."),
    ] {
        let diagnostic = Diagnostic::error(
            "RSPDL-REL-001",
            "semantic.relation.not_found",
            Span::default(),
        )
        .with_argument("reference", reference);
        assert_eq!(render_diagnostic(&diagnostic), expected);
    }

    let anchor = Diagnostic::error(
        "RSPDL-REL-003",
        "semantic.relation.cardinality_anchor_mismatch",
        Span::default(),
    )
    .with_argument("relation_id", "소유자")
    .with_argument("expected_model_id", "프로젝트")
    .with_argument("actual_model_id", "사용자");
    assert_eq!(
        render_diagnostic(&anchor),
        "관계 소유자의 기준 개체는 프로젝트인데 규칙에는 사용자가 사용되었습니다."
    );

    for (relations, expected) in [
        (
            "소유자",
            "같은 관계 그룹 소유자를 배타적이면서 공존 가능하다고 선언할 수 없습니다.",
        ),
        (
            "검토팀",
            "같은 관계 그룹 검토팀을 배타적이면서 공존 가능하다고 선언할 수 없습니다.",
        ),
    ] {
        let diagnostic = Diagnostic::error(
            "RSPDL-REL-004",
            "semantic.relation.compatibility_conflict",
            Span::default(),
        )
        .with_argument("relation_ids", relations);
        assert_eq!(render_diagnostic(&diagnostic), expected);
    }
}

#[test]
fn renders_conditional_creation_core_diagnostics() {
    let arguments = [
        ("action_id", "notice.assign"),
        ("reference", "status"),
        ("input_id", "notice.assign.status"),
        ("enum_id", "notice.status"),
        ("production_id", "notice.production_x"),
        ("input_ids", "notice.assign.status,notice.assign.kind"),
        ("variant_id", "notice.status.received"),
        ("branch_ids", "notice.first,notice.second"),
        ("missing_variant_ids", "notice.status.held"),
        ("field_id", "notice.output.body"),
        ("create_branch_ids", "notice.first"),
    ];
    for key in [
        "semantic.creation_branch.decision_input_not_found",
        "semantic.creation_branch.decision_input_requires_enum",
        "semantic.creation_branch.variant_not_in_decision_enum",
        "semantic.creation_production.mixed_decision_inputs",
        "semantic.creation_production.variant_conflict",
        "semantic.creation_production.variant_coverage_missing",
        "semantic.creation_production.required_field_producer_missing",
    ] {
        let diagnostic = arguments.into_iter().fold(
            Diagnostic::error("RSPDL-TEST", key, Span::default()),
            |diagnostic, (argument, value)| diagnostic.with_argument(argument, value),
        );
        let rendered = render_diagnostic(&diagnostic);
        assert_ne!(rendered, key, "{key}");
        assert!(!rendered.contains("<?>"), "{key}: {rendered}");
    }
}

#[test]
fn renders_field_producer_diagnostics_without_raw_keys_or_missing_arguments() {
    for key in [
        "ko.syntax.field_producer_stable_id_required",
        "ko.syntax.field_producer_topic_marker_required",
        "ko.syntax.field_producer_literal_required",
        "ko.syntax.field_producer_literal_marker_required",
    ] {
        assert_ne!(
            render_diagnostic(&Diagnostic::error("RSPDL-TEST", key, Span::default())),
            key
        );
    }

    let arguments = [
        ("producer_id", "notice.title_binding"),
        ("source", "notice.assign.title"),
        ("source_type", "integer"),
        ("output_field_id", "notice.output.title"),
        ("output_type", "string"),
        ("production_id", "notice.production_x"),
        ("field_id", "notice.output.title"),
        ("producer_ids", "notice.first,notice.second"),
    ];
    for key in [
        "semantic.field_producer.source_input_not_found",
        "semantic.field_producer.source_trigger_owner_mismatch",
        "semantic.field_producer.type_mismatch",
        "semantic.creation_production.field_producer_without_creation_decision",
        "semantic.creation_production.field_producer_conflict",
        "semantic.event_field_producer.conditional_unsupported",
        "semantic.event_field_producer.constant_unsupported",
        "semantic.producer.legacy_action_incompatible",
    ] {
        let diagnostic = arguments.into_iter().fold(
            Diagnostic::error("RSPDL-TEST", key, Span::default()),
            |diagnostic, (argument, value)| diagnostic.with_argument(argument, value),
        );
        let rendered = render_diagnostic(&diagnostic);
        assert_ne!(rendered, key, "{key}");
        assert!(!rendered.contains("<?>"), "{key}: {rendered}");
    }
}


#[test]
fn particles_follow_the_last_syllable() {
    assert_eq!(object_marker("상태"), "를");
    assert_eq!(object_marker("금액"), "을");
    assert_eq!(object_marker("manager"), "을");
    assert_eq!(object_marker(""), "을");
    assert_eq!(subject_marker("사용자"), "가");
    assert_eq!(subject_marker("검토팀"), "이");
    assert_eq!(subject_marker("가"), "가");
    assert_eq!(subject_marker("힣"), "이");
}

#[test]
fn unknown_keys_fall_back_to_the_key_and_arguments() {
    let bare = Diagnostic::error("RSPDL-TEST", "custom.unknown", Span::default());
    assert_eq!(render_diagnostic(&bare), "custom.unknown");
    let with_arguments = Diagnostic::error("RSPDL-TEST", "custom.unknown", Span::default())
        .with_argument("a", "1")
        .with_argument("b", "두");
    assert_eq!(render_diagnostic(&with_arguments), "custom.unknown (a=1, b=두)");
}

#[test]
fn missing_arguments_render_as_placeholders() {
    let diagnostic = Diagnostic::error("RSPDL-TEST", "ko.lex.unclosed_stable_id", Span::default());
    assert_eq!(render_diagnostic(&diagnostic), "<?>로 닫히지 않은 stable ID입니다.");
    let with = diagnostic.with_argument("closing", "`)`");
    assert_eq!(render_diagnostic(&with), "`)`로 닫히지 않은 stable ID입니다.");
}

#[test]
fn kind_arguments_are_named_in_korean() {
    let diagnostic = Diagnostic::error("RSPDL-TEST", "ko.syntax.sentence_block_forbidden", Span::default())
        .with_argument("kind", "field_producer");
    assert_eq!(
        render_diagnostic(&diagnostic),
        "필드 생산자 문장 아래에는 들여쓰기 블록을 둘 수 없습니다."
    );
    let unknown = Diagnostic::error("RSPDL-TEST", "ko.syntax.sentence_block_forbidden", Span::default())
        .with_argument("kind", "other");
    assert_eq!(
        render_diagnostic(&unknown),
        "other 문장 아래에는 들여쓰기 블록을 둘 수 없습니다."
    );
    let ambiguous = Diagnostic::error("RSPDL-TEST", "semantic.reference.ambiguous", Span::default())
        .with_argument("kind", "enum_variant")
        .with_argument("reference", "접수")
        .with_argument("candidates", "a.b,a.c");
    assert_eq!(
        render_diagnostic(&ambiguous),
        "열거형 값 참조 접수가 여러 stable ID(a.b,a.c)와 일치합니다."
    );
}

#[test]
fn trigger_kind_and_source_type_choose_the_wording() {
    let event = Diagnostic::error(
        "RSPDL-TEST",
        "semantic.creation_branch.decision_input_not_found",
        Span::default(),
    )
    .with_argument("trigger_kind", "event")
    .with_argument("trigger_id", "notice.received")
    .with_argument("reference", "status");
    assert_eq!(
        render_diagnostic(&event),
        "사건 notice.received에서 조건 입력 status을 찾을 수 없습니다."
    );
    let action = Diagnostic::error(
        "RSPDL-TEST",
        "semantic.creation_branch.decision_input_not_found",
        Span::default(),
    )
    .with_argument("action_id", "notice.assign")
    .with_argument("reference", "status");
    assert_eq!(
        render_diagnostic(&action),
        "행동 notice.assign에서 조건 입력 status을 찾을 수 없습니다."
    );
    let legacy = Diagnostic::error(
        "RSPDL-TEST",
        "semantic.creation_branch.legacy_action_incompatible",
        Span::default(),
    )
    .with_argument("legacy_action_reference", "배정")
    .with_argument("trigger_id", "notice.assign");
    assert_eq!(
        render_diagnostic(&legacy),
        "조건부 생성 branch의 행동 호환 참조 배정은 트리거 notice.assign와 같아야 합니다."
    );
    let typed = Diagnostic::error("RSPDL-TEST", "semantic.field_producer.type_mismatch", Span::default())
        .with_argument("producer_id", "p")
        .with_argument("source", "s")
        .with_argument("output_field_id", "f")
        .with_argument("output_type", "string");
    assert_eq!(
        render_diagnostic(&typed),
        "생산자 p의 source s은 output field f의 string 타입 값으로 사용할 수 없습니다."
    );
    let typed = typed.with_argument("source_type", "integer");
    assert_eq!(
        render_diagnostic(&typed),
        "생산자 p의 source s 타입 integer은 output field f의 string 타입과 맞지 않습니다."
    );
}

#[test]
fn rule_ids_severities_and_spans_do_not_change_the_message() {
    let error = Diagnostic::error(
        "RSPDL-LINK-003",
        "semantic.model.not_found",
        Span { start: 3, end: 9 },
    )
    .with_argument("reference", "금액");
    let warning = Diagnostic::warning(
        "RSPDL-OTHER-999",
        "semantic.model.not_found",
        Span::default(),
    )
    .with_argument("reference", "금액");
    assert_eq!(render_diagnostic(&error), render_diagnostic(&warning));
    assert_eq!(
        render_diagnostic(&warning),
        "데이터 모델 금액을 찾을 수 없습니다."
    );
}

#[test]
fn arguments_are_kept_in_key_order_with_one_value_per_key() {
    let diagnostic = Diagnostic::error("RSPDL-TEST-001", "test.unknown_key", Span::default())
        .with_argument("reference", "금액")
        .with_argument("kind", "role")
        .with_argument("reference", "상태")
        .with_argument("가", "나");
    assert_eq!(
        diagnostic.arguments,
        vec![
            ("kind".to_owned(), "role".to_owned()),
            ("reference".to_owned(), "상태".to_owned()),
            ("가".to_owned(), "나".to_owned()),
        ]
    );
    assert_eq!(diagnostic.argument("reference"), Some("상태"));
    assert_eq!(
        render_diagnostic(&diagnostic),
        "test.unknown_key (kind=role, reference=상태, 가=나)"
    );
}
