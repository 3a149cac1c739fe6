use rspdl::ast::{
    ActionAst, ActionDataMutationAst, ActionInputAst, ActionInputKindAst, ConstraintAst,
    ConstraintExpressionAst, CreationBranchAst, CreationDecisionAst, DataModelAst,
    DataMutationKindAst, DeclarationAst, DocumentAst, EnumAst, EnumValueAst, FieldAst,
    FieldProducerAst, FieldProducerConditionAst, FieldProducerSourceAst, LiteralAst, ModuleAst,
    NamedIdAst, OperandAst, PolicyAst, PolicyEffectAst, ProducerTriggerAst,
    ProducerTriggerKindAst, RelationAst, RelationOperatorAst, RoleAst, ScreenAst,
    ScreenOperationKindAst, TypeReferenceAst,
};
use rspdl::diagnostic::Span;
use rspdl::formatter::{format_document, named_id, needs_quotes, scalar};
use rspdl::document::parse;
use rspdl::frontmatter::read;

fn span() -> Span {
    Span { start: 0, end: 0 }
}

fn named(name: &str, id: &str) -> NamedIdAst {
    NamedIdAst {
        name: name.to_owned(),
        id: id.to_owned(),
        span: span(),
    }
}

fn document(declarations: Vec<DeclarationAst>) -> DocumentAst {
    DocumentAst {
        frontmatter: None,
        module: ModuleAst {
            declaration: named("승인", "approval"),
            span: span(),
        },
        declarations,
    }
}

fn field(name: &str, id: &str, value_type: TypeReferenceAst) -> FieldAst {
    FieldAst {
        declaration: named(name, id),
        required: true,
        value_type,
        span: span(),
    }
}

fn request_model() -> DeclarationAst {
    DeclarationAst::DataModel(DataModelAst {
        declaration: named("신청", "request"),
        fields: vec![field("금액", "amount", TypeReferenceAst::Integer)],
        span: span(),
    })
}

fn producer(source: FieldProducerSourceAst, condition: Option<FieldProducerConditionAst>) -> DeclarationAst {
    DeclarationAst::FieldProducer(FieldProducerAst {
        declaration: named("알림 내용 조합", "content_template"),
        trigger: ProducerTriggerAst {
            name: "전달".to_owned(),
            kind: ProducerTriggerKindAst::Action,
        },
        output_model: "알림".to_owned(),
        output_field: "내용".to_owned(),
        source,
        condition,
        span: span(),
    })
}

#[test]
fn documents_without_a_frontmatter_start_with_the_module_line() {
    let text = format_document(&document(vec![request_model()])).unwrap();
    assert_eq!(
        text,
        "@모듈 승인(approval)\n\n신청(request)은 다음 필드들로 구성되어 있다.\n    금액(amount): 필수 정수\n"
    );
    assert!(!text.contains("---"));
}

#[test]
fn enumerations_list_one_value_per_line() {
    let state = DeclarationAst::Enum(EnumAst {
        declaration: named("상태", "state"),
        values: vec![
            EnumValueAst {
                declaration: named("작성 중", "draft"),
                span: span(),
            },
            EnumValueAst {
                declaration: named("제출됨", "submitted"),
                span: span(),
            },
        ],
        span: span(),
    });
    let text = format_document(&document(vec![state])).unwrap();
    assert_eq!(
        text,
        "@모듈 승인(approval)\n\n상태(state)는 다음 값 중 하나다.\n    작성 중(draft)\n    제출됨(submitted)\n"
    );
}

#[test]
fn roles_actions_inputs_mutations_and_policies_are_written_as_sentences() {
    let declarations = vec![
        DeclarationAst::Role(RoleAst {
            declaration: named("관리자", "manager"),
            span: span(),
        }),
        DeclarationAst::Action(ActionAst {
            declaration: named("등록", "register"),
            span: span(),
        }),
        DeclarationAst::ActionInput(ActionInputAst {
            action: "등록".to_owned(),
            declaration: named("대상 신청", "request"),
            kind: ActionInputKindAst::ExistingModel {
                model: "신청".to_owned(),
            },
            span: span(),
        }),
        DeclarationAst::ActionInput(ActionInputAst {
            action: "등록".to_owned(),
            declaration: named("요청 메모", "note"),
            kind: ActionInputKindAst::Value {
                value_type: TypeReferenceAst::String,
            },
            span: span(),
        }),
        DeclarationAst::ActionDataMutation(ActionDataMutationAst {
            action: "등록".to_owned(),
            model: "신청".to_owned(),
            mutation: DataMutationKindAst::Create,
            span: span(),
        }),
        DeclarationAst::Policy(PolicyAst {
            declaration: named("변경 허용", "allow_change"),
            role: "관리자".to_owned(),
            model: "신청".to_owned(),
            field: "금액".to_owned(),
            action: "변경".to_owned(),
            effect: PolicyEffectAst::Allow,
            span: span(),
        }),
    ];
    let text = format_document(&document(declarations)).unwrap();
    assert_eq!(
        text,
        concat_lines(&[
            "@모듈 승인(approval)",
            "",
            "관리자(manager)는 역할이다.",
            "",
            "등록(register)은 행동이다.",
            "",
            "등록은 기존 신청을 대상 신청(request)으로 입력받는다.",
            "",
            "등록은 문자열을 요청 메모(note)로 입력받는다.",
            "",
            "등록이 실행되면 신청을 생성한다.",
            "",
            "관리자는 신청의 금액을 변경할 수 있다.",
        ])
    );
}

fn concat_lines(lines: &[&str]) -> String {
    let mut text = String::new();
    for line in lines {
        text.push_str(line);
        text.push('\n');
    }
    text
}

#[test]
fn constraints_end_with_a_newline() {
    let constraint = DeclarationAst::Constraint(ConstraintAst {
        declaration: named("양수 금액", "positive_amount"),
        expression: ConstraintExpressionAst {
            model: "신청".to_owned(),
            left: OperandAst::Field("금액".to_owned()),
            operator: RelationOperatorAst::GreaterThan,
            right: OperandAst::Literal(LiteralAst::Integer("0".to_owned())),
            span: span(),
        },
    });
    let text = format_document(&document(vec![constraint])).unwrap();
    assert_eq!(text, "@모듈 승인(approval)\n\n신청의 금액은 0보다 커야 한다.\n");
}

#[test]
fn relations_take_one_or_two_models() {
    let unary = DeclarationAst::Relation(RelationAst {
        declaration: named("우수 학생", "honor"),
        parameter_models: vec!["학생".to_owned()],
        span: span(),
    });
    let binary = DeclarationAst::Relation(RelationAst {
        declaration: named("수강", "enroll"),
        parameter_models: vec!["학생".to_owned(), "수업".to_owned()],
        span: span(),
    });
    let text = format_document(&document(vec![unary, binary])).unwrap();
    assert_eq!(
        text,
        "@모듈 승인(approval)\n\n학생은 우수 학생(honor)에 해당할 수 있다.\n\n학생은 수업을 수강(enroll)으로 가질 수 있다.\n"
    );
}

#[test]
fn screens_and_creation_branches_are_written_as_sentences() {
    let screen = DeclarationAst::Screen(ScreenAst {
        declaration: named("장바구니 항목 입력 화면", "create_item"),
        model: "장바구니 항목".to_owned(),
        fields: vec!["수량".to_owned(), "금액".to_owned()],
        operation: ScreenOperationKindAst::Input,
        span: span(),
    });
    let bare_screen = DeclarationAst::Screen(ScreenAst {
        declaration: named("장바구니 항목 입력 화면", "create_item"),
        model: "장바구니 항목".to_owned(),
        fields: Vec::new(),
        operation: ScreenOperationKindAst::Create,
        span: span(),
    });
    let branch = DeclarationAst::CreationBranch(CreationBranchAst {
        declaration: named("예 알림 생성", "yes_notice_create"),
        action: "전달".to_owned(),
        input: "선택".to_owned(),
        variant: "예".to_owned(),
        output_model: "알림".to_owned(),
        decision: CreationDecisionAst::Create,
        span: span(),
    });
    let text = format_document(&document(vec![screen, bare_screen, branch])).unwrap();
    assert_eq!(
        text,
        concat_lines(&[
            "@모듈 승인(approval)",
            "",
            "장바구니 항목 입력 화면(create_item)에서는 장바구니 항목의 수량, 금액을 입력할 수 있다.",
            "",
            "장바구니 항목 입력 화면(create_item)에서는 장바구니 항목을 생성할 수 있다.",
            "",
            "예 알림 생성(yes_notice_create)은 전달의 선택이 예라면 알림을 하나 생성한다.",
        ])
    );
}

#[test]
fn template_producers_write_the_template_as_a_json_string() {
    let template = producer(
        FieldProducerSourceAst::Template {
            value: "\"{제목}\" 알림".to_owned(),
        },
        None,
    );
    let text = format_document(&document(vec![template])).unwrap();
    assert_eq!(
        text,
        "@모듈 승인(approval)\n\n알림 내용 조합(content_template)은 전달이 실행될 때 \"\\\"{제목}\\\" 알림\"를 알림의 내용으로 조합한다.\n"
    );
}

#[test]
fn conditional_producers_name_the_input_variant() {
    let conditional = producer(
        FieldProducerSourceAst::ActionInput {
            input: "제목".to_owned(),
        },
        Some(FieldProducerConditionAst {
            input: "상태".to_owned(),
            variant: "접수됨".to_owned(),
        }),
    );
    let text = format_document(&document(vec![conditional])).unwrap();
    assert_eq!(
        text,
        "@모듈 승인(approval)\n\n알림 내용 조합(content_template)은 전달의 상태가 접수됨이면 제목을 알림의 내용으로 기록한다.\n"
    );
}

#[test]
fn declarations_without_a_korean_sentence_are_refused() {
    let empty_model = DeclarationAst::DataModel(DataModelAst {
        declaration: named("빈 모델", "empty"),
        fields: Vec::new(),
        span: span(),
    });
    let error = format_document(&document(vec![request_model(), empty_model])).unwrap_err();
    assert_eq!(
        error.message(),
        "필드가 없는 데이터 모델은 Korean 문법으로 표현할 수 없습니다."
    );

    let ternary = DeclarationAst::Relation(RelationAst {
        declaration: named("배정", "assignment"),
        parameter_models: vec!["학생".to_owned(), "수업".to_owned(), "교실".to_owned()],
        span: span(),
    });
    let error = format_document(&document(vec![ternary])).unwrap_err();
    assert_eq!(
        error.message(),
        "Korean 문법은 단항 관계와 이항 관계만 표현할 수 있습니다."
    );

    let conditional_template = producer(
        FieldProducerSourceAst::Template {
            value: "{제목}".to_owned(),
        },
        Some(FieldProducerConditionAst {
            input: "상태".to_owned(),
            variant: "접수됨".to_owned(),
        }),
    );
    let error = format_document(&document(vec![conditional_template])).unwrap_err();
    assert_eq!(
        error.message(),
        "조건부 template producer는 현재 Korean 문법으로 표현할 수 없습니다."
    );
}

const FRONTMATTER_SOURCE: &str = "---\n모듈: 장바구니(shopping)\n\n정보구조:\n  주문(order):\n    결제(payment): [장바구니 항목 입력 화면]\n    조회(inquiry):\n\n화면:\n  장바구니 항목 입력 화면:\n    유형: page\n    레이아웃:\n      - 머리말:\n          - 제목: \"항목 추가\"\n      - 구역:\n          - 폼:\n              - 입력: 수량\n              - 입력: 금액\n          - 목록: { 모델: 장바구니 항목, 필드: [수량, 금액] }\n          - 자리: \"지도\"\n          - 버튼: { id: submit, 이름: \"담기\" }\n\n흐름:\n  - 출발: 장바구니 항목 입력 화면.submit\n    도착: 장바구니 상세 화면\n    설명: \"담기 성공\"\n---\n";

fn with_frontmatter(source: &str) -> DocumentAst {
    let output = read(source);
    assert!(output.diagnostics.is_empty(), "{:?}", output.diagnostics);
    let mut document = document(vec![request_model()]);
    document.module.declaration = named("장바구니", "shopping");
    document.frontmatter = output.frontmatter;
    document
}

#[test]
fn a_module_named_by_the_frontmatter_is_not_repeated() {
    let first = format_document(&with_frontmatter(FRONTMATTER_SOURCE)).unwrap();
    assert!(first.starts_with("---\n모듈: 장바구니(shopping)\n"), "{first}");
    assert!(!first.contains("@모듈"), "{first}");
    assert!(first.ends_with("---\n\n신청(request)은 다음 필드들로 구성되어 있다.\n    금액(amount): 필수 정수\n"), "{first}");
}

#[test]
fn the_frontmatter_reads_back_to_the_same_text() {
    let first = format_document(&with_frontmatter(FRONTMATTER_SOURCE)).unwrap();
    let second = format_document(&with_frontmatter(&first)).unwrap();
    assert_eq!(first, second);
}

#[test]
fn a_frontmatter_without_a_module_is_followed_by_the_module_line() {
    let source = "---\n정보구조:\n  주문(order): [장바구니 작성 화면]\n---\n";
    let first = format_document(&with_frontmatter(source)).unwrap();
    assert_eq!(
        first,
        "---\n정보구조:\n  주문(order): [장바구니 작성 화면]\n---\n\n@모듈 장바구니(shopping)\n\n신청(request)은 다음 필드들로 구성되어 있다.\n    금액(amount): 필수 정수\n"
    );
}

#[test]
fn written_scalars_read_back_as_their_text() {
    for text in ["상품 목록", "plain", "a: b", "x, y", "# note", "-dash", " padded", "", "\"quoted\"", "탭\t문자"] {
        let written = scalar(text);
        if needs_quotes(text) {
            assert!(written.starts_with('"'), "{text:?}");
            assert_eq!(serde_json::from_str::<String>(&written).unwrap(), text);
        } else {
            assert_eq!(written, text);
        }
    }
    assert_eq!(scalar("a: b"), "\"a: b\"");
    assert_eq!(scalar("상품 목록"), "상품 목록");
}

#[test]
fn written_names_read_back_as_the_same_declaration() {
    for (name, id) in [("장바구니", "shopping"), ("상품 (신규", "product"), ("a: b", "x_1")] {
        let declaration = NamedIdAst { name: name.to_owned(), id: id.to_owned(), span: span() };
        let written = named_id(&declaration, false).unwrap();
        assert_eq!(written, format!("{name}({id})"));
        let source = format!("---\n모듈: {written}\n---\n");
        let output = read(&source);
        assert!(output.diagnostics.is_empty(), "{written}: {:?}", output.diagnostics);
        let module = output.frontmatter.expect("frontmatter").module.expect("module");
        assert_eq!((module.name.as_str(), module.id.as_str()), (name, id));
    }
    let unwritable = NamedIdAst { name: " 앞 공백".to_owned(), id: "x".to_owned(), span: span() };
    assert!(named_id(&unwritable, false).is_err());
}

fn reformat(source: &str) -> String {
    let document = parse(source).document.expect("the document should parse");
    format_document(&document).unwrap()
}

/// The frontmatter as read, its spans left out: written again, positions move but the meaning
/// must stay.
fn frontmatter_shape(source: &str) -> String {
    let output = read(source);
    assert!(output.diagnostics.is_empty(), "{:?}", output.diagnostics);
    let text = format!("{:?}", output.frontmatter);
    let mut shape = String::new();
    let mut rest = text.as_str();
    while let Some(start) = rest.find("Span { start: ") {
        shape.push_str(&rest[..start]);
        let after = &rest[start..];
        let end = after.find('}').unwrap();
        shape.push_str("Span");
        rest = &after[end + 1..];
    }
    shape.push_str(rest);
    shape
}

fn assert_only_module_uses_annotation(source: &str) {
    let annotations = source
        .lines()
        .filter(|line| line.trim_start().starts_with('@'))
        .collect::<Vec<_>>();
    assert_eq!(annotations.len(), 1, "{source}");
    assert!(annotations[0].starts_with("@모듈 "), "{source}");
}

#[test]
fn a_module_declared_by_annotation_survives_a_frontmatter_without_one() {
    let source = "---\n정보구조:\n  주문(order): [장바구니 작성 화면]\n---\n\n@모듈 장바구니(shopping)\n";
    let first = reformat(source);
    assert_eq!(frontmatter_shape(source), frontmatter_shape(&first));
    assert!(first.contains("@모듈 장바구니(shopping)"), "{first}");
    assert_eq!(first, reformat(&first));
}

#[test]
fn unspecified_kind_and_label_are_not_filled_in() {
    let source = "---\n모듈: 장바구니(shopping)\n\n화면:\n  장바구니 작성 화면:\n    레이아웃:\n      - 버튼: { id: submit, 이름: \"담기\" }\n\n흐름:\n  - 출발: 장바구니 작성 화면.submit\n    도착: 장바구니 상세 화면\n---\n";
    let first = reformat(source);
    assert!(!first.contains("유형"), "{first}");
    assert!(!first.contains("설명"), "{first}");
    assert_eq!(frontmatter_shape(source), frontmatter_shape(&first));
    assert_eq!(first, reformat(&first));
}

#[test]
fn colons_commas_and_leading_hyphens_survive_the_round_trip() {
    let source = "---\n모듈: 장바구니(shopping)\n\n화면:\n  장바구니 작성 화면:\n    레이아웃:\n      - 제목: \"가격: 표\"\n      - 자리: \"-지도\"\n      - 버튼: { id: submit, 이름: \"담기, 그리고 계속\" }\n---\n";
    let first = reformat(source);
    assert_eq!(frontmatter_shape(source), frontmatter_shape(&first));
    assert_eq!(first, reformat(&first));
    assert!(first.contains("제목: \"가격: 표\""), "{first}");
    assert!(first.contains("자리: \"-지도\""), "{first}");
    assert!(first.contains("이름: \"담기, 그리고 계속\""), "{first}");
}

#[test]
fn documents_without_a_frontmatter_are_written_exactly_as_before() {
    let source = "@모듈 승인(approval)\n신청(request)은 다음 필드들로 구성되어 있다.\n    금액(amount): 필수 정수\n";
    let first = reformat(source);
    assert!(first.starts_with("@모듈 승인(approval)\n"), "{first}");
    assert!(!first.contains("---"), "{first}");
    assert_only_module_uses_annotation(&first);
}

const FULL_FRONTMATTER_SOURCE: &str = "---\n모듈: 장바구니(shopping)\n\n정보구조:\n  주문(order):\n    결제(payment): [장바구니 항목 입력 화면]\n    조회(inquiry):\n\n화면:\n  장바구니 항목 입력 화면:\n    유형: page\n    레이아웃:\n      - 머리말:\n          - 제목: \"항목 추가\"\n      - 구역:\n          - 폼:\n              - 입력: 수량\n              - 입력: 금액\n          - 목록: { 모델: 장바구니 항목, 필드: [수량, 금액] }\n          - 자리: \"지도\"\n          - 버튼: { id: submit, 이름: \"담기\" }\n\n흐름:\n  - 출발: 장바구니 항목 입력 화면.submit\n    도착: 장바구니 상세 화면\n    설명: \"담기 성공\"\n---\n\n장바구니 항목(item)은 다음 필드들로 구성되어 있다.\n    수량(quantity): 필수 정수\n    금액(amount): 필수 정수\n\n장바구니 항목 입력 화면(create_item)에서는 장바구니 항목을 생성할 수 있다.\n장바구니 항목 입력 화면(create_item)에서는 장바구니 항목의 수량, 금액을 입력할 수 있다.\n";

#[test]
fn module_from_the_frontmatter_is_not_repeated_as_an_annotation() {
    let first = reformat(FULL_FRONTMATTER_SOURCE);
    assert!(first.starts_with("---\n모듈: 장바구니(shopping)\n"), "{first}");
    assert!(!first.contains("@모듈"), "{first}");
}

#[test]
fn frontmatter_round_trips_and_is_idempotent() {
    let first = reformat(FULL_FRONTMATTER_SOURCE);
    assert_eq!(frontmatter_shape(FULL_FRONTMATTER_SOURCE), frontmatter_shape(&first));
    assert_eq!(first, reformat(&first));
    assert!(first.contains("장바구니 항목 입력 화면(create_item)에서는 장바구니 항목을 생성할 수 있다."));
}

/// Reads `source`, writes it, reads the text written and writes it again: both readings are
/// free of diagnostics and both texts are the same.
fn assert_round_trip(source: &str) -> String {
    let parsed = parse(source);
    assert!(parsed.diagnostics.is_empty(), "{:?}", parsed.diagnostics);
    let first = format_document(&parsed.document.unwrap()).unwrap();
    let reparsed = parse(&first);
    assert!(reparsed.diagnostics.is_empty(), "{:?}\n{first}", reparsed.diagnostics);
    let second = format_document(&reparsed.document.unwrap()).unwrap();
    assert_eq!(first, second);
    first
}

#[test]
fn screen_and_sum_sentences_round_trip_without_blocks() {
    let source = "@모듈 집계(summary)\n항목(item)은 다음 필드들로 구성되어 있다.\n  금액(amount): 필수 정수\n  합계(total): 필수 정수\n  내부 메모(internal_note): 필수 문자열\n  공개 설명(public_description): 필수 문자열\n항목 작성 화면(create_item)에서는 항목을 생성할 수 있다.\n항목 작성 화면(create_item)에서는 항목의 금액, 내부 메모, 공개 설명을 입력할 수 있다.\n항목 상세 화면(item_detail)에서는 항목의 금액, 합계를 조회할 수 있다.\n항목의 합계는 항목의 금액의 합계로 계산한다.\n항목의 금액이 바뀔 때 항목의 합계를 다시 계산한다.\n항목의 내부 메모는 내부 관리에만 사용한다.\n항목의 공개 설명은 사용자 화면에서 조회하지 않는다.\n";
    assert_round_trip(source);
}

#[test]
fn relations_and_meta_rules_round_trip() {
    let source = "@모듈 관계(relations)\n프로젝트(project)는 다음 필드들로 구성되어 있다.\n  이름(name): 필수 문자열\n사용자(user)는 다음 필드들로 구성되어 있다.\n  이름(name): 필수 문자열\n프로젝트는 사용자를 소유자(owner)로 가질 수 있다.\n프로젝트는 하나 이상 존재해야 한다.\n모든 프로젝트는 소유자를 하나 이상 가져야 한다.\n각 프로젝트는 소유자를 최대 하나만 가질 수 있다.\n";
    let first = assert_round_trip(source);
    assert_only_module_uses_annotation(&first);
}

#[test]
fn unary_relation_groups_round_trip() {
    let source = "@모듈 분류(classification)\n사용자(user)는 다음 필드들로 구성되어 있다.\n  이름(name): 필수 문자열\n사용자는 내부(internal)에 해당할 수 있다.\n사용자는 외부(external)에 해당할 수 있다.\n내부, 외부 중 둘 이상은 동시에 성립할 수 없다.\n내부, 외부 중 하나 이상은 항상 성립해야 한다.\n";
    let first = assert_round_trip(source);
    assert_only_module_uses_annotation(&first);
}

#[test]
fn coexistent_relation_group_round_trips() {
    let source = "@모듈 협업(teamwork)\n프로젝트(project)는 다음 필드들로 구성되어 있다.\n  이름(name): 필수 문자열\n사용자(user)는 다음 필드들로 구성되어 있다.\n  이름(name): 필수 문자열\n프로젝트는 사용자를 소유자(owner)로 가질 수 있다.\n프로젝트는 사용자를 검토자(inspector)로 가질 수 있다.\n소유자, 검토자는 동시에 성립할 수 있다.\n";
    let first = assert_round_trip(source);
    assert_only_module_uses_annotation(&first);
}

#[test]
fn quoted_scalars_escape_exactly_what_json_escapes() {
    assert_eq!(scalar("줄\n바꿈"), "\"줄\\n바꿈\"");
    assert_eq!(scalar("\"\n\\"), "\"\\\"\\n\\\\\"");
    assert_eq!(scalar("종\u{1}소리\u{7f}"), "\"종\\u0001소리\u{7f}\"");
}
