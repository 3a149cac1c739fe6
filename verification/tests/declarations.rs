use rspdl::ast::TypeReferenceAst;
use rspdl::declarations::{
    parse_action_header, parse_data_model_header, parse_enum_header, parse_enum_value,
    parse_event_header, parse_field_item, parse_module_header, parse_role_header, NamedHeader,
    ShapeMismatch,
};
use rspdl::ast::{FieldAst, NamedIdAst};
use rspdl::blocks::{parse_enum, parse_model, parse_module};
use rspdl::declarations::FieldItem;
use rspdl::outline::logical_lines;
use rspdl::parser::{parse_action, parse_natural_header, parse_role};
use rspdl::scanner::{scan, Token, TokenKind};

type NamedParser = fn(&[Token]) -> Result<NamedHeader, ShapeMismatch>;

fn tokens(source: &str) -> Vec<Token> {
    let scanned = scan(source);
    assert!(
        scanned.diagnostics.is_empty(),
        "{source}: {:?}",
        scanned.diagnostics
    );
    scanned
        .tokens
        .into_iter()
        .filter(|token| {
            !matches!(
                token.kind,
                TokenKind::Newline | TokenKind::Indent | TokenKind::Dedent
            )
        })
        .collect()
}

#[test]
fn generated_declarations_reject_oracle_invalid_shapes() {
    let cases: &[(&str, NamedParser)] = &[
        ("@모듈 비용 승인(expense).", parse_module_header),
        ("비용 상태(status)는 다음 값 중 하나다", parse_enum_header),
        (
            "비용 신청(request) 다음 필드들로 구성되어 있다.",
            parse_data_model_header,
        ),
        (
            "회계 관리자(accounting_manager)는 역할이다",
            parse_role_header,
        ),
        ("변경(change)은 행동이다 뒤에.", parse_action_header),
        ("접수됨(received)은 사건이다 뒤에.", parse_event_header),
        ("@역할 관리자(manager)", parse_module_header),
    ];
    for (source, reader) in cases {
        assert!(reader(&tokens(source)).is_err(), "{source}");
    }
    for source in [
        "상태(): 필수 문자열",
        "상태(status) 필수 문자열",
        "상태(status): 필수 문자열.",
    ] {
        assert!(parse_field_item(&tokens(source)).is_err(), "{source}");
    }
}

#[test]
fn quoted_names_and_annotation_false_positives_remain_bounded() {
    assert!(parse_module_header(&tokens("@모듈 `비용: 승인`(expense)")).is_ok());
    assert!(parse_role_header(&tokens("역할이다 관리자(manager)는 역할이다.")).is_ok());
    assert!(parse_enum_value(&tokens("상태(status):")).is_err());
    assert!(parse_field_item(&tokens("`상태: 이름`(status): 필수 문자열.")).is_err());
}

#[test]
fn line_rules_accept_block_and_header_lines() {
    assert!(parse_enum_header(&tokens("상태(state)는 다음 값 중 하나다.")).is_ok());
    assert!(parse_enum_value(&tokens("시작(start)")).is_ok());
    assert!(parse_role_header(&tokens("관리자(manager)는 역할이다.")).is_ok());
    assert!(parse_event_header(&tokens("접수됨(received)은 사건이다.")).is_ok());
    assert!(parse_action_header(&tokens("상태 변경(change_state)은 행동이다.")).is_ok());
    assert!(parse_data_model_header(&tokens("비용 신청(request)은 다음 필드들로 구성되어 있다.")).is_ok());
}

#[test]
fn module_header_captures_name_id_and_spans() {
    let header = parse_module_header(&tokens("@모듈 비용 승인(expense)")).unwrap();
    assert_eq!(header.name.value, "비용 승인");
    assert_eq!(header.id.value, "expense");
    let start = "@모듈 ".len();
    assert_eq!(header.name.start, start);
    assert_eq!(header.name.end, start + "비용 승인".len());
    assert_eq!(header.id.start, start + "비용 승인".len());
    assert_eq!(header.id.end, "@모듈 비용 승인(expense)".len());
    assert_eq!(header.span().start, start);
    assert_eq!(header.span().end, header.id.end);
}

#[test]
fn field_items_read_requiredness_and_type() {
    let field = parse_field_item(&tokens("식별자(id): 필수 문자열")).unwrap();
    assert_eq!(field.declaration.name.value, "식별자");
    assert_eq!(field.declaration.id.value, "id");
    assert!(field.required);
    assert_eq!(field.value_type, TypeReferenceAst::String);
    assert_eq!(field.span.start, 0);
    assert_eq!(field.span.end, "식별자(id): 필수 문자열".len());

    let field = parse_field_item(&tokens("승인 상태(status): 선택 비용 상태")).unwrap();
    assert_eq!(field.declaration.name.value, "승인 상태");
    assert!(!field.required);
    assert_eq!(field.value_type, TypeReferenceAst::Named("비용 상태".to_owned()));

    let field = parse_field_item(&tokens("수량(quantity): 필수 정수")).unwrap();
    assert_eq!(field.value_type, TypeReferenceAst::Integer);
    let field = parse_field_item(&tokens("완료(done): 선택 불리언")).unwrap();
    assert_eq!(field.value_type, TypeReferenceAst::Boolean);
    assert!(parse_field_item(&tokens("수량(quantity): 아마 정수")).is_err());
    assert!(parse_field_item(&tokens("수량(quantity): 필수")).is_err());
}

#[test]
fn topic_marker_must_be_eun_or_neun() {
    assert!(parse_role_header(&tokens("관리자(manager)가 역할이다.")).is_err());
    assert!(parse_role_header(&tokens("관리자(manager)은 역할이다.")).is_ok());
    assert!(parse_role_header(&tokens("(manager)는 역할이다.")).is_err());
}

/// The tokens of the whole source that lie on `line`, with their spans in the source.
fn tokens_at(source: &str, line: &str) -> Vec<Token> {
    let start = source.find(line).expect("line is in the source");
    let end = start + line.len();
    tokens(source)
        .into_iter()
        .filter(|token| token.span.start >= start && token.span.end <= end)
        .collect()
}

fn named(header: NamedHeader) -> NamedIdAst {
    let span = header.span();
    NamedIdAst { name: header.name.value, id: header.id.value, span }
}

fn field_ast(field: FieldItem) -> FieldAst {
    FieldAst {
        span: field.span,
        required: field.required,
        value_type: field.value_type,
        declaration: named(field.declaration),
    }
}

#[test]
fn generated_declarations_match_handwritten_ast_shapes_and_spans() {
    let source = "@모듈 비용 승인(expense)\n비용 상태(status)는 다음 값 중 하나다.\n    작성 중(draft)\n    `승인 완료`(approved)\n비용 신청(request)은 다음 필드들로 구성되어 있다.\n    식별자(id): 필수 문자열\n    승인 상태(status): 선택 비용 상태\n회계 관리자(accounting_manager)는 역할이다.\n상태 변경(change_state)은 행동이다.\n승인 요청 접수됨(request_received)은 사건이다.\n";
    let scanned = scan(source);
    assert!(scanned.diagnostics.is_empty());
    let lines = logical_lines(&scanned.tokens);
    assert_eq!(lines.len(), 10);
    let mut diagnostics = Vec::new();

    let module = parse_module(&lines[0], &mut diagnostics).unwrap();
    assert_eq!(
        named(parse_module_header(&tokens_at(source, "@모듈 비용 승인(expense)")).unwrap()),
        module.declaration
    );

    let enumeration = parse_enum(&lines[1], &lines[2..4], &mut diagnostics).unwrap();
    assert_eq!(
        named(parse_enum_header(&tokens_at(source, "비용 상태(status)는 다음 값 중 하나다.")).unwrap()),
        enumeration.declaration
    );
    assert_eq!(
        named(parse_enum_value(&tokens_at(source, "작성 중(draft)")).unwrap()),
        enumeration.values[0].declaration
    );
    assert_eq!(
        named(parse_enum_value(&tokens_at(source, "`승인 완료`(approved)")).unwrap()),
        enumeration.values[1].declaration
    );

    let model = parse_model(&lines[4], &lines[5..7], &mut diagnostics).unwrap();
    assert_eq!(
        named(
            parse_data_model_header(&tokens_at(source, "비용 신청(request)은 다음 필드들로 구성되어 있다."))
                .unwrap()
        ),
        model.declaration
    );
    assert_eq!(
        field_ast(parse_field_item(&tokens_at(source, "식별자(id): 필수 문자열")).unwrap()),
        model.fields[0]
    );
    assert_eq!(
        field_ast(parse_field_item(&tokens_at(source, "승인 상태(status): 선택 비용 상태")).unwrap()),
        model.fields[1]
    );

    let role = parse_role(&lines[7], &[], &mut diagnostics).unwrap();
    assert_eq!(
        named(parse_role_header(&tokens_at(source, "회계 관리자(accounting_manager)는 역할이다.")).unwrap()),
        role
    );
    let action = parse_action(&lines[8], &[], &mut diagnostics).unwrap();
    assert_eq!(
        named(parse_action_header(&tokens_at(source, "상태 변경(change_state)은 행동이다.")).unwrap()),
        action
    );
    let event = parse_natural_header(&lines[9], &["사건이다"], &mut diagnostics).unwrap();
    assert_eq!(
        named(
            parse_event_header(&tokens_at(source, "승인 요청 접수됨(request_received)은 사건이다."))
                .unwrap()
        ),
        event
    );
    assert!(diagnostics.is_empty(), "{diagnostics:?}");
}

#[test]
fn generated_line_rules_do_not_consume_neighboring_block_or_top_level_lines() {
    let source = "@모듈 테스트(test)\n상태(state)는 다음 값 중 하나다.\n  시작(start)\n관리자(manager)는 역할이다.\n";
    let scanned = scan(source);
    assert!(scanned.diagnostics.is_empty());
    let lines = logical_lines(&scanned.tokens);
    let mut diagnostics = Vec::new();
    parse_module(&lines[0], &mut diagnostics).unwrap();
    parse_enum(&lines[1], &lines[2..3], &mut diagnostics).unwrap();
    parse_role(&lines[3], &[], &mut diagnostics).unwrap();
    assert!(!diagnostics.iter().any(|d| d.severity == rspdl::diagnostic::Severity::Error), "{diagnostics:?}");
    assert!(parse_enum_header(&tokens("상태(state)는 다음 값 중 하나다.")).is_ok());
    assert!(parse_enum_value(&tokens("시작(start)")).is_ok());
    assert!(parse_role_header(&tokens("관리자(manager)는 역할이다.")).is_ok());
    assert!(parse_event_header(&tokens("접수됨(received)은 사건이다.")).is_ok());
}
