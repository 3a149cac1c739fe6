use rspdl::ast::TypeReferenceAst;
use rspdl::blocks::{parse_enum, parse_model, parse_module};
use rspdl::diagnostic::{Severity, Span};
use rspdl::outline::{
    declaration_kind, logical_lines, sentence_words_end_with, DeclarationKind,
    RelationalConstraintDeclarationKind,
};
use rspdl::parser::{parse_annotated_name, parse_type_reference, Line};
use rspdl::relation::parse_relation;
use rspdl::scanner::{scan, TokenKind};

fn lines(source: &str) -> Vec<Line> {
    let scanned = scan(source);
    assert!(scanned.diagnostics.is_empty(), "{source}: {:?}", scanned.diagnostics);
    logical_lines(&scanned.tokens)
}

fn single(source: &str) -> Line {
    let mut all = lines(source);
    assert_eq!(all.len(), 1, "{source}");
    all.remove(0)
}

fn span_of(source: &str, text: &str) -> Span {
    let start = source.find(text).expect("text is in the source");
    Span { start, end: start + text.len() }
}

#[test]
fn logical_lines_follow_indentation_and_drop_blank_lines() {
    let source = "@모듈 비용 승인(expense)\n\n비용 상태(status)는 다음 값 중 하나다.\n    작성 중(draft)\n    `승인 완료`(approved)\n회계 관리자(manager)는 역할이다.\n";
    let all = lines(source);
    assert_eq!(all.len(), 5);
    let indents: Vec<usize> = all.iter().map(|line| line.indent).collect();
    assert_eq!(indents, vec![0, 0, 1, 1, 0]);
    assert_eq!(all[0].span, span_of(source, "@모듈 비용 승인(expense)"));
    assert_eq!(all[2].span, span_of(source, "작성 중(draft)"));
    assert_eq!(all[4].span, span_of(source, "회계 관리자(manager)는 역할이다."));
    assert_eq!(all[2].tokens.len(), 3);
}

#[test]
fn sentence_words_are_compared_from_the_end() {
    let line = single("비용 신청(request)은 다음 필드들로 구성되어 있다.");
    assert!(sentence_words_end_with(&line, &["구성되어", "있다"]));
    assert!(sentence_words_end_with(&line, &[]));
    assert!(!sentence_words_end_with(&line, &["구성되어"]));
    assert!(!sentence_words_end_with(&line, &["더", "많은", "단어가", "있는", "문장의", "끝", "비용", "신청", "구성되어", "있다"]));
}

#[test]
fn declaration_kinds_follow_the_sentence_shape() {
    let relational = DeclarationKind::RelationalConstraint;
    let cases = [
        ("비용 상태(status)는 다음 값 중 하나다.", Some(DeclarationKind::Enum)),
        ("비용 신청(request)은 다음 필드들로 구성되어 있다.", Some(DeclarationKind::DataModel)),
        ("@데이터 비용 신청(request)은 다음 필드들로 구성되어 있다.", Some(DeclarationKind::Constraint)),
        ("회계 관리자(accounting_manager)는 역할이다.", Some(DeclarationKind::Role)),
        ("변경(change)은 행동이다.", Some(DeclarationKind::Action)),
        ("프로젝트는 사용자를 소유자(owner)로 가질 수 있다.", Some(DeclarationKind::Relation)),
        ("사용자는 내부(internal)에 해당할 수 있다.", Some(DeclarationKind::Relation)),
        ("프로젝트는 하나 이상 존재해야 한다.", Some(relational(RelationalConstraintDeclarationKind::NonEmpty))),
        ("모든 프로젝트는 소유자를 하나 이상 가져야 한다.", Some(relational(RelationalConstraintDeclarationKind::Required))),
        ("각 프로젝트는 소유자를 최대 하나만 가질 수 있다.", Some(relational(RelationalConstraintDeclarationKind::Unique))),
        ("내부 외부 중 둘 이상은 동시에 성립할 수 없다.", Some(relational(RelationalConstraintDeclarationKind::Exclusive))),
        ("내부 외부 중 하나 이상은 항상 성립해야 한다.", Some(relational(RelationalConstraintDeclarationKind::Exhaustive))),
        ("소유자 소유자 후보는 동시에 성립할 수 있다.", Some(relational(RelationalConstraintDeclarationKind::Coexistent))),
        ("장바구니 작성 화면(create_cart)에서는 장바구니를 생성할 수 있다.", Some(DeclarationKind::Screen)),
        ("장바구니의 결제 예정 금액은 장바구니 항목의 금액의 합계로 계산한다.", Some(DeclarationKind::SumDerivation)),
        ("장바구니 항목의 금액이 바뀔 때 장바구니의 결제 예정 금액을 다시 계산한다.", Some(DeclarationKind::Recalculation)),
        ("비용 신청의 메모는 내부 관리에만 사용한다.", Some(DeclarationKind::FieldIntent)),
        ("비용 신청의 메모는 사용자 화면에서 조회하지 않는다.", Some(DeclarationKind::FieldIntent)),
        ("비용 신청의 금액은 0보다 커야 한다.", Some(DeclarationKind::Constraint)),
        ("회계 관리자는 비용 신청의 상태를 변경할 수 있다.", Some(DeclarationKind::Policy)),
        ("회계 관리자는 비용 신청의 상태를 변경할 수 없다.", Some(DeclarationKind::Policy)),
        ("비용 신청을 검토해야 한다", Some(DeclarationKind::Constraint)),
        ("비용 신청을 검토했다.", None),
    ];
    for (sentence, expected) in cases {
        assert_eq!(declaration_kind(&single(sentence)), expected, "{sentence}");
    }
}

#[test]
fn module_headers_are_annotated_top_level_lines() {
    let source = "@모듈 비용 승인(expense)";
    let module = parse_module(&single(source), &mut Vec::new()).unwrap();
    assert_eq!(module.declaration.name, "비용 승인");
    assert_eq!(module.declaration.id, "expense");
    assert_eq!(module.declaration.span, span_of(source, "비용 승인(expense)"));
    assert_eq!(module.span, span_of(source, source));

    let wrong = parse_annotated_name(&single("@역할 관리자(manager)"), "@모듈").unwrap_err();
    assert_eq!(wrong.rule_id, "RSPDL-KO-SYN-004");
    assert_eq!(wrong.message_key, "ko.syntax.annotated_declaration_required");
    assert_eq!(wrong.arguments.len(), 2);

    let punctuated = parse_annotated_name(&single("@모듈 비용 승인(expense)."), "@모듈").unwrap_err();
    assert_eq!(punctuated.message_key, "ko.syntax.declaration_punctuation_forbidden");

    let mut nested = single(source);
    nested.indent = 1;
    let error = parse_module(&nested, &mut Vec::new()).unwrap_err();
    assert_eq!(error.rule_id, "RSPDL-KO-SYN-001");
    assert_eq!(error.message_key, "ko.syntax.module_header_required");
}

#[test]
fn enumerations_read_one_value_per_item_line() {
    let source = "비용 상태(status)는 다음 값 중 하나다.\n    작성 중(draft)\n    `승인 완료`(approved)\n";
    let all = lines(source);
    let mut diagnostics = Vec::new();
    let parsed = parse_enum(&all[0], &all[1..], &mut diagnostics).unwrap();
    assert!(diagnostics.is_empty());
    assert_eq!(parsed.declaration.name, "비용 상태");
    assert_eq!(parsed.declaration.id, "status");
    assert_eq!(parsed.values.len(), 2);
    assert_eq!(parsed.values[0].declaration.name, "작성 중");
    assert_eq!(parsed.values[0].declaration.id, "draft");
    assert_eq!(parsed.values[0].span, span_of(source, "작성 중(draft)"));
    assert_eq!(parsed.values[1].declaration.name, "승인 완료");
    assert_eq!(parsed.values[1].declaration.id, "approved");

    let empty = parse_enum(&all[0], &[], &mut Vec::new()).unwrap_err();
    assert_eq!(empty.rule_id, "RSPDL-KO-SYN-008");

    let dotted = lines("상태(status)는 다음 값 중 하나다.\n    작성 중(draft).\n");
    let error = parse_enum(&dotted[0], &dotted[1..], &mut Vec::new()).unwrap_err();
    assert_eq!(error.rule_id, "RSPDL-KO-SYN-012");
    assert_eq!(error.message_key, "ko.syntax.item_period_forbidden");
}

#[test]
fn data_models_read_requiredness_and_types() {
    let source = "비용 신청(request)은 다음 필드들로 구성되어 있다.\n    식별자(id): 필수 문자열\n    금액(amount): 선택 정수\n    승인됨(approved): 필수 불리언\n    상태(status): 필수 비용 상태\n";
    let all = lines(source);
    let mut diagnostics = Vec::new();
    let model = parse_model(&all[0], &all[1..], &mut diagnostics).unwrap();
    assert!(diagnostics.is_empty());
    assert_eq!(model.declaration.id, "request");
    assert_eq!(model.fields.len(), 4);
    assert_eq!(model.fields[0].declaration.name, "식별자");
    assert!(model.fields[0].required);
    assert_eq!(model.fields[0].value_type, TypeReferenceAst::String);
    assert!(!model.fields[1].required);
    assert_eq!(model.fields[1].value_type, TypeReferenceAst::Integer);
    assert_eq!(model.fields[2].value_type, TypeReferenceAst::Boolean);
    assert_eq!(model.fields[3].value_type, TypeReferenceAst::Named("비용 상태".to_owned()));
    assert_eq!(model.fields[3].span, span_of(source, "상태(status): 필수 비용 상태"));

    for (item, key) in [
        ("    상태(status) 필수 문자열", "ko.syntax.field_colon_required"),
        ("    상태(status): 어쩌면 문자열", "ko.syntax.field_requiredness_required"),
        ("    상태(status): 필수", "ko.syntax.field_type_required"),
        ("    상태(status): 필수 문자열.", "ko.syntax.item_period_forbidden"),
    ] {
        let all = lines(&format!("모델(model)은 다음 필드들로 구성되어 있다.\n{item}\n"));
        let error = parse_model(&all[0], &all[1..], &mut Vec::new()).unwrap_err();
        assert_eq!(error.message_key, key, "{item}");
    }
}

#[test]
fn type_references_name_builtin_or_declared_types() {
    let line = single("식별자(id): 필수 문자열");
    assert_eq!(parse_type_reference(&line, 4).unwrap(), TypeReferenceAst::String);
    let error = parse_type_reference(&line, 5).unwrap_err();
    assert_eq!(error.message_key, "ko.syntax.field_type_required");
    let error = parse_type_reference(&line, 1).unwrap_err();
    assert_eq!(error.message_key, "ko.syntax.field_type_invalid");
}

#[test]
fn relations_read_their_models_in_order() {
    let source = "프로젝트는 사용자를 소유자(owner)로 가질 수 있다.";
    let mut diagnostics = Vec::new();
    let relation = parse_relation(&single(source), &[], &mut diagnostics).unwrap();
    assert!(diagnostics.is_empty());
    assert_eq!(relation.declaration.name, "소유자");
    assert_eq!(relation.declaration.id, "owner");
    assert_eq!(relation.parameter_models, vec!["프로젝트".to_owned(), "사용자".to_owned()]);
    assert_eq!(relation.span, span_of(source, source));

    let unary = parse_relation(&single("사용자는 내부(internal)에 해당할 수 있다."), &[], &mut diagnostics).unwrap();
    assert_eq!(unary.declaration.id, "internal");
    assert_eq!(unary.parameter_models, vec!["사용자".to_owned()]);
    assert!(diagnostics.is_empty());
}

#[test]
fn relation_particles_that_do_not_fit_are_linted() {
    let mut diagnostics = Vec::new();
    parse_relation(&single("프로젝트은 사용자을 소유자(owner)로 가질 수 있다."), &[], &mut diagnostics).unwrap();
    assert_eq!(diagnostics.len(), 2);
    assert!(diagnostics.iter().all(|d| d.rule_id == "RSPDL-KO-W001" && d.severity == Severity::Warning));
}

#[test]
fn relations_refuse_other_shapes() {
    for (sentence, key) in [
        ("프로젝트는 사용자를 소유자로 가질 수 있다.", "ko.syntax.relation_stable_id_required"),
        ("프로젝트는 사용자를 소유자(owner)에게 가질 수 있다.", "ko.syntax.relation_direction_marker_required"),
        ("프로젝트는 사용자를 소유자(owner)로 가질 수 있다", "ko.syntax.period_required"),
        ("프로젝트는 사용자를 소유자(owner)로 가질 수 있다 항상.", "ko.syntax.trailing_expression"),
    ] {
        let error = parse_relation(&single(sentence), &[], &mut Vec::new()).unwrap_err();
        assert_eq!(error.message_key, key, "{sentence}");
    }
    let all = lines("프로젝트는 사용자를 소유자(owner)로 가질 수 있다.\n    블록\n");
    let error = parse_relation(&all[0], &all[1..], &mut Vec::new()).unwrap_err();
    assert_eq!(error.rule_id, "RSPDL-KO-SYN-063");
}

#[test]
fn logical_lines_hold_tokens_and_no_layout() {
    let source = "@모듈 재고(inventory)\n\n재고 항목(item)은 다음 필드들로 구성되어 있다.\n    이름(name): 필수 문자열\n\n        수량(quantity): 필수 정수\n재고 항목의 수량은 0 이상이어야 한다.\n";
    let all = lines(source);
    assert_eq!(all.len(), 5);
    for line in &all {
        assert!(!line.tokens.is_empty());
        assert!(line.tokens.iter().all(|token| !matches!(
            token.kind,
            TokenKind::Indent | TokenKind::Dedent | TokenKind::Newline
        )));
        assert_eq!(line.span.start, line.tokens[0].span.start);
        assert_eq!(line.span.end, line.tokens[line.tokens.len() - 1].span.end);
    }
    let indents: Vec<usize> = all.iter().map(|line| line.indent).collect();
    assert_eq!(indents, vec![0, 0, 1, 2, 0]);
}
