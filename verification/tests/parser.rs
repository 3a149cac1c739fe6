use rspdl::ast::{LiteralAst, OperandAst, PolicyEffectAst, RelationOperatorAst};
use rspdl::cursor::{is_integer, parse_word_literal};
use rspdl::diagnostic::{Diagnostic, Severity, Span};
use rspdl::parser::{parse_constraint, parse_constraint_sentence, parse_policy, Line};
use rspdl::scanner::{scan, TokenKind};

fn line(sentence: &str) -> Line {
    let scanned = scan(sentence);
    assert!(scanned.diagnostics.is_empty(), "{sentence}: {:?}", scanned.diagnostics);
    let tokens: Vec<_> = scanned
        .tokens
        .into_iter()
        .filter(|token| {
            !matches!(
                token.kind,
                TokenKind::Newline | TokenKind::Indent | TokenKind::Dedent
            )
        })
        .collect();
    let span = Span {
        start: tokens.first().unwrap().span.start,
        end: tokens.last().unwrap().span.end,
    };
    Line {
        indent: 0,
        tokens,
        span,
    }
}

fn field(name: &str) -> OperandAst {
    OperandAst::Field(name.to_owned())
}

fn literal(value: LiteralAst) -> OperandAst {
    OperandAst::Literal(value)
}

#[test]
fn constraint_sentences_read_every_supported_comparison() {
    let integer = |v: &str| literal(LiteralAst::Integer(v.to_owned()));
    let named = |v: &str| literal(LiteralAst::Named(v.to_owned()));
    let string = |v: &str| literal(LiteralAst::String(v.to_owned()));
    let cases = [
        ("항목의 값은 0보다 커야 한다.", RelationOperatorAst::GreaterThan, integer("0")),
        ("항목의 값은 -1 보다 커야 한다.", RelationOperatorAst::GreaterThan, integer("-1")),
        ("항목의 값은 0 이상이어야 한다.", RelationOperatorAst::GreaterThanOrEqual, integer("0")),
        ("항목의 값은 100보다 작아야 한다.", RelationOperatorAst::LessThan, integer("100")),
        ("항목의 값은 100 이하여야 한다.", RelationOperatorAst::LessThanOrEqual, integer("100")),
        ("항목의 값은 참이어야 한다.", RelationOperatorAst::Equal, literal(LiteralAst::Boolean(true))),
        ("항목의 값은 거짓이어야 한다.", RelationOperatorAst::Equal, literal(LiteralAst::Boolean(false))),
        ("항목의 값은 승인 완료이어야 한다.", RelationOperatorAst::Equal, named("승인 완료")),
        ("항목의 값은 \"취소됨\"이어야 한다.", RelationOperatorAst::Equal, string("취소됨")),
        ("항목의 값은 `승인 완료` 이어야 한다.", RelationOperatorAst::Equal, named("승인 완료")),
        ("항목의 값은 0과 달라야 한다.", RelationOperatorAst::NotEqual, integer("0")),
        ("항목의 값은 \"취소됨\"와 달라야 한다.", RelationOperatorAst::NotEqual, string("취소됨")),
        ("항목의 값은 `승인 완료` 와 달라야 한다.", RelationOperatorAst::NotEqual, named("승인 완료")),
        ("항목의 값과 다른 값은 같아야 한다.", RelationOperatorAst::Equal, field("다른 값")),
        ("항목의 값과 다른 값은 달라야 한다.", RelationOperatorAst::NotEqual, field("다른 값")),
        ("`항목` 의 `값` 과 `다른 값` 은 같아야 한다.", RelationOperatorAst::Equal, field("다른 값")),
    ];
    for (sentence, operator, right) in cases {
        let mut diagnostics = Vec::new();
        let line = line(sentence);
        let expression = parse_constraint_sentence(&line, &mut diagnostics)
            .unwrap_or_else(|error| panic!("{sentence}: {error:?}"));
        assert_eq!(expression.model, "항목", "{sentence}");
        assert_eq!(expression.left, field("값"), "{sentence}");
        assert_eq!(expression.operator, operator, "{sentence}");
        assert_eq!(expression.right, right, "{sentence}");
        assert_eq!(expression.span, line.span, "{sentence}");
    }
}

#[test]
fn constraint_sentences_refuse_shapes_outside_the_grammar() {
    for sentence in [
        "항목 값은 0보다 커야 한다.",
        "항목의 값이 0보다 커야 한다.",
        "항목의 값은 0보다 한다.",
        "항목의 값은 0보다 커야 한다",
        "항목의 값은 0보다 커야 한다 뒤에.",
        "항목의 값은 01보다 커야 한다.",
        "항목의 값은 -0보다 커야 한다.",
        "항목의 값은 0과 같아야 한다.",
        "항목의 값은 승인 완료와 달라야 한다.",
        "항목의 값과 다른 값이 같아야 한다.",
        "항목의 값과 다른 값은 같다 한다.",
        "관리자는 항목의 값을 변경할 수 있다.",
        "항목은 하나 이상 존재해야 한다.",
    ] {
        let mut diagnostics = Vec::new();
        assert!(
            parse_constraint_sentence(&line(sentence), &mut diagnostics).is_err(),
            "{sentence}"
        );
        assert!(diagnostics.is_empty(), "{sentence}");
    }
}

#[test]
fn reading_stops_with_a_diagnostic_where_the_sentence_goes_wrong() {
    let mut diagnostics = Vec::new();
    let sentence = line("항목의 값은 0보다 한다.");
    let error = parse_constraint_sentence(&sentence, &mut diagnostics).unwrap_err();
    assert_eq!(error.rule_id, "RSPDL-KO-SYN-041");
    assert_eq!(error.message_key, "ko.syntax.integer_order_shape_required");
    assert_eq!(error.span, sentence.span);
    let source = "항목의 값은 0보다 작게 한다.";
    let stopped = parse_constraint_sentence(&line(source), &mut diagnostics).unwrap_err();
    assert_eq!(stopped.message_key, "ko.syntax.integer_order_shape_required");
    assert_eq!(&source[stopped.span.start..stopped.span.end], "한다");

    let missing_period = parse_constraint_sentence(&line("항목의 값은 0보다 커야 한다"), &mut diagnostics)
        .unwrap_err();
    assert_eq!(missing_period.rule_id, "RSPDL-KO-SYN-040");
    assert_eq!(missing_period.message_key, "ko.syntax.period_required");

    let unmarked = parse_constraint_sentence(&line("항목 값은 0보다 커야 한다."), &mut diagnostics)
        .unwrap_err();
    assert_eq!(unmarked.message_key, "ko.syntax.reference_marker_missing");
    assert_eq!(unmarked.argument("expected"), Some("의"));
    assert_eq!(unmarked.argument("reference"), Some("항목 값은 0보다 커야 한다"));
}

#[test]
fn a_constraint_takes_no_block() {
    let mut diagnostics = Vec::new();
    let sentence = line("항목의 값은 0보다 커야 한다.");
    let body = vec![line("항목의 값은 1보다 커야 한다.")];
    let error = parse_constraint(&sentence, &body, &mut diagnostics).unwrap_err();
    assert_eq!(error.rule_id, "RSPDL-KO-SYN-020");
    assert_eq!(error.message_key, "ko.syntax.constraint_block_forbidden");
    let constraint = parse_constraint(&sentence, &[], &mut diagnostics).unwrap();
    assert_eq!(constraint.declaration.name, "");
    assert_eq!(constraint.declaration.id, "");
    assert_eq!(constraint.declaration.span, sentence.span);
}

#[test]
fn policies_read_role_model_field_action_and_effect() {
    for (sentence, expected, effect) in [
        ("회계 관리자는 신청의 상태를 변경할 수 있다.", ["회계 관리자", "신청", "상태", "변경"], PolicyEffectAst::Allow),
        ("사용자은 신청의 상태를 변경할 수 없다.", ["사용자", "신청", "상태", "변경"], PolicyEffectAst::Deny),
        (
            "`회계 관리자` 는 `비용 신청` 의 `승인 상태` 를 `상태 변경` 할 수 있다.",
            ["회계 관리자", "비용 신청", "승인 상태", "상태 변경"],
            PolicyEffectAst::Allow,
        ),
        ("아이는 신청의 분류를 조회할 수 있다.", ["아이", "신청", "분류", "조회"], PolicyEffectAst::Allow),
    ] {
        let mut diagnostics = Vec::new();
        let policy = parse_policy(&line(sentence), &[], &mut diagnostics)
            .unwrap_or_else(|error| panic!("{sentence}: {error:?}"));
        assert_eq!(
            [
                policy.role.as_str(),
                policy.model.as_str(),
                policy.field.as_str(),
                policy.action.as_str(),
            ],
            expected,
            "{sentence}"
        );
        assert_eq!(policy.effect, effect, "{sentence}");
    }
}

#[test]
fn policies_refuse_other_shapes() {
    for sentence in [
        "회계 관리자가 신청의 상태를 변경할 수 있다.",
        "회계 관리자는 신청의 상태를 변경할 있다.",
        "회계 관리자는 신청의 상태를 변경할 수 모른다.",
        "회계 관리자는 신청의 상태를 변경할 수 있다 뒤에.",
        "회계 관리자는 신청의 상태를 변경할 수 있다",
    ] {
        let mut diagnostics = Vec::new();
        assert!(
            parse_policy(&line(sentence), &[], &mut diagnostics).is_err(),
            "{sentence}"
        );
    }
    let mut diagnostics = Vec::new();
    let error = parse_policy(
        &line("회계 관리자는 신청의 상태를 변경할 수 모른다."),
        &[],
        &mut diagnostics,
    )
    .unwrap_err();
    assert_eq!(error.message_key, "ko.syntax.policy_effect_invalid");
}

#[test]
fn particles_that_do_not_fit_the_name_are_linted() {
    let mut diagnostics: Vec<Diagnostic> = Vec::new();
    parse_policy(&line("사용자은 신청의 상태를 변경할 수 없다."), &[], &mut diagnostics).unwrap();
    assert_eq!(diagnostics.len(), 1);
    let warning = &diagnostics[0];
    assert_eq!(warning.rule_id, "RSPDL-KO-W001");
    assert_eq!(warning.message_key, "ko.lint.marker_preference");
    assert_eq!(warning.severity, Severity::Warning);
    assert_eq!(warning.argument("name"), Some("사용자"));
    assert_eq!(warning.argument("actual"), Some("은"));
    assert_eq!(warning.argument("expected"), Some("는"));

    let mut clean: Vec<Diagnostic> = Vec::new();
    parse_policy(&line("회계 관리자는 신청의 상태를 변경할 수 있다."), &[], &mut clean).unwrap();
    assert!(clean.is_empty());
}

#[test]
fn integers_and_word_literals_are_told_apart() {
    for value in ["0", "-1", "100", "42"] {
        assert!(is_integer(value), "{value}");
    }
    for value in ["", "-", "01", "-0", "1a", "--1", "일"] {
        assert!(!is_integer(value), "{value}");
    }
    assert_eq!(parse_word_literal("참"), LiteralAst::Boolean(true));
    assert_eq!(parse_word_literal("거짓"), LiteralAst::Boolean(false));
    assert_eq!(parse_word_literal("-7"), LiteralAst::Integer("-7".to_owned()));
    assert_eq!(parse_word_literal("승인"), LiteralAst::Named("승인".to_owned()));
}
