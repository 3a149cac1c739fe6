use rspdl::policy::parse_policy;
use rspdl::producer::parse_relation_producer;
use rspdl::ast::ProducerTriggerKindAst;
use rspdl::scanner::{scan, Token, TokenKind};

fn policy_tokens(sentence: &str) -> Vec<Token> {
    let scanned = scan(sentence);
    assert!(scanned.diagnostics.is_empty(), "{:?}", scanned.diagnostics);
    scanned
        .tokens
        .into_iter()
        .filter(|token| {
            !matches!(
                token.kind,
                TokenKind::Newline | TokenKind::Indent | TokenKind::Dedent
            )
        })
        .collect()
}

#[test]
fn generated_policy_matches_handwritten_ast_captures() {
    let cases = [
        ("회계 관리자는 신청의 상태를 변경할 수 있다.", ["회계 관리자", "신청", "상태", "변경", "있다"]),
        ("사용자은 신청의 상태를 변경할 수 없다.", ["사용자", "신청", "상태", "변경", "없다"]),
        (
            "`회계 관리자` 는 `비용 신청` 의 `승인 상태` 를 `상태 변경` 할 수 있다.",
            ["회계 관리자", "비용 신청", "승인 상태", "상태 변경", "있다"],
        ),
        ("아이는 신청의 분류를 조회할 수 있다.", ["아이", "신청", "분류", "조회", "있다"]),
    ];
    for (sentence, expected) in cases {
        let generated = parse_policy(&policy_tokens(sentence))
            .unwrap_or_else(|error| panic!("{sentence}: {error:?}"));
        assert_eq!(
            [
                generated.role.value.as_str(),
                generated.model.value.as_str(),
                generated.field.value.as_str(),
                generated.action.value.as_str(),
                generated.effect.value.as_str(),
            ],
            expected,
            "{sentence}"
        );
    }
}

#[test]
fn generated_policy_rejects_every_shape_rejected_by_the_oracle() {
    let cases = [
        "회계 관리자가 신청의 상태를 변경할 수 있다.",
        "회계 관리자는 신청의 상태를 변경할 있다.",
        "회계 관리자는 신청의 상태를 변경할 수 모른다.",
        "회계 관리자는 신청의 상태를 변경할 수 있다 뒤에.",
        "회계 관리자는 신청의 상태를 변경할 수 있다",
    ];
    for sentence in cases {
        assert!(
            parse_policy(&policy_tokens(sentence)).is_err(),
            "{sentence}"
        );
    }
}

#[test]
fn generated_capture_spans_exclude_attached_markers() {
    let sentence = "회계 관리자는 신청의 상태를 변경할 수 있다.";
    let generated = parse_policy(&policy_tokens(sentence)).unwrap();
    assert_eq!(
        &sentence[generated.role.start..generated.role.end],
        "회계 관리자"
    );
    assert_eq!(
        &sentence[generated.action.start..generated.action.end],
        "변경"
    );
}

#[test]
fn generated_relation_producer_matches_action_and_event_handwritten_parser() {
    for (sentence, expected, kind) in [
        (
            "수신자 연결(recipient_binding)은 점검 요청 전달이 실행될 때 수신 기술자를 점검 전달 알림의 수신자로 연결한다.",
            ["recipient_binding", "점검 요청 전달", "수신 기술자", "점검 전달 알림", "수신자"],
            ProducerTriggerKindAst::Action,
        ),
        (
            "수신자 연결(event_recipient_binding)은 요청 접수됨이 발생할 때 수신 기술자를 알림의 수신자로 연결한다.",
            ["event_recipient_binding", "요청 접수됨", "수신 기술자", "알림", "수신자"],
            ProducerTriggerKindAst::Event,
        ),
    ] {
        let tokens = scan(sentence)
            .tokens
            .into_iter()
            .filter(|token| !matches!(token.kind, TokenKind::Newline))
            .collect::<Vec<_>>();
        let generated = parse_relation_producer(&tokens).unwrap();
        assert_eq!(
            [
                generated.producer_id.value.as_str(),
                generated.action.value.as_str(),
                generated.input.value.as_str(),
                generated.output_model.value.as_str(),
                generated.relation.value.as_str(),
            ],
            expected
        );
        assert_eq!(generated.trigger_kind, kind);
        assert_eq!(generated.producer_name.value, "수신자 연결");
    }
}

#[test]
fn relation_producers_end_with_their_verb() {
    let tokens = policy_tokens(
        "수신자 연결(recipient_binding)은 전달이 실행될 때 기술자를 알림의 수신자로 기록한다.",
    );
    assert!(parse_relation_producer(&tokens).is_err());
}
