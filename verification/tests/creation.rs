use rspdl::creation::parse_creation_branch;
use rspdl::scanner::{scan, Token, TokenKind};

fn sentence_tokens(sentence: &str) -> Vec<Token> {
    let scanned = scan(sentence);
    assert!(
        scanned.diagnostics.is_empty(),
        "{sentence}: {:?}",
        scanned.diagnostics
    );
    scanned
        .tokens
        .into_iter()
        .filter(|token| {
            !matches!(
                token.kind,
                TokenKind::Newline | TokenKind::Indent | TokenKind::Dedent
            )
        })
        .collect()
}

#[test]
fn generated_creation_branches_match_handwritten_create_and_skip_captures() {
    for (sentence, expected) in [
        (
            "접수 상태 알림 생성(received_notice_create)은 점검 요청 전달의 요청 상태가 접수됨이면 점검 요청 전달 알림을 하나 생성한다.",
            [
                "접수 상태 알림 생성",
                "received_notice_create",
                "점검 요청 전달",
                "요청 상태",
                "접수됨",
                "점검 요청 전달 알림",
                "하나 생성한다",
            ],
        ),
        (
            "보류 상태 알림 미생성(on_hold_notice_skip)은 점검 요청 전달의 요청 상태가 보류됨이면 점검 요청 전달 알림을 생성하지 않는다.",
            [
                "보류 상태 알림 미생성",
                "on_hold_notice_skip",
                "점검 요청 전달",
                "요청 상태",
                "보류됨",
                "점검 요청 전달 알림",
                "생성하지 않는다",
            ],
        ),
        (
            "예 알림 생성(yes_notice_create)은 전달의 선택이 예라면 알림을 하나 생성한다.",
            [
                "예 알림 생성",
                "yes_notice_create",
                "전달",
                "선택",
                "예",
                "알림",
                "하나 생성한다",
            ],
        ),
        (
            "형식 오류 알림 생성(bad-id)은 전달의 상태가 접수됨이면 알림을 하나 생성한다.",
            [
                "형식 오류 알림 생성",
                "bad-id",
                "전달",
                "상태",
                "접수됨",
                "알림",
                "하나 생성한다",
            ],
        ),
    ] {
        let branch = parse_creation_branch(&sentence_tokens(sentence)).unwrap();
        assert_eq!(
            [
                branch.branch_name.value.as_str(),
                branch.branch_id.value.as_str(),
                branch.action.value.as_str(),
                branch.input.value.as_str(),
                branch.variant.value.as_str(),
                branch.output_model.value.as_str(),
                branch.decision.value.as_str(),
            ],
            expected,
            "{sentence}"
        );
    }
}

#[test]
fn a_reference_span_ends_where_its_particle_begins() {
    let sentence = "예 알림 생성(yes_notice_create)은 전달의 선택이 예라면 알림을 하나 생성한다.";
    let branch = parse_creation_branch(&sentence_tokens(sentence)).unwrap();
    let action = &sentence[branch.action.start..branch.action.end];
    assert_eq!(action, "전달");
    let output = &sentence[branch.output_model.start..branch.output_model.end];
    assert_eq!(output, "알림");
    let name = &sentence[branch.branch_name.start..branch.branch_name.end];
    assert_eq!(name, "예 알림 생성");
}

#[test]
fn generated_creation_grammar_rejects_foreign_shapes() {
    for sentence in [
        "알림 생성(notice_create)은 전달의 상태가 접수됨이면 알림을 생성한다.",
        "알림 생성(notice_create)은 전달의 상태가 접수됨이면 알림을 두 개 생성한다.",
        "알림 생성은 전달의 상태가 접수됨이면 알림을 하나 생성한다.",
        "알림 생성(notice_create)은 전달의 상태가 접수됨이면 알림을 생성하지 않는다 뒤에.",
    ] {
        assert!(
            parse_creation_branch(&sentence_tokens(sentence)).is_err(),
            "{sentence}"
        );
    }
}
