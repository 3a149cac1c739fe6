use rspdl::scanner::{scan, TokenKind};

#[test]
fn emits_indent_and_dedent_while_ignoring_blank_comments() {
    let output = scan(
        "신청(request)은 다음 필드들로 구성되어 있다.\n  # comment\n  금액(amount): 필수 정수\n@역할 관리자(admin)\n",
    );
    assert!(output.diagnostics.is_empty());
    assert_eq!(
        output
            .tokens
            .iter()
            .filter(|token| matches!(token.kind, TokenKind::Indent))
            .count(),
        1
    );
    assert_eq!(
        output
            .tokens
            .iter()
            .filter(|token| matches!(token.kind, TokenKind::Dedent))
            .count(),
        1
    );
}

#[test]
fn tabs_and_inconsistent_dedents_are_diagnostics() {
    let output = scan(
        "신청(request)은 다음 필드들로 구성되어 있다.\n    금액(amount): 필수 정수\n  이름(name): 필수 문자열\n\t상태(state): 필수 문자열\n",
    );
    assert!(output
        .diagnostics
        .iter()
        .any(|d| d.rule_id == "RSPDL-KO-LEX-001"));
    assert!(output
        .diagnostics
        .iter()
        .any(|d| d.rule_id == "RSPDL-KO-LEX-002"));
}

#[test]
fn spans_follow_the_text_on_character_boundaries_and_blocks_close_after_they_open() {
    let source = "모델(model)은:\n    이름: \"값\"\n        깊이\n끝 # 주석\n";
    let scanned = scan(source);
    let mut depth: i64 = 0;
    let mut last_start = 0;
    for token in &scanned.tokens {
        assert!(token.span.start <= token.span.end, "{token:?}");
        assert!(token.span.end <= source.len(), "{token:?}");
        assert!(source.is_char_boundary(token.span.start), "{token:?}");
        assert!(source.is_char_boundary(token.span.end), "{token:?}");
        assert!(last_start <= token.span.start, "{token:?}");
        last_start = token.span.start;
        match token.kind {
            TokenKind::Indent => depth += 1,
            TokenKind::Dedent => depth -= 1,
            _ => {}
        }
        assert!(depth >= 0, "{token:?}");
    }
    assert_eq!(depth, 0);
}

#[test]
fn diagnostics_point_into_the_text() {
    let source = "모델:\n\t이름 `닫히지 않음\n  값 \"깨진\\q\"\n";
    let scanned = scan(source);
    assert!(!scanned.diagnostics.is_empty());
    for diagnostic in &scanned.diagnostics {
        assert!(diagnostic.span.start <= diagnostic.span.end, "{diagnostic:?}");
        assert!(diagnostic.span.end <= source.len(), "{diagnostic:?}");
        assert!(source.is_char_boundary(diagnostic.span.start), "{diagnostic:?}");
        assert!(source.is_char_boundary(diagnostic.span.end), "{diagnostic:?}");
    }
}
