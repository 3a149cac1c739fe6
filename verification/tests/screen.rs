use rspdl::ast::{RelationalConstraintKindAst, ScreenOperationKindAst};
use rspdl::constraint::{
    group_separator, parse_reference_list, parse_relational_constraint, relation_group,
    strip_final_marker,
};
use rspdl::diagnostic::{Diagnostic, Span};
use rspdl::outline::RelationalConstraintDeclarationKind;
use rspdl::parser::Line;
use rspdl::scanner::{scan, Token, TokenKind};
use rspdl::screen::{parse_field_list, parse_screen};

fn sentence_line(sentence: &str) -> Line {
    let scanned = scan(sentence);
    assert!(scanned.diagnostics.is_empty(), "{sentence}: {:?}", scanned.diagnostics);
    let tokens: Vec<Token> = scanned
        .tokens
        .into_iter()
        .filter(|token| {
            !matches!(
                token.kind,
                TokenKind::Newline | TokenKind::Indent | TokenKind::Dedent
            )
        })
        .collect();
    let span = Span {
        start: tokens.first().unwrap().span.start,
        end: tokens.last().unwrap().span.end,
    };
    Line { indent: 0, tokens, span }
}

fn words(sentence: &str) -> Vec<Token> {
    let mut tokens = sentence_line(sentence).tokens;
    if matches!(tokens.last().map(|t| &t.kind), Some(TokenKind::Period)) {
        tokens.pop();
    }
    tokens
}

#[test]
fn a_screen_on_a_whole_model_names_its_operation() {
    let line = sentence_line("장바구니 작성 화면(create_cart)에서는 장바구니를 생성할 수 있다.");
    let mut diagnostics = Vec::new();
    let screen = parse_screen(&line, &[], &mut diagnostics).unwrap();
    assert_eq!(screen.declaration.name, "장바구니 작성 화면");
    assert_eq!(screen.declaration.id, "create_cart");
    assert_eq!(screen.model, "장바구니");
    assert!(screen.fields.is_empty());
    assert_eq!(screen.operation, ScreenOperationKindAst::Create);
    assert_eq!(screen.span, line.span);
    assert!(diagnostics.is_empty());
}

#[test]
fn a_screen_on_fields_reads_the_field_list() {
    let line =
        sentence_line("장바구니 상세 화면(cart_detail)에서는 장바구니의 결제 예정 금액을 조회할 수 있다.");
    let mut diagnostics = Vec::new();
    let screen = parse_screen(&line, &[], &mut diagnostics).unwrap();
    assert_eq!(screen.model, "장바구니");
    assert_eq!(screen.fields, vec!["결제 예정 금액".to_owned()]);
    assert_eq!(screen.operation, ScreenOperationKindAst::Read);
    assert!(diagnostics.is_empty());
}

#[test]
fn a_quoted_field_takes_its_particle_as_a_word() {
    let line = sentence_line("배송 입력 화면(input)에서는 배송의 `배송 주소`을 입력할 수 있다.");
    let mut diagnostics = Vec::new();
    let screen = parse_screen(&line, &[], &mut diagnostics).unwrap();
    assert_eq!(screen.fields, vec!["배송 주소".to_owned()]);
    assert_eq!(screen.operation, ScreenOperationKindAst::Input);
}

#[test]
fn a_screen_with_a_block_is_rejected() {
    let line = sentence_line("장바구니 작성 화면(create_cart)에서는 장바구니를 생성할 수 있다.");
    let body = vec![sentence_line("장바구니를 생성할 수 있다.")];
    let mut diagnostics = Vec::new();
    let error = parse_screen(&line, &body, &mut diagnostics).unwrap_err();
    assert_eq!(error.rule_id, "RSPDL-KO-SYN-060");
    assert_eq!(error.message_key, "ko.syntax.screen_must_be_sentence");
}

#[test]
fn a_screen_needs_a_stable_id_and_a_known_operation() {
    let mut diagnostics = Vec::new();
    let missing = sentence_line("장바구니 작성 화면에서는 장바구니를 생성할 수 있다.");
    assert_eq!(
        parse_screen(&missing, &[], &mut diagnostics).unwrap_err().rule_id,
        "RSPDL-KO-SYN-061"
    );
    let unknown = sentence_line("장바구니 화면(cart)에서는 장바구니를 복사할 수 있다.");
    assert_eq!(
        parse_screen(&unknown, &[], &mut diagnostics).unwrap_err().message_key,
        "ko.syntax.screen_model_operation_invalid"
    );
    let deleting = sentence_line("장바구니 화면(cart)에서는 장바구니의 금액을 삭제할 수 있다.");
    assert_eq!(
        parse_screen(&deleting, &[], &mut diagnostics).unwrap_err().message_key,
        "ko.syntax.screen_field_operation_invalid"
    );
}

#[test]
fn a_field_list_needs_its_object_particle() {
    let span = Span { start: 0, end: 1 };
    let error: Diagnostic = parse_field_list(&words("결제 금액"), span).unwrap_err();
    assert_eq!(error.rule_id, "RSPDL-KO-SYN-062");
    assert_eq!(error.message_key, "ko.syntax.field_list_final_marker_required");
    assert_eq!(
        parse_field_list(&[], span).unwrap_err().message_key,
        "ko.syntax.field_list_required"
    );
    assert_eq!(
        parse_field_list(&words("결제 금액을"), span).unwrap(),
        vec!["결제 금액".to_owned()]
    );
    assert_eq!(
        parse_field_list(&words("수량, 금액을"), span).unwrap(),
        vec!["수량".to_owned(), "금액".to_owned()]
    );
    assert_eq!(
        parse_field_list(&words("수량,"), span).unwrap_err().message_key,
        "ko.syntax.field_list_empty_name"
    );
}

#[test]
fn model_rules_read_their_model_and_relation() {
    let non_empty = parse_relational_constraint(
        &sentence_line("상품은 하나 이상 존재해야 한다."),
        &[],
        RelationalConstraintDeclarationKind::NonEmpty,
    )
    .unwrap();
    assert_eq!(
        non_empty.constraint,
        RelationalConstraintKindAst::NonEmpty { model: "상품".to_owned() }
    );
    let required = parse_relational_constraint(
        &sentence_line("모든 주문은 주문 항목을 하나 이상 가져야 한다."),
        &[],
        RelationalConstraintDeclarationKind::Required,
    )
    .unwrap();
    assert_eq!(
        required.constraint,
        RelationalConstraintKindAst::Required {
            model: "주문".to_owned(),
            relation: "주문 항목".to_owned(),
        }
    );
    let unique = parse_relational_constraint(
        &sentence_line("각 회원은 장바구니를 최대 하나만 가질 수 있다."),
        &[],
        RelationalConstraintDeclarationKind::Unique,
    )
    .unwrap();
    assert_eq!(
        unique.constraint,
        RelationalConstraintKindAst::Unique {
            model: "회원".to_owned(),
            relation: "장바구니".to_owned(),
        }
    );
}

#[test]
fn a_model_rule_rejects_a_block_and_trailing_words() {
    let line = sentence_line("상품은 하나 이상 존재해야 한다.");
    let body = vec![sentence_line("상품은 하나 이상 존재해야 한다.")];
    let error = parse_relational_constraint(
        &line,
        &body,
        RelationalConstraintDeclarationKind::NonEmpty,
    )
    .unwrap_err();
    assert_eq!(error.rule_id, "RSPDL-KO-SYN-063");
    assert_eq!(error.arguments.len(), 1);
    let trailing = parse_relational_constraint(
        &sentence_line("상품은 하나 이상 존재해야 한다 항상."),
        &[],
        RelationalConstraintDeclarationKind::NonEmpty,
    )
    .unwrap_err();
    assert_eq!(trailing.message_key, "ko.syntax.trailing_expression");
}

#[test]
fn a_group_rule_needs_two_references() {
    let exclusive = parse_relational_constraint(
        &sentence_line("결제 대기 중 둘 이상은 동시에 성립할 수 없다."),
        &[],
        RelationalConstraintDeclarationKind::Exclusive,
    )
    .unwrap_err();
    assert_eq!(exclusive.rule_id, "RSPDL-KO-SYN-071");
    assert_eq!(exclusive.message_key, "ko.syntax.relational_constraint_group_references");
    let coexistent = parse_relational_constraint(
        &sentence_line("동시에 성립할 수 있다."),
        &[],
        RelationalConstraintDeclarationKind::Coexistent,
    )
    .unwrap_err();
    assert_eq!(coexistent.message_key, "ko.syntax.reference_list_required");
    let unmarked = parse_relational_constraint(
        &sentence_line("결제 배송 동시에 성립할 수 있다."),
        &[],
        RelationalConstraintDeclarationKind::Coexistent,
    )
    .unwrap_err();
    assert_eq!(unmarked.message_key, "ko.syntax.reference_list_final_marker_required");
}

#[test]
fn group_pieces_find_the_separator_and_the_particle() {
    let span = Span { start: 0, end: 1 };
    let tokens = words("결제 대기 중 둘 이상은 동시에 성립할 수 없다");
    assert_eq!(group_separator(&tokens, 6, span).unwrap(), 2);
    assert!(group_separator(&tokens, 5, span).is_err());
    assert_eq!(
        parse_reference_list(&tokens[..2], span).unwrap(),
        vec!["결제 대기".to_owned()]
    );
    assert!(relation_group(&tokens[..2], span).is_err());
    let listed = words("내부, 외부");
    assert_eq!(
        parse_reference_list(&listed, span).unwrap(),
        vec!["내부".to_owned(), "외부".to_owned()]
    );
    assert_eq!(relation_group(&listed, span).unwrap().len(), 2);
    assert_eq!(
        parse_reference_list(&words("내부, , 외부"), span).unwrap_err().message_key,
        "ko.syntax.reference_list_empty_name"
    );
    let (stripped, marker) = strip_final_marker(&words("결제 배송은"), &["은", "는"], span).unwrap();
    assert_eq!(marker, "은");
    assert_eq!(stripped.len(), 2);
    assert_eq!(stripped[1].kind, TokenKind::Word("배송".to_owned()));
    let (quoted, marker) = strip_final_marker(&words("`결제 배송` 는"), &["은", "는"], span).unwrap();
    assert_eq!(marker, "는");
    assert_eq!(quoted.len(), 1);
}
