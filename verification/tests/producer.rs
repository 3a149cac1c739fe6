use rspdl::ast::ProducerTriggerKindAst;
use rspdl::declarations::Capture;
use rspdl::producer::{parse_field_producer, FieldProducerShape};
use rspdl::scanner::{scan, Token, TokenKind};

fn line_tokens(sentence: &str) -> Vec<Token> {
    scan(sentence)
        .tokens
        .into_iter()
        .filter(|token| !matches!(token.kind, TokenKind::Newline))
        .collect()
}

fn parsed(sentence: &str) -> FieldProducerShape {
    parse_field_producer(&line_tokens(sentence))
        .unwrap_or_else(|error| panic!("{sentence}: {error:?}"))
}

fn value(capture: &Option<Capture>) -> Option<&str> {
    capture.as_ref().map(|capture| capture.value.as_str())
}

#[test]
fn action_inputs_are_recorded_into_an_output_field() {
    let producer = parsed(
        "알림 제목 기록(title_binding)은 점검 요청 전달이 실행될 때 알림 제목을 점검 요청 전달 알림의 제목으로 기록한다.",
    );
    assert_eq!(producer.producer_name.value, "알림 제목 기록");
    assert_eq!(producer.producer_id.value, "title_binding");
    assert_eq!(producer.action.value, "점검 요청 전달");
    assert_eq!(producer.trigger_kind, ProducerTriggerKindAst::Action);
    assert_eq!(value(&producer.input), Some("알림 제목"));
    assert_eq!(value(&producer.existing_input), None);
    assert_eq!(producer.output_model.value, "점검 요청 전달 알림");
    assert_eq!(producer.output_field.value, "제목");
}

#[test]
fn fields_of_existing_inputs_and_constants_are_sources_too() {
    let existing = parsed(
        "요청 제목 기록(request_title_binding)은 점검 요청 전달이 실행될 때 대상 요청의 제목을 점검 요청 전달 알림의 요청 제목으로 기록한다.",
    );
    assert_eq!(value(&existing.input), None);
    assert_eq!(value(&existing.existing_input), Some("대상 요청"));
    assert_eq!(value(&existing.existing_field), Some("제목"));
    assert_eq!(existing.output_field.value, "요청 제목");

    let constant = parsed(
        "재시도 횟수 기록(retry_binding)은 점검 요청 전달이 실행될 때 상수 0을 점검 요청 전달 알림의 재시도 횟수로 기록한다.",
    );
    assert_eq!(value(&constant.constant), Some("0"));
    assert_eq!(constant.output_model.value, "점검 요청 전달 알림");
    assert_eq!(constant.output_field.value, "재시도 횟수");
}

#[test]
fn event_triggers_are_told_apart_from_actions() {
    let producer = parsed(
        "알림 제목 기록(event_title_binding)은 요청 접수됨이 발생할 때 알림 제목을 알림의 제목으로 기록한다.",
    );
    assert_eq!(producer.action.value, "요청 접수됨");
    assert_eq!(producer.trigger_kind, ProducerTriggerKindAst::Event);
    assert_eq!(producer.output_model.value, "알림");
}

#[test]
fn conditional_producers_capture_the_input_and_its_variant() {
    let producer = parsed(
        "접수 제목 기록(received_title)은 전달의 요청 상태가 접수됨이면 상수 \"요청이 접수되었습니다\"를 알림의 제목으로 기록한다.",
    );
    assert_eq!(producer.action.value, "전달");
    assert_eq!(producer.trigger_kind, ProducerTriggerKindAst::Action);
    assert_eq!(value(&producer.condition_input), Some("요청 상태"));
    assert_eq!(value(&producer.condition_variant), Some("접수됨"));
    assert_eq!(value(&producer.constant), Some("요청이 접수되었습니다"));
}

#[test]
fn template_producers_compose_the_output() {
    let producer = parsed(
        "알림 내용 조합(content_template)은 점검 요청 전달이 실행될 때 \"{제목} 점검이 전달되었습니다.\"를 점검 전달 알림의 내용으로 조합한다.",
    );
    assert_eq!(value(&producer.template), Some("{제목} 점검이 전달되었습니다."));
    assert_eq!(producer.output_model.value, "점검 전달 알림");
    assert_eq!(producer.output_field.value, "내용");
}

#[test]
fn executable_field_producer_grammar_rejects_foreign_sentence_shapes() {
    for sentence in [
        "조건 기록(binding)은 전달이 실행될 때 상태가 접수됨이면 제목을 알림의 제목으로 기록한다.",
        "템플릿 기록(binding)은 전달이 실행될 때 제목을 알림의 제목으로 채운다.",
        "알림 내용 조합(content_template)은 전달의 상태가 접수됨이면 \"{제목}\"를 알림의 내용으로 조합한다.",
    ] {
        assert!(
            parse_field_producer(&line_tokens(sentence)).is_err(),
            "foreign shape must not match the executable grammar: {sentence}"
        );
    }
}
