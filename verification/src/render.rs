//! The Korean wording of diagnostics.
//!
//! A diagnostic carries a message key and named arguments, never text. Each known key has a
//! template: fixed text, argument values, and the particles and kind names that Korean needs
//! around them. A key without a template is shown as itself with its arguments.
use vstd::prelude::*;
use vstd::string::StringExecFns;

use crate::diagnostic::{argument_of, Diagnostic, DiagnosticView};
use crate::text::{chars_of, str_eq};

verus! {

/// One piece of a message template.
#[derive(Clone, Copy, Debug)]
pub enum Piece {
    /// Fixed text.
    Text(&'static str),
    /// The value of an argument, or `<?>` when it is missing.
    Arg(&'static str),
    /// The value of the first argument when present, else that of the second (or `<?>`).
    FirstOf(&'static str, &'static str),
    /// 을 or 를, as the value of an argument ends.
    ObjectMarker(&'static str),
    /// 이 or 가, as the value of an argument ends.
    SubjectMarker(&'static str),
    /// The Korean name of the sentence kind given by an argument.
    SyntaxKind(&'static str),
    /// The Korean name of the symbol kind given by an argument.
    SymbolKind(&'static str),
}

/// The value of `key`, or `<?>` when the diagnostic has none.
pub open spec fn arg_text(d: DiagnosticView, key: Seq<char>) -> Seq<char> {
    match argument_of(d, key) {
        Some(v) => v,
        None => "<?>"@,
    }
}

pub open spec fn is_hangul_syllable(c: char) -> bool {
    '가' <= c && c <= '힣'
}

/// The text ends with a Hangul syllable that has no final consonant.
pub open spec fn ends_in_open_syllable(v: Seq<char>) -> bool {
    v.len() > 0 && is_hangul_syllable(v.last()) && (v.last() as int - '가' as int) % 28 == 0
}

/// The object particle after `v`: 를 after an open syllable, 을 otherwise.
pub open spec fn object_marker_spec(v: Seq<char>) -> Seq<char> {
    if ends_in_open_syllable(v) {
        "를"@
    } else {
        "을"@
    }
}

/// The subject particle after `v`: 가 after an open syllable, 이 otherwise.
pub open spec fn subject_marker_spec(v: Seq<char>) -> Seq<char> {
    if ends_in_open_syllable(v) {
        "가"@
    } else {
        "이"@
    }
}

/// The Korean name of a sentence kind; an unknown kind is shown as it is.
pub open spec fn syntax_kind_spec(kind: Seq<char>) -> Seq<char> {
    if kind == "action_data_mutation"@ {
        "행동 데이터 결과"@
    } else if kind == "sum_derivation"@ {
        "계산"@
    } else if kind == "recalculation"@ {
        "재계산"@
    } else if kind == "field_intent"@ {
        "필드 사용 의도"@
    } else if kind == "creation_branch"@ {
        "조건부 생성 branch"@
    } else if kind == "field_producer"@ {
        "필드 생산자"@
    } else if kind == "relation"@ {
        "관계 선언"@
    } else if kind == "entity"@ {
        "개체 선언"@
    } else if kind == "relational_constraint"@ {
        "관계 메타 규칙"@
    } else {
        kind
    }
}

/// The Korean name of a symbol kind; an unknown kind is shown as it is.
pub open spec fn symbol_kind_spec(kind: Seq<char>) -> Seq<char> {
    if kind == "enum"@ {
        "열거형"@
    } else if kind == "enum_variant"@ {
        "열거형 값"@
    } else if kind == "role"@ {
        "역할"@
    } else if kind == "action"@ {
        "행동"@
    } else if kind == "data_model"@ {
        "데이터 모델"@
    } else if kind == "field_id"@ {
        "필드 ID"@
    } else if kind == "field"@ {
        "필드"@
    } else if kind == "relation"@ {
        "관계"@
    } else {
        kind
    }
}

/// The text a piece stands for in the message of `d`.
pub open spec fn piece_text(p: Piece, d: DiagnosticView) -> Seq<char> {
    match p {
        Piece::Text(t) => t@,
        Piece::Arg(k) => arg_text(d, k@),
        Piece::FirstOf(a, b) => match argument_of(d, a@) {
            Some(v) => v,
            None => arg_text(d, b@),
        },
        Piece::ObjectMarker(k) => object_marker_spec(arg_text(d, k@)),
        Piece::SubjectMarker(k) => subject_marker_spec(arg_text(d, k@)),
        Piece::SyntaxKind(k) => syntax_kind_spec(arg_text(d, k@)),
        Piece::SymbolKind(k) => symbol_kind_spec(arg_text(d, k@)),
    }
}

/// The pieces written one after another.
pub open spec fn fill_spec(ps: Seq<Piece>, d: DiagnosticView) -> Seq<char>
    decreases ps.len(),
{
    if ps.len() == 0 {
        Seq::empty()
    } else {
        fill_spec(ps.drop_last(), d) + piece_text(ps.last(), d)
    }
}

/// `k1=v1, k2=v2, ...` in the order the arguments are kept.
pub open spec fn argument_list(args: Seq<(Seq<char>, Seq<char>)>) -> Seq<char>
    decreases args.len(),
{
    if args.len() == 0 {
        Seq::empty()
    } else if args.len() == 1 {
        args[0].0 + "="@ + args[0].1
    } else {
        argument_list(args.drop_last()) + ", "@ + args.last().0 + "="@ + args.last().1
    }
}

/// A key without wording: the key, then its arguments in brackets when it has any.
pub open spec fn fallback_spec(d: DiagnosticView) -> Seq<char> {
    if d.arguments.len() == 0 {
        d.message_key
    } else {
        d.message_key + " ("@ + argument_list(d.arguments) + ")"@
    }
}

/// The Korean message of `d`.
pub open spec fn render_spec(d: DiagnosticView) -> Seq<char> {
    match template_spec(d) {
        Some(t) => fill_spec(t, d),
        None => fallback_spec(d),
    }
}

fn argument<'a>(d: &'a Diagnostic, key: &str) -> (s: &'a str)
    ensures
        s@ == arg_text(d@, key@),
{
    match d.argument(key) {
        Some(v) => v,
        None => "<?>",
    }
}

fn ends_in_open_syllable_exec(value: &str) -> (b: bool)
    ensures
        b == ends_in_open_syllable(value@),
{
    let chars = chars_of(value);
    if chars.len() == 0 {
        return false;
    }
    let c = chars[chars.len() - 1];
    if '가' <= c && c <= '힣' {
        let code: u32 = c as u32;
        (code - 0xAC00u32) % 28 == 0
    } else {
        false
    }
}

/// 을 or 를 after `value`.
pub fn object_marker(value: &str) -> (m: &'static str)
    ensures
        m@ == object_marker_spec(value@),
{
    if ends_in_open_syllable_exec(value) {
        "를"
    } else {
        "을"
    }
}

/// 이 or 가 after `value`.
pub fn subject_marker(value: &str) -> (m: &'static str)
    ensures
        m@ == subject_marker_spec(value@),
{
    if ends_in_open_syllable_exec(value) {
        "가"
    } else {
        "이"
    }
}

fn syntax_kind(kind: &str) -> (s: &str)
    ensures
        s@ == syntax_kind_spec(kind@),
{
    if str_eq(kind, "action_data_mutation") {
        "행동 데이터 결과"
    } else if str_eq(kind, "sum_derivation") {
        "계산"
    } else if str_eq(kind, "recalculation") {
        "재계산"
    } else if str_eq(kind, "field_intent") {
        "필드 사용 의도"
    } else if str_eq(kind, "creation_branch") {
        "조건부 생성 branch"
    } else if str_eq(kind, "field_producer") {
        "필드 생산자"
    } else if str_eq(kind, "relation") {
        "관계 선언"
    } else if str_eq(kind, "entity") {
        "개체 선언"
    } else if str_eq(kind, "relational_constraint") {
        "관계 메타 규칙"
    } else {
        kind
    }
}

fn symbol_kind(kind: &str) -> (s: &str)
    ensures
        s@ == symbol_kind_spec(kind@),
{
    if str_eq(kind, "enum") {
        "열거형"
    } else if str_eq(kind, "enum_variant") {
        "열거형 값"
    } else if str_eq(kind, "role") {
        "역할"
    } else if str_eq(kind, "action") {
        "행동"
    } else if str_eq(kind, "data_model") {
        "데이터 모델"
    } else if str_eq(kind, "field_id") {
        "필드 ID"
    } else if str_eq(kind, "field") {
        "필드"
    } else if str_eq(kind, "relation") {
        "관계"
    } else {
        kind
    }
}

fn piece_value<'a>(p: Piece, d: &'a Diagnostic) -> (s: &'a str)
    ensures
        s@ == piece_text(p, d@),
{
    match p {
        Piece::Text(t) => t,
        Piece::Arg(k) => argument(d, k),
        Piece::FirstOf(a, b) => match d.argument(a) {
            Some(v) => v,
            None => argument(d, b),
        },
        Piece::ObjectMarker(k) => object_marker(argument(d, k)),
        Piece::SubjectMarker(k) => subject_marker(argument(d, k)),
        Piece::SyntaxKind(k) => syntax_kind(argument(d, k)),
        Piece::SymbolKind(k) => symbol_kind(argument(d, k)),
    }
}

fn fill(ps: &Vec<Piece>, d: &Diagnostic) -> (s: String)
    ensures
        s@ == fill_spec(ps@, d@),
{
    let mut s = String::new();
    let mut i: usize = 0;
    proof {
        assert(ps@.take(0) =~= Seq::<Piece>::empty());
    }
    while i < ps.len()
        invariant
            i <= ps@.len(),
            s@ == fill_spec(ps@.take(i as int), d@),
        decreases ps@.len() - i,
    {
        let part = piece_value(ps[i], d);
        s.append(part);
        proof {
            assert(ps@.take(i + 1).drop_last() =~= ps@.take(i as int));
        }
        i = i + 1;
    }
    proof {
        assert(ps@.take(ps@.len() as int) =~= ps@);
    }
    s
}

fn fallback(d: &Diagnostic) -> (s: String)
    ensures
        s@ == fallback_spec(d@),
{
    let n = d.arguments.len();
    let mut s = String::from_str(d.message_key.as_str());
    if n == 0 {
        return s;
    }
    s.append(" (");
    let ghost args = d@.arguments;
    let mut i: usize = 0;
    while i < n
        invariant
            n == d.arguments@.len(),
            args == d@.arguments,
            args.len() == n,
            0 < n,
            i <= n,
            s@ == d@.message_key + " ("@ + argument_list(args.take(i as int)),
        decreases n - i,
    {
        if i > 0 {
            s.append(", ");
        }
        s.append(d.arguments[i].0.as_str());
        s.append("=");
        s.append(d.arguments[i].1.as_str());
        proof {
            let t = args.take(i + 1);
            assert(t.drop_last() =~= args.take(i as int));
            assert(args[i as int] == crate::diagnostic::pair_view(d.arguments@[i as int]));
            if i == 0 {
                assert(argument_list(args.take(0)) =~= Seq::<char>::empty());
            }
        }
        i = i + 1;
    }
    proof {
        assert(args.take(n as int) =~= args);
    }
    s.append(")");
    s
}

fn is_event_trigger(d: &Diagnostic) -> (b: bool)
    ensures
        b == (argument_of(d@, "trigger_kind"@) == Some("event"@)),
{
    match d.argument("trigger_kind") {
        Some(v) => str_eq(v, "event"),
        None => false,
    }
}

/// Renders a diagnostic as a Korean message.
pub fn render_diagnostic(d: &Diagnostic) -> (s: String)
    ensures
        s@ == render_spec(d@),
{
    match template(d) {
        Some(ps) => fill(&ps, d),
        None => fallback(d),
    }
}

pub open spec fn templates_0_spec(d: DiagnosticView) -> Option<Seq<Piece>> {
    let k = d.message_key;
    if k == "ko.lex.tab_indentation"@ {
        Some(seq![Piece::Text("들여쓰기에 tab을 사용할 수 없습니다.")])
    } else if k == "ko.lex.inconsistent_dedent"@ {
        Some(seq![Piece::Text("이전 블록과 일치하지 않는 들여쓰기입니다.")])
    } else if k == "ko.lex.unclosed_quoted_identifier"@ {
        Some(seq![Piece::Text("닫히지 않은 backtick 식별자입니다.")])
    } else if k == "ko.lex.unclosed_stable_id"@ {
        Some(seq![Piece::Arg("closing"), Piece::Text("로 닫히지 않은 stable ID입니다.")])
    } else if k == "ko.lex.invalid_string_literal"@ {
        Some(seq![Piece::Text("문자열 literal 형식이 올바르지 않습니다.")])
    } else if k == "ko.syntax.module_required"@ {
        Some(seq![Piece::Text("문서는 모듈 선언으로 시작해야 합니다.")])
    } else if k == "ko.syntax.module_header_required"@ {
        Some(seq![Piece::Text("문서는 @모듈 표시 이름(stable_id) 선언으로 시작해야 합니다.")])
    } else if k == "ko.syntax.unexpected_top_level_indent"@ {
        Some(seq![Piece::Text("최상위 선언이 아닌 위치에 들여쓴 항목이 있습니다.")])
    } else if k == "ko.syntax.unknown_top_level_declaration"@ {
        Some(seq![Piece::Text("알 수 없는 최상위 선언입니다.")])
    } else if k == "ko.syntax.domain_annotation_forbidden"@ {
        Some(seq![Piece::Arg("annotation"), Piece::Text(" annotation은 사용할 수 없습니다. @는 문서 metadata인 @모듈에만 허용됩니다.")])
    } else if k == "ko.syntax.item_period_forbidden"@ {
        Some(seq![Piece::Text("선언 항목에는 마침표를 사용하지 않습니다.")])
    } else if k == "ko.syntax.enum_value_required"@ {
        Some(seq![Piece::Text("열거형 값이 필요합니다.")])
    } else if k == "ko.syntax.field_colon_required"@ {
        Some(seq![Piece::Text("필드 표시 이름 뒤에 :이 필요합니다.")])
    } else if k == "ko.syntax.field_shape_required"@ {
        Some(seq![Piece::Text("필드는 표시 이름(local_id): 필수|선택 타입 형식이어야 합니다.")])
    } else if k == "ko.syntax.field_requiredness_required"@ {
        Some(seq![Piece::Text("필드는 필수 또는 선택을 선언해야 합니다.")])
    } else if k == "ko.syntax.screen_must_be_sentence"@ {
        Some(seq![Piece::Text("화면 동작은 들여쓰기 블록 없이 한 문장으로 작성해야 합니다.")])
    } else if k == "ko.syntax.screen_stable_id_required"@ {
        Some(seq![Piece::Text("화면 stable ID가 필요합니다.")])
    } else if k == "ko.syntax.screen_field_operation_required"@ {
        Some(seq![Piece::Text("화면의 필드 동작이 누락되었습니다.")])
    } else if k == "ko.syntax.screen_field_operation_invalid"@ {
        Some(seq![Piece::Text("필드 동작은 입력할, 조회할, 수정할 중 하나여야 합니다.")])
    } else if k == "ko.syntax.screen_model_operation_invalid"@ {
        Some(seq![Piece::Text("데이터 동작은 생성할, 조회할, 수정할, 삭제할 중 하나여야 합니다.")])
    } else if k == "ko.syntax.action_data_mutation_invalid"@ {
        Some(seq![Piece::Text("행동 결과는 생성한다, 수정한다, 삭제한다 중 하나여야 합니다.")])
    } else if k == "ko.syntax.action_input_stable_id_required"@ {
        Some(seq![Piece::Text("행동 입력의 표시 이름 뒤에 stable ID가 필요합니다.")])
    } else if k == "ko.syntax.action_input_name_marker_required"@ {
        Some(seq![Piece::Text("행동 입력 이름과 stable ID 뒤에는 로 또는 으로가 필요합니다.")])
    } else if k == "ko.syntax.creation_branch_stable_id_required"@ {
        Some(seq![Piece::Text("조건부 생성 branch의 표시 이름 뒤에 stable ID가 필요합니다.")])
    } else {
        None
    }
}

fn templates_0(d: &Diagnostic) -> (r: Option<Vec<Piece>>)
    ensures
        match r {
            Some(v) => templates_0_spec(d@) == Some(v@),
            None => templates_0_spec(d@) is None,
        },
{
    let k = d.message_key.as_str();
    if str_eq(k, "ko.lex.tab_indentation") {
        return Some(vec![Piece::Text("들여쓰기에 tab을 사용할 수 없습니다.")]);
    }
    if str_eq(k, "ko.lex.inconsistent_dedent") {
        return Some(vec![Piece::Text("이전 블록과 일치하지 않는 들여쓰기입니다.")]);
    }
    if str_eq(k, "ko.lex.unclosed_quoted_identifier") {
        return Some(vec![Piece::Text("닫히지 않은 backtick 식별자입니다.")]);
    }
    if str_eq(k, "ko.lex.unclosed_stable_id") {
        return Some(vec![Piece::Arg("closing"), Piece::Text("로 닫히지 않은 stable ID입니다.")]);
    }
    if str_eq(k, "ko.lex.invalid_string_literal") {
        return Some(vec![Piece::Text("문자열 literal 형식이 올바르지 않습니다.")]);
    }
    if str_eq(k, "ko.syntax.module_required") {
        return Some(vec![Piece::Text("문서는 모듈 선언으로 시작해야 합니다.")]);
    }
    if str_eq(k, "ko.syntax.module_header_required") {
        return Some(vec![Piece::Text("문서는 @모듈 표시 이름(stable_id) 선언으로 시작해야 합니다.")]);
    }
    if str_eq(k, "ko.syntax.unexpected_top_level_indent") {
        return Some(vec![Piece::Text("최상위 선언이 아닌 위치에 들여쓴 항목이 있습니다.")]);
    }
    if str_eq(k, "ko.syntax.unknown_top_level_declaration") {
        return Some(vec![Piece::Text("알 수 없는 최상위 선언입니다.")]);
    }
    if str_eq(k, "ko.syntax.domain_annotation_forbidden") {
        return Some(vec![Piece::Arg("annotation"), Piece::Text(" annotation은 사용할 수 없습니다. @는 문서 metadata인 @모듈에만 허용됩니다.")]);
    }
    if str_eq(k, "ko.syntax.item_period_forbidden") {
        return Some(vec![Piece::Text("선언 항목에는 마침표를 사용하지 않습니다.")]);
    }
    if str_eq(k, "ko.syntax.enum_value_required") {
        return Some(vec![Piece::Text("열거형 값이 필요합니다.")]);
    }
    if str_eq(k, "ko.syntax.field_colon_required") {
        return Some(vec![Piece::Text("필드 표시 이름 뒤에 :이 필요합니다.")]);
    }
    if str_eq(k, "ko.syntax.field_shape_required") {
        return Some(vec![Piece::Text("필드는 표시 이름(local_id): 필수|선택 타입 형식이어야 합니다.")]);
    }
    if str_eq(k, "ko.syntax.field_requiredness_required") {
        return Some(vec![Piece::Text("필드는 필수 또는 선택을 선언해야 합니다.")]);
    }
    if str_eq(k, "ko.syntax.screen_must_be_sentence") {
        return Some(vec![Piece::Text("화면 동작은 들여쓰기 블록 없이 한 문장으로 작성해야 합니다.")]);
    }
    if str_eq(k, "ko.syntax.screen_stable_id_required") {
        return Some(vec![Piece::Text("화면 stable ID가 필요합니다.")]);
    }
    if str_eq(k, "ko.syntax.screen_field_operation_required") {
        return Some(vec![Piece::Text("화면의 필드 동작이 누락되었습니다.")]);
    }
    if str_eq(k, "ko.syntax.screen_field_operation_invalid") {
        return Some(vec![Piece::Text("필드 동작은 입력할, 조회할, 수정할 중 하나여야 합니다.")]);
    }
    if str_eq(k, "ko.syntax.screen_model_operation_invalid") {
        return Some(vec![Piece::Text("데이터 동작은 생성할, 조회할, 수정할, 삭제할 중 하나여야 합니다.")]);
    }
    if str_eq(k, "ko.syntax.action_data_mutation_invalid") {
        return Some(vec![Piece::Text("행동 결과는 생성한다, 수정한다, 삭제한다 중 하나여야 합니다.")]);
    }
    if str_eq(k, "ko.syntax.action_input_stable_id_required") {
        return Some(vec![Piece::Text("행동 입력의 표시 이름 뒤에 stable ID가 필요합니다.")]);
    }
    if str_eq(k, "ko.syntax.action_input_name_marker_required") {
        return Some(vec![Piece::Text("행동 입력 이름과 stable ID 뒤에는 로 또는 으로가 필요합니다.")]);
    }
    if str_eq(k, "ko.syntax.creation_branch_stable_id_required") {
        return Some(vec![Piece::Text("조건부 생성 branch의 표시 이름 뒤에 stable ID가 필요합니다.")]);
    }
    None
}

pub open spec fn templates_1_spec(d: DiagnosticView) -> Option<Seq<Piece>> {
    let k = d.message_key;
    if k == "ko.syntax.creation_branch_topic_marker_required"@ {
        Some(seq![Piece::Text("조건부 생성 branch 이름 뒤에는 은 또는 는이 필요합니다.")])
    } else if k == "ko.syntax.creation_branch_result_invalid"@ {
        Some(seq![Piece::Text("조건부 생성 결과는 하나 생성한다 또는 생성하지 않는다여야 합니다.")])
    } else if k == "ko.syntax.creation_branch_condition_marker_invalid"@ {
        Some(seq![Piece::Text("조건부 생성 조건은 행동의 입력이 enum 값이면 형식이어야 합니다.")])
    } else if k == "ko.syntax.creation_branch_result_marker_invalid"@ {
        Some(seq![Piece::Text("조건부 생성 결과의 output model 뒤에는 을 또는 를이 필요합니다.")])
    } else if k == "ko.syntax.field_producer_stable_id_required"@ {
        Some(seq![Piece::Text("필드 생산자의 stable ID가 필요합니다.")])
    } else if k == "ko.syntax.field_producer_topic_marker_required"@ {
        Some(seq![Piece::Text("필드 생산자 이름 뒤에는 은 또는 는이 필요합니다.")])
    } else if k == "ko.syntax.field_producer_literal_required"@ {
        Some(seq![Piece::Text("상수 생산자에는 literal이 필요합니다.")])
    } else if k == "ko.syntax.field_producer_literal_marker_required"@ {
        Some(seq![Piece::Text("상수 literal 뒤에는 을 또는 를이 필요합니다.")])
    } else if k == "ko.syntax.template_string_required"@ {
        Some(seq![Piece::Text("알림 내용 조합에는 문자열 template이 필요합니다.")])
    } else if k == "ko.syntax.template_unmatched_brace"@ {
        Some(seq![Piece::Text("template의 { 또는 } 짝이 맞지 않습니다. literal brace는 {{ 또는 }}로 쓰세요.")])
    } else if k == "ko.syntax.template_empty_placeholder"@ {
        Some(seq![Piece::Text("template placeholder는 비워둘 수 없습니다.")])
    } else if k == "ko.syntax.template_nested_placeholder"@ {
        Some(seq![Piece::Text("template placeholder 안에 {를 중첩할 수 없습니다.")])
    } else if k == "ko.syntax.template_path_placeholder_forbidden"@ {
        Some(seq![Piece::Text("template placeholder "), Piece::Arg("placeholder"), Piece::Text("은 output field 이름 하나여야 하며 경로를 쓸 수 없습니다.")])
    } else if k == "ko.syntax.relation_producer_stable_id_required"@ {
        Some(seq![Piece::Text("관계 생산자의 stable ID가 필요합니다.")])
    } else if k == "ko.syntax.relation_producer_topic_marker_required"@ {
        Some(seq![Piece::Text("관계 생산자 이름 뒤에는 은 또는 는이 필요합니다.")])
    } else if k == "ko.syntax.field_list_required"@ {
        Some(seq![Piece::Text("필드 목록이 필요합니다.")])
    } else if k == "ko.syntax.field_list_empty_name"@ {
        Some(seq![Piece::Text("빈 필드 이름은 사용할 수 없습니다.")])
    } else if k == "ko.syntax.field_list_invalid"@ {
        Some(seq![Piece::Text("필드 목록 형식이 올바르지 않습니다.")])
    } else if k == "ko.syntax.field_list_final_marker_required"@ {
        Some(seq![Piece::Text("마지막 필드에는 을 또는 를이 필요합니다.")])
    } else if k == "ko.syntax.field_intent_invalid"@ {
        Some(seq![Piece::Text("필드는 내부 관리 또는 사용자 화면 비표시 중 하나로 분류해야 합니다.")])
    } else if k == "ko.syntax.sentence_block_forbidden"@ {
        Some(seq![Piece::SyntaxKind("kind"), Piece::Text(" 문장 아래에는 들여쓰기 블록을 둘 수 없습니다.")])
    } else if k == "ko.syntax.constraint_block_forbidden"@ {
        Some(seq![Piece::Text("제약 문장 아래에는 별도 블록을 둘 수 없습니다.")])
    } else if k == "ko.syntax.policy_block_forbidden"@ {
        Some(seq![Piece::Text("정책 문장 아래에는 별도 블록을 둘 수 없습니다.")])
    } else if k == "ko.syntax.policy_effect_invalid"@ {
        Some(seq![Piece::Text("정책은 수 있다 또는 수 없다로 끝나야 합니다.")])
    } else {
        None
    }
}

fn templates_1(d: &Diagnostic) -> (r: Option<Vec<Piece>>)
    ensures
        match r {
            Some(v) => templates_1_spec(d@) == Some(v@),
            None => templates_1_spec(d@) is None,
        },
{
    let k = d.message_key.as_str();
    if str_eq(k, "ko.syntax.creation_branch_topic_marker_required") {
        return Some(vec![Piece::Text("조건부 생성 branch 이름 뒤에는 은 또는 는이 필요합니다.")]);
    }
    if str_eq(k, "ko.syntax.creation_branch_result_invalid") {
        return Some(vec![Piece::Text("조건부 생성 결과는 하나 생성한다 또는 생성하지 않는다여야 합니다.")]);
    }
    if str_eq(k, "ko.syntax.creation_branch_condition_marker_invalid") {
        return Some(vec![Piece::Text("조건부 생성 조건은 행동의 입력이 enum 값이면 형식이어야 합니다.")]);
    }
    if str_eq(k, "ko.syntax.creation_branch_result_marker_invalid") {
        return Some(vec![Piece::Text("조건부 생성 결과의 output model 뒤에는 을 또는 를이 필요합니다.")]);
    }
    if str_eq(k, "ko.syntax.field_producer_stable_id_required") {
        return Some(vec![Piece::Text("필드 생산자의 stable ID가 필요합니다.")]);
    }
    if str_eq(k, "ko.syntax.field_producer_topic_marker_required") {
        return Some(vec![Piece::Text("필드 생산자 이름 뒤에는 은 또는 는이 필요합니다.")]);
    }
    if str_eq(k, "ko.syntax.field_producer_literal_required") {
        return Some(vec![Piece::Text("상수 생산자에는 literal이 필요합니다.")]);
    }
    if str_eq(k, "ko.syntax.field_producer_literal_marker_required") {
        return Some(vec![Piece::Text("상수 literal 뒤에는 을 또는 를이 필요합니다.")]);
    }
    if str_eq(k, "ko.syntax.template_string_required") {
        return Some(vec![Piece::Text("알림 내용 조합에는 문자열 template이 필요합니다.")]);
    }
    if str_eq(k, "ko.syntax.template_unmatched_brace") {
        return Some(vec![Piece::Text("template의 { 또는 } 짝이 맞지 않습니다. literal brace는 {{ 또는 }}로 쓰세요.")]);
    }
    if str_eq(k, "ko.syntax.template_empty_placeholder") {
        return Some(vec![Piece::Text("template placeholder는 비워둘 수 없습니다.")]);
    }
    if str_eq(k, "ko.syntax.template_nested_placeholder") {
        return Some(vec![Piece::Text("template placeholder 안에 {를 중첩할 수 없습니다.")]);
    }
    if str_eq(k, "ko.syntax.template_path_placeholder_forbidden") {
        return Some(vec![Piece::Text("template placeholder "), Piece::Arg("placeholder"), Piece::Text("은 output field 이름 하나여야 하며 경로를 쓸 수 없습니다.")]);
    }
    if str_eq(k, "ko.syntax.relation_producer_stable_id_required") {
        return Some(vec![Piece::Text("관계 생산자의 stable ID가 필요합니다.")]);
    }
    if str_eq(k, "ko.syntax.relation_producer_topic_marker_required") {
        return Some(vec![Piece::Text("관계 생산자 이름 뒤에는 은 또는 는이 필요합니다.")]);
    }
    if str_eq(k, "ko.syntax.field_list_required") {
        return Some(vec![Piece::Text("필드 목록이 필요합니다.")]);
    }
    if str_eq(k, "ko.syntax.field_list_empty_name") {
        return Some(vec![Piece::Text("빈 필드 이름은 사용할 수 없습니다.")]);
    }
    if str_eq(k, "ko.syntax.field_list_invalid") {
        return Some(vec![Piece::Text("필드 목록 형식이 올바르지 않습니다.")]);
    }
    if str_eq(k, "ko.syntax.field_list_final_marker_required") {
        return Some(vec![Piece::Text("마지막 필드에는 을 또는 를이 필요합니다.")]);
    }
    if str_eq(k, "ko.syntax.field_intent_invalid") {
        return Some(vec![Piece::Text("필드는 내부 관리 또는 사용자 화면 비표시 중 하나로 분류해야 합니다.")]);
    }
    if str_eq(k, "ko.syntax.sentence_block_forbidden") {
        return Some(vec![Piece::SyntaxKind("kind"), Piece::Text(" 문장 아래에는 들여쓰기 블록을 둘 수 없습니다.")]);
    }
    if str_eq(k, "ko.syntax.constraint_block_forbidden") {
        return Some(vec![Piece::Text("제약 문장 아래에는 별도 블록을 둘 수 없습니다.")]);
    }
    if str_eq(k, "ko.syntax.policy_block_forbidden") {
        return Some(vec![Piece::Text("정책 문장 아래에는 별도 블록을 둘 수 없습니다.")]);
    }
    if str_eq(k, "ko.syntax.policy_effect_invalid") {
        return Some(vec![Piece::Text("정책은 수 있다 또는 수 없다로 끝나야 합니다.")]);
    }
    None
}

pub open spec fn templates_2_spec(d: DiagnosticView) -> Option<Seq<Piece>> {
    let k = d.message_key;
    if k == "ko.syntax.field_comparison_invalid"@ {
        Some(seq![Piece::Text("필드 비교는 같아야 또는 달라야를 사용해야 합니다.")])
    } else if k == "ko.syntax.period_required"@ {
        Some(seq![Piece::Text("완전한 문장은 마침표로 끝나야 합니다.")])
    } else if k == "ko.syntax.annotated_declaration_required"@ {
        Some(seq![Piece::Arg("keyword"), Piece::Text(" 표시 이름("), Piece::Arg("id_kind"), Piece::Text(") 선언이 필요합니다.")])
    } else if k == "ko.syntax.declaration_punctuation_forbidden"@ {
        Some(seq![Piece::Text("선언 줄에는 마침표나 콜론을 사용하지 않습니다.")])
    } else if k == "ko.syntax.declaration_id_required"@ {
        Some(seq![Piece::Text("선언 ID가 필요합니다.")])
    } else if k == "ko.syntax.natural_header_period_required"@ {
        Some(seq![Piece::Text("데이터와 열거형 header는 마침표로 끝나는 문장이어야 합니다.")])
    } else if k == "ko.syntax.declaration_topic_marker_required"@ {
        Some(seq![Piece::Text("선언 이름 뒤에 은 또는 는이 필요합니다.")])
    } else if k == "ko.syntax.stable_id_required"@ {
        Some(seq![Piece::Text("선언에 stable ID가 필요합니다.")])
    } else if k == "ko.syntax.display_name_required"@ {
        Some(seq![Piece::Text("표시 이름이 필요합니다.")])
    } else if k == "ko.syntax.display_name_invalid"@ {
        Some(seq![Piece::Text("표시 이름 형식이 올바르지 않습니다.")])
    } else if k == "ko.syntax.block_item_required"@ {
        Some(seq![Piece::Text("블록에는 하나 이상의 항목이 필요합니다.")])
    } else if k == "ko.syntax.block_indent_inconsistent"@ {
        Some(seq![Piece::Text("블록 항목의 들여쓰기 깊이가 일정하지 않습니다.")])
    } else if k == "ko.syntax.field_type_required"@ {
        Some(seq![Piece::Text("필드 타입이 필요합니다.")])
    } else if k == "ko.syntax.field_type_invalid"@ {
        Some(seq![Piece::Text("필드 타입 형식이 올바르지 않습니다.")])
    } else if k == "ko.syntax.relation_stable_id_required"@ {
        Some(seq![Piece::Text("관계 선언에 stable ID가 필요합니다.")])
    } else if k == "ko.syntax.relation_direction_marker_required"@ {
        Some(seq![Piece::Text("관계 이름 뒤에는 로 또는 으로가 필요합니다.")])
    } else if k == "ko.syntax.relational_constraint_group_references"@ {
        Some(seq![Piece::Text("그룹 관계 규칙에는 서로 다른 관계 참조가 둘 이상 필요합니다.")])
    } else if k == "ko.syntax.reference_list_required"@ {
        Some(seq![Piece::Text("하나 이상의 참조가 필요합니다.")])
    } else if k == "ko.syntax.reference_list_empty_name"@ {
        Some(seq![Piece::Text("참조 목록에 빈 이름이 있습니다.")])
    } else if k == "ko.syntax.reference_list_invalid"@ {
        Some(seq![Piece::Text("참조 목록 형식이 올바르지 않습니다.")])
    } else if k == "ko.syntax.reference_list_final_marker_required"@ {
        Some(seq![Piece::Text("관계 목록의 마지막 이름 뒤에는 은 또는 는이 필요합니다.")])
    } else if k == "ko.syntax.reference_and_marker_required"@ {
        Some(seq![Piece::Text("문장에 필요한 이름과 조사가 누락되었습니다.")])
    } else if k == "ko.syntax.quoted_reference_marker_required"@ {
        Some(seq![Piece::Text("인용된 이름 뒤에 구조 marker가 필요합니다.")])
    } else if k == "ko.syntax.reference_marker_invalid"@ {
        Some(seq![Piece::Arg("reference"), Piece::Text(" 뒤에는 "), Piece::Arg("expected"), Piece::Text(" 중 하나가 필요합니다.")])
    } else {
        None
    }
}

fn templates_2(d: &Diagnostic) -> (r: Option<Vec<Piece>>)
    ensures
        match r {
            Some(v) => templates_2_spec(d@) == Some(v@),
            None => templates_2_spec(d@) is None,
        },
{
    let k = d.message_key.as_str();
    if str_eq(k, "ko.syntax.field_comparison_invalid") {
        return Some(vec![Piece::Text("필드 비교는 같아야 또는 달라야를 사용해야 합니다.")]);
    }
    if str_eq(k, "ko.syntax.period_required") {
        return Some(vec![Piece::Text("완전한 문장은 마침표로 끝나야 합니다.")]);
    }
    if str_eq(k, "ko.syntax.annotated_declaration_required") {
        return Some(vec![Piece::Arg("keyword"), Piece::Text(" 표시 이름("), Piece::Arg("id_kind"), Piece::Text(") 선언이 필요합니다.")]);
    }
    if str_eq(k, "ko.syntax.declaration_punctuation_forbidden") {
        return Some(vec![Piece::Text("선언 줄에는 마침표나 콜론을 사용하지 않습니다.")]);
    }
    if str_eq(k, "ko.syntax.declaration_id_required") {
        return Some(vec![Piece::Text("선언 ID가 필요합니다.")]);
    }
    if str_eq(k, "ko.syntax.natural_header_period_required") {
        return Some(vec![Piece::Text("데이터와 열거형 header는 마침표로 끝나는 문장이어야 합니다.")]);
    }
    if str_eq(k, "ko.syntax.declaration_topic_marker_required") {
        return Some(vec![Piece::Text("선언 이름 뒤에 은 또는 는이 필요합니다.")]);
    }
    if str_eq(k, "ko.syntax.stable_id_required") {
        return Some(vec![Piece::Text("선언에 stable ID가 필요합니다.")]);
    }
    if str_eq(k, "ko.syntax.display_name_required") {
        return Some(vec![Piece::Text("표시 이름이 필요합니다.")]);
    }
    if str_eq(k, "ko.syntax.display_name_invalid") {
        return Some(vec![Piece::Text("표시 이름 형식이 올바르지 않습니다.")]);
    }
    if str_eq(k, "ko.syntax.block_item_required") {
        return Some(vec![Piece::Text("블록에는 하나 이상의 항목이 필요합니다.")]);
    }
    if str_eq(k, "ko.syntax.block_indent_inconsistent") {
        return Some(vec![Piece::Text("블록 항목의 들여쓰기 깊이가 일정하지 않습니다.")]);
    }
    if str_eq(k, "ko.syntax.field_type_required") {
        return Some(vec![Piece::Text("필드 타입이 필요합니다.")]);
    }
    if str_eq(k, "ko.syntax.field_type_invalid") {
        return Some(vec![Piece::Text("필드 타입 형식이 올바르지 않습니다.")]);
    }
    if str_eq(k, "ko.syntax.relation_stable_id_required") {
        return Some(vec![Piece::Text("관계 선언에 stable ID가 필요합니다.")]);
    }
    if str_eq(k, "ko.syntax.relation_direction_marker_required") {
        return Some(vec![Piece::Text("관계 이름 뒤에는 로 또는 으로가 필요합니다.")]);
    }
    if str_eq(k, "ko.syntax.relational_constraint_group_references") {
        return Some(vec![Piece::Text("그룹 관계 규칙에는 서로 다른 관계 참조가 둘 이상 필요합니다.")]);
    }
    if str_eq(k, "ko.syntax.reference_list_required") {
        return Some(vec![Piece::Text("하나 이상의 참조가 필요합니다.")]);
    }
    if str_eq(k, "ko.syntax.reference_list_empty_name") {
        return Some(vec![Piece::Text("참조 목록에 빈 이름이 있습니다.")]);
    }
    if str_eq(k, "ko.syntax.reference_list_invalid") {
        return Some(vec![Piece::Text("참조 목록 형식이 올바르지 않습니다.")]);
    }
    if str_eq(k, "ko.syntax.reference_list_final_marker_required") {
        return Some(vec![Piece::Text("관계 목록의 마지막 이름 뒤에는 은 또는 는이 필요합니다.")]);
    }
    if str_eq(k, "ko.syntax.reference_and_marker_required") {
        return Some(vec![Piece::Text("문장에 필요한 이름과 조사가 누락되었습니다.")]);
    }
    if str_eq(k, "ko.syntax.quoted_reference_marker_required") {
        return Some(vec![Piece::Text("인용된 이름 뒤에 구조 marker가 필요합니다.")]);
    }
    if str_eq(k, "ko.syntax.reference_marker_invalid") {
        return Some(vec![Piece::Arg("reference"), Piece::Text(" 뒤에는 "), Piece::Arg("expected"), Piece::Text(" 중 하나가 필요합니다.")]);
    }
    None
}

pub open spec fn templates_3_spec(d: DiagnosticView) -> Option<Seq<Piece>> {
    let k = d.message_key;
    if k == "ko.syntax.reference_marker_missing"@ {
        Some(seq![Piece::Arg("reference"), Piece::Text("에서 "), Piece::Arg("expected"), Piece::Text(" marker를 찾을 수 없습니다.")])
    } else if k == "ko.syntax.surface_name_required"@ {
        Some(seq![Piece::Text("표면 이름이 필요합니다.")])
    } else if k == "ko.syntax.comparison_value_required"@ {
        Some(seq![Piece::Text("제약의 비교 값이 누락되었습니다.")])
    } else if k == "ko.syntax.not_equal_shape_required"@ {
        Some(seq![Piece::Text("과/와 달라야 한다 문형이 필요합니다.")])
    } else if k == "ko.syntax.integer_order_shape_required"@ {
        Some(seq![Piece::Text("<정수>보다 커야/작아야 한다 문형이 필요합니다.")])
    } else if k == "ko.syntax.order_suffix_required"@ {
        Some(seq![Piece::Text("보다 커야/작아야가 필요합니다.")])
    } else if k == "ko.syntax.integer_comparison_unsupported"@ {
        Some(seq![Piece::Text("지원하지 않는 정수 비교 문형입니다.")])
    } else if k == "ko.syntax.literal_unsupported"@ {
        Some(seq![Piece::Text("지원하지 않는 literal입니다.")])
    } else if k == "ko.syntax.word_required"@ {
        Some(seq![Piece::Arg("expected"), Piece::Text("가 필요합니다.")])
    } else if k == "ko.syntax.trailing_expression"@ {
        Some(seq![Piece::Text("문장 뒤에 예상하지 못한 표현이 있습니다.")])
    } else if k == "ko.lint.marker_preference"@ {
        Some(seq![Piece::Arg("name"), Piece::Arg("actual"), Piece::Text("보다 "), Piece::Arg("name"), Piece::Arg("expected"), Piece::Text("이 자연스럽습니다.")])
    } else if k == "ko.reference.not_found"@ {
        Some(seq![Piece::Arg("kind"), Piece::Text(" 참조 "), Piece::Arg("reference"), Piece::Text("에 대응하는 stable ID를 찾을 수 없습니다.")])
    } else if k == "ko.reference.ambiguous"@ {
        Some(seq![Piece::Arg("kind"), Piece::Text(" 참조 "), Piece::Arg("reference"), Piece::Text("가 둘 이상의 stable ID와 일치합니다.")])
    } else if k == "compiler.source.duplicate_path"@ {
        Some(seq![Piece::Text("source 경로 "), Piece::Arg("path"), Piece::Text("가 중복 지정되었습니다.")])
    } else if k == "compiler.module.duplicate_id"@ {
        Some(seq![Piece::Text("모듈 ID "), Piece::Arg("module_id"), Piece::Text("가 여러 파일에 선언되었습니다.")])
    } else if k == "compiler.symbol.duplicate_id"@ {
        Some(seq![Piece::Text("stable ID "), Piece::Arg("symbol_id"), Piece::Text("가 여러 파일에 선언되었습니다.")])
    } else if k == "semantic.enum.duplicate_variant_id"@ {
        Some(seq![Piece::Text("열거형 값 ID "), Piece::Arg("id"), Piece::Text("가 중복 선언되었습니다.")])
    } else if k == "semantic.field.duplicate_local_id"@ {
        Some(seq![Piece::Text("필드 stable ID "), Piece::Arg("id"), Piece::Text("가 중복 선언되었습니다.")])
    } else if k == "semantic.reference.ambiguous"@ {
        Some(seq![Piece::SymbolKind("kind"), Piece::Text(" 참조 "), Piece::Arg("reference"), Piece::Text("가 여러 stable ID("), Piece::Arg("candidates"), Piece::Text(")와 일치합니다.")])
    } else if k == "semantic.enum.not_found"@ {
        Some(seq![Piece::Text("열거형 "), Piece::Arg("reference"), Piece::ObjectMarker("reference"), Piece::Text(" 찾을 수 없습니다.")])
    } else if k == "semantic.enum.variant_not_found"@ {
        Some(seq![Piece::Text("열거형 값 "), Piece::Arg("reference"), Piece::ObjectMarker("reference"), Piece::Text(" 찾을 수 없습니다.")])
    } else if k == "semantic.creation_branch.decision_input_not_found"@ {
        if argument_of(d, "trigger_kind"@) == Some("event"@) {
            Some(seq![Piece::Text("사건 "), Piece::FirstOf("trigger_id", "action_id"), Piece::Text("에서 조건 입력 "), Piece::Arg("reference"), Piece::Text("을 찾을 수 없습니다.")])
        } else {
            Some(seq![Piece::Text("행동 "), Piece::FirstOf("trigger_id", "action_id"), Piece::Text("에서 조건 입력 "), Piece::Arg("reference"), Piece::Text("을 찾을 수 없습니다.")])
        }
    } else if k == "semantic.creation_branch.decision_input_requires_enum"@ {
        Some(seq![Piece::Text("조건부 생성 입력 "), Piece::Arg("input_id"), Piece::Text("은 닫힌 열거형 값이어야 합니다.")])
    } else if k == "semantic.creation_branch.variant_not_in_decision_enum"@ {
        Some(seq![Piece::Text("조건 값 "), Piece::Arg("reference"), Piece::Text("은 입력 "), Piece::Arg("input_id"), Piece::Text("의 열거형 "), Piece::Arg("enum_id"), Piece::Text("에 속하지 않습니다.")])
    } else {
        None
    }
}

fn templates_3(d: &Diagnostic) -> (r: Option<Vec<Piece>>)
    ensures
        match r {
            Some(v) => templates_3_spec(d@) == Some(v@),
            None => templates_3_spec(d@) is None,
        },
{
    let k = d.message_key.as_str();
    if str_eq(k, "ko.syntax.reference_marker_missing") {
        return Some(vec![Piece::Arg("reference"), Piece::Text("에서 "), Piece::Arg("expected"), Piece::Text(" marker를 찾을 수 없습니다.")]);
    }
    if str_eq(k, "ko.syntax.surface_name_required") {
        return Some(vec![Piece::Text("표면 이름이 필요합니다.")]);
    }
    if str_eq(k, "ko.syntax.comparison_value_required") {
        return Some(vec![Piece::Text("제약의 비교 값이 누락되었습니다.")]);
    }
    if str_eq(k, "ko.syntax.not_equal_shape_required") {
        return Some(vec![Piece::Text("과/와 달라야 한다 문형이 필요합니다.")]);
    }
    if str_eq(k, "ko.syntax.integer_order_shape_required") {
        return Some(vec![Piece::Text("<정수>보다 커야/작아야 한다 문형이 필요합니다.")]);
    }
    if str_eq(k, "ko.syntax.order_suffix_required") {
        return Some(vec![Piece::Text("보다 커야/작아야가 필요합니다.")]);
    }
    if str_eq(k, "ko.syntax.integer_comparison_unsupported") {
        return Some(vec![Piece::Text("지원하지 않는 정수 비교 문형입니다.")]);
    }
    if str_eq(k, "ko.syntax.literal_unsupported") {
        return Some(vec![Piece::Text("지원하지 않는 literal입니다.")]);
    }
    if str_eq(k, "ko.syntax.word_required") {
        return Some(vec![Piece::Arg("expected"), Piece::Text("가 필요합니다.")]);
    }
    if str_eq(k, "ko.syntax.trailing_expression") {
        return Some(vec![Piece::Text("문장 뒤에 예상하지 못한 표현이 있습니다.")]);
    }
    if str_eq(k, "ko.lint.marker_preference") {
        return Some(vec![Piece::Arg("name"), Piece::Arg("actual"), Piece::Text("보다 "), Piece::Arg("name"), Piece::Arg("expected"), Piece::Text("이 자연스럽습니다.")]);
    }
    if str_eq(k, "ko.reference.not_found") {
        return Some(vec![Piece::Arg("kind"), Piece::Text(" 참조 "), Piece::Arg("reference"), Piece::Text("에 대응하는 stable ID를 찾을 수 없습니다.")]);
    }
    if str_eq(k, "ko.reference.ambiguous") {
        return Some(vec![Piece::Arg("kind"), Piece::Text(" 참조 "), Piece::Arg("reference"), Piece::Text("가 둘 이상의 stable ID와 일치합니다.")]);
    }
    if str_eq(k, "compiler.source.duplicate_path") {
        return Some(vec![Piece::Text("source 경로 "), Piece::Arg("path"), Piece::Text("가 중복 지정되었습니다.")]);
    }
    if str_eq(k, "compiler.module.duplicate_id") {
        return Some(vec![Piece::Text("모듈 ID "), Piece::Arg("module_id"), Piece::Text("가 여러 파일에 선언되었습니다.")]);
    }
    if str_eq(k, "compiler.symbol.duplicate_id") {
        return Some(vec![Piece::Text("stable ID "), Piece::Arg("symbol_id"), Piece::Text("가 여러 파일에 선언되었습니다.")]);
    }
    if str_eq(k, "semantic.enum.duplicate_variant_id") {
        return Some(vec![Piece::Text("열거형 값 ID "), Piece::Arg("id"), Piece::Text("가 중복 선언되었습니다.")]);
    }
    if str_eq(k, "semantic.field.duplicate_local_id") {
        return Some(vec![Piece::Text("필드 stable ID "), Piece::Arg("id"), Piece::Text("가 중복 선언되었습니다.")]);
    }
    if str_eq(k, "semantic.reference.ambiguous") {
        return Some(vec![Piece::SymbolKind("kind"), Piece::Text(" 참조 "), Piece::Arg("reference"), Piece::Text("가 여러 stable ID("), Piece::Arg("candidates"), Piece::Text(")와 일치합니다.")]);
    }
    if str_eq(k, "semantic.enum.not_found") {
        return Some(vec![Piece::Text("열거형 "), Piece::Arg("reference"), Piece::ObjectMarker("reference"), Piece::Text(" 찾을 수 없습니다.")]);
    }
    if str_eq(k, "semantic.enum.variant_not_found") {
        return Some(vec![Piece::Text("열거형 값 "), Piece::Arg("reference"), Piece::ObjectMarker("reference"), Piece::Text(" 찾을 수 없습니다.")]);
    }
    if str_eq(k, "semantic.creation_branch.decision_input_not_found") {
        if is_event_trigger(d) {
            return Some(vec![Piece::Text("사건 "), Piece::FirstOf("trigger_id", "action_id"), Piece::Text("에서 조건 입력 "), Piece::Arg("reference"), Piece::Text("을 찾을 수 없습니다.")]);
        }
        return Some(vec![Piece::Text("행동 "), Piece::FirstOf("trigger_id", "action_id"), Piece::Text("에서 조건 입력 "), Piece::Arg("reference"), Piece::Text("을 찾을 수 없습니다.")]);
    }
    if str_eq(k, "semantic.creation_branch.decision_input_requires_enum") {
        return Some(vec![Piece::Text("조건부 생성 입력 "), Piece::Arg("input_id"), Piece::Text("은 닫힌 열거형 값이어야 합니다.")]);
    }
    if str_eq(k, "semantic.creation_branch.variant_not_in_decision_enum") {
        return Some(vec![Piece::Text("조건 값 "), Piece::Arg("reference"), Piece::Text("은 입력 "), Piece::Arg("input_id"), Piece::Text("의 열거형 "), Piece::Arg("enum_id"), Piece::Text("에 속하지 않습니다.")]);
    }
    None
}

pub open spec fn templates_4_spec(d: DiagnosticView) -> Option<Seq<Piece>> {
    let k = d.message_key;
    if k == "semantic.creation_branch.legacy_action_incompatible"@ {
        if argument_of(d, "trigger_kind"@) == Some("event"@) {
            Some(seq![Piece::Text("사건 "), Piece::Arg("trigger_id"), Piece::Text("을 조건부 생성 branch의 행동 호환 참조로 함께 지정할 수 없습니다.")])
        } else {
            Some(seq![Piece::Text("조건부 생성 branch의 행동 호환 참조 "), Piece::FirstOf("legacy_action_id", "legacy_action_reference"), Piece::Text("은 트리거 "), Piece::Arg("trigger_id"), Piece::Text("와 같아야 합니다.")])
        }
    } else if k == "semantic.creation_production.mixed_decision_inputs"@ {
        Some(seq![Piece::Text("생산 "), Piece::Arg("production_id"), Piece::Text("은 하나의 조건 입력만 사용해야 하지만 "), Piece::Arg("input_ids"), Piece::Text("을 함께 사용합니다.")])
    } else if k == "semantic.creation_production.variant_conflict"@ {
        Some(seq![Piece::Text("생산 "), Piece::Arg("production_id"), Piece::Text("의 값 "), Piece::Arg("variant_id"), Piece::Text("에 branch "), Piece::Arg("branch_ids"), Piece::Text("가 함께 선언되었습니다.")])
    } else if k == "semantic.creation_production.variant_coverage_missing"@ {
        Some(seq![Piece::Text("생산 "), Piece::Arg("production_id"), Piece::Text("의 조건 입력 "), Piece::Arg("input_id"), Piece::Text("에서 값 "), Piece::Arg("missing_variant_ids"), Piece::Text("가 빠졌습니다.")])
    } else if k == "semantic.creation_production.required_field_producer_missing"@ {
        Some(seq![Piece::Text("생산 "), Piece::Arg("production_id"), Piece::Text("의 필수 field "), Piece::Arg("field_id"), Piece::Text("는 생성 branch "), Piece::Arg("create_branch_ids"), Piece::Text("에서 값을 생산하지 않습니다.")])
    } else if k == "semantic.field_producer.source_input_not_found"@ {
        Some(seq![Piece::Text("생산자 "), Piece::Arg("producer_id"), Piece::Text("의 trigger 입력 "), Piece::Arg("source"), Piece::Text("을 찾을 수 없습니다.")])
    } else if k == "semantic.field_producer.source_trigger_owner_mismatch"@ {
        Some(seq![Piece::Text("생산자 "), Piece::Arg("producer_id"), Piece::Text("의 source는 해당 trigger의 선언 입력이어야 합니다.")])
    } else if k == "semantic.field_producer.type_mismatch"@ {
        if argument_of(d, "source_type"@) is Some {
            Some(seq![Piece::Text("생산자 "), Piece::Arg("producer_id"), Piece::Text("의 source "), Piece::Arg("source"), Piece::Text(" 타입 "), Piece::Arg("source_type"), Piece::Text("은 output field "), Piece::Arg("output_field_id"), Piece::Text("의 "), Piece::Arg("output_type"), Piece::Text(" 타입과 맞지 않습니다.")])
        } else {
            Some(seq![Piece::Text("생산자 "), Piece::Arg("producer_id"), Piece::Text("의 source "), Piece::Arg("source"), Piece::Text("은 output field "), Piece::Arg("output_field_id"), Piece::Text("의 "), Piece::Arg("output_type"), Piece::Text(" 타입 값으로 사용할 수 없습니다.")])
        }
    } else if k == "semantic.creation_production.field_producer_without_creation_decision"@ {
        Some(seq![Piece::Text("생산자 "), Piece::Arg("producer_id"), Piece::Text("은 생산 결정이 없는 trigger/output에 붙을 수 없습니다.")])
    } else if k == "semantic.event_field_producer.conditional_unsupported"@ {
        Some(seq![Piece::Text("Event 생산자 "), Piece::Arg("producer_id"), Piece::Text("은 현재 조건을 가질 수 없습니다.")])
    } else if k == "semantic.event_field_producer.constant_unsupported"@ {
        Some(seq![Piece::Text("Event 생산자 "), Piece::Arg("producer_id"), Piece::Text("은 현재 상수를 source로 사용할 수 없습니다.")])
    } else if k == "semantic.producer.legacy_action_incompatible"@ {
        Some(seq![Piece::Text("생산자 "), Piece::Arg("producer_id"), Piece::Text("의 legacy Action reference는 tagged trigger와 함께 사용할 수 없습니다.")])
    } else if k == "semantic.creation_production.field_producer_conflict"@ {
        Some(seq![Piece::Text("생산 "), Piece::Arg("production_id"), Piece::Text("의 field "), Piece::Arg("field_id"), Piece::Text("에 producer "), Piece::Arg("producer_ids"), Piece::Text("가 함께 선언되었습니다.")])
    } else if k == "semantic.template.dependency_producer_missing"@ {
        Some(seq![Piece::Text("template target "), Piece::Arg("target_field_id"), Piece::Text("가 참조한 output field "), Piece::Arg("dependency_field_id"), Piece::Text("는 생성 branch "), Piece::Arg("create_branch_ids"), Piece::Text("에서 값을 생산하지 않습니다.")])
    } else if k == "semantic.template.dependency_producer_conflict"@ {
        Some(seq![Piece::Text("template target "), Piece::Arg("target_field_id"), Piece::Text("가 참조한 output field "), Piece::Arg("dependency_field_id"), Piece::Text("에 producer "), Piece::Arg("producer_ids"), Piece::Text("가 함께 선언되었습니다.")])
    } else if k == "semantic.template.dependency_cycle"@ {
        Some(seq![Piece::Text("생산 "), Piece::Arg("production_id"), Piece::Text("의 template output field 의존성이 순환합니다: "), Piece::Arg("cycle_field_ids"), Piece::Text(".")])
    } else if k == "semantic.template.placeholder_not_string"@ {
        Some(seq![Piece::Text("template 생산자 "), Piece::Arg("producer_id"), Piece::Text("가 참조한 output field "), Piece::Arg("dependency_field_id"), Piece::Text("의 타입 "), Piece::Arg("dependency_type"), Piece::Text("은 문자열이 아닙니다.")])
    } else if k == "semantic.creation_production.relation_producer_without_creation_decision"@ {
        Some(seq![Piece::Text("관계 생산자 "), Piece::Arg("producer_id"), Piece::Text("은 생산 결정이 없는 trigger/output에 붙을 수 없습니다.")])
    } else if k == "semantic.creation_production.relation_producer_not_exactly_one_slot"@ {
        Some(seq![Piece::Text("관계 생산자 "), Piece::Arg("producer_id"), Piece::Text("의 관계 "), Piece::Arg("relation_id"), Piece::Text("은 ExactlyOne output slot이 아닙니다.")])
    } else if k == "semantic.relation_producer.source_input_invalid"@ {
        Some(seq![Piece::Text("관계 생산자 "), Piece::Arg("producer_id"), Piece::Text("의 trigger 입력 "), Piece::Arg("source"), Piece::Text("을 찾을 수 없습니다.")])
    } else if k == "semantic.relation_producer.source_endpoint_mismatch"@ {
        Some(seq![Piece::Text("관계 생산자 "), Piece::Arg("producer_id"), Piece::Text("의 입력 "), Piece::Arg("input_id"), Piece::Text("은 관계 "), Piece::Arg("relation_id"), Piece::Text("의 endpoint "), Piece::Arg("endpoint_model_id"), Piece::Text("와 맞지 않습니다.")])
    } else if k == "semantic.creation_production.required_relation_producer_missing"@ {
        Some(seq![Piece::Text("생산 "), Piece::Arg("production_id"), Piece::Text("의 관계 slot "), Piece::Arg("relation_id"), Piece::Text("은 생성 branch "), Piece::Arg("create_branch_ids"), Piece::Text("에서 연결되지 않습니다.")])
    } else if k == "semantic.creation_production.relation_producer_conflict"@ {
        Some(seq![Piece::Text("생산 "), Piece::Arg("production_id"), Piece::Text("의 관계 slot "), Piece::Arg("relation_id"), Piece::Text("에 producer "), Piece::Arg("producer_ids"), Piece::Text("가 함께 선언되었습니다.")])
    } else if k == "semantic.field_producer.condition_not_creation_decision_variant"@ {
        Some(seq![Piece::Text("생산자 "), Piece::Arg("producer_id"), Piece::Text("의 조건 "), Piece::Arg("input_id"), Piece::Text("="), Piece::Arg("variant_id"), Piece::Text("은 생산 "), Piece::Arg("production_id"), Piece::Text("의 결정 입력 "), Piece::Arg("decision_input_id"), Piece::Text("의 값이어야 합니다.")])
    } else {
        None
    }
}

fn templates_4(d: &Diagnostic) -> (r: Option<Vec<Piece>>)
    ensures
        match r {
            Some(v) => templates_4_spec(d@) == Some(v@),
            None => templates_4_spec(d@) is None,
        },
{
    let k = d.message_key.as_str();
    if str_eq(k, "semantic.creation_branch.legacy_action_incompatible") {
        if is_event_trigger(d) {
            return Some(vec![Piece::Text("사건 "), Piece::Arg("trigger_id"), Piece::Text("을 조건부 생성 branch의 행동 호환 참조로 함께 지정할 수 없습니다.")]);
        }
        return Some(vec![Piece::Text("조건부 생성 branch의 행동 호환 참조 "), Piece::FirstOf("legacy_action_id", "legacy_action_reference"), Piece::Text("은 트리거 "), Piece::Arg("trigger_id"), Piece::Text("와 같아야 합니다.")]);
    }
    if str_eq(k, "semantic.creation_production.mixed_decision_inputs") {
        return Some(vec![Piece::Text("생산 "), Piece::Arg("production_id"), Piece::Text("은 하나의 조건 입력만 사용해야 하지만 "), Piece::Arg("input_ids"), Piece::Text("을 함께 사용합니다.")]);
    }
    if str_eq(k, "semantic.creation_production.variant_conflict") {
        return Some(vec![Piece::Text("생산 "), Piece::Arg("production_id"), Piece::Text("의 값 "), Piece::Arg("variant_id"), Piece::Text("에 branch "), Piece::Arg("branch_ids"), Piece::Text("가 함께 선언되었습니다.")]);
    }
    if str_eq(k, "semantic.creation_production.variant_coverage_missing") {
        return Some(vec![Piece::Text("생산 "), Piece::Arg("production_id"), Piece::Text("의 조건 입력 "), Piece::Arg("input_id"), Piece::Text("에서 값 "), Piece::Arg("missing_variant_ids"), Piece::Text("가 빠졌습니다.")]);
    }
    if str_eq(k, "semantic.creation_production.required_field_producer_missing") {
        return Some(vec![Piece::Text("생산 "), Piece::Arg("production_id"), Piece::Text("의 필수 field "), Piece::Arg("field_id"), Piece::Text("는 생성 branch "), Piece::Arg("create_branch_ids"), Piece::Text("에서 값을 생산하지 않습니다.")]);
    }
    if str_eq(k, "semantic.field_producer.source_input_not_found") {
        return Some(vec![Piece::Text("생산자 "), Piece::Arg("producer_id"), Piece::Text("의 trigger 입력 "), Piece::Arg("source"), Piece::Text("을 찾을 수 없습니다.")]);
    }
    if str_eq(k, "semantic.field_producer.source_trigger_owner_mismatch") {
        return Some(vec![Piece::Text("생산자 "), Piece::Arg("producer_id"), Piece::Text("의 source는 해당 trigger의 선언 입력이어야 합니다.")]);
    }
    if str_eq(k, "semantic.field_producer.type_mismatch") {
        if d.argument("source_type").is_some() {
            return Some(vec![Piece::Text("생산자 "), Piece::Arg("producer_id"), Piece::Text("의 source "), Piece::Arg("source"), Piece::Text(" 타입 "), Piece::Arg("source_type"), Piece::Text("은 output field "), Piece::Arg("output_field_id"), Piece::Text("의 "), Piece::Arg("output_type"), Piece::Text(" 타입과 맞지 않습니다.")]);
        }
        return Some(vec![Piece::Text("생산자 "), Piece::Arg("producer_id"), Piece::Text("의 source "), Piece::Arg("source"), Piece::Text("은 output field "), Piece::Arg("output_field_id"), Piece::Text("의 "), Piece::Arg("output_type"), Piece::Text(" 타입 값으로 사용할 수 없습니다.")]);
    }
    if str_eq(k, "semantic.creation_production.field_producer_without_creation_decision") {
        return Some(vec![Piece::Text("생산자 "), Piece::Arg("producer_id"), Piece::Text("은 생산 결정이 없는 trigger/output에 붙을 수 없습니다.")]);
    }
    if str_eq(k, "semantic.event_field_producer.conditional_unsupported") {
        return Some(vec![Piece::Text("Event 생산자 "), Piece::Arg("producer_id"), Piece::Text("은 현재 조건을 가질 수 없습니다.")]);
    }
    if str_eq(k, "semantic.event_field_producer.constant_unsupported") {
        return Some(vec![Piece::Text("Event 생산자 "), Piece::Arg("producer_id"), Piece::Text("은 현재 상수를 source로 사용할 수 없습니다.")]);
    }
    if str_eq(k, "semantic.producer.legacy_action_incompatible") {
        return Some(vec![Piece::Text("생산자 "), Piece::Arg("producer_id"), Piece::Text("의 legacy Action reference는 tagged trigger와 함께 사용할 수 없습니다.")]);
    }
    if str_eq(k, "semantic.creation_production.field_producer_conflict") {
        return Some(vec![Piece::Text("생산 "), Piece::Arg("production_id"), Piece::Text("의 field "), Piece::Arg("field_id"), Piece::Text("에 producer "), Piece::Arg("producer_ids"), Piece::Text("가 함께 선언되었습니다.")]);
    }
    if str_eq(k, "semantic.template.dependency_producer_missing") {
        return Some(vec![Piece::Text("template target "), Piece::Arg("target_field_id"), Piece::Text("가 참조한 output field "), Piece::Arg("dependency_field_id"), Piece::Text("는 생성 branch "), Piece::Arg("create_branch_ids"), Piece::Text("에서 값을 생산하지 않습니다.")]);
    }
    if str_eq(k, "semantic.template.dependency_producer_conflict") {
        return Some(vec![Piece::Text("template target "), Piece::Arg("target_field_id"), Piece::Text("가 참조한 output field "), Piece::Arg("dependency_field_id"), Piece::Text("에 producer "), Piece::Arg("producer_ids"), Piece::Text("가 함께 선언되었습니다.")]);
    }
    if str_eq(k, "semantic.template.dependency_cycle") {
        return Some(vec![Piece::Text("생산 "), Piece::Arg("production_id"), Piece::Text("의 template output field 의존성이 순환합니다: "), Piece::Arg("cycle_field_ids"), Piece::Text(".")]);
    }
    if str_eq(k, "semantic.template.placeholder_not_string") {
        return Some(vec![Piece::Text("template 생산자 "), Piece::Arg("producer_id"), Piece::Text("가 참조한 output field "), Piece::Arg("dependency_field_id"), Piece::Text("의 타입 "), Piece::Arg("dependency_type"), Piece::Text("은 문자열이 아닙니다.")]);
    }
    if str_eq(k, "semantic.creation_production.relation_producer_without_creation_decision") {
        return Some(vec![Piece::Text("관계 생산자 "), Piece::Arg("producer_id"), Piece::Text("은 생산 결정이 없는 trigger/output에 붙을 수 없습니다.")]);
    }
    if str_eq(k, "semantic.creation_production.relation_producer_not_exactly_one_slot") {
        return Some(vec![Piece::Text("관계 생산자 "), Piece::Arg("producer_id"), Piece::Text("의 관계 "), Piece::Arg("relation_id"), Piece::Text("은 ExactlyOne output slot이 아닙니다.")]);
    }
    if str_eq(k, "semantic.relation_producer.source_input_invalid") {
        return Some(vec![Piece::Text("관계 생산자 "), Piece::Arg("producer_id"), Piece::Text("의 trigger 입력 "), Piece::Arg("source"), Piece::Text("을 찾을 수 없습니다.")]);
    }
    if str_eq(k, "semantic.relation_producer.source_endpoint_mismatch") {
        return Some(vec![Piece::Text("관계 생산자 "), Piece::Arg("producer_id"), Piece::Text("의 입력 "), Piece::Arg("input_id"), Piece::Text("은 관계 "), Piece::Arg("relation_id"), Piece::Text("의 endpoint "), Piece::Arg("endpoint_model_id"), Piece::Text("와 맞지 않습니다.")]);
    }
    if str_eq(k, "semantic.creation_production.required_relation_producer_missing") {
        return Some(vec![Piece::Text("생산 "), Piece::Arg("production_id"), Piece::Text("의 관계 slot "), Piece::Arg("relation_id"), Piece::Text("은 생성 branch "), Piece::Arg("create_branch_ids"), Piece::Text("에서 연결되지 않습니다.")]);
    }
    if str_eq(k, "semantic.creation_production.relation_producer_conflict") {
        return Some(vec![Piece::Text("생산 "), Piece::Arg("production_id"), Piece::Text("의 관계 slot "), Piece::Arg("relation_id"), Piece::Text("에 producer "), Piece::Arg("producer_ids"), Piece::Text("가 함께 선언되었습니다.")]);
    }
    if str_eq(k, "semantic.field_producer.condition_not_creation_decision_variant") {
        return Some(vec![Piece::Text("생산자 "), Piece::Arg("producer_id"), Piece::Text("의 조건 "), Piece::Arg("input_id"), Piece::Text("="), Piece::Arg("variant_id"), Piece::Text("은 생산 "), Piece::Arg("production_id"), Piece::Text("의 결정 입력 "), Piece::Arg("decision_input_id"), Piece::Text("의 값이어야 합니다.")]);
    }
    None
}

pub open spec fn templates_5_spec(d: DiagnosticView) -> Option<Seq<Piece>> {
    let k = d.message_key;
    if k == "semantic.constraint.operand_type_mismatch"@ {
        Some(seq![Piece::Text("제약의 양쪽 operand 타입이 다릅니다.")])
    } else if k == "semantic.constraint.order_requires_ordered_type"@ {
        Some(seq![Piece::Text("대소 비교는 정수, 소수, 날짜, 시간, 날짜시간, 기간, 위도 또는 경도에만 사용할 수 있습니다.")])
    } else if k == "semantic.relation.arity_unsupported"@ {
        Some(seq![Piece::Text("관계 parameter는 "), Piece::Arg("supported"), Piece::Text("개만 지원하지만 "), Piece::Arg("actual"), Piece::Text("개가 선언되었습니다.")])
    } else if k == "semantic.relation.not_found"@ {
        Some(seq![Piece::Text("관계 "), Piece::Arg("reference"), Piece::ObjectMarker("reference"), Piece::Text(" 찾을 수 없습니다.")])
    } else if k == "semantic.relation.cardinality_requires_binary"@ {
        Some(seq![Piece::Text("필수/유일 cardinality는 이항 관계에만 사용할 수 있습니다: "), Piece::Arg("relation_id"), Piece::Text(".")])
    } else if k == "semantic.relation.cardinality_anchor_mismatch"@ {
        Some(seq![Piece::Text("관계 "), Piece::Arg("relation_id"), Piece::Text("의 기준 개체는 "), Piece::Arg("expected_model_id"), Piece::Text("인데 규칙에는 "), Piece::Arg("actual_model_id"), Piece::SubjectMarker("actual_model_id"), Piece::Text(" 사용되었습니다.")])
    } else if k == "semantic.model.field_required"@ {
        Some(seq![Piece::Text("데이터 모델은 하나 이상의 필드를 선언해야 합니다.")])
    } else if k == "semantic.relation.group_requires_distinct_members"@ {
        Some(seq![Piece::Text("관계 그룹에는 서로 다른 관계가 둘 이상 필요합니다.")])
    } else if k == "semantic.relation.group_signature_mismatch"@ {
        Some(seq![Piece::Text("같은 그룹의 관계는 parameter 모델과 순서가 같아야 합니다.")])
    } else if k == "semantic.relation.compatibility_conflict"@ {
        Some(seq![Piece::Text("같은 관계 그룹 "), Piece::Arg("relation_ids"), Piece::ObjectMarker("relation_ids"), Piece::Text(" 배타적이면서 공존 가능하다고 선언할 수 없습니다.")])
    } else if k == "semantic.screen.id_name_conflict"@ {
        Some(seq![Piece::Text("화면 ID "), Piece::Arg("screen_id"), Piece::Text("가 "), Piece::Arg("existing_name"), Piece::Text("와 "), Piece::Arg("new_name"), Piece::Text(" 두 이름으로 사용되었습니다.")])
    } else if k == "semantic.screen.duplicate_operation"@ {
        Some(seq![Piece::Text("화면 "), Piece::Arg("screen_id"), Piece::Text("의 데이터 동작이 중복 선언되었습니다.")])
    } else if k == "semantic.action_data_mutation.duplicate"@ {
        Some(seq![Piece::Text("행동 "), Piece::Arg("action_id"), Piece::Text("의 데이터 모델 "), Piece::Arg("model_id"), Piece::Text("에 대한 "), Piece::Arg("mutation"), Piece::Text(" 결과가 중복 선언되었습니다.")])
    } else if k == "semantic.action_data_mutation.conflict"@ {
        Some(seq![Piece::Text("행동 "), Piece::Arg("action_id"), Piece::Text("은 데이터 모델 "), Piece::Arg("model_id"), Piece::Text("에 서로 양립할 수 없는 결과 "), Piece::Arg("mutations"), Piece::Text("를 동시에 선언할 수 없습니다.")])
    } else if k == "semantic.action_input.duplicate_id"@ {
        Some(seq![Piece::Text("같은 행동에서 입력 stable ID "), Piece::Arg("id"), Piece::Text("가 중복 선언되었습니다.")])
    } else if k == "semantic.derivation.sum_requires_integer"@ {
        Some(seq![Piece::Text("합계의 원본과 결과 필드는 모두 정수여야 합니다.")])
    } else if k == "semantic.derivation.multiple_producers"@ {
        Some(seq![Piece::Text("계산 필드 "), Piece::Arg("field_id"), Piece::Text("은 화면 입력과 계산 결과를 동시에 생산자로 가질 수 없습니다.")])
    } else if k == "semantic.derivation.duplicate_target"@ {
        Some(seq![Piece::Text("필드 "), Piece::Arg("field_id"), Piece::Text("의 계산식이 중복 선언되었습니다.")])
    } else if k == "semantic.derivation.cross_model_scope_unknown"@ {
        Some(seq![Piece::Text("교차 모델 합계의 레코드 선택 관계가 정의되지 않아 계산 범위는 unknown입니다.")])
    } else if k == "semantic.recalculation.exactly_one_required"@ {
        Some(seq![Piece::Text("계산 필드 "), Piece::Arg("field_id"), Piece::Text("은 재계산 시점을 정확히 하나 선언해야 합니다. 현재 "), Piece::Arg("actual"), Piece::Text("개입니다.")])
    } else if k == "semantic.recalculation.source_mismatch"@ {
        Some(seq![Piece::Text("재계산 원본 필드가 다릅니다. 기대 "), Piece::Arg("expected_field_id"), Piece::Text(", 실제 "), Piece::Arg("actual_field_id"), Piece::Text(".")])
    } else if k == "semantic.recalculation.derivation_missing"@ {
        Some(seq![Piece::Text("필드 "), Piece::Arg("field_id"), Piece::Text("의 재계산 조건에 대응하는 계산식이 없습니다.")])
    } else if k == "semantic.field_intent.duplicate"@ {
        Some(seq![Piece::Text("필드 "), Piece::Arg("field_id"), Piece::Text("의 사용 의도가 중복 선언되었습니다.")])
    } else if k == "semantic.field_intent.conflict"@ {
        Some(seq![Piece::Text("필드 "), Piece::Arg("field_id"), Piece::Text("에 내부 관리와 비표시 의도를 함께 선언할 수 없습니다.")])
    } else {
        None
    }
}

fn templates_5(d: &Diagnostic) -> (r: Option<Vec<Piece>>)
    ensures
        match r {
            Some(v) => templates_5_spec(d@) == Some(v@),
            None => templates_5_spec(d@) is None,
        },
{
    let k = d.message_key.as_str();
    if str_eq(k, "semantic.constraint.operand_type_mismatch") {
        return Some(vec![Piece::Text("제약의 양쪽 operand 타입이 다릅니다.")]);
    }
    if str_eq(k, "semantic.constraint.order_requires_ordered_type") {
        return Some(vec![Piece::Text("대소 비교는 정수, 소수, 날짜, 시간, 날짜시간, 기간, 위도 또는 경도에만 사용할 수 있습니다.")]);
    }
    if str_eq(k, "semantic.relation.arity_unsupported") {
        return Some(vec![Piece::Text("관계 parameter는 "), Piece::Arg("supported"), Piece::Text("개만 지원하지만 "), Piece::Arg("actual"), Piece::Text("개가 선언되었습니다.")]);
    }
    if str_eq(k, "semantic.relation.not_found") {
        return Some(vec![Piece::Text("관계 "), Piece::Arg("reference"), Piece::ObjectMarker("reference"), Piece::Text(" 찾을 수 없습니다.")]);
    }
    if str_eq(k, "semantic.relation.cardinality_requires_binary") {
        return Some(vec![Piece::Text("필수/유일 cardinality는 이항 관계에만 사용할 수 있습니다: "), Piece::Arg("relation_id"), Piece::Text(".")]);
    }
    if str_eq(k, "semantic.relation.cardinality_anchor_mismatch") {
        return Some(vec![Piece::Text("관계 "), Piece::Arg("relation_id"), Piece::Text("의 기준 개체는 "), Piece::Arg("expected_model_id"), Piece::Text("인데 규칙에는 "), Piece::Arg("actual_model_id"), Piece::SubjectMarker("actual_model_id"), Piece::Text(" 사용되었습니다.")]);
    }
    if str_eq(k, "semantic.model.field_required") {
        return Some(vec![Piece::Text("데이터 모델은 하나 이상의 필드를 선언해야 합니다.")]);
    }
    if str_eq(k, "semantic.relation.group_requires_distinct_members") {
        return Some(vec![Piece::Text("관계 그룹에는 서로 다른 관계가 둘 이상 필요합니다.")]);
    }
    if str_eq(k, "semantic.relation.group_signature_mismatch") {
        return Some(vec![Piece::Text("같은 그룹의 관계는 parameter 모델과 순서가 같아야 합니다.")]);
    }
    if str_eq(k, "semantic.relation.compatibility_conflict") {
        return Some(vec![Piece::Text("같은 관계 그룹 "), Piece::Arg("relation_ids"), Piece::ObjectMarker("relation_ids"), Piece::Text(" 배타적이면서 공존 가능하다고 선언할 수 없습니다.")]);
    }
    if str_eq(k, "semantic.screen.id_name_conflict") {
        return Some(vec![Piece::Text("화면 ID "), Piece::Arg("screen_id"), Piece::Text("가 "), Piece::Arg("existing_name"), Piece::Text("와 "), Piece::Arg("new_name"), Piece::Text(" 두 이름으로 사용되었습니다.")]);
    }
    if str_eq(k, "semantic.screen.duplicate_operation") {
        return Some(vec![Piece::Text("화면 "), Piece::Arg("screen_id"), Piece::Text("의 데이터 동작이 중복 선언되었습니다.")]);
    }
    if str_eq(k, "semantic.action_data_mutation.duplicate") {
        return Some(vec![Piece::Text("행동 "), Piece::Arg("action_id"), Piece::Text("의 데이터 모델 "), Piece::Arg("model_id"), Piece::Text("에 대한 "), Piece::Arg("mutation"), Piece::Text(" 결과가 중복 선언되었습니다.")]);
    }
    if str_eq(k, "semantic.action_data_mutation.conflict") {
        return Some(vec![Piece::Text("행동 "), Piece::Arg("action_id"), Piece::Text("은 데이터 모델 "), Piece::Arg("model_id"), Piece::Text("에 서로 양립할 수 없는 결과 "), Piece::Arg("mutations"), Piece::Text("를 동시에 선언할 수 없습니다.")]);
    }
    if str_eq(k, "semantic.action_input.duplicate_id") {
        return Some(vec![Piece::Text("같은 행동에서 입력 stable ID "), Piece::Arg("id"), Piece::Text("가 중복 선언되었습니다.")]);
    }
    if str_eq(k, "semantic.derivation.sum_requires_integer") {
        return Some(vec![Piece::Text("합계의 원본과 결과 필드는 모두 정수여야 합니다.")]);
    }
    if str_eq(k, "semantic.derivation.multiple_producers") {
        return Some(vec![Piece::Text("계산 필드 "), Piece::Arg("field_id"), Piece::Text("은 화면 입력과 계산 결과를 동시에 생산자로 가질 수 없습니다.")]);
    }
    if str_eq(k, "semantic.derivation.duplicate_target") {
        return Some(vec![Piece::Text("필드 "), Piece::Arg("field_id"), Piece::Text("의 계산식이 중복 선언되었습니다.")]);
    }
    if str_eq(k, "semantic.derivation.cross_model_scope_unknown") {
        return Some(vec![Piece::Text("교차 모델 합계의 레코드 선택 관계가 정의되지 않아 계산 범위는 unknown입니다.")]);
    }
    if str_eq(k, "semantic.recalculation.exactly_one_required") {
        return Some(vec![Piece::Text("계산 필드 "), Piece::Arg("field_id"), Piece::Text("은 재계산 시점을 정확히 하나 선언해야 합니다. 현재 "), Piece::Arg("actual"), Piece::Text("개입니다.")]);
    }
    if str_eq(k, "semantic.recalculation.source_mismatch") {
        return Some(vec![Piece::Text("재계산 원본 필드가 다릅니다. 기대 "), Piece::Arg("expected_field_id"), Piece::Text(", 실제 "), Piece::Arg("actual_field_id"), Piece::Text(".")]);
    }
    if str_eq(k, "semantic.recalculation.derivation_missing") {
        return Some(vec![Piece::Text("필드 "), Piece::Arg("field_id"), Piece::Text("의 재계산 조건에 대응하는 계산식이 없습니다.")]);
    }
    if str_eq(k, "semantic.field_intent.duplicate") {
        return Some(vec![Piece::Text("필드 "), Piece::Arg("field_id"), Piece::Text("의 사용 의도가 중복 선언되었습니다.")]);
    }
    if str_eq(k, "semantic.field_intent.conflict") {
        return Some(vec![Piece::Text("필드 "), Piece::Arg("field_id"), Piece::Text("에 내부 관리와 비표시 의도를 함께 선언할 수 없습니다.")]);
    }
    None
}

pub open spec fn templates_6_spec(d: DiagnosticView) -> Option<Seq<Piece>> {
    let k = d.message_key;
    if k == "semantic.lifecycle.field_producer_missing"@ {
        Some(seq![Piece::Text("필드 "), Piece::Arg("field_id"), Piece::ObjectMarker("field_id"), Piece::Text(" 만드는 화면 입력 또는 계산이 없습니다.")])
    } else if k == "semantic.lifecycle.model_creator_missing"@ {
        Some(seq![Piece::Text("데이터 모델 "), Piece::Arg("model_id"), Piece::ObjectMarker("model_id"), Piece::Text(" 생성하는 화면 또는 행동 결과가 없습니다.")])
    } else if k == "semantic.lifecycle.produced_field_unread"@ {
        Some(seq![Piece::Text("필드 "), Piece::Arg("field_id"), Piece::Text("은 만들어지지만 어떤 화면에서도 조회되지 않습니다.")])
    } else if k == "semantic.literal.type_undetermined"@ {
        Some(seq![Piece::Text("literal 타입을 결정할 수 없습니다.")])
    } else if k == "semantic.literal.type_mismatch"@ {
        Some(seq![Piece::Text("literal이 필드 타입 "), Piece::Arg("expected_type"), Piece::Text("과 맞지 않습니다.")])
    } else if k == "semantic.model.not_found"@ {
        Some(seq![Piece::Text("데이터 모델 "), Piece::Arg("reference"), Piece::ObjectMarker("reference"), Piece::Text(" 찾을 수 없습니다.")])
    } else if k == "semantic.field.not_found"@ {
        Some(seq![Piece::Text("데이터 모델 "), Piece::Arg("model_id"), Piece::Text("에서 필드 "), Piece::Arg("reference"), Piece::ObjectMarker("reference"), Piece::Text(" 찾을 수 없습니다.")])
    } else if k == "semantic.symbol.not_found"@ {
        Some(seq![Piece::SymbolKind("kind"), Piece::Text(" "), Piece::Arg("reference"), Piece::ObjectMarker("reference"), Piece::Text(" 찾을 수 없습니다.")])
    } else if k == "semantic.declaration.stable_id_required"@ {
        Some(seq![Piece::Text("선언에 stable ID가 필요합니다.")])
    } else if k == "semantic.declaration.duplicate_id"@ {
        Some(seq![Piece::Text("stable ID "), Piece::Arg("id"), Piece::Text("가 중복 선언되었습니다.")])
    } else if k == "semantic.declaration.duplicate_name"@ {
        Some(seq![Piece::SymbolKind("kind"), Piece::Text(" 표시 이름 "), Piece::Arg("name"), Piece::Text("이 중복 선언되었습니다.")])
    } else if k == "model.invalid_canonical_id"@ {
        Some(seq![Piece::Arg("value"), Piece::Text("은 canonical machine ID가 아닙니다.")])
    } else if k == "model.empty_enum"@ {
        Some(seq![Piece::Text("열거형 "), Piece::Arg("type_id"), Piece::Text("에는 값이 하나 이상 필요합니다.")])
    } else if k == "model.duplicate_enum_variant"@ {
        Some(seq![Piece::Text("열거형 "), Piece::Arg("type_id"), Piece::Text("에 값 "), Piece::Arg("variant"), Piece::Text("이 중복되었습니다.")])
    } else if k == "model.unknown_enum_variant"@ {
        Some(seq![Piece::Arg("variant"), Piece::Text("은 열거형 "), Piece::Arg("type_id"), Piece::Text("의 값이 아닙니다.")])
    } else if k == "model.invalid_integer"@ {
        Some(seq![Piece::Arg("value"), Piece::Text("은 canonical base-10 정수가 아닙니다.")])
    } else if k == "model.invalid_decimal"@ {
        Some(seq![Piece::Arg("value"), Piece::Text("은 올바른 소수가 아닙니다.")])
    } else if k == "model.invalid_date"@ {
        Some(seq![Piece::Arg("value"), Piece::Text("은 올바른 날짜가 아닙니다.")])
    } else if k == "model.invalid_time"@ {
        Some(seq![Piece::Arg("value"), Piece::Text("은 올바른 시간이 아닙니다.")])
    } else if k == "model.invalid_date_time"@ {
        Some(seq![Piece::Arg("value"), Piece::Text("은 올바른 RFC 3339 날짜시간이 아닙니다.")])
    } else if k == "model.invalid_duration"@ {
        Some(seq![Piece::Arg("value"), Piece::Text("은 올바른 고정 기간이 아닙니다.")])
    } else if k == "model.invalid_latitude"@ {
        Some(seq![Piece::Text("위도 "), Piece::Arg("value"), Piece::Text("은 -90 이상 90 이하여야 합니다.")])
    } else if k == "model.invalid_longitude"@ {
        Some(seq![Piece::Text("경도 "), Piece::Arg("value"), Piece::Text("은 -180 이상 180 이하여야 합니다.")])
    } else if k == "model.unsupported_operation"@ {
        Some(seq![Piece::Text("타입 "), Piece::Arg("value_type"), Piece::Text("에는 "), Piece::Arg("operation"), Piece::Text(" 연산을 사용할 수 없습니다.")])
    } else {
        None
    }
}

fn templates_6(d: &Diagnostic) -> (r: Option<Vec<Piece>>)
    ensures
        match r {
            Some(v) => templates_6_spec(d@) == Some(v@),
            None => templates_6_spec(d@) is None,
        },
{
    let k = d.message_key.as_str();
    if str_eq(k, "semantic.lifecycle.field_producer_missing") {
        return Some(vec![Piece::Text("필드 "), Piece::Arg("field_id"), Piece::ObjectMarker("field_id"), Piece::Text(" 만드는 화면 입력 또는 계산이 없습니다.")]);
    }
    if str_eq(k, "semantic.lifecycle.model_creator_missing") {
        return Some(vec![Piece::Text("데이터 모델 "), Piece::Arg("model_id"), Piece::ObjectMarker("model_id"), Piece::Text(" 생성하는 화면 또는 행동 결과가 없습니다.")]);
    }
    if str_eq(k, "semantic.lifecycle.produced_field_unread") {
        return Some(vec![Piece::Text("필드 "), Piece::Arg("field_id"), Piece::Text("은 만들어지지만 어떤 화면에서도 조회되지 않습니다.")]);
    }
    if str_eq(k, "semantic.literal.type_undetermined") {
        return Some(vec![Piece::Text("literal 타입을 결정할 수 없습니다.")]);
    }
    if str_eq(k, "semantic.literal.type_mismatch") {
        return Some(vec![Piece::Text("literal이 필드 타입 "), Piece::Arg("expected_type"), Piece::Text("과 맞지 않습니다.")]);
    }
    if str_eq(k, "semantic.model.not_found") {
        return Some(vec![Piece::Text("데이터 모델 "), Piece::Arg("reference"), Piece::ObjectMarker("reference"), Piece::Text(" 찾을 수 없습니다.")]);
    }
    if str_eq(k, "semantic.field.not_found") {
        return Some(vec![Piece::Text("데이터 모델 "), Piece::Arg("model_id"), Piece::Text("에서 필드 "), Piece::Arg("reference"), Piece::ObjectMarker("reference"), Piece::Text(" 찾을 수 없습니다.")]);
    }
    if str_eq(k, "semantic.symbol.not_found") {
        return Some(vec![Piece::SymbolKind("kind"), Piece::Text(" "), Piece::Arg("reference"), Piece::ObjectMarker("reference"), Piece::Text(" 찾을 수 없습니다.")]);
    }
    if str_eq(k, "semantic.declaration.stable_id_required") {
        return Some(vec![Piece::Text("선언에 stable ID가 필요합니다.")]);
    }
    if str_eq(k, "semantic.declaration.duplicate_id") {
        return Some(vec![Piece::Text("stable ID "), Piece::Arg("id"), Piece::Text("가 중복 선언되었습니다.")]);
    }
    if str_eq(k, "semantic.declaration.duplicate_name") {
        return Some(vec![Piece::SymbolKind("kind"), Piece::Text(" 표시 이름 "), Piece::Arg("name"), Piece::Text("이 중복 선언되었습니다.")]);
    }
    if str_eq(k, "model.invalid_canonical_id") {
        return Some(vec![Piece::Arg("value"), Piece::Text("은 canonical machine ID가 아닙니다.")]);
    }
    if str_eq(k, "model.empty_enum") {
        return Some(vec![Piece::Text("열거형 "), Piece::Arg("type_id"), Piece::Text("에는 값이 하나 이상 필요합니다.")]);
    }
    if str_eq(k, "model.duplicate_enum_variant") {
        return Some(vec![Piece::Text("열거형 "), Piece::Arg("type_id"), Piece::Text("에 값 "), Piece::Arg("variant"), Piece::Text("이 중복되었습니다.")]);
    }
    if str_eq(k, "model.unknown_enum_variant") {
        return Some(vec![Piece::Arg("variant"), Piece::Text("은 열거형 "), Piece::Arg("type_id"), Piece::Text("의 값이 아닙니다.")]);
    }
    if str_eq(k, "model.invalid_integer") {
        return Some(vec![Piece::Arg("value"), Piece::Text("은 canonical base-10 정수가 아닙니다.")]);
    }
    if str_eq(k, "model.invalid_decimal") {
        return Some(vec![Piece::Arg("value"), Piece::Text("은 올바른 소수가 아닙니다.")]);
    }
    if str_eq(k, "model.invalid_date") {
        return Some(vec![Piece::Arg("value"), Piece::Text("은 올바른 날짜가 아닙니다.")]);
    }
    if str_eq(k, "model.invalid_time") {
        return Some(vec![Piece::Arg("value"), Piece::Text("은 올바른 시간이 아닙니다.")]);
    }
    if str_eq(k, "model.invalid_date_time") {
        return Some(vec![Piece::Arg("value"), Piece::Text("은 올바른 RFC 3339 날짜시간이 아닙니다.")]);
    }
    if str_eq(k, "model.invalid_duration") {
        return Some(vec![Piece::Arg("value"), Piece::Text("은 올바른 고정 기간이 아닙니다.")]);
    }
    if str_eq(k, "model.invalid_latitude") {
        return Some(vec![Piece::Text("위도 "), Piece::Arg("value"), Piece::Text("은 -90 이상 90 이하여야 합니다.")]);
    }
    if str_eq(k, "model.invalid_longitude") {
        return Some(vec![Piece::Text("경도 "), Piece::Arg("value"), Piece::Text("은 -180 이상 180 이하여야 합니다.")]);
    }
    if str_eq(k, "model.unsupported_operation") {
        return Some(vec![Piece::Text("타입 "), Piece::Arg("value_type"), Piece::Text("에는 "), Piece::Arg("operation"), Piece::Text(" 연산을 사용할 수 없습니다.")]);
    }
    None
}

/// The wording of the message key of `d`, or `None` for a key without one.
pub open spec fn template_spec(d: DiagnosticView) -> Option<Seq<Piece>> {
    if templates_0_spec(d) is Some {
        templates_0_spec(d)
    } else if templates_1_spec(d) is Some {
        templates_1_spec(d)
    } else if templates_2_spec(d) is Some {
        templates_2_spec(d)
    } else if templates_3_spec(d) is Some {
        templates_3_spec(d)
    } else if templates_4_spec(d) is Some {
        templates_4_spec(d)
    } else if templates_5_spec(d) is Some {
        templates_5_spec(d)
    } else if templates_6_spec(d) is Some {
        templates_6_spec(d)
    } else {
        None
    }
}

fn template(d: &Diagnostic) -> (r: Option<Vec<Piece>>)
    ensures
        match r {
            Some(v) => template_spec(d@) == Some(v@),
            None => template_spec(d@) is None,
        },
{
    let t = templates_0(d);
    if t.is_some() {
        return t;
    }
    let t = templates_1(d);
    if t.is_some() {
        return t;
    }
    let t = templates_2(d);
    if t.is_some() {
        return t;
    }
    let t = templates_3(d);
    if t.is_some() {
        return t;
    }
    let t = templates_4(d);
    if t.is_some() {
        return t;
    }
    let t = templates_5(d);
    if t.is_some() {
        return t;
    }
    let t = templates_6(d);
    if t.is_some() {
        return t;
    }
    None
}

proof fn lemma_fill_reads_arguments(ps: Seq<Piece>, d1: DiagnosticView, d2: DiagnosticView)
    requires
        d1.arguments == d2.arguments,
    ensures
        fill_spec(ps, d1) == fill_spec(ps, d2),
    decreases ps.len(),
{
    if ps.len() > 0 {
        lemma_fill_reads_arguments(ps.drop_last(), d1, d2);
        assert(piece_text(ps.last(), d1) == piece_text(ps.last(), d2));
    }
}

/// A message is made from the diagnostic's key and arguments alone: two diagnostics that agree
/// on them read the same, whatever their rule ids, severities and spans.
pub proof fn rendering_reads_key_and_arguments(d1: DiagnosticView, d2: DiagnosticView)
    requires
        d1.message_key == d2.message_key,
        d1.arguments == d2.arguments,
    ensures
        render_spec(d1) == render_spec(d2),
{
    assert(templates_0_spec(d1) == templates_0_spec(d2));
    assert(templates_1_spec(d1) == templates_1_spec(d2));
    assert(templates_2_spec(d1) == templates_2_spec(d2));
    assert(templates_3_spec(d1) == templates_3_spec(d2));
    assert(templates_4_spec(d1) == templates_4_spec(d2));
    assert(templates_5_spec(d1) == templates_5_spec(d2));
    assert(templates_6_spec(d1) == templates_6_spec(d2));
    assert(template_spec(d1) == template_spec(d2));
    match template_spec(d1) {
        Some(t) => lemma_fill_reads_arguments(t, d1, d2),
        None => {},
    }
}

} // verus!
