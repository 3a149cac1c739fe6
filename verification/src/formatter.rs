//! The canonical Korean text of a document: the frontmatter block written back in the shape
//! the reader accepts, then the module line and one sentence or block per declaration.
use vstd::prelude::*;
use vstd::string::StringExecFns;

use crate::ast::{
    layout_view, layouts_view, lemma_layouts_view, refs_view, CategoryAst,
    ConstraintExpressionAst, DeclarationAst, DocumentAst, FrontmatterAst, FrontmatterRefAst,
    LayoutElementAst, LayoutView, LiteralAst, ModuleAst, NamedIdAst, OperandAst, RefView,
    RelationOperatorAst, ScreenLayoutAst, ScreenLayoutKindAst, ScreenPathAst, TypeReferenceAst,
};
use crate::json::{encode_json_string, json_quoted};
use crate::render::is_hangul_syllable;
use crate::sentence::{declaration_spec, write_declaration};
use crate::text::{chars_of, is_space, is_whitespace, push_char};

verus! {

/// Why a document has no Korean text.
#[derive(Clone, Debug, PartialEq, Eq)]
pub struct FormatError {
    message: String,
}

impl View for FormatError {
    type V = Seq<char>;

    closed spec fn view(&self) -> Seq<char> {
        self.message@
    }
}

impl FormatError {
    pub(crate) fn unsupported_constraint(message: String) -> (e: FormatError)
        ensures
            e@ == message@,
    {
        FormatError { message }
    }

    /// The reason, as a sentence.
    pub fn message(&self) -> (m: &str)
        ensures
            m@ == self@,
    {
        self.message.as_str()
    }
}

fn text_of(s: &str) -> (r: String)
    ensures
        r@ == s@,
{
    String::from_str(s)
}

/// `char::is_control`: the C0 and C1 control characters.
pub open spec fn is_control(c: char) -> bool {
    (c as u32) <= 0x1f || (0x7f <= (c as u32) && (c as u32) <= 0x9f)
}

fn control(c: char) -> (b: bool)
    ensures
        b == is_control(c),
{
    let v = c as u32;
    v <= 0x1f || (0x7f <= v && v <= 0x9f)
}

/// A character that a bare name cannot hold in a sentence.
pub open spec fn breaks_surface(c: char) -> bool {
    is_control(c) || c == '`' || c == '[' || c == ']' || c == '(' || c == ')' || c == ':' || c
        == '.' || c == '#'
}

/// A name as a sentence writes it: bare, or in backticks when it holds a character that
/// would end it.
pub open spec fn surface_spec(v: Seq<char>) -> Seq<char> {
    if (forall|i: int| 0 <= i < v.len() ==> !breaks_surface(#[trigger] v[i])) {
        v
    } else {
        seq!['`'] + v + seq!['`']
    }
}

pub fn surface(value: &str) -> (r: String)
    ensures
        r@ == surface_spec(value@),
{
    let chars = chars_of(value);
    let mut plain = true;
    let mut i: usize = 0;
    while i < chars.len()
        invariant
            chars@ == value@,
            i <= chars@.len(),
            plain == (forall|k: int| 0 <= k < i ==> !breaks_surface(#[trigger] chars@[k])),
        decreases chars@.len() - i,
    {
        let c = chars[i];
        if control(c) || c == '`' || c == '[' || c == ']' || c == '(' || c == ')' || c == ':' || c
            == '.' || c == '#' {
            plain = false;
        }
        i = i + 1;
    }
    if plain {
        text_of(value)
    } else {
        let mut r = String::new();
        push_char(&mut r, '`');
        r.append(value);
        push_char(&mut r, '`');
        proof {
            assert(r@ =~= seq!['`'] + value@ + seq!['`']);
        }
        r
    }
}

/// The text ends in a Hangul syllable with a final consonant.
pub open spec fn has_final_consonant_spec(v: Seq<char>) -> bool {
    v.len() > 0 && is_hangul_syllable(v.last()) && (v.last() as int - 0xAC00) % 28 != 0
}

fn last_char(value: &str) -> (r: Option<char>)
    ensures
        match r {
            Some(c) => value@.len() > 0 && c == value@.last(),
            None => value@.len() == 0,
        },
{
    let chars = chars_of(value);
    if chars.len() == 0 {
        None
    } else {
        Some(chars[chars.len() - 1])
    }
}

pub fn has_final_consonant(value: &str) -> (b: bool)
    ensures
        b == has_final_consonant_spec(value@),
{
    match last_char(value) {
        Some(c) => {
            if '가' <= c && c <= '힣' {
                let code: u32 = c as u32;
                (code - 0xAC00u32) % 28 != 0
            } else {
                false
            }
        },
        None => false,
    }
}

/// The name followed by the particle that fits its last syllable.
pub open spec fn marked_spec(v: Seq<char>, consonant: Seq<char>, vowel: Seq<char>) -> Seq<char> {
    surface_spec(v) + if has_final_consonant_spec(v) {
        consonant
    } else {
        vowel
    }
}

pub fn marked(value: &str, consonant: &str, vowel: &str) -> (r: String)
    ensures
        r@ == marked_spec(value@, consonant@, vowel@),
{
    let mut r = surface(value);
    if has_final_consonant(value) {
        r.append(consonant);
    } else {
        r.append(vowel);
    }
    r
}

/// 으로 after a final consonant other than ㄹ, 로 otherwise.
pub open spec fn directional_marker_spec(v: Seq<char>) -> Seq<char> {
    if v.len() > 0 && is_hangul_syllable(v.last()) {
        let f = (v.last() as int - 0xAC00) % 28;
        if f == 0 || f == 8 {
            "로"@
        } else {
            "으로"@
        }
    } else {
        "로"@
    }
}

pub fn directional_marker(value: &str) -> (r: &'static str)
    ensures
        r@ == directional_marker_spec(value@),
{
    match last_char(value) {
        Some(c) => {
            if '가' <= c && c <= '힣' {
                let code: u32 = c as u32;
                let f = (code - 0xAC00u32) % 28;
                if f == 0 || f == 8 {
                    "로"
                } else {
                    "으로"
                }
            } else {
                "로"
            }
        },
        None => "로",
    }
}

/// A first character that a bare frontmatter scalar cannot start with.
pub open spec fn is_indicator(c: char) -> bool {
    c == '&' || c == '*' || c == '!' || c == '|' || c == '>' || c == '\'' || c == '[' || c == '{'
        || c == '"' || c == '#' || c == '-' || c == '?'
}

/// The text would read back as something else when written bare.
pub open spec fn needs_quotes_spec(t: Seq<char>) -> bool {
    ||| t.len() == 0
    ||| is_space(t[0])
    ||| is_space(t.last())
    ||| (exists|i: int| 0 <= i < t.len() && is_control(#[trigger] t[i]))
    ||| is_indicator(t[0])
    ||| (exists|i: int| 0 <= i < t.len() && (#[trigger] t[i] == ':' || t[i] == ',' || t[i] == '#'))
}

pub fn needs_quotes(text: &str) -> (b: bool)
    ensures
        b == needs_quotes_spec(text@),
{
    let chars = chars_of(text);
    let n = chars.len();
    if n == 0 {
        return true;
    }
    if is_whitespace(chars[0]) || is_whitespace(chars[n - 1]) {
        return true;
    }
    let first = chars[0];
    if first == '&' || first == '*' || first == '!' || first == '|' || first == '>' || first
        == '\'' || first == '[' || first == '{' || first == '"' || first == '#' || first == '-'
        || first == '?' {
        return true;
    }
    let mut i: usize = 0;
    while i < n
        invariant
            chars@ == text@,
            n == chars@.len(),
            i <= n,
            forall|k: int| 0 <= k < i ==> !is_control(#[trigger] chars@[k]),
            forall|k: int|
                0 <= k < i ==> !(#[trigger] chars@[k] == ':' || chars@[k] == ',' || chars@[k]
                    == '#'),
        decreases n - i,
    {
        let c = chars[i];
        if control(c) || c == ':' || c == ',' || c == '#' {
            return true;
        }
        i = i + 1;
    }
    false
}

/// A frontmatter scalar: bare when that reads back, else a JSON string.
pub open spec fn scalar_spec(t: Seq<char>) -> Seq<char> {
    if needs_quotes_spec(t) {
        json_quoted(t)
    } else {
        t
    }
}

/// Writes a frontmatter scalar. The frontmatter reader gives back exactly `text` from what is
/// written, quoted where it had to be quoted.
pub fn scalar(text: &str) -> (r: String)
    ensures
        r@ == scalar_spec(text@),
        crate::frontmatter::scalar_text(r@, 0, r@.len() as int) == (text@, needs_quotes_spec(text@)),
{
    if needs_quotes(text) {
        let r = encode_json_string(text);
        proof {
            assert(r@.subrange(0, r@.len() as int) =~= r@);
        }
        r
    } else {
        let r = text_of(text);
        proof {
            assert(r@.subrange(0, r@.len() as int) =~= r@);
            assert(r@.len() > 0 && !is_indicator(r@[0]));
        }
        r
    }
}

/// `pad` followed by `more`: the indentation one level deeper.
fn deeper(pad: &str, more: &str) -> (r: String)
    ensures
        r@ == pad@ + more@,
{
    let mut r = text_of(pad);
    r.append(more);
    r
}

/// The type as a field declaration writes it.
pub open spec fn type_reference_spec(t: TypeReferenceAst) -> Seq<char>
    decreases t,
{
    match t {
        TypeReferenceAst::String => "문자열"@,
        TypeReferenceAst::Integer => "정수"@,
        TypeReferenceAst::Boolean => "불리언"@,
        TypeReferenceAst::Decimal => "소수"@,
        TypeReferenceAst::Date => "날짜"@,
        TypeReferenceAst::Time => "시간"@,
        TypeReferenceAst::DateTime => "날짜시간"@,
        TypeReferenceAst::Duration => "기간"@,
        TypeReferenceAst::Latitude => "위도"@,
        TypeReferenceAst::Longitude => "경도"@,
        TypeReferenceAst::Percentage => "백분율"@,
        TypeReferenceAst::Coordinate => "좌표"@,
        TypeReferenceAst::LocalDateTime => "지역 날짜시간"@,
        TypeReferenceAst::ZonedDateTime => "시간대 날짜시간"@,
        TypeReferenceAst::CalendarDuration => "달력 기간"@,
        TypeReferenceAst::Uuid => "UUID"@,
        TypeReferenceAst::Email => "이메일"@,
        TypeReferenceAst::Url => "URL"@,
        TypeReferenceAst::PhoneNumber => "전화번호"@,
        TypeReferenceAst::IpAddress => "IP"@,
        TypeReferenceAst::Cidr => "CIDR"@,
        TypeReferenceAst::CountryCode => "국가 코드"@,
        TypeReferenceAst::LanguageCode => "언어 코드"@,
        TypeReferenceAst::CurrencyCode => "통화 코드"@,
        TypeReferenceAst::Money(currency) => "통화("@ + currency@ + ")"@,
        TypeReferenceAst::Quantity(unit) => "수량("@ + unit@ + ")"@,
        TypeReferenceAst::List(element) => "목록("@ + type_reference_spec(*element) + ")"@,
        TypeReferenceAst::SetOf(element) => "집합("@ + type_reference_spec(*element) + ")"@,
        TypeReferenceAst::MapOf(key, value) => "맵("@ + type_reference_spec(*key) + ", "@
            + type_reference_spec(*value) + ")"@,
        TypeReferenceAst::Reference(model) => "참조("@ + surface_spec(model@) + ")"@,
        TypeReferenceAst::Named(value) => surface_spec(value@),
    }
}

fn wrapped(head: &str, inner: String, tail: &str) -> (r: String)
    ensures
        r@ == head@ + inner@ + tail@,
{
    let mut r = text_of(head);
    r.append(inner.as_str());
    r.append(tail);
    r
}

pub fn type_reference(value: &TypeReferenceAst) -> (r: String)
    ensures
        r@ == type_reference_spec(*value),
    decreases value,
{
    match value {
        TypeReferenceAst::String => text_of("문자열"),
        TypeReferenceAst::Integer => text_of("정수"),
        TypeReferenceAst::Boolean => text_of("불리언"),
        TypeReferenceAst::Decimal => text_of("소수"),
        TypeReferenceAst::Date => text_of("날짜"),
        TypeReferenceAst::Time => text_of("시간"),
        TypeReferenceAst::DateTime => text_of("날짜시간"),
        TypeReferenceAst::Duration => text_of("기간"),
        TypeReferenceAst::Latitude => text_of("위도"),
        TypeReferenceAst::Longitude => text_of("경도"),
        TypeReferenceAst::Percentage => text_of("백분율"),
        TypeReferenceAst::Coordinate => text_of("좌표"),
        TypeReferenceAst::LocalDateTime => text_of("지역 날짜시간"),
        TypeReferenceAst::ZonedDateTime => text_of("시간대 날짜시간"),
        TypeReferenceAst::CalendarDuration => text_of("달력 기간"),
        TypeReferenceAst::Uuid => text_of("UUID"),
        TypeReferenceAst::Email => text_of("이메일"),
        TypeReferenceAst::Url => text_of("URL"),
        TypeReferenceAst::PhoneNumber => text_of("전화번호"),
        TypeReferenceAst::IpAddress => text_of("IP"),
        TypeReferenceAst::Cidr => text_of("CIDR"),
        TypeReferenceAst::CountryCode => text_of("국가 코드"),
        TypeReferenceAst::LanguageCode => text_of("언어 코드"),
        TypeReferenceAst::CurrencyCode => text_of("통화 코드"),
        TypeReferenceAst::Money(currency) => wrapped("통화(", text_of(currency.as_str()), ")"),
        TypeReferenceAst::Quantity(unit) => wrapped("수량(", text_of(unit.as_str()), ")"),
        TypeReferenceAst::List(element) => wrapped("목록(", type_reference(element), ")"),
        TypeReferenceAst::SetOf(element) => wrapped("집합(", type_reference(element), ")"),
        TypeReferenceAst::MapOf(key, item) => {
            let mut r = wrapped("맵(", type_reference(key), ", ");
            r.append(type_reference(item).as_str());
            r.append(")");
            r
        },
        TypeReferenceAst::Reference(model) => wrapped("참조(", surface(model.as_str()), ")"),
        TypeReferenceAst::Named(name) => surface(name.as_str()),
    }
}

/// A literal as a sentence writes it.
pub open spec fn literal_text_spec(l: LiteralAst) -> Seq<char> {
    match l {
        LiteralAst::String(v) => json_quoted(v@),
        LiteralAst::Integer(v) => v@,
        LiteralAst::Boolean(b) => if b {
            "참"@
        } else {
            "거짓"@
        },
        LiteralAst::Named(v) => surface_spec(v@),
    }
}

pub fn literal_text(value: &LiteralAst) -> (r: String)
    ensures
        r@ == literal_text_spec(*value),
{
    match value {
        LiteralAst::String(v) => encode_json_string(v.as_str()),
        LiteralAst::Integer(v) => text_of(v.as_str()),
        LiteralAst::Boolean(b) => if *b {
            text_of("참")
        } else {
            text_of("거짓")
        },
        LiteralAst::Named(v) => surface(v.as_str()),
    }
}

/// The parts joined by `, `.
pub open spec fn comma_join(parts: Seq<Seq<char>>) -> Seq<char>
    decreases parts.len(),
{
    if parts.len() == 0 {
        Seq::empty()
    } else if parts.len() == 1 {
        parts[0]
    } else {
        comma_join(parts.drop_last()) + ", "@ + parts.last()
    }
}

pub open spec fn strings_of(v: Seq<String>) -> Seq<Seq<char>> {
    v.map_values(|s: String| s@)
}

pub open spec fn surfaces(v: Seq<Seq<char>>) -> Seq<Seq<char>> {
    v.map_values(|s: Seq<char>| surface_spec(s))
}

/// Names joined by `, `, each written as a sentence writes it.
pub open spec fn reference_list_spec(v: Seq<Seq<char>>) -> Seq<char> {
    comma_join(surfaces(v))
}

/// Names joined by `, `, the last one with its particle.
pub open spec fn marked_list_spec(v: Seq<Seq<char>>, consonant: Seq<char>, vowel: Seq<char>) -> Seq<
    char,
> {
    if v.len() == 0 {
        Seq::empty()
    } else {
        comma_join(surfaces(v.drop_last()).push(marked_spec(v.last(), consonant, vowel)))
    }
}

fn join_parts(parts: &Vec<String>) -> (r: String)
    ensures
        r@ == comma_join(strings_of(parts@)),
{
    let mut r = String::new();
    let mut i: usize = 0;
    proof {
        assert(strings_of(parts@).take(0) =~= Seq::<Seq<char>>::empty());
    }
    while i < parts.len()
        invariant
            i <= parts@.len(),
            r@ == comma_join(strings_of(parts@).take(i as int)),
        decreases parts@.len() - i,
    {
        if i > 0 {
            r.append(", ");
        }
        r.append(parts[i].as_str());
        proof {
            let t = strings_of(parts@).take(i + 1);
            assert(t.drop_last() =~= strings_of(parts@).take(i as int));
            assert(t.last() == parts@[i as int]@);
            if i == 0 {
                assert(comma_join(strings_of(parts@).take(0)) =~= Seq::<char>::empty());
                assert(r@ =~= parts@[0]@);
            }
        }
        i = i + 1;
    }
    proof {
        assert(strings_of(parts@).take(parts@.len() as int) =~= strings_of(parts@));
    }
    r
}

fn surface_all(values: &[String], upto: usize) -> (r: Vec<String>)
    requires
        upto <= values@.len(),
    ensures
        strings_of(r@) == surfaces(strings_of(values@.take(upto as int))),
{
    let mut r: Vec<String> = Vec::new();
    let mut i: usize = 0;
    while i < upto
        invariant
            i <= upto <= values@.len(),
            r@.len() == i,
            forall|k: int| 0 <= k < i ==> #[trigger] r@[k]@ == surface_spec(values@[k]@),
        decreases upto - i,
    {
        r.push(surface(values[i].as_str()));
        i = i + 1;
    }
    proof {
        assert(strings_of(r@) =~= surfaces(strings_of(values@.take(upto as int))));
    }
    r
}

pub fn reference_list(values: &[String]) -> (r: String)
    ensures
        r@ == reference_list_spec(strings_of(values@)),
{
    let parts = surface_all(values, values.len());
    proof {
        assert(values@.take(values@.len() as int) =~= values@);
    }
    join_parts(&parts)
}

fn marked_list(values: &[String], consonant: &str, vowel: &str) -> (r: String)
    ensures
        r@ == marked_list_spec(strings_of(values@), consonant@, vowel@),
{
    let n = values.len();
    if n == 0 {
        proof {
            assert(comma_join(Seq::<Seq<char>>::empty()) =~= Seq::<char>::empty());
        }
        return String::new();
    }
    let mut parts = surface_all(values, n - 1);
    let ghost before = parts@;
    parts.push(marked(values[n - 1].as_str(), consonant, vowel));
    proof {
        assert(strings_of(values@).drop_last() =~= strings_of(values@.take(n - 1)));
        assert(strings_of(parts@) =~= strings_of(before).push(marked_spec(
            strings_of(values@).last(),
            consonant@,
            vowel@,
        )));
    }
    join_parts(&parts)
}

pub fn topic_list(values: &[String]) -> (r: String)
    ensures
        r@ == marked_list_spec(strings_of(values@), "은"@, "는"@),
{
    marked_list(values, "은", "는")
}

pub fn object_list(values: &[String]) -> (r: String)
    ensures
        r@ == marked_list_spec(strings_of(values@), "을"@, "를"@),
{
    marked_list(values, "을", "를")
}

/// How `{:?}` writes a comparison operator.
pub open spec fn operator_debug(op: RelationOperatorAst) -> Seq<char> {
    match op {
        RelationOperatorAst::Equal => "Equal"@,
        RelationOperatorAst::NotEqual => "NotEqual"@,
        RelationOperatorAst::LessThan => "LessThan"@,
        RelationOperatorAst::LessThanOrEqual => "LessThanOrEqual"@,
        RelationOperatorAst::GreaterThan => "GreaterThan"@,
        RelationOperatorAst::GreaterThanOrEqual => "GreaterThanOrEqual"@,
    }
}

fn operator_name(op: RelationOperatorAst) -> (r: &'static str)
    ensures
        r@ == operator_debug(op),
{
    match op {
        RelationOperatorAst::Equal => "Equal",
        RelationOperatorAst::NotEqual => "NotEqual",
        RelationOperatorAst::LessThan => "LessThan",
        RelationOperatorAst::LessThanOrEqual => "LessThanOrEqual",
        RelationOperatorAst::GreaterThan => "GreaterThan",
        RelationOperatorAst::GreaterThanOrEqual => "GreaterThanOrEqual",
    }
}

/// The sentence of a field constraint.
pub open spec fn constraint_spec(e: ConstraintExpressionAst) -> Result<Seq<char>, Seq<char>> {
    let model = surface_spec(e.model@) + "의"@;
    match e.left {
        OperandAst::Field(l) => match e.right {
            OperandAst::Field(r) => match e.operator {
                RelationOperatorAst::Equal => Ok(
                    model + " "@ + marked_spec(l@, "과"@, "와"@) + " "@ + marked_spec(
                        r@,
                        "은"@,
                        "는"@,
                    ) + " "@ + "같아야"@ + " 한다."@,
                ),
                RelationOperatorAst::NotEqual => Ok(
                    model + " "@ + marked_spec(l@, "과"@, "와"@) + " "@ + marked_spec(
                        r@,
                        "은"@,
                        "는"@,
                    ) + " "@ + "달라야"@ + " 한다."@,
                ),
                op => Err(
                    "필드끼리의 `"@ + operator_debug(op)
                        + "` 제약은 Korean v0.1 문법으로 format할 수 없습니다."@,
                ),
            },
            OperandAst::Literal(lit) => {
                let left = marked_spec(l@, "은"@, "는"@);
                let literal = literal_text_spec(lit);
                match e.operator {
                    RelationOperatorAst::GreaterThan => Ok(
                        model + " "@ + left + " "@ + literal + "보다 커야 한다."@,
                    ),
                    RelationOperatorAst::GreaterThanOrEqual => Ok(
                        model + " "@ + left + " "@ + literal + " 이상이어야 한다."@,
                    ),
                    RelationOperatorAst::LessThan => Ok(
                        model + " "@ + left + " "@ + literal + "보다 작아야 한다."@,
                    ),
                    RelationOperatorAst::LessThanOrEqual => Ok(
                        model + " "@ + left + " "@ + literal + " 이하여야 한다."@,
                    ),
                    RelationOperatorAst::Equal => Ok(
                        model + " "@ + left + " "@ + literal + "이어야 한다."@,
                    ),
                    RelationOperatorAst::NotEqual => Ok(
                        model + " "@ + left + " "@ + marked_spec(literal, "과"@, "와"@)
                            + " 달라야 한다."@,
                    ),
                }
            },
        },
        _ => Err("Korean v0.1 문법은 제약의 왼쪽 피연산자로 필드만 지원합니다."@),
    }
}

fn joined3(a: &str, b: &str, c: &str) -> (r: String)
    ensures
        r@ == a@ + " "@ + b@ + " "@ + c@,
{
    let mut r = text_of(a);
    r.append(" ");
    r.append(b);
    r.append(" ");
    r.append(c);
    r
}

pub fn constraint(expression: &ConstraintExpressionAst) -> (r: Result<String, FormatError>)
    ensures
        match r {
            Ok(t) => constraint_spec(*expression) == Ok::<Seq<char>, Seq<char>>(t@),
            Err(e) => constraint_spec(*expression) == Err::<Seq<char>, Seq<char>>(e@),
        },
{
    let mut model = surface(expression.model.as_str());
    model.append("의");
    match &expression.left {
        OperandAst::Field(l) => match &expression.right {
            OperandAst::Field(r) => {
                let word = match expression.operator {
                    RelationOperatorAst::Equal => "같아야",
                    RelationOperatorAst::NotEqual => "달라야",
                    op => {
                        let mut m = text_of("필드끼리의 `");
                        m.append(operator_name(op));
                        m.append("` 제약은 Korean v0.1 문법으로 format할 수 없습니다.");
                        return Err(FormatError::unsupported_constraint(m));
                    },
                };
                let ml = marked(l.as_str(), "과", "와");
                let mr = marked(r.as_str(), "은", "는");
                let mut t = joined3(model.as_str(), ml.as_str(), mr.as_str());
                t.append(" ");
                t.append(word);
                t.append(" 한다.");
                Ok(t)
            },
            OperandAst::Literal(lit) => {
                let left = marked(l.as_str(), "은", "는");
                let literal = literal_text(lit);
                let (middle, tail) = match expression.operator {
                    RelationOperatorAst::GreaterThan => (literal, "보다 커야 한다."),
                    RelationOperatorAst::GreaterThanOrEqual => (literal, " 이상이어야 한다."),
                    RelationOperatorAst::LessThan => (literal, "보다 작아야 한다."),
                    RelationOperatorAst::LessThanOrEqual => (literal, " 이하여야 한다."),
                    RelationOperatorAst::Equal => (literal, "이어야 한다."),
                    RelationOperatorAst::NotEqual => (
                        marked(literal.as_str(), "과", "와"),
                        " 달라야 한다.",
                    ),
                };
                let mut t = joined3(model.as_str(), left.as_str(), middle.as_str());
                t.append(tail);
                Ok(t)
            },
        },
        _ => Err(
            FormatError::unsupported_constraint(
                text_of("Korean v0.1 문법은 제약의 왼쪽 피연산자로 필드만 지원합니다."),
            ),
        ),
    }
}

/// A name that the frontmatter cannot hold bare: `name(id)` there admits no quotes.
pub open spec fn unwritable_name(name: Seq<char>, is_key: bool) -> bool {
    ||| name.len() == 0
    ||| is_space(name[0])
    ||| is_space(name.last())
    ||| (exists|i: int| 0 <= i < name.len() && is_control(#[trigger] name[i]))
    ||| is_indicator(name[0])
    ||| (exists|i: int| 0 <= i < name.len() && #[trigger] name[i] == '#')
    ||| (is_key && exists|i: int| 0 <= i < name.len() && #[trigger] name[i] == ':')
}

/// `name(id)` in the frontmatter.
pub open spec fn named_id_spec(d: NamedIdAst, is_key: bool) -> Result<Seq<char>, Seq<char>> {
    if unwritable_name(d.name@, is_key) {
        Err("머리말에 그대로 적을 수 없는 이름입니다: "@ + d.name@)
    } else {
        Ok(d.name@ + "("@ + d.id@ + ")"@)
    }
}

fn unwritable(name: &str, is_key: bool) -> (b: bool)
    ensures
        b == unwritable_name(name@, is_key),
{
    let chars = chars_of(name);
    let n = chars.len();
    if n == 0 {
        return true;
    }
    if is_whitespace(chars[0]) || is_whitespace(chars[n - 1]) {
        return true;
    }
    let first = chars[0];
    if first == '&' || first == '*' || first == '!' || first == '|' || first == '>' || first
        == '\'' || first == '[' || first == '{' || first == '"' || first == '#' || first == '-'
        || first == '?' {
        return true;
    }
    let mut i: usize = 0;
    while i < n
        invariant
            chars@ == name@,
            n == chars@.len(),
            i <= n,
            forall|k: int| 0 <= k < i ==> !is_control(#[trigger] chars@[k]),
            forall|k: int| 0 <= k < i ==> #[trigger] chars@[k] != '#',
            is_key ==> forall|k: int| 0 <= k < i ==> #[trigger] chars@[k] != ':',
        decreases n - i,
    {
        let c = chars[i];
        if control(c) || c == '#' || (is_key && c == ':') {
            return true;
        }
        i = i + 1;
    }
    false
}

pub fn named_id(declaration: &NamedIdAst, is_key: bool) -> (r: Result<String, FormatError>)
    ensures
        match r {
            Ok(t) => named_id_spec(*declaration, is_key) == Ok::<Seq<char>, Seq<char>>(t@),
            Err(e) => named_id_spec(*declaration, is_key) == Err::<Seq<char>, Seq<char>>(e@),
        },
{
    if unwritable(declaration.name.as_str(), is_key) {
        let mut m = text_of("머리말에 그대로 적을 수 없는 이름입니다: ");
        m.append(declaration.name.as_str());
        return Err(FormatError::unsupported_constraint(m));
    }
    let mut t = text_of(declaration.name.as_str());
    t.append("(");
    t.append(declaration.id.as_str());
    t.append(")");
    Ok(t)
}

/// Frontmatter references joined by `, `, each as a scalar.
pub open spec fn refs_text(rs: Seq<RefView>) -> Seq<char> {
    comma_join(rs.map_values(|r: RefView| scalar_spec(r.text)))
}

fn references(values: &Vec<FrontmatterRefAst>) -> (r: String)
    ensures
        r@ == refs_text(refs_view(values@)),
{
    let mut parts: Vec<String> = Vec::new();
    let mut i: usize = 0;
    while i < values.len()
        invariant
            i <= values@.len(),
            parts@.len() == i,
            forall|k: int| 0 <= k < i ==> #[trigger] parts@[k]@ == scalar_spec(values@[k].text@),
        decreases values@.len() - i,
    {
        parts.push(scalar(values[i].text.as_str()));
        i = i + 1;
    }
    proof {
        assert(strings_of(parts@) =~= refs_view(values@).map_values(|r: RefView| scalar_spec(r.text)));
    }
    join_parts(&parts)
}

/// The body of a list element: its model and, when it has any, its fields.
pub open spec fn list_body(model: RefView, fields: Seq<RefView>) -> Seq<char> {
    "모델: "@ + scalar_spec(model.text) + if fields.len() > 0 {
        ", 필드: ["@ + refs_text(fields) + "]"@
    } else {
        Seq::empty()
    }
}

/// The body of a button element: its id as written, its name and, when it has one, its action.
pub open spec fn button_body(id: Seq<char>, name: Seq<char>, action: Option<RefView>) -> Seq<char> {
    "id: "@ + id + ", 이름: "@ + scalar_spec(name) + match action {
        Some(a) => ", 행동: "@ + scalar_spec(a.text),
        None => Seq::empty(),
    }
}

/// The layout elements as frontmatter items, each line after `pad`.
pub open spec fn elements_text(vs: Seq<LayoutView>, pad: Seq<char>) -> Seq<char>
    decreases vs,
{
    if vs.len() == 0 {
        Seq::empty()
    } else {
        proof {
            assert(decreases_to!(vs => vs[vs.len() - 1]));
            assert(decreases_to!(vs => vs.subrange(0, vs.len() - 1)));
        }
        elements_text(vs.subrange(0, vs.len() - 1), pad) + element_text(vs[vs.len() - 1], pad)
    }
}

/// One layout element as a frontmatter item after `pad`; nested elements go four spaces
/// deeper.
pub open spec fn element_text(e: LayoutView, pad: Seq<char>) -> Seq<char>
    decreases e,
{
    let bullet = pad + "- "@;
    let nested = pad + "    "@;
    match e {
        LayoutView::Header { children, .. } => bullet + "머리말:\n"@ + elements_text(children, nested),
        LayoutView::Section { children, .. } => bullet + "구역:\n"@ + elements_text(children, nested),
        LayoutView::Form { inputs, .. } => bullet + "폼:\n"@ + elements_text(inputs, nested),
        LayoutView::Heading { text, .. } => bullet + "제목: "@ + scalar_spec(text) + "\n"@,
        LayoutView::Placeholder { text, .. } => bullet + "자리: "@ + scalar_spec(text) + "\n"@,
        LayoutView::Input { field, .. } => bullet + "입력: "@ + scalar_spec(field.text) + "\n"@,
        LayoutView::List { model, fields, .. } => bullet + "목록: { "@ + list_body(model, fields)
            + " }\n"@,
        LayoutView::Button { id, name, action, .. } => bullet + "버튼: { "@ + button_body(
            id,
            name,
            action,
        ) + " }\n"@,
    }
}

/// Writes the layout elements as frontmatter items, each line after `pad`.
pub fn write_elements(output: &mut String, elements: &[LayoutElementAst], pad: &str)
    ensures
        final(output)@ == old(output)@ + elements_text(layouts_view(elements@), pad@),
    decreases elements@,
{
    let ghost vs = layouts_view(elements@);
    let ghost start = output@;
    proof {
        lemma_layouts_view(elements@);
        assert(vs.take(0) =~= Seq::<LayoutView>::empty());
        assert(start + elements_text(vs.take(0), pad@) =~= start);
    }
    let mut i: usize = 0;
    while i < elements.len()
        invariant
            i <= elements@.len(),
            vs == layouts_view(elements@),
            vs =~= elements@.map_values(|e: LayoutElementAst| layout_view(e)),
            output@ == start + elements_text(vs.take(i as int), pad@),
        decreases elements@.len() - i,
    {
        let e = &elements[i];
        proof {
            assert(vs[i as int] == layout_view(elements@[i as int]));
            assert(decreases_to!(elements@ => elements@[i as int]));
            assert(vs.take(i + 1).subrange(0, i as int) =~= vs.take(i as int));
            assert(vs.take(i + 1)[i as int] == vs[i as int]);
        }
        write_element(output, e, pad);
        proof {
            assert(output@ =~= start + elements_text(vs.take(i + 1), pad@));
        }
        i = i + 1;
    }
    proof {
        assert(vs.take(elements@.len() as int) =~= vs);
    }
}

/// Writes one layout element as a frontmatter item after `pad`.
pub fn write_element(output: &mut String, e: &LayoutElementAst, pad: &str)
    ensures
        final(output)@ == old(output)@ + element_text(e@, pad@),
    decreases e,
{
    let ghost start = output@;
    output.append(pad);
    output.append("- ");
    match e {
        LayoutElementAst::Header { children, .. } => {
            output.append("머리말:\n");
            write_elements(output, children.as_slice(), deeper(pad, "    ").as_str());
        },
        LayoutElementAst::Section { children, .. } => {
            output.append("구역:\n");
            write_elements(output, children.as_slice(), deeper(pad, "    ").as_str());
        },
        LayoutElementAst::Form { inputs, .. } => {
            output.append("폼:\n");
            write_elements(output, inputs.as_slice(), deeper(pad, "    ").as_str());
        },
        LayoutElementAst::Heading { text, .. } => {
            output.append("제목: ");
            output.append(scalar(text.as_str()).as_str());
            output.append("\n");
        },
        LayoutElementAst::Placeholder { text, .. } => {
            output.append("자리: ");
            output.append(scalar(text.as_str()).as_str());
            output.append("\n");
        },
        LayoutElementAst::Input { field, .. } => {
            output.append("입력: ");
            output.append(scalar(field.text.as_str()).as_str());
            output.append("\n");
        },
        LayoutElementAst::List { model, fields, .. } => {
            let mut body = text_of("모델: ");
            body.append(scalar(model.text.as_str()).as_str());
            if fields.len() > 0 {
                body.append(", 필드: [");
                body.append(references(fields).as_str());
                body.append("]");
            } else {
                proof {
                    assert(body@ + Seq::<char>::empty() =~= body@);
                }
            }
            output.append("목록: { ");
            output.append(body.as_str());
            output.append(" }\n");
        },
        LayoutElementAst::Button { id, name, action, .. } => {
            let mut body = text_of("id: ");
            body.append(id.as_str());
            body.append(", 이름: ");
            body.append(scalar(name.as_str()).as_str());
            match action {
                Some(a) => {
                    body.append(", 행동: ");
                    body.append(scalar(a.text.as_str()).as_str());
                },
                None => {
                    proof {
                        assert(body@ + Seq::<char>::empty() =~= body@);
                    }
                },
            }
            output.append("버튼: { ");
            output.append(body.as_str());
            output.append(" }\n");
        },
    }
    proof {
        assert(output@ =~= start + element_text(e@, pad@));
    }
}

pub open spec fn screen_kind_text(k: ScreenLayoutKindAst) -> Seq<char> {
    match k {
        ScreenLayoutKindAst::Page => "page"@,
        ScreenLayoutKindAst::Popup => "popup"@,
        ScreenLayoutKindAst::Tab => "tab"@,
        ScreenLayoutKindAst::Link => "link"@,
    }
}

pub fn screen_kind(kind: ScreenLayoutKindAst) -> (r: &'static str)
    ensures
        r@ == screen_kind_text(kind),
{
    match kind {
        ScreenLayoutKindAst::Page => "page",
        ScreenLayoutKindAst::Popup => "popup",
        ScreenLayoutKindAst::Tab => "tab",
        ScreenLayoutKindAst::Link => "link",
    }
}

/// The layout of one screen: its name, its kind when it has one, and its elements when it
/// has any.
pub open spec fn screen_layout_text(l: ScreenLayoutAst, pad: Seq<char>) -> Seq<char> {
    let body = pad + "  "@;
    pad + scalar_spec(l.screen.text@) + ":\n"@ + match l.kind {
        Some(k) => body + "유형: "@ + screen_kind_text(k) + "\n"@,
        None => Seq::empty(),
    } + if l.elements@.len() > 0 {
        body + "레이아웃:\n"@ + elements_text(layouts_view(l.elements@), body + "  "@)
    } else {
        Seq::empty()
    }
}

#[verifier::rlimit(40)]
pub fn write_screen_layout(output: &mut String, layout: &ScreenLayoutAst, pad: &str)
    ensures
        final(output)@ == old(output)@ + screen_layout_text(*layout, pad@),
{
    let ghost start = output@;
    output.append(pad);
    output.append(scalar(layout.screen.text.as_str()).as_str());
    output.append(":\n");
    let ghost mid = output@;
    let body = deeper(pad, "  ");
    match layout.kind {
        Some(kind) => {
            output.append(body.as_str());
            output.append("유형: ");
            output.append(screen_kind(kind));
            output.append("\n");
        },
        None => {},
    }
    let ghost mid2 = output@;
    if layout.elements.len() > 0 {
        output.append(body.as_str());
        output.append("레이아웃:\n");
        write_elements(output, layout.elements.as_slice(), deeper(body.as_str(), "  ").as_str());
    }
    proof {
        let k = match layout.kind {
            Some(k) => body@ + "유형: "@ + screen_kind_text(k) + "\n"@,
            None => Seq::empty(),
        };
        let el = if layout.elements@.len() > 0 {
            body@ + "레이아웃:\n"@ + elements_text(layouts_view(layout.elements@), body@ + "  "@)
        } else {
            Seq::empty()
        };
        assert(mid2 =~= mid + k);
        assert(output@ =~= mid2 + el);
        assert(output@ =~= start + screen_layout_text(*layout, pad@));
    }
}

/// One screen path: from an element of a screen to a screen, with its label when it has one.
pub open spec fn path_text(p: ScreenPathAst, pad: Seq<char>) -> Seq<char> {
    let body = pad + "  "@;
    pad + "- 출발: "@ + scalar_spec(p.source_screen.text@ + "."@ + p.source_element.text@)
        + "\n"@ + body + "도착: "@ + scalar_spec(p.target_screen.text@) + "\n"@ + match p.label {
        Some(l) => body + "설명: "@ + scalar_spec(l@) + "\n"@,
        None => Seq::empty(),
    }
}

#[verifier::rlimit(30)]
pub fn write_path(output: &mut String, path: &ScreenPathAst, pad: &str)
    ensures
        final(output)@ == old(output)@ + path_text(*path, pad@),
{
    let ghost start = output@;
    let body = deeper(pad, "  ");
    let mut source = text_of(path.source_screen.text.as_str());
    source.append(".");
    source.append(path.source_element.text.as_str());
    output.append(pad);
    output.append("- 출발: ");
    output.append(scalar(source.as_str()).as_str());
    output.append("\n");
    output.append(body.as_str());
    output.append("도착: ");
    output.append(scalar(path.target_screen.text.as_str()).as_str());
    output.append("\n");
    let ghost mid = output@;
    match &path.label {
        Some(label) => {
            output.append(body.as_str());
            output.append("설명: ");
            output.append(scalar(label.as_str()).as_str());
            output.append("\n");
        },
        None => {},
    }
    proof {
        let l = match &path.label {
            Some(l) => body@ + "설명: "@ + scalar_spec(l@) + "\n"@,
            None => Seq::empty(),
        };
        assert(output@ =~= mid + l);
        assert(output@ =~= start + path_text(*path, pad@));
    }
}

/// The categories, each line after `pad`: a branch with its children two spaces deeper, a
/// leaf with its screens, an empty category as it is.
pub open spec fn categories_text(cs: Seq<CategoryAst>, pad: Seq<char>) -> Result<Seq<char>, Seq<char>>
    decreases cs,
{
    if cs.len() == 0 {
        Ok(Seq::empty())
    } else {
        proof {
            assert(decreases_to!(cs => cs[cs.len() - 1]));
            assert(decreases_to!(cs => cs.subrange(0, cs.len() - 1)));
        }
        match categories_text(cs.subrange(0, cs.len() - 1), pad) {
            Err(e) => Err(e),
            Ok(t) => match category_text(cs[cs.len() - 1], pad) {
                Err(e) => Err(e),
                Ok(c) => Ok(t + c),
            },
        }
    }
}

pub open spec fn category_text(c: CategoryAst, pad: Seq<char>) -> Result<Seq<char>, Seq<char>>
    decreases c,
{
    match named_id_spec(c.declaration, true) {
        Err(e) => Err(e),
        Ok(nid) => {
            let head = pad + nid + ":"@;
            if c.children@.len() > 0 {
                proof {
                    assert(decreases_to!(c => c.children@));
                }
                match categories_text(c.children@, pad + "  "@) {
                    Err(e) => Err(e),
                    Ok(t) => Ok(head + "\n"@ + t),
                }
            } else if c.screens@.len() > 0 {
                Ok(head + " ["@ + refs_text(refs_view(c.screens@)) + "]\n"@)
            } else {
                Ok(head + "\n"@)
            }
        },
    }
}

proof fn lemma_categories_error_prefix(cs: Seq<CategoryAst>, pad: Seq<char>, j: int)
    requires
        0 <= j <= cs.len(),
        categories_text(cs.take(j), pad) is Err,
    ensures
        categories_text(cs, pad) == categories_text(cs.take(j), pad),
    decreases cs.len(),
{
    if j == cs.len() {
        assert(cs.take(j) =~= cs);
    } else {
        let init = cs.subrange(0, cs.len() - 1);
        assert(init.take(j) =~= cs.take(j));
        lemma_categories_error_prefix(init, pad, j);
    }
}

pub fn write_categories(output: &mut String, categories: &[CategoryAst], pad: &str) -> (r:
    Result<(), FormatError>)
    ensures
        match categories_text(categories@, pad@) {
            Ok(t) => r is Ok && final(output)@ == old(output)@ + t,
            Err(e) => r matches Err(x) && x@ == e,
        },
    decreases categories@,
{
    let ghost start = output@;
    let ghost cs = categories@;
    proof {
        assert(cs.take(0) =~= Seq::<CategoryAst>::empty());
        assert(start + Seq::<char>::empty() =~= start);
    }
    let mut i: usize = 0;
    while i < categories.len()
        invariant
            i <= categories@.len(),
            cs == categories@,
            categories_text(cs.take(i as int), pad@) matches Ok(t) && output@ == start + t,
        decreases categories@.len() - i,
    {
        let c = &categories[i];
        proof {
            assert(cs.take(i + 1).subrange(0, i as int) =~= cs.take(i as int));
            assert(cs.take(i + 1)[i as int] == cs[i as int]);
            assert(decreases_to!(categories@ => categories@[i as int]));
            assert(decreases_to!(categories@[i as int] => categories@[i as int].children@));
        }
        let ghost before = output@;
        let nid = match named_id(&c.declaration, true) {
            Ok(n) => n,
            Err(e) => {
                proof {
                    lemma_categories_error_prefix(cs, pad@, i + 1);
                }
                return Err(e);
            },
        };
        let mut head = text_of(pad);
        head.append(nid.as_str());
        head.append(":");
        if c.children.len() > 0 {
            output.append(head.as_str());
            output.append("\n");
            match write_categories(output, c.children.as_slice(), deeper(pad, "  ").as_str()) {
                Ok(()) => {},
                Err(e) => {
                    proof {
                        lemma_categories_error_prefix(cs, pad@, i + 1);
                    }
                    return Err(e);
                },
            }
        } else if c.screens.len() > 0 {
            output.append(head.as_str());
            output.append(" [");
            output.append(references(&c.screens).as_str());
            output.append("]\n");
        } else {
            output.append(head.as_str());
            output.append("\n");
        }
        proof {
            let t0 = categories_text(cs.take(i as int), pad@)->Ok_0;
            let ct = category_text(cs[i as int], pad@)->Ok_0;
            assert(before == start + t0);
            assert(output@ =~= before + ct);
            assert(output@ =~= start + (t0 + ct));
        }
        i = i + 1;
    }
    proof {
        assert(cs.take(categories@.len() as int) =~= cs);
    }
    Ok(())
}

/// The layouts of the screens, one after another.
pub open spec fn layouts_text(ls: Seq<ScreenLayoutAst>, pad: Seq<char>) -> Seq<char>
    decreases ls.len(),
{
    if ls.len() == 0 {
        Seq::empty()
    } else {
        layouts_text(ls.drop_last(), pad) + screen_layout_text(ls.last(), pad)
    }
}

/// The screen paths, one after another.
pub open spec fn paths_text(ps: Seq<ScreenPathAst>, pad: Seq<char>) -> Seq<char>
    decreases ps.len(),
{
    if ps.len() == 0 {
        Seq::empty()
    } else {
        paths_text(ps.drop_last(), pad) + path_text(ps.last(), pad)
    }
}

pub open spec fn opt_push(s: Seq<Seq<char>>, o: Option<Seq<char>>) -> Seq<Seq<char>> {
    match o {
        Some(x) => s.push(x),
        None => s,
    }
}

/// The sections with one empty line between two of them.
pub open spec fn newline_join(parts: Seq<Seq<char>>) -> Seq<char>
    decreases parts.len(),
{
    if parts.len() == 0 {
        Seq::empty()
    } else if parts.len() == 1 {
        parts[0]
    } else {
        newline_join(parts.drop_last()) + "\n"@ + parts.last()
    }
}

pub open spec fn module_part(fm: FrontmatterAst) -> Result<Option<Seq<char>>, Seq<char>> {
    match fm.module {
        Some(m) => match named_id_spec(m, false) {
            Err(e) => Err(e),
            Ok(n) => Ok(Some("모듈: "@ + n + "\n"@)),
        },
        None => Ok(None),
    }
}

pub open spec fn ia_part(fm: FrontmatterAst) -> Result<Option<Seq<char>>, Seq<char>> {
    if fm.information_architecture@.len() > 0 {
        match categories_text(fm.information_architecture@, "  "@) {
            Err(e) => Err(e),
            Ok(t) => Ok(Some("정보구조:\n"@ + t)),
        }
    } else {
        Ok(None)
    }
}

pub open spec fn screens_part(fm: FrontmatterAst) -> Option<Seq<char>> {
    if fm.screens@.len() > 0 {
        Some("화면:\n"@ + layouts_text(fm.screens@, "  "@))
    } else {
        None
    }
}

pub open spec fn paths_part(fm: FrontmatterAst) -> Option<Seq<char>> {
    if fm.paths@.len() > 0 {
        Some("흐름:\n"@ + paths_text(fm.paths@, "  "@))
    } else {
        None
    }
}

/// The frontmatter block: the module, the information architecture, the screens and the
/// paths, each only when there is something to write, with an empty line between two.
pub open spec fn frontmatter_text(fm: FrontmatterAst) -> Result<Seq<char>, Seq<char>> {
    match module_part(fm) {
        Err(e) => Err(e),
        Ok(mp) => match ia_part(fm) {
            Err(e) => Err(e),
            Ok(ip) => Ok(
                "---\n"@ + newline_join(
                    opt_push(
                        opt_push(opt_push(opt_push(Seq::empty(), mp), ip), screens_part(fm)),
                        paths_part(fm),
                    ),
                ) + "---\n"@,
            ),
        },
    }
}

proof fn lemma_newline_join_push(parts: Seq<Seq<char>>, x: Seq<char>)
    ensures
        newline_join(parts.push(x)) == if parts.len() == 0 {
            x
        } else {
            newline_join(parts) + "\n"@ + x
        },
{
    assert(parts.push(x).drop_last() =~= parts);
    if parts.len() == 0 {
        assert(parts.push(x)[0] == x);
    }
}

pub open spec fn opt_string(o: Option<String>) -> Option<Seq<char>> {
    match o {
        Some(t) => Some(t@),
        None => None,
    }
}

fn module_section(fm: &FrontmatterAst) -> (r: Result<Option<String>, FormatError>)
    ensures
        match module_part(*fm) {
            Ok(o) => r matches Ok(x) && opt_string(x) == o,
            Err(e) => r matches Err(x) && x@ == e,
        },
{
    match &fm.module {
        Some(module) => {
            let n = match named_id(module, false) {
                Ok(n) => n,
                Err(e) => {
                    return Err(e);
                },
            };
            let mut line = text_of("모듈: ");
            line.append(n.as_str());
            line.append("\n");
            Ok(Some(line))
        },
        None => Ok(None),
    }
}

fn ia_section(fm: &FrontmatterAst) -> (r: Result<Option<String>, FormatError>)
    ensures
        match ia_part(*fm) {
            Ok(o) => r matches Ok(x) && opt_string(x) == o,
            Err(e) => r matches Err(x) && x@ == e,
        },
{
    if fm.information_architecture.len() == 0 {
        return Ok(None);
    }
    let mut t = text_of("정보구조:\n");
    match write_categories(&mut t, fm.information_architecture.as_slice(), "  ") {
        Ok(()) => Ok(Some(t)),
        Err(e) => Err(e),
    }
}

fn screens_section(fm: &FrontmatterAst) -> (r: Option<String>)
    ensures
        opt_string(r) == screens_part(*fm),
{
    if fm.screens.len() == 0 {
        return None;
    }
    let mut output = text_of("화면:\n");
    let ghost mid = output@;
    let mut k: usize = 0;
    while k < fm.screens.len()
        invariant
            k <= fm.screens@.len(),
            output@ == mid + layouts_text(fm.screens@.take(k as int), "  "@),
        decreases fm.screens@.len() - k,
    {
        write_screen_layout(&mut output, &fm.screens[k], "  ");
        proof {
            let ls = fm.screens@.take(k + 1);
            assert(ls.drop_last() =~= fm.screens@.take(k as int));
            assert(ls.last() == fm.screens@[k as int]);
        }
        k = k + 1;
    }
    proof {
        assert(fm.screens@.take(fm.screens@.len() as int) =~= fm.screens@);
    }
    Some(output)
}

fn paths_section(fm: &FrontmatterAst) -> (r: Option<String>)
    ensures
        opt_string(r) == paths_part(*fm),
{
    if fm.paths.len() == 0 {
        return None;
    }
    let mut output = text_of("흐름:\n");
    let ghost mid = output@;
    let mut k: usize = 0;
    while k < fm.paths.len()
        invariant
            k <= fm.paths@.len(),
            output@ == mid + paths_text(fm.paths@.take(k as int), "  "@),
        decreases fm.paths@.len() - k,
    {
        write_path(&mut output, &fm.paths[k], "  ");
        proof {
            let ps = fm.paths@.take(k + 1);
            assert(ps.drop_last() =~= fm.paths@.take(k as int));
            assert(ps.last() == fm.paths@[k as int]);
        }
        k = k + 1;
    }
    proof {
        assert(fm.paths@.take(fm.paths@.len() as int) =~= fm.paths@);
    }
    Some(output)
}

fn add_section(
    output: &mut String,
    written: &mut bool,
    part: Option<String>,
    Ghost(prefix): Ghost<Seq<char>>,
    Ghost(parts): Ghost<Seq<Seq<char>>>,
)
    requires
        old(output)@ == prefix + newline_join(parts),
        *old(written) == (parts.len() > 0),
    ensures
        final(output)@ == prefix + newline_join(opt_push(parts, opt_string(part))),
        *final(written) == (opt_push(parts, opt_string(part)).len() > 0),
{
    match part {
        Some(t) => {
            proof {
                lemma_newline_join_push(parts, t@);
            }
            if *written {
                output.append("\n");
            }
            output.append(t.as_str());
            *written = true;
        },
        None => {},
    }
}

pub fn write_frontmatter(output: &mut String, frontmatter: &FrontmatterAst) -> (r: Result<
    (),
    FormatError,
>)
    ensures
        match frontmatter_text(*frontmatter) {
            Ok(t) => r is Ok && final(output)@ == old(output)@ + t,
            Err(e) => r matches Err(x) && x@ == e,
        },
{
    let module = match module_section(frontmatter) {
        Ok(m) => m,
        Err(e) => {
            return Err(e);
        },
    };
    let ia = match ia_section(frontmatter) {
        Ok(m) => m,
        Err(e) => {
            return Err(e);
        },
    };
    let screens = screens_section(frontmatter);
    let paths = paths_section(frontmatter);
    let ghost start = output@;
    output.append("---\n");
    let ghost prefix = output@;
    let mut written = false;
    let ghost p0: Seq<Seq<char>> = Seq::empty();
    proof {
        assert(output@ =~= prefix + newline_join(p0));
    }
    let ghost p1 = opt_push(p0, opt_string(module));
    add_section(output, &mut written, module, Ghost(prefix), Ghost(p0));
    let ghost p2 = opt_push(p1, opt_string(ia));
    add_section(output, &mut written, ia, Ghost(prefix), Ghost(p1));
    let ghost p3 = opt_push(p2, opt_string(screens));
    add_section(output, &mut written, screens, Ghost(prefix), Ghost(p2));
    add_section(output, &mut written, paths, Ghost(prefix), Ghost(p3));
    output.append("---\n");
    Ok(())
}

/// `@모듈 이름(id)`, written when the frontmatter does not already name the module.
pub open spec fn module_line_spec(m: ModuleAst) -> Seq<char> {
    "@모듈 "@ + surface_spec(m.declaration.name@) + "("@ + m.declaration.id@ + ")\n"@
}

pub open spec fn module_line_written(d: DocumentAst) -> bool {
    match d.frontmatter {
        Some(fm) => fm.module is None,
        None => true,
    }
}

/// The declarations in order, each after an empty line; the first one that has no sentence
/// decides the error.
pub open spec fn declarations_text(ds: Seq<DeclarationAst>) -> Result<Seq<char>, Seq<char>>
    decreases ds.len(),
{
    if ds.len() == 0 {
        Ok(Seq::empty())
    } else {
        match declarations_text(ds.drop_last()) {
            Err(e) => Err(e),
            Ok(t) => match declaration_spec(ds.last()) {
                Err(e) => Err(e),
                Ok(x) => Ok(t + "\n"@ + x),
            },
        }
    }
}

pub open spec fn opening_text(d: DocumentAst) -> Result<Seq<char>, Seq<char>> {
    match d.frontmatter {
        Some(fm) => frontmatter_text(fm),
        None => Ok(Seq::empty()),
    }
}

/// The whole document: the frontmatter block, the module line unless the frontmatter names
/// the module (after an empty line when a block precedes it), then the declarations.
pub open spec fn document_text(d: DocumentAst) -> Result<Seq<char>, Seq<char>> {
    match opening_text(d) {
        Err(e) => Err(e),
        Ok(h) => {
            let head = if module_line_written(d) {
                (if h.len() > 0 {
                    h + "\n"@
                } else {
                    h
                }) + module_line_spec(d.module)
            } else {
                h
            };
            match declarations_text(d.declarations@) {
                Err(e) => Err(e),
                Ok(t) => Ok(head + t),
            }
        },
    }
}

proof fn lemma_declarations_error(ds: Seq<DeclarationAst>, k: int)
    requires
        0 <= k <= ds.len(),
        declarations_text(ds.take(k)) is Err,
    ensures
        declarations_text(ds) == declarations_text(ds.take(k)),
    decreases ds.len() - k,
{
    if k < ds.len() {
        let next = ds.take(k + 1);
        assert(next.drop_last() =~= ds.take(k));
        lemma_declarations_error(ds, k + 1);
    } else {
        assert(ds.take(k) =~= ds);
    }
}

/// The module is named in one place: by the frontmatter's `모듈` entry when it has one;
/// otherwise by the `@모듈` line, which opens a document without a frontmatter and follows the
/// block after an empty line in one with a frontmatter.
pub proof fn the_module_is_named_once(d: DocumentAst)
    requires
        document_text(d) is Ok,
    ensures
        match d.frontmatter {
            None => document_text(d) == Ok::<Seq<char>, Seq<char>>(
                module_line_spec(d.module) + declarations_text(d.declarations@)->Ok_0,
            ),
            Some(fm) => match fm.module {
                Some(_) => document_text(d) == Ok::<Seq<char>, Seq<char>>(
                    frontmatter_text(fm)->Ok_0 + declarations_text(d.declarations@)->Ok_0,
                ),
                None => document_text(d) == Ok::<Seq<char>, Seq<char>>(
                    frontmatter_text(fm)->Ok_0 + "\n"@ + module_line_spec(d.module)
                        + declarations_text(d.declarations@)->Ok_0,
                ),
            },
        },
{
    reveal_strlit("---\n");
    let e: Seq<char> = Seq::empty();
    assert(e + module_line_spec(d.module) =~= module_line_spec(d.module));
}

fn module_line(module: &ModuleAst) -> (r: String)
    ensures
        r@ == module_line_spec(*module),
{
    let mut r = text_of("@모듈 ");
    r.append(surface(module.declaration.name.as_str()).as_str());
    r.append("(");
    r.append(module.declaration.id.as_str());
    r.append(")\n");
    r
}

/// Writes the document as Korean text; the error says which part the grammar cannot write.
#[verifier::rlimit(40)]
pub fn format_document(document: &DocumentAst) -> (r: Result<String, FormatError>)
    ensures
        match r {
            Ok(t) => document_text(*document) == Ok::<Seq<char>, Seq<char>>(t@),
            Err(e) => document_text(*document) == Err::<Seq<char>, Seq<char>>(e@),
        },
{
    let mut output = String::new();
    match &document.frontmatter {
        Some(frontmatter) => {
            match write_frontmatter(&mut output, frontmatter) {
                Ok(()) => {},
                Err(e) => {
                    return Err(e);
                },
            }
        },
        None => {},
    }
    proof {
        assert(opening_text(*document) == Ok::<Seq<char>, Seq<char>>(output@));
    }
    let write_module = match &document.frontmatter {
        Some(frontmatter) => frontmatter.module.is_none(),
        None => true,
    };
    if write_module {
        if !output.as_str().is_empty() {
            output.append("\n");
        }
        output.append(module_line(&document.module).as_str());
    }
    let ghost head = output@;
    let ghost ds = document.declarations@;
    proof {
        assert(ds.take(0) =~= Seq::<DeclarationAst>::empty());
        assert(output@ =~= head + Seq::<char>::empty());
        assert(document_text(*document) == match declarations_text(ds) {
            Err(e) => Err(e),
            Ok(t) => Ok::<Seq<char>, Seq<char>>(head + t),
        });
    }
    let mut k: usize = 0;
    while k < document.declarations.len()
        invariant
            k <= ds.len(),
            ds == document.declarations@,
            document_text(*document) == match declarations_text(ds) {
                Err(e) => Err(e),
                Ok(t) => Ok::<Seq<char>, Seq<char>>(head + t),
            },
            match declarations_text(ds.take(k as int)) {
                Ok(t) => output@ == head + t,
                Err(_) => false,
            },
        decreases ds.len() - k,
    {
        let ghost before = output@;
        output.append("\n");
        proof {
            let next = ds.take(k + 1);
            assert(next.drop_last() =~= ds.take(k as int));
            assert(next.last() == ds[k as int]);
        }
        match write_declaration(&document.declarations[k]) {
            Ok(t) => {
                output.append(t.as_str());
                proof {
                    let prev = declarations_text(ds.take(k as int))->Ok_0;
                    assert(output@ =~= head + (prev + "\n"@ + t@));
                }
            },
            Err(e) => {
                proof {
                    lemma_declarations_error(ds, k + 1);
                }
                return Err(e);
            },
        }
        k = k + 1;
    }
    proof {
        assert(ds.take(ds.len() as int) =~= ds);
    }
    Ok(output)
}

/// The last `c` in `[a, e)` is at `k` when `s[k]` is `c` and nothing after it up to `e` is.
proof fn lemma_last_in_at(s: Seq<char>, a: int, e: int, c: char, k: int)
    requires
        a <= k < e <= s.len(),
        s[k] == c,
        forall|j: int| k < j < e ==> s[j] != c,
    ensures
        crate::frontmatter::last_in(s, a, e, c) == k,
    decreases e - k,
{
    if e - 1 > k {
        lemma_last_in_at(s, a, e - 1, c, k);
    }
}

/// A `name(id)` that the formatter writes reads back as the same name and id: bare, since the
/// name does not open with a quote, and split at the `(` before the id. Ids with a `(` of their
/// own are left out: the reader splits at the last one.
pub proof fn written_names_read_back(d: NamedIdAst, is_key: bool)
    requires
        named_id_spec(d, is_key) is Ok,
        crate::frontmatter::id_like(d.id@),
        !d.id@.contains('('),
    ensures
        ({
            let t = named_id_spec(d, is_key)->Ok_0;
            &&& crate::frontmatter::scalar_text(t, 0, t.len() as int) == (t, false)
            &&& crate::frontmatter::named_id_spec(t) == Some((d.name@, d.id@))
        }),
{
    reveal_strlit("(");
    reveal_strlit(")");
    let name = d.name@;
    let id = d.id@;
    let t = name + "("@ + id + ")"@;
    assert(named_id_spec(d, is_key)->Ok_0 == t);
    let open = name.len() as int;
    let b = t.len() as int;
    assert(t[0] == name[0]);
    assert(t.subrange(0, b) =~= t);
    assert(t[b - 1] == ')');
    assert(crate::scanner::first_visible(t, 0, b) == 0);
    assert(crate::frontmatter::trimmed_end(t, 0, b) == b);
    assert(t[open] == '(');
    assert forall|j: int| open < j < b - 1 implies t[j] != '(' by {
        assert(t[j] == id[j - open - 1]);
        if t[j] == '(' {
            assert(id.contains('('));
        }
    }
    assert(t[b - 1] != '(');
    lemma_last_in_at(t, 0, b, '(', open);
    assert(t[open - 1] == name.last());
    assert(crate::frontmatter::trimmed_end(t, 0, open) == open);
    assert(t.subrange(0, open) =~= name);
    assert(t.subrange(open + 1, b - 1) =~= id);
}

} // verus!
