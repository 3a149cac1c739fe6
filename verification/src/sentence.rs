//! One declaration written back as its Korean sentence, or as a heading followed by indented
//! lines for an enumeration or a data model.
use vstd::prelude::*;
use vstd::string::StringExecFns;

use crate::ast::{
    ActionDataMutationAst, ActionInputAst, ActionInputKindAst, CreationBranchAst,
    CreationDecisionAst, DataModelAst, DataMutationKindAst, DeclarationAst, EnumAst,
    EnumValueAst, EventInputAst, FieldAst, FieldIntentAst, FieldIntentKindAst, FieldProducerAst,
    FieldProducerSourceAst, NamedIdAst, PolicyAst, PolicyEffectAst, ProducerTriggerKindAst,
    RecalculationAst, RelationAst, RelationProducerAst, RelationalConstraintAst,
    RelationalConstraintKindAst, ScreenAst, ScreenOperationKindAst, SumDerivationAst,
};
use crate::formatter::{
    constraint, constraint_spec, directional_marker, directional_marker_spec,
    has_final_consonant, has_final_consonant_spec, literal_text, literal_text_spec, marked,
    marked_list_spec, marked_spec, object_list, reference_list, reference_list_spec,
    strings_of, surface, surface_spec, topic_list, type_reference, type_reference_spec,
    FormatError,
};
use crate::json::{encode_json_string, json_quoted};

verus! {

/// 은 after a final consonant, 는 otherwise.
pub open spec fn topic_spec(name: Seq<char>) -> Seq<char> {
    if has_final_consonant_spec(name) {
        "은"@
    } else {
        "는"@
    }
}

/// `이름(id)`.
pub open spec fn head_spec(d: NamedIdAst) -> Seq<char> {
    surface_spec(d.name@) + "("@ + d.id@ + ")"@
}

/// `이름(id)은`: a declaration that opens its own sentence.
pub open spec fn subject_spec(d: NamedIdAst) -> Seq<char> {
    head_spec(d) + topic_spec(d.name@)
}

pub open spec fn enum_values_text(vs: Seq<EnumValueAst>) -> Seq<char>
    decreases vs.len(),
{
    if vs.len() == 0 {
        Seq::empty()
    } else {
        enum_values_text(vs.drop_last()) + "    "@ + head_spec(vs.last().declaration) + "\n"@
    }
}

pub open spec fn field_line(f: FieldAst) -> Seq<char> {
    "    "@ + head_spec(f.declaration) + ": "@ + (if f.required {
        "필수"@
    } else {
        "선택"@
    }) + " "@ + type_reference_spec(f.value_type) + "\n"@
}

pub open spec fn fields_text(fs: Seq<FieldAst>) -> Seq<char>
    decreases fs.len(),
{
    if fs.len() == 0 {
        Seq::empty()
    } else {
        fields_text(fs.drop_last()) + field_line(fs.last())
    }
}

pub open spec fn empty_model_message() -> Seq<char> {
    "필드가 없는 데이터 모델은 Korean 문법으로 표현할 수 없습니다."@
}

pub open spec fn relation_arity_message() -> Seq<char> {
    "Korean 문법은 단항 관계와 이항 관계만 표현할 수 있습니다."@
}

pub open spec fn conditional_template_message() -> Seq<char> {
    "조건부 template producer는 현재 Korean 문법으로 표현할 수 없습니다."@
}

pub open spec fn enum_spec(e: EnumAst) -> Seq<char> {
    subject_spec(e.declaration) + " 다음 값 중 하나다.\n"@ + enum_values_text(e.values@)
}

pub open spec fn data_model_spec(m: DataModelAst) -> Result<Seq<char>, Seq<char>> {
    if m.fields@.len() == 0 {
        Err(empty_model_message())
    } else {
        Ok(subject_spec(m.declaration) + " 다음 필드들로 구성되어 있다.\n"@ + fields_text(m.fields@))
    }
}

pub open spec fn relation_spec(r: RelationAst) -> Result<Seq<char>, Seq<char>> {
    let ms = r.parameter_models@;
    if ms.len() == 1 {
        Ok(marked_spec(ms[0]@, "은"@, "는"@) + " "@ + head_spec(r.declaration) + "에 해당할 수 있다.\n"@)
    } else if ms.len() == 2 {
        Ok(marked_spec(ms[0]@, "은"@, "는"@) + " "@ + marked_spec(ms[1]@, "을"@, "를"@) + " "@
            + head_spec(r.declaration) + directional_marker_spec(r.declaration.name@)
            + " 가질 수 있다.\n"@)
    } else {
        Err(relation_arity_message())
    }
}

pub open spec fn relational_constraint_spec(c: RelationalConstraintAst) -> Seq<char> {
    match c.constraint {
        RelationalConstraintKindAst::NonEmpty { model } => marked_spec(model@, "은"@, "는"@)
            + " 하나 이상 존재해야 한다.\n"@,
        RelationalConstraintKindAst::Required { model, relation } => "모든 "@ + marked_spec(
            model@,
            "은"@,
            "는"@,
        ) + " "@ + marked_spec(relation@, "을"@, "를"@) + " 하나 이상 가져야 한다.\n"@,
        RelationalConstraintKindAst::Unique { model, relation } => "각 "@ + marked_spec(
            model@,
            "은"@,
            "는"@,
        ) + " "@ + marked_spec(relation@, "을"@, "를"@) + " 최대 하나만 가질 수 있다.\n"@,
        RelationalConstraintKindAst::Exclusive { relations } => reference_list_spec(
            strings_of(relations@),
        ) + " 중 둘 이상은 동시에 성립할 수 없다.\n"@,
        RelationalConstraintKindAst::Exhaustive { relations } => reference_list_spec(
            strings_of(relations@),
        ) + " 중 하나 이상은 항상 성립해야 한다.\n"@,
        RelationalConstraintKindAst::Coexistent { relations } => marked_list_spec(
            strings_of(relations@),
            "은"@,
            "는"@,
        ) + " 동시에 성립할 수 있다.\n"@,
    }
}

pub open spec fn screen_operation_spec(k: ScreenOperationKindAst) -> Seq<char> {
    match k {
        ScreenOperationKindAst::Create => "생성할"@,
        ScreenOperationKindAst::Read => "조회할"@,
        ScreenOperationKindAst::Input => "입력할"@,
        ScreenOperationKindAst::Update => "수정할"@,
        ScreenOperationKindAst::Delete => "삭제할"@,
    }
}

pub open spec fn screen_spec(s: ScreenAst) -> Seq<char> {
    let screen = head_spec(s.declaration) + "에서는"@;
    if s.fields@.len() == 0 {
        screen + " "@ + marked_spec(s.model@, "을"@, "를"@) + " "@ + screen_operation_spec(
            s.operation,
        ) + " 수 있다.\n"@
    } else {
        screen + " "@ + surface_spec(s.model@) + "의 "@ + marked_list_spec(
            strings_of(s.fields@),
            "을"@,
            "를"@,
        ) + " "@ + screen_operation_spec(s.operation) + " 수 있다.\n"@
    }
}

pub open spec fn mutation_spec(k: DataMutationKindAst) -> Seq<char> {
    match k {
        DataMutationKindAst::Create => "생성한다"@,
        DataMutationKindAst::Update => "수정한다"@,
        DataMutationKindAst::Delete => "삭제한다"@,
    }
}

pub open spec fn action_data_mutation_spec(a: ActionDataMutationAst) -> Seq<char> {
    marked_spec(a.action@, "이"@, "가"@) + " 실행되면 "@ + marked_spec(a.model@, "을"@, "를"@) + " "@
        + mutation_spec(a.mutation) + ".\n"@
}

pub open spec fn sum_derivation_spec(s: SumDerivationAst) -> Seq<char> {
    surface_spec(s.target_model@) + "의 "@ + marked_spec(s.target_field@, "은"@, "는"@) + " "@
        + surface_spec(s.source_model@) + "의 "@ + surface_spec(s.source_field@) + "의 합계로 계산한다.\n"@
}

pub open spec fn recalculation_spec(r: RecalculationAst) -> Seq<char> {
    surface_spec(r.source_model@) + "의 "@ + marked_spec(r.source_field@, "이"@, "가"@) + " 바뀔 때 "@
        + surface_spec(r.target_model@) + "의 "@ + marked_spec(r.target_field@, "을"@, "를"@)
        + " 다시 계산한다.\n"@
}

pub open spec fn intent_spec(k: FieldIntentKindAst) -> Seq<char> {
    match k {
        FieldIntentKindAst::Internal => "내부 관리에만 사용한다"@,
        FieldIntentKindAst::Hidden => "사용자 화면에서 조회하지 않는다"@,
    }
}

pub open spec fn field_intent_spec(f: FieldIntentAst) -> Seq<char> {
    surface_spec(f.model@) + "의 "@ + marked_spec(f.field@, "은"@, "는"@) + " "@ + intent_spec(
        f.intent,
    ) + ".\n"@
}

/// What an input or a payload entry holds: an existing record of a model, or a value.
pub open spec fn input_kind_spec(k: ActionInputKindAst) -> Seq<char> {
    match k {
        ActionInputKindAst::ExistingModel { model } => "기존 "@ + marked_spec(model@, "을"@, "를"@),
        ActionInputKindAst::Value { value_type } => marked_spec(
            type_reference_spec(value_type),
            "을"@,
            "를"@,
        ),
    }
}

pub open spec fn action_input_spec(a: ActionInputAst) -> Seq<char> {
    marked_spec(a.action@, "은"@, "는"@) + " "@ + input_kind_spec(a.kind) + " "@ + head_spec(
        a.declaration,
    ) + directional_marker_spec(a.declaration.name@) + " 입력받는다.\n"@
}

pub open spec fn event_input_spec(a: EventInputAst) -> Seq<char> {
    marked_spec(a.event@, "은"@, "는"@) + " "@ + input_kind_spec(a.kind) + " "@ + head_spec(
        a.declaration,
    ) + directional_marker_spec(a.declaration.name@) + " 담는다.\n"@
}

pub open spec fn decision_spec(k: CreationDecisionAst) -> Seq<char> {
    match k {
        CreationDecisionAst::Create => "하나 생성한다"@,
        CreationDecisionAst::Skip => "생성하지 않는다"@,
    }
}

pub open spec fn creation_branch_spec(c: CreationBranchAst) -> Seq<char> {
    subject_spec(c.declaration) + " "@ + surface_spec(c.action@) + "의 "@ + marked_spec(
        c.input@,
        "이"@,
        "가"@,
    ) + " "@ + marked_spec(c.variant@, "이면"@, "라면"@) + " "@ + marked_spec(
        c.output_model@,
        "을"@,
        "를"@,
    ) + " "@ + decision_spec(c.decision) + ".\n"@
}

pub open spec fn trigger_kind_spec(k: ProducerTriggerKindAst) -> Seq<char> {
    match k {
        ProducerTriggerKindAst::Action => "실행될"@,
        ProducerTriggerKindAst::Event => "발생할"@,
    }
}

pub open spec fn producer_source_spec(s: FieldProducerSourceAst) -> Seq<char> {
    match s {
        FieldProducerSourceAst::ActionInput { input } => marked_spec(input@, "을"@, "를"@),
        FieldProducerSourceAst::InputField { input, field } => surface_spec(input@) + "의 "@
            + marked_spec(field@, "을"@, "를"@),
        FieldProducerSourceAst::Constant { literal } => "상수 "@ + marked_spec(
            literal_text_spec(literal),
            "을"@,
            "를"@,
        ),
        FieldProducerSourceAst::Template { value } => json_quoted(value@) + "를"@,
    }
}

/// When a field producer runs: on a variant of an input, or when its action or event fires.
pub open spec fn producer_when_spec(p: FieldProducerAst) -> Seq<char> {
    match p.condition {
        Some(c) => surface_spec(p.trigger.name@) + "의 "@ + marked_spec(c.input@, "이"@, "가"@)
            + " "@ + marked_spec(c.variant@, "이면"@, "라면"@),
        None => marked_spec(p.trigger.name@, "이"@, "가"@) + " "@ + trigger_kind_spec(p.trigger.kind)
            + " 때"@,
    }
}

pub open spec fn field_producer_spec(p: FieldProducerAst) -> Result<Seq<char>, Seq<char>> {
    if p.source is Template && p.condition is Some {
        Err(conditional_template_message())
    } else {
        Ok(subject_spec(p.declaration) + " "@ + producer_when_spec(p) + " "@ + producer_source_spec(
            p.source,
        ) + " "@ + surface_spec(p.output_model@) + "의 "@ + marked_spec(
            p.output_field@,
            "으로"@,
            "로"@,
        ) + " "@ + (if p.source is Template {
            "조합한다"@
        } else {
            "기록한다"@
        }) + ".\n"@)
    }
}

pub open spec fn relation_producer_spec(p: RelationProducerAst) -> Seq<char> {
    subject_spec(p.declaration) + " "@ + marked_spec(p.trigger.name@, "이"@, "가"@) + " "@
        + trigger_kind_spec(p.trigger.kind) + " 때 "@ + marked_spec(p.input@, "을"@, "를"@) + " "@
        + surface_spec(p.output_model@) + "의 "@ + marked_spec(p.relation@, "으로"@, "로"@)
        + " 연결한다.\n"@
}

pub open spec fn policy_spec(p: PolicyAst) -> Seq<char> {
    marked_spec(p.role@, "은"@, "는"@) + " "@ + surface_spec(p.model@) + "의 "@ + marked_spec(
        p.field@,
        "을"@,
        "를"@,
    ) + " "@ + surface_spec(p.action@) + "할 수 "@ + (match p.effect {
        PolicyEffectAst::Allow => "있다"@,
        PolicyEffectAst::Deny => "없다"@,
    }) + ".\n"@
}

/// The text of one declaration, or why the Korean grammar cannot write it.
pub open spec fn declaration_spec(d: DeclarationAst) -> Result<Seq<char>, Seq<char>> {
    match d {
        DeclarationAst::Enum(v) => Ok(enum_spec(v)),
        DeclarationAst::DataModel(v) => data_model_spec(v),
        DeclarationAst::Relation(v) => relation_spec(v),
        DeclarationAst::RelationalConstraint(v) => Ok(relational_constraint_spec(v)),
        DeclarationAst::Screen(v) => Ok(screen_spec(v)),
        DeclarationAst::ActionDataMutation(v) => Ok(action_data_mutation_spec(v)),
        DeclarationAst::SumDerivation(v) => Ok(sum_derivation_spec(v)),
        DeclarationAst::Recalculation(v) => Ok(recalculation_spec(v)),
        DeclarationAst::FieldIntent(v) => Ok(field_intent_spec(v)),
        DeclarationAst::Constraint(v) => match constraint_spec(v.expression) {
            Ok(t) => Ok(t + "\n"@),
            Err(e) => Err(e),
        },
        DeclarationAst::Role(v) => Ok(subject_spec(v.declaration) + " 역할이다.\n"@),
        DeclarationAst::Action(v) => Ok(subject_spec(v.declaration) + " 행동이다.\n"@),
        DeclarationAst::Event(v) => Ok(subject_spec(v.declaration) + " 사건이다.\n"@),
        DeclarationAst::ActionInput(v) => Ok(action_input_spec(v)),
        DeclarationAst::EventInput(v) => Ok(event_input_spec(v)),
        DeclarationAst::CreationBranch(v) => Ok(creation_branch_spec(v)),
        DeclarationAst::FieldProducer(v) => field_producer_spec(v),
        DeclarationAst::RelationProducer(v) => Ok(relation_producer_spec(v)),
        DeclarationAst::Policy(v) => Ok(policy_spec(v)),
    }
}

fn text_of(s: &str) -> (r: String)
    ensures
        r@ == s@,
{
    String::from_str(s)
}

fn topic(name: &str) -> (r: &'static str)
    ensures
        r@ == topic_spec(name@),
{
    if has_final_consonant(name) {
        "은"
    } else {
        "는"
    }
}

fn head(d: &NamedIdAst) -> (r: String)
    ensures
        r@ == head_spec(*d),
{
    let mut r = surface(d.name.as_str());
    r.append("(");
    r.append(d.id.as_str());
    r.append(")");
    r
}

fn subject(d: &NamedIdAst) -> (r: String)
    ensures
        r@ == subject_spec(*d),
{
    let mut r = head(d);
    r.append(topic(d.name.as_str()));
    r
}

fn write_enum(value: &EnumAst) -> (r: String)
    ensures
        r@ == enum_spec(*value),
{
    let mut r = subject(&value.declaration);
    r.append(" 다음 값 중 하나다.\n");
    let ghost start = r@;
    let mut k: usize = 0;
    while k < value.values.len()
        invariant
            k <= value.values@.len(),
            r@ == start + enum_values_text(value.values@.take(k as int)),
        decreases value.values@.len() - k,
    {
        r.append("    ");
        r.append(head(&value.values[k].declaration).as_str());
        r.append("\n");
        proof {
            let vs = value.values@.take(k + 1);
            assert(vs.drop_last() =~= value.values@.take(k as int));
        }
        k = k + 1;
    }
    proof {
        assert(value.values@.take(value.values@.len() as int) =~= value.values@);
    }
    r
}

fn required_word(required: bool) -> (r: &'static str)
    ensures
        r@ == (if required {
            "필수"@
        } else {
            "선택"@
        }),
{
    if required {
        "필수"
    } else {
        "선택"
    }
}

fn write_field_line(field: &FieldAst) -> (r: String)
    ensures
        r@ == field_line(*field),
{
    let mut r = text_of("    ");
    r.append(head(&field.declaration).as_str());
    r.append(": ");
    r.append(required_word(field.required));
    r.append(" ");
    r.append(type_reference(&field.value_type).as_str());
    r.append("\n");
    r
}

fn write_data_model(value: &DataModelAst) -> (r: Result<String, FormatError>)
    ensures
        match r {
            Ok(t) => data_model_spec(*value) == Ok::<Seq<char>, Seq<char>>(t@),
            Err(e) => data_model_spec(*value) == Err::<Seq<char>, Seq<char>>(e@),
        },
{
    if value.fields.len() == 0 {
        return Err(FormatError::unsupported_constraint(
            text_of("필드가 없는 데이터 모델은 Korean 문법으로 표현할 수 없습니다."),
        ));
    }
    let mut r = subject(&value.declaration);
    r.append(" 다음 필드들로 구성되어 있다.\n");
    let ghost start = r@;
    let mut k: usize = 0;
    while k < value.fields.len()
        invariant
            k <= value.fields@.len(),
            r@ == start + fields_text(value.fields@.take(k as int)),
        decreases value.fields@.len() - k,
    {
        r.append(write_field_line(&value.fields[k]).as_str());
        proof {
            let fs = value.fields@.take(k + 1);
            assert(fs.drop_last() =~= value.fields@.take(k as int));
        }
        k = k + 1;
    }
    proof {
        assert(value.fields@.take(value.fields@.len() as int) =~= value.fields@);
    }
    Ok(r)
}

fn write_relation(value: &RelationAst) -> (r: Result<String, FormatError>)
    ensures
        match r {
            Ok(t) => relation_spec(*value) == Ok::<Seq<char>, Seq<char>>(t@),
            Err(e) => relation_spec(*value) == Err::<Seq<char>, Seq<char>>(e@),
        },
{
    let models = &value.parameter_models;
    if models.len() == 1 {
        let mut r = marked(models[0].as_str(), "은", "는");
        r.append(" ");
        r.append(head(&value.declaration).as_str());
        r.append("에 해당할 수 있다.\n");
        Ok(r)
    } else if models.len() == 2 {
        let mut r = marked(models[0].as_str(), "은", "는");
        r.append(" ");
        r.append(marked(models[1].as_str(), "을", "를").as_str());
        r.append(" ");
        r.append(head(&value.declaration).as_str());
        r.append(directional_marker(value.declaration.name.as_str()));
        r.append(" 가질 수 있다.\n");
        Ok(r)
    } else {
        Err(FormatError::unsupported_constraint(text_of("Korean 문법은 단항 관계와 이항 관계만 표현할 수 있습니다.")))
    }
}

fn with_tail(head: String, tail: &str) -> (r: String)
    ensures
        r@ == head@ + tail@,
{
    let mut r = head;
    r.append(tail);
    r
}

fn write_relational_constraint(value: &RelationalConstraintAst) -> (r: String)
    ensures
        r@ == relational_constraint_spec(*value),
{
    match &value.constraint {
        RelationalConstraintKindAst::NonEmpty { model } => with_tail(
            marked(model.as_str(), "은", "는"),
            " 하나 이상 존재해야 한다.\n",
        ),
        RelationalConstraintKindAst::Required { model, relation } => {
            let mut r = text_of("모든 ");
            r.append(marked(model.as_str(), "은", "는").as_str());
            r.append(" ");
            r.append(marked(relation.as_str(), "을", "를").as_str());
            r.append(" 하나 이상 가져야 한다.\n");
            r
        },
        RelationalConstraintKindAst::Unique { model, relation } => {
            let mut r = text_of("각 ");
            r.append(marked(model.as_str(), "은", "는").as_str());
            r.append(" ");
            r.append(marked(relation.as_str(), "을", "를").as_str());
            r.append(" 최대 하나만 가질 수 있다.\n");
            r
        },
        RelationalConstraintKindAst::Exclusive { relations } => with_tail(
            reference_list(relations.as_slice()),
            " 중 둘 이상은 동시에 성립할 수 없다.\n",
        ),
        RelationalConstraintKindAst::Exhaustive { relations } => with_tail(
            reference_list(relations.as_slice()),
            " 중 하나 이상은 항상 성립해야 한다.\n",
        ),
        RelationalConstraintKindAst::Coexistent { relations } => with_tail(
            topic_list(relations.as_slice()),
            " 동시에 성립할 수 있다.\n",
        ),
    }
}

fn screen_operation(kind: &ScreenOperationKindAst) -> (r: &'static str)
    ensures
        r@ == screen_operation_spec(*kind),
{
    match kind {
        ScreenOperationKindAst::Create => "생성할",
        ScreenOperationKindAst::Read => "조회할",
        ScreenOperationKindAst::Input => "입력할",
        ScreenOperationKindAst::Update => "수정할",
        ScreenOperationKindAst::Delete => "삭제할",
    }
}

fn write_screen(value: &ScreenAst) -> (r: String)
    ensures
        r@ == screen_spec(*value),
{
    let mut r = head(&value.declaration);
    r.append("에서는");
    r.append(" ");
    if value.fields.len() == 0 {
        r.append(marked(value.model.as_str(), "을", "를").as_str());
    } else {
        r.append(surface(value.model.as_str()).as_str());
        r.append("의 ");
        r.append(object_list(value.fields.as_slice()).as_str());
    }
    r.append(" ");
    r.append(screen_operation(&value.operation));
    r.append(" 수 있다.\n");
    r
}

fn mutation(kind: &DataMutationKindAst) -> (r: &'static str)
    ensures
        r@ == mutation_spec(*kind),
{
    match kind {
        DataMutationKindAst::Create => "생성한다",
        DataMutationKindAst::Update => "수정한다",
        DataMutationKindAst::Delete => "삭제한다",
    }
}

fn write_action_data_mutation(value: &ActionDataMutationAst) -> (r: String)
    ensures
        r@ == action_data_mutation_spec(*value),
{
    let mut r = marked(value.action.as_str(), "이", "가");
    r.append(" 실행되면 ");
    r.append(marked(value.model.as_str(), "을", "를").as_str());
    r.append(" ");
    r.append(mutation(&value.mutation));
    r.append(".\n");
    r
}

fn write_sum_derivation(value: &SumDerivationAst) -> (r: String)
    ensures
        r@ == sum_derivation_spec(*value),
{
    let mut r = surface(value.target_model.as_str());
    r.append("의 ");
    r.append(marked(value.target_field.as_str(), "은", "는").as_str());
    r.append(" ");
    r.append(surface(value.source_model.as_str()).as_str());
    r.append("의 ");
    r.append(surface(value.source_field.as_str()).as_str());
    r.append("의 합계로 계산한다.\n");
    r
}

fn write_recalculation(value: &RecalculationAst) -> (r: String)
    ensures
        r@ == recalculation_spec(*value),
{
    let mut r = surface(value.source_model.as_str());
    r.append("의 ");
    r.append(marked(value.source_field.as_str(), "이", "가").as_str());
    r.append(" 바뀔 때 ");
    r.append(surface(value.target_model.as_str()).as_str());
    r.append("의 ");
    r.append(marked(value.target_field.as_str(), "을", "를").as_str());
    r.append(" 다시 계산한다.\n");
    r
}

fn intent(kind: &FieldIntentKindAst) -> (r: &'static str)
    ensures
        r@ == intent_spec(*kind),
{
    match kind {
        FieldIntentKindAst::Internal => "내부 관리에만 사용한다",
        FieldIntentKindAst::Hidden => "사용자 화면에서 조회하지 않는다",
    }
}

fn write_field_intent(value: &FieldIntentAst) -> (r: String)
    ensures
        r@ == field_intent_spec(*value),
{
    let mut r = surface(value.model.as_str());
    r.append("의 ");
    r.append(marked(value.field.as_str(), "은", "는").as_str());
    r.append(" ");
    r.append(intent(&value.intent));
    r.append(".\n");
    r
}

fn input_kind(kind: &ActionInputKindAst) -> (r: String)
    ensures
        r@ == input_kind_spec(*kind),
{
    match kind {
        ActionInputKindAst::ExistingModel { model } => {
            let mut r = text_of("기존 ");
            r.append(marked(model.as_str(), "을", "를").as_str());
            r
        },
        ActionInputKindAst::Value { value_type } => marked(
            type_reference(value_type).as_str(),
            "을",
            "를",
        ),
    }
}

fn input_sentence(owner: &str, kind: &ActionInputKindAst, d: &NamedIdAst, verb: &str) -> (r:
    String)
    ensures
        r@ == marked_spec(owner@, "은"@, "는"@) + " "@ + input_kind_spec(*kind) + " "@ + head_spec(
            *d,
        ) + directional_marker_spec(d.name@) + verb@,
{
    let mut r = marked(owner, "은", "는");
    r.append(" ");
    r.append(input_kind(kind).as_str());
    r.append(" ");
    r.append(head(d).as_str());
    r.append(directional_marker(d.name.as_str()));
    r.append(verb);
    r
}

fn write_creation_branch(value: &CreationBranchAst) -> (r: String)
    ensures
        r@ == creation_branch_spec(*value),
{
    let mut r = subject(&value.declaration);
    r.append(" ");
    r.append(surface(value.action.as_str()).as_str());
    r.append("의 ");
    r.append(marked(value.input.as_str(), "이", "가").as_str());
    r.append(" ");
    r.append(marked(value.variant.as_str(), "이면", "라면").as_str());
    r.append(" ");
    r.append(marked(value.output_model.as_str(), "을", "를").as_str());
    r.append(" ");
    match value.decision {
        CreationDecisionAst::Create => r.append("하나 생성한다"),
        CreationDecisionAst::Skip => r.append("생성하지 않는다"),
    }
    r.append(".\n");
    r
}

fn trigger_kind(kind: &ProducerTriggerKindAst) -> (r: &'static str)
    ensures
        r@ == trigger_kind_spec(*kind),
{
    match kind {
        ProducerTriggerKindAst::Action => "실행될",
        ProducerTriggerKindAst::Event => "발생할",
    }
}

fn producer_source(source: &FieldProducerSourceAst) -> (r: String)
    ensures
        r@ == producer_source_spec(*source),
{
    match source {
        FieldProducerSourceAst::ActionInput { input } => marked(input.as_str(), "을", "를"),
        FieldProducerSourceAst::InputField { input, field } => {
            let mut r = surface(input.as_str());
            r.append("의 ");
            r.append(marked(field.as_str(), "을", "를").as_str());
            r
        },
        FieldProducerSourceAst::Constant { literal } => {
            let mut r = text_of("상수 ");
            r.append(marked(literal_text(literal).as_str(), "을", "를").as_str());
            r
        },
        FieldProducerSourceAst::Template { value } => with_tail(
            encode_json_string(value.as_str()),
            "를",
        ),
    }
}

fn producer_when(value: &FieldProducerAst) -> (r: String)
    ensures
        r@ == producer_when_spec(*value),
{
    match &value.condition {
        Some(condition) => {
            let mut r = surface(value.trigger.name.as_str());
            r.append("의 ");
            r.append(marked(condition.input.as_str(), "이", "가").as_str());
            r.append(" ");
            r.append(marked(condition.variant.as_str(), "이면", "라면").as_str());
            r
        },
        None => {
            let mut r = marked(value.trigger.name.as_str(), "이", "가");
            r.append(" ");
            r.append(trigger_kind(&value.trigger.kind));
            r.append(" 때");
            r
        },
    }
}

fn write_field_producer(value: &FieldProducerAst) -> (r: Result<String, FormatError>)
    ensures
        match r {
            Ok(t) => field_producer_spec(*value) == Ok::<Seq<char>, Seq<char>>(t@),
            Err(e) => field_producer_spec(*value) == Err::<Seq<char>, Seq<char>>(e@),
        },
{
    let template = match &value.source {
        FieldProducerSourceAst::Template { .. } => true,
        _ => false,
    };
    if template && value.condition.is_some() {
        return Err(FormatError::unsupported_constraint(
            text_of("조건부 template producer는 현재 Korean 문법으로 표현할 수 없습니다."),
        ));
    }
    let mut r = subject(&value.declaration);
    r.append(" ");
    r.append(producer_when(value).as_str());
    r.append(" ");
    r.append(producer_source(&value.source).as_str());
    r.append(" ");
    r.append(surface(value.output_model.as_str()).as_str());
    r.append("의 ");
    r.append(marked(value.output_field.as_str(), "으로", "로").as_str());
    r.append(" ");
    if template {
        r.append("조합한다");
    } else {
        r.append("기록한다");
    }
    r.append(".\n");
    Ok(r)
}

fn write_relation_producer(value: &RelationProducerAst) -> (r: String)
    ensures
        r@ == relation_producer_spec(*value),
{
    let mut r = subject(&value.declaration);
    r.append(" ");
    r.append(marked(value.trigger.name.as_str(), "이", "가").as_str());
    r.append(" ");
    r.append(trigger_kind(&value.trigger.kind));
    r.append(" 때 ");
    r.append(marked(value.input.as_str(), "을", "를").as_str());
    r.append(" ");
    r.append(surface(value.output_model.as_str()).as_str());
    r.append("의 ");
    r.append(marked(value.relation.as_str(), "으로", "로").as_str());
    r.append(" 연결한다.\n");
    r
}

fn write_policy(value: &PolicyAst) -> (r: String)
    ensures
        r@ == policy_spec(*value),
{
    let mut r = marked(value.role.as_str(), "은", "는");
    r.append(" ");
    r.append(surface(value.model.as_str()).as_str());
    r.append("의 ");
    r.append(marked(value.field.as_str(), "을", "를").as_str());
    r.append(" ");
    r.append(surface(value.action.as_str()).as_str());
    r.append("할 수 ");
    match value.effect {
        PolicyEffectAst::Allow => r.append("있다"),
        PolicyEffectAst::Deny => r.append("없다"),
    }
    r.append(".\n");
    r
}

/// Writes one declaration; the error says why the Korean grammar has no sentence for it.
pub fn write_declaration(declaration: &DeclarationAst) -> (r: Result<String, FormatError>)
    ensures
        match r {
            Ok(t) => declaration_spec(*declaration) == Ok::<Seq<char>, Seq<char>>(t@),
            Err(e) => declaration_spec(*declaration) == Err::<Seq<char>, Seq<char>>(e@),
        },
{
    match declaration {
        DeclarationAst::Enum(v) => Ok(write_enum(v)),
        DeclarationAst::DataModel(v) => write_data_model(v),
        DeclarationAst::Relation(v) => write_relation(v),
        DeclarationAst::RelationalConstraint(v) => Ok(write_relational_constraint(v)),
        DeclarationAst::Screen(v) => Ok(write_screen(v)),
        DeclarationAst::ActionDataMutation(v) => Ok(write_action_data_mutation(v)),
        DeclarationAst::SumDerivation(v) => Ok(write_sum_derivation(v)),
        DeclarationAst::Recalculation(v) => Ok(write_recalculation(v)),
        DeclarationAst::FieldIntent(v) => Ok(write_field_intent(v)),
        DeclarationAst::Constraint(v) => match constraint(&v.expression) {
            Ok(t) => Ok(with_tail(t, "\n")),
            Err(e) => Err(e),
        },
        DeclarationAst::Role(v) => Ok(with_tail(subject(&v.declaration), " 역할이다.\n")),
        DeclarationAst::Action(v) => Ok(with_tail(subject(&v.declaration), " 행동이다.\n")),
        DeclarationAst::Event(v) => Ok(with_tail(subject(&v.declaration), " 사건이다.\n")),
        DeclarationAst::ActionInput(v) => Ok(
            input_sentence(v.action.as_str(), &v.kind, &v.declaration, " 입력받는다.\n"),
        ),
        DeclarationAst::EventInput(v) => Ok(
            input_sentence(v.event.as_str(), &v.kind, &v.declaration, " 담는다.\n"),
        ),
        DeclarationAst::CreationBranch(v) => Ok(write_creation_branch(v)),
        DeclarationAst::FieldProducer(v) => write_field_producer(v),
        DeclarationAst::RelationProducer(v) => Ok(write_relation_producer(v)),
        DeclarationAst::Policy(v) => Ok(write_policy(v)),
    }
}

/// The index of the final consonant of the Hangul syllable `c`: 0 when it has none, 8 for ㄹ.
pub open spec fn final_consonant_index(c: char) -> int {
    (c as int - 0xAC00) % 28
}

/// The name ends in a Hangul syllable whose final consonant is one other than ㄹ.
pub open spec fn ends_in_non_rieul_final(v: Seq<char>) -> bool {
    &&& v.len() > 0
    &&& '가' <= v.last() && v.last() <= '힣'
    &&& final_consonant_index(v.last()) != 0
    &&& final_consonant_index(v.last()) != 8
}

/// The directional particle after a name is 으로 exactly when the name ends in a Hangul
/// syllable with a final consonant other than ㄹ; after an open syllable, a final ㄹ or anything
/// that is no Hangul syllable it is 로.
pub proof fn directional_particle_follows_the_last_syllable(v: Seq<char>)
    ensures
        ends_in_non_rieul_final(v) ==> directional_marker_spec(v) == "으로"@,
        !ends_in_non_rieul_final(v) ==> directional_marker_spec(v) == "로"@,
{
}

/// An action's input sentence ends in `(id)로 입력받는다.` when the input's name ends in an open
/// syllable or a final ㄹ, and in `(id)으로 입력받는다.` when it ends in another final consonant.
pub proof fn input_sentences_take_the_particle_of_their_name(a: ActionInputAst)
    ensures
        ({
            let t = action_input_spec(a);
            let tail = " 입력받는다.\n"@;
            if ends_in_non_rieul_final(a.declaration.name@) {
                &&& t.len() >= tail.len() + 3
                &&& t.subrange(t.len() - tail.len() - 3, t.len() as int) == ")으로"@ + tail
            } else {
                &&& t.len() >= tail.len() + 2
                &&& t.subrange(t.len() - tail.len() - 2, t.len() as int) == ")로"@ + tail
            }
        }),
{
    reveal_strlit(" 입력받는다.\n");
    reveal_strlit(")으로");
    reveal_strlit(")로");
    reveal_strlit("으로");
    reveal_strlit("로");
    reveal_strlit(")");
    let d = a.declaration;
    let pre = marked_spec(a.action@, "은"@, "는"@) + " "@ + input_kind_spec(a.kind) + " "@ + surface_spec(d.name@)
        + "("@ + d.id@;
    let m = directional_marker_spec(d.name@);
    let tail = " 입력받는다.\n"@;
    assert(action_input_spec(a) =~= pre + ")"@ + m + tail);
    let t = action_input_spec(a);
    if ends_in_non_rieul_final(d.name@) {
        assert(m == "으로"@);
        assert(t.subrange(t.len() - tail.len() - 3, t.len() as int) =~= ")으로"@ + tail);
    } else {
        assert(m == "로"@);
        assert(t.subrange(t.len() - tail.len() - 2, t.len() as int) =~= ")로"@ + tail);
    }
}

/// An event's payload sentence ends in `(id)로 담는다.` or `(id)으로 담는다.` after the
/// payload's name, as the name's last syllable asks.
pub proof fn payload_sentences_take_the_particle_of_their_name(a: EventInputAst)
    ensures
        ({
            let t = event_input_spec(a);
            let tail = " 담는다.\n"@;
            if ends_in_non_rieul_final(a.declaration.name@) {
                &&& t.len() >= tail.len() + 3
                &&& t.subrange(t.len() - tail.len() - 3, t.len() as int) == ")으로"@ + tail
            } else {
                &&& t.len() >= tail.len() + 2
                &&& t.subrange(t.len() - tail.len() - 2, t.len() as int) == ")로"@ + tail
            }
        }),
{
    reveal_strlit(" 담는다.\n");
    reveal_strlit(")으로");
    reveal_strlit(")로");
    reveal_strlit("으로");
    reveal_strlit("로");
    reveal_strlit(")");
    let d = a.declaration;
    let pre = marked_spec(a.event@, "은"@, "는"@) + " "@ + input_kind_spec(a.kind) + " "@ + surface_spec(d.name@)
        + "("@ + d.id@;
    let m = directional_marker_spec(d.name@);
    let tail = " 담는다.\n"@;
    assert(event_input_spec(a) =~= pre + ")"@ + m + tail);
    let t = event_input_spec(a);
    if ends_in_non_rieul_final(d.name@) {
        assert(t.subrange(t.len() - tail.len() - 3, t.len() as int) =~= ")으로"@ + tail);
    } else {
        assert(t.subrange(t.len() - tail.len() - 2, t.len() as int) =~= ")로"@ + tail);
    }
}

/// A relation between two models ends in `(id)로 가질 수 있다.` or `(id)으로 가질 수 있다.` after
/// the relation's name, as the name's last syllable asks.
pub proof fn relation_sentences_take_the_particle_of_their_name(r: RelationAst)
    requires
        r.parameter_models@.len() == 2,
    ensures
        ({
            let t = relation_spec(r)->Ok_0;
            let tail = " 가질 수 있다.\n"@;
            &&& relation_spec(r) is Ok
            &&& if ends_in_non_rieul_final(r.declaration.name@) {
                &&& t.len() >= tail.len() + 3
                &&& t.subrange(t.len() - tail.len() - 3, t.len() as int) == ")으로"@ + tail
            } else {
                &&& t.len() >= tail.len() + 2
                &&& t.subrange(t.len() - tail.len() - 2, t.len() as int) == ")로"@ + tail
            }
        }),
{
    reveal_strlit(" 가질 수 있다.\n");
    reveal_strlit(")으로");
    reveal_strlit(")로");
    reveal_strlit("으로");
    reveal_strlit("로");
    reveal_strlit(")");
    let ms = r.parameter_models@;
    let d = r.declaration;
    let pre = marked_spec(ms[0]@, "은"@, "는"@) + " "@ + marked_spec(ms[1]@, "을"@, "를"@) + " "@ + surface_spec(
        d.name@,
    ) + "("@ + d.id@;
    let m = directional_marker_spec(d.name@);
    let tail = " 가질 수 있다.\n"@;
    assert(relation_spec(r)->Ok_0 =~= pre + ")"@ + m + tail);
    let t = relation_spec(r)->Ok_0;
    if ends_in_non_rieul_final(d.name@) {
        assert(t.subrange(t.len() - tail.len() - 3, t.len() as int) =~= ")으로"@ + tail);
    } else {
        assert(t.subrange(t.len() - tail.len() - 2, t.len() as int) =~= ")로"@ + tail);
    }
}

} // verus!
