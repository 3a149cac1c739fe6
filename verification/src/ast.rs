//! Syntax trees of sentence declarations and of the frontmatter block.
use vstd::prelude::*;

use crate::diagnostic::Span;

verus! {

#[derive(Clone, Debug, PartialEq, Eq)]
pub struct NamedIdAst {
    pub name: String,
    pub id: String,
    pub span: Span,
}

#[derive(Clone, Debug, PartialEq, Eq)]
pub struct ModuleAst {
    pub declaration: NamedIdAst,
    pub span: Span,
}

#[derive(Clone, Debug, PartialEq, Eq)]
pub struct EnumValueAst {
    pub declaration: NamedIdAst,
    pub span: Span,
}

#[derive(Clone, Debug, PartialEq, Eq)]
pub struct EnumAst {
    pub declaration: NamedIdAst,
    pub values: Vec<EnumValueAst>,
    pub span: Span,
}

#[derive(Debug, PartialEq, Eq)]
pub enum TypeReferenceAst {
    String,
    Integer,
    Boolean,
    Decimal,
    Date,
    Time,
    DateTime,
    Duration,
    Latitude,
    Longitude,
    Money(String),
    Percentage,
    Quantity(String),
    Coordinate,
    LocalDateTime,
    ZonedDateTime,
    CalendarDuration,
    Uuid,
    Email,
    Url,
    PhoneNumber,
    IpAddress,
    Cidr,
    CountryCode,
    LanguageCode,
    CurrencyCode,
    List(Box<TypeReferenceAst>),
    SetOf(Box<TypeReferenceAst>),
    MapOf(Box<TypeReferenceAst>, Box<TypeReferenceAst>),
    Reference(String),
    Named(String),
}

#[derive(Debug, PartialEq, Eq)]
pub struct FieldAst {
    pub declaration: NamedIdAst,
    pub required: bool,
    pub value_type: TypeReferenceAst,
    pub span: Span,
}

#[derive(Debug, PartialEq, Eq)]
pub struct DataModelAst {
    pub declaration: NamedIdAst,
    pub fields: Vec<FieldAst>,
    pub span: Span,
}

#[derive(Clone, Debug, PartialEq, Eq)]
pub struct RelationAst {
    pub declaration: NamedIdAst,
    /// Ordered model parameters. `required` and `unique` use the first model
    /// as their anchor.
    pub parameter_models: Vec<String>,
    pub span: Span,
}

#[derive(Clone, Debug, PartialEq, Eq)]
pub enum RelationalConstraintKindAst {
    NonEmpty { model: String },
    Required { model: String, relation: String },
    Unique { model: String, relation: String },
    Exclusive { relations: Vec<String> },
    Exhaustive { relations: Vec<String> },
    Coexistent { relations: Vec<String> },
}

#[derive(Clone, Debug, PartialEq, Eq)]
pub struct RelationalConstraintAst {
    pub constraint: RelationalConstraintKindAst,
    pub span: Span,
}

#[derive(Clone, Copy, Debug, PartialEq, Eq, Structural)]
pub enum ScreenOperationKindAst {
    Create,
    Read,
    Input,
    Update,
    Delete,
}

#[derive(Clone, Debug, PartialEq, Eq)]
pub struct ScreenAst {
    pub declaration: NamedIdAst,
    pub model: String,
    pub fields: Vec<String>,
    pub operation: ScreenOperationKindAst,
    pub span: Span,
}

#[derive(Clone, Copy, Debug, PartialEq, Eq, Structural)]
pub enum DataMutationKindAst {
    Create,
    Update,
    Delete,
}

#[derive(Clone, Debug, PartialEq, Eq)]
pub struct ActionDataMutationAst {
    pub action: String,
    pub model: String,
    pub mutation: DataMutationKindAst,
    pub span: Span,
}

#[derive(Clone, Debug, PartialEq, Eq)]
pub struct SumDerivationAst {
    pub target_model: String,
    pub target_field: String,
    pub source_model: String,
    pub source_field: String,
    pub span: Span,
}

#[derive(Clone, Debug, PartialEq, Eq)]
pub struct RecalculationAst {
    pub source_model: String,
    pub source_field: String,
    pub target_model: String,
    pub target_field: String,
    pub span: Span,
}

#[derive(Clone, Copy, Debug, PartialEq, Eq, Structural)]
pub enum FieldIntentKindAst {
    Internal,
    Hidden,
}

#[derive(Clone, Debug, PartialEq, Eq)]
pub struct FieldIntentAst {
    pub model: String,
    pub field: String,
    pub intent: FieldIntentKindAst,
    pub span: Span,
}

#[derive(Clone, Copy, Debug, PartialEq, Eq, Structural)]
pub enum RelationOperatorAst {
    Equal,
    NotEqual,
    LessThan,
    LessThanOrEqual,
    GreaterThan,
    GreaterThanOrEqual,
}

#[derive(Clone, Debug, PartialEq, Eq)]
pub enum LiteralAst {
    String(String),
    Integer(String),
    Boolean(bool),
    Named(String),
}

#[derive(Clone, Debug, PartialEq, Eq)]
pub enum OperandAst {
    Field(String),
    Literal(LiteralAst),
}

#[derive(Clone, Debug, PartialEq, Eq)]
pub struct ConstraintExpressionAst {
    pub model: String,
    pub left: OperandAst,
    pub operator: RelationOperatorAst,
    pub right: OperandAst,
    pub span: Span,
}

#[derive(Clone, Debug, PartialEq, Eq)]
pub struct ConstraintAst {
    pub declaration: NamedIdAst,
    pub expression: ConstraintExpressionAst,
}

#[derive(Clone, Debug, PartialEq, Eq)]
pub struct RoleAst {
    pub declaration: NamedIdAst,
    pub span: Span,
}

#[derive(Clone, Debug, PartialEq, Eq)]
pub struct ActionAst {
    pub declaration: NamedIdAst,
    pub span: Span,
}

#[derive(Clone, Debug, PartialEq, Eq)]
pub struct EventAst {
    pub declaration: NamedIdAst,
    pub span: Span,
}

#[derive(Debug, PartialEq, Eq)]
pub enum ActionInputKindAst {
    ExistingModel { model: String },
    Value { value_type: TypeReferenceAst },
}

#[derive(Debug, PartialEq, Eq)]
pub struct ActionInputAst {
    pub action: String,
    pub declaration: NamedIdAst,
    pub kind: ActionInputKindAst,
    pub span: Span,
}

#[derive(Debug, PartialEq, Eq)]
pub struct EventInputAst {
    pub event: String,
    pub declaration: NamedIdAst,
    pub kind: ActionInputKindAst,
    pub span: Span,
}

#[derive(Clone, Copy, Debug, PartialEq, Eq, Structural)]
pub enum CreationDecisionAst {
    Create,
    Skip,
}

/// A single explicit enum branch that conditionally creates one output model.
/// The condition is intentionally limited to one direct action input and one
/// enum variant; broader predicates have no Korean surface in this slice.
#[derive(Clone, Debug, PartialEq, Eq)]
pub struct CreationBranchAst {
    pub declaration: NamedIdAst,
    pub action: String,
    pub input: String,
    pub variant: String,
    pub output_model: String,
    pub decision: CreationDecisionAst,
    pub span: Span,
}

#[derive(Clone, Debug, PartialEq, Eq)]
pub enum FieldProducerSourceAst {
    ActionInput { input: String },
    InputField { input: String, field: String },
    Constant { literal: LiteralAst },
    Template { value: String },
}

/// The only payload condition in this slice: one direct enum action input
/// equal to one of that enum's declared variants.
#[derive(Clone, Debug, PartialEq, Eq)]
pub struct FieldProducerConditionAst {
    pub input: String,
    pub variant: String,
}

/// The Korean verb phrase makes the owner explicit: `실행될 때` is an Action
/// invocation and `발생할 때` is an immutable Event payload.
#[derive(Clone, Copy, Debug, PartialEq, Eq, Structural)]
pub enum ProducerTriggerKindAst {
    Action,
    Event,
}

#[derive(Clone, Debug, PartialEq, Eq)]
pub struct ProducerTriggerAst {
    pub name: String,
    pub kind: ProducerTriggerKindAst,
}

#[derive(Clone, Debug, PartialEq, Eq)]
pub struct FieldProducerAst {
    pub declaration: NamedIdAst,
    pub trigger: ProducerTriggerAst,
    pub output_model: String,
    pub output_field: String,
    pub source: FieldProducerSourceAst,
    pub condition: Option<FieldProducerConditionAst>,
    pub span: Span,
}

#[derive(Clone, Debug, PartialEq, Eq)]
pub struct RelationProducerAst {
    pub declaration: NamedIdAst,
    pub trigger: ProducerTriggerAst,
    pub input: String,
    pub output_model: String,
    pub relation: String,
    pub span: Span,
}

#[derive(Clone, Copy, Debug, PartialEq, Eq, Structural)]
pub enum PolicyEffectAst {
    Allow,
    Deny,
}

#[derive(Clone, Debug, PartialEq, Eq)]
pub struct PolicyAst {
    pub declaration: NamedIdAst,
    pub role: String,
    pub model: String,
    pub field: String,
    pub action: String,
    pub effect: PolicyEffectAst,
    pub span: Span,
}

#[derive(Debug, PartialEq, Eq)]
pub enum DeclarationAst {
    Enum(EnumAst),
    DataModel(DataModelAst),
    Relation(RelationAst),
    RelationalConstraint(RelationalConstraintAst),
    Screen(ScreenAst),
    ActionDataMutation(ActionDataMutationAst),
    SumDerivation(SumDerivationAst),
    Recalculation(RecalculationAst),
    FieldIntent(FieldIntentAst),
    Constraint(ConstraintAst),
    Role(RoleAst),
    Action(ActionAst),
    Event(EventAst),
    ActionInput(ActionInputAst),
    EventInput(EventInputAst),
    CreationBranch(CreationBranchAst),
    FieldProducer(FieldProducerAst),
    RelationProducer(RelationProducerAst),
    Policy(PolicyAst),
}

/// 머리말이 다른 선언을 가리키는 방법.
///
/// 문장과 같은 방식으로 적으므로 stable ID 가 아니라 한국어 표시 이름이 올 수 있다. 이름
/// 해석은 이후 단계의 일이라 여기서는 적힌 글자를 그대로 들고 있는다.
#[derive(Clone, Debug, PartialEq, Eq)]
pub struct FrontmatterRefAst {
    pub text: String,
    pub span: Span,
}

#[derive(Debug, PartialEq, Eq)]
pub struct CategoryAst {
    pub declaration: NamedIdAst,
    pub children: Vec<CategoryAst>,
    pub screens: Vec<FrontmatterRefAst>,
    pub span: Span,
}

#[derive(Clone, Copy, Debug, PartialEq, Eq, Structural)]
pub enum ScreenLayoutKindAst {
    Page,
    Popup,
    Tab,
    Link,
}

/// 레이아웃 어휘. 고정 목록이며 좌표나 시각 속성은 담지 않는다 — 그것은 디자인의 영역이다.
#[derive(Debug, PartialEq, Eq)]
pub enum LayoutElementAst {
    Header {
        id: Option<String>,
        children: Vec<LayoutElementAst>,
        span: Span,
    },
    Section {
        id: Option<String>,
        children: Vec<LayoutElementAst>,
        span: Span,
    },
    Heading {
        id: Option<String>,
        text: String,
        span: Span,
    },
    Form {
        id: Option<String>,
        inputs: Vec<LayoutElementAst>,
        span: Span,
    },
    Input {
        id: Option<String>,
        field: FrontmatterRefAst,
        span: Span,
    },
    List {
        id: Option<String>,
        model: FrontmatterRefAst,
        fields: Vec<FrontmatterRefAst>,
        span: Span,
    },
    Button {
        id: String,
        name: String,
        action: Option<FrontmatterRefAst>,
        span: Span,
    },
    /// 선언할 수 없는 자리의 이름표. 지도와 차트가 여기 들어간다.
    Placeholder {
        id: Option<String>,
        text: String,
        span: Span,
    },
}

#[derive(Debug, PartialEq, Eq)]
pub struct ScreenLayoutAst {
    pub screen: FrontmatterRefAst,
    pub kind: Option<ScreenLayoutKindAst>,
    pub elements: Vec<LayoutElementAst>,
    pub span: Span,
}

/// 흐름 하나. 출발은 화면 안의 요소이고 도착은 화면이다.
#[derive(Clone, Debug, PartialEq, Eq)]
pub struct ScreenPathAst {
    pub source_screen: FrontmatterRefAst,
    pub source_element: FrontmatterRefAst,
    pub target_screen: FrontmatterRefAst,
    /// 사람이 읽는 설명. 조건식이 아니므로 해석하지 않는다.
    pub label: Option<String>,
    pub span: Span,
}

#[derive(Clone, Debug, PartialEq, Eq)]
pub struct WorkflowDataAst {
    pub model: FrontmatterRefAst,
    pub field: FrontmatterRefAst,
    pub span: Span,
}

#[derive(Clone, Debug, PartialEq, Eq)]
pub struct WorkflowCompletionAst {
    pub screen: FrontmatterRefAst,
    pub required_data: Vec<WorkflowDataAst>,
    pub span: Span,
}

#[derive(Clone, Debug, PartialEq, Eq)]
pub struct WorkflowAcquisitionAst {
    pub source_screen: FrontmatterRefAst,
    pub source_element: FrontmatterRefAst,
    pub data: Vec<WorkflowDataAst>,
    pub span: Span,
}

#[derive(Clone, Debug, PartialEq, Eq)]
pub struct WorkflowAst {
    pub declaration: NamedIdAst,
    pub start_screen: FrontmatterRefAst,
    pub initial_data: Vec<WorkflowDataAst>,
    pub acquisitions: Vec<WorkflowAcquisitionAst>,
    pub completions: Vec<WorkflowCompletionAst>,
    pub span: Span,
}

#[derive(Debug, PartialEq, Eq)]
pub struct FrontmatterAst {
    pub module: Option<NamedIdAst>,
    pub information_architecture: Vec<CategoryAst>,
    pub screens: Vec<ScreenLayoutAst>,
    pub paths: Vec<ScreenPathAst>,
    pub workflows: Vec<WorkflowAst>,
    pub span: Span,
}

#[derive(Debug, PartialEq, Eq)]
pub struct DocumentAst {
    pub frontmatter: Option<FrontmatterAst>,
    pub module: ModuleAst,
    pub declarations: Vec<DeclarationAst>,
}

/// What a frontmatter reference holds: its text and where it was written.
pub struct RefView {
    pub text: Seq<char>,
    pub span: Span,
}

impl View for FrontmatterRefAst {
    type V = RefView;

    open spec fn view(&self) -> RefView {
        RefView { text: self.text@, span: self.span }
    }
}

/// A layout element with its strings as character sequences and its children as views.
pub enum LayoutView {
    Header { id: Option<Seq<char>>, children: Seq<LayoutView>, span: Span },
    Section { id: Option<Seq<char>>, children: Seq<LayoutView>, span: Span },
    Heading { id: Option<Seq<char>>, text: Seq<char>, span: Span },
    Form { id: Option<Seq<char>>, inputs: Seq<LayoutView>, span: Span },
    Input { id: Option<Seq<char>>, field: RefView, span: Span },
    List { id: Option<Seq<char>>, model: RefView, fields: Seq<RefView>, span: Span },
    Button { id: Seq<char>, name: Seq<char>, action: Option<RefView>, span: Span },
    Placeholder { id: Option<Seq<char>>, text: Seq<char>, span: Span },
}

pub open spec fn opt_text(o: Option<String>) -> Option<Seq<char>> {
    match o {
        Some(s) => Some(s@),
        None => None,
    }
}

pub open spec fn opt_ref_view(o: Option<FrontmatterRefAst>) -> Option<RefView> {
    match o {
        Some(r) => Some(r@),
        None => None,
    }
}

pub open spec fn refs_view(rs: Seq<FrontmatterRefAst>) -> Seq<RefView> {
    rs.map_values(|r: FrontmatterRefAst| r@)
}

pub open spec fn layout_view(e: LayoutElementAst) -> LayoutView
    decreases e,
{
    match e {
        LayoutElementAst::Header { id, children, span } => {
            proof {
                assert(decreases_to!(children => children@));
            }
            LayoutView::Header { id: opt_text(id), children: layouts_view(children@), span }
        },
        LayoutElementAst::Section { id, children, span } => {
            proof {
                assert(decreases_to!(children => children@));
            }
            LayoutView::Section { id: opt_text(id), children: layouts_view(children@), span }
        },
        LayoutElementAst::Heading { id, text, span } => LayoutView::Heading {
            id: opt_text(id),
            text: text@,
            span,
        },
        LayoutElementAst::Form { id, inputs, span } => {
            proof {
                assert(decreases_to!(inputs => inputs@));
            }
            LayoutView::Form { id: opt_text(id), inputs: layouts_view(inputs@), span }
        },
        LayoutElementAst::Input { id, field, span } => LayoutView::Input {
            id: opt_text(id),
            field: field@,
            span,
        },
        LayoutElementAst::List { id, model, fields, span } => LayoutView::List {
            id: opt_text(id),
            model: model@,
            fields: refs_view(fields@),
            span,
        },
        LayoutElementAst::Button { id, name, action, span } => LayoutView::Button {
            id: id@,
            name: name@,
            action: opt_ref_view(action),
            span,
        },
        LayoutElementAst::Placeholder { id, text, span } => LayoutView::Placeholder {
            id: opt_text(id),
            text: text@,
            span,
        },
    }
}

pub open spec fn layouts_view(es: Seq<LayoutElementAst>) -> Seq<LayoutView>
    decreases es,
{
    if es.len() == 0 {
        Seq::empty()
    } else {
        proof {
            assert(decreases_to!(es => es[es.len() - 1]));
            assert(decreases_to!(es => es.subrange(0, es.len() - 1)));
        }
        layouts_view(es.subrange(0, es.len() - 1)).push(layout_view(es[es.len() - 1]))
    }
}

/// Each element of a forest is seen by itself.
pub proof fn lemma_layouts_view(es: Seq<LayoutElementAst>)
    ensures
        layouts_view(es) =~= es.map_values(|e: LayoutElementAst| layout_view(e)),
    decreases es.len(),
{
    if es.len() > 0 {
        lemma_layouts_view(es.subrange(0, es.len() - 1));
    }
}

impl View for LayoutElementAst {
    type V = LayoutView;

    open spec fn view(&self) -> LayoutView {
        layout_view(*self)
    }
}

} // verus!
