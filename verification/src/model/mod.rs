//! Diagram data model: nodes, edges, containers, diagram specs, and their validation.
use vstd::prelude::*;

pub mod validate;

pub use validate::validate_spec;

verus! {

/// Library version.
pub fn version() -> (v: &'static str)
    ensures
        v@ == "0.2.1"@,
{
    "0.2.1"
}

/// Color ramps available to nodes/containers.
#[derive(Debug, Clone, Copy, PartialEq, Eq, Structural)]
#[non_exhaustive]
pub enum ColorRamp {
    Purple,
    Teal,
    Coral,
    Pink,
    Gray,
    Blue,
    Green,
    Amber,
    Red,
}

/// Theme selection for specs.
#[derive(Debug, Clone, Copy, PartialEq, Eq, Structural)]
pub enum Theme {
    Light,
    Dark,
    Auto,
}

/// Primary direction for layout engines.
#[derive(Debug, Clone, Copy, PartialEq, Eq, Structural)]
pub enum Direction {
    TopDown,
    LeftRight,
    BottomUp,
    RightLeft,
}

/// Node shapes.
#[derive(Debug, Clone, Copy, PartialEq, Eq, Structural)]
pub enum NodeShape {
    Rect,
    Pill,
    Diamond,
    Circle,
}

/// Edge style variants.
#[derive(Debug, Clone, Copy, PartialEq, Eq, Structural)]
pub enum EdgeStyle {
    Solid,
    Dashed,
}

impl Default for EdgeStyle {
    fn default() -> (s: Self)
        ensures
            s == EdgeStyle::Solid,
    {
        EdgeStyle::Solid
    }
}

/// Arrow styles for edges.
#[derive(Debug, Clone, Copy, PartialEq, Eq, Structural)]
pub enum ArrowStyle {
    Open,
    Closed,
    NoArrow,
}

/// The arrow style an edge gets when its description names none.
pub fn default_arrow_style() -> (a: ArrowStyle)
    ensures
        a == ArrowStyle::Closed,
{
    ArrowStyle::Closed
}

/// Node identifier type.
#[derive(Debug, PartialEq, Eq, Hash)]
pub struct NodeId(String);

impl View for NodeId {
    type V = Seq<char>;

    closed spec fn view(&self) -> Seq<char> {
        self.0@
    }
}

impl Clone for NodeId {
    fn clone(&self) -> (r: Self)
        ensures
            r@ == self@,
    {
        NodeId(self.0.clone())
    }
}

impl NodeId {
    /// Create a new identifier from a string.
    pub fn new(value: &str) -> (r: Self)
        ensures
            r@ == value@,
    {
        NodeId(String::from_str(value))
    }

    /// The identifier's text.
    pub fn as_str(&self) -> (r: &str)
        ensures
            r@ == self@,
    {
        self.0.as_str()
    }

    /// Whether two identifiers hold the same text.
    pub fn same_as(&self, other: &NodeId) -> (r: bool)
        ensures
            r == (self@ == other@),
    {
        self.0 == other.0
    }
}

/// The texts of a sequence of identifiers.
pub open spec fn id_views(ids: Seq<NodeId>) -> Seq<Seq<char>> {
    ids.map_values(|id: NodeId| id@)
}

/// Pushing an identifier pushes its text.
pub proof fn lemma_id_views_push(ids: Seq<NodeId>, id: NodeId)
    ensures
        id_views(ids.push(id)) == id_views(ids).push(id@),
{
    assert(id_views(ids.push(id)) =~= id_views(ids).push(id@)) by {
        assert forall|t: int| 0 <= t < ids.len() + 1 implies #[trigger] id_views(ids.push(id))[t]
            == id_views(ids).push(id@)[t] by {
            if t < ids.len() {
                assert(ids.push(id)[t] == ids[t]);
            }
        }
    }
}

/// Diagram element types.
#[derive(Debug, PartialEq, Eq)]
pub enum Element {
    Node(Node),
    Container(Container),
}

/// Node definition.
#[derive(Debug, Clone, PartialEq, Eq)]
pub struct Node {
    pub id: NodeId,
    pub label: String,
    pub subtitle: Option<String>,
    pub color: ColorRamp,
    pub shape: NodeShape,
}

/// Edge definition.
#[derive(Debug, Clone, PartialEq, Eq)]
pub struct Edge {
    pub from: NodeId,
    pub to: NodeId,
    pub label: Option<String>,
    pub style: EdgeStyle,
    pub arrow: ArrowStyle,
}

/// Container definition (recursive).
#[derive(Debug, PartialEq, Eq)]
pub struct Container {
    pub id: NodeId,
    pub label: String,
    pub color: ColorRamp,
    pub children: Vec<Element>,
}

/// Flowchart diagram specification.
#[derive(Debug, Clone, PartialEq, Eq)]
pub struct FlowchartSpec {
    pub direction: Direction,
    pub nodes: Vec<Node>,
    pub edges: Vec<Edge>,
    pub theme: Theme,
}

/// Structural specification (container tree).
#[derive(Debug, PartialEq, Eq)]
pub struct StructureSpec {
    pub containers: Vec<Container>,
    pub edges: Vec<Edge>,
    pub theme: Theme,
}

/// Illustrative specification (freeform shapes, annotations).
#[derive(Debug, PartialEq, Eq)]
pub struct IllustrativeSpec {
    pub elements: Vec<Element>,
    pub annotations: Vec<String>,
    pub theme: Theme,
}

/// Interactive specification (base diagram + controls).
#[derive(Debug, PartialEq, Eq)]
pub struct InteractiveSpec {
    pub base: Box<DiagramSpec>,
    pub controls: Vec<Control>,
}

/// Diagram specification umbrella enum.
#[derive(Debug, PartialEq, Eq)]
pub enum DiagramSpec {
    Flowchart(FlowchartSpec),
    Structure(StructureSpec),
    Illustrative(IllustrativeSpec),
    Interactive(InteractiveSpec),
}

/// Interactive control definitions.
#[derive(Debug, Clone, PartialEq, Eq)]
pub enum Control {
    Toggle { id: NodeId, label: String },
    Slider { id: NodeId, label: String, min: i32, max: i32, step: Option<i32> },
}

/// Validation error variants.
#[derive(Debug, PartialEq, Eq)]
pub enum ValidationError {
    DuplicateId(NodeId),
    MissingReference(NodeId),
    ContainerDepth { limit: usize },
    EmptyDiagram,
    DuplicateControlId(NodeId),
    InvalidEdge(String),
}

/// What a validation error says, over the texts of the identifiers it names.
pub enum ValidationFailure {
    DuplicateId(Seq<char>),
    MissingReference(Seq<char>),
    ContainerDepth(nat),
    EmptyDiagram,
    DuplicateControlId(Seq<char>),
    InvalidEdge(Seq<char>),
}

impl View for ValidationError {
    type V = ValidationFailure;

    open spec fn view(&self) -> ValidationFailure {
        match self {
            ValidationError::DuplicateId(id) => ValidationFailure::DuplicateId(id@),
            ValidationError::MissingReference(id) => ValidationFailure::MissingReference(id@),
            ValidationError::ContainerDepth { limit } => ValidationFailure::ContainerDepth(
                *limit as nat,
            ),
            ValidationError::EmptyDiagram => ValidationFailure::EmptyDiagram,
            ValidationError::DuplicateControlId(id) => ValidationFailure::DuplicateControlId(id@),
            ValidationError::InvalidEdge(msg) => ValidationFailure::InvalidEdge(msg@),
        }
    }
}

/// Result alias for validation.
pub type ValidationResult<T> = Result<T, ValidationError>;

} // verus!
