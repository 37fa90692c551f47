use vstd::prelude::*;

verus! {

/// A vertex of the graph, identified by its id.
#[derive(Debug, Clone, Copy, PartialEq, Eq, Hash, Structural)]
pub struct Vertex {
    pub id: u64,
}

/// An edge of the graph: its id and the ids of its two end vertices.
#[derive(Debug, Clone, Copy, PartialEq, Eq, Hash, Structural)]
pub struct Edge {
    pub id: u64,
    pub src: u64,
    pub dst: u64,
}

/// One hop of a path.
#[derive(Debug, Clone, Copy, PartialEq, Eq, Hash, Structural)]
pub enum VertexOrEdge {
    V(Vertex),
    E(Edge),
}

/// A path in the graph, as the ordered sequence of its vertices and edges.
#[derive(Debug, Clone, PartialEq, Eq, Hash)]
pub struct GraphPath {
    pub items: Vec<VertexOrEdge>,
}

/// A graph-native element.
#[derive(Debug, Clone, PartialEq, Eq, Hash)]
pub enum GraphObject {
    V(Vertex),
    E(Edge),
    P(GraphPath),
}

/// A scalar value: absent, a number, or an opaque run of bytes.
#[derive(Debug, Clone, PartialEq, Eq, Hash)]
pub enum Object {
    Null,
    Int(i64),
    Blob(Vec<u8>),
}

/// An off-graph result.
#[derive(Debug, Clone, PartialEq, Eq, Hash)]
pub enum CommonObject {
    /// The placeholder for an absent tag, a missing label or property, or a null value.
    Null,
    /// A projected property.
    Prop(Object),
    /// An aggregated count.
    Count(u64),
}

/// A graph-native element or an off-graph result.
#[derive(Debug, Clone, PartialEq, Eq, Hash)]
pub enum RecordElement {
    OnGraph(GraphObject),
    OffGraph(CommonObject),
}

/// A single element, or an ordered collection of them.
#[derive(Debug, Clone, PartialEq, Eq, Hash)]
pub enum Entry {
    Element(RecordElement),
    Collection(Vec<RecordElement>),
}

// ---- mathematical models ----

pub enum GraphModel {
    V(Vertex),
    E(Edge),
    P(Seq<VertexOrEdge>),
}

pub enum ObjectModel {
    Null,
    Int(i64),
    Blob(Seq<u8>),
}

pub enum CommonModel {
    Null,
    Prop(ObjectModel),
    Count(u64),
}

pub enum ElementModel {
    OnGraph(GraphModel),
    OffGraph(CommonModel),
}

pub enum EntryModel {
    Element(ElementModel),
    Collection(Seq<ElementModel>),
}

impl View for GraphPath {
    type V = Seq<VertexOrEdge>;

    open spec fn view(&self) -> Seq<VertexOrEdge> {
        self.items@
    }
}

impl View for GraphObject {
    type V = GraphModel;

    open spec fn view(&self) -> GraphModel {
        match self {
            GraphObject::V(v) => GraphModel::V(*v),
            GraphObject::E(e) => GraphModel::E(*e),
            GraphObject::P(p) => GraphModel::P(p@),
        }
    }
}

impl View for Object {
    type V = ObjectModel;

    open spec fn view(&self) -> ObjectModel {
        match self {
            Object::Null => ObjectModel::Null,
            Object::Int(i) => ObjectModel::Int(*i),
            Object::Blob(b) => ObjectModel::Blob(b@),
        }
    }
}

impl View for CommonObject {
    type V = CommonModel;

    open spec fn view(&self) -> CommonModel {
        match self {
            CommonObject::Null => CommonModel::Null,
            CommonObject::Prop(o) => CommonModel::Prop(o@),
            CommonObject::Count(c) => CommonModel::Count(*c),
        }
    }
}

impl View for RecordElement {
    type V = ElementModel;

    open spec fn view(&self) -> ElementModel {
        match self {
            RecordElement::OnGraph(g) => ElementModel::OnGraph(g@),
            RecordElement::OffGraph(c) => ElementModel::OffGraph(c@),
        }
    }
}

pub open spec fn elements_view(v: Seq<RecordElement>) -> Seq<ElementModel> {
    v.map_values(|e: RecordElement| e@)
}

impl View for Entry {
    type V = EntryModel;

    open spec fn view(&self) -> EntryModel {
        match self {
            Entry::Element(e) => EntryModel::Element(e@),
            Entry::Collection(c) => EntryModel::Collection(elements_view(c@)),
        }
    }
}

// ---- merge algebra ----

/// Whether adding `a` and `b` stays within the range of the machine integers involved.
pub open spec fn object_add_fits(a: ObjectModel, b: ObjectModel) -> bool {
    match (a, b) {
        (ObjectModel::Int(x), ObjectModel::Int(y)) => i64::MIN <= x + y <= i64::MAX,
        _ => true,
    }
}

/// Two properties combine to the sum of two numbers; when exactly one scalar is absent, the
/// other property passes through; any other pair collapses to `Null`.
pub open spec fn prop_sum(a: ObjectModel, b: ObjectModel) -> CommonModel {
    match (a, b) {
        (ObjectModel::Int(x), ObjectModel::Int(y)) => CommonModel::Prop(
            ObjectModel::Int((x + y) as i64),
        ),
        (ObjectModel::Null, ObjectModel::Null) => CommonModel::Null,
        (_, ObjectModel::Null) => CommonModel::Prop(a),
        (ObjectModel::Null, _) => CommonModel::Prop(b),
        _ => CommonModel::Null,
    }
}

pub open spec fn common_add_fits(a: CommonModel, b: CommonModel) -> bool {
    match (a, b) {
        (CommonModel::Prop(x), CommonModel::Prop(y)) => object_add_fits(x, y),
        (CommonModel::Count(x), CommonModel::Count(y)) => x + y <= u64::MAX,
        _ => true,
    }
}

/// Same-kind values combine; `Null` on either side is the identity; other mixes are `Null`.
pub open spec fn common_sum(a: CommonModel, b: CommonModel) -> CommonModel {
    match (a, b) {
        (CommonModel::Prop(x), CommonModel::Prop(y)) => prop_sum(x, y),
        (CommonModel::Count(x), CommonModel::Count(y)) => CommonModel::Count((x + y) as u64),
        (_, CommonModel::Null) => a,
        (CommonModel::Null, _) => b,
        _ => CommonModel::Null,
    }
}

pub open spec fn entry_add_fits(a: EntryModel, b: EntryModel) -> bool {
    match (a, b) {
        (
            EntryModel::Element(ElementModel::OffGraph(x)),
            EntryModel::Element(ElementModel::OffGraph(y)),
        ) => common_add_fits(x, y),
        _ => true,
    }
}

/// Only two off-graph elements combine; every other pair gives the absent value.
pub open spec fn entry_sum(a: EntryModel, b: EntryModel) -> EntryModel {
    match (a, b) {
        (
            EntryModel::Element(ElementModel::OffGraph(x)),
            EntryModel::Element(ElementModel::OffGraph(y)),
        ) => EntryModel::Element(ElementModel::OffGraph(common_sum(x, y))),
        _ => EntryModel::Element(ElementModel::OffGraph(CommonModel::Null)),
    }
}

impl Object {
    /// The length of a scalar: 0 when absent, 1 for a number, the byte count of a blob.
    pub fn len(&self) -> (r: usize)
        ensures
            r == object_len(self@),
    {
        match self {
            Object::Null => 0,
            Object::Int(_) => 1,
            Object::Blob(b) => b.len(),
        }
    }
}

pub open spec fn object_len(o: ObjectModel) -> nat {
    match o {
        ObjectModel::Null => 0,
        ObjectModel::Int(_) => 1,
        ObjectModel::Blob(b) => b.len(),
    }
}

impl CommonObject {
    /// Combines two off-graph values of the same kind.
    pub fn add(self, rhs: CommonObject) -> (r: CommonObject)
        requires
            common_add_fits(self@, rhs@),
        ensures
            r@ == common_sum(self@, rhs@),
    {
        match (self, rhs) {
            (CommonObject::Prop(o1), CommonObject::Prop(o2)) => match (o1, o2) {
                (Object::Int(x), Object::Int(y)) => CommonObject::Prop(Object::Int(x + y)),
                (Object::Null, Object::Null) => CommonObject::Null,
                (o1, Object::Null) => CommonObject::Prop(o1),
                (Object::Null, o2) => CommonObject::Prop(o2),
                _ => CommonObject::Null,
            },
            (CommonObject::Count(c1), CommonObject::Count(c2)) => CommonObject::Count(c1 + c2),
            (o1, CommonObject::Null) => o1,
            (CommonObject::Null, o2) => o2,
            _ => CommonObject::Null,
        }
    }
}

impl GraphPath {
    /// A copy of the path, hop for hop.
    pub fn duplicate(&self) -> (r: GraphPath)
        ensures
            r@ == self@,
    {
        let mut items: Vec<VertexOrEdge> = Vec::new();
        let mut i: usize = 0;
        while i < self.items.len()
            invariant
                i <= self.items.len(),
                items@ == self.items@.subrange(0, i as int),
            decreases self.items.len() - i,
        {
            items.push(self.items[i]);
            i = i + 1;
        }
        assert(items@ =~= self.items@);
        GraphPath { items }
    }

    /// Extends the path by one hop.
    pub fn append(&mut self, hop: VertexOrEdge)
        ensures
            final(self)@ == old(self)@.push(hop),
    {
        self.items.push(hop);
    }
}

impl GraphObject {
    /// A copy of the element.
    pub fn duplicate(&self) -> (r: GraphObject)
        ensures
            r@ == self@,
    {
        match self {
            GraphObject::V(v) => GraphObject::V(*v),
            GraphObject::E(e) => GraphObject::E(*e),
            GraphObject::P(p) => GraphObject::P(p.duplicate()),
        }
    }
}

impl Entry {
    /// Combines two entries; only two off-graph elements give more than `Null`.
    pub fn add(self, rhs: Entry) -> (r: Entry)
        requires
            entry_add_fits(self@, rhs@),
        ensures
            r@ == entry_sum(self@, rhs@),
    {
        match (self, rhs) {
            (
                Entry::Element(RecordElement::OffGraph(o1)),
                Entry::Element(RecordElement::OffGraph(o2)),
            ) => Entry::Element(RecordElement::OffGraph(o1.add(o2))),
            _ => Entry::Element(RecordElement::OffGraph(CommonObject::Null)),
        }
    }
}

pub open spec fn path_len(p: Seq<VertexOrEdge>) -> nat {
    p.len()
}

/// The natural length of an element: 1 for a vertex, an edge or a count, the number of hops
/// of a path, and the scalar's own length for a property.
pub open spec fn element_len(e: ElementModel) -> nat {
    match e {
        ElementModel::OnGraph(GraphModel::P(p)) => path_len(p),
        ElementModel::OnGraph(_) => 1,
        ElementModel::OffGraph(CommonModel::Null) => 0,
        ElementModel::OffGraph(CommonModel::Prop(o)) => object_len(o),
        ElementModel::OffGraph(CommonModel::Count(_)) => 1,
    }
}

impl RecordElement {
    pub fn len(&self) -> (r: usize)
        ensures
            r == element_len(self@),
    {
        match self {
            RecordElement::OnGraph(GraphObject::P(p)) => p.items.len(),
            RecordElement::OnGraph(_) => 1,
            RecordElement::OffGraph(CommonObject::Null) => 0,
            RecordElement::OffGraph(CommonObject::Prop(o)) => o.len(),
            RecordElement::OffGraph(CommonObject::Count(_)) => 1,
        }
    }
}

impl Entry {
    pub fn as_graph_vertex(&self) -> (r: Option<&Vertex>)
        ensures
            r == (match self@ {
                EntryModel::Element(ElementModel::OnGraph(GraphModel::V(v))) => Some(&v),
                _ => None,
            }),
    {
        match self {
            Entry::Element(RecordElement::OnGraph(GraphObject::V(v))) => Some(v),
            _ => None,
        }
    }

    pub fn as_graph_edge(&self) -> (r: Option<&Edge>)
        ensures
            r == (match self@ {
                EntryModel::Element(ElementModel::OnGraph(GraphModel::E(e))) => Some(&e),
                _ => None,
            }),
    {
        match self {
            Entry::Element(RecordElement::OnGraph(GraphObject::E(e))) => Some(e),
            _ => None,
        }
    }

    pub fn as_graph_path(&self) -> (r: Option<&GraphPath>)
        ensures
            r.is_some() == (self@ matches EntryModel::Element(
                ElementModel::OnGraph(GraphModel::P(_)),
            )),
            r matches Some(p) ==> self@ == EntryModel::Element(
                ElementModel::OnGraph(GraphModel::P(p@)),
            ),
    {
        match self {
            Entry::Element(RecordElement::OnGraph(GraphObject::P(p))) => Some(p),
            _ => None,
        }
    }

    pub fn as_common_object(&self) -> (r: Option<&CommonObject>)
        ensures
            r.is_some() == (self@ matches EntryModel::Element(ElementModel::OffGraph(_))),
            r matches Some(c) ==> self@ == EntryModel::Element(ElementModel::OffGraph(c@)),
    {
        match self {
            Entry::Element(RecordElement::OffGraph(c)) => Some(c),
            _ => None,
        }
    }

    /// Hands out the path held by an entry that the caller owns outright.
    pub fn as_mut_graph_path(&mut self) -> (r: Option<&mut GraphPath>)
        ensures
            r.is_some() == (old(self)@ matches EntryModel::Element(
                ElementModel::OnGraph(GraphModel::P(_)),
            )),
            r matches Some(p) ==> old(self)@ == EntryModel::Element(
                ElementModel::OnGraph(GraphModel::P(p@)),
            ),
    {
        match self {
            Entry::Element(RecordElement::OnGraph(GraphObject::P(p))) => Some(p),
            _ => None,
        }
    }

    pub fn is_none(&self) -> (r: bool)
        ensures
            r == (self@ == EntryModel::Element(ElementModel::OffGraph(CommonModel::Null))),
    {
        match self {
            Entry::Element(RecordElement::OffGraph(CommonObject::Null)) => true,
            _ => false,
        }
    }
}

// ---- conversions into an entry ----

impl From<Vertex> for Entry {
    fn from(v: Vertex) -> (r: Entry) {
        Entry::Element(RecordElement::OnGraph(GraphObject::V(v)))
    }
}

impl vstd::std_specs::convert::FromSpecImpl<Vertex> for Entry {
    open spec fn obeys_from_spec() -> bool {
        true
    }

    open spec fn from_spec(v: Vertex) -> Entry {
        Entry::Element(RecordElement::OnGraph(GraphObject::V(v)))
    }
}

impl From<Edge> for Entry {
    fn from(e: Edge) -> (r: Entry) {
        Entry::Element(RecordElement::OnGraph(GraphObject::E(e)))
    }
}

impl vstd::std_specs::convert::FromSpecImpl<Edge> for Entry {
    open spec fn obeys_from_spec() -> bool {
        true
    }

    open spec fn from_spec(e: Edge) -> Entry {
        Entry::Element(RecordElement::OnGraph(GraphObject::E(e)))
    }
}

impl From<GraphPath> for Entry {
    fn from(p: GraphPath) -> (r: Entry) {
        Entry::Element(RecordElement::OnGraph(GraphObject::P(p)))
    }
}

impl vstd::std_specs::convert::FromSpecImpl<GraphPath> for Entry {
    open spec fn obeys_from_spec() -> bool {
        true
    }

    open spec fn from_spec(p: GraphPath) -> Entry {
        Entry::Element(RecordElement::OnGraph(GraphObject::P(p)))
    }
}

impl From<GraphObject> for Entry {
    fn from(g: GraphObject) -> (r: Entry) {
        Entry::Element(RecordElement::OnGraph(g))
    }
}

impl vstd::std_specs::convert::FromSpecImpl<GraphObject> for Entry {
    open spec fn obeys_from_spec() -> bool {
        true
    }

    open spec fn from_spec(g: GraphObject) -> Entry {
        Entry::Element(RecordElement::OnGraph(g))
    }
}

impl From<CommonObject> for Entry {
    fn from(c: CommonObject) -> (r: Entry) {
        Entry::Element(RecordElement::OffGraph(c))
    }
}

impl vstd::std_specs::convert::FromSpecImpl<CommonObject> for Entry {
    open spec fn obeys_from_spec() -> bool {
        true
    }

    open spec fn from_spec(c: CommonObject) -> Entry {
        Entry::Element(RecordElement::OffGraph(c))
    }
}

impl From<RecordElement> for Entry {
    fn from(x: RecordElement) -> (r: Entry) {
        Entry::Element(x)
    }
}

impl vstd::std_specs::convert::FromSpecImpl<RecordElement> for Entry {
    open spec fn obeys_from_spec() -> bool {
        true
    }

    open spec fn from_spec(x: RecordElement) -> Entry {
        Entry::Element(x)
    }
}

impl From<VertexOrEdge> for Entry {
    fn from(h: VertexOrEdge) -> (r: Entry) {
        match h {
            VertexOrEdge::V(v) => Entry::from(v),
            VertexOrEdge::E(e) => Entry::from(e),
        }
    }
}

impl vstd::std_specs::convert::FromSpecImpl<VertexOrEdge> for Entry {
    open spec fn obeys_from_spec() -> bool {
        true
    }

    open spec fn from_spec(h: VertexOrEdge) -> Entry {
        match h {
            VertexOrEdge::V(v) => Entry::Element(RecordElement::OnGraph(GraphObject::V(v))),
            VertexOrEdge::E(e) => Entry::Element(RecordElement::OnGraph(GraphObject::E(e))),
        }
    }
}

/// Adding `Null` on either side of an off-graph value gives that value back.
pub proof fn lemma_none_is_identity(x: CommonModel)
    ensures
        common_sum(x, CommonModel::Null) == x,
        common_sum(CommonModel::Null, x) == x,
        common_add_fits(x, CommonModel::Null),
        common_add_fits(CommonModel::Null, x),
{
}

/// Two counts add up to the count of their sum.
pub proof fn lemma_counts_add(a: u64, b: u64)
    requires
        a + b <= u64::MAX,
    ensures
        common_sum(CommonModel::Count(a), CommonModel::Count(b)) == CommonModel::Count(
            (a + b) as u64,
        ),
{
}

/// A count combined with a property of any scalar collapses to `Null`, in either order.
pub proof fn lemma_kind_mismatch(c: u64, o: ObjectModel)
    ensures
        common_sum(CommonModel::Count(c), CommonModel::Prop(o)) == CommonModel::Null,
        common_sum(CommonModel::Prop(o), CommonModel::Count(c)) == CommonModel::Null,
{
}

} // verus!
