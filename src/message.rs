use vstd::prelude::*;

use crate::value::{
    elements_view, CommonModel, CommonObject, Edge, ElementModel, Entry, EntryModel, GraphModel,
    GraphObject, GraphPath, Object, RecordElement, Vertex,
};

verus! {

/// The payload of an element in the structured result message.
pub enum ElementInner {
    Vertex(Vertex),
    Edge(Edge),
    GraphPath(GraphPath),
    Object(Object),
}

/// An element of the structured result message; its payload may be missing.
pub struct ElementMessage {
    pub inner: Option<ElementInner>,
}

/// A collection of elements in the structured result message.
pub struct CollectionMessage {
    pub collection: Vec<ElementMessage>,
}

/// The payload of an entry in the structured result message.
pub enum EntryInner {
    Element(ElementMessage),
    Collection(CollectionMessage),
}

/// An entry of the structured result message; its payload may be missing.
pub struct EntryMessage {
    pub inner: Option<EntryInner>,
}

/// Why a structured message could not be turned into an entry.
#[derive(Debug, Clone, PartialEq, Eq)]
pub enum ParseError {
    /// A required field was empty; the text names it.
    EmptyField(String),
}

pub open spec fn element_empty_text() -> Seq<char> {
    "element inner is empty"@
}

pub open spec fn entry_empty_text() -> Seq<char> {
    "entry inner is empty"@
}

/// The element that a payload stands for.
pub open spec fn inner_element(i: ElementInner) -> ElementModel {
    match i {
        ElementInner::Vertex(v) => ElementModel::OnGraph(GraphModel::V(v)),
        ElementInner::Edge(e) => ElementModel::OnGraph(GraphModel::E(e)),
        ElementInner::GraphPath(p) => ElementModel::OnGraph(GraphModel::P(p@)),
        ElementInner::Object(o) => ElementModel::OffGraph(CommonModel::Prop(o@)),
    }
}

/// Whether every element of the collection has its payload.
pub open spec fn all_present(ms: Seq<ElementMessage>) -> bool {
    forall|i: int| 0 <= i < ms.len() ==> (#[trigger] ms[i]).inner is Some
}

pub open spec fn collection_elements(ms: Seq<ElementMessage>) -> Seq<ElementModel> {
    ms.map_values(|m: ElementMessage| inner_element(m.inner->Some_0))
}

fn empty_field(text: &str) -> (r: ParseError)
    ensures
        r matches ParseError::EmptyField(t) && t@ == text@,
{
    ParseError::EmptyField(text.to_owned())
}

impl RecordElement {
    /// Converts a message element: each payload maps to its own kind of element; a missing
    /// payload is an error that names the field.
    pub fn from_message(m: ElementMessage) -> (r: Result<RecordElement, ParseError>)
        ensures
            match m.inner {
                None => r matches Err(ParseError::EmptyField(t)) && t@ == element_empty_text(),
                Some(i) => r matches Ok(x) && x@ == inner_element(i),
            },
    {
        match m.inner {
            Some(ElementInner::Vertex(v)) => Ok(RecordElement::OnGraph(GraphObject::V(v))),
            Some(ElementInner::Edge(e)) => Ok(RecordElement::OnGraph(GraphObject::E(e))),
            Some(ElementInner::GraphPath(p)) => Ok(RecordElement::OnGraph(GraphObject::P(p))),
            Some(ElementInner::Object(o)) => Ok(RecordElement::OffGraph(CommonObject::Prop(o))),
            None => {
                proof {
                    reveal_strlit("element inner is empty");
                }
                Err(empty_field("element inner is empty"))
            },
        }
    }
}

impl Entry {
    /// Converts a message entry. A missing payload, or a missing payload in any element, is an
    /// error that names the field; a collection keeps its order.
    pub fn from_message(m: EntryMessage) -> (r: Result<Entry, ParseError>)
        ensures
            match m.inner {
                None => r matches Err(ParseError::EmptyField(t)) && t@ == entry_empty_text(),
                Some(EntryInner::Element(em)) => match em.inner {
                    None => r matches Err(ParseError::EmptyField(t)) && t@ == element_empty_text(),
                    Some(i) => r matches Ok(x) && x@ == EntryModel::Element(inner_element(i)),
                },
                Some(EntryInner::Collection(c)) => if all_present(c.collection@) {
                    r matches Ok(x) && x@ == EntryModel::Collection(
                        collection_elements(c.collection@),
                    )
                } else {
                    r matches Err(ParseError::EmptyField(t)) && t@ == element_empty_text()
                },
            },
    {
        match m.inner {
            None => {
                proof {
                    reveal_strlit("entry inner is empty");
                }
                Err(empty_field("entry inner is empty"))
            },
            Some(EntryInner::Element(em)) => match RecordElement::from_message(em) {
                Ok(x) => Ok(Entry::Element(x)),
                Err(e) => Err(e),
            },
            Some(EntryInner::Collection(c)) => {
                let ghost all = c.collection@;
                let mut rest = c.collection;
                let n = rest.len();
                let mut out: Vec<RecordElement> = Vec::new();
                let mut i: usize = 0;
                while i < n
                    invariant
                        m.inner matches Some(EntryInner::Collection(cc)) && cc.collection@ == all,
                        n == all.len(),
                        i <= n,
                        rest@ == all.subrange(i as int, n as int),
                        forall|j: int| 0 <= j < i ==> (#[trigger] all[j]).inner is Some,
                        elements_view(out@) == collection_elements(all.take(i as int)),
                    decreases n - i,
                {
                    let em = rest.remove(0);
                    let ghost before = out@;
                    match RecordElement::from_message(em) {
                        Ok(x) => {
                            out.push(x);
                            assert(elements_view(out@) =~= elements_view(before).push(x@));
                            assert(collection_elements(all.take(i + 1)) =~= collection_elements(
                                all.take(i as int),
                            ).push(x@));
                        },
                        Err(e) => {
                            assert(!all_present(all));
                            return Err(e);
                        },
                    }
                    i = i + 1;
                    assert(rest@ =~= all.subrange(i as int, n as int));
                }
                assert(all.take(n as int) =~= all);
                Ok(Entry::Collection(out))
            },
        }
    }
}

} // verus!
