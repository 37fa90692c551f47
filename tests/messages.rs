use graph_record::message::{
    CollectionMessage, ElementInner, ElementMessage, EntryInner, EntryMessage, ParseError,
};
use graph_record::value::{
    CommonObject, Edge, Entry, GraphObject, GraphPath, Object, RecordElement, Vertex, VertexOrEdge,
};

fn elem(i: ElementInner) -> ElementMessage {
    ElementMessage { inner: Some(i) }
}

#[test]
fn element_payloads_map_one_to_one() {
    assert_eq!(
        RecordElement::from_message(elem(ElementInner::Vertex(Vertex { id: 1 }))),
        Ok(RecordElement::OnGraph(GraphObject::V(Vertex { id: 1 })))
    );
    assert_eq!(
        RecordElement::from_message(elem(ElementInner::Edge(Edge { id: 2, src: 1, dst: 3 }))),
        Ok(RecordElement::OnGraph(GraphObject::E(Edge { id: 2, src: 1, dst: 3 })))
    );
    let p = GraphPath { items: vec![VertexOrEdge::V(Vertex { id: 1 })] };
    assert_eq!(
        RecordElement::from_message(elem(ElementInner::GraphPath(p.clone()))),
        Ok(RecordElement::OnGraph(GraphObject::P(p)))
    );
    assert_eq!(
        RecordElement::from_message(elem(ElementInner::Object(Object::Int(4)))),
        Ok(RecordElement::OffGraph(CommonObject::Prop(Object::Int(4))))
    );
}

#[test]
fn empty_element_names_field() {
    assert_eq!(
        RecordElement::from_message(ElementMessage { inner: None }),
        Err(ParseError::EmptyField("element inner is empty".to_string()))
    );
}

#[test]
fn empty_entry_names_field() {
    assert_eq!(
        Entry::from_message(EntryMessage { inner: None }),
        Err(ParseError::EmptyField("entry inner is empty".to_string()))
    );
}

#[test]
fn entry_collection_keeps_order_or_fails() {
    let ok = EntryMessage {
        inner: Some(EntryInner::Collection(CollectionMessage {
            collection: vec![elem(ElementInner::Vertex(Vertex { id: 2 })), elem(ElementInner::Object(Object::Null))],
        })),
    };
    assert_eq!(
        Entry::from_message(ok),
        Ok(Entry::Collection(vec![
            RecordElement::OnGraph(GraphObject::V(Vertex { id: 2 })),
            RecordElement::OffGraph(CommonObject::Prop(Object::Null)),
        ]))
    );
    let bad = EntryMessage {
        inner: Some(EntryInner::Collection(CollectionMessage {
            collection: vec![elem(ElementInner::Vertex(Vertex { id: 2 })), ElementMessage { inner: None }],
        })),
    };
    assert_eq!(Entry::from_message(bad), Err(ParseError::EmptyField("element inner is empty".to_string())));
    let single = EntryMessage { inner: Some(EntryInner::Element(elem(ElementInner::Vertex(Vertex { id: 7 })))) };
    assert_eq!(
        Entry::from_message(single),
        Ok(Entry::Element(RecordElement::OnGraph(GraphObject::V(Vertex { id: 7 }))))
    );
}
