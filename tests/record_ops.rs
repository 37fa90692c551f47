use std::sync::Arc;

use graph_record::expand::{RecordExpandIter, RecordPathExpandIter};
use graph_record::record::{Record, RecordKey};
use graph_record::value::{
    CommonObject, Edge, Entry, GraphObject, GraphPath, Object, RecordElement, Vertex, VertexOrEdge,
};

fn vertex(id: u64) -> Entry {
    Entry::Element(RecordElement::OnGraph(GraphObject::V(Vertex { id })))
}

fn count(n: u64) -> Entry {
    Entry::Element(RecordElement::OffGraph(CommonObject::Count(n)))
}

fn got(r: &Record, tag: Option<i32>) -> Option<Entry> {
    r.get(tag).map(|e| (**e).clone())
}

#[test]
fn append_then_get_by_tag_and_current() {
    let mut r1 = Record::new(vertex(1), Some(0));
    r1.append(count(5), Some(1));
    assert_eq!(got(&r1, None), Some(count(5)));
    assert_eq!(got(&r1, Some(0)), Some(vertex(1)));
    assert_eq!(got(&r1, Some(1)), Some(count(5)));
}

#[test]
fn get_unused_tag_is_empty() {
    let r = Record::new(vertex(1), Some(0));
    assert_eq!(got(&r, Some(7)), None);
    assert_eq!(got(&r, Some(1)), None);
}

#[test]
fn new_without_tag_binds_no_column() {
    let r = Record::new(vertex(3), None);
    assert_eq!(got(&r, None), Some(vertex(3)));
    assert_eq!(got(&r, Some(0)), None);
}

#[test]
fn append_rebinds_tag_last_write_wins() {
    let mut r = Record::new(vertex(1), Some(2));
    r.append(vertex(9), Some(2));
    assert_eq!(got(&r, Some(2)), Some(vertex(9)));
}

#[test]
fn append_arc_entry_shares_handle() {
    let mut r = Record::new(vertex(1), None);
    let e = Arc::new(count(4));
    r.append_arc_entry(e.clone(), Some(3));
    assert!(Arc::ptr_eq(r.get(Some(3)).unwrap(), &e));
    assert!(Arc::ptr_eq(r.get(None).unwrap(), &e));
}

#[test]
fn set_curr_entry_keeps_columns() {
    let mut r = Record::new(vertex(1), Some(0));
    r.set_curr_entry(None);
    assert_eq!(got(&r, None), None);
    assert_eq!(got(&r, Some(0)), Some(vertex(1)));
}

#[test]
fn take_removes_tag_or_current() {
    let mut r = Record::new(vertex(1), Some(0));
    r.append(count(2), Some(1));
    let t = r.take(Some(&0)).map(|e| (*e).clone());
    assert_eq!(t, Some(vertex(1)));
    assert_eq!(got(&r, Some(0)), None);
    let c = r.take(None).map(|e| (*e).clone());
    assert_eq!(c, Some(count(2)));
    assert_eq!(got(&r, None), None);
    assert_eq!(got(&r, Some(1)), Some(count(2)));
    assert!(r.take(Some(&5)).is_none());
}

#[test]
fn join_keeps_left_value_and_current() {
    let r1 = Record::new(vertex(1), Some(0));
    let mut r2 = Record::new(vertex(2), Some(0));
    r2.append(count(8), Some(1));
    let j = r1.join(r2, Some(true));
    assert_eq!(got(&j, Some(0)), Some(vertex(1)));
    assert_eq!(got(&j, Some(1)), Some(count(8)));
    assert_eq!(got(&j, None), Some(vertex(1)));
}

#[test]
fn join_disjoint_tags_is_union() {
    let mut a = Record::new(vertex(1), Some(0));
    a.append(vertex(2), Some(2));
    let b = Record::new(vertex(3), Some(5));
    let j = a.join(b, None);
    assert_eq!(got(&j, Some(0)), Some(vertex(1)));
    assert_eq!(got(&j, Some(2)), Some(vertex(2)));
    assert_eq!(got(&j, Some(5)), Some(vertex(3)));
    assert_eq!(got(&j, Some(1)), None);
}

#[test]
fn join_current_selection() {
    let mk = || (Record::new(vertex(1), Some(0)), Record::new(vertex(2), Some(1)));
    let (a, b) = mk();
    assert_eq!(got(&a.join(b, Some(true)), None), Some(vertex(1)));
    let (a, b) = mk();
    assert_eq!(got(&a.join(b, Some(false)), None), Some(vertex(2)));
    let (a, b) = mk();
    assert_eq!(got(&a.join(b, None), None), None);
}

#[test]
fn duplicate_shares_entries() {
    let mut r = Record::new(vertex(1), Some(0));
    r.append(count(3), Some(4));
    let d = r.duplicate();
    assert!(Arc::ptr_eq(d.get(Some(4)).unwrap(), r.get(Some(4)).unwrap()));
    assert_eq!(got(&d, None), Some(count(3)));
}

#[test]
fn expand_yields_one_record_per_candidate_in_order() {
    let origin = Record::new(vertex(1), Some(0));
    let children = vec![
        GraphObject::V(Vertex { id: 10 }),
        GraphObject::E(Edge { id: 7, src: 1, dst: 10 }),
        GraphObject::V(Vertex { id: 11 }),
    ];
    let mut it = RecordExpandIter::new(origin, Some(&1), children);
    let r0 = it.next().unwrap();
    assert_eq!(got(&r0, Some(1)), Some(vertex(10)));
    assert_eq!(got(&r0, None), Some(vertex(10)));
    assert_eq!(got(&r0, Some(0)), Some(vertex(1)));
    let r1 = it.next().unwrap();
    assert_eq!(
        got(&r1, Some(1)),
        Some(Entry::Element(RecordElement::OnGraph(GraphObject::E(Edge { id: 7, src: 1, dst: 10 }))))
    );
    let r2 = it.next().unwrap();
    assert_eq!(got(&r2, Some(1)), Some(vertex(11)));
    assert!(it.next().is_none());
    assert!(it.next().is_none());
}

#[test]
fn expand_collect_counts_candidates() {
    let origin = Record::new(vertex(1), None);
    let children: Vec<GraphObject> = (0..5).map(|i| GraphObject::V(Vertex { id: i })).collect();
    let it = RecordExpandIter::new(origin, None, children);
    let all = it.collect_records();
    assert_eq!(all.len(), 5);
    for (i, r) in all.iter().enumerate() {
        assert_eq!(got(r, None), Some(vertex(i as u64)));
    }
    let empty = RecordExpandIter::new(Record::new(vertex(1), None), None, vec![]);
    assert_eq!(empty.collect_records().len(), 0);
}

#[test]
fn path_expand_extends_and_stops_at_path() {
    let origin = Record::new(vertex(1), Some(0));
    let path = GraphPath { items: vec![VertexOrEdge::V(Vertex { id: 1 })] };
    let children = vec![
        GraphObject::E(Edge { id: 5, src: 1, dst: 2 }),
        GraphObject::P(GraphPath { items: vec![] }),
        GraphObject::V(Vertex { id: 3 }),
    ];
    let mut it = RecordPathExpandIter::new(origin, path, children);
    let r = it.next().unwrap();
    let expected = GraphPath {
        items: vec![VertexOrEdge::V(Vertex { id: 1 }), VertexOrEdge::E(Edge { id: 5, src: 1, dst: 2 })],
    };
    assert_eq!(got(&r, None), Some(Entry::Element(RecordElement::OnGraph(GraphObject::P(expected)))));
    assert_eq!(got(&r, Some(0)), Some(vertex(1)));
    assert!(it.next().is_none());
    assert!(it.next().is_none());
}

#[test]
fn path_expand_clones_path_for_each_candidate() {
    let origin = Record::new(vertex(1), None);
    let path = GraphPath { items: vec![VertexOrEdge::V(Vertex { id: 1 })] };
    let children = vec![GraphObject::V(Vertex { id: 2 }), GraphObject::V(Vertex { id: 3 })];
    let mut it = RecordPathExpandIter::new(origin, path, children);
    let a = it.next().unwrap();
    let b = it.next().unwrap();
    let pa = got(&a, None).unwrap();
    let pb = got(&b, None).unwrap();
    assert_eq!(pa.as_graph_path().unwrap().items.len(), 2);
    assert_eq!(pb.as_graph_path().unwrap().items[1], VertexOrEdge::V(Vertex { id: 3 }));
}

#[test]
fn record_key_take_returns_fields() {
    let fields = vec![Arc::new(vertex(1)), Arc::new(count(2))];
    let k1 = RecordKey::new(fields.clone());
    let k2 = RecordKey::new(vec![Arc::new(vertex(1)), Arc::new(count(2))]);
    assert_eq!(k1, k2);
    let back = k1.take();
    assert_eq!(back.len(), 2);
    assert!(Arc::ptr_eq(&back[0], &fields[0]));
}

#[test]
fn entry_accessors() {
    let v = vertex(4);
    assert_eq!(v.as_graph_vertex(), Some(&Vertex { id: 4 }));
    assert!(v.as_graph_edge().is_none());
    assert!(v.as_common_object().is_none());
    let c = count(1);
    assert_eq!(c.as_common_object(), Some(&CommonObject::Count(1)));
    assert!(!c.is_none());
    assert!(Entry::Element(RecordElement::OffGraph(CommonObject::Null)).is_none());
    let coll = Entry::Collection(vec![RecordElement::OffGraph(CommonObject::Null)]);
    assert!(coll.as_graph_vertex().is_none());
    assert!(!coll.is_none());
    let mut p = Entry::Element(RecordElement::OnGraph(GraphObject::P(GraphPath { items: vec![] })));
    p.as_mut_graph_path().unwrap().append(VertexOrEdge::V(Vertex { id: 8 }));
    assert_eq!(p.as_graph_path().unwrap().items.len(), 1);
}

#[test]
fn element_lengths() {
    assert_eq!(RecordElement::OffGraph(CommonObject::Null).len(), 0);
    assert_eq!(RecordElement::OffGraph(CommonObject::Count(9)).len(), 1);
    assert_eq!(RecordElement::OffGraph(CommonObject::Prop(Object::Blob(vec![1, 2, 3]))).len(), 3);
    assert_eq!(RecordElement::OffGraph(CommonObject::Prop(Object::Int(5))).len(), 1);
    assert_eq!(RecordElement::OnGraph(GraphObject::V(Vertex { id: 1 })).len(), 1);
    let p = GraphPath { items: vec![VertexOrEdge::V(Vertex { id: 1 }), VertexOrEdge::V(Vertex { id: 2 })] };
    assert_eq!(RecordElement::OnGraph(GraphObject::P(p)).len(), 2);
}

#[test]
fn path_expand_run_ends_at_first_path_candidate() {
    let origin = Record::new(vertex(1), None);
    let path = GraphPath { items: vec![] };
    let children = vec![
        GraphObject::V(Vertex { id: 2 }),
        GraphObject::E(Edge { id: 3, src: 2, dst: 4 }),
        GraphObject::P(GraphPath { items: vec![] }),
        GraphObject::V(Vertex { id: 5 }),
    ];
    let all = RecordPathExpandIter::new(origin, path, children).collect_records();
    assert_eq!(all.len(), 2);
    let last = got(&all[1], None).unwrap();
    assert_eq!(last.as_graph_path().unwrap().items, vec![VertexOrEdge::E(Edge { id: 3, src: 2, dst: 4 })]);
}

#[test]
fn values_convert_into_entries() {
    let e: Entry = Vertex { id: 6 }.into();
    assert_eq!(e, vertex(6));
    let e: Entry = VertexOrEdge::E(Edge { id: 1, src: 2, dst: 3 }).into();
    assert_eq!(e, Entry::Element(RecordElement::OnGraph(GraphObject::E(Edge { id: 1, src: 2, dst: 3 }))));
    let e: Entry = CommonObject::Count(2).into();
    assert_eq!(e, count(2));
    let e: Entry = GraphPath { items: vec![] }.into();
    assert!(e.as_graph_path().is_some());
    let e: Entry = RecordElement::OffGraph(CommonObject::Null).into();
    assert!(e.is_none());
    let r = Record::new(GraphObject::V(Vertex { id: 2 }).into(), Some(0));
    assert_eq!(got(&r, Some(0)), Some(vertex(2)));
}
