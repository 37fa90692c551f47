use std::sync::Arc;

use graph_record::codec::DecodeError;
use graph_record::manager::{peers_to_connect, Server, ServerDetect, ServerManager, SimpleServerDetector};
use graph_record::record::{Record, RecordKey};
use graph_record::value::{
    CommonObject, Edge, Entry, GraphObject, GraphPath, Object, RecordElement, Vertex, VertexOrEdge,
};

fn off(c: CommonObject) -> Entry {
    Entry::Element(RecordElement::OffGraph(c))
}

#[test]
fn counts_add_up() {
    assert_eq!(CommonObject::Count(3).add(CommonObject::Count(4)), CommonObject::Count(7));
}

#[test]
fn null_is_identity_on_both_sides() {
    let xs = vec![
        CommonObject::Count(2),
        CommonObject::Prop(Object::Int(-4)),
        CommonObject::Prop(Object::Blob(vec![1])),
        CommonObject::Null,
    ];
    for x in xs {
        assert_eq!(x.clone().add(CommonObject::Null), x);
        assert_eq!(CommonObject::Null.add(x.clone()), x);
    }
}

#[test]
fn count_plus_prop_collapses() {
    let p = CommonObject::Prop(Object::Int(1));
    assert_eq!(CommonObject::Count(1).add(p.clone()), CommonObject::Null);
    assert_eq!(p.add(CommonObject::Count(1)), CommonObject::Null);
}

#[test]
fn props_add_numbers_or_collapse() {
    let a = CommonObject::Prop(Object::Int(10));
    let b = CommonObject::Prop(Object::Int(-3));
    assert_eq!(a.add(b), CommonObject::Prop(Object::Int(7)));
    let c = CommonObject::Prop(Object::Blob(vec![1]));
    let d = CommonObject::Prop(Object::Int(2));
    assert_eq!(c.add(d), CommonObject::Null);
    let both_absent = CommonObject::Prop(Object::Null);
    assert_eq!(both_absent.clone().add(both_absent), CommonObject::Null);
    let e = CommonObject::Prop(Object::Null);
    let f = CommonObject::Prop(Object::Blob(vec![9]));
    assert_eq!(e.add(f), CommonObject::Prop(Object::Blob(vec![9])));
}

#[test]
fn entry_add_only_off_graph() {
    assert_eq!(off(CommonObject::Count(1)).add(off(CommonObject::Count(2))), off(CommonObject::Count(3)));
    let v = Entry::Element(RecordElement::OnGraph(GraphObject::V(Vertex { id: 1 })));
    assert_eq!(v.add(off(CommonObject::Count(2))), off(CommonObject::Null));
    let coll = Entry::Collection(vec![]);
    assert_eq!(coll.add(off(CommonObject::Count(2))), off(CommonObject::Null));
}

fn sample_entries() -> Vec<Entry> {
    vec![
        off(CommonObject::Null),
        off(CommonObject::Count(u64::MAX)),
        off(CommonObject::Prop(Object::Int(-12345))),
        off(CommonObject::Prop(Object::Blob(vec![0, 255, 7]))),
        off(CommonObject::Prop(Object::Null)),
        Entry::Element(RecordElement::OnGraph(GraphObject::V(Vertex { id: 42 }))),
        Entry::Element(RecordElement::OnGraph(GraphObject::E(Edge { id: 1, src: 2, dst: 3 }))),
        Entry::Element(RecordElement::OnGraph(GraphObject::P(GraphPath {
            items: vec![VertexOrEdge::V(Vertex { id: 1 }), VertexOrEdge::E(Edge { id: 9, src: 1, dst: 4 })],
        }))),
        Entry::Collection(vec![
            RecordElement::OffGraph(CommonObject::Count(1)),
            RecordElement::OnGraph(GraphObject::V(Vertex { id: 5 })),
        ]),
        Entry::Collection(vec![]),
    ]
}

#[test]
fn entry_round_trip() {
    for e in sample_entries() {
        let mut out = vec![0xAA];
        e.write_to(&mut out);
        let (back, end) = Entry::read_from(&out, 1).unwrap();
        assert_eq!(back, e);
        assert_eq!(end, out.len());
    }
}

#[test]
fn common_object_bytes() {
    let mut out = Vec::new();
    CommonObject::Count(7).write_to(&mut out);
    assert_eq!(out, vec![2, 7, 0, 0, 0, 0, 0, 0, 0]);
    let mut out = Vec::new();
    CommonObject::Null.write_to(&mut out);
    assert_eq!(out, vec![0]);
    let (c, end) = CommonObject::read_from(&[1, 1, 5, 0, 0, 0, 0, 0, 0, 0], 0).unwrap();
    assert_eq!(c, CommonObject::Prop(Object::Int(5)));
    assert_eq!(end, 10);
}

#[test]
fn record_element_round_trip() {
    let x = RecordElement::OnGraph(GraphObject::E(Edge { id: 3, src: 4, dst: 5 }));
    let mut out = Vec::new();
    x.write_to(&mut out);
    assert_eq!(out[0], 0);
    assert_eq!(out[1], 1);
    let (back, end) = RecordElement::read_from(&out, 0).unwrap();
    assert_eq!(back, x);
    assert_eq!(end, out.len());
}

#[test]
fn unknown_discriminant_is_an_error() {
    assert_eq!(CommonObject::read_from(&[3], 0), Err(DecodeError::UnknownDiscriminant));
    assert_eq!(RecordElement::read_from(&[2], 0), Err(DecodeError::UnknownDiscriminant));
    assert_eq!(Entry::read_from(&[9, 0], 0), Err(DecodeError::UnknownDiscriminant));
    assert!(Record::read_from(&[2], 0).is_err());
}

#[test]
fn truncated_stream_is_an_error() {
    assert_eq!(CommonObject::read_from(&[2, 1, 0], 0), Err(DecodeError::UnexpectedEnd));
    assert_eq!(Entry::read_from(&[], 0), Err(DecodeError::UnexpectedEnd));
    assert_eq!(Entry::read_from(&[1, 2, 0, 0, 0, 0, 0, 0, 0, 0, 0], 0), Err(DecodeError::UnexpectedEnd));
}

fn record_entries(r: &Record, tags: &[i32]) -> Vec<Option<Entry>> {
    let mut v = vec![r.get(None).map(|e| (**e).clone())];
    for t in tags {
        v.push(r.get(Some(*t)).map(|e| (**e).clone()));
    }
    v
}

#[test]
fn record_round_trip() {
    let mut r = Record::new(off(CommonObject::Count(1)), Some(3));
    r.append(Entry::Element(RecordElement::OnGraph(GraphObject::V(Vertex { id: 9 }))), Some(0));
    r.append(off(CommonObject::Prop(Object::Blob(vec![4, 5]))), None);
    let mut out = Vec::new();
    r.write_to(&mut out);
    let (back, end) = Record::read_from(&out, 0).unwrap();
    assert_eq!(end, out.len());
    let tags = [0, 1, 2, 3];
    assert_eq!(record_entries(&back, &tags), record_entries(&r, &tags));
}

#[test]
fn record_bytes_layout() {
    let mut r = Record::new(off(CommonObject::Null), Some(1));
    r.set_curr_entry(None);
    let mut out = Vec::new();
    r.write_to(&mut out);
    assert_eq!(out, vec![0, 1, 0, 0, 0, 0, 0, 0, 0, 1, 0, 0, 0, 0, 1, 0]);
}

#[test]
fn record_negative_tag_is_an_error() {
    let bytes = vec![0, 1, 0, 0, 0, 0, 0, 0, 0, 0xff, 0xff, 0xff, 0xff, 0, 1, 0];
    assert_eq!(Record::read_from(&bytes, 0).err(), Some(DecodeError::UnknownDiscriminant));
}

#[test]
fn record_key_round_trip() {
    let k = RecordKey::new(sample_entries().into_iter().map(Arc::new).collect());
    let mut out = Vec::new();
    k.write_to(&mut out);
    assert_eq!(&out[0..4], &[10, 0, 0, 0]);
    let (back, end) = RecordKey::read_from(&out, 0).unwrap();
    assert_eq!(back, k);
    assert_eq!(end, out.len());
}

fn server(id: u64) -> Server {
    Server { id, addr: format!("10.0.0.{}:1234", id) }
}

#[test]
fn connect_only_to_lower_unconnected_peers() {
    let fetched = vec![server(0), server(1), server(2), server(3), server(5)];
    let r = peers_to_connect(3, &fetched, &vec![1]);
    assert_eq!(r, vec![server(0), server(2)]);
}

#[test]
fn manager_refresh_uses_detector() {
    let mut d = SimpleServerDetector::new();
    d.update_peer_view(vec![(0, "a:1".to_string()), (4, "b:2".to_string()), (1, "c:3".to_string())]);
    assert_eq!(d.snapshot().len(), 3);
    let m = ServerManager::new(2, d);
    let r = m.refresh(&vec![]);
    assert_eq!(r, vec![Server { id: 0, addr: "a:1".to_string() }, Server { id: 1, addr: "c:3".to_string() }]);
    let r = m.refresh(&vec![0, 1]);
    assert!(r.is_empty());
}

#[test]
fn fixed_server_list_detects_itself() {
    let list = vec![server(4), server(1)];
    assert_eq!(list.fetch(), list);
    let m = ServerManager::new(3, list);
    assert_eq!(m.refresh(&vec![]), vec![server(1)]);
}
