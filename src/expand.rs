use vstd::prelude::*;

use crate::record::{appended, deref_tag, tag_ok, KeyId, Record, RecordModel};
use crate::value::{
    ElementModel, Entry, EntryModel, GraphModel, GraphObject, GraphPath, RecordElement,
    VertexOrEdge,
};

verus! {

pub open spec fn graph_views(s: Seq<GraphObject>) -> Seq<GraphModel> {
    s.map_values(|g: GraphObject| g@)
}

pub open spec fn graph_entry(g: GraphModel) -> EntryModel {
    EntryModel::Element(ElementModel::OnGraph(g))
}

/// Turns one record into one record per candidate element, each a copy of the origin with
/// the candidate appended under a fixed tag.
pub struct RecordExpandIter {
    tag: Option<KeyId>,
    origin: Record,
    children: Vec<GraphObject>,
    pos: usize,
}

impl RecordExpandIter {
    pub closed spec fn wf(&self) -> bool {
        &&& self.origin.wf()
        &&& tag_ok(self.tag)
        &&& self.pos <= self.children.len()
    }

    pub closed spec fn origin(&self) -> RecordModel {
        self.origin@
    }

    pub closed spec fn tag(&self) -> Option<KeyId> {
        self.tag
    }

    /// The candidates not yet consumed.
    pub closed spec fn remaining(&self) -> Seq<GraphModel> {
        graph_views(self.children@.subrange(self.pos as int, self.children.len() as int))
    }

    pub fn new(origin: Record, tag: Option<&KeyId>, children: Vec<GraphObject>) -> (r: Self)
        requires
            origin.wf(),
            tag_ok(deref_tag(tag)),
        ensures
            r.wf(),
            r.origin() == origin@,
            r.tag() == deref_tag(tag),
            r.remaining() == graph_views(children@),
    {
        let t = match tag {
            Some(t) => Some(*t),
            None => None,
        };
        let r = RecordExpandIter { tag: t, origin, children, pos: 0 };
        assert(r.children@.subrange(0, r.children.len() as int) =~= r.children@);
        r
    }

    /// The next derived record, or `None` once the candidates are exhausted.
    pub fn next(&mut self) -> (r: Option<Record>)
        requires
            old(self).wf(),
        ensures
            final(self).wf(),
            final(self).origin() == old(self).origin(),
            final(self).tag() == old(self).tag(),
            old(self).remaining().len() == 0 ==> r.is_none() && final(self).remaining().len()
                == 0,
            old(self).remaining().len() > 0 ==> {
                &&& r matches Some(rec)
                &&& rec.wf()
                &&& rec@ == appended(
                    old(self).origin(),
                    graph_entry(old(self).remaining()[0]),
                    old(self).tag(),
                )
                &&& final(self).remaining() == old(self).remaining().drop_first()
            },
    {
        if self.pos < self.children.len() {
            let mut record = self.origin.duplicate();
            let elem = self.children[self.pos].duplicate();
            record.append(Entry::Element(RecordElement::OnGraph(elem)), self.tag);
            self.pos = self.pos + 1;
            assert(self.remaining() =~= old(self).remaining().drop_first());
            Some(record)
        } else {
            None
        }
    }

    /// Runs the expansion to its end: one record per remaining candidate, in order.
    pub fn collect_records(self) -> (r: Vec<Record>)
        requires
            self.wf(),
        ensures
            r.len() == self.remaining().len(),
            forall|i: int|
                0 <= i < r.len() ==> #[trigger] r[i]@ == appended(
                    self.origin(),
                    graph_entry(self.remaining()[i]),
                    self.tag(),
                ),
    {
        let ghost all = self.remaining();
        let mut it = self;
        let mut out: Vec<Record> = Vec::new();
        loop
            invariant
                it.wf(),
                it.origin() == self.origin(),
                it.tag() == self.tag(),
                all.len() == out.len() + it.remaining().len(),
                it.remaining() == all.subrange(out.len() as int, all.len() as int),
                forall|i: int|
                    0 <= i < out.len() ==> #[trigger] out[i]@ == appended(
                        self.origin(),
                        graph_entry(all[i]),
                        self.tag(),
                    ),
            ensures
                out.len() == all.len(),
            decreases it.remaining().len(),
        {
            let ghost before = it.remaining();
            match it.next() {
                Some(rec) => {
                    assert(before[0] == all[out.len() as int]);
                    out.push(rec);
                    assert(it.remaining() =~= all.subrange(out.len() as int, all.len() as int));
                },
                None => {
                    assert(before.len() == 0);
                    break ;
                },
            }
        }
        out
    }
}

/// The record that extends `path` by the candidate `g` and makes the extended path current;
/// `None` for a candidate that is itself a path.
pub open spec fn path_step(origin: RecordModel, path: Seq<VertexOrEdge>, g: GraphModel) -> Option<
    RecordModel,
> {
    match g {
        GraphModel::V(v) => Some(
            appended(origin, graph_entry(GraphModel::P(path.push(VertexOrEdge::V(v)))), None),
        ),
        GraphModel::E(e) => Some(
            appended(origin, graph_entry(GraphModel::P(path.push(VertexOrEdge::E(e)))), None),
        ),
        GraphModel::P(_) => None,
    }
}

/// How many candidates come before the first path-typed one (all of them if none is).
pub open spec fn hops_before_path(s: Seq<GraphModel>) -> nat
    decreases s.len(),
{
    if s.len() == 0 {
        0
    } else if s[0] is P {
        0
    } else {
        1 + hops_before_path(s.drop_first())
    }
}

/// Extends a path in progress by each candidate vertex or edge in turn; a candidate that is a
/// path ends the sequence.
pub struct RecordPathExpandIter {
    origin: Record,
    curr_path: GraphPath,
    children: Vec<GraphObject>,
    pos: usize,
}

impl RecordPathExpandIter {
    pub closed spec fn wf(&self) -> bool {
        &&& self.origin.wf()
        &&& self.pos <= self.children.len()
    }

    pub closed spec fn origin(&self) -> RecordModel {
        self.origin@
    }

    pub closed spec fn path(&self) -> Seq<VertexOrEdge> {
        self.curr_path@
    }

    /// The candidates not yet consumed.
    pub closed spec fn remaining(&self) -> Seq<GraphModel> {
        graph_views(self.children@.subrange(self.pos as int, self.children.len() as int))
    }

    pub fn new(origin: Record, curr_path: GraphPath, children: Vec<GraphObject>) -> (r: Self)
        requires
            origin.wf(),
        ensures
            r.wf(),
            r.origin() == origin@,
            r.path() == curr_path@,
            r.remaining() == graph_views(children@),
    {
        let r = RecordPathExpandIter { origin, curr_path, children, pos: 0 };
        assert(r.children@.subrange(0, r.children.len() as int) =~= r.children@);
        r
    }

    /// The next extended record; `None` once the candidates are exhausted or a path-typed
    /// candidate is met, and from then on.
    pub fn next(&mut self) -> (r: Option<Record>)
        requires
            old(self).wf(),
        ensures
            final(self).wf(),
            final(self).origin() == old(self).origin(),
            final(self).path() == old(self).path(),
            old(self).remaining().len() == 0 ==> r.is_none() && final(self).remaining().len()
                == 0,
            old(self).remaining().len() > 0 ==> match path_step(
                old(self).origin(),
                old(self).path(),
                old(self).remaining()[0],
            ) {
                Some(m) => {
                    &&& r matches Some(rec)
                    &&& rec.wf()
                    &&& rec@ == m
                    &&& final(self).remaining() == old(self).remaining().drop_first()
                },
                None => r.is_none() && final(self).remaining().len() == 0,
            },
    {
        if self.pos < self.children.len() {
            let hop = match &self.children[self.pos] {
                GraphObject::V(v) => VertexOrEdge::V(*v),
                GraphObject::E(e) => VertexOrEdge::E(*e),
                GraphObject::P(_) => {
                    self.pos = self.children.len();
                    return None;
                },
            };
            let mut record = self.origin.duplicate();
            let mut path = self.curr_path.duplicate();
            path.append(hop);
            record.append(Entry::Element(RecordElement::OnGraph(GraphObject::P(path))), None);
            self.pos = self.pos + 1;
            assert(self.remaining() =~= old(self).remaining().drop_first());
            Some(record)
        } else {
            None
        }
    }
    /// Runs the expansion to its end: one record per candidate before the first path-typed
    /// one, in order; nothing after it.
    pub fn collect_records(self) -> (r: Vec<Record>)
        requires
            self.wf(),
        ensures
            r.len() == hops_before_path(self.remaining()),
            forall|i: int|
                0 <= i < r.len() ==> Some(#[trigger] r[i]@) == path_step(
                    self.origin(),
                    self.path(),
                    self.remaining()[i],
                ),
    {
        let ghost all = self.remaining();
        let mut it = self;
        let mut out: Vec<Record> = Vec::new();
        loop
            invariant_except_break
                it.remaining() == all.subrange(out.len() as int, all.len() as int),
                hops_before_path(all) == out.len() + hops_before_path(it.remaining()),
            invariant
                it.wf(),
                it.origin() == self.origin(),
                it.path() == self.path(),
                out.len() <= all.len(),
                forall|i: int|
                    0 <= i < out.len() ==> Some(#[trigger] out[i]@) == path_step(
                        self.origin(),
                        self.path(),
                        all[i],
                    ),
            ensures
                out.len() == hops_before_path(all),
            decreases it.remaining().len(),
        {
            let ghost before = it.remaining();
            match it.next() {
                Some(rec) => {
                    assert(before[0] == all[out.len() as int]);
                    assert(before.drop_first() =~= all.subrange(out.len() + 1, all.len() as int));
                    out.push(rec);
                },
                None => {
                    assert(hops_before_path(before) == 0);
                    break ;
                },
            }
        }
        out
    }
}

} // verus!
