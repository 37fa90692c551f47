use std::sync::Arc;
use vec_map::VecMap;
use vstd::bytes::{lemma_auto_spec_u32_to_from_le_bytes, lemma_auto_spec_u64_to_from_le_bytes};
use vstd::prelude::*;

use crate::columns::{
    columns_clone, columns_contains, columns_drain, columns_get, columns_insert, columns_new,
    columns_list, columns_of, columns_remove, lists_in_order, share, MAX_TAG,
};
use crate::codec::{
    dec_byte, dec_entry, dec_list, dec_u32, dec_u64, enc_entry, enc_list, entry_fits, get_byte,
    get_u32, get_u64, holds_at, le32, le64, lemma_dec_list_stops, lemma_entry_round_trip,
    lemma_appended_holds, lemma_holds_split, lemma_u32_round_trip, lemma_u64_round_trip, put_u32, put_u64, DecodeError,
};
use crate::value::{Entry, EntryModel};

verus! {

/// A column tag, assigned when a query is compiled.
pub type KeyId = i32;

/// What a record holds: its current entry, if any, and its tagged columns.
pub struct RecordModel {
    pub curr: Option<EntryModel>,
    pub columns: Map<usize, EntryModel>,
}

pub open spec fn handle_view(e: Option<Arc<Entry>>) -> Option<EntryModel> {
    match e {
        Some(x) => Some(x@),
        None => None,
    }
}

pub open spec fn columns_view(m: Map<usize, Arc<Entry>>) -> Map<usize, EntryModel> {
    m.map_values(|e: Arc<Entry>| e@)
}

pub open spec fn ref_view(e: Option<&Arc<Entry>>) -> Option<EntryModel> {
    match e {
        Some(x) => Some(x@),
        None => None,
    }
}

pub open spec fn deref_tag(tag: Option<&KeyId>) -> Option<KeyId> {
    match tag {
        Some(t) => Some(*t),
        None => None,
    }
}

/// A tag is usable when it is absent or non-negative.
pub open spec fn tag_ok(tag: Option<KeyId>) -> bool {
    tag matches Some(t) ==> t >= 0
}

/// The columns after binding `tag`, when one is given, to `e`.
pub open spec fn bind_tag(
    cols: Map<usize, EntryModel>,
    tag: Option<KeyId>,
    e: EntryModel,
) -> Map<usize, EntryModel> {
    match tag {
        Some(t) => cols.insert(t as usize, e),
        None => cols,
    }
}

/// The record after appending `e`: it becomes current, and is bound to `tag` if one is given.
pub open spec fn appended(r: RecordModel, e: EntryModel, tag: Option<KeyId>) -> RecordModel {
    RecordModel { curr: Some(e), columns: bind_tag(r.columns, tag, e) }
}

/// What `get` finds: the column of a tag, or the current entry when no tag is given.
pub open spec fn lookup(r: RecordModel, tag: Option<KeyId>) -> Option<EntryModel> {
    match tag {
        Some(t) => if r.columns.contains_key(t as usize) {
            Some(r.columns[t as usize])
        } else {
            None
        },
        None => r.curr,
    }
}

/// The join of two records: every column of `a`, the columns of `b` whose tags `a` lacks,
/// and the current entry that `is_left` selects.
pub open spec fn joined(a: RecordModel, b: RecordModel, is_left: Option<bool>) -> RecordModel {
    RecordModel {
        curr: match is_left {
            None => None,
            Some(true) => a.curr,
            Some(false) => b.curr,
        },
        columns: b.columns.union_prefer_right(a.columns),
    }
}

/// One row of intermediate query output.
pub struct Record {
    curr: Option<Arc<Entry>>,
    columns: VecMap<Arc<Entry>>,
}

impl View for Record {
    type V = RecordModel;

    closed spec fn view(&self) -> RecordModel {
        RecordModel { curr: handle_view(self.curr), columns: columns_view(columns_of(self.columns)) }
    }
}

impl Record {
    /// Every tag that the record binds fits the column store.
    pub closed spec fn wf(&self) -> bool {
        forall|k: usize| #[trigger] columns_of(self.columns).contains_key(k) ==> k <= MAX_TAG
    }

    pub fn new(entry: Entry, tag: Option<KeyId>) -> (r: Record)
        requires
            tag_ok(tag),
        ensures
            r.wf(),
            r@ == appended(
                RecordModel { curr: None, columns: Map::empty() },
                entry@,
                tag,
            ),
    {
        let entry = Arc::new(entry);
        let mut columns = columns_new();
        if let Some(tag) = tag {
            columns_insert(&mut columns, tag as usize, share(&entry));
        }
        let r = Record { curr: Some(entry), columns };
        assert(r@.columns =~= bind_tag(Map::empty(), tag, entry@));
        r
    }

    /// Appends a value: it becomes the current entry, and is bound to `alias` if one is given.
    pub fn append(&mut self, entry: Entry, alias: Option<KeyId>)
        requires
            old(self).wf(),
            tag_ok(alias),
        ensures
            final(self).wf(),
            final(self)@ == appended(old(self)@, entry@, alias),
    {
        self.append_arc_entry(Arc::new(entry), alias)
    }

    /// Appends an already shared entry, as `append` does.
    pub fn append_arc_entry(&mut self, entry: Arc<Entry>, alias: Option<KeyId>)
        requires
            old(self).wf(),
            tag_ok(alias),
        ensures
            final(self).wf(),
            final(self)@ == appended(old(self)@, entry@, alias),
    {
        self.curr = Some(share(&entry));
        if let Some(alias) = alias {
            columns_insert(&mut self.columns, alias as usize, entry);
        }
        assert(self@.columns =~= bind_tag(old(self)@.columns, alias, entry@));
    }

    /// Replaces the current entry, leaving the columns as they are.
    pub fn set_curr_entry(&mut self, entry: Option<Arc<Entry>>)
        requires
            old(self).wf(),
        ensures
            final(self).wf(),
            final(self)@ == (RecordModel { curr: handle_view(entry), columns: old(self)@.columns }),
    {
        self.curr = entry;
    }

    /// The entry bound to `tag`, or the current entry when no tag is given. A tag that was
    /// never bound gives `None`.
    pub fn get(&self, tag: Option<KeyId>) -> (r: Option<&Arc<Entry>>)
        requires
            tag_ok(tag),
        ensures
            ref_view(r) == lookup(self@, tag),
    {
        if let Some(tag) = tag {
            columns_get(&self.columns, tag as usize)
        } else {
            self.curr.as_ref()
        }
    }

    /// Removes and returns what `get` would find.
    pub fn take(&mut self, tag: Option<&KeyId>) -> (r: Option<Arc<Entry>>)
        requires
            old(self).wf(),
            tag_ok(deref_tag(tag)),
        ensures
            final(self).wf(),
            handle_view(r) == lookup(old(self)@, deref_tag(tag)),
            final(self)@ == (match tag {
                Some(t) => RecordModel {
                    curr: old(self)@.curr,
                    columns: old(self)@.columns.remove(*t as usize),
                },
                None => RecordModel { curr: None, columns: old(self)@.columns },
            }),
    {
        if let Some(tag) = tag {
            let r = columns_remove(&mut self.columns, *tag as usize);
            assert(self@.columns =~= old(self)@.columns.remove(*tag as usize));
            r
        } else {
            self.curr.take()
        }
    }

    /// Merges `other` into this record: tags already bound here keep their entries, the
    /// others are added; the current entry is unset, this record's, or `other`'s, as
    /// `is_left_opt` is `None`, `Some(true)` or `Some(false)`.
    pub fn join(self, other: Record, is_left_opt: Option<bool>) -> (r: Record)
        requires
            self.wf(),
            other.wf(),
        ensures
            r.wf(),
            r@ == joined(self@, other@, is_left_opt),
    {
        let ghost sv = self@;
        let ghost ov = other@;
        let mut this = self;
        let mut other = other;
        let ghost s0 = columns_of(this.columns);
        let ghost o0 = columns_of(other.columns);
        let pairs = columns_drain(&mut other.columns);
        let ghost sc = this.curr;
        let ghost oc = other.curr;
        let mut i: usize = 0;
        while i < pairs.len()
            invariant
                0 <= i <= pairs.len(),
                this.curr == sc,
                other.curr == oc,
                lists_in_order(pairs@, o0),
                forall|k: usize| #[trigger] o0.contains_key(k) ==> k <= MAX_TAG,
                forall|k: usize| #[trigger] s0.contains_key(k) ==> k <= MAX_TAG,
                forall|k: usize| #[trigger]
                    columns_of(this.columns).contains_key(k) <==> (s0.contains_key(k) || exists|j: int|
                        0 <= j < i && pairs@[j].0 == k),
                forall|k: usize| #[trigger]
                    s0.contains_key(k) ==> columns_of(this.columns)[k] == s0[k],
                forall|j: int|
                    0 <= j < i && !s0.contains_key(#[trigger] pairs@[j].0) ==> columns_of(
                        this.columns,
                    )[pairs@[j].0] == pairs@[j].1,
            decreases pairs.len() - i,
        {
            let key = pairs[i].0;
            if !columns_contains(&this.columns, key) {
                columns_insert(&mut this.columns, key, share(&pairs[i].1));
            }
            proof {
                assert forall|j: int|
                    0 <= j < i + 1 && !s0.contains_key(#[trigger] pairs@[j].0) implies columns_of(
                    this.columns,
                )[pairs@[j].0] == pairs@[j].1 by {
                    if j < i {
                        assert(pairs@[j].0 < pairs@[i as int].0);
                    }
                }
            }
            i = i + 1;
        }
        let ghost c = columns_of(this.columns);
        assert(c =~= o0.union_prefer_right(s0)) by {
            assert forall|k: usize| #[trigger] o0.contains_key(k) && !s0.contains_key(k) implies c[k]
                == o0[k] by {
                let j = choose|j: int| 0 <= j < pairs@.len() && #[trigger] pairs@[j].0 == k;
                assert(c.contains_key(pairs@[j].0));
            }
            assert forall|k: usize| #[trigger] c.contains_key(k) implies o0.union_prefer_right(
                s0,
            ).contains_key(k) by {
                if !s0.contains_key(k) {
                    let j = choose|j: int| 0 <= j < i && pairs@[j].0 == k;
                    assert(o0.contains_key(pairs@[j].0));
                }
            }
        }
        match is_left_opt {
            Some(true) => {},
            Some(false) => {
                this.curr = other.curr;
            },
            None => {
                this.curr = None;
            },
        }
        assert(this@.columns =~= ov.columns.union_prefer_right(sv.columns));
        this
    }

    /// A copy of the record that shares every entry with it.
    pub fn duplicate(&self) -> (r: Record)
        requires
            self.wf(),
        ensures
            r@ == self@,
            r.wf(),
    {
        let curr = match &self.curr {
            Some(e) => Some(share(e)),
            None => None,
        };
        Record { curr, columns: columns_clone(&self.columns) }
    }
}

/// The key columns of a record, one per requested tag, compared by value.
#[derive(Clone, Debug, Hash, PartialEq, Eq)]
pub struct RecordKey {
    key_fields: Vec<Arc<Entry>>,
}

pub open spec fn handles_view(v: Seq<Arc<Entry>>) -> Seq<EntryModel> {
    v.map_values(|e: Arc<Entry>| e@)
}

impl View for RecordKey {
    type V = Seq<EntryModel>;

    closed spec fn view(&self) -> Seq<EntryModel> {
        handles_view(self.key_fields@)
    }
}

impl RecordKey {
    pub fn new(key_fields: Vec<Arc<Entry>>) -> (r: RecordKey)
        ensures
            r@ == handles_view(key_fields@),
    {
        RecordKey { key_fields }
    }

    /// Gives the key's entries back to the caller.
    pub fn take(self) -> (r: Vec<Arc<Entry>>)
        ensures
            handles_view(r@) == self@,
    {
        self.key_fields
    }
}

/// A join keeps the left record's entry at every tag that the left record binds.
pub proof fn lemma_join_left_bias(a: RecordModel, b: RecordModel, is_left: Option<bool>, t: usize)
    requires
        a.columns.contains_key(t),
    ensures
        joined(a, b, is_left).columns.contains_key(t),
        joined(a, b, is_left).columns[t] == a.columns[t],
{
}

/// The tags of a join are the tags of both sides together.
pub proof fn lemma_join_union(a: RecordModel, b: RecordModel, is_left: Option<bool>)
    ensures
        joined(a, b, is_left).columns.dom() == a.columns.dom() + b.columns.dom(),
{
    assert(joined(a, b, is_left).columns.dom() =~= a.columns.dom() + b.columns.dom());
}

/// A join's current entry is the left one, the right one, or none, as the disposition says.
pub proof fn lemma_join_current(a: RecordModel, b: RecordModel)
    ensures
        joined(a, b, Some(true)).curr == a.curr,
        joined(a, b, Some(false)).curr == b.curr,
        joined(a, b, None).curr == None::<EntryModel>,
{
}

/// Looking up a tag that a record does not bind finds nothing, and is no failure.
pub proof fn lemma_unbound_tag_is_empty(r: RecordModel, t: KeyId)
    requires
        t >= 0,
        !r.columns.contains_key(t as usize),
    ensures
        lookup(r, Some(t)) == None::<EntryModel>,
{
}

/// Appending under a tag makes the value both current and bound to that tag, and leaves
/// the other tags as they were.
pub proof fn lemma_append_then_get(r: RecordModel, e: EntryModel, t: KeyId, u: KeyId)
    requires
        t >= 0,
        u >= 0,
        u != t,
    ensures
        lookup(appended(r, e, Some(t)), None) == Some(e),
        lookup(appended(r, e, Some(t)), Some(t)) == Some(e),
        lookup(appended(r, e, Some(t)), Some(u)) == lookup(r, Some(u)),
{
}

// ---- wire form of records and keys ----

pub open spec fn entry_enc() -> spec_fn(EntryModel) -> Seq<u8> {
    |x: EntryModel| enc_entry(x)
}

pub open spec fn entry_dec() -> spec_fn(Seq<u8>, int) -> Option<(EntryModel, int)> {
    |s: Seq<u8>, pos: int| dec_entry(s, pos)
}

/// A key: a 4-byte count, then the entries.
pub open spec fn enc_key(xs: Seq<EntryModel>) -> Seq<u8> {
    le32(xs.len() as u32) + enc_list(xs, entry_enc())
}

pub open spec fn dec_key(s: Seq<u8>, pos: int) -> Option<(Seq<EntryModel>, int)> {
    match dec_u32(s, pos) {
        Some((n, p)) => dec_list(s, p, n as nat, entry_dec()),
        None => None,
    }
}

pub open spec fn enc_pair(p: (usize, EntryModel)) -> Seq<u8> {
    le32(p.0 as u32) + enc_entry(p.1)
}

/// A tagged column: a 4-byte signed tag, which must not be negative, then the entry.
pub open spec fn dec_pair(s: Seq<u8>, pos: int) -> Option<((usize, EntryModel), int)> {
    match dec_u32(s, pos) {
        Some((t, p)) => if t <= MAX_TAG {
            match dec_entry(s, p) {
                Some((e, q)) => Some(((t as usize, e), q)),
                None => None,
            }
        } else {
            None
        },
        None => None,
    }
}

pub open spec fn pair_enc() -> spec_fn((usize, EntryModel)) -> Seq<u8> {
    |p: (usize, EntryModel)| enc_pair(p)
}

pub open spec fn pair_dec() -> spec_fn(Seq<u8>, int) -> Option<((usize, EntryModel), int)> {
    |s: Seq<u8>, pos: int| dec_pair(s, pos)
}

/// The columns that binding each pair in turn gives; a later pair wins on a repeated tag.
pub open spec fn pairs_map(ps: Seq<(usize, EntryModel)>) -> Map<usize, EntryModel>
    decreases ps.len(),
{
    if ps.len() == 0 {
        Map::empty()
    } else {
        pairs_map(ps.drop_last()).insert(ps.last().0, ps.last().1)
    }
}

/// A record: 0, or 1 and the current entry; an 8-byte column count; the tagged columns.
pub open spec fn enc_curr(curr: Option<EntryModel>) -> Seq<u8> {
    match curr {
        None => seq![0u8],
        Some(e) => seq![1u8] + enc_entry(e),
    }
}

pub open spec fn enc_record(curr: Option<EntryModel>, ps: Seq<(usize, EntryModel)>) -> Seq<u8> {
    enc_curr(curr) + le64(ps.len() as u64) + enc_list(ps, pair_enc())
}

pub open spec fn dec_curr(s: Seq<u8>, pos: int) -> Option<(Option<EntryModel>, int)> {
    match dec_byte(s, pos) {
        Some((0u8, p)) => Some((None, p)),
        Some((1u8, p)) => match dec_entry(s, p) {
            Some((e, q)) => Some((Some(e), q)),
            None => None,
        },
        _ => None,
    }
}

pub open spec fn dec_record(s: Seq<u8>, pos: int) -> Option<(RecordModel, int)> {
    match dec_curr(s, pos) {
        Some((curr, p)) => match dec_u64(s, p) {
            Some((n, q)) => match dec_list(s, q, n as nat, pair_dec()) {
                Some((ps, e)) => Some((RecordModel { curr, columns: pairs_map(ps) }, e)),
                None => None,
            },
            None => None,
        },
        None => None,
    }
}

/// `ps` lists the columns `cols`, once each, in ascending order of tags.
pub open spec fn lists_columns(ps: Seq<(usize, EntryModel)>, cols: Map<usize, EntryModel>) -> bool {
    &&& forall|i: int, j: int| 0 <= i < j < ps.len() ==> ps[i].0 < ps[j].0
    &&& pairs_map(ps) == cols
}

proof fn lemma_pairs_map_of_listing(ps: Seq<(usize, EntryModel)>, raw: Seq<(usize, Arc<Entry>)>, cols: Map<usize, Arc<Entry>>)
    requires
        lists_in_order(raw, cols),
        ps == raw.map_values(|p: (usize, Arc<Entry>)| (p.0, p.1@)),
    ensures
        lists_columns(ps, columns_view(cols)),
{
    lemma_pairs_map_prefix(ps, raw, cols, ps.len() as int);
    assert(ps.take(ps.len() as int) =~= ps);
    assert(pairs_map(ps) =~= columns_view(cols));
}

proof fn lemma_pairs_map_prefix(ps: Seq<(usize, EntryModel)>, raw: Seq<(usize, Arc<Entry>)>, cols: Map<usize, Arc<Entry>>, n: int)
    requires
        lists_in_order(raw, cols),
        ps == raw.map_values(|p: (usize, Arc<Entry>)| (p.0, p.1@)),
        0 <= n <= ps.len(),
    ensures
        forall|k: usize| #[trigger] pairs_map(ps.take(n)).contains_key(k) <==> exists|i: int|
            0 <= i < n && raw[i].0 == k,
        forall|i: int| 0 <= i < n ==> #[trigger] pairs_map(ps.take(n))[raw[i].0] == raw[i].1@,
    decreases n,
{
    if n > 0 {
        lemma_pairs_map_prefix(ps, raw, cols, n - 1);
        assert(ps.take(n).drop_last() =~= ps.take(n - 1));
        assert(ps.take(n).last() == (raw[n - 1].0, raw[n - 1].1@));
        assert forall|k: usize| #[trigger] pairs_map(ps.take(n)).contains_key(k) <==> exists|i: int|
            0 <= i < n && raw[i].0 == k by {
            if pairs_map(ps.take(n)).contains_key(k) && k != raw[n - 1].0 {
                assert(pairs_map(ps.take(n - 1)).contains_key(k));
            }
            if exists|i: int| 0 <= i < n && raw[i].0 == k {
                let i = choose|i: int| 0 <= i < n && raw[i].0 == k;
                if i < n - 1 {
                    assert(pairs_map(ps.take(n - 1)).contains_key(raw[i].0));
                }
            }
        }
        assert forall|i: int| 0 <= i < n implies #[trigger] pairs_map(ps.take(n))[raw[i].0] == raw[i].1@ by {
            if i < n - 1 {
                assert(raw[i].0 < raw[n - 1].0);
                assert(pairs_map(ps.take(n - 1))[raw[i].0] == raw[i].1@);
            }
        }
    }
}

/// Decoding an encoded record gives back its current entry and its columns, and stops right
/// after it.
pub proof fn lemma_record_round_trip(
    curr: Option<EntryModel>,
    ps: Seq<(usize, EntryModel)>,
    s: Seq<u8>,
    pos: int,
)
    requires
        curr matches Some(e) ==> entry_fits(e),
        ps.len() <= u64::MAX,
        forall|i: int| 0 <= i < ps.len() ==> #[trigger] ps[i].0 <= MAX_TAG && entry_fits(ps[i].1),
        holds_at(s, pos, enc_record(curr, ps)),
    ensures
        dec_record(s, pos) == Some(
            (RecordModel { curr, columns: pairs_map(ps) }, pos + enc_record(curr, ps).len()),
        ),
{
    lemma_auto_spec_u32_to_from_le_bytes();
    lemma_auto_spec_u64_to_from_le_bytes();
    let head = enc_curr(curr);
    lemma_holds_split(s, pos, head + le64(ps.len() as u64), enc_list(ps, pair_enc()));
    lemma_holds_split(s, pos, head, le64(ps.len() as u64));
    match curr {
        None => {
            assert(s[pos] == head[0]);
        },
        Some(e) => {
            lemma_holds_split(s, pos, seq![1u8], enc_entry(e));
            assert(s[pos] == seq![1u8][0]);
            lemma_entry_round_trip(e, s, pos + 1);
        },
    }
    lemma_u64_round_trip(ps.len() as u64, s, pos + head.len());
    lemma_pairs_round_trip(ps, s, pos + head.len() + 8);
}

proof fn lemma_pairs_round_trip(ps: Seq<(usize, EntryModel)>, s: Seq<u8>, pos: int)
    requires
        forall|i: int| 0 <= i < ps.len() ==> #[trigger] ps[i].0 <= MAX_TAG && entry_fits(ps[i].1),
        holds_at(s, pos, enc_list(ps, pair_enc())),
    ensures
        dec_list(s, pos, ps.len(), pair_dec()) == Some((ps, pos + enc_list(ps, pair_enc()).len())),
    decreases ps.len(),
{
    lemma_auto_spec_u32_to_from_le_bytes();
    lemma_auto_spec_u64_to_from_le_bytes();
    if ps.len() > 0 {
        let init = ps.drop_last();
        let x = ps.last();
        let at = pos + enc_list(init, pair_enc()).len();
        lemma_holds_split(s, pos, enc_list(init, pair_enc()), enc_pair(x));
        lemma_pairs_round_trip(init, s, pos);
        lemma_holds_split(s, at, le32(x.0 as u32), enc_entry(x.1));
        lemma_u32_round_trip(x.0 as u32, s, at);
        lemma_entry_round_trip(x.1, s, at + 4);
        assert(init.push(x) =~= ps);
    }
}

/// Decoding an encoded key gives back the same entries, and stops right after them.
pub proof fn lemma_key_round_trip(xs: Seq<EntryModel>, s: Seq<u8>, pos: int)
    requires
        xs.len() <= u32::MAX,
        forall|i: int| 0 <= i < xs.len() ==> entry_fits(#[trigger] xs[i]),
        holds_at(s, pos, enc_key(xs)),
    ensures
        dec_key(s, pos) == Some((xs, pos + enc_key(xs).len())),
{
    lemma_auto_spec_u32_to_from_le_bytes();
    lemma_auto_spec_u64_to_from_le_bytes();
    lemma_holds_split(s, pos, le32(xs.len() as u32), enc_list(xs, entry_enc()));
    lemma_u32_round_trip(xs.len() as u32, s, pos);
    lemma_entries_round_trip(xs, s, pos + 4);
}

proof fn lemma_entries_round_trip(xs: Seq<EntryModel>, s: Seq<u8>, pos: int)
    requires
        forall|i: int| 0 <= i < xs.len() ==> entry_fits(#[trigger] xs[i]),
        holds_at(s, pos, enc_list(xs, entry_enc())),
    ensures
        dec_list(s, pos, xs.len(), entry_dec()) == Some((xs, pos + enc_list(xs, entry_enc()).len())),
    decreases xs.len(),
{
    if xs.len() > 0 {
        let init = xs.drop_last();
        lemma_holds_split(s, pos, enc_list(init, entry_enc()), enc_entry(xs.last()));
        lemma_entries_round_trip(init, s, pos);
        lemma_entry_round_trip(xs.last(), s, pos + enc_list(init, entry_enc()).len());
        assert(init.push(xs.last()) =~= xs);
    }
}

impl Record {
    /// Writes the record: the current entry, then the columns in ascending order of tags.
    pub fn write_to(&self, out: &mut Vec<u8>)
        requires
            self.wf(),
        ensures
            exists|ps: Seq<(usize, EntryModel)>|
                {
                    &&& lists_columns(ps, self@.columns)
                    &&& forall|i: int| 0 <= i < ps.len() ==> #[trigger] ps[i].0 <= MAX_TAG
                    &&& final(out)@ == old(out)@ + enc_record(self@.curr, ps)
                },
            dec_record(final(out)@, old(out)@.len() as int) == Some(
                (self@, final(out)@.len() as int),
            ),
    {
        match &self.curr {
            None => {
                out.push(0);
            },
            Some(e) => {
                out.push(1);
                e.write_to(out);
            },
        }
        assert(out@ =~= old(out)@ + enc_curr(self@.curr));
        let pairs = columns_list(&self.columns);
        let ghost ps = pairs@.map_values(|p: (usize, Arc<Entry>)| (p.0, p.1@));
        put_u64(out, pairs.len() as u64);
        let ghost start = out@;
        let mut i: usize = 0;
        while i < pairs.len()
            invariant
                self.wf(),
                i <= pairs.len(),
                lists_in_order(pairs@, columns_of(self.columns)),
                ps == pairs@.map_values(|p: (usize, Arc<Entry>)| (p.0, p.1@)),
                out@ == start + enc_list(ps.take(i as int), pair_enc()),
                forall|j: int| 0 <= j < i ==> entry_fits(#[trigger] ps[j].1),
            decreases pairs.len() - i,
        {
            let key = pairs[i].0;
            assert(columns_of(self.columns).contains_key(pairs@[i as int].0));
            put_u32(out, key as u32);
            pairs[i].1.write_to(out);
            assert(ps.take(i + 1).drop_last() =~= ps.take(i as int));
            assert(out@ =~= start + enc_list(ps.take(i + 1), pair_enc()));
            i = i + 1;
        }
        assert(ps.take(i as int) =~= ps);
        proof {
            lemma_pairs_map_of_listing(ps, pairs@, columns_of(self.columns));
            assert forall|i: int| 0 <= i < ps.len() implies #[trigger] ps[i].0 <= MAX_TAG by {
                assert(columns_of(self.columns).contains_key(pairs@[i].0));
            }
        }
        assert(out@ =~= old(out)@ + enc_record(self@.curr, ps));
        assert(lists_columns(ps, self@.columns));
        proof {
            lemma_appended_holds(old(out)@, enc_record(self@.curr, ps));
            lemma_record_round_trip(self@.curr, ps, final(out)@, old(out)@.len() as int);
        }
    }

    /// Reads a record written by `write_to`, starting at `pos`; gives the position after it.
    pub fn read_from(s: &[u8], pos: usize) -> (r: Result<(Record, usize), DecodeError>)
        ensures
            match dec_record(s@, pos as int) {
                Some((m, e)) => r matches Ok((v, q)) && v.wf() && v@ == m && q as int == e,
                None => r.is_err(),
            },
    {
        let (d, p) = get_byte(s, pos)?;
        let (curr, p) = if d == 0 {
            (None, p)
        } else if d == 1 {
            let (e, q) = Entry::read_from(s, p)?;
            (Some(Arc::new(e)), q)
        } else {
            return Err(DecodeError::UnknownDiscriminant);
        };
        assert(dec_curr(s@, pos as int) == Some((handle_view(curr), p as int)));
        let (n, q0) = get_u64(s, p)?;
        let mut columns = columns_new();
        let ghost mut ps: Seq<(usize, EntryModel)> = Seq::empty();
        assert(columns_view(columns_of(columns)) =~= pairs_map(ps));
        let mut at = q0;
        let mut i: u64 = 0;
        while i < n
            invariant
                i <= n,
                dec_record(s@, pos as int) == match dec_list(s@, q0 as int, n as nat, pair_dec()) {
                    Some((ys, e)) => Some(
                        (RecordModel { curr: handle_view(curr), columns: pairs_map(ys) }, e),
                    ),
                    None => None::<(RecordModel, int)>,
                },
                dec_list(s@, q0 as int, i as nat, pair_dec()) == Some((ps, at as int)),
                columns_view(columns_of(columns)) == pairs_map(ps),
                forall|k: usize| #[trigger] columns_of(columns).contains_key(k) ==> k <= MAX_TAG,
            decreases n - i,
        {
            let (t, p) = match get_u32(s, at) {
                Ok(x) => x,
                Err(err) => {
                    proof {
                        lemma_dec_list_stops(s@, q0 as int, (i + 1) as nat, n as nat, pair_dec());
                    }
                    return Err(err);
                },
            };
            if t > MAX_TAG as u32 {
                proof {
                    lemma_dec_list_stops(s@, q0 as int, (i + 1) as nat, n as nat, pair_dec());
                }
                return Err(DecodeError::UnknownDiscriminant);
            }
            let (e, q) = match Entry::read_from(s, p) {
                Ok(x) => x,
                Err(err) => {
                    proof {
                        lemma_dec_list_stops(s@, q0 as int, (i + 1) as nat, n as nat, pair_dec());
                    }
                    return Err(err);
                },
            };
            let ghost before = columns_of(columns);
            let ghost x = (t as usize, e@);
            columns_insert(&mut columns, t as usize, Arc::new(e));
            proof {
                assert(ps.push(x).drop_last() =~= ps);
                ps = ps.push(x);
                assert(columns_view(columns_of(columns)) =~= pairs_map(ps));
            }
            at = q;
            i = i + 1;
        }
        let r = Record { curr, columns };
        Ok((r, at))
    }
}

impl RecordKey {
    /// Writes the key: a 4-byte count, then each entry.
    pub fn write_to(&self, out: &mut Vec<u8>)
        requires
            self@.len() <= u32::MAX,
        ensures
            final(out)@ == old(out)@ + enc_key(self@),
            dec_key(final(out)@, old(out)@.len() as int) == Some(
                (self@, final(out)@.len() as int),
            ),
    {
        put_u32(out, self.key_fields.len() as u32);
        let ghost start = out@;
        let mut i: usize = 0;
        while i < self.key_fields.len()
            invariant
                i <= self.key_fields.len(),
                out@ == start + enc_list(self@.take(i as int), entry_enc()),
                forall|j: int| 0 <= j < i ==> entry_fits(#[trigger] self@[j]),
            decreases self.key_fields.len() - i,
        {
            self.key_fields[i].write_to(out);
            assert(self@.take(i + 1).drop_last() =~= self@.take(i as int));
            i = i + 1;
        }
        assert(self@.take(i as int) =~= self@);
        assert(out@ =~= old(out)@ + enc_key(self@));
        proof {
            lemma_appended_holds(old(out)@, enc_key(self@));
            lemma_key_round_trip(self@, final(out)@, old(out)@.len() as int);
        }
    }

    /// Reads a key written by `write_to`, starting at `pos`; gives the position after it.
    pub fn read_from(s: &[u8], pos: usize) -> (r: Result<(RecordKey, usize), DecodeError>)
        ensures
            match dec_key(s@, pos as int) {
                Some((m, e)) => r matches Ok((v, q)) && v@ == m && q as int == e,
                None => r.is_err(),
            },
    {
        let (n, q0) = get_u32(s, pos)?;
        let mut key_fields: Vec<Arc<Entry>> = Vec::new();
        let mut at = q0;
        let mut i: u32 = 0;
        while i < n
            invariant
                i <= n,
                dec_key(s@, pos as int) == dec_list(s@, q0 as int, n as nat, entry_dec()),
                dec_list(s@, q0 as int, i as nat, entry_dec()) == Some(
                    (handles_view(key_fields@), at as int),
                ),
            decreases n - i,
        {
            let ghost before = key_fields@;
            match Entry::read_from(s, at) {
                Ok((e, q)) => {
                    key_fields.push(Arc::new(e));
                    assert(handles_view(key_fields@) =~= handles_view(before).push(e@));
                    at = q;
                },
                Err(err) => {
                    proof {
                        lemma_dec_list_stops(s@, q0 as int, (i + 1) as nat, n as nat, entry_dec());
                    }
                    return Err(err);
                },
            }
            i = i + 1;
        }
        Ok((RecordKey { key_fields }, at))
    }
}

} // verus!
