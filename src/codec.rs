use vstd::bytes::{
    lemma_auto_spec_u32_to_from_le_bytes, lemma_auto_spec_u64_to_from_le_bytes,
    spec_u32_from_le_bytes, spec_u32_to_le_bytes, spec_u64_from_le_bytes, spec_u64_to_le_bytes,
    u32_from_le_bytes, u32_to_le_bytes, u64_from_le_bytes, u64_to_le_bytes,
};
use vstd::prelude::*;
use vstd::slice::slice_subrange;

use crate::value::{
    CommonModel, CommonObject, Edge, ElementModel, Entry, EntryModel, GraphModel, GraphObject,
    GraphPath, Object, ObjectModel, RecordElement, Vertex, VertexOrEdge, elements_view,
};

verus! {

/// Why a byte stream could not be decoded. Either way the stream is unusable.
#[derive(Debug, Clone, Copy, PartialEq, Eq, Structural)]
pub enum DecodeError {
    /// The stream ended inside a value.
    UnexpectedEnd,
    /// A variant byte, or a tag, that no value has.
    UnknownDiscriminant,
}

// ---- integers ----

pub open spec fn le64(x: u64) -> Seq<u8> {
    spec_u64_to_le_bytes(x)
}

pub open spec fn le32(x: u32) -> Seq<u8> {
    spec_u32_to_le_bytes(x)
}

pub open spec fn dec_byte(s: Seq<u8>, pos: int) -> Option<(u8, int)> {
    if 0 <= pos < s.len() {
        Some((s[pos], pos + 1))
    } else {
        None
    }
}

pub open spec fn dec_u64(s: Seq<u8>, pos: int) -> Option<(u64, int)> {
    if 0 <= pos && pos + 8 <= s.len() {
        Some((spec_u64_from_le_bytes(s.subrange(pos, pos + 8)), pos + 8))
    } else {
        None
    }
}

pub open spec fn dec_u32(s: Seq<u8>, pos: int) -> Option<(u32, int)> {
    if 0 <= pos && pos + 4 <= s.len() {
        Some((spec_u32_from_le_bytes(s.subrange(pos, pos + 4)), pos + 4))
    } else {
        None
    }
}

// ---- sequences: a count, then the items one after another ----

pub open spec fn enc_list<A>(xs: Seq<A>, f: spec_fn(A) -> Seq<u8>) -> Seq<u8>
    decreases xs.len(),
{
    if xs.len() == 0 {
        Seq::empty()
    } else {
        enc_list(xs.drop_last(), f) + f(xs.last())
    }
}

pub open spec fn dec_list<A>(
    s: Seq<u8>,
    pos: int,
    n: nat,
    d: spec_fn(Seq<u8>, int) -> Option<(A, int)>,
) -> Option<(Seq<A>, int)>
    decreases n,
{
    if n == 0 {
        Some((Seq::empty(), pos))
    } else {
        match dec_list(s, pos, (n - 1) as nat, d) {
            Some((xs, p)) => match d(s, p) {
                Some((x, q)) => Some((xs.push(x), q)),
                None => None,
            },
            None => None,
        }
    }
}

/// `s` holds `x` from `pos` on.
pub open spec fn holds_at(s: Seq<u8>, pos: int, x: Seq<u8>) -> bool {
    0 <= pos && pos + x.len() <= s.len() && s.subrange(pos, pos + x.len()) == x
}

/// Decoding with `d` wherever `f` wrote a value gives that value back, and the position
/// just past it.
pub open spec fn round_trips<A>(
    f: spec_fn(A) -> Seq<u8>,
    d: spec_fn(Seq<u8>, int) -> Option<(A, int)>,
) -> bool {
    forall|x: A, s: Seq<u8>, pos: int|
        #![trigger d(s, pos), f(x)]
        holds_at(s, pos, f(x)) ==> d(s, pos) == Some((x, pos + f(x).len()))
}

pub proof fn lemma_holds_split(s: Seq<u8>, pos: int, a: Seq<u8>, b: Seq<u8>)
    requires
        holds_at(s, pos, a + b),
    ensures
        holds_at(s, pos, a),
        holds_at(s, pos + a.len(), b),
{
    let whole = s.subrange(pos, pos + (a + b).len());
    assert(whole == a + b);
    assert(s.subrange(pos, pos + a.len()) =~= whole.subrange(0, a.len() as int));
    assert(whole.subrange(0, a.len() as int) =~= a);
    assert(s.subrange(pos + a.len(), pos + a.len() + b.len()) =~= whole.subrange(
        a.len() as int,
        whole.len() as int,
    ));
    assert(whole.subrange(a.len() as int, whole.len() as int) =~= b);
}

/// What was appended to `a` is found right after it.
pub proof fn lemma_appended_holds(a: Seq<u8>, b: Seq<u8>)
    ensures
        holds_at(a + b, a.len() as int, b),
{
    assert((a + b).subrange(a.len() as int, (a + b).len() as int) =~= b);
}

pub proof fn lemma_list_round_trip<A>(
    xs: Seq<A>,
    f: spec_fn(A) -> Seq<u8>,
    d: spec_fn(Seq<u8>, int) -> Option<(A, int)>,
    s: Seq<u8>,
    pos: int,
)
    requires
        round_trips(f, d),
        holds_at(s, pos, enc_list(xs, f)),
    ensures
        dec_list(s, pos, xs.len(), d) == Some((xs, pos + enc_list(xs, f).len())),
    decreases xs.len(),
{
    if xs.len() > 0 {
        let init = xs.drop_last();
        lemma_holds_split(s, pos, enc_list(init, f), f(xs.last()));
        lemma_list_round_trip(init, f, d, s, pos);
        assert(init.push(xs.last()) =~= xs);
    }
}

pub proof fn lemma_u64_round_trip(x: u64, s: Seq<u8>, pos: int)
    requires
        holds_at(s, pos, le64(x)),
    ensures
        dec_u64(s, pos) == Some((x, pos + 8)),
{
    lemma_auto_spec_u64_to_from_le_bytes();
}

pub proof fn lemma_u32_round_trip(x: u32, s: Seq<u8>, pos: int)
    requires
        holds_at(s, pos, le32(x)),
    ensures
        dec_u32(s, pos) == Some((x, pos + 4)),
{
    lemma_auto_spec_u32_to_from_le_bytes();
}

fn put_bytes(out: &mut Vec<u8>, b: &[u8])
    ensures
        final(out)@ == old(out)@ + b@,
{
    let mut i: usize = 0;
    while i < b.len()
        invariant
            i <= b@.len(),
            out@ == old(out)@ + b@.subrange(0, i as int),
        decreases b.len() - i,
    {
        out.push(b[i]);
        i = i + 1;
        assert(out@ =~= old(out)@ + b@.subrange(0, i as int));
    }
    assert(b@.subrange(0, b@.len() as int) =~= b@);
}

pub fn put_u64(out: &mut Vec<u8>, x: u64)
    ensures
        final(out)@ == old(out)@ + le64(x),
{
    let v = u64_to_le_bytes(x);
    put_bytes(out, v.as_slice());
}

pub fn put_u32(out: &mut Vec<u8>, x: u32)
    ensures
        final(out)@ == old(out)@ + le32(x),
{
    let v = u32_to_le_bytes(x);
    put_bytes(out, v.as_slice());
}

pub fn get_byte(s: &[u8], pos: usize) -> (r: Result<(u8, usize), DecodeError>)
    ensures
        match dec_byte(s@, pos as int) {
            Some((x, e)) => r matches Ok((y, q)) && y == x && q as int == e,
            None => r.is_err(),
        },
{
    if pos < s.len() {
        Ok((s[pos], pos + 1))
    } else {
        Err(DecodeError::UnexpectedEnd)
    }
}

pub fn get_u64(s: &[u8], pos: usize) -> (r: Result<(u64, usize), DecodeError>)
    ensures
        match dec_u64(s@, pos as int) {
            Some((x, e)) => r matches Ok((y, q)) && y == x && q as int == e,
            None => r.is_err(),
        },
{
    if pos <= s.len() && s.len() - pos >= 8 {
        let x = u64_from_le_bytes(slice_subrange(s, pos, pos + 8));
        Ok((x, pos + 8))
    } else {
        Err(DecodeError::UnexpectedEnd)
    }
}

pub fn get_u32(s: &[u8], pos: usize) -> (r: Result<(u32, usize), DecodeError>)
    ensures
        match dec_u32(s@, pos as int) {
            Some((x, e)) => r matches Ok((y, q)) && y == x && q as int == e,
            None => r.is_err(),
        },
{
    if pos <= s.len() && s.len() - pos >= 4 {
        let x = u32_from_le_bytes(slice_subrange(s, pos, pos + 4));
        Ok((x, pos + 4))
    } else {
        Err(DecodeError::UnexpectedEnd)
    }
}

// ---- scalars ----

pub open spec fn enc_object(o: ObjectModel) -> Seq<u8> {
    match o {
        ObjectModel::Null => seq![0u8],
        ObjectModel::Int(i) => seq![1u8] + le64(i as u64),
        ObjectModel::Blob(b) => seq![2u8] + le64(b.len() as u64) + b,
    }
}

pub open spec fn dec_object(s: Seq<u8>, pos: int) -> Option<(ObjectModel, int)> {
    match dec_byte(s, pos) {
        Some((0u8, p)) => Some((ObjectModel::Null, p)),
        Some((1u8, p)) => match dec_u64(s, p) {
            Some((x, e)) => Some((ObjectModel::Int(x as i64), e)),
            None => None,
        },
        Some((2u8, p)) => match dec_u64(s, p) {
            Some((n, e)) => if e + n <= s.len() {
                Some((ObjectModel::Blob(s.subrange(e, e + n)), e + n))
            } else {
                None
            },
            None => None,
        },
        _ => None,
    }
}

pub open spec fn object_fits(o: ObjectModel) -> bool {
    o matches ObjectModel::Blob(b) ==> b.len() <= u64::MAX
}

pub proof fn lemma_object_round_trip(o: ObjectModel, s: Seq<u8>, pos: int)
    requires
        object_fits(o),
        holds_at(s, pos, enc_object(o)),
    ensures
        dec_object(s, pos) == Some((o, pos + enc_object(o).len())),
{
    lemma_auto_spec_u64_to_from_le_bytes();
    match o {
        ObjectModel::Null => {
            assert(s[pos] == enc_object(o)[0]);
        },
        ObjectModel::Int(i) => {
            lemma_holds_split(s, pos, seq![1u8], le64(i as u64));
            assert(s[pos] == seq![1u8][0]);
            lemma_u64_round_trip(i as u64, s, pos + 1);
            let u = i as u64;
            assert(u as i64 == i) by (bit_vector)
                requires
                    u == i as u64,
            ;
        },
        ObjectModel::Blob(b) => {
            lemma_holds_split(s, pos, seq![2u8] + le64(b.len() as u64), b);
            lemma_holds_split(s, pos, seq![2u8], le64(b.len() as u64));
            assert(s[pos] == seq![2u8][0]);
            lemma_u64_round_trip(b.len() as u64, s, pos + 1);
        },
    }
}

pub proof fn lemma_dec_list_stops<A>(
    s: Seq<u8>,
    pos: int,
    k: nat,
    n: nat,
    d: spec_fn(Seq<u8>, int) -> Option<(A, int)>,
)
    requires
        k <= n,
        dec_list(s, pos, k, d) is None,
    ensures
        dec_list(s, pos, n, d) is None,
    decreases n,
{
    if n > k {
        lemma_dec_list_stops(s, pos, k, (n - 1) as nat, d);
    }
}

// ---- graph elements ----

pub open spec fn enc_vertex(v: Vertex) -> Seq<u8> {
    le64(v.id)
}

pub open spec fn enc_edge(e: Edge) -> Seq<u8> {
    le64(e.id) + le64(e.src) + le64(e.dst)
}

pub open spec fn dec_vertex(s: Seq<u8>, pos: int) -> Option<(Vertex, int)> {
    match dec_u64(s, pos) {
        Some((id, p)) => Some((Vertex { id }, p)),
        None => None,
    }
}

pub open spec fn dec_edge(s: Seq<u8>, pos: int) -> Option<(Edge, int)> {
    match dec_u64(s, pos) {
        Some((id, p)) => match dec_u64(s, p) {
            Some((src, q)) => match dec_u64(s, q) {
                Some((dst, e)) => Some((Edge { id, src, dst }, e)),
                None => None,
            },
            None => None,
        },
        None => None,
    }
}

pub open spec fn enc_hop(h: VertexOrEdge) -> Seq<u8> {
    match h {
        VertexOrEdge::V(v) => seq![0u8] + enc_vertex(v),
        VertexOrEdge::E(e) => seq![1u8] + enc_edge(e),
    }
}

pub open spec fn dec_hop(s: Seq<u8>, pos: int) -> Option<(VertexOrEdge, int)> {
    match dec_byte(s, pos) {
        Some((0u8, p)) => match dec_vertex(s, p) {
            Some((v, e)) => Some((VertexOrEdge::V(v), e)),
            None => None,
        },
        Some((1u8, p)) => match dec_edge(s, p) {
            Some((x, e)) => Some((VertexOrEdge::E(x), e)),
            None => None,
        },
        _ => None,
    }
}

pub open spec fn hop_enc() -> spec_fn(VertexOrEdge) -> Seq<u8> {
    |h: VertexOrEdge| enc_hop(h)
}

pub open spec fn hop_dec() -> spec_fn(Seq<u8>, int) -> Option<(VertexOrEdge, int)> {
    |s: Seq<u8>, pos: int| dec_hop(s, pos)
}

pub open spec fn enc_graph(g: GraphModel) -> Seq<u8> {
    match g {
        GraphModel::V(v) => seq![0u8] + enc_vertex(v),
        GraphModel::E(e) => seq![1u8] + enc_edge(e),
        GraphModel::P(p) => seq![2u8] + le64(p.len() as u64) + enc_list(p, hop_enc()),
    }
}

pub open spec fn dec_graph(s: Seq<u8>, pos: int) -> Option<(GraphModel, int)> {
    match dec_byte(s, pos) {
        Some((0u8, p)) => match dec_vertex(s, p) {
            Some((v, e)) => Some((GraphModel::V(v), e)),
            None => None,
        },
        Some((1u8, p)) => match dec_edge(s, p) {
            Some((x, e)) => Some((GraphModel::E(x), e)),
            None => None,
        },
        Some((2u8, p)) => match dec_u64(s, p) {
            Some((n, q)) => match dec_list(s, q, n as nat, hop_dec()) {
                Some((hops, e)) => Some((GraphModel::P(hops), e)),
                None => None,
            },
            None => None,
        },
        _ => None,
    }
}

pub open spec fn graph_fits(g: GraphModel) -> bool {
    g matches GraphModel::P(p) ==> p.len() <= u64::MAX
}

pub proof fn lemma_edge_round_trip(x: Edge, s: Seq<u8>, pos: int)
    requires
        holds_at(s, pos, enc_edge(x)),
    ensures
        dec_edge(s, pos) == Some((x, pos + enc_edge(x).len())),
{
    lemma_auto_spec_u64_to_from_le_bytes();
    lemma_holds_split(s, pos, le64(x.id) + le64(x.src), le64(x.dst));
    lemma_holds_split(s, pos, le64(x.id), le64(x.src));
    lemma_u64_round_trip(x.id, s, pos);
    lemma_u64_round_trip(x.src, s, pos + 8);
    lemma_u64_round_trip(x.dst, s, pos + 16);
}

pub proof fn lemma_hop_round_trip(h: VertexOrEdge, s: Seq<u8>, pos: int)
    requires
        holds_at(s, pos, enc_hop(h)),
    ensures
        dec_hop(s, pos) == Some((h, pos + enc_hop(h).len())),
{
    lemma_auto_spec_u64_to_from_le_bytes();
    match h {
        VertexOrEdge::V(v) => {
            lemma_holds_split(s, pos, seq![0u8], enc_vertex(v));
            assert(s[pos] == seq![0u8][0]);
            lemma_u64_round_trip(v.id, s, pos + 1);
        },
        VertexOrEdge::E(e) => {
            lemma_holds_split(s, pos, seq![1u8], enc_edge(e));
            assert(s[pos] == seq![1u8][0]);
            lemma_edge_round_trip(e, s, pos + 1);
        },
    }
}

pub proof fn lemma_hops_round_trip()
    ensures
        round_trips(hop_enc(), hop_dec()),
{
    assert forall|x: VertexOrEdge, s: Seq<u8>, pos: int|
        #![trigger hop_dec()(s, pos), hop_enc()(x)]
        holds_at(s, pos, hop_enc()(x)) implies hop_dec()(s, pos) == Some(
        (x, pos + hop_enc()(x).len()),
    ) by {
        lemma_hop_round_trip(x, s, pos);
    }
}

pub proof fn lemma_graph_round_trip(g: GraphModel, s: Seq<u8>, pos: int)
    requires
        graph_fits(g),
        holds_at(s, pos, enc_graph(g)),
    ensures
        dec_graph(s, pos) == Some((g, pos + enc_graph(g).len())),
{
    lemma_auto_spec_u64_to_from_le_bytes();
    match g {
        GraphModel::V(v) => {
            lemma_holds_split(s, pos, seq![0u8], enc_vertex(v));
            assert(s[pos] == seq![0u8][0]);
            lemma_u64_round_trip(v.id, s, pos + 1);
        },
        GraphModel::E(e) => {
            lemma_holds_split(s, pos, seq![1u8], enc_edge(e));
            assert(s[pos] == seq![1u8][0]);
            lemma_edge_round_trip(e, s, pos + 1);
        },
        GraphModel::P(p) => {
            let head = seq![2u8] + le64(p.len() as u64);
            lemma_holds_split(s, pos, head, enc_list(p, hop_enc()));
            lemma_holds_split(s, pos, seq![2u8], le64(p.len() as u64));
            assert(s[pos] == seq![2u8][0]);
            lemma_u64_round_trip(p.len() as u64, s, pos + 1);
            lemma_hops_round_trip();
            lemma_list_round_trip(p, hop_enc(), hop_dec(), s, pos + 9);
        },
    }
}

// ---- off-graph values, elements and entries ----

pub open spec fn enc_common(c: CommonModel) -> Seq<u8> {
    match c {
        CommonModel::Null => seq![0u8],
        CommonModel::Prop(o) => seq![1u8] + enc_object(o),
        CommonModel::Count(n) => seq![2u8] + le64(n),
    }
}

pub open spec fn dec_common(s: Seq<u8>, pos: int) -> Option<(CommonModel, int)> {
    match dec_byte(s, pos) {
        Some((0u8, p)) => Some((CommonModel::Null, p)),
        Some((1u8, p)) => match dec_object(s, p) {
            Some((o, e)) => Some((CommonModel::Prop(o), e)),
            None => None,
        },
        Some((2u8, p)) => match dec_u64(s, p) {
            Some((n, e)) => Some((CommonModel::Count(n), e)),
            None => None,
        },
        _ => None,
    }
}

pub open spec fn enc_element(x: ElementModel) -> Seq<u8> {
    match x {
        ElementModel::OnGraph(g) => seq![0u8] + enc_graph(g),
        ElementModel::OffGraph(c) => seq![1u8] + enc_common(c),
    }
}

pub open spec fn dec_element(s: Seq<u8>, pos: int) -> Option<(ElementModel, int)> {
    match dec_byte(s, pos) {
        Some((0u8, p)) => match dec_graph(s, p) {
            Some((g, e)) => Some((ElementModel::OnGraph(g), e)),
            None => None,
        },
        Some((1u8, p)) => match dec_common(s, p) {
            Some((c, e)) => Some((ElementModel::OffGraph(c), e)),
            None => None,
        },
        _ => None,
    }
}

pub open spec fn element_enc() -> spec_fn(ElementModel) -> Seq<u8> {
    |x: ElementModel| enc_element(x)
}

pub open spec fn element_dec() -> spec_fn(Seq<u8>, int) -> Option<(ElementModel, int)> {
    |s: Seq<u8>, pos: int| dec_element(s, pos)
}

pub open spec fn enc_entry(x: EntryModel) -> Seq<u8> {
    match x {
        EntryModel::Element(e) => seq![0u8] + enc_element(e),
        EntryModel::Collection(xs) => seq![1u8] + le64(xs.len() as u64) + enc_list(
            xs,
            element_enc(),
        ),
    }
}

pub open spec fn dec_entry(s: Seq<u8>, pos: int) -> Option<(EntryModel, int)> {
    match dec_byte(s, pos) {
        Some((0u8, p)) => match dec_element(s, p) {
            Some((x, e)) => Some((EntryModel::Element(x), e)),
            None => None,
        },
        Some((1u8, p)) => match dec_u64(s, p) {
            Some((n, q)) => match dec_list(s, q, n as nat, element_dec()) {
                Some((xs, e)) => Some((EntryModel::Collection(xs), e)),
                None => None,
            },
            None => None,
        },
        _ => None,
    }
}

pub open spec fn common_fits(c: CommonModel) -> bool {
    c matches CommonModel::Prop(o) ==> object_fits(o)
}

pub open spec fn element_fits(x: ElementModel) -> bool {
    match x {
        ElementModel::OnGraph(g) => graph_fits(g),
        ElementModel::OffGraph(c) => common_fits(c),
    }
}

/// Every length inside the entry fits the 8-byte count that precedes it on the wire.
pub open spec fn entry_fits(x: EntryModel) -> bool {
    match x {
        EntryModel::Element(e) => element_fits(e),
        EntryModel::Collection(xs) => xs.len() <= u64::MAX && forall|i: int|
            0 <= i < xs.len() ==> element_fits(#[trigger] xs[i]),
    }
}

pub proof fn lemma_common_round_trip(c: CommonModel, s: Seq<u8>, pos: int)
    requires
        common_fits(c),
        holds_at(s, pos, enc_common(c)),
    ensures
        dec_common(s, pos) == Some((c, pos + enc_common(c).len())),
{
    lemma_auto_spec_u64_to_from_le_bytes();
    match c {
        CommonModel::Null => {
            assert(s[pos] == enc_common(c)[0]);
        },
        CommonModel::Prop(o) => {
            lemma_holds_split(s, pos, seq![1u8], enc_object(o));
            assert(s[pos] == seq![1u8][0]);
            lemma_object_round_trip(o, s, pos + 1);
        },
        CommonModel::Count(n) => {
            lemma_holds_split(s, pos, seq![2u8], le64(n));
            assert(s[pos] == seq![2u8][0]);
            lemma_u64_round_trip(n, s, pos + 1);
        },
    }
}

pub proof fn lemma_element_round_trip(x: ElementModel, s: Seq<u8>, pos: int)
    requires
        element_fits(x),
        holds_at(s, pos, enc_element(x)),
    ensures
        dec_element(s, pos) == Some((x, pos + enc_element(x).len())),
{
    match x {
        ElementModel::OnGraph(g) => {
            lemma_holds_split(s, pos, seq![0u8], enc_graph(g));
            assert(s[pos] == seq![0u8][0]);
            lemma_graph_round_trip(g, s, pos + 1);
        },
        ElementModel::OffGraph(c) => {
            lemma_holds_split(s, pos, seq![1u8], enc_common(c));
            assert(s[pos] == seq![1u8][0]);
            lemma_common_round_trip(c, s, pos + 1);
        },
    }
}

/// Decoding an encoded entry gives back the same entry, and stops right after it.
pub proof fn lemma_entry_round_trip(x: EntryModel, s: Seq<u8>, pos: int)
    requires
        entry_fits(x),
        holds_at(s, pos, enc_entry(x)),
    ensures
        dec_entry(s, pos) == Some((x, pos + enc_entry(x).len())),
{
    lemma_auto_spec_u64_to_from_le_bytes();
    match x {
        EntryModel::Element(e) => {
            lemma_holds_split(s, pos, seq![0u8], enc_element(e));
            assert(s[pos] == seq![0u8][0]);
            lemma_element_round_trip(e, s, pos + 1);
        },
        EntryModel::Collection(xs) => {
            let head = seq![1u8] + le64(xs.len() as u64);
            lemma_holds_split(s, pos, head, enc_list(xs, element_enc()));
            lemma_holds_split(s, pos, seq![1u8], le64(xs.len() as u64));
            assert(s[pos] == seq![1u8][0]);
            lemma_u64_round_trip(xs.len() as u64, s, pos + 1);
            lemma_elements_round_trip(xs, s, pos + 9);
        },
    }
}

proof fn lemma_elements_round_trip(xs: Seq<ElementModel>, s: Seq<u8>, pos: int)
    requires
        forall|i: int| 0 <= i < xs.len() ==> element_fits(#[trigger] xs[i]),
        holds_at(s, pos, enc_list(xs, element_enc())),
    ensures
        dec_list(s, pos, xs.len(), element_dec()) == Some(
            (xs, pos + enc_list(xs, element_enc()).len()),
        ),
    decreases xs.len(),
{
    if xs.len() > 0 {
        let init = xs.drop_last();
        lemma_holds_split(s, pos, enc_list(init, element_enc()), enc_element(xs.last()));
        lemma_elements_round_trip(init, s, pos);
        lemma_element_round_trip(xs.last(), s, pos + enc_list(init, element_enc()).len());
        assert(init.push(xs.last()) =~= xs);
    }
}

impl Object {
    pub fn write_to(&self, out: &mut Vec<u8>)
        ensures
            final(out)@ == old(out)@ + enc_object(self@),
            object_fits(self@),
    {
        match self {
            Object::Null => {
                out.push(0);
            },
            Object::Int(i) => {
                out.push(1);
                put_u64(out, *i as u64);
            },
            Object::Blob(b) => {
                out.push(2);
                put_u64(out, b.len() as u64);
                put_bytes(out, b.as_slice());
            },
        }
        assert(final(out)@ =~= old(out)@ + enc_object(self@));
    }

    pub fn read_from(s: &[u8], pos: usize) -> (r: Result<(Object, usize), DecodeError>)
        ensures
            match dec_object(s@, pos as int) {
                Some((m, e)) => r matches Ok((v, q)) && v@ == m && q == e,
                None => r.is_err(),
            },
    {
        let (d, p) = get_byte(s, pos)?;
        if d == 0 {
            Ok((Object::Null, p))
        } else if d == 1 {
            let (x, e) = get_u64(s, p)?;
            Ok((Object::Int(x as i64), e))
        } else if d == 2 {
            let (n, e) = get_u64(s, p)?;
            let len = s.len();
            if n <= (len - e) as u64 {
                let n = n as usize;
                let mut b: Vec<u8> = Vec::new();
                put_bytes(&mut b, slice_subrange(s, e, e + n));
                assert(b@ =~= s@.subrange(e as int, e + n));
                Ok((Object::Blob(b), e + n))
            } else {
                Err(DecodeError::UnexpectedEnd)
            }
        } else {
            Err(DecodeError::UnknownDiscriminant)
        }
    }
}

fn write_hop(h: &VertexOrEdge, out: &mut Vec<u8>)
    ensures
        final(out)@ == old(out)@ + enc_hop(*h),
{
    match h {
        VertexOrEdge::V(v) => {
            out.push(0);
            put_u64(out, v.id);
        },
        VertexOrEdge::E(e) => {
            out.push(1);
            put_u64(out, e.id);
            put_u64(out, e.src);
            put_u64(out, e.dst);
        },
    }
    assert(final(out)@ =~= old(out)@ + enc_hop(*h));
}

fn read_edge(s: &[u8], pos: usize) -> (r: Result<(Edge, usize), DecodeError>)
    ensures
        match dec_edge(s@, pos as int) {
            Some((m, e)) => r matches Ok((v, q)) && v == m && q as int == e,
            None => r.is_err(),
        },
{
    let (id, p) = get_u64(s, pos)?;
    let (src, q) = get_u64(s, p)?;
    let (dst, e) = get_u64(s, q)?;
    Ok((Edge { id, src, dst }, e))
}

fn read_hop(s: &[u8], pos: usize) -> (r: Result<(VertexOrEdge, usize), DecodeError>)
    ensures
        match dec_hop(s@, pos as int) {
            Some((m, e)) => r matches Ok((v, q)) && v == m && q as int == e,
            None => r.is_err(),
        },
{
    let (d, p) = get_byte(s, pos)?;
    if d == 0 {
        let (id, e) = get_u64(s, p)?;
        Ok((VertexOrEdge::V(Vertex { id }), e))
    } else if d == 1 {
        let (x, e) = read_edge(s, p)?;
        Ok((VertexOrEdge::E(x), e))
    } else {
        Err(DecodeError::UnknownDiscriminant)
    }
}

impl GraphObject {
    pub fn write_to(&self, out: &mut Vec<u8>)
        ensures
            final(out)@ == old(out)@ + enc_graph(self@),
            graph_fits(self@),
    {
        match self {
            GraphObject::V(v) => {
                out.push(0);
                put_u64(out, v.id);
                assert(out@ =~= old(out)@ + enc_graph(self@));
            },
            GraphObject::E(e) => {
                out.push(1);
                put_u64(out, e.id);
                put_u64(out, e.src);
                put_u64(out, e.dst);
                assert(out@ =~= old(out)@ + enc_graph(self@));
            },
            GraphObject::P(p) => {
                out.push(2);
                put_u64(out, p.items.len() as u64);
                let ghost start = out@;
                let mut i: usize = 0;
                while i < p.items.len()
                    invariant
                        i <= p.items.len(),
                        out@ == start + enc_list(p.items@.take(i as int), hop_enc()),
                    decreases p.items.len() - i,
                {
                    write_hop(&p.items[i], out);
                    assert(p.items@.take(i + 1).drop_last() =~= p.items@.take(i as int));
                    i = i + 1;
                }
                assert(p.items@.take(i as int) =~= p.items@);
                assert(out@ =~= old(out)@ + enc_graph(self@));
            },
        }
    }

    pub fn read_from(s: &[u8], pos: usize) -> (r: Result<(GraphObject, usize), DecodeError>)
        ensures
            match dec_graph(s@, pos as int) {
                Some((m, e)) => r matches Ok((v, q)) && v@ == m && q as int == e,
                None => r.is_err(),
            },
    {
        let (d, p) = get_byte(s, pos)?;
        if d == 0 {
            let (id, e) = get_u64(s, p)?;
            Ok((GraphObject::V(Vertex { id }), e))
        } else if d == 1 {
            let (x, e) = read_edge(s, p)?;
            Ok((GraphObject::E(x), e))
        } else if d == 2 {
            let (n, q) = get_u64(s, p)?;
            let mut items: Vec<VertexOrEdge> = Vec::new();
            let mut at = q;
            let mut i: u64 = 0;
            while i < n
                invariant
                    i <= n,
                    dec_graph(s@, pos as int) == match dec_list(s@, q as int, n as nat, hop_dec()) {
                        Some((hops, e)) => Some((GraphModel::P(hops), e)),
                        None => None::<(GraphModel, int)>,
                    },
                    dec_list(s@, q as int, i as nat, hop_dec()) == Some((items@, at as int)),
                decreases n - i,
            {
                match read_hop(s, at) {
                    Ok((h, e)) => {
                        items.push(h);
                        at = e;
                    },
                    Err(err) => {
                        proof {
                            lemma_dec_list_stops(s@, q as int, (i + 1) as nat, n as nat, hop_dec());
                        }
                        return Err(err);
                    },
                }
                i = i + 1;
            }
            Ok((GraphObject::P(GraphPath { items }), at))
        } else {
            Err(DecodeError::UnknownDiscriminant)
        }
    }
}

impl CommonObject {
    pub fn write_to(&self, out: &mut Vec<u8>)
        ensures
            final(out)@ == old(out)@ + enc_common(self@),
            common_fits(self@),
            dec_common(final(out)@, old(out)@.len() as int) == Some(
                (self@, final(out)@.len() as int),
            ),
    {
        match self {
            CommonObject::Null => {
                out.push(0);
            },
            CommonObject::Prop(o) => {
                out.push(1);
                o.write_to(out);
            },
            CommonObject::Count(n) => {
                out.push(2);
                put_u64(out, *n);
            },
        }
        assert(final(out)@ =~= old(out)@ + enc_common(self@));
        proof {
            lemma_appended_holds(old(out)@, enc_common(self@));
            lemma_common_round_trip(self@, final(out)@, old(out)@.len() as int);
        }
    }

    pub fn read_from(s: &[u8], pos: usize) -> (r: Result<(CommonObject, usize), DecodeError>)
        ensures
            match dec_common(s@, pos as int) {
                Some((m, e)) => r matches Ok((v, q)) && v@ == m && q as int == e,
                None => r.is_err(),
            },
    {
        let (d, p) = get_byte(s, pos)?;
        if d == 0 {
            Ok((CommonObject::Null, p))
        } else if d == 1 {
            let (o, e) = Object::read_from(s, p)?;
            Ok((CommonObject::Prop(o), e))
        } else if d == 2 {
            let (n, e) = get_u64(s, p)?;
            Ok((CommonObject::Count(n), e))
        } else {
            Err(DecodeError::UnknownDiscriminant)
        }
    }
}

impl RecordElement {
    pub fn write_to(&self, out: &mut Vec<u8>)
        ensures
            final(out)@ == old(out)@ + enc_element(self@),
            element_fits(self@),
            dec_element(final(out)@, old(out)@.len() as int) == Some(
                (self@, final(out)@.len() as int),
            ),
    {
        match self {
            RecordElement::OnGraph(g) => {
                out.push(0);
                g.write_to(out);
            },
            RecordElement::OffGraph(c) => {
                out.push(1);
                c.write_to(out);
            },
        }
        assert(final(out)@ =~= old(out)@ + enc_element(self@));
        proof {
            lemma_appended_holds(old(out)@, enc_element(self@));
            lemma_element_round_trip(self@, final(out)@, old(out)@.len() as int);
        }
    }

    pub fn read_from(s: &[u8], pos: usize) -> (r: Result<(RecordElement, usize), DecodeError>)
        ensures
            match dec_element(s@, pos as int) {
                Some((m, e)) => r matches Ok((v, q)) && v@ == m && q as int == e,
                None => r.is_err(),
            },
    {
        let (d, p) = get_byte(s, pos)?;
        if d == 0 {
            let (g, e) = GraphObject::read_from(s, p)?;
            Ok((RecordElement::OnGraph(g), e))
        } else if d == 1 {
            let (c, e) = CommonObject::read_from(s, p)?;
            Ok((RecordElement::OffGraph(c), e))
        } else {
            Err(DecodeError::UnknownDiscriminant)
        }
    }
}

impl Entry {
    pub fn write_to(&self, out: &mut Vec<u8>)
        ensures
            final(out)@ == old(out)@ + enc_entry(self@),
            entry_fits(self@),
            dec_entry(final(out)@, old(out)@.len() as int) == Some(
                (self@, final(out)@.len() as int),
            ),
    {
        match self {
            Entry::Element(x) => {
                out.push(0);
                x.write_to(out);
                assert(out@ =~= old(out)@ + enc_entry(self@));
            },
            Entry::Collection(xs) => {
                out.push(1);
                put_u64(out, xs.len() as u64);
                let ghost start = out@;
                let mut i: usize = 0;
                while i < xs.len()
                    invariant
                        i <= xs.len(),
                        out@ == start + enc_list(elements_view(xs@.take(i as int)), element_enc()),
                        forall|j: int| 0 <= j < i ==> element_fits(#[trigger] xs@[j]@),
                    decreases xs.len() - i,
                {
                    xs[i].write_to(out);
                    assert(elements_view(xs@.take(i + 1)).drop_last() =~= elements_view(
                        xs@.take(i as int),
                    ));
                    i = i + 1;
                }
                assert(xs@.take(i as int) =~= xs@);
                assert(out@ =~= old(out)@ + enc_entry(self@));
            },
        }
        proof {
            lemma_appended_holds(old(out)@, enc_entry(self@));
            lemma_entry_round_trip(self@, final(out)@, old(out)@.len() as int);
        }
    }

    pub fn read_from(s: &[u8], pos: usize) -> (r: Result<(Entry, usize), DecodeError>)
        ensures
            match dec_entry(s@, pos as int) {
                Some((m, e)) => r matches Ok((v, q)) && v@ == m && q as int == e,
                None => r.is_err(),
            },
    {
        let (d, p) = get_byte(s, pos)?;
        if d == 0 {
            let (x, e) = RecordElement::read_from(s, p)?;
            Ok((Entry::Element(x), e))
        } else if d == 1 {
            let (n, q) = get_u64(s, p)?;
            let mut xs: Vec<RecordElement> = Vec::new();
            let mut at = q;
            let mut i: u64 = 0;
            while i < n
                invariant
                    i <= n,
                    dec_entry(s@, pos as int) == match dec_list(
                        s@,
                        q as int,
                        n as nat,
                        element_dec(),
                    ) {
                        Some((ys, e)) => Some((EntryModel::Collection(ys), e)),
                        None => None::<(EntryModel, int)>,
                    },
                    dec_list(s@, q as int, i as nat, element_dec()) == Some(
                        (elements_view(xs@), at as int),
                    ),
                decreases n - i,
            {
                let ghost before = xs@;
                match RecordElement::read_from(s, at) {
                    Ok((x, e)) => {
                        xs.push(x);
                        assert(elements_view(xs@) =~= elements_view(before).push(x@));
                        at = e;
                    },
                    Err(err) => {
                        proof {
                            lemma_dec_list_stops(
                                s@,
                                q as int,
                                (i + 1) as nat,
                                n as nat,
                                element_dec(),
                            );
                        }
                        return Err(err);
                    },
                }
                i = i + 1;
            }
            Ok((Entry::Collection(xs), at))
        } else {
            Err(DecodeError::UnknownDiscriminant)
        }
    }
}

} // verus!
