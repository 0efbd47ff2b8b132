//! Stage one of the pipeline: interning tickets into dense indices and
//! populating per-node fact bags and the kind-partitioned edge multiset
//! from a sequence of fact records.

use vstd::prelude::*;
use crate::collections::KindedEdgeBag;
use crate::edge_kind::{parse_edge_kind, spec_edge_kind, EdgeKind, PARAM_PREFIX};
use crate::errors::{ErrView, IntoSpecErr};
use crate::raw_node::{known_fact, spec_empty_bag, spec_set_fact, RawNodeValue, RawNodeView};
use crate::strutil::{has_prefix, str_eq};
use crate::ticket::{NodeIndex, Ticket, TicketView};
use crate::raw_node::{
    FACT_CODE,
    FACT_COMPLETE,
    FACT_LOC_END,
    FACT_LOC_START,
    FACT_NODE_KIND,
    FACT_PARAM_DEFAULT,
    FACT_SUBKIND,
    FACT_TAG_DEPRECATED,
    FACT_TAG_STATIC,
    FACT_TEXT,
};

verus! {

/// What `base64::decode` yields on a string: the decoded bytes, or
/// nothing where the string is not valid base64. The result depends on
/// the string alone.
pub uninterp spec fn base64_decoded(s: Seq<char>) -> Option<Seq<u8>>;

/// What `String::from_utf8_lossy` yields on a byte sequence. The result
/// depends on the bytes alone.
pub uninterp spec fn utf8_lossy(b: Seq<u8>) -> Seq<char>;

/// Relies on base64::decode: standard base64 decoding of the input, with
/// an error on input that is not base64; an empty input decodes to no
/// bytes.
#[verifier::external_body]
fn decode_base64(s: &str) -> (r: Option<Vec<u8>>)
    ensures
        match r {
            Some(b) => base64_decoded(s@) == Some(b@),
            None => base64_decoded(s@) is None,
        },
        s@.len() == 0 ==> r is Some,
{
    match base64::decode(s) {
        Ok(v) => Some(v),
        Err(_) => None,
    }
}

/// Relies on String::from_utf8_lossy: decodes the bytes as UTF-8,
/// replacing invalid sequences rather than failing.
#[verifier::external_body]
fn bytes_to_string_lossy(b: &Vec<u8>) -> (r: String)
    ensures
        r@ == utf8_lossy(b@),
{
    String::from_utf8_lossy(b).into_owned()
}

/// One record of the fact stream: either a typed edge between two
/// tickets, or one named fact about one ticket.
#[derive(Debug)]
pub enum Entry {
    Edge {
        src: Ticket,
        tgt: Ticket,
        edge_kind: String,
        fact_name: String,
        fact_value: Option<String>,
    },
    Node { src: Ticket, fact_name: String, fact_value: Option<String> },
}

/// Mathematical image of a fact record.
pub ghost enum EntryView {
    Edge {
        src: TicketView,
        tgt: TicketView,
        edge_kind: Seq<char>,
        fact_name: Seq<char>,
        fact_value: Option<Seq<char>>,
    },
    Node { src: TicketView, fact_name: Seq<char>, fact_value: Option<Seq<char>> },
}

impl View for Entry {
    type V = EntryView;

    open spec fn view(&self) -> EntryView {
        match self {
            Entry::Edge { src, tgt, edge_kind, fact_name, fact_value } => EntryView::Edge {
                src: src@,
                tgt: tgt@,
                edge_kind: edge_kind@,
                fact_name: fact_name@,
                fact_value: fact_value.deep_view(),
            },
            Entry::Node { src, fact_name, fact_value } => EntryView::Node {
                src: src@,
                fact_name: fact_name@,
                fact_value: fact_value.deep_view(),
            },
        }
    }
}

impl DeepView for Entry {
    type V = EntryView;

    open spec fn deep_view(&self) -> EntryView {
        self@
    }
}

/// Index of the first occurrence of `t` in `s`.
pub open spec fn spec_index_of(s: Seq<TicketView>, t: TicketView) -> int
    decreases s.len(),
{
    if s.len() == 0 {
        0
    } else if s[0] == t {
        0
    } else {
        1 + spec_index_of(s.drop_first(), t)
    }
}

/// The first occurrence of a contained ticket is a valid index holding
/// the ticket, with no earlier occurrence.
pub proof fn lemma_index_of_contains(s: Seq<TicketView>, t: TicketView)
    requires
        s.contains(t),
    ensures
        0 <= spec_index_of(s, t) < s.len(),
        s[spec_index_of(s, t)] == t,
        forall|j: int| 0 <= j < spec_index_of(s, t) ==> s[j] != t,
    decreases s.len(),
{
    if s[0] == t {
    } else {
        assert(s.drop_first().contains(t)) by {
            let w = choose|w: int| 0 <= w < s.len() && s[w] == t;
            assert(s.drop_first()[w - 1] == s[w]);
        }
        lemma_index_of_contains(s.drop_first(), t);
        assert forall|j: int| 0 <= j < spec_index_of(s, t) implies s[j] != t by {
            if j > 0 {
                assert(s.drop_first()[j - 1] == s[j]);
            }
        }
    }
}

/// Interning: the ticket sequence after seeing `t`, and the index that
/// `t` is mapped to. A seen ticket keeps its index; a new one is pushed.
pub open spec fn spec_reserve(s: Seq<TicketView>, t: TicketView) -> (Seq<TicketView>, int) {
    if s.contains(t) {
        (s, spec_index_of(s, t))
    } else {
        (s.push(t), s.len() as int)
    }
}

/// Interning the same ticket twice yields the same index and does not
/// grow the ticket sequence further; a fresh ticket is put at the end,
/// so indices are dense and assigned in first-occurrence order.
pub proof fn lemma_reserve_idempotent(s: Seq<TicketView>, t: TicketView)
    ensures
        ({
            let (s1, i1) = spec_reserve(s, t);
            let (s2, i2) = spec_reserve(s1, t);
            &&& s2 == s1
            &&& i2 == i1
            &&& 0 <= i1 < s1.len()
            &&& s1[i1] == t
            &&& (!s.contains(t) ==> i1 == s.len() && s1 == s.push(t))
            &&& (s.contains(t) ==> s1 == s)
        }),
{
    let (s1, i1) = spec_reserve(s, t);
    if s.contains(t) {
        lemma_index_of_contains(s, t);
    } else {
        assert(s1[s.len() as int] == t);
        assert(s1.contains(t));
        lemma_index_of_contains(s1, t);
        assert forall|j: int| 0 <= j < s.len() implies s1[j] != t by {
            assert(s1[j] == s[j]);
            if s[j] == t {
                assert(s.contains(t));
            }
        }
        assert(spec_index_of(s1, t) == s.len());
    }
}

/// Mathematical image of the raw graph: the interned tickets in index
/// order, the fact bag of each node, and the edge multiset as a count
/// for every `(kind, src, tgt)` triple.
#[verifier::ext_equal]
pub ghost struct RawModel {
    pub tickets: Seq<TicketView>,
    pub nodes: Seq<RawNodeView>,
    pub counts: spec_fn(EdgeKind, usize, usize) -> nat,
}

/// The model of a graph with no nodes and no edges.
pub open spec fn spec_empty_model() -> RawModel {
    RawModel {
        tickets: Seq::empty(),
        nodes: Seq::empty(),
        counts: |k: EdgeKind, a: usize, b: usize| 0nat,
    }
}

/// Fact bags extended with empty bags up to length `n`.
pub open spec fn pad_nodes(nodes: Seq<RawNodeView>, n: int) -> Seq<RawNodeView> {
    nodes + Seq::new((n - nodes.len()) as nat, |i: int| spec_empty_bag())
}

/// The count function with the triple `(k0, a0, b0)` raised by one.
pub open spec fn bump(
    counts: spec_fn(EdgeKind, usize, usize) -> nat,
    k0: EdgeKind,
    a0: usize,
    b0: usize,
) -> spec_fn(EdgeKind, usize, usize) -> nat {
    |k: EdgeKind, a: usize, b: usize|
        if k == k0 && a == a0 && b == b0 {
            counts(k, a, b) + 1
        } else {
            counts(k, a, b)
        }
}

/// The decoded text of a fact value: absent means empty, the base64 is
/// decoded, and the bytes are read as UTF-8, lossily.
pub open spec fn spec_decode_fact(v: Option<Seq<char>>) -> Option<Seq<char>> {
    let s = match v {
        Some(s) => s,
        None => Seq::empty(),
    };
    match base64_decoded(s) {
        Some(b) => Some(utf8_lossy(b)),
        None => None,
    }
}

/// How one fact record transforms the raw graph: an edge record interns
/// both endpoints and raises the edge's count; a node record interns its
/// node and stores the decoded fact value into the named slot. Unknown
/// edge kinds and fact names, a parameter edge without a numeric
/// ordinal, and a fact value that is not base64 are hard errors.
pub open spec fn spec_add(m: RawModel, e: EntryView) -> Result<RawModel, ErrView> {
    match e {
        EntryView::Edge { src, tgt, edge_kind, .. } => {
            let (t1, i1) = spec_reserve(m.tickets, src);
            let (t2, i2) = spec_reserve(t1, tgt);
            match spec_edge_kind(edge_kind) {
                Some(k) => Ok(
                    RawModel {
                        tickets: t2,
                        nodes: pad_nodes(m.nodes, t2.len() as int),
                        counts: bump(m.counts, k, i1 as usize, i2 as usize),
                    },
                ),
                None => if has_prefix(edge_kind, PARAM_PREFIX@) {
                    Err(ErrView::ExpectedInt)
                } else {
                    Err(ErrView::UnknownEdgeKind(edge_kind))
                },
            }
        },
        EntryView::Node { src, fact_name, fact_value } => {
            match spec_decode_fact(fact_value) {
                None => Err(ErrView::InvalidBase64),
                Some(text) => if !known_fact(fact_name) {
                    Err(ErrView::UnknownFactName(fact_name))
                } else {
                    let (t1, i1) = spec_reserve(m.tickets, src);
                    let nodes1 = pad_nodes(m.nodes, t1.len() as int);
                    Ok(
                        RawModel {
                            tickets: t1,
                            nodes: nodes1.update(i1, spec_set_fact(nodes1[i1], fact_name, text)),
                            counts: m.counts,
                        },
                    )
                },
            }
        },
    }
}

/// The raw graph that folding the records over `m` produces, or the
/// first error met.
pub open spec fn spec_build_from(m: RawModel, es: Seq<EntryView>) -> Result<RawModel, ErrView>
    decreases es.len(),
{
    if es.len() == 0 {
        Ok(m)
    } else {
        match spec_add(m, es[0]) {
            Ok(m1) => spec_build_from(m1, es.drop_first()),
            Err(e) => Err(e),
        }
    }
}

/// The raw graph that a whole fact stream denotes.
pub open spec fn spec_build(es: Seq<EntryView>) -> Result<RawModel, ErrView> {
    spec_build_from(spec_empty_model(), es)
}

/// Number of edge records in `es` that intern to exactly the triple
/// `(k, a, b)`, starting from the interned tickets `s`.
pub open spec fn spec_occurrences(
    s: Seq<TicketView>,
    es: Seq<EntryView>,
    k: EdgeKind,
    a: usize,
    b: usize,
) -> nat
    decreases es.len(),
{
    if es.len() == 0 {
        0
    } else {
        match es[0] {
            EntryView::Edge { src, tgt, edge_kind, .. } => {
                let (t1, i1) = spec_reserve(s, src);
                let (t2, i2) = spec_reserve(t1, tgt);
                let here: nat = if spec_edge_kind(edge_kind) == Some(k) && i1 as usize == a && i2
                    as usize == b {
                    1
                } else {
                    0
                };
                here + spec_occurrences(t2, es.drop_first(), k, a, b)
            },
            EntryView::Node { src, .. } => {
                let (t1, _) = spec_reserve(s, src);
                spec_occurrences(t1, es.drop_first(), k, a, b)
            },
        }
    }
}

/// The edge multiset counts exactly the occurrences: folding records
/// over a graph raises each `(kind, src, tgt)` count by the number of
/// edge records that intern to that triple.
pub proof fn lemma_counts_are_occurrences(
    m: RawModel,
    es: Seq<EntryView>,
    k: EdgeKind,
    a: usize,
    b: usize,
)
    requires
        spec_build_from(m, es) is Ok,
    ensures
        (spec_build_from(m, es)->Ok_0.counts)(k, a, b) == (m.counts)(k, a, b) + spec_occurrences(
            m.tickets,
            es,
            k,
            a,
            b,
        ),
    decreases es.len(),
{
    if es.len() == 0 {
    } else {
        let m1 = spec_add(m, es[0])->Ok_0;
        lemma_counts_are_occurrences(m1, es.drop_first(), k, a, b);
        match es[0] {
            EntryView::Edge { src, tgt, edge_kind, .. } => {
                let (t1, i1) = spec_reserve(m.tickets, src);
                let (t2, i2) = spec_reserve(t1, tgt);
                assert(m1.tickets == t2);
                assert(m1.counts == bump(
                    m.counts,
                    spec_edge_kind(edge_kind)->Some_0,
                    i1 as usize,
                    i2 as usize,
                ));
                assert((m1.counts)(k, a, b) == if spec_edge_kind(edge_kind) == Some(k) && i1
                    as usize == a && i2 as usize == b {
                    (m.counts)(k, a, b) + 1nat
                } else {
                    (m.counts)(k, a, b)
                });
            },
            EntryView::Node { src, .. } => {
                assert(m1.tickets == spec_reserve(m.tickets, src).0);
                assert(m1.counts == m.counts);
            },
        }
    }
}

/// The untyped indexed graph: tickets interned to dense indices, one
/// fact bag per node, and the kind-partitioned edge multiset.
#[verifier::ext_equal]
pub struct RawGraph {
    nodes: Vec<RawNodeValue>,
    tickets: Vec<Ticket>,
    edges: KindedEdgeBag,
}

impl RawGraph {
    /// The interned tickets, in index order.
    pub closed spec fn tickets_view(&self) -> Seq<TicketView> {
        self.tickets@.map_values(|t: Ticket| t@)
    }

    /// The fact bag of each node, in index order.
    pub closed spec fn nodes_view(&self) -> Seq<RawNodeView> {
        self.nodes@.map_values(|v: RawNodeValue| v@)
    }

    /// Occurrence count of the edge `(k, a, b)`.
    pub closed spec fn edge_count(&self, k: EdgeKind, a: usize, b: usize) -> nat {
        self.edges.count(k, a, b)
    }

    /// Number of edge insertions performed so far.
    pub closed spec fn edges_total(&self) -> nat {
        self.edges.total()
    }

    /// The graph's mathematical image.
    pub open spec fn model(&self) -> RawModel {
        RawModel {
            tickets: self.tickets_view(),
            nodes: self.nodes_view(),
            counts: |k: EdgeKind, a: usize, b: usize| self.edge_count(k, a, b),
        }
    }

    /// Well-formed: one fact bag per ticket, tickets pairwise distinct
    /// (the ticket-to-index correspondence is a bijection), the edge
    /// store well-formed, and every recorded edge ends on interned nodes.
    pub closed spec fn wf(&self) -> bool {
        &&& self.nodes@.len() == self.tickets@.len()
        &&& forall|i: int, j: int|
            0 <= i < j < self.tickets@.len() ==> (#[trigger] self.tickets@[i])@ != (
            #[trigger] self.tickets@[j])@
        &&& self.edges.wf()
        &&& forall|k: EdgeKind, a: usize, b: usize|
            #[trigger] self.edges.count(k, a, b) > 0 ==> a < self.tickets@.len() && b
                < self.tickets@.len()
    }

    /// A fresh graph with no nodes and no edges.
    pub fn new() -> (g: RawGraph)
        ensures
            g.wf(),
            g.model() == spec_empty_model(),
            g.edges_total() == 0,
    {
        let g = RawGraph { nodes: Vec::new(), tickets: Vec::new(), edges: KindedEdgeBag::new() };
        proof {
            assert(g.tickets_view() =~= Seq::<TicketView>::empty());
            assert(g.nodes_view() =~= Seq::<RawNodeView>::empty());
            assert(g.model().counts =~= spec_empty_model().counts);
            assert(g.model() =~= spec_empty_model());
        }
        g
    }

    /// Surrenders the graph's parts: the fact bags, the tickets, and the
    /// edge multiset, each in index order.
    pub fn into_parts(self) -> (r: (Vec<RawNodeValue>, Vec<Ticket>, KindedEdgeBag))
        ensures
            r.0@.map_values(|v: RawNodeValue| v@) == self.nodes_view(),
            r.1@.map_values(|t: Ticket| t@) == self.tickets_view(),
            forall|k: EdgeKind, a: usize, b: usize|
                r.2.count(k, a, b) == self.edge_count(k, a, b),
            self.wf() ==> r.2.wf() && r.0@.len() == r.1@.len(),
    {
        (self.nodes, self.tickets, self.edges)
    }

    /// A well-formed graph has one fact bag per interned ticket.
    pub proof fn lemma_wf_lens(&self)
        requires
            self.wf(),
        ensures
            self.nodes_view().len() == self.tickets_view().len(),
    {
    }

    /// In a well-formed graph, every recorded edge ends on interned nodes.
    pub proof fn lemma_edge_bounds(&self)
        requires
            self.wf(),
        ensures
            forall|k: EdgeKind, a: usize, b: usize|
                #[trigger] self.edge_count(k, a, b) > 0 ==> a < self.tickets_view().len() && b
                    < self.tickets_view().len(),
    {
    }

    /// The fact bag of the node at a valid index.
    pub fn get_raw_node(&self, i: usize) -> (r: &RawNodeValue)
        requires
            i < self.nodes_view().len(),
        ensures
            r@ == self.nodes_view()[i as int],
    {
        &self.nodes[i]
    }

    /// The ticket of the node at a valid index.
    pub fn get_ticket(&self, i: usize) -> (r: &Ticket)
        requires
            i < self.tickets_view().len(),
        ensures
            r@ == self.tickets_view()[i as int],
    {
        &self.tickets[i]
    }

    /// A copy of the edge multiset, with the same counts.
    pub fn edges_dup(&self) -> (r: KindedEdgeBag)
        requires
            self.wf(),
        ensures
            r.wf(),
            forall|k: EdgeKind, a: usize, b: usize|
                r.count(k, a, b) == self.edge_count(k, a, b),
    {
        self.edges.dup()
    }

    /// Number of interned nodes.
    pub fn len(&self) -> (n: usize)
        ensures
            n == self.tickets_view().len(),
    {
        self.tickets.len()
    }

    /// Interns a ticket: a ticket seen before keeps its index and leaves
    /// the graph unchanged; a fresh one is assigned the next dense index
    /// and given an empty fact bag. Edge counts are never touched.
    pub fn reserve(&mut self, ticket: Ticket) -> (idx: NodeIndex)
        requires
            old(self).wf(),
        ensures
            final(self).wf(),
            final(self).tickets_view() == spec_reserve(old(self).tickets_view(), ticket@).0,
            idx.0 as int == spec_reserve(old(self).tickets_view(), ticket@).1,
            idx.0 < final(self).tickets_view().len(),
            final(self).nodes_view() == pad_nodes(
                old(self).nodes_view(),
                final(self).tickets_view().len() as int,
            ),
            forall|k: EdgeKind, a: usize, b: usize|
                final(self).edge_count(k, a, b) == old(self).edge_count(k, a, b),
            final(self).edges_total() == old(self).edges_total(),
            old(self).tickets_view().contains(ticket@) ==> *final(self) == *old(self),
    {
        let n = self.tickets.len();
        let mut i: usize = 0;
        while i < n
            invariant
                0 <= i <= n,
                n == self.tickets@.len(),
                *self == *old(self),
                old(self).wf(),
                forall|j: int| 0 <= j < i ==> (#[trigger] old(self).tickets_view()[j]) != ticket@,
            decreases n - i,
        {
            if self.tickets[i].ticket_eq(&ticket) {
                proof {
                    assert(old(self).tickets_view()[i as int] == ticket@);
                    assert(old(self).tickets_view().contains(ticket@));
                    lemma_index_of_contains(old(self).tickets_view(), ticket@);
                    let f = spec_index_of(old(self).tickets_view(), ticket@);
                    assert(f >= i || old(self).tickets_view()[f] != ticket@);
                    assert(f <= i);
                    assert(pad_nodes(old(self).nodes_view(), old(self).nodes_view().len() as int)
                        =~= old(self).nodes_view());
                }
                return NodeIndex(i);
            }
            i = i + 1;
        }
        proof {
            if old(self).tickets_view().contains(ticket@) {
                let w = choose|w: int|
                    0 <= w < old(self).tickets_view().len() && old(self).tickets_view()[w]
                        == ticket@;
                assert(false);
            }
        }
        let idx = NodeIndex(self.tickets.len());
        self.tickets.push(ticket);
        self.nodes.push(RawNodeValue::new());
        proof {
            assert(self.tickets_view() =~= old(self).tickets_view().push(ticket@));
            assert(self.nodes_view() =~= pad_nodes(
                old(self).nodes_view(),
                self.tickets_view().len() as int,
            ));
            assert forall|i2: int, j2: int|
                0 <= i2 < j2 < self.tickets@.len() implies (#[trigger] self.tickets@[i2])@ != (
            #[trigger] self.tickets@[j2])@ by {
                if j2 == self.tickets@.len() - 1 {
                    assert(old(self).tickets_view()[i2] == self.tickets@[i2]@);
                }
            }
        }
        idx
    }

    /// Whether a fact name denotes one of the ten recognized slots.
    pub fn is_known_fact(name: &str) -> (r: bool)
        ensures
            r == known_fact(name@),
    {
        str_eq(name, FACT_CODE) || str_eq(name, FACT_COMPLETE) || str_eq(name, FACT_LOC_END)
            || str_eq(name, FACT_LOC_START) || str_eq(name, FACT_NODE_KIND) || str_eq(
            name,
            FACT_PARAM_DEFAULT,
        ) || str_eq(name, FACT_SUBKIND) || str_eq(name, FACT_TAG_DEPRECATED) || str_eq(
            name,
            FACT_TAG_STATIC,
        ) || str_eq(name, FACT_TEXT)
    }

    /// Stores a decoded fact value into the named slot of the node at
    /// `index`, overwriting any earlier value; an unrecognized fact name
    /// is a hard error and leaves the graph unchanged. Returns whether
    /// the slot was previously unset.
    pub fn put_fact(&mut self, index: NodeIndex, name: String, value: String) -> (r: Result<
        bool,
        IntoSpecErr,
    >)
        requires
            old(self).wf(),
            index.0 < old(self).nodes_view().len(),
        ensures
            final(self).wf(),
            final(self).tickets_view() == old(self).tickets_view(),
            forall|k: EdgeKind, a: usize, b: usize|
                final(self).edge_count(k, a, b) == old(self).edge_count(k, a, b),
            final(self).edges_total() == old(self).edges_total(),
            match r {
                Ok(_) => known_fact(name@) && final(self).nodes_view() == old(
                    self,
                ).nodes_view().update(
                    index.0 as int,
                    spec_set_fact(old(self).nodes_view()[index.0 as int], name@, value@),
                ),
                Err(e) => !known_fact(name@) && final(self).nodes_view() == old(
                    self,
                ).nodes_view() && (e matches IntoSpecErr::UnknownFactName(u) && u@ == name@),
            },
    {
        let slot = &mut self.nodes[index.0];
        let ghost old_slot = *slot;
        let r = slot.set(name.as_str(), value);
        proof {
            match r {
                Ok(_) => {
                    assert(self.nodes_view() =~= old(self).nodes_view().update(
                        index.0 as int,
                        spec_set_fact(old(self).nodes_view()[index.0 as int], name@, value@),
                    ));
                },
                Err(_) => {
                    assert(self.nodes_view() =~= old(self).nodes_view());
                },
            }
            assert(self.tickets_view() =~= old(self).tickets_view());
        }
        match r {
            Ok(fresh) => Ok(fresh),
            Err(e) => Err(e),
        }
    }

    /// Parses an edge-kind string and records one more occurrence of the
    /// edge `(kind, src, tgt)`, returning the new count; a string outside
    /// the edge vocabulary is a hard error and leaves the graph
    /// unchanged.
    pub fn put_edge(&mut self, kind: String, src: NodeIndex, tgt: NodeIndex) -> (r: Result<
        usize,
        IntoSpecErr,
    >)
        requires
            old(self).wf(),
            old(self).edges_total() < usize::MAX,
            src.0 < old(self).tickets_view().len(),
            tgt.0 < old(self).tickets_view().len(),
        ensures
            final(self).wf(),
            final(self).tickets_view() == old(self).tickets_view(),
            final(self).nodes_view() == old(self).nodes_view(),
            final(self).edges_total() <= old(self).edges_total() + 1,
            match r {
                Ok(c) => {
                    &&& spec_edge_kind(kind@) is Some
                    &&& final(self).edge_count(spec_edge_kind(kind@)->Some_0, src.0, tgt.0) == old(
                        self,
                    ).edge_count(spec_edge_kind(kind@)->Some_0, src.0, tgt.0) + 1
                    &&& forall|k: EdgeKind, a: usize, b: usize|
                        !(k == spec_edge_kind(kind@)->Some_0 && a == src.0 && b == tgt.0)
                            ==> final(self).edge_count(k, a, b) == old(self).edge_count(k, a, b)
                    &&& c as nat == final(self).edge_count(
                        spec_edge_kind(kind@)->Some_0,
                        src.0,
                        tgt.0,
                    )
                },
                Err(e) => {
                    &&& *final(self) == *old(self)
                    &&& spec_edge_kind(kind@) is None
                    &&& match e {
                        IntoSpecErr::ExpectedInt => has_prefix(kind@, PARAM_PREFIX@),
                        IntoSpecErr::UnknownEdgeKind(u) => u@ == kind@ && !has_prefix(
                            kind@,
                            PARAM_PREFIX@,
                        ),
                        _ => false,
                    }
                },
            },
    {
        match parse_edge_kind(kind.as_str()) {
            Err(e) => Err(e),
            Ok(k) => {
                let c = self.edges.insert(k, src.0, tgt.0);
                Ok(c)
            },
        }
    }

    /// Applies one fact record to the graph: edge records intern both
    /// endpoints and raise the edge's count; node records intern the
    /// node and store the decoded fact value. On an error the graph is
    /// left unchanged.
    pub fn add_entry(&mut self, entry: &Entry) -> (r: Result<(), IntoSpecErr>)
        requires
            old(self).wf(),
            old(self).edges_total() < usize::MAX,
        ensures
            final(self).wf(),
            final(self).edges_total() <= old(self).edges_total() + 1,
            match r {
                Ok(_) => spec_add(old(self).model(), entry@) == Ok::<RawModel, ErrView>(
                    final(self).model(),
                ),
                Err(e) => *final(self) == *old(self) && spec_add(old(self).model(), entry@)
                    == Err::<RawModel, ErrView>(e@),
            },
    {
        match entry {
            Entry::Edge { src, tgt, edge_kind, .. } => {
                match parse_edge_kind(edge_kind.as_str()) {
                    Err(e) => Err(e),
                    Ok(k) => {
                        let i1 = self.reserve(src.dup());
                        let i2 = self.reserve(tgt.dup());
                        let _c = self.edges.insert(k, i1.0, i2.0);
                        proof {
                            let m0 = old(self).model();
                            let m1 = spec_add(m0, entry@)->Ok_0;
                            assert(self.model().counts =~= m1.counts);
                            assert(self.model() =~= m1);
                        }
                        Ok(())
                    },
                }
            },
            Entry::Node { src, fact_name, fact_value } => {
                let bytes = match &fact_value {
                    Some(s) => decode_base64(s.as_str()),
                    None => {
                        let b = decode_base64("");
                        proof {
                            reveal_strlit("");
                            assert(""@ =~= Seq::<char>::empty());
                        }
                        b
                    },
                };
                let text = match bytes {
                    None => {
                        return Err(IntoSpecErr::InvalidBase64);
                    },
                    Some(b) => bytes_to_string_lossy(&b),
                };
                if !Self::is_known_fact(fact_name.as_str()) {
                    return Err(IntoSpecErr::UnknownFactName(fact_name.clone()));
                }
                let idx = self.reserve(src.dup());
                match self.put_fact(idx, fact_name.clone(), text) {
                    Ok(_) => {
                        proof {
                            let m0 = old(self).model();
                            let m1 = spec_add(m0, entry@)->Ok_0;
                            assert(self.model().counts =~= m1.counts);
                            assert(self.model() =~= m1);
                        }
                        Ok(())
                    },
                    Err(e) => Err(e),
                }
            },
        }
    }

    /// Builds the untyped graph from a whole fact stream, or reports the
    /// first error met.
    pub fn from_entries(entries: Vec<Entry>) -> (r: Result<RawGraph, IntoSpecErr>)
        ensures
            match r {
                Ok(g) => g.wf() && spec_build(entries.deep_view()) == Ok::<RawModel, ErrView>(
                    g.model(),
                ),
                Err(e) => spec_build(entries.deep_view()) == Err::<RawModel, ErrView>(e@),
            },
    {
        let ghost all = entries.deep_view();
        let n = entries.len();
        let mut g = RawGraph::new();
        let mut i: usize = 0;
        proof {
            assert(all.skip(0) =~= all);
        }
        while i < n
            invariant
                0 <= i <= n,
                n == entries@.len(),
                all == entries.deep_view(),
                all.len() == n,
                g.wf(),
                g.edges_total() <= i,
                spec_build_from(g.model(), all.skip(i as int)) == spec_build(all),
            decreases n - i,
        {
            let ghost m0 = g.model();
            let e = &entries[i];
            proof {
                assert(all.skip(i as int)[0] == e@);
                assert(all.skip(i as int).drop_first() =~= all.skip(i as int + 1));
            }
            match g.add_entry(e) {
                Ok(_) => {
                    proof {
                        assert(spec_build_from(m0, all.skip(i as int)) == spec_build_from(
                            g.model(),
                            all.skip(i as int + 1),
                        ));
                    }
                },
                Err(err) => {
                    proof {
                        assert(spec_build_from(m0, all.skip(i as int)) == Err::<
                            RawModel,
                            ErrView,
                        >(err@));
                    }
                    return Err(err);
                },
            }
            i = i + 1;
        }
        proof {
            assert(all.skip(n as int).len() == 0);
        }
        Ok(g)
    }
}

} // verus!
