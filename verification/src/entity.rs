//! The externally consumed flat views: one entity record per node, with
//! its resolved name, parents and path, and one dependency record per
//! distinct typed edge, with its multiplicity; both in a deterministic
//! order.

use vstd::prelude::*;
use vstd::relations::{sorted_by, total_ordering};
use vstd::seq_lib::{lemma_multiset_commutative, lemma_sorted_unique};
use vstd::utf8::{encode_utf8, encode_utf8_decode_utf8};
use crate::edge_kind::{lemma_edge_rank_injective, spec_edge_rank, EdgeKind};
use crate::errors::{ErrView, IntoEntityErr, ResolveAnchorErr};
use crate::node_kind::{NodeKind, NodeKindView};
use crate::raw_graph::{
    spec_build,
    spec_empty_model,
    spec_occurrences,
    EntryView,
    RawGraph,
    RawModel,
};
use crate::spec_graph::{Node, NodeIndices, NodeView, SpecGraph};
use crate::ticket::NodeIndex;

verus! {

/// One aggregated typed dependency edge: source, target, kind, and how
/// many times the edge occurred in the input.
#[derive(Copy, Clone, Debug, PartialEq, Eq, Structural, Hash)]
pub struct Dep {
    pub src: NodeIndex,
    pub tgt: NodeIndex,
    pub kind: EdgeKind,
    pub count: usize,
}

/// The natural order of dependency records: by source, then target, then
/// edge kind, then count.
pub open spec fn spec_dep_le(a: Dep, b: Dep) -> bool {
    ||| a.src.0 < b.src.0
    ||| (a.src.0 == b.src.0 && a.tgt.0 < b.tgt.0)
    ||| (a.src.0 == b.src.0 && a.tgt.0 == b.tgt.0 && spec_edge_rank(a.kind) < spec_edge_rank(
        b.kind,
    ))
    ||| (a.src.0 == b.src.0 && a.tgt.0 == b.tgt.0 && spec_edge_rank(a.kind) == spec_edge_rank(
        b.kind,
    ) && a.count <= b.count)
}

/// The natural order as a relation value.
pub open spec fn dep_leq() -> spec_fn(Dep, Dep) -> bool {
    |a: Dep, b: Dep| spec_dep_le(a, b)
}

/// The natural order of dependency records is a total order.
pub proof fn lemma_dep_order_total()
    ensures
        total_ordering(dep_leq()),
{
    let leq = dep_leq();
    assert forall|x: Dep| #[trigger] leq(x, x) by {}
    assert forall|x: Dep, y: Dep| #[trigger] leq(x, y) && #[trigger] leq(y, x) implies x == y by {
        lemma_edge_rank_injective(x.kind, y.kind);
    }
    assert forall|x: Dep, y: Dep, z: Dep|
        #[trigger] leq(x, y) && #[trigger] leq(y, z) implies leq(x, z) by {}
    assert forall|x: Dep, y: Dep| #[trigger] leq(x, y) || #[trigger] leq(y, x) by {}
}

/// Decides the natural order on two dependency records.
pub fn dep_le(a: &Dep, b: &Dep) -> (r: bool)
    ensures
        r == spec_dep_le(*a, *b),
{
    if a.src.0 != b.src.0 {
        a.src.0 < b.src.0
    } else if a.tgt.0 != b.tgt.0 {
        a.tgt.0 < b.tgt.0
    } else {
        let ra = a.kind.rank();
        let rb = b.kind.rank();
        if ra != rb {
            ra < rb
        } else {
            a.count <= b.count
        }
    }
}

/// The position before the first element that must come after `x`.
fn find_pos(out: &Vec<Dep>, x: &Dep) -> (j: usize)
    ensures
        j <= out@.len(),
        forall|k: int| 0 <= k < j ==> spec_dep_le(#[trigger] out@[k], *x),
        j < out@.len() ==> !spec_dep_le(out@[j as int], *x),
{
    let n = out.len();
    let mut j: usize = 0;
    while j < n
        invariant
            0 <= j <= n,
            n == out@.len(),
            forall|k: int| 0 <= k < j ==> spec_dep_le(#[trigger] out@[k], *x),
        decreases n - j,
    {
        if !dep_le(&out[j], x) {
            return j;
        }
        j = j + 1;
    }
    j
}

/// Sorts dependency records into their natural order, keeping exactly
/// the same records.
pub fn sort_deps(input: &Vec<Dep>) -> (r: Vec<Dep>)
    ensures
        sorted_by(r@, dep_leq()),
        r@.to_multiset() == input@.to_multiset(),
{
    broadcast use vstd::seq_lib::group_to_multiset_ensures;

    let n = input.len();
    let mut out: Vec<Dep> = Vec::new();
    let mut i: usize = 0;
    proof {
        assert(out@.to_multiset() =~= input@.subrange(0, 0).to_multiset());
    }
    while i < n
        invariant
            0 <= i <= n,
            n == input@.len(),
            sorted_by(out@, dep_leq()),
            out@.to_multiset() == input@.subrange(0, i as int).to_multiset(),
        decreases n - i,
    {
        let x = input[i];
        let j = find_pos(&out, &x);
        let ghost o0 = out@;
        out.insert(j, x);
        proof {
            lemma_dep_order_total();
            let front = o0.subrange(0, j as int);
            let back = o0.subrange(j as int, o0.len() as int);
            assert(out@ =~= front + (seq![x] + back));
            assert(o0 =~= front + back);
            assert forall|p: int, q: int|
                0 <= p < q < out@.len() implies #[trigger] dep_leq()(out@[p], out@[q]) by {
                if p < j && q < j {
                    assert(out@[p] == o0[p] && out@[q] == o0[q]);
                } else if p < j && q == j {
                    assert(out@[p] == o0[p]);
                    assert(spec_dep_le(o0[p], x));
                } else if p < j && q > j {
                    assert(out@[p] == o0[p] && out@[q] == o0[q - 1]);
                } else if p == j {
                    assert(out@[q] == o0[q - 1]);
                    assert(!spec_dep_le(o0[j as int], x));
                    assert(spec_dep_le(x, o0[j as int]));
                    assert(dep_leq()(o0[j as int], o0[q - 1]) || j == q - 1);
                } else {
                    assert(out@[p] == o0[p - 1] && out@[q] == o0[q - 1]);
                }
            }
            lemma_multiset_commutative(front, back);
            lemma_multiset_commutative(front, seq![x] + back);
            assert(seq![x] + back =~= back.insert(0, x));
            vstd::seq_lib::to_multiset_insert(back, 0, x);
            assert((seq![x] + back).to_multiset() =~= back.to_multiset().insert(x));
            assert(out@.to_multiset() =~= o0.to_multiset().insert(x));
            assert(input@.subrange(0, i as int + 1) =~= input@.subrange(0, i as int).push(x));
            vstd::seq_lib::to_multiset_build(input@.subrange(0, i as int), x);
            assert(input@.subrange(0, i as int).push(x).to_multiset() =~= input@.subrange(
                0,
                i as int,
            ).to_multiset().insert(x));
        }
        i = i + 1;
    }
    proof {
        assert(input@.subrange(0, n as int) =~= input@);
    }
    out
}

/// One semantic entity: the node's id, its parents, its resolved name,
/// the path of the file it lives in, and its typed kind.
#[derive(Debug, PartialEq, Eq)]
pub struct Entity {
    pub id: NodeIndex,
    pub parent_ids: Vec<NodeIndex>,
    pub name: String,
    pub path: String,
    pub kind: NodeKind,
}

/// Mathematical image of an entity record.
#[verifier::ext_equal]
pub ghost struct EntityView {
    pub id: NodeIndex,
    pub parent_ids: Seq<NodeIndex>,
    pub name: Seq<char>,
    pub path: Seq<char>,
    pub kind: NodeKindView,
}

impl View for Entity {
    type V = EntityView;

    open spec fn view(&self) -> EntityView {
        EntityView {
            id: self.id,
            parent_ids: self.parent_ids@,
            name: self.name@,
            path: self.path@,
            kind: self.kind@,
        }
    }
}

/// The name a node resolves to, as the bytes of the covered text: a node
/// that resolves as an anchor is named by its own text; otherwise its
/// incoming binding edges decide — none gives the documented placeholder,
/// exactly one gives that anchor's text (an implicit anchor giving the
/// implicit placeholder), and more than one is a hard ambiguity error.
pub open spec fn spec_entity_name(g: &SpecGraph, node: NodeView) -> Result<Seq<u8>, IntoEntityErr> {
    match g.spec_resolve_anchor(node) {
        Ok(bytes) => Ok(bytes),
        Err(_) => {
            if forall|s: usize|
                #[trigger] g.edge_count(EdgeKind::DefinesBinding, s, node.index.0) == 0 {
                Ok(encode_utf8("???"@))
            } else if exists|s1: usize, s2: usize|
                s1 != s2 && #[trigger] g.edge_count(EdgeKind::DefinesBinding, s1, node.index.0) > 0
                    && #[trigger] g.edge_count(EdgeKind::DefinesBinding, s2, node.index.0) > 0 {
                Err(IntoEntityErr::ManyBindingsFound)
            } else {
                let s = choose|s: usize|
                    #[trigger] g.edge_count(EdgeKind::DefinesBinding, s, node.index.0) > 0;
                match g.spec_resolve_anchor(g.nodes_view()[s as int]) {
                    Ok(bytes) => Ok(bytes),
                    Err(ResolveAnchorErr::NotExplicitAnchor) => Ok(encode_utf8("?imp?"@)),
                    Err(e) => Err(IntoEntityErr::InvalidBinding(e)),
                }
            }
        },
    }
}

/// What building a node's entity record owes: a node whose ticket lacks
/// a path fails with `MissingPath`; otherwise only name resolution can
/// fail, with its own error.
pub open spec fn spec_entity_err(g: &SpecGraph, node: NodeView) -> Option<IntoEntityErr> {
    if node.file_key.path is None {
        Some(IntoEntityErr::MissingPath)
    } else {
        match spec_entity_name(g, node) {
            Ok(_) => None,
            Err(e) => Some(e),
        }
    }
}

/// The entity record at position `i` is faithful to the graph: right id,
/// resolved name, the ticket's path, the node's kind, and exactly the
/// node's parents in the graph's own order.
pub open spec fn spec_entity_ok(g: &SpecGraph, i: int, ev: EntityView) -> bool {
    &&& ev.id == NodeIndex(i as usize)
    &&& spec_entity_name(g, g.nodes_view()[i]) == Ok::<Seq<u8>, IntoEntityErr>(
        encode_utf8(ev.name),
    )
    &&& g.nodes_view()[i].file_key.path == Some(ev.path)
    &&& ev.kind == g.nodes_view()[i].kind
    &&& ev.parent_ids == g.spec_parents_seq(NodeIndex(i as usize))
}

/// Resolves the human-readable name of a node, per the binding policy:
/// the node's own anchor text, or the text of its sole incoming binding
/// anchor, with the documented placeholders for no binding and for an
/// implicit binding anchor, and a hard error for an ambiguous binding.
pub fn entity_name(graph: &SpecGraph, node: &Node) -> (r: Result<String, IntoEntityErr>)
    requires
        graph.wf(),
        node.index.0 < graph.nodes_view().len(),
        graph.nodes_view()[node.index.0 as int] == node@,
    ensures
        match r {
            Ok(name) => spec_entity_name(graph, node@) == Ok::<Seq<u8>, IntoEntityErr>(
                encode_utf8(name@),
            ),
            Err(e) => spec_entity_name(graph, node@) == Err::<Seq<u8>, IntoEntityErr>(e),
        },
{
    proof {
        graph.lemma_node_ids();
        graph.lemma_edge_endpoints();
    }
    let id = node.index;
    match graph.resolve_anchor(node) {
        Ok(text) => {
            return Ok(text.to_owned());
        },
        Err(_) => {},
    }
    match graph.incoming(EdgeKind::DefinesBinding, id) {
        NodeIndices::Zero => Ok("???".to_owned()),
        NodeIndices::Sole(bidx) => {
            proof {
                assert(graph.edge_count(EdgeKind::DefinesBinding, bidx.0, id.0) > 0);
                assert forall|s1: usize, s2: usize|
                    s1 != s2 implies !(#[trigger] graph.edge_count(
                    EdgeKind::DefinesBinding,
                    s1,
                    id.0,
                ) > 0 && #[trigger] graph.edge_count(EdgeKind::DefinesBinding, s2, id.0) > 0) by {
                    if graph.edge_count(EdgeKind::DefinesBinding, s1, id.0) > 0
                        && graph.edge_count(EdgeKind::DefinesBinding, s2, id.0) > 0 {
                        assert(s1 == bidx.0);
                        assert(s2 == bidx.0);
                    }
                }
                let s = choose|s: usize|
                    #[trigger] graph.edge_count(EdgeKind::DefinesBinding, s, id.0) > 0;
                assert(s == bidx.0);
            }
            let bnode = graph.get_node(bidx);
            match graph.resolve_anchor(bnode) {
                Ok(text) => Ok(text.to_owned()),
                Err(ResolveAnchorErr::NotExplicitAnchor) => Ok("?imp?".to_owned()),
                Err(e) => Err(IntoEntityErr::InvalidBinding(e)),
            }
        },
        NodeIndices::Many(v) => {
            proof {
                assert(v@[0].0 != v@[1].0);
                assert(graph.edge_count(EdgeKind::DefinesBinding, v@[0].0, id.0) > 0);
                assert(graph.edge_count(EdgeKind::DefinesBinding, v@[1].0, id.0) > 0);
            }
            Err(IntoEntityErr::ManyBindingsFound)
        },
    }
}

/// Builds the entity record of one node.
pub fn entity_of(graph: &SpecGraph, id: NodeIndex) -> (r: Result<Entity, IntoEntityErr>)
    requires
        graph.wf(),
        id.0 < graph.nodes_view().len(),
    ensures
        match r {
            Ok(ent) => spec_entity_err(graph, graph.nodes_view()[id.0 as int]) is None
                && spec_entity_ok(graph, id.0 as int, ent@),
            Err(e) => spec_entity_err(graph, graph.nodes_view()[id.0 as int]) == Some(e),
        },
{
    proof {
        graph.lemma_node_ids();
    }
    let node = graph.get_node(id);
    let parent_ids = graph.parents_of(id);
    let path = match &node.file_key.path {
        Some(p) => p.clone(),
        None => {
            return Err(IntoEntityErr::MissingPath);
        },
    };
    let kind = node.kind.dup();
    match entity_name(graph, node) {
        Ok(name) => Ok(Entity { id, parent_ids, name, path, kind }),
        Err(e) => Err(e),
    }
}

/// The first entity-building failure among the nodes from position `i`
/// on, if any.
pub open spec fn spec_first_err(g: &SpecGraph, i: int) -> Option<IntoEntityErr>
    decreases g.nodes_view().len() - i,
{
    if i < 0 || i >= g.nodes_view().len() {
        None
    } else {
        match spec_entity_err(g, g.nodes_view()[i]) {
            Some(e) => Some(e),
            None => spec_first_err(g, i + 1),
        }
    }
}

/// The projected views: one entity per node, in id order, and one
/// dependency record per distinct typed edge, in the natural order.
#[derive(Debug)]
pub struct EntityGraph {
    pub entities: Vec<Entity>,
    pub deps: Vec<Dep>,
}

/// The projection is faithful: entities one per node in id order, each
/// faithful to its node; dependency records sorted in the natural order,
/// carrying exactly the positive multiset counts, one record per
/// distinct `(kind, src, tgt)` and no other.
pub open spec fn spec_project_ok(g: &SpecGraph, eg: &EntityGraph) -> bool {
    &&& eg.entities@.len() == g.nodes_view().len()
    &&& forall|i: int|
        0 <= i < eg.entities@.len() ==> spec_entity_ok(g, i, (#[trigger] eg.entities@[i])@)
    &&& sorted_by(eg.deps@, dep_leq())
    &&& forall|q: int|
        0 <= q < eg.deps@.len() ==> g.edge_count(
            (#[trigger] eg.deps@[q]).kind,
            eg.deps@[q].src.0,
            eg.deps@[q].tgt.0,
        ) == eg.deps@[q].count as nat && eg.deps@[q].count >= 1
    &&& forall|k: EdgeKind, a: usize, b: usize|
        g.edge_count(k, a, b) > 0 ==> exists|q: int|
            0 <= q < eg.deps@.len() && (#[trigger] eg.deps@[q]).kind == k && eg.deps@[q].src.0 == a
                && eg.deps@[q].tgt.0 == b
    &&& forall|q1: int, q2: int|
        0 <= q1 < q2 < eg.deps@.len() ==> !((#[trigger] eg.deps@[q1]).kind == (
        #[trigger] eg.deps@[q2]).kind && eg.deps@[q1].src == eg.deps@[q2].src && eg.deps@[q1].tgt
            == eg.deps@[q2].tgt)
}

/// Projects the typed graph into its flat views: an entity for every
/// node and a dependency record for every distinct typed edge, sorted.
/// The first node whose entity cannot be built aborts the projection
/// with that node's error.
pub fn project(graph: &SpecGraph) -> (r: Result<EntityGraph, IntoEntityErr>)
    requires
        graph.wf(),
    ensures
        match r {
            Ok(eg) => spec_project_ok(graph, &eg) && spec_first_err(graph, 0) is None,
            Err(e) => spec_first_err(graph, 0) == Some(e),
        },
{
    broadcast use vstd::seq_lib::group_to_multiset_ensures;

    let n = graph.len();
    let mut entities: Vec<Entity> = Vec::new();
    let mut i: usize = 0;
    while i < n
        invariant
            0 <= i <= n,
            n == graph.nodes_view().len(),
            graph.wf(),
            entities@.len() == i,
            forall|j: int|
                0 <= j < i ==> spec_entity_ok(graph, j, (#[trigger] entities@[j])@),
            spec_first_err(graph, i as int) == spec_first_err(graph, 0),
        decreases n - i,
    {
        match entity_of(graph, NodeIndex(i)) {
            Ok(ent) => {
                entities.push(ent);
            },
            Err(e) => {
                proof {
                    assert(spec_first_err(graph, i as int) == Some(e));
                }
                return Err(e);
            },
        }
        i = i + 1;
    }
    let quads = graph.iter();
    let m = quads.len();
    let mut deps: Vec<Dep> = Vec::new();
    let mut j: usize = 0;
    while j < m
        invariant
            0 <= j <= m,
            m == quads@.len(),
            deps@.len() == j,
            forall|x: int|
                0 <= x < j ==> (#[trigger] deps@[x]) == (Dep {
                    src: quads@[x].1,
                    tgt: quads@[x].2,
                    kind: quads@[x].0,
                    count: quads@[x].3,
                }),
        decreases m - j,
    {
        let (k, a, b, c) = quads[j];
        deps.push(Dep { src: a, tgt: b, kind: k, count: c });
        j = j + 1;
    }
    let sorted = sort_deps(&deps);
    proof {
        assert forall|q: int| 0 <= q < sorted@.len() implies graph.edge_count(
            (#[trigger] sorted@[q]).kind,
            sorted@[q].src.0,
            sorted@[q].tgt.0,
        ) == sorted@[q].count as nat && sorted@[q].count >= 1 by {
            assert(sorted@.to_multiset().contains(sorted@[q]));
            assert(deps@.contains(sorted@[q]));
            let x = choose|x: int| 0 <= x < deps@.len() && deps@[x] == sorted@[q];
            assert(deps@[x] == (Dep {
                src: quads@[x].1,
                tgt: quads@[x].2,
                kind: quads@[x].0,
                count: quads@[x].3,
            }));
        }
        assert forall|k: EdgeKind, a: usize, b: usize|
            graph.edge_count(k, a, b) > 0 implies exists|q: int|
            0 <= q < sorted@.len() && (#[trigger] sorted@[q]).kind == k && sorted@[q].src.0 == a
                && sorted@[q].tgt.0 == b by {
            let y = choose|y: int|
                0 <= y < quads@.len() && (#[trigger] quads@[y]).0 == k && quads@[y].1.0 == a
                    && quads@[y].2.0 == b;
            let d = Dep { src: quads@[y].1, tgt: quads@[y].2, kind: quads@[y].0, count: quads@[y].3 };
            assert(deps@[y] == d);
            assert(deps@.contains(d));
            assert(sorted@.to_multiset().contains(d));
            assert(sorted@.contains(d));
            let q = choose|q: int| 0 <= q < sorted@.len() && sorted@[q] == d;
            assert(sorted@[q].kind == k && sorted@[q].src.0 == a && sorted@[q].tgt.0 == b);
        }
        assert forall|q1: int, q2: int|
            0 <= q1 < q2 < sorted@.len() implies !((#[trigger] sorted@[q1]).kind == (
        #[trigger] sorted@[q2]).kind && sorted@[q1].src == sorted@[q2].src && sorted@[q1].tgt
            == sorted@[q2].tgt) by {
            if sorted@[q1].kind == sorted@[q2].kind && sorted@[q1].src == sorted@[q2].src
                && sorted@[q1].tgt == sorted@[q2].tgt {
                assert(sorted@.to_multiset().contains(sorted@[q1]));
                assert(deps@.contains(sorted@[q1]));
                let x1 = choose|x: int| 0 <= x < deps@.len() && deps@[x] == sorted@[q1];
                assert(sorted@.to_multiset().contains(sorted@[q2]));
                assert(deps@.contains(sorted@[q2]));
                let x2 = choose|x: int| 0 <= x < deps@.len() && deps@[x] == sorted@[q2];
                assert(deps@[x1].kind == quads@[x1].0 && deps@[x1].src == quads@[x1].1
                    && deps@[x1].tgt == quads@[x1].2);
                assert(deps@[x2].kind == quads@[x2].0 && deps@[x2].src == quads@[x2].1
                    && deps@[x2].tgt == quads@[x2].2);
                assert(x1 == x2);
                assert(sorted@[q1] == sorted@[q2]);
                assert(deps@.no_duplicates()) by {
                    assert forall|p1: int, p2: int|
                        0 <= p1 < p2 < deps@.len() implies deps@[p1] != deps@[p2] by {
                        assert(!(quads@[p1].0 == quads@[p2].0 && quads@[p1].1 == quads@[p2].1
                            && quads@[p1].2 == quads@[p2].2));
                    }
                }
                deps@.lemma_multiset_has_no_duplicates();
                assert(deps@.to_multiset().count(sorted@[q1]) == 1);
                assert(sorted@.remove(q2).to_multiset() =~= sorted@.to_multiset().remove(
                    sorted@[q2],
                ));
                assert(sorted@.remove(q2)[q1] == sorted@[q1]);
                assert(sorted@.remove(q2).to_multiset().contains(sorted@[q1]));
                assert(sorted@.to_multiset().count(sorted@[q1]) >= 2);
            }
        }
    }
    Ok(EntityGraph { entities, deps: sorted })
}

/// Every `(kind, src, tgt)` triple that edge records of the fact stream
/// intern to is reported by exactly one dependency record, whose count
/// is the number of those records; a triple no record interns to is not
/// reported. This carries the edge multiset from the raw fold, through
/// typed compilation, into the projected views.
pub proof fn lemma_deps_carry_occurrences(
    entries: Seq<EntryView>,
    raw: &RawGraph,
    g: &SpecGraph,
    eg: &EntityGraph,
    k: EdgeKind,
    a: usize,
    b: usize,
)
    requires
        spec_build(entries) == Ok::<RawModel, ErrView>(raw.model()),
        forall|k2: EdgeKind, a2: usize, b2: usize|
            g.edge_count(k2, a2, b2) == raw.edge_count(k2, a2, b2),
        spec_project_ok(g, eg),
    ensures
        ({
            let n = spec_occurrences(Seq::empty(), entries, k, a, b);
            if n > 0 {
                exists|q: int|
                    0 <= q < eg.deps@.len() && (#[trigger] eg.deps@[q]) == (Dep {
                        src: NodeIndex(a),
                        tgt: NodeIndex(b),
                        kind: k,
                        count: n as usize,
                    })
            } else {
                forall|q: int|
                    0 <= q < eg.deps@.len() ==> !((#[trigger] eg.deps@[q]).kind == k
                        && eg.deps@[q].src.0 == a && eg.deps@[q].tgt.0 == b)
            }
        }),
{
    crate::raw_graph::lemma_counts_are_occurrences(spec_empty_model(), entries, k, a, b);
    let n = spec_occurrences(Seq::empty(), entries, k, a, b);
    assert((raw.model().counts)(k, a, b) == n);
    assert(raw.edge_count(k, a, b) == n);
    assert(g.edge_count(k, a, b) == n);
    if n > 0 {
        let q = choose|q: int|
            0 <= q < eg.deps@.len() && (#[trigger] eg.deps@[q]).kind == k && eg.deps@[q].src.0
                == a && eg.deps@[q].tgt.0 == b;
        assert(eg.deps@[q].count as nat == n);
        assert(eg.deps@[q] == (Dep { src: NodeIndex(a), tgt: NodeIndex(b), kind: k, count: n as usize }));
    } else {
        assert forall|q: int|
            0 <= q < eg.deps@.len() implies !((#[trigger] eg.deps@[q]).kind == k
            && eg.deps@[q].src.0 == a && eg.deps@[q].tgt.0 == b) by {
            if eg.deps@[q].kind == k && eg.deps@[q].src.0 == a && eg.deps@[q].tgt.0 == b {
                assert(eg.deps@[q].count as nat == g.edge_count(k, a, b));
                assert(eg.deps@[q].count >= 1);
            }
        }
    }
}

/// Projecting the same graph twice is deterministic: both projections
/// yield the same entity views and byte-identical sorted dependency
/// records.
pub proof fn lemma_project_deterministic(g: &SpecGraph, eg1: &EntityGraph, eg2: &EntityGraph)
    requires
        spec_project_ok(g, eg1),
        spec_project_ok(g, eg2),
    ensures
        eg1.entities@.map_values(|e: Entity| e@) == eg2.entities@.map_values(|e: Entity| e@),
        eg1.deps@ == eg2.deps@,
{
    broadcast use vstd::seq_lib::group_to_multiset_ensures;

    let ev1 = eg1.entities@.map_values(|e: Entity| e@);
    let ev2 = eg2.entities@.map_values(|e: Entity| e@);
    assert forall|i: int| 0 <= i < ev1.len() implies ev1[i] == ev2[i] by {
        let a = eg1.entities@[i]@;
        let b = eg2.entities@[i]@;
        assert(spec_entity_ok(g, i, a) && spec_entity_ok(g, i, b));
        assert(encode_utf8(a.name) == encode_utf8(b.name));
        encode_utf8_decode_utf8(a.name);
        encode_utf8_decode_utf8(b.name);
        assert(a.name == b.name);
        assert(a =~= b);
    }
    assert(ev1 =~= ev2);
    // Dependency records: same multiset, both sorted by a total order.
    assert forall|x: Dep| true implies eg1.deps@.to_multiset().count(x)
        == eg2.deps@.to_multiset().count(x) by {
        lemma_deps_count(g, eg1, x);
        lemma_deps_count(g, eg2, x);
    }
    assert(eg1.deps@.to_multiset() =~= eg2.deps@.to_multiset());
    lemma_dep_order_total();
    lemma_sorted_unique(eg1.deps@, eg2.deps@, dep_leq());
    assert(eg1.deps@ =~= eg2.deps@);
}

/// In a faithful projection a dependency record occurs once when its key
/// has the counted multiplicity and never otherwise.
proof fn lemma_deps_count(g: &SpecGraph, eg: &EntityGraph, x: Dep)
    requires
        spec_project_ok(g, eg),
    ensures
        eg.deps@.to_multiset().count(x) == if g.edge_count(x.kind, x.src.0, x.tgt.0) == x.count
            as nat && x.count >= 1 {
            1nat
        } else {
            0nat
        },
{
    broadcast use vstd::seq_lib::group_to_multiset_ensures;

    assert(eg.deps@.no_duplicates()) by {
        assert forall|p1: int, p2: int|
            0 <= p1 < p2 < eg.deps@.len() implies eg.deps@[p1] != eg.deps@[p2] by {}
    }
    eg.deps@.lemma_multiset_has_no_duplicates();
    if g.edge_count(x.kind, x.src.0, x.tgt.0) == x.count as nat && x.count >= 1 {
        let q = choose|q: int|
            0 <= q < eg.deps@.len() && (#[trigger] eg.deps@[q]).kind == x.kind && eg.deps@[q].src.0
                == x.src.0 && eg.deps@[q].tgt.0 == x.tgt.0;
        assert(eg.deps@[q] == x);
        assert(eg.deps@.contains(x));
        assert(eg.deps@.to_multiset().count(x) == 1);
    } else {
        if eg.deps@.to_multiset().count(x) > 0 {
            assert(eg.deps@.contains(x));
            let q = choose|q: int| 0 <= q < eg.deps@.len() && eg.deps@[q] == x;
        }
    }
}

} // verus!
