//! Stage two and three of the pipeline: compiling the untyped graph into
//! typed nodes with a file index, and the read-only queries over it
//! (anchor text resolution, incoming and outgoing typed edges).

use vstd::prelude::*;
use vstd::utf8::{encode_utf8, is_char_boundary};
use crate::collections::{spec_kinded_out, KindedEdgeBag};
use crate::edge_kind::EdgeKind;
use crate::errors::{ErrView, IntoSpecErr, ResolveAnchorErr};
use crate::node_kind::{node_kind_of, parse_lang, spec_lang, spec_node_kind, AnchorKind, Lang, NodeKind, NodeKindView, Pos};
use crate::raw_graph::RawGraph;
use crate::raw_node::{RawNodeValue, RawNodeView};
use crate::ticket::{clone_opt_str, spec_file_key, FileKey, FileKeyView, NodeIndex, Ticket, TicketView};

verus! {

/// One typed node: its dense index, the ticket's signature, the language
/// it was compiled under, the file key it belongs to, and its kind.
#[derive(Debug)]
pub struct Node {
    pub index: NodeIndex,
    pub signature: Option<String>,
    pub lang: Lang,
    pub file_key: FileKey,
    pub kind: NodeKind,
}

/// Mathematical image of a typed node.
#[verifier::ext_equal]
pub ghost struct NodeView {
    pub index: NodeIndex,
    pub signature: Option<Seq<char>>,
    pub lang: Lang,
    pub file_key: FileKeyView,
    pub kind: NodeKindView,
}

impl View for Node {
    type V = NodeView;

    open spec fn view(&self) -> NodeView {
        NodeView {
            index: self.index,
            signature: self.signature.deep_view(),
            lang: self.lang,
            file_key: self.file_key@,
            kind: self.kind@,
        }
    }
}

/// The typed node a raw fact bag and its ticket denote under the given
/// index: the language is derived from the ticket, then the fact bag is
/// compiled under that language.
pub open spec fn spec_node(index: NodeIndex, raw: RawNodeView, ticket: TicketView) -> Result<
    NodeView,
    ErrView,
> {
    match spec_lang(ticket.language) {
        Err(e) => Err(e),
        Ok(lang) => match spec_node_kind(raw, lang) {
            Err(e) => Err(e),
            Ok(kind) => Ok(
                NodeView {
                    index,
                    signature: ticket.signature,
                    lang,
                    file_key: spec_file_key(ticket),
                    kind,
                },
            ),
        },
    }
}

/// Compiles one raw fact bag and its ticket into a typed node.
pub fn node_of(index: NodeIndex, raw: RawNodeValue, ticket: &Ticket) -> (r: Result<
    Node,
    IntoSpecErr,
>)
    ensures
        match r {
            Ok(n) => spec_node(index, raw@, ticket@) == Ok::<NodeView, ErrView>(n@) && n.index
                == index,
            Err(e) => spec_node(index, raw@, ticket@) == Err::<NodeView, ErrView>(e@),
        },
{
    let signature = clone_opt_str(&ticket.signature);
    let lang = match parse_lang(&ticket.language) {
        Ok(l) => l,
        Err(e) => {
            return Err(e);
        },
    };
    let file_key = FileKey::from_ticket(ticket);
    let kind = match node_kind_of(raw, lang) {
        Ok(k) => k,
        Err(e) => {
            return Err(e);
        },
    };
    let n = Node { index, signature, lang, file_key, kind };
    proof {
        assert(n@ =~= spec_node(index, raw@, ticket@)->Ok_0);
    }
    Ok(n)
}

/// The typed nodes that positions `i` and onward compile to, or the
/// first failure, tagged with the index of the node it arose on.
pub open spec fn spec_nodes_from(
    tickets: Seq<TicketView>,
    raws: Seq<RawNodeView>,
    i: int,
) -> Result<Seq<NodeView>, ErrView>
    decreases raws.len() - i,
{
    if i < 0 || i >= raws.len() {
        Ok(Seq::empty())
    } else {
        match spec_node(NodeIndex(i as usize), raws[i], tickets[i]) {
            Err(e) => Err(ErrView::SequencingErr(NodeIndex(i as usize), Box::new(e))),
            Ok(nv) => match spec_nodes_from(tickets, raws, i + 1) {
                Ok(rest) => Ok(seq![nv] + rest),
                Err(e) => Err(e),
            },
        }
    }
}

/// The file index a sequence of typed nodes induces: one entry per node
/// of file kind, in node order, keyed by the node's file key.
pub open spec fn spec_file_index(nodes: Seq<NodeView>) -> Seq<(FileKeyView, NodeIndex)>
    decreases nodes.len(),
{
    if nodes.len() == 0 {
        Seq::empty()
    } else {
        spec_file_index(nodes.drop_last()) + (if nodes.last().kind is File {
            seq![(nodes.last().file_key, nodes.last().index)]
        } else {
            Seq::empty()
        })
    }
}

/// Last-write-wins lookup in the file index: of two file nodes with the
/// same key, the later one is found.
pub open spec fn spec_lookup(files: Seq<(FileKeyView, NodeIndex)>, key: FileKeyView) -> Option<
    NodeIndex,
>
    decreases files.len(),
{
    if files.len() == 0 {
        None
    } else if files.last().0 == key {
        Some(files.last().1)
    } else {
        spec_lookup(files.drop_last(), key)
    }
}

/// Whatever the file index finds is a file node with the sought key; a
/// miss means no file node has that key.
pub proof fn lemma_lookup_file(nodes: Seq<NodeView>, key: FileKeyView)
    requires
        forall|i: int| 0 <= i < nodes.len() ==> (#[trigger] nodes[i]).index.0 == i,
    ensures
        match spec_lookup(spec_file_index(nodes), key) {
            Some(ix) => ix.0 < nodes.len() && nodes[ix.0 as int].kind is File
                && nodes[ix.0 as int].file_key == key,
            None => forall|j: int|
                0 <= j < nodes.len() ==> !((#[trigger] nodes[j]).kind is File && nodes[j].file_key
                    == key),
        },
    decreases nodes.len(),
{
    if nodes.len() > 0 {
        assert(forall|i: int|
            0 <= i < nodes.len() - 1 ==> nodes.drop_last()[i] == (#[trigger] nodes[i]));
        lemma_lookup_file(nodes.drop_last(), key);
        let fi = spec_file_index(nodes);
        if nodes.last().kind is File {
            assert(fi.last() == (nodes.last().file_key, nodes.last().index));
            assert(fi.drop_last() =~= spec_file_index(nodes.drop_last()));
        } else {
            assert(fi =~= spec_file_index(nodes.drop_last()));
        }
    }
}

/// Zero, one, or many node indices, as the multiplicity of a query's
/// answer.
#[derive(Debug, PartialEq, Eq)]
pub enum NodeIndices {
    Zero,
    Sole(NodeIndex),
    Many(Vec<NodeIndex>),
}

/// The typed, queryable semantic graph: typed nodes in index order, the
/// file index, and the edge multiset carried over unchanged.
pub struct SpecGraph {
    nodes: Vec<Node>,
    files: Vec<(FileKey, NodeIndex)>,
    edges: KindedEdgeBag,
}

impl SpecGraph {
    /// The typed nodes, in index order.
    pub closed spec fn nodes_view(&self) -> Seq<NodeView> {
        self.nodes@.map_values(|n: Node| n@)
    }

    /// Occurrence count of the edge `(k, a, b)`.
    pub closed spec fn edge_count(&self, k: EdgeKind, a: usize, b: usize) -> nat {
        self.edges.count(k, a, b)
    }

    /// The file index, in registration order.
    pub closed spec fn files_view(&self) -> Seq<(FileKeyView, NodeIndex)> {
        self.files@.map_values(|p: (FileKey, NodeIndex)| (p.0@, p.1))
    }

    /// The node index the file key resolves to, if any.
    pub open spec fn spec_file_of(&self, key: FileKeyView) -> Option<NodeIndex> {
        spec_lookup(self.files_view(), key)
    }

    /// Well-formed: each node records its own position, the file index
    /// is exactly the one the nodes induce, the edge store is
    /// well-formed, and every recorded edge ends on nodes of the graph.
    pub closed spec fn wf(&self) -> bool {
        &&& forall|i: int| 0 <= i < self.nodes@.len() ==> (#[trigger] self.nodes_view()[i]).index.0
            == i
        &&& self.files_view() == spec_file_index(self.nodes_view())
        &&& self.edges.wf()
        &&& forall|k: EdgeKind, a: usize, b: usize|
            #[trigger] self.edges.count(k, a, b) > 0 ==> a < self.nodes@.len() && b
                < self.nodes@.len()
    }

    /// In a well-formed graph each node records its own position.
    pub proof fn lemma_node_ids(&self)
        requires
            self.wf(),
        ensures
            forall|i: int|
                0 <= i < self.nodes_view().len() ==> (#[trigger] self.nodes_view()[i]).index
                    == NodeIndex(i as usize),
    {
    }

    /// In a well-formed graph, every recorded edge ends on valid nodes.
    pub proof fn lemma_edge_endpoints(&self)
        requires
            self.wf(),
        ensures
            forall|k: EdgeKind, a: usize, b: usize|
                #[trigger] self.edge_count(k, a, b) > 0 ==> a < self.nodes_view().len() && b
                    < self.nodes_view().len(),
    {
    }

    /// Number of nodes in the graph.
    pub fn len(&self) -> (n: usize)
        ensures
            n == self.nodes_view().len(),
    {
        self.nodes.len()
    }

    /// The node at a valid index.
    pub fn get_node(&self, index: NodeIndex) -> (r: &Node)
        requires
            index.0 < self.nodes_view().len(),
        ensures
            r@ == self.nodes_view()[index.0 as int],
    {
        &self.nodes[index.0]
    }

    /// The typed nodes, in index order.
    pub fn iter_nodes(&self) -> (r: &Vec<Node>)
        ensures
            r@.map_values(|n: Node| n@) == self.nodes_view(),
    {
        &self.nodes
    }

    /// Compiles the untyped graph: every fact bag becomes a typed node
    /// under its ticket's language, file nodes are registered in the
    /// file index (of two file nodes with one key, the later wins), and
    /// the edge multiset is carried over unchanged. The first failing
    /// node aborts the whole compilation, tagged with its index.
    pub fn compile(raw: &RawGraph) -> (r: Result<SpecGraph, IntoSpecErr>)
        requires
            raw.wf(),
        ensures
            match r {
                Ok(g) => {
                    &&& g.wf()
                    &&& spec_nodes_from(raw.tickets_view(), raw.nodes_view(), 0) == Ok::<
                        Seq<NodeView>,
                        ErrView,
                    >(g.nodes_view())
                    &&& forall|k: EdgeKind, a: usize, b: usize|
                        g.edge_count(k, a, b) == raw.edge_count(k, a, b)
                },
                Err(e) => spec_nodes_from(raw.tickets_view(), raw.nodes_view(), 0) == Err::<
                    Seq<NodeView>,
                    ErrView,
                >(e@),
            },
    {
        let ghost tickets_v = raw.tickets_view();
        let ghost raws_v = raw.nodes_view();
        proof {
            raw.lemma_wf_lens();
            raw.lemma_edge_bounds();
        }
        let edges = raw.edges_dup();
        let n = raw.len();
        let mut nodes: Vec<Node> = Vec::new();
        let mut files: Vec<(FileKey, NodeIndex)> = Vec::new();
        let mut i: usize = 0;
        proof {
            assert(files@.map_values(|p: (FileKey, NodeIndex)| (p.0@, p.1)) =~= spec_file_index(
                nodes@.map_values(|nd: Node| nd@),
            ));
            match spec_nodes_from(tickets_v, raws_v, 0) {
                Ok(rest) => {
                    assert(nodes@.map_values(|nd: Node| nd@) + rest =~= rest);
                },
                Err(_) => {},
            }
        }
        while i < n
            invariant
                0 <= i <= n,
                n == raws_v.len(),
                n == tickets_v.len(),
                raw.wf(),
                tickets_v == raw.tickets_view(),
                raws_v == raw.nodes_view(),
                nodes@.len() == i,
                forall|j: int| 0 <= j < i ==> (#[trigger] nodes@[j]@).index.0 == j,
                files@.map_values(|p: (FileKey, NodeIndex)| (p.0@, p.1)) == spec_file_index(
                    nodes@.map_values(|nd: Node| nd@),
                ),
                match spec_nodes_from(tickets_v, raws_v, i as int) {
                    Ok(rest) => spec_nodes_from(tickets_v, raws_v, 0) == Ok::<
                        Seq<NodeView>,
                        ErrView,
                    >(nodes@.map_values(|nd: Node| nd@) + rest),
                    Err(e) => spec_nodes_from(tickets_v, raws_v, 0) == Err::<
                        Seq<NodeView>,
                        ErrView,
                    >(e),
                },
            decreases n - i,
        {
            let ghost nv0 = nodes@.map_values(|nd: Node| nd@);
            let raw_node = raw.get_raw_node(i).dup();
            let ticket = raw.get_ticket(i);
            let node = match node_of(NodeIndex(i), raw_node, ticket) {
                Ok(nd) => nd,
                Err(e) => {
                    let ghost ev = e@;
                    let err = IntoSpecErr::SequencingErr(NodeIndex(i), Box::new(e));
                    proof {
                        assert(err@ == ErrView::SequencingErr(NodeIndex(i), Box::new(ev)));
                        assert(spec_nodes_from(tickets_v, raws_v, i as int) == Err::<
                            Seq<NodeView>,
                            ErrView,
                        >(ErrView::SequencingErr(NodeIndex(i), Box::new(ev))));
                    }
                    return Err(err);
                },
            };
            let is_file = match &node.kind {
                NodeKind::File(_) => true,
                _ => false,
            };
            if is_file {
                files.push((FileKey {
                    corpus: clone_opt_str(&node.file_key.corpus),
                    path: clone_opt_str(&node.file_key.path),
                    root: clone_opt_str(&node.file_key.root),
                }, NodeIndex(i)));
            }
            nodes.push(node);
            proof {
                let nv1 = nodes@.map_values(|nd: Node| nd@);
                assert(nv1 =~= nv0.push(node@));
                assert(nv1.drop_last() =~= nv0);
                if is_file {
                    assert(files@.map_values(|p: (FileKey, NodeIndex)| (p.0@, p.1)) =~=
                        spec_file_index(nv0) + seq![(node@.file_key, node@.index)]);
                } else {
                    assert(files@.map_values(|p: (FileKey, NodeIndex)| (p.0@, p.1)) =~=
                        spec_file_index(nv0));
                }
                assert(spec_file_index(nv1) == spec_file_index(nv0) + (if node@.kind is File {
                    seq![(node@.file_key, node@.index)]
                } else {
                    Seq::empty()
                }));
                match spec_nodes_from(tickets_v, raws_v, i as int + 1) {
                    Ok(rest) => {
                        assert(nv0 + (seq![node@] + rest) =~= nv1 + rest);
                    },
                    Err(_) => {},
                }
            }
            i = i + 1;
        }
        let g = SpecGraph { nodes, files, edges };
        proof {
            assert(spec_nodes_from(tickets_v, raws_v, n as int) == Ok::<Seq<NodeView>, ErrView>(
                Seq::empty(),
            ));
            assert(g.nodes_view() + Seq::<NodeView>::empty() =~= g.nodes_view());
        }
        Ok(g)
    }
}

/// Relies on str::get: yields the byte range `start..end` of the string
/// exactly when the ends are in range and fall on character boundaries;
/// anything else yields nothing rather than a clipped slice.
#[verifier::external_body]
fn slice_str<'a>(s: &'a str, start: usize, end: usize) -> (r: Option<&'a str>)
    ensures
        match r {
            Some(sub) => start <= end <= encode_utf8(s@).len() && is_char_boundary(
                encode_utf8(s@),
                start as int,
            ) && is_char_boundary(encode_utf8(s@), end as int) && encode_utf8(sub@) == encode_utf8(
                s@,
            ).subrange(start as int, end as int),
            None => !(start <= end <= encode_utf8(s@).len() && is_char_boundary(
                encode_utf8(s@),
                start as int,
            ) && is_char_boundary(encode_utf8(s@), end as int)),
        },
{
    s.get(start..end)
}

impl SpecGraph {
    /// The index of the file node holding the given key, if any.
    pub fn get_file(&self, key: &FileKey) -> (r: Option<NodeIndex>)
        requires
            self.wf(),
        ensures
            r == self.spec_file_of(key@),
    {
        let n = self.files.len();
        let mut i: usize = n;
        proof {
            assert(self.files_view().take(n as int) =~= self.files_view());
        }
        while i > 0
            invariant
                0 <= i <= n,
                n == self.files@.len(),
                spec_lookup(self.files_view(), key@) == spec_lookup(
                    self.files_view().take(i as int),
                    key@,
                ),
            decreases i,
        {
            let entry_key = &self.files[i - 1].0;
            proof {
                assert(self.files_view().take(i as int).last() == self.files_view()[i - 1]);
                assert(self.files_view().take(i as int).drop_last() =~= self.files_view().take(
                    i as int - 1,
                ));
                assert(self.files_view()[i - 1] == (self.files@[i - 1].0@, self.files@[i - 1].1));
            }
            if entry_key.key_eq(key) {
                return Some(self.files[i - 1].1);
            }
            i = i - 1;
        }
        proof {
            assert(self.files_view().take(0).len() == 0);
        }
        None
    }

    /// The full text of the file node the key resolves to, if any.
    pub fn get_file_text(&self, file_key: &FileKey) -> (r: Option<&String>)
        requires
            self.wf(),
        ensures
            match r {
                Some(t) => self.spec_file_of(file_key@) matches Some(ix) && self.nodes_view()[ix.0
                    as int].kind == NodeKindView::File(t@),
                None => self.spec_file_of(file_key@) is None,
            },
    {
        proof {
            lemma_lookup_file(self.nodes_view(), file_key@);
        }
        match self.get_file(file_key) {
            None => None,
            Some(ix) => {
                let node = self.get_node(ix);
                match &node.kind {
                    NodeKind::File(t) => Some(t),
                    _ => None,
                }
            },
        }
    }

    /// The outcome anchor resolution owes on a node: the byte span of the
    /// anchor inside its file's text, or the error naming what failed.
    pub open spec fn spec_resolve_anchor(&self, node: NodeView) -> Result<
        Seq<u8>,
        ResolveAnchorErr,
    > {
        match node.kind {
            NodeKindView::Anchor(AnchorKind::Explicit(pos)) => match self.spec_file_of(
                node.file_key,
            ) {
                None => Err(ResolveAnchorErr::FileNotFound),
                Some(ix) => {
                    let bytes = encode_utf8(self.nodes_view()[ix.0 as int].kind->File_0);
                    if pos.start <= pos.end <= bytes.len() && is_char_boundary(
                        bytes,
                        pos.start as int,
                    ) && is_char_boundary(bytes, pos.end as int) {
                        Ok(bytes.subrange(pos.start as int, pos.end as int))
                    } else {
                        Err(ResolveAnchorErr::OutOfBounds)
                    }
                },
            },
            NodeKindView::Anchor(AnchorKind::Implicit) => Err(ResolveAnchorErr::NotExplicitAnchor),
            _ => Err(ResolveAnchorErr::NotAnchor),
        }
    }

    /// Resolves the text span an explicit anchor covers: the anchor's
    /// byte offsets are applied to the text of the file node sharing the
    /// anchor's file key. A non-anchor, an implicit anchor, a missing
    /// file node, and offsets that leave the text or split a character
    /// each fail with their own error, scoped to this query.
    pub fn resolve_anchor<'a>(&'a self, node: &Node) -> (r: Result<&'a str, ResolveAnchorErr>)
        requires
            self.wf(),
        ensures
            match r {
                Ok(sub) => self.spec_resolve_anchor(node@) == Ok::<Seq<u8>, ResolveAnchorErr>(
                    encode_utf8(sub@),
                ),
                Err(e) => self.spec_resolve_anchor(node@) == Err::<Seq<u8>, ResolveAnchorErr>(e),
            },
    {
        let pos = match &node.kind {
            NodeKind::Anchor(AnchorKind::Explicit(p)) => *p,
            NodeKind::Anchor(_) => {
                return Err(ResolveAnchorErr::NotExplicitAnchor);
            },
            _ => {
                return Err(ResolveAnchorErr::NotAnchor);
            },
        };
        proof {
            lemma_lookup_file(self.nodes_view(), node@.file_key);
        }
        let fidx = match self.get_file(&node.file_key) {
            Some(ix) => ix,
            None => {
                return Err(ResolveAnchorErr::FileNotFound);
            },
        };
        let fnode = self.get_node(fidx);
        let text = match &fnode.kind {
            NodeKind::File(t) => t,
            _ => {
                return Err(ResolveAnchorErr::FileNotFound);
            },
        };
        match slice_str(text.as_str(), pos.start, pos.end) {
            Some(sub) => Ok(sub),
            None => Err(ResolveAnchorErr::OutOfBounds),
        }
    }

    /// The distinct sources of `kind`-edges arriving at `index`, as a
    /// multiplicity: none, exactly one, or two or more.
    pub fn incoming(&self, kind: EdgeKind, index: NodeIndex) -> (r: NodeIndices)
        requires
            self.wf(),
        ensures
            match r {
                NodeIndices::Zero => forall|s: usize| self.edge_count(kind, s, index.0) == 0,
                NodeIndices::Sole(x) => self.edge_count(kind, x.0, index.0) > 0 && forall|s: usize|
                    s != x.0 ==> self.edge_count(kind, s, index.0) == 0,
                NodeIndices::Many(v) => v@.len() >= 2 && (forall|j: int|
                    0 <= j < v@.len() ==> self.edge_count(kind, (#[trigger] v@[j]).0, index.0) > 0)
                    && (forall|s: usize| self.edge_count(kind, s, index.0) > 0 ==> exists|j: int|
                        0 <= j < v@.len() && (#[trigger] v@[j]).0 == s) && (forall|j1: int, j2: int|
                    0 <= j1 < j2 < v@.len() ==> (#[trigger] v@[j1]).0 != (#[trigger] v@[j2]).0),
            },
    {
        let pairs = self.edges.incoming(kind, index.0);
        if pairs.len() == 0 {
            NodeIndices::Zero
        } else if pairs.len() == 1 {
            let x = NodeIndex(pairs[0].0);
            proof {
                assert forall|s: usize| s != x.0 implies self.edge_count(kind, s, index.0)
                    == 0 by {
                    if self.edges.count(kind, s, index.0) > 0 {
                        let j = choose|j: int|
                            0 <= j < pairs@.len() && (#[trigger] pairs@[j]).0 == s;
                    }
                }
            }
            NodeIndices::Sole(x)
        } else {
            let m = pairs.len();
            let mut v: Vec<NodeIndex> = Vec::new();
            let mut j: usize = 0;
            while j < m
                invariant
                    0 <= j <= m,
                    m == pairs@.len(),
                    v@.len() == j,
                    forall|x: int| 0 <= x < j ==> (#[trigger] v@[x]).0 == pairs@[x].0,
                decreases m - j,
            {
                v.push(NodeIndex(pairs[j].0));
                j = j + 1;
            }
            proof {
                assert forall|s: usize| self.edge_count(kind, s, index.0) > 0 implies exists|
                    x: int,
                |
                    0 <= x < v@.len() && (#[trigger] v@[x]).0 == s by {
                    let y = choose|y: int| 0 <= y < pairs@.len() && (#[trigger] pairs@[y]).0 == s;
                    assert(v@[y].0 == s);
                }
            }
            NodeIndices::Many(v)
        }
    }

    /// The distinct targets of `kind`-edges leaving `index`, as a
    /// multiplicity: none, exactly one, or two or more.
    pub fn outgoing(&self, kind: EdgeKind, index: NodeIndex) -> (r: NodeIndices)
        requires
            self.wf(),
        ensures
            match r {
                NodeIndices::Zero => forall|t: usize| self.edge_count(kind, index.0, t) == 0,
                NodeIndices::Sole(x) => self.edge_count(kind, index.0, x.0) > 0 && forall|t: usize|
                    t != x.0 ==> self.edge_count(kind, index.0, t) == 0,
                NodeIndices::Many(v) => v@.len() >= 2 && (forall|j: int|
                    0 <= j < v@.len() ==> self.edge_count(kind, index.0, (#[trigger] v@[j]).0) > 0)
                    && (forall|t: usize| self.edge_count(kind, index.0, t) > 0 ==> exists|j: int|
                        0 <= j < v@.len() && (#[trigger] v@[j]).0 == t) && (forall|j1: int, j2: int|
                    0 <= j1 < j2 < v@.len() ==> (#[trigger] v@[j1]).0 != (#[trigger] v@[j2]).0),
            },
    {
        let pairs = self.edges.outgoing(kind, index.0);
        if pairs.len() == 0 {
            NodeIndices::Zero
        } else if pairs.len() == 1 {
            let x = NodeIndex(pairs[0].0);
            proof {
                assert forall|t: usize| t != x.0 implies self.edge_count(kind, index.0, t)
                    == 0 by {
                    if self.edges.count(kind, index.0, t) > 0 {
                        let j = choose|j: int|
                            0 <= j < pairs@.len() && (#[trigger] pairs@[j]).0 == t;
                    }
                }
            }
            NodeIndices::Sole(x)
        } else {
            let m = pairs.len();
            let mut v: Vec<NodeIndex> = Vec::new();
            let mut j: usize = 0;
            while j < m
                invariant
                    0 <= j <= m,
                    m == pairs@.len(),
                    v@.len() == j,
                    forall|x: int| 0 <= x < j ==> (#[trigger] v@[x]).0 == pairs@[x].0,
                decreases m - j,
            {
                v.push(NodeIndex(pairs[j].0));
                j = j + 1;
            }
            proof {
                assert forall|t: usize| self.edge_count(kind, index.0, t) > 0 implies exists|
                    x: int,
                |
                    0 <= x < v@.len() && (#[trigger] v@[x]).0 == t by {
                    let y = choose|y: int| 0 <= y < pairs@.len() && (#[trigger] pairs@[y]).0 == t;
                    assert(v@[y].0 == t);
                }
            }
            NodeIndices::Many(v)
        }
    }

    /// The sole incoming binding anchor of a node. The query asks that
    /// the node has at most one binding; a node without one yields
    /// nothing.
    pub fn get_binding(&self, index: NodeIndex) -> (r: Option<NodeIndex>)
        requires
            self.wf(),
            forall|s1: usize, s2: usize|
                s1 != s2 ==> !(#[trigger] self.edge_count(EdgeKind::DefinesBinding, s1, index.0)
                    > 0 && #[trigger] self.edge_count(EdgeKind::DefinesBinding, s2, index.0) > 0),
        ensures
            match r {
                Some(x) => self.edge_count(EdgeKind::DefinesBinding, x.0, index.0) > 0,
                None => forall|s: usize| self.edge_count(EdgeKind::DefinesBinding, s, index.0) == 0,
            },
    {
        match self.incoming(EdgeKind::DefinesBinding, index) {
            NodeIndices::Zero => None,
            NodeIndices::Sole(x) => Some(x),
            NodeIndices::Many(v) => {
                proof {
                    assert(v@[0].0 != v@[1].0);
                    assert(self.edge_count(EdgeKind::DefinesBinding, v@[0].0, index.0) > 0);
                    assert(self.edge_count(EdgeKind::DefinesBinding, v@[1].0, index.0) > 0);
                }
                None
            },
        }
    }

    /// The sole parent of a node. The query asks that the node has at
    /// most one outgoing containment edge; a node without one yields
    /// nothing.
    pub fn get_parent(&self, index: NodeIndex) -> (r: Option<NodeIndex>)
        requires
            self.wf(),
            forall|t1: usize, t2: usize|
                t1 != t2 ==> !(#[trigger] self.edge_count(EdgeKind::Childof, index.0, t1) > 0
                    && #[trigger] self.edge_count(EdgeKind::Childof, index.0, t2) > 0),
        ensures
            match r {
                Some(x) => self.edge_count(EdgeKind::Childof, index.0, x.0) > 0,
                None => forall|t: usize| self.edge_count(EdgeKind::Childof, index.0, t) == 0,
            },
    {
        match self.outgoing(EdgeKind::Childof, index) {
            NodeIndices::Zero => None,
            NodeIndices::Sole(x) => Some(x),
            NodeIndices::Many(v) => {
                proof {
                    assert(v@[0].0 != v@[1].0);
                    assert(self.edge_count(EdgeKind::Childof, index.0, v@[0].0) > 0);
                    assert(self.edge_count(EdgeKind::Childof, index.0, v@[1].0) > 0);
                }
                None
            },
        }
    }

    /// The parents of a node in the graph's own order: the targets of its
    /// outgoing containment edges.
    pub closed spec fn spec_parents_seq(&self, index: NodeIndex) -> Seq<NodeIndex> {
        spec_kinded_out(self.edges.bags_view(), EdgeKind::Childof, index.0).map_values(
            |p: (usize, usize)| NodeIndex(p.0),
        )
    }

    /// All parents of a node: the distinct targets of its outgoing
    /// containment edges, order-independent and complete — a node may
    /// legally have zero, one, or many enclosing contexts.
    pub fn parents_of(&self, index: NodeIndex) -> (r: Vec<NodeIndex>)
        requires
            self.wf(),
        ensures
            r@ == self.spec_parents_seq(index),
            forall|j: int|
                0 <= j < r@.len() ==> self.edge_count(
                    EdgeKind::Childof,
                    index.0,
                    (#[trigger] r@[j]).0,
                ) > 0,
            forall|t: usize|
                self.edge_count(EdgeKind::Childof, index.0, t) > 0 ==> exists|j: int|
                    0 <= j < r@.len() && (#[trigger] r@[j]).0 == t,
            forall|j1: int, j2: int|
                0 <= j1 < j2 < r@.len() ==> (#[trigger] r@[j1]).0 != (#[trigger] r@[j2]).0,
    {
        let pairs = self.edges.outgoing(EdgeKind::Childof, index.0);
        let m = pairs.len();
        let mut v: Vec<NodeIndex> = Vec::new();
        let mut j: usize = 0;
        while j < m
            invariant
                0 <= j <= m,
                m == pairs@.len(),
                v@.len() == j,
                forall|x: int| 0 <= x < j ==> (#[trigger] v@[x]) == NodeIndex(pairs@[x].0),
            decreases m - j,
        {
            v.push(NodeIndex(pairs[j].0));
            j = j + 1;
        }
        proof {
            assert(v@ =~= pairs@.map_values(|p: (usize, usize)| NodeIndex(p.0)));
            assert forall|t: usize|
                self.edge_count(EdgeKind::Childof, index.0, t) > 0 implies exists|x: int|
                0 <= x < v@.len() && (#[trigger] v@[x]).0 == t by {
                let y = choose|y: int| 0 <= y < pairs@.len() && (#[trigger] pairs@[y]).0 == t;
                assert(v@[y].0 == t);
            }
        }
        v
    }

    /// Every edge of the graph as a `(kind, src, tgt, count)` record:
    /// sound, complete, and free of repeated keys.
    pub fn iter(&self) -> (r: Vec<(EdgeKind, NodeIndex, NodeIndex, usize)>)
        requires
            self.wf(),
        ensures
            forall|q: int|
                0 <= q < r@.len() ==> self.edge_count(
                    (#[trigger] r@[q]).0,
                    r@[q].1.0,
                    r@[q].2.0,
                ) == r@[q].3 as nat && r@[q].3 >= 1,
            forall|k: EdgeKind, a: usize, b: usize|
                self.edge_count(k, a, b) > 0 ==> exists|q: int|
                    0 <= q < r@.len() && (#[trigger] r@[q]).0 == k && r@[q].1.0 == a && r@[q].2.0
                        == b,
            forall|q1: int, q2: int|
                0 <= q1 < q2 < r@.len() ==> !((#[trigger] r@[q1]).0 == (#[trigger] r@[q2]).0
                    && r@[q1].1 == r@[q2].1 && r@[q1].2 == r@[q2].2),
    {
        let quads = self.edges.iter();
        let m = quads.len();
        let mut v: Vec<(EdgeKind, NodeIndex, NodeIndex, usize)> = Vec::new();
        let mut j: usize = 0;
        while j < m
            invariant
                0 <= j <= m,
                m == quads@.len(),
                v@.len() == j,
                forall|x: int|
                    0 <= x < j ==> (#[trigger] v@[x]) == (
                        quads@[x].0,
                        NodeIndex(quads@[x].1),
                        NodeIndex(quads@[x].2),
                        quads@[x].3,
                    ),
            decreases m - j,
        {
            let (k, a, b, c) = quads[j];
            v.push((k, NodeIndex(a), NodeIndex(b), c));
            j = j + 1;
        }
        proof {
            assert forall|k: EdgeKind, a: usize, b: usize|
                self.edge_count(k, a, b) > 0 implies exists|q: int|
                0 <= q < v@.len() && (#[trigger] v@[q]).0 == k && v@[q].1.0 == a && v@[q].2.0
                    == b by {
                let y = choose|y: int|
                    0 <= y < quads@.len() && (#[trigger] quads@[y]).0 == k && quads@[y].1 == a
                        && quads@[y].2 == b;
                assert(v@[y] == (quads@[y].0, NodeIndex(quads@[y].1), NodeIndex(quads@[y].2), quads@[y].3));
            }
        }
        v
    }
}

} // verus!

