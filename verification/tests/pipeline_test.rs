use kythe_graph::entity::{project, Dep, EntityGraph};
use kythe_graph::edge_kind::EdgeKind;
use kythe_graph::errors::{IntoEntityErr, IntoSpecErr, ResolveAnchorErr};
use kythe_graph::node_kind::{CompleteStatus, CppRecordKind, Lang, NodeKind, RecordKind};
use kythe_graph::raw_graph::{Entry, RawGraph};
use kythe_graph::spec_graph::SpecGraph;
use kythe_graph::ticket::{NodeIndex, Ticket};

fn ticket(language: Option<&str>, path: Option<&str>, signature: Option<&str>) -> Ticket {
    Ticket {
        corpus: Some("corpus".to_string()),
        language: language.map(|s| s.to_string()),
        path: path.map(|s| s.to_string()),
        root: None,
        signature: signature.map(|s| s.to_string()),
    }
}

fn node_fact(src: &Ticket, name: &str, value: &str) -> Entry {
    Entry::Node {
        src: src.clone(),
        fact_name: format!("/kythe/{}", name),
        fact_value: Some(base64::encode(value)),
    }
}

fn edge(src: &Ticket, tgt: &Ticket, kind: &str) -> Entry {
    Entry::Edge {
        src: src.clone(),
        tgt: tgt.clone(),
        edge_kind: format!("/kythe/edge/{}", kind),
        fact_name: "/".to_string(),
        fact_value: None,
    }
}

#[test]
fn reserve_is_idempotent_with_dense_indices() {
    let mut graph = RawGraph::new();
    let a = ticket(None, Some("a.cc"), Some("a"));
    let b = ticket(None, Some("a.cc"), Some("b"));
    let ia = graph.reserve(a.clone());
    let ib = graph.reserve(b.clone());
    let ia2 = graph.reserve(a.clone());
    let ib2 = graph.reserve(b);
    assert_eq!(ia, NodeIndex(0));
    assert_eq!(ib, NodeIndex(1));
    assert_eq!(ia, ia2);
    assert_eq!(ib, ib2);
    assert_eq!(graph.len(), 2);
    let ic = graph.reserve(ticket(None, Some("a.cc"), Some("c")));
    assert_eq!(ic, NodeIndex(2));
}

#[test]
fn duplicate_edges_count_through_projection() {
    let f = ticket(None, Some("a.cc"), None);
    let a = ticket(None, Some("a.cc"), Some("a"));
    let b = ticket(None, Some("a.cc"), Some("b"));
    let entries = vec![
        node_fact(&f, "node/kind", "file"),
        node_fact(&f, "text", "xyz"),
        node_fact(&a, "node/kind", "macro"),
        node_fact(&b, "node/kind", "macro"),
        edge(&a, &b, "ref/call"),
        edge(&a, &b, "ref/call"),
        edge(&a, &b, "ref/call"),
        edge(&b, &a, "childof"),
    ];
    let raw = RawGraph::from_entries(entries).unwrap();
    let graph = SpecGraph::compile(&raw).unwrap();
    let eg = project(&graph).unwrap();
    assert!(eg.deps.contains(&Dep {
        src: NodeIndex(1),
        tgt: NodeIndex(2),
        kind: EdgeKind::RefCall,
        count: 3,
    }));
    assert!(eg.deps.contains(&Dep {
        src: NodeIndex(2),
        tgt: NodeIndex(1),
        kind: EdgeKind::Childof,
        count: 1,
    }));
    assert_eq!(eg.deps.len(), 2);
}

#[test]
fn anchor_resolves_to_byte_span() {
    let f = ticket(None, Some("a.cc"), None);
    let anchor = ticket(None, Some("a.cc"), Some("anchor1"));
    let entries = vec![
        node_fact(&f, "node/kind", "file"),
        node_fact(&f, "text", "int foo = 1;"),
        node_fact(&anchor, "node/kind", "anchor"),
        node_fact(&anchor, "loc/start", "3"),
        node_fact(&anchor, "loc/end", "7"),
    ];
    let raw = RawGraph::from_entries(entries).unwrap();
    let graph = SpecGraph::compile(&raw).unwrap();
    let node = graph.get_node(NodeIndex(1));
    assert_eq!(graph.resolve_anchor(node), Ok(" foo"));
}

#[test]
fn anchor_out_of_bounds_is_an_error() {
    let f = ticket(None, Some("a.cc"), None);
    let anchor = ticket(None, Some("a.cc"), Some("anchor1"));
    let entries = vec![
        node_fact(&f, "node/kind", "file"),
        node_fact(&f, "text", "short"),
        node_fact(&anchor, "node/kind", "anchor"),
        node_fact(&anchor, "loc/start", "3"),
        node_fact(&anchor, "loc/end", "700"),
    ];
    let raw = RawGraph::from_entries(entries).unwrap();
    let graph = SpecGraph::compile(&raw).unwrap();
    let node = graph.get_node(NodeIndex(1));
    assert_eq!(graph.resolve_anchor(node), Err(ResolveAnchorErr::OutOfBounds));
}

#[test]
fn anchor_without_file_is_an_error() {
    let anchor = ticket(None, Some("lost.cc"), Some("anchor1"));
    let entries = vec![
        node_fact(&anchor, "node/kind", "anchor"),
        node_fact(&anchor, "loc/start", "0"),
        node_fact(&anchor, "loc/end", "1"),
    ];
    let raw = RawGraph::from_entries(entries).unwrap();
    let graph = SpecGraph::compile(&raw).unwrap();
    let node = graph.get_node(NodeIndex(0));
    assert_eq!(graph.resolve_anchor(node), Err(ResolveAnchorErr::FileNotFound));
}

#[test]
fn cpp_struct_compiles_and_java_struct_does_not() {
    let cpp = ticket(Some("c++"), Some("a.cc"), Some("s"));
    let entries = vec![
        node_fact(&cpp, "node/kind", "record"),
        node_fact(&cpp, "complete", "complete"),
        node_fact(&cpp, "subkind", "struct"),
    ];
    let raw = RawGraph::from_entries(entries).unwrap();
    let graph = SpecGraph::compile(&raw).unwrap();
    assert_eq!(
        graph.get_node(NodeIndex(0)).kind,
        NodeKind::Record(CompleteStatus::Complete, RecordKind::Cpp(CppRecordKind::Struct))
    );

    let java = ticket(Some("java"), Some("A.java"), Some("s"));
    let entries = vec![
        node_fact(&java, "node/kind", "record"),
        node_fact(&java, "complete", "complete"),
        node_fact(&java, "subkind", "struct"),
    ];
    let raw = RawGraph::from_entries(entries).unwrap();
    match SpecGraph::compile(&raw) {
        Err(IntoSpecErr::SequencingErr(idx, inner)) => {
            assert_eq!(idx, NodeIndex(0));
            assert_eq!(*inner, IntoSpecErr::UnknownRecordKind(Lang::Java, "struct".to_string()));
        }
        _ => panic!("expected a record-kind error"),
    }
}

#[test]
fn record_without_language_is_missing_lang() {
    let t = ticket(None, Some("a.cc"), Some("s"));
    let entries = vec![
        node_fact(&t, "node/kind", "record"),
        node_fact(&t, "complete", "complete"),
        node_fact(&t, "subkind", "class"),
    ];
    let raw = RawGraph::from_entries(entries).unwrap();
    match SpecGraph::compile(&raw) {
        Err(IntoSpecErr::SequencingErr(idx, inner)) => {
            assert_eq!(idx, NodeIndex(0));
            assert_eq!(*inner, IntoSpecErr::MissingLang);
        }
        _ => panic!("expected a missing-language error"),
    }
}

fn binding_entries(n_bindings: usize) -> Vec<Entry> {
    let f = ticket(None, Some("a.cc"), None);
    let var = ticket(None, Some("a.cc"), Some("v"));
    let mut entries = vec![
        node_fact(&f, "node/kind", "file"),
        node_fact(&f, "text", "foo bar"),
        node_fact(&var, "node/kind", "variable"),
        node_fact(&var, "complete", "definition"),
    ];
    for i in 0..n_bindings {
        let anchor = ticket(None, Some("a.cc"), Some(&format!("anchor{}", i)));
        entries.push(node_fact(&anchor, "node/kind", "anchor"));
        entries.push(node_fact(&anchor, "loc/start", "0"));
        entries.push(node_fact(&anchor, "loc/end", "3"));
        entries.push(edge(&anchor, &var, "defines/binding"));
    }
    entries
}

#[test]
fn entity_name_comes_from_the_sole_binding() {
    let raw = RawGraph::from_entries(binding_entries(1)).unwrap();
    let graph = SpecGraph::compile(&raw).unwrap();
    let eg = project(&graph).unwrap();
    assert_eq!(eg.entities[1].name, "foo");
}

#[test]
fn entity_name_without_binding_is_the_placeholder() {
    let raw = RawGraph::from_entries(binding_entries(0)).unwrap();
    let graph = SpecGraph::compile(&raw).unwrap();
    let eg = project(&graph).unwrap();
    assert_eq!(eg.entities[1].name, "???");
}

#[test]
fn two_bindings_are_ambiguous() {
    let raw = RawGraph::from_entries(binding_entries(2)).unwrap();
    let graph = SpecGraph::compile(&raw).unwrap();
    match project(&graph) {
        Err(e) => assert_eq!(e, IntoEntityErr::ManyBindingsFound),
        Ok(_) => panic!("expected an ambiguity error"),
    }
}

#[test]
fn parents_of_returns_both_parents_as_a_set() {
    let f = ticket(None, Some("a.cc"), None);
    let child = ticket(None, Some("a.cc"), Some("c"));
    let p1 = ticket(None, Some("a.cc"), Some("p1"));
    let p2 = ticket(None, Some("a.cc"), Some("p2"));
    let entries = vec![
        node_fact(&f, "node/kind", "file"),
        node_fact(&f, "text", "x"),
        node_fact(&child, "node/kind", "macro"),
        node_fact(&p1, "node/kind", "macro"),
        node_fact(&p2, "node/kind", "macro"),
        edge(&child, &p1, "childof"),
        edge(&child, &p2, "childof"),
    ];
    let raw = RawGraph::from_entries(entries).unwrap();
    let graph = SpecGraph::compile(&raw).unwrap();
    let parents = graph.parents_of(NodeIndex(1));
    assert_eq!(parents.len(), 2);
    assert!(parents.contains(&NodeIndex(2)));
    assert!(parents.contains(&NodeIndex(3)));
}

#[test]
fn projection_is_deterministic() {
    let raw = RawGraph::from_entries(binding_entries(1)).unwrap();
    let graph = SpecGraph::compile(&raw).unwrap();
    let eg1: EntityGraph = project(&graph).unwrap();
    let eg2: EntityGraph = project(&graph).unwrap();
    assert_eq!(eg1.entities, eg2.entities);
    assert_eq!(eg1.deps, eg2.deps);
    for w in eg1.deps.windows(2) {
        assert!(kythe_graph::entity::dep_le(&w[0], &w[1]));
    }
}

#[test]
fn unknown_fact_name_is_rejected() {
    let t = ticket(None, Some("a.cc"), Some("x"));
    let entries = vec![Entry::Node {
        src: t,
        fact_name: "/kythe/unheard/of".to_string(),
        fact_value: None,
    }];
    match RawGraph::from_entries(entries) {
        Err(e) => assert_eq!(e, IntoSpecErr::UnknownFactName("/kythe/unheard/of".to_string())),
        Ok(_) => panic!("expected a fact-name error"),
    }
}

#[test]
fn invalid_base64_is_rejected() {
    let t = ticket(None, Some("a.cc"), Some("x"));
    let entries = vec![Entry::Node {
        src: t,
        fact_name: "/kythe/text".to_string(),
        fact_value: Some("!!!not base64!!!".to_string()),
    }];
    match RawGraph::from_entries(entries) {
        Err(e) => assert_eq!(e, IntoSpecErr::InvalidBase64),
        Ok(_) => panic!("expected a decode error"),
    }
}

#[test]
fn invalid_utf8_decodes_lossily() {
    let t = ticket(None, Some("a.cc"), Some("x"));
    let entries = vec![
        node_fact(&t, "node/kind", "constant"),
        Entry::Node {
            src: t.clone(),
            fact_name: "/kythe/text".to_string(),
            fact_value: Some(base64::encode([0x66u8, 0xff, 0x66])),
        },
    ];
    let raw = RawGraph::from_entries(entries).unwrap();
    let graph = SpecGraph::compile(&raw).unwrap();
    assert_eq!(graph.get_node(NodeIndex(0)).kind, NodeKind::Constant("f\u{FFFD}f".to_string()));
}

#[test]
fn absent_fact_value_decodes_to_empty() {
    let t = ticket(None, Some("a.cc"), Some("x"));
    let entries = vec![
        Entry::Node {
            src: t.clone(),
            fact_name: "/kythe/node/kind".to_string(),
            fact_value: Some(base64::encode("doc")),
        },
        Entry::Node {
            src: t,
            fact_name: "/kythe/text".to_string(),
            fact_value: None,
        },
    ];
    let raw = RawGraph::from_entries(entries).unwrap();
    let graph = SpecGraph::compile(&raw).unwrap();
    assert_eq!(graph.get_node(NodeIndex(0)).kind, NodeKind::Doc(String::new()));
}

#[test]
fn unknown_language_is_rejected() {
    let t = ticket(Some("rust"), Some("a.rs"), Some("x"));
    let entries = vec![node_fact(&t, "node/kind", "macro")];
    let raw = RawGraph::from_entries(entries).unwrap();
    match SpecGraph::compile(&raw) {
        Err(IntoSpecErr::SequencingErr(_, inner)) => {
            assert_eq!(*inner, IntoSpecErr::UnknownLang("rust".to_string()));
        }
        _ => panic!("expected a language error"),
    }
}

#[test]
fn later_file_with_same_key_wins() {
    let f = ticket(None, Some("a.cc"), None);
    let f2 = ticket(None, Some("a.cc"), Some("dup"));
    let anchor = ticket(None, Some("a.cc"), Some("anchor1"));
    let entries = vec![
        node_fact(&f, "node/kind", "file"),
        node_fact(&f, "text", "first"),
        node_fact(&f2, "node/kind", "file"),
        node_fact(&f2, "text", "second"),
        node_fact(&anchor, "node/kind", "anchor"),
        node_fact(&anchor, "loc/start", "0"),
        node_fact(&anchor, "loc/end", "3"),
    ];
    let raw = RawGraph::from_entries(entries).unwrap();
    let graph = SpecGraph::compile(&raw).unwrap();
    let node = graph.get_node(NodeIndex(2));
    assert_eq!(graph.resolve_anchor(node), Ok("sec"));
}

#[test]
fn sole_binding_and_parent_are_found() {
    let f = ticket(None, Some("a.cc"), None);
    let child = ticket(None, Some("a.cc"), Some("c"));
    let parent = ticket(None, Some("a.cc"), Some("p"));
    let anchor = ticket(None, Some("a.cc"), Some("anchor0"));
    let entries = vec![
        node_fact(&f, "node/kind", "file"),
        node_fact(&f, "text", "foo"),
        node_fact(&child, "node/kind", "macro"),
        node_fact(&parent, "node/kind", "macro"),
        node_fact(&anchor, "node/kind", "anchor"),
        node_fact(&anchor, "loc/start", "0"),
        node_fact(&anchor, "loc/end", "3"),
        edge(&child, &parent, "childof"),
        edge(&anchor, &child, "defines/binding"),
    ];
    let raw = RawGraph::from_entries(entries).unwrap();
    let graph = SpecGraph::compile(&raw).unwrap();
    assert_eq!(graph.get_binding(NodeIndex(1)), Some(NodeIndex(3)));
    assert_eq!(graph.get_binding(NodeIndex(2)), None);
    assert_eq!(graph.get_parent(NodeIndex(1)), Some(NodeIndex(2)));
    assert_eq!(graph.get_parent(NodeIndex(2)), None);
    assert_eq!(
        kythe_graph::entity::entity_name(&graph, graph.get_node(NodeIndex(1))).unwrap(),
        "foo"
    );
}

#[test]
fn unknown_anchor_sum_and_node_kinds_are_rejected() {
    let t = ticket(None, Some("a.cc"), Some("x"));
    let entries = vec![
        node_fact(&t, "node/kind", "anchor"),
        node_fact(&t, "subkind", "strange"),
    ];
    let raw = RawGraph::from_entries(entries).unwrap();
    match SpecGraph::compile(&raw) {
        Err(IntoSpecErr::SequencingErr(_, inner)) => {
            assert_eq!(*inner, IntoSpecErr::UnknownAnchorKind("strange".to_string()));
        }
        _ => panic!("expected an anchor-kind error"),
    }

    let s = ticket(Some("java"), Some("A.java"), Some("y"));
    let entries = vec![
        node_fact(&s, "node/kind", "sum"),
        node_fact(&s, "complete", "complete"),
        node_fact(&s, "subkind", "enumClass"),
    ];
    let raw = RawGraph::from_entries(entries).unwrap();
    match SpecGraph::compile(&raw) {
        Err(IntoSpecErr::SequencingErr(_, inner)) => {
            assert_eq!(*inner, IntoSpecErr::UnknownSumKind(Lang::Java, "enumClass".to_string()));
        }
        _ => panic!("expected a sum-kind error"),
    }

    let u = ticket(None, Some("a.cc"), Some("z"));
    let entries = vec![node_fact(&u, "node/kind", "gizmo")];
    let raw = RawGraph::from_entries(entries).unwrap();
    match SpecGraph::compile(&raw) {
        Err(IntoSpecErr::SequencingErr(_, inner)) => {
            assert_eq!(*inner, IntoSpecErr::UnknownNodeKind("gizmo".to_string()));
        }
        _ => panic!("expected a node-kind error"),
    }
}

#[test]
fn resolving_a_non_anchor_and_an_implicit_anchor_fail_distinctly() {
    let f = ticket(None, Some("a.cc"), None);
    let m = ticket(None, Some("a.cc"), Some("m"));
    let imp = ticket(None, Some("a.cc"), Some("imp"));
    let entries = vec![
        node_fact(&f, "node/kind", "file"),
        node_fact(&f, "text", "body"),
        node_fact(&m, "node/kind", "macro"),
        node_fact(&imp, "node/kind", "anchor"),
        node_fact(&imp, "subkind", "implicit"),
    ];
    let raw = RawGraph::from_entries(entries).unwrap();
    let graph = SpecGraph::compile(&raw).unwrap();
    assert_eq!(graph.resolve_anchor(graph.get_node(NodeIndex(1))), Err(ResolveAnchorErr::NotAnchor));
    assert_eq!(
        graph.resolve_anchor(graph.get_node(NodeIndex(2))),
        Err(ResolveAnchorErr::NotExplicitAnchor)
    );
}

#[test]
fn implicit_binding_anchor_gives_the_implicit_placeholder() {
    let f = ticket(None, Some("a.cc"), None);
    let var = ticket(None, Some("a.cc"), Some("v"));
    let imp = ticket(None, Some("a.cc"), Some("imp"));
    let entries = vec![
        node_fact(&f, "node/kind", "file"),
        node_fact(&f, "text", "body"),
        node_fact(&var, "node/kind", "variable"),
        node_fact(&var, "complete", "definition"),
        node_fact(&imp, "node/kind", "anchor"),
        node_fact(&imp, "subkind", "implicit"),
        edge(&imp, &var, "defines/binding"),
    ];
    let raw = RawGraph::from_entries(entries).unwrap();
    let graph = SpecGraph::compile(&raw).unwrap();
    let eg = project(&graph).unwrap();
    assert_eq!(eg.entities[1].name, "?imp?");
}

#[test]
fn binding_anchor_out_of_bounds_is_an_invalid_binding() {
    let f = ticket(None, Some("a.cc"), None);
    let var = ticket(None, Some("a.cc"), Some("v"));
    let bad = ticket(None, Some("a.cc"), Some("bad"));
    let entries = vec![
        node_fact(&f, "node/kind", "file"),
        node_fact(&f, "text", "x"),
        node_fact(&var, "node/kind", "variable"),
        node_fact(&var, "complete", "definition"),
        node_fact(&bad, "node/kind", "anchor"),
        node_fact(&bad, "loc/start", "5"),
        node_fact(&bad, "loc/end", "9"),
        edge(&bad, &var, "defines/binding"),
    ];
    let raw = RawGraph::from_entries(entries).unwrap();
    let graph = SpecGraph::compile(&raw).unwrap();
    match project(&graph) {
        Err(e) => assert_eq!(e, IntoEntityErr::InvalidBinding(ResolveAnchorErr::OutOfBounds)),
        Ok(_) => panic!("expected an invalid-binding error"),
    }
}

#[test]
fn node_without_path_cannot_be_projected() {
    let t = Ticket {
        corpus: Some("corpus".to_string()),
        language: None,
        path: None,
        root: None,
        signature: Some("s".to_string()),
    };
    let entries = vec![node_fact(&t, "node/kind", "macro")];
    let raw = RawGraph::from_entries(entries).unwrap();
    let graph = SpecGraph::compile(&raw).unwrap();
    match project(&graph) {
        Err(e) => assert_eq!(e, IntoEntityErr::MissingPath),
        Ok(_) => panic!("expected a missing-path error"),
    }
}

#[test]
fn empty_fact_bag_compiles_to_the_empty_kind() {
    let a = ticket(None, Some("a.cc"), Some("a"));
    let b = ticket(None, Some("a.cc"), Some("b"));
    let entries = vec![
        node_fact(&a, "node/kind", "macro"),
        edge(&a, &b, "ref"),
    ];
    let raw = RawGraph::from_entries(entries).unwrap();
    let graph = SpecGraph::compile(&raw).unwrap();
    assert_eq!(graph.get_node(NodeIndex(1)).kind, NodeKind::Empty);
}
