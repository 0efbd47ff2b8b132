use kythe_graph::exclusion::{
    any_excluded, EdgeExclusionKind, EntryExclusionRule, PathGlob, PathKind, TicketExclusionRule,
};
use kythe_graph::path_filtering::MiniEntryDto;
use kythe_graph::ticket::Ticket;

fn pathed_ticket(path: Option<&str>) -> Ticket {
    Ticket {
        corpus: None,
        language: None,
        path: path.map(|s| s.to_string()),
        root: None,
        signature: None,
    }
}

fn edge(src: Option<&str>, tgt: Option<&str>) -> MiniEntryDto {
    MiniEntryDto { src: pathed_ticket(src), tgt: Some(pathed_ticket(tgt)) }
}

fn node(src: Option<&str>) -> MiniEntryDto {
    MiniEntryDto { src: pathed_ticket(src), tgt: None }
}

#[test]
fn path_kind_classifies_paths() {
    assert_eq!(PathKind::of(None), PathKind::NilPathed);
    assert_eq!(PathKind::of(Some(&"/abs/a.cc".to_string())), PathKind::AbsPathed);
    assert_eq!(PathKind::of(Some(&"rel/a.cc".to_string())), PathKind::RelPathed);
    assert_eq!(PathKind::of(Some(&"".to_string())), PathKind::RelPathed);
}

#[test]
fn exclusion_kind_comes_from_one_flag() {
    assert_eq!(EdgeExclusionKind::from_bools(true, false, false, false), Some(EdgeExclusionKind::Any));
    assert_eq!(EdgeExclusionKind::from_bools(false, true, false, false), Some(EdgeExclusionKind::All));
    assert_eq!(EdgeExclusionKind::from_bools(false, false, true, false), Some(EdgeExclusionKind::Src));
    assert_eq!(EdgeExclusionKind::from_bools(false, false, false, true), Some(EdgeExclusionKind::Tgt));
    assert_eq!(EdgeExclusionKind::from_bools(false, false, false, false), None);
}

#[test]
fn nilpathed_rules_look_at_the_right_endpoints() {
    let rule = |kind| EntryExclusionRule {
        kind,
        ticket_rule: TicketExclusionRule::ByPathKind(PathKind::NilPathed),
        keep_nodes: false,
    };
    let mixed = edge(Some("a.cc"), None);
    assert!(rule(EdgeExclusionKind::Any).is_excluded(&mixed));
    assert!(!rule(EdgeExclusionKind::All).is_excluded(&mixed));
    assert!(!rule(EdgeExclusionKind::Src).is_excluded(&mixed));
    assert!(rule(EdgeExclusionKind::Tgt).is_excluded(&mixed));

    let both = edge(None, None);
    assert!(rule(EdgeExclusionKind::All).is_excluded(&both));
}

#[test]
fn node_entries_follow_keep_nodes() {
    let dropper = EntryExclusionRule {
        kind: EdgeExclusionKind::Any,
        ticket_rule: TicketExclusionRule::ByPathKind(PathKind::NilPathed),
        keep_nodes: false,
    };
    let keeper = EntryExclusionRule {
        kind: EdgeExclusionKind::Any,
        ticket_rule: TicketExclusionRule::ByPathKind(PathKind::NilPathed),
        keep_nodes: true,
    };
    assert!(dropper.is_excluded(&node(None)));
    assert!(!keeper.is_excluded(&node(None)));
    assert!(!dropper.is_excluded(&node(Some("a.cc"))));
}

#[test]
fn pattern_rule_excludes_non_matching_paths() {
    let glob = PathGlob::compile("**/*.cc").unwrap();
    assert!(glob.is_match("x/y.cc"));
    assert!(!glob.is_match("x/y.rs"));
    assert!(PathGlob::compile("a{").is_none());

    let rule = EntryExclusionRule {
        kind: EdgeExclusionKind::Any,
        ticket_rule: TicketExclusionRule::ByPattern(PathGlob::compile("**/*.cc").unwrap()),
        keep_nodes: false,
    };
    assert!(!rule.is_excluded(&edge(Some("x/a.cc"), Some("y/b.cc"))));
    assert!(rule.is_excluded(&edge(Some("x/a.cc"), Some("y/b.rs"))));
    assert!(!rule.is_excluded(&node(None)));
}

#[test]
fn pathlist_rule_keeps_listed_paths() {
    let rule = EntryExclusionRule {
        kind: EdgeExclusionKind::Any,
        ticket_rule: TicketExclusionRule::ByPathList(vec!["a.cc".to_string(), "b.cc".to_string()]),
        keep_nodes: false,
    };
    assert!(!rule.is_excluded(&edge(Some("a.cc"), Some("b.cc"))));
    assert!(rule.is_excluded(&edge(Some("a.cc"), Some("c.cc"))));
}

#[test]
fn any_rule_suffices_to_exclude() {
    let rules = vec![
        EntryExclusionRule {
            kind: EdgeExclusionKind::Any,
            ticket_rule: TicketExclusionRule::ByPathKind(PathKind::NilPathed),
            keep_nodes: false,
        },
        EntryExclusionRule {
            kind: EdgeExclusionKind::Any,
            ticket_rule: TicketExclusionRule::ByPathKind(PathKind::AbsPathed),
            keep_nodes: false,
        },
    ];
    assert!(any_excluded(&rules, &edge(Some("a.cc"), None)));
    assert!(any_excluded(&rules, &edge(Some("/abs.cc"), Some("b.cc"))));
    assert!(!any_excluded(&rules, &edge(Some("a.cc"), Some("b.cc"))));
    assert!(!any_excluded(&vec![], &node(None)));
}
