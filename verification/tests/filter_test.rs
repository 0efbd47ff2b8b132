use kythe_graph::path_filtering::{
    EntryPathFilter, MiniEntryDto, PathPattern, PathedStrategy, PatternList, UnpathedStrategy,
};
use kythe_graph::ticket::Ticket;
use kythe_graph::util::collapse;

fn pathed_ticket(path: Option<&str>) -> Ticket {
    Ticket {
        corpus: None,
        language: None,
        path: path.map(|s| s.to_string()),
        root: None,
        signature: None,
    }
}

#[test]
fn glob_patterns_really_match() {
    let p = PathPattern::compile("src/**/*.cc").unwrap();
    assert!(p.matches("src/a/b/c.cc"));
    assert!(!p.matches("src/a/b/c.h"));
    assert!(PathPattern::compile("a[").is_none());
}

#[test]
fn pattern_lists_match_disjunctively() {
    let pl = PatternList::new(&vec!["*.cc".to_string(), "*.h".to_string()]).unwrap();
    assert!(pl.matches("a.cc"));
    assert!(pl.matches("a.h"));
    assert!(!pl.matches("a.java"));
    assert!(PatternList::new(&vec!["ok".to_string(), "bad[".to_string()]).is_err());
}

#[test]
fn entry_filter_applies_both_strategies() {
    let pl = PatternList::new(&vec!["*.cc".to_string()]).unwrap();
    let filter = EntryPathFilter::new(PathedStrategy::Only(pl), UnpathedStrategy::Exclude);

    let kept = MiniEntryDto {
        src: pathed_ticket(Some("a.cc")),
        tgt: Some(pathed_ticket(Some("b.cc"))),
    };
    assert!(filter.is_valid_entry(&kept));

    let wrong_target = MiniEntryDto {
        src: pathed_ticket(Some("a.cc")),
        tgt: Some(pathed_ticket(Some("b.rs"))),
    };
    assert!(!filter.is_valid_entry(&wrong_target));

    let unpathed = MiniEntryDto { src: pathed_ticket(None), tgt: None };
    assert!(!filter.is_valid_entry(&unpathed));

    let include_all = EntryPathFilter::new(PathedStrategy::Include, UnpathedStrategy::Include);
    assert!(include_all.is_valid_entry(&unpathed));

    let exclude_pathed = EntryPathFilter::new(PathedStrategy::Exclude, UnpathedStrategy::Include);
    assert!(!exclude_pathed.is_valid_path(Some(&"x".to_string())));
    assert!(exclude_pathed.is_valid_path(None));
}

#[test]
fn collapse_takes_the_first_present_value() {
    assert_eq!(collapse(vec![None, Some(3), None, Some(5)]), Some(3));
    assert_eq!(collapse::<u32>(vec![None, None]), None);
    assert_eq!(collapse::<u32>(vec![]), None);
}
