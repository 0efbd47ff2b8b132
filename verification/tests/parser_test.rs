use kythe_graph::edge_kind::{parse_edge_kind, EdgeKind};
use kythe_graph::errors::IntoSpecErr;
use kythe_graph::node_kind::{
    parse_complete, parse_function_kind, parse_lang, parse_variable_kind, CompleteStatus,
    FunctionKind, Lang, VariableKind,
};
use kythe_graph::strutil::{parse_u8, parse_usize, str_eq, strip_prefix};

#[test]
fn edge_kinds_parse_into_the_closed_vocabulary() {
    assert_eq!(parse_edge_kind("/kythe/edge/childof"), Ok(EdgeKind::Childof));
    assert_eq!(parse_edge_kind("/kythe/edge/defines/binding"), Ok(EdgeKind::DefinesBinding));
    assert_eq!(parse_edge_kind("/kythe/edge/ref/call/implicit"), Ok(EdgeKind::RefCallImplicit));
    assert_eq!(parse_edge_kind("/kythe/edge/undefines"), Ok(EdgeKind::Undefines));
    assert_eq!(parse_edge_kind("/kythe/edge/param.7"), Ok(EdgeKind::Param(7)));
    assert_eq!(parse_edge_kind("/kythe/edge/param.255"), Ok(EdgeKind::Param(255)));
}

#[test]
fn unknown_edge_kinds_fail_loudly() {
    assert_eq!(
        parse_edge_kind("/kythe/edge/telepathy"),
        Err(IntoSpecErr::UnknownEdgeKind("/kythe/edge/telepathy".to_string()))
    );
    assert_eq!(parse_edge_kind("/kythe/edge/param.x"), Err(IntoSpecErr::ExpectedInt));
    assert_eq!(parse_edge_kind("/kythe/edge/param."), Err(IntoSpecErr::ExpectedInt));
    assert_eq!(parse_edge_kind("/kythe/edge/param.300"), Err(IntoSpecErr::ExpectedInt));
}

#[test]
fn languages_parse_with_unspecified_default() {
    assert_eq!(parse_lang(&Some("c++".to_string())), Ok(Lang::Cpp));
    assert_eq!(parse_lang(&Some("java".to_string())), Ok(Lang::Java));
    assert_eq!(parse_lang(&None), Ok(Lang::Unspecified));
    assert_eq!(
        parse_lang(&Some("go".to_string())),
        Err(IntoSpecErr::UnknownLang("go".to_string()))
    );
}

#[test]
fn complete_status_requires_the_fact() {
    assert_eq!(parse_complete(&Some("incomplete".to_string())), Ok(CompleteStatus::Incomplete));
    assert_eq!(parse_complete(&Some("complete".to_string())), Ok(CompleteStatus::Complete));
    assert_eq!(parse_complete(&Some("definition".to_string())), Ok(CompleteStatus::Definition));
    assert_eq!(
        parse_complete(&Some("done".to_string())),
        Err(IntoSpecErr::UnknownComplete("done".to_string()))
    );
    assert_eq!(parse_complete(&None), Err(IntoSpecErr::MissingFact("/kythe/complete")));
}

#[test]
fn variable_and_function_subkinds_parse() {
    assert_eq!(
        parse_variable_kind(&Some("local/parameter".to_string())),
        Ok(VariableKind::LocalParam)
    );
    assert_eq!(parse_variable_kind(&None), Ok(VariableKind::Unspecified));
    assert_eq!(
        parse_variable_kind(&Some("global".to_string())),
        Err(IntoSpecErr::UnknownVariableKind("global".to_string()))
    );
    assert_eq!(
        parse_function_kind(&Some("initializer".to_string())),
        Ok(FunctionKind::Constructor)
    );
    assert_eq!(parse_function_kind(&Some("none".to_string())), Ok(FunctionKind::Unspecified));
    assert_eq!(
        parse_function_kind(&Some("finalizer".to_string())),
        Err(IntoSpecErr::UnknownFunctionKind("finalizer".to_string()))
    );
}

#[test]
fn decimal_parsing_is_exact() {
    assert_eq!(parse_usize("0"), Some(0));
    assert_eq!(parse_usize("317"), Some(317));
    assert_eq!(parse_usize(""), None);
    assert_eq!(parse_usize("3a"), None);
    assert_eq!(parse_usize("-3"), None);
    assert_eq!(parse_usize("99999999999999999999999999999"), None);
    assert_eq!(parse_u8("255"), Some(255));
    assert_eq!(parse_u8("256"), None);
}

#[test]
fn string_helpers_compare_by_characters() {
    assert!(str_eq("abc", "abc"));
    assert!(!str_eq("abc", "abd"));
    assert_eq!(strip_prefix("/kythe/edge/param.9", "/kythe/edge/param."), Some("9"));
    assert_eq!(strip_prefix("/kythe/edge/ref", "/kythe/edge/param."), None);
}

#[test]
fn group_sizes_fold_into_buckets() {
    let buckets = kythe_graph::stats::size_buckets(&vec![(1, 4), (2, 3), (2, 1), (4, 2), (9, 5)]);
    assert_eq!(buckets.n_1, 4);
    assert_eq!(buckets.n_2, 4);
    assert_eq!(buckets.n_3, 0);
    assert_eq!(buckets.n_4, 2);
    assert_eq!(buckets.n_5_plus, 5);
}
