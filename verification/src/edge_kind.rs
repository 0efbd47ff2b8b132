//! The closed edge-kind vocabulary and its parser from the external
//! edge-kind strings.

use vstd::prelude::*;
use crate::errors::IntoSpecErr;
use crate::strutil::{all_dec_digits, dec_val, has_prefix, parse_u8, str_eq, strip_prefix};

verus! {

/// One kind of typed edge between two nodes. `Param(n)` stands for the
/// numbered parameter edges.
#[derive(Copy, Clone, Debug, Default, PartialEq, Eq, Structural, Hash)]
pub enum EdgeKind {
    Aliases,
    AliasesRoot,
    Childof,
    ChildofContext,
    Completedby,
    Completes,
    CompletesUniquely,
    Defines,
    DefinesBinding,
    Documents,
    ExtendsPrivate,
    ExtendsProtected,
    ExtendsPublic,
    ExtendsPublicVirtual,
    Instantiates,
    InstantiatesSpeculative,
    Overrides,
    OverridesRoot,
    Param(u8),
    #[default]
    Ref,
    RefCall,
    RefCallImplicit,
    RefDoc,
    RefExpands,
    RefExpandsTransitive,
    RefId,
    RefImplicit,
    RefIncludes,
    RefInit,
    RefInitImplicit,
    RefQueries,
    RefWrites,
    RefWritesImplicit,
    Specializes,
    SpecializesSpeculative,
    Typed,
    Undefines,
}

/// Prefix of the numbered parameter edge kinds.
pub const PARAM_PREFIX: &'static str = "/kythe/edge/param.";

/// The edge kind an external edge-kind string denotes, or `None` where the
/// string lies outside the vocabulary.
pub open spec fn spec_edge_kind(s: Seq<char>) -> Option<EdgeKind> {
    if s == "/kythe/edge/aliases"@ {
        Some(EdgeKind::Aliases)
    } else if s == "/kythe/edge/aliases/root"@ {
        Some(EdgeKind::AliasesRoot)
    } else if s == "/kythe/edge/childof"@ {
        Some(EdgeKind::Childof)
    } else if s == "/kythe/edge/childof/context"@ {
        Some(EdgeKind::ChildofContext)
    } else if s == "/kythe/edge/completedby"@ {
        Some(EdgeKind::Completedby)
    } else if s == "/kythe/edge/completes"@ {
        Some(EdgeKind::Completes)
    } else if s == "/kythe/edge/completes/uniquely"@ {
        Some(EdgeKind::CompletesUniquely)
    } else if s == "/kythe/edge/defines"@ {
        Some(EdgeKind::Defines)
    } else if s == "/kythe/edge/defines/binding"@ {
        Some(EdgeKind::DefinesBinding)
    } else if s == "/kythe/edge/documents"@ {
        Some(EdgeKind::Documents)
    } else if s == "/kythe/edge/extends/private"@ {
        Some(EdgeKind::ExtendsPrivate)
    } else if s == "/kythe/edge/extends/protected"@ {
        Some(EdgeKind::ExtendsProtected)
    } else if s == "/kythe/edge/extends/public"@ {
        Some(EdgeKind::ExtendsPublic)
    } else if s == "/kythe/edge/extends/public/virtual"@ {
        Some(EdgeKind::ExtendsPublicVirtual)
    } else if s == "/kythe/edge/instantiates"@ {
        Some(EdgeKind::Instantiates)
    } else if s == "/kythe/edge/instantiates/speculative"@ {
        Some(EdgeKind::InstantiatesSpeculative)
    } else if s == "/kythe/edge/overrides"@ {
        Some(EdgeKind::Overrides)
    } else if s == "/kythe/edge/overrides/root"@ {
        Some(EdgeKind::OverridesRoot)
    } else if s == "/kythe/edge/ref"@ {
        Some(EdgeKind::Ref)
    } else if s == "/kythe/edge/ref/call"@ {
        Some(EdgeKind::RefCall)
    } else if s == "/kythe/edge/ref/call/implicit"@ {
        Some(EdgeKind::RefCallImplicit)
    } else if s == "/kythe/edge/ref/doc"@ {
        Some(EdgeKind::RefDoc)
    } else if s == "/kythe/edge/ref/expands"@ {
        Some(EdgeKind::RefExpands)
    } else if s == "/kythe/edge/ref/expands/transitive"@ {
        Some(EdgeKind::RefExpandsTransitive)
    } else if s == "/kythe/edge/ref/id"@ {
        Some(EdgeKind::RefId)
    } else if s == "/kythe/edge/ref/implicit"@ {
        Some(EdgeKind::RefImplicit)
    } else if s == "/kythe/edge/ref/includes"@ {
        Some(EdgeKind::RefIncludes)
    } else if s == "/kythe/edge/ref/init"@ {
        Some(EdgeKind::RefInit)
    } else if s == "/kythe/edge/ref/init/implicit"@ {
        Some(EdgeKind::RefInitImplicit)
    } else if s == "/kythe/edge/ref/queries"@ {
        Some(EdgeKind::RefQueries)
    } else if s == "/kythe/edge/ref/writes"@ {
        Some(EdgeKind::RefWrites)
    } else if s == "/kythe/edge/ref/writes/implicit"@ {
        Some(EdgeKind::RefWritesImplicit)
    } else if s == "/kythe/edge/specializes"@ {
        Some(EdgeKind::Specializes)
    } else if s == "/kythe/edge/specializes/speculative"@ {
        Some(EdgeKind::SpecializesSpeculative)
    } else if s == "/kythe/edge/typed"@ {
        Some(EdgeKind::Typed)
    } else if s == "/kythe/edge/undefines"@ {
        Some(EdgeKind::Undefines)
    } else if has_prefix(s, PARAM_PREFIX@) {
        let rest = s.subrange(PARAM_PREFIX@.len() as int, s.len() as int);
        if rest.len() > 0 && all_dec_digits(rest) && dec_val(rest) <= 255 {
            Some(EdgeKind::Param(dec_val(rest) as u8))
        } else {
            None
        }
    } else {
        None
    }
}

/// Parses an external edge-kind string into the closed vocabulary; strings
/// outside the vocabulary fail with `UnknownEdgeKind`, and a parameter edge
/// whose ordinal is not a number in range fails with `ExpectedInt`.
pub fn parse_edge_kind(s: &str) -> (r: Result<EdgeKind, IntoSpecErr>)
    ensures
        match r {
            Ok(k) => spec_edge_kind(s@) == Some(k),
            Err(e) => spec_edge_kind(s@) is None && match e {
                IntoSpecErr::ExpectedInt => has_prefix(s@, PARAM_PREFIX@),
                IntoSpecErr::UnknownEdgeKind(u) => u@ == s@ && !has_prefix(s@, PARAM_PREFIX@),
                _ => false,
            },
        },
{
    if str_eq(s, "/kythe/edge/aliases") {
        Ok(EdgeKind::Aliases)
    } else if str_eq(s, "/kythe/edge/aliases/root") {
        Ok(EdgeKind::AliasesRoot)
    } else if str_eq(s, "/kythe/edge/childof") {
        Ok(EdgeKind::Childof)
    } else if str_eq(s, "/kythe/edge/childof/context") {
        Ok(EdgeKind::ChildofContext)
    } else if str_eq(s, "/kythe/edge/completedby") {
        Ok(EdgeKind::Completedby)
    } else if str_eq(s, "/kythe/edge/completes") {
        Ok(EdgeKind::Completes)
    } else if str_eq(s, "/kythe/edge/completes/uniquely") {
        Ok(EdgeKind::CompletesUniquely)
    } else if str_eq(s, "/kythe/edge/defines") {
        Ok(EdgeKind::Defines)
    } else if str_eq(s, "/kythe/edge/defines/binding") {
        Ok(EdgeKind::DefinesBinding)
    } else if str_eq(s, "/kythe/edge/documents") {
        Ok(EdgeKind::Documents)
    } else if str_eq(s, "/kythe/edge/extends/private") {
        Ok(EdgeKind::ExtendsPrivate)
    } else if str_eq(s, "/kythe/edge/extends/protected") {
        Ok(EdgeKind::ExtendsProtected)
    } else if str_eq(s, "/kythe/edge/extends/public") {
        Ok(EdgeKind::ExtendsPublic)
    } else if str_eq(s, "/kythe/edge/extends/public/virtual") {
        Ok(EdgeKind::ExtendsPublicVirtual)
    } else if str_eq(s, "/kythe/edge/instantiates") {
        Ok(EdgeKind::Instantiates)
    } else if str_eq(s, "/kythe/edge/instantiates/speculative") {
        Ok(EdgeKind::InstantiatesSpeculative)
    } else if str_eq(s, "/kythe/edge/overrides") {
        Ok(EdgeKind::Overrides)
    } else if str_eq(s, "/kythe/edge/overrides/root") {
        Ok(EdgeKind::OverridesRoot)
    } else if str_eq(s, "/kythe/edge/ref") {
        Ok(EdgeKind::Ref)
    } else if str_eq(s, "/kythe/edge/ref/call") {
        Ok(EdgeKind::RefCall)
    } else if str_eq(s, "/kythe/edge/ref/call/implicit") {
        Ok(EdgeKind::RefCallImplicit)
    } else if str_eq(s, "/kythe/edge/ref/doc") {
        Ok(EdgeKind::RefDoc)
    } else if str_eq(s, "/kythe/edge/ref/expands") {
        Ok(EdgeKind::RefExpands)
    } else if str_eq(s, "/kythe/edge/ref/expands/transitive") {
        Ok(EdgeKind::RefExpandsTransitive)
    } else if str_eq(s, "/kythe/edge/ref/id") {
        Ok(EdgeKind::RefId)
    } else if str_eq(s, "/kythe/edge/ref/implicit") {
        Ok(EdgeKind::RefImplicit)
    } else if str_eq(s, "/kythe/edge/ref/includes") {
        Ok(EdgeKind::RefIncludes)
    } else if str_eq(s, "/kythe/edge/ref/init") {
        Ok(EdgeKind::RefInit)
    } else if str_eq(s, "/kythe/edge/ref/init/implicit") {
        Ok(EdgeKind::RefInitImplicit)
    } else if str_eq(s, "/kythe/edge/ref/queries") {
        Ok(EdgeKind::RefQueries)
    } else if str_eq(s, "/kythe/edge/ref/writes") {
        Ok(EdgeKind::RefWrites)
    } else if str_eq(s, "/kythe/edge/ref/writes/implicit") {
        Ok(EdgeKind::RefWritesImplicit)
    } else if str_eq(s, "/kythe/edge/specializes") {
        Ok(EdgeKind::Specializes)
    } else if str_eq(s, "/kythe/edge/specializes/speculative") {
        Ok(EdgeKind::SpecializesSpeculative)
    } else if str_eq(s, "/kythe/edge/typed") {
        Ok(EdgeKind::Typed)
    } else if str_eq(s, "/kythe/edge/undefines") {
        Ok(EdgeKind::Undefines)
    } else {
        match strip_prefix(s, PARAM_PREFIX) {
            None => Err(IntoSpecErr::UnknownEdgeKind(s.to_owned())),
            Some(rest) => match parse_u8(rest) {
                None => Err(IntoSpecErr::ExpectedInt),
                Some(ordinal) => {
                    proof {
                        assert(s@.subrange(PARAM_PREFIX@.len() as int, s@.len() as int) == rest@);
                    }
                    Ok(EdgeKind::Param(ordinal))
                },
            },
        }
    }
}

/// Position of an edge kind in the canonical order of the vocabulary,
/// with the parameter ordinal as the low component.
pub open spec fn spec_edge_rank(k: EdgeKind) -> int {
    match k {
        EdgeKind::Aliases => 0int * 256,
        EdgeKind::AliasesRoot => 1int * 256,
        EdgeKind::Childof => 2int * 256,
        EdgeKind::ChildofContext => 3int * 256,
        EdgeKind::Completedby => 4int * 256,
        EdgeKind::Completes => 5int * 256,
        EdgeKind::CompletesUniquely => 6int * 256,
        EdgeKind::Defines => 7int * 256,
        EdgeKind::DefinesBinding => 8int * 256,
        EdgeKind::Documents => 9int * 256,
        EdgeKind::ExtendsPrivate => 10int * 256,
        EdgeKind::ExtendsProtected => 11int * 256,
        EdgeKind::ExtendsPublic => 12int * 256,
        EdgeKind::ExtendsPublicVirtual => 13int * 256,
        EdgeKind::Instantiates => 14int * 256,
        EdgeKind::InstantiatesSpeculative => 15int * 256,
        EdgeKind::Overrides => 16int * 256,
        EdgeKind::OverridesRoot => 17int * 256,
        EdgeKind::Param(n) => 18int * 256 + n,
        EdgeKind::Ref => 19int * 256,
        EdgeKind::RefCall => 20int * 256,
        EdgeKind::RefCallImplicit => 21int * 256,
        EdgeKind::RefDoc => 22int * 256,
        EdgeKind::RefExpands => 23int * 256,
        EdgeKind::RefExpandsTransitive => 24int * 256,
        EdgeKind::RefId => 25int * 256,
        EdgeKind::RefImplicit => 26int * 256,
        EdgeKind::RefIncludes => 27int * 256,
        EdgeKind::RefInit => 28int * 256,
        EdgeKind::RefInitImplicit => 29int * 256,
        EdgeKind::RefQueries => 30int * 256,
        EdgeKind::RefWrites => 31int * 256,
        EdgeKind::RefWritesImplicit => 32int * 256,
        EdgeKind::Specializes => 33int * 256,
        EdgeKind::SpecializesSpeculative => 34int * 256,
        EdgeKind::Typed => 35int * 256,
        EdgeKind::Undefines => 36int * 256,
    }
}

/// Two edge kinds with the same rank are the same kind.
pub proof fn lemma_edge_rank_injective(a: EdgeKind, b: EdgeKind)
    requires
        spec_edge_rank(a) == spec_edge_rank(b),
    ensures
        a == b,
{
}

impl EdgeKind {
    /// Rank of this kind in the canonical order of the vocabulary.
    pub fn rank(&self) -> (r: u16)
        ensures
            r == spec_edge_rank(*self),
    {
        match self {
            EdgeKind::Aliases => 0 * 256,
            EdgeKind::AliasesRoot => 1 * 256,
            EdgeKind::Childof => 2 * 256,
            EdgeKind::ChildofContext => 3 * 256,
            EdgeKind::Completedby => 4 * 256,
            EdgeKind::Completes => 5 * 256,
            EdgeKind::CompletesUniquely => 6 * 256,
            EdgeKind::Defines => 7 * 256,
            EdgeKind::DefinesBinding => 8 * 256,
            EdgeKind::Documents => 9 * 256,
            EdgeKind::ExtendsPrivate => 10 * 256,
            EdgeKind::ExtendsProtected => 11 * 256,
            EdgeKind::ExtendsPublic => 12 * 256,
            EdgeKind::ExtendsPublicVirtual => 13 * 256,
            EdgeKind::Instantiates => 14 * 256,
            EdgeKind::InstantiatesSpeculative => 15 * 256,
            EdgeKind::Overrides => 16 * 256,
            EdgeKind::OverridesRoot => 17 * 256,
            EdgeKind::Param(n) => 18 * 256 + (*n as u16),
            EdgeKind::Ref => 19 * 256,
            EdgeKind::RefCall => 20 * 256,
            EdgeKind::RefCallImplicit => 21 * 256,
            EdgeKind::RefDoc => 22 * 256,
            EdgeKind::RefExpands => 23 * 256,
            EdgeKind::RefExpandsTransitive => 24 * 256,
            EdgeKind::RefId => 25 * 256,
            EdgeKind::RefImplicit => 26 * 256,
            EdgeKind::RefIncludes => 27 * 256,
            EdgeKind::RefInit => 28 * 256,
            EdgeKind::RefInitImplicit => 29 * 256,
            EdgeKind::RefQueries => 30 * 256,
            EdgeKind::RefWrites => 31 * 256,
            EdgeKind::RefWritesImplicit => 32 * 256,
            EdgeKind::Specializes => 33 * 256,
            EdgeKind::SpecializesSpeculative => 34 * 256,
            EdgeKind::Typed => 35 * 256,
            EdgeKind::Undefines => 36 * 256,
        }
    }
}

} // verus!
