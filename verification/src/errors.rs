//! Error taxonomy of the graph compiler: vocabulary and language errors that
//! abort compilation, and per-query resolution errors.

use vstd::prelude::*;
use crate::node_kind::Lang;
use crate::ticket::NodeIndex;

verus! {

/// A failure to compile raw facts into the typed graph. Vocabulary errors
/// carry the string that was not recognized; `InvalidBase64` reports a
/// fact value that is not base64; `SequencingErr` wraps an inner failure
/// with the index of the node it arose on.
#[derive(Debug, PartialEq, Eq)]
pub enum IntoSpecErr {
    UnknownAnchorKind(String),
    UnknownEdgeKind(String),
    UnknownFactName(String),
    UnknownFunctionKind(String),
    UnknownRecordKind(Lang, String),
    UnknownSumKind(Lang, String),
    UnknownVariableKind(String),
    UnknownComplete(String),
    UnknownNodeKind(String),
    UnknownLang(String),
    MissingFact(&'static str),
    MissingLang,
    ExpectedInt,
    InvalidBase64,
    SequencingErr(NodeIndex, Box<IntoSpecErr>),
}

/// Mathematical image of a compilation failure: each string replaced by
/// its character sequence.
pub ghost enum ErrView {
    UnknownAnchorKind(Seq<char>),
    UnknownEdgeKind(Seq<char>),
    UnknownFactName(Seq<char>),
    UnknownFunctionKind(Seq<char>),
    UnknownRecordKind(Lang, Seq<char>),
    UnknownSumKind(Lang, Seq<char>),
    UnknownVariableKind(Seq<char>),
    UnknownComplete(Seq<char>),
    UnknownNodeKind(Seq<char>),
    UnknownLang(Seq<char>),
    MissingFact(Seq<char>),
    MissingLang,
    ExpectedInt,
    InvalidBase64,
    SequencingErr(NodeIndex, Box<ErrView>),
}

impl View for IntoSpecErr {
    type V = ErrView;

    open spec fn view(&self) -> ErrView
        decreases self,
    {
        match self {
            IntoSpecErr::UnknownAnchorKind(s) => ErrView::UnknownAnchorKind(s@),
            IntoSpecErr::UnknownEdgeKind(s) => ErrView::UnknownEdgeKind(s@),
            IntoSpecErr::UnknownFactName(s) => ErrView::UnknownFactName(s@),
            IntoSpecErr::UnknownFunctionKind(s) => ErrView::UnknownFunctionKind(s@),
            IntoSpecErr::UnknownRecordKind(l, s) => ErrView::UnknownRecordKind(*l, s@),
            IntoSpecErr::UnknownSumKind(l, s) => ErrView::UnknownSumKind(*l, s@),
            IntoSpecErr::UnknownVariableKind(s) => ErrView::UnknownVariableKind(s@),
            IntoSpecErr::UnknownComplete(s) => ErrView::UnknownComplete(s@),
            IntoSpecErr::UnknownNodeKind(s) => ErrView::UnknownNodeKind(s@),
            IntoSpecErr::UnknownLang(s) => ErrView::UnknownLang(s@),
            IntoSpecErr::MissingFact(s) => ErrView::MissingFact(s@),
            IntoSpecErr::MissingLang => ErrView::MissingLang,
            IntoSpecErr::ExpectedInt => ErrView::ExpectedInt,
            IntoSpecErr::InvalidBase64 => ErrView::InvalidBase64,
            IntoSpecErr::SequencingErr(i, b) => ErrView::SequencingErr(*i, Box::new((**b)@)),
        }
    }
}

/// Historical name of the compilation failure type.
pub type ParseErr = IntoSpecErr;

/// A failure to resolve the text span of one anchor node. Scoped to the
/// query that raised it; other queries are unaffected.
#[derive(Debug, PartialEq, Eq)]
pub enum ResolveAnchorErr {
    NotAnchor,
    NotExplicitAnchor,
    FileNotFound,
    OutOfBounds,
}

/// A failure to project one node into an entity record.
#[derive(Debug, PartialEq, Eq)]
pub enum IntoEntityErr {
    NoBindingFound,
    ManyBindingsFound,
    NoParentFound,
    ManyParentsFound,
    FileNotRoot,
    MissingPath,
    InvalidBinding(ResolveAnchorErr),
}

} // verus!
