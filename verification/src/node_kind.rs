//! The closed node-kind taxonomy: language discriminants, completion
//! status, per-language record and sum sub-vocabularies, anchors, and the
//! compiler from a raw fact bag to a typed node kind.

use vstd::prelude::*;
use crate::errors::{ErrView, IntoSpecErr};
use crate::raw_node::{
    opt_deref,
    spec_bag_is_empty,
    RawNodeValue,
    RawNodeView,
    FACT_COMPLETE,
    FACT_LOC_END,
    FACT_LOC_START,
    FACT_NODE_KIND,
    FACT_SUBKIND,
    FACT_TEXT,
};
use crate::strutil::{all_dec_digits, dec_val, parse_usize, str_eq};

verus! {

/// Source language a node's sub-vocabularies are dispatched on, derived
/// from the ticket's language field.
#[derive(Copy, Clone, Debug, PartialEq, Eq, Structural, Hash)]
pub enum Lang {
    Cpp,
    Java,
    Unspecified,
}

/// The language a ticket's optional language field denotes.
pub open spec fn spec_lang(l: Option<Seq<char>>) -> Result<Lang, ErrView> {
    match l {
        Some(s) => if s == "c++"@ {
            Ok(Lang::Cpp)
        } else if s == "java"@ {
            Ok(Lang::Java)
        } else {
            Err(ErrView::UnknownLang(s))
        },
        None => Ok(Lang::Unspecified),
    }
}

/// Derives the language from a ticket's language field: an absent field is
/// `Unspecified`; an unrecognized one is an `UnknownLang` error.
pub fn parse_lang(l: &Option<String>) -> (r: Result<Lang, IntoSpecErr>)
    ensures
        match r {
            Ok(v) => spec_lang(l.deep_view()) == Ok::<Lang, ErrView>(v),
            Err(e) => spec_lang(l.deep_view()) == Err::<Lang, ErrView>(e@),
        },
{
    match opt_deref(l) {
        Some(s) => if str_eq(s, "c++") {
            Ok(Lang::Cpp)
        } else if str_eq(s, "java") {
            Ok(Lang::Java)
        } else {
            Err(IntoSpecErr::UnknownLang(s.to_owned()))
        },
        None => Ok(Lang::Unspecified),
    }
}

/// How complete a function, record, sum or variable declaration is.
#[derive(Copy, Clone, Debug, PartialEq, Eq, Structural, Hash)]
pub enum CompleteStatus {
    Incomplete,
    Complete,
    Definition,
}

/// The completion status a `complete` fact denotes; the fact is required.
pub open spec fn spec_complete(c: Option<Seq<char>>) -> Result<CompleteStatus, ErrView> {
    match c {
        Some(s) => if s == "incomplete"@ {
            Ok(CompleteStatus::Incomplete)
        } else if s == "complete"@ {
            Ok(CompleteStatus::Complete)
        } else if s == "definition"@ {
            Ok(CompleteStatus::Definition)
        } else {
            Err(ErrView::UnknownComplete(s))
        },
        None => Err(ErrView::MissingFact(FACT_COMPLETE@)),
    }
}

/// Parses the `complete` fact into a completion status.
pub fn parse_complete(c: &Option<String>) -> (r: Result<CompleteStatus, IntoSpecErr>)
    ensures
        match r {
            Ok(v) => spec_complete(c.deep_view()) == Ok::<CompleteStatus, ErrView>(v),
            Err(e) => spec_complete(c.deep_view()) == Err::<CompleteStatus, ErrView>(e@),
        },
{
    match opt_deref(c) {
        Some(s) => if str_eq(s, "incomplete") {
            Ok(CompleteStatus::Incomplete)
        } else if str_eq(s, "complete") {
            Ok(CompleteStatus::Complete)
        } else if str_eq(s, "definition") {
            Ok(CompleteStatus::Definition)
        } else {
            Err(IntoSpecErr::UnknownComplete(s.to_owned()))
        },
        None => Err(IntoSpecErr::MissingFact(FACT_COMPLETE)),
    }
}

/// What sort of variable a variable node declares.
#[derive(Copy, Clone, Debug, PartialEq, Eq, Structural, Hash)]
pub enum VariableKind {
    Local,
    LocalException,
    LocalParam,
    LocalResource,
    Field,
    Import,
    Unspecified,
}

/// The variable kind a `subkind` fact denotes; an absent fact is
/// `Unspecified`.
pub open spec fn spec_variable_kind(s: Option<Seq<char>>) -> Result<VariableKind, ErrView> {
    match s {
        Some(v) => if v == "local"@ {
            Ok(VariableKind::Local)
        } else if v == "local/exception"@ {
            Ok(VariableKind::LocalException)
        } else if v == "local/parameter"@ {
            Ok(VariableKind::LocalParam)
        } else if v == "local/resource"@ {
            Ok(VariableKind::LocalResource)
        } else if v == "field"@ {
            Ok(VariableKind::Field)
        } else if v == "import"@ {
            Ok(VariableKind::Import)
        } else {
            Err(ErrView::UnknownVariableKind(v))
        },
        None => Ok(VariableKind::Unspecified),
    }
}

/// Parses the `subkind` fact of a variable node.
pub fn parse_variable_kind(s: &Option<String>) -> (r: Result<VariableKind, IntoSpecErr>)
    ensures
        match r {
            Ok(v) => spec_variable_kind(s.deep_view()) == Ok::<VariableKind, ErrView>(v),
            Err(e) => spec_variable_kind(s.deep_view()) == Err::<VariableKind, ErrView>(e@),
        },
{
    match opt_deref(s) {
        Some(v) => if str_eq(v, "local") {
            Ok(VariableKind::Local)
        } else if str_eq(v, "local/exception") {
            Ok(VariableKind::LocalException)
        } else if str_eq(v, "local/parameter") {
            Ok(VariableKind::LocalParam)
        } else if str_eq(v, "local/resource") {
            Ok(VariableKind::LocalResource)
        } else if str_eq(v, "field") {
            Ok(VariableKind::Field)
        } else if str_eq(v, "import") {
            Ok(VariableKind::Import)
        } else {
            Err(IntoSpecErr::UnknownVariableKind(v.to_owned()))
        },
        None => Ok(VariableKind::Unspecified),
    }
}

/// What sort of function a function node declares.
#[derive(Copy, Clone, Debug, PartialEq, Eq, Structural, Hash)]
pub enum FunctionKind {
    Constructor,
    Destructor,
    Unspecified,
}

/// The function kind a `subkind` fact denotes; an absent fact is
/// `Unspecified`, and `initializer` counts as a constructor.
pub open spec fn spec_function_kind(s: Option<Seq<char>>) -> Result<FunctionKind, ErrView> {
    match s {
        Some(v) => if v == "constructor"@ {
            Ok(FunctionKind::Constructor)
        } else if v == "initializer"@ {
            Ok(FunctionKind::Constructor)
        } else if v == "destructor"@ {
            Ok(FunctionKind::Destructor)
        } else if v == "none"@ {
            Ok(FunctionKind::Unspecified)
        } else {
            Err(ErrView::UnknownFunctionKind(v))
        },
        None => Ok(FunctionKind::Unspecified),
    }
}

/// Parses the `subkind` fact of a function node.
pub fn parse_function_kind(s: &Option<String>) -> (r: Result<FunctionKind, IntoSpecErr>)
    ensures
        match r {
            Ok(v) => spec_function_kind(s.deep_view()) == Ok::<FunctionKind, ErrView>(v),
            Err(e) => spec_function_kind(s.deep_view()) == Err::<FunctionKind, ErrView>(e@),
        },
{
    match opt_deref(s) {
        Some(v) => if str_eq(v, "constructor") {
            Ok(FunctionKind::Constructor)
        } else if str_eq(v, "initializer") {
            Ok(FunctionKind::Constructor)
        } else if str_eq(v, "destructor") {
            Ok(FunctionKind::Destructor)
        } else if str_eq(v, "none") {
            Ok(FunctionKind::Unspecified)
        } else {
            Err(IntoSpecErr::UnknownFunctionKind(v.to_owned()))
        },
        None => Ok(FunctionKind::Unspecified),
    }
}

/// A byte span inside a file's text.
#[derive(Copy, Clone, Debug, Default, PartialEq, Eq, Structural, Hash)]
pub struct Pos {
    pub start: usize,
    pub end: usize,
}

/// A digit string that denotes a machine-sized number.
pub open spec fn spec_loc_ok(s: Seq<char>) -> bool {
    s.len() > 0 && all_dec_digits(s) && dec_val(s) <= usize::MAX
}

/// The span the `loc/start` and `loc/end` facts denote; both facts are
/// required and must be numbers.
pub open spec fn spec_pos(v: RawNodeView) -> Result<Pos, ErrView> {
    match v.loc_start {
        None => Err(ErrView::MissingFact(FACT_LOC_START@)),
        Some(s) => if !spec_loc_ok(s) {
            Err(ErrView::ExpectedInt)
        } else {
            match v.loc_end {
                None => Err(ErrView::MissingFact(FACT_LOC_END@)),
                Some(t) => if !spec_loc_ok(t) {
                    Err(ErrView::ExpectedInt)
                } else {
                    Ok(Pos { start: dec_val(s) as usize, end: dec_val(t) as usize })
                },
            }
        },
    }
}

/// Parses the location facts of an explicit anchor into a span.
pub fn parse_pos(value: &RawNodeValue) -> (r: Result<Pos, IntoSpecErr>)
    ensures
        match r {
            Ok(v) => spec_pos(value@) == Ok::<Pos, ErrView>(v),
            Err(e) => spec_pos(value@) == Err::<Pos, ErrView>(e@),
        },
{
    let start = match opt_deref(&value.loc_start) {
        None => {
            return Err(IntoSpecErr::MissingFact(FACT_LOC_START));
        },
        Some(s) => match parse_usize(s) {
            None => {
                return Err(IntoSpecErr::ExpectedInt);
            },
            Some(v) => v,
        },
    };
    let end = match opt_deref(&value.loc_end) {
        None => {
            return Err(IntoSpecErr::MissingFact(FACT_LOC_END));
        },
        Some(s) => match parse_usize(s) {
            None => {
                return Err(IntoSpecErr::ExpectedInt);
            },
            Some(v) => v,
        },
    };
    Ok(Pos { start, end })
}

/// An anchor either names an explicit byte span or is implicit.
#[derive(Copy, Clone, Debug, PartialEq, Eq, Structural, Hash)]
pub enum AnchorKind {
    Explicit(Pos),
    Implicit,
}

/// The anchor kind a fact bag denotes: no `subkind` asks for an explicit
/// span, `subkind = implicit` is implicit, any other subkind is unknown.
pub open spec fn spec_anchor_kind(v: RawNodeView) -> Result<AnchorKind, ErrView> {
    match v.subkind {
        Some(s) => if s == "implicit"@ {
            Ok(AnchorKind::Implicit)
        } else {
            Err(ErrView::UnknownAnchorKind(s))
        },
        None => match spec_pos(v) {
            Ok(p) => Ok(AnchorKind::Explicit(p)),
            Err(e) => Err(e),
        },
    }
}

/// Parses the anchor-specific facts of an anchor node.
pub fn parse_anchor_kind(value: &RawNodeValue) -> (r: Result<AnchorKind, IntoSpecErr>)
    ensures
        match r {
            Ok(v) => spec_anchor_kind(value@) == Ok::<AnchorKind, ErrView>(v),
            Err(e) => spec_anchor_kind(value@) == Err::<AnchorKind, ErrView>(e@),
        },
{
    match opt_deref(&value.subkind) {
        Some(s) => if str_eq(s, "implicit") {
            Ok(AnchorKind::Implicit)
        } else {
            Err(IntoSpecErr::UnknownAnchorKind(s.to_owned()))
        },
        None => match parse_pos(value) {
            Ok(p) => Ok(AnchorKind::Explicit(p)),
            Err(e) => Err(e),
        },
    }
}

/// The record sub-vocabulary of C++.
#[derive(Copy, Clone, Debug, PartialEq, Eq, Structural, Hash)]
pub enum CppRecordKind {
    Class,
    Struct,
    Union,
}

/// The record sub-vocabulary of Java.
#[derive(Copy, Clone, Debug, PartialEq, Eq, Structural, Hash)]
pub enum JavaRecordKind {
    Class,
}

/// A record kind, tagged by the language whose vocabulary it was read
/// under.
#[derive(Copy, Clone, Debug, PartialEq, Eq, Structural, Hash)]
pub enum RecordKind {
    Cpp(CppRecordKind),
    Java(JavaRecordKind),
}

/// The C++ record kind a `subkind` fact denotes; the fact is required.
pub open spec fn spec_cpp_record_kind(s: Option<Seq<char>>) -> Result<CppRecordKind, ErrView> {
    match s {
        Some(v) => if v == "class"@ {
            Ok(CppRecordKind::Class)
        } else if v == "struct"@ {
            Ok(CppRecordKind::Struct)
        } else if v == "union"@ {
            Ok(CppRecordKind::Union)
        } else {
            Err(ErrView::UnknownRecordKind(Lang::Cpp, v))
        },
        None => Err(ErrView::MissingFact(FACT_SUBKIND@)),
    }
}

/// The Java record kind a `subkind` fact denotes; the fact is required.
pub open spec fn spec_java_record_kind(s: Option<Seq<char>>) -> Result<JavaRecordKind, ErrView> {
    match s {
        Some(v) => if v == "class"@ {
            Ok(JavaRecordKind::Class)
        } else {
            Err(ErrView::UnknownRecordKind(Lang::Java, v))
        },
        None => Err(ErrView::MissingFact(FACT_SUBKIND@)),
    }
}

/// The record kind a `subkind` fact denotes under the given language; a
/// record without a resolvable language is a `MissingLang` error.
pub open spec fn spec_record_kind(s: Option<Seq<char>>, lang: Lang) -> Result<RecordKind, ErrView> {
    match lang {
        Lang::Cpp => match spec_cpp_record_kind(s) {
            Ok(k) => Ok(RecordKind::Cpp(k)),
            Err(e) => Err(e),
        },
        Lang::Java => match spec_java_record_kind(s) {
            Ok(k) => Ok(RecordKind::Java(k)),
            Err(e) => Err(e),
        },
        Lang::Unspecified => Err(ErrView::MissingLang),
    }
}

/// Parses the `subkind` fact of a record node under the given language.
pub fn parse_record_kind(s: &Option<String>, lang: Lang) -> (r: Result<RecordKind, IntoSpecErr>)
    ensures
        match r {
            Ok(v) => spec_record_kind(s.deep_view(), lang) == Ok::<RecordKind, ErrView>(v),
            Err(e) => spec_record_kind(s.deep_view(), lang) == Err::<RecordKind, ErrView>(e@),
        },
{
    match lang {
        Lang::Cpp => match opt_deref(s) {
            Some(v) => if str_eq(v, "class") {
                Ok(RecordKind::Cpp(CppRecordKind::Class))
            } else if str_eq(v, "struct") {
                Ok(RecordKind::Cpp(CppRecordKind::Struct))
            } else if str_eq(v, "union") {
                Ok(RecordKind::Cpp(CppRecordKind::Union))
            } else {
                Err(IntoSpecErr::UnknownRecordKind(Lang::Cpp, v.to_owned()))
            },
            None => Err(IntoSpecErr::MissingFact(FACT_SUBKIND)),
        },
        Lang::Java => match opt_deref(s) {
            Some(v) => if str_eq(v, "class") {
                Ok(RecordKind::Java(JavaRecordKind::Class))
            } else {
                Err(IntoSpecErr::UnknownRecordKind(Lang::Java, v.to_owned()))
            },
            None => Err(IntoSpecErr::MissingFact(FACT_SUBKIND)),
        },
        Lang::Unspecified => Err(IntoSpecErr::MissingLang),
    }
}

/// The sum sub-vocabulary of C++.
#[derive(Copy, Clone, Debug, PartialEq, Eq, Structural, Hash)]
pub enum CppSumKind {
    Enum,
    EnumClass,
}

/// The sum sub-vocabulary of Java.
#[derive(Copy, Clone, Debug, PartialEq, Eq, Structural, Hash)]
pub enum JavaSumKind {
    Enum,
}

/// A sum kind, tagged by the language whose vocabulary it was read under.
#[derive(Copy, Clone, Debug, PartialEq, Eq, Structural, Hash)]
pub enum SumKind {
    Cpp(CppSumKind),
    Java(JavaSumKind),
}

/// The C++ sum kind a `subkind` fact denotes; the fact is required.
pub open spec fn spec_cpp_sum_kind(s: Option<Seq<char>>) -> Result<CppSumKind, ErrView> {
    match s {
        Some(v) => if v == "enum"@ {
            Ok(CppSumKind::Enum)
        } else if v == "enumClass"@ {
            Ok(CppSumKind::EnumClass)
        } else {
            Err(ErrView::UnknownSumKind(Lang::Cpp, v))
        },
        None => Err(ErrView::MissingFact(FACT_SUBKIND@)),
    }
}

/// The Java sum kind a `subkind` fact denotes; the fact is required.
pub open spec fn spec_java_sum_kind(s: Option<Seq<char>>) -> Result<JavaSumKind, ErrView> {
    match s {
        Some(v) => if v == "enum"@ {
            Ok(JavaSumKind::Enum)
        } else {
            Err(ErrView::UnknownSumKind(Lang::Java, v))
        },
        None => Err(ErrView::MissingFact(FACT_SUBKIND@)),
    }
}

/// The sum kind a `subkind` fact denotes under the given language; a sum
/// without a resolvable language is a `MissingLang` error.
pub open spec fn spec_sum_kind(s: Option<Seq<char>>, lang: Lang) -> Result<SumKind, ErrView> {
    match lang {
        Lang::Cpp => match spec_cpp_sum_kind(s) {
            Ok(k) => Ok(SumKind::Cpp(k)),
            Err(e) => Err(e),
        },
        Lang::Java => match spec_java_sum_kind(s) {
            Ok(k) => Ok(SumKind::Java(k)),
            Err(e) => Err(e),
        },
        Lang::Unspecified => Err(ErrView::MissingLang),
    }
}

/// Parses the `subkind` fact of a sum node under the given language.
pub fn parse_sum_kind(s: &Option<String>, lang: Lang) -> (r: Result<SumKind, IntoSpecErr>)
    ensures
        match r {
            Ok(v) => spec_sum_kind(s.deep_view(), lang) == Ok::<SumKind, ErrView>(v),
            Err(e) => spec_sum_kind(s.deep_view(), lang) == Err::<SumKind, ErrView>(e@),
        },
{
    match lang {
        Lang::Cpp => match opt_deref(s) {
            Some(v) => if str_eq(v, "enum") {
                Ok(SumKind::Cpp(CppSumKind::Enum))
            } else if str_eq(v, "enumClass") {
                Ok(SumKind::Cpp(CppSumKind::EnumClass))
            } else {
                Err(IntoSpecErr::UnknownSumKind(Lang::Cpp, v.to_owned()))
            },
            None => Err(IntoSpecErr::MissingFact(FACT_SUBKIND)),
        },
        Lang::Java => match opt_deref(s) {
            Some(v) => if str_eq(v, "enum") {
                Ok(SumKind::Java(JavaSumKind::Enum))
            } else {
                Err(IntoSpecErr::UnknownSumKind(Lang::Java, v.to_owned()))
            },
            None => Err(IntoSpecErr::MissingFact(FACT_SUBKIND)),
        },
        Lang::Unspecified => Err(IntoSpecErr::MissingLang),
    }
}

/// One variant of the closed node-kind taxonomy. The text-bearing kinds
/// own the node's text fact; `Empty` stands for a node whose fact bag was
/// entirely empty, which the external data exhibits although the external
/// schema does not allow it.
#[derive(Debug, Clone, PartialEq, Eq, Hash)]
pub enum NodeKind {
    Abs,
    Absvar,
    Anchor(AnchorKind),
    Constant(String),
    Doc(String),
    File(String),
    Function(CompleteStatus, FunctionKind),
    Lookup(String),
    Macro,
    Meta,
    Package,
    Record(CompleteStatus, RecordKind),
    Sum(CompleteStatus, SumKind),
    Talias,
    Tapp,
    Tbuiltin,
    Tnominal,
    Tsigma,
    Variable(CompleteStatus, VariableKind),
    Empty,
}

/// Mathematical image of a node kind: text replaced by its character
/// sequence.
pub ghost enum NodeKindView {
    Abs,
    Absvar,
    Anchor(AnchorKind),
    Constant(Seq<char>),
    Doc(Seq<char>),
    File(Seq<char>),
    Function(CompleteStatus, FunctionKind),
    Lookup(Seq<char>),
    Macro,
    Meta,
    Package,
    Record(CompleteStatus, RecordKind),
    Sum(CompleteStatus, SumKind),
    Talias,
    Tapp,
    Tbuiltin,
    Tnominal,
    Tsigma,
    Variable(CompleteStatus, VariableKind),
    Empty,
}

impl View for NodeKind {
    type V = NodeKindView;

    open spec fn view(&self) -> NodeKindView {
        match self {
            NodeKind::Abs => NodeKindView::Abs,
            NodeKind::Absvar => NodeKindView::Absvar,
            NodeKind::Anchor(a) => NodeKindView::Anchor(*a),
            NodeKind::Constant(t) => NodeKindView::Constant(t@),
            NodeKind::Doc(t) => NodeKindView::Doc(t@),
            NodeKind::File(t) => NodeKindView::File(t@),
            NodeKind::Function(c, f) => NodeKindView::Function(*c, *f),
            NodeKind::Lookup(t) => NodeKindView::Lookup(t@),
            NodeKind::Macro => NodeKindView::Macro,
            NodeKind::Meta => NodeKindView::Meta,
            NodeKind::Package => NodeKindView::Package,
            NodeKind::Record(c, k) => NodeKindView::Record(*c, *k),
            NodeKind::Sum(c, k) => NodeKindView::Sum(*c, *k),
            NodeKind::Talias => NodeKindView::Talias,
            NodeKind::Tapp => NodeKindView::Tapp,
            NodeKind::Tbuiltin => NodeKindView::Tbuiltin,
            NodeKind::Tnominal => NodeKindView::Tnominal,
            NodeKind::Tsigma => NodeKindView::Tsigma,
            NodeKind::Variable(c, k) => NodeKindView::Variable(*c, *k),
            NodeKind::Empty => NodeKindView::Empty,
        }
    }
}

impl NodeKind {
    /// A copy of this kind that denotes the same value.
    pub fn dup(&self) -> (r: NodeKind)
        ensures
            r@ == self@,
    {
        match self {
            NodeKind::Abs => NodeKind::Abs,
            NodeKind::Absvar => NodeKind::Absvar,
            NodeKind::Anchor(a) => NodeKind::Anchor(*a),
            NodeKind::Constant(t) => NodeKind::Constant(t.clone()),
            NodeKind::Doc(t) => NodeKind::Doc(t.clone()),
            NodeKind::File(t) => NodeKind::File(t.clone()),
            NodeKind::Function(c, f) => NodeKind::Function(*c, *f),
            NodeKind::Lookup(t) => NodeKind::Lookup(t.clone()),
            NodeKind::Macro => NodeKind::Macro,
            NodeKind::Meta => NodeKind::Meta,
            NodeKind::Package => NodeKind::Package,
            NodeKind::Record(c, k) => NodeKind::Record(*c, *k),
            NodeKind::Sum(c, k) => NodeKind::Sum(*c, *k),
            NodeKind::Talias => NodeKind::Talias,
            NodeKind::Tapp => NodeKind::Tapp,
            NodeKind::Tbuiltin => NodeKind::Tbuiltin,
            NodeKind::Tnominal => NodeKind::Tnominal,
            NodeKind::Tsigma => NodeKind::Tsigma,
            NodeKind::Variable(c, k) => NodeKind::Variable(*c, *k),
            NodeKind::Empty => NodeKind::Empty,
        }
    }
}

/// The text fact of the bag, owed by text-bearing node kinds.
pub open spec fn spec_text_of(v: RawNodeView) -> Result<Seq<char>, ErrView> {
    match v.text {
        Some(t) => Ok(t),
        None => Err(ErrView::MissingFact(FACT_TEXT@)),
    }
}

/// The typed node kind a fact bag denotes under the given language: an
/// empty bag is `None`; otherwise the `node/kind` fact is required and
/// picks the variant, whose own required facts are then validated.
pub open spec fn spec_node_kind(v: RawNodeView, lang: Lang) -> Result<NodeKindView, ErrView> {
    if spec_bag_is_empty(v) {
        Ok(NodeKindView::Empty)
    } else {
        match v.node_kind {
            None => Err(ErrView::MissingFact(FACT_NODE_KIND@)),
            Some(k) => if k == "abs"@ {
                Ok(NodeKindView::Abs)
            } else if k == "absvar"@ {
                Ok(NodeKindView::Absvar)
            } else if k == "anchor"@ {
                match spec_anchor_kind(v) {
                    Ok(a) => Ok(NodeKindView::Anchor(a)),
                    Err(e) => Err(e),
                }
            } else if k == "constant"@ {
                match spec_text_of(v) {
                    Ok(t) => Ok(NodeKindView::Constant(t)),
                    Err(e) => Err(e),
                }
            } else if k == "doc"@ {
                match spec_text_of(v) {
                    Ok(t) => Ok(NodeKindView::Doc(t)),
                    Err(e) => Err(e),
                }
            } else if k == "file"@ {
                match spec_text_of(v) {
                    Ok(t) => Ok(NodeKindView::File(t)),
                    Err(e) => Err(e),
                }
            } else if k == "function"@ {
                match spec_complete(v.complete) {
                    Err(e) => Err(e),
                    Ok(c) => match spec_function_kind(v.subkind) {
                        Err(e) => Err(e),
                        Ok(f) => Ok(NodeKindView::Function(c, f)),
                    },
                }
            } else if k == "lookup"@ {
                match spec_text_of(v) {
                    Ok(t) => Ok(NodeKindView::Lookup(t)),
                    Err(e) => Err(e),
                }
            } else if k == "macro"@ {
                Ok(NodeKindView::Macro)
            } else if k == "meta"@ {
                Ok(NodeKindView::Meta)
            } else if k == "package"@ {
                Ok(NodeKindView::Package)
            } else if k == "record"@ {
                match spec_complete(v.complete) {
                    Err(e) => Err(e),
                    Ok(c) => match spec_record_kind(v.subkind, lang) {
                        Err(e) => Err(e),
                        Ok(rk) => Ok(NodeKindView::Record(c, rk)),
                    },
                }
            } else if k == "sum"@ {
                match spec_complete(v.complete) {
                    Err(e) => Err(e),
                    Ok(c) => match spec_sum_kind(v.subkind, lang) {
                        Err(e) => Err(e),
                        Ok(sk) => Ok(NodeKindView::Sum(c, sk)),
                    },
                }
            } else if k == "talias"@ {
                Ok(NodeKindView::Talias)
            } else if k == "tapp"@ {
                Ok(NodeKindView::Tapp)
            } else if k == "tbuiltin"@ {
                Ok(NodeKindView::Tbuiltin)
            } else if k == "tnominal"@ {
                Ok(NodeKindView::Tnominal)
            } else if k == "tsigma"@ {
                Ok(NodeKindView::Tsigma)
            } else if k == "variable"@ {
                match spec_complete(v.complete) {
                    Err(e) => Err(e),
                    Ok(c) => match spec_variable_kind(v.subkind) {
                        Err(e) => Err(e),
                        Ok(vk) => Ok(NodeKindView::Variable(c, vk)),
                    },
                }
            } else {
                Err(ErrView::UnknownNodeKind(k))
            },
        }
    }
}

/// Compiles a raw fact bag into its typed node kind under the given
/// language, validating the variant's required facts.
pub fn node_kind_of(value: RawNodeValue, lang: Lang) -> (r: Result<NodeKind, IntoSpecErr>)
    ensures
        match r {
            Ok(k) => spec_node_kind(value@, lang) == Ok::<NodeKindView, ErrView>(k@),
            Err(e) => spec_node_kind(value@, lang) == Err::<NodeKindView, ErrView>(e@),
        },
{
    if value.is_empty() {
        return Ok(NodeKind::Empty);
    }
    let kind_str: String = match &value.node_kind {
        Some(s) => s.clone(),
        None => {
            return Err(IntoSpecErr::MissingFact(FACT_NODE_KIND));
        },
    };
    let k = kind_str.as_str();
    if str_eq(k, "abs") {
        Ok(NodeKind::Abs)
    } else if str_eq(k, "absvar") {
        Ok(NodeKind::Absvar)
    } else if str_eq(k, "anchor") {
        match parse_anchor_kind(&value) {
            Ok(a) => Ok(NodeKind::Anchor(a)),
            Err(e) => Err(e),
        }
    } else if str_eq(k, "constant") {
        match &value.text {
            Some(t) => Ok(NodeKind::Constant(t.clone())),
            None => Err(IntoSpecErr::MissingFact(FACT_TEXT)),
        }
    } else if str_eq(k, "doc") {
        match &value.text {
            Some(t) => Ok(NodeKind::Doc(t.clone())),
            None => Err(IntoSpecErr::MissingFact(FACT_TEXT)),
        }
    } else if str_eq(k, "file") {
        match &value.text {
            Some(t) => Ok(NodeKind::File(t.clone())),
            None => Err(IntoSpecErr::MissingFact(FACT_TEXT)),
        }
    } else if str_eq(k, "function") {
        let c = match parse_complete(&value.complete) {
            Ok(c) => c,
            Err(e) => {
                return Err(e);
            },
        };
        match parse_function_kind(&value.subkind) {
            Ok(f) => Ok(NodeKind::Function(c, f)),
            Err(e) => Err(e),
        }
    } else if str_eq(k, "lookup") {
        match &value.text {
            Some(t) => Ok(NodeKind::Lookup(t.clone())),
            None => Err(IntoSpecErr::MissingFact(FACT_TEXT)),
        }
    } else if str_eq(k, "macro") {
        Ok(NodeKind::Macro)
    } else if str_eq(k, "meta") {
        Ok(NodeKind::Meta)
    } else if str_eq(k, "package") {
        Ok(NodeKind::Package)
    } else if str_eq(k, "record") {
        let c = match parse_complete(&value.complete) {
            Ok(c) => c,
            Err(e) => {
                return Err(e);
            },
        };
        match parse_record_kind(&value.subkind, lang) {
            Ok(rk) => Ok(NodeKind::Record(c, rk)),
            Err(e) => Err(e),
        }
    } else if str_eq(k, "sum") {
        let c = match parse_complete(&value.complete) {
            Ok(c) => c,
            Err(e) => {
                return Err(e);
            },
        };
        match parse_sum_kind(&value.subkind, lang) {
            Ok(sk) => Ok(NodeKind::Sum(c, sk)),
            Err(e) => Err(e),
        }
    } else if str_eq(k, "talias") {
        Ok(NodeKind::Talias)
    } else if str_eq(k, "tapp") {
        Ok(NodeKind::Tapp)
    } else if str_eq(k, "tbuiltin") {
        Ok(NodeKind::Tbuiltin)
    } else if str_eq(k, "tnominal") {
        Ok(NodeKind::Tnominal)
    } else if str_eq(k, "tsigma") {
        Ok(NodeKind::Tsigma)
    } else if str_eq(k, "variable") {
        let c = match parse_complete(&value.complete) {
            Ok(c) => c,
            Err(e) => {
                return Err(e);
            },
        };
        match parse_variable_kind(&value.subkind) {
            Ok(vk) => Ok(NodeKind::Variable(c, vk)),
            Err(e) => Err(e),
        }
    } else {
        Err(IntoSpecErr::UnknownNodeKind(kind_str))
    }
}

} // verus!
