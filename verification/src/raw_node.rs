//! The per-node bag of recognized raw facts, filled by the raw graph
//! builder and consumed by the typed compiler.

use vstd::prelude::*;
use crate::errors::IntoSpecErr;
use crate::strutil::str_eq;

verus! {

pub const FACT_CODE: &'static str = "/kythe/code";

pub const FACT_COMPLETE: &'static str = "/kythe/complete";

pub const FACT_LOC_END: &'static str = "/kythe/loc/end";

pub const FACT_LOC_START: &'static str = "/kythe/loc/start";

pub const FACT_NODE_KIND: &'static str = "/kythe/node/kind";

pub const FACT_PARAM_DEFAULT: &'static str = "/kythe/param/default";

pub const FACT_SUBKIND: &'static str = "/kythe/subkind";

pub const FACT_TAG_DEPRECATED: &'static str = "/kythe/tag/deprecated";

pub const FACT_TAG_STATIC: &'static str = "/kythe/tag/static";

pub const FACT_TEXT: &'static str = "/kythe/text";

/// Bag of the ten recognized fact slots of one node. A slot not yet
/// written holds `None`.
#[derive(Debug, Default)]
pub struct RawNodeValue {
    pub code: Option<String>,
    pub complete: Option<String>,
    pub loc_end: Option<String>,
    pub loc_start: Option<String>,
    pub node_kind: Option<String>,
    pub param_default: Option<String>,
    pub subkind: Option<String>,
    pub tag_deprecated: Option<String>,
    pub tag_static: Option<String>,
    pub text: Option<String>,
}

/// Mathematical image of a fact bag.
#[verifier::ext_equal]
pub ghost struct RawNodeView {
    pub code: Option<Seq<char>>,
    pub complete: Option<Seq<char>>,
    pub loc_end: Option<Seq<char>>,
    pub loc_start: Option<Seq<char>>,
    pub node_kind: Option<Seq<char>>,
    pub param_default: Option<Seq<char>>,
    pub subkind: Option<Seq<char>>,
    pub tag_deprecated: Option<Seq<char>>,
    pub tag_static: Option<Seq<char>>,
    pub text: Option<Seq<char>>,
}

impl View for RawNodeValue {
    type V = RawNodeView;

    open spec fn view(&self) -> RawNodeView {
        RawNodeView {
            code: self.code.deep_view(),
            complete: self.complete.deep_view(),
            loc_end: self.loc_end.deep_view(),
            loc_start: self.loc_start.deep_view(),
            node_kind: self.node_kind.deep_view(),
            param_default: self.param_default.deep_view(),
            subkind: self.subkind.deep_view(),
            tag_deprecated: self.tag_deprecated.deep_view(),
            tag_static: self.tag_static.deep_view(),
            text: self.text.deep_view(),
        }
    }
}

/// The empty fact bag.
pub open spec fn spec_empty_bag() -> RawNodeView {
    RawNodeView {
        code: None,
        complete: None,
        loc_end: None,
        loc_start: None,
        node_kind: None,
        param_default: None,
        subkind: None,
        tag_deprecated: None,
        tag_static: None,
        text: None,
    }
}

/// The fact name is one of the ten recognized slots.
pub open spec fn known_fact(name: Seq<char>) -> bool {
    ||| name == FACT_CODE@
    ||| name == FACT_COMPLETE@
    ||| name == FACT_LOC_END@
    ||| name == FACT_LOC_START@
    ||| name == FACT_NODE_KIND@
    ||| name == FACT_PARAM_DEFAULT@
    ||| name == FACT_SUBKIND@
    ||| name == FACT_TAG_DEPRECATED@
    ||| name == FACT_TAG_STATIC@
    ||| name == FACT_TEXT@
}

/// Content of the named slot. Meaningful only for recognized fact names.
pub open spec fn spec_get_fact(v: RawNodeView, name: Seq<char>) -> Option<Seq<char>> {
    if name == FACT_CODE@ {
        v.code
    } else if name == FACT_COMPLETE@ {
        v.complete
    } else if name == FACT_LOC_END@ {
        v.loc_end
    } else if name == FACT_LOC_START@ {
        v.loc_start
    } else if name == FACT_NODE_KIND@ {
        v.node_kind
    } else if name == FACT_PARAM_DEFAULT@ {
        v.param_default
    } else if name == FACT_SUBKIND@ {
        v.subkind
    } else if name == FACT_TAG_DEPRECATED@ {
        v.tag_deprecated
    } else if name == FACT_TAG_STATIC@ {
        v.tag_static
    } else {
        v.text
    }
}

/// The bag with the named slot overwritten. Meaningful only for
/// recognized fact names.
pub open spec fn spec_set_fact(v: RawNodeView, name: Seq<char>, value: Seq<char>) -> RawNodeView {
    if name == FACT_CODE@ {
        RawNodeView { code: Some(value), ..v }
    } else if name == FACT_COMPLETE@ {
        RawNodeView { complete: Some(value), ..v }
    } else if name == FACT_LOC_END@ {
        RawNodeView { loc_end: Some(value), ..v }
    } else if name == FACT_LOC_START@ {
        RawNodeView { loc_start: Some(value), ..v }
    } else if name == FACT_NODE_KIND@ {
        RawNodeView { node_kind: Some(value), ..v }
    } else if name == FACT_PARAM_DEFAULT@ {
        RawNodeView { param_default: Some(value), ..v }
    } else if name == FACT_SUBKIND@ {
        RawNodeView { subkind: Some(value), ..v }
    } else if name == FACT_TAG_DEPRECATED@ {
        RawNodeView { tag_deprecated: Some(value), ..v }
    } else if name == FACT_TAG_STATIC@ {
        RawNodeView { tag_static: Some(value), ..v }
    } else {
        RawNodeView { text: Some(value), ..v }
    }
}

/// The bag is entirely empty: no slot was ever written.
pub open spec fn spec_bag_is_empty(v: RawNodeView) -> bool {
    v =~= spec_empty_bag()
}

impl RawNodeValue {
    /// A fresh, entirely empty fact bag.
    pub fn new() -> (r: RawNodeValue)
        ensures
            r@ == spec_empty_bag(),
    {
        let r = RawNodeValue {
            code: None,
            complete: None,
            loc_end: None,
            loc_start: None,
            node_kind: None,
            param_default: None,
            subkind: None,
            tag_deprecated: None,
            tag_static: None,
            text: None,
        };
        proof {
            assert(r@ =~= spec_empty_bag());
        }
        r
    }

    /// Stores a fact value into the slot the fact name denotes,
    /// overwriting any earlier value; unrecognized fact names are a hard
    /// error. Returns whether the slot was previously unset.
    pub fn set(&mut self, fact_name: &str, fact_value: String) -> (r: Result<bool, IntoSpecErr>)
        ensures
            match r {
                Ok(fresh) => known_fact(fact_name@) && final(self)@ == spec_set_fact(
                    old(self)@,
                    fact_name@,
                    fact_value@,
                ) && fresh == (spec_get_fact(old(self)@, fact_name@) is None),
                Err(e) => !known_fact(fact_name@) && final(self)@ == old(self)@ && (
                e matches IntoSpecErr::UnknownFactName(u) && u@ == fact_name@),
            },
    {
        if str_eq(fact_name, FACT_CODE) {
            let fresh = self.code.is_none();
            self.code = Some(fact_value);
            proof {
                assert(self@ =~= spec_set_fact(old(self)@, fact_name@, fact_value@));
            }
            Ok(fresh)
        } else if str_eq(fact_name, FACT_COMPLETE) {
            let fresh = self.complete.is_none();
            self.complete = Some(fact_value);
            proof {
                assert(self@ =~= spec_set_fact(old(self)@, fact_name@, fact_value@));
            }
            Ok(fresh)
        } else if str_eq(fact_name, FACT_LOC_END) {
            let fresh = self.loc_end.is_none();
            self.loc_end = Some(fact_value);
            proof {
                assert(self@ =~= spec_set_fact(old(self)@, fact_name@, fact_value@));
            }
            Ok(fresh)
        } else if str_eq(fact_name, FACT_LOC_START) {
            let fresh = self.loc_start.is_none();
            self.loc_start = Some(fact_value);
            proof {
                assert(self@ =~= spec_set_fact(old(self)@, fact_name@, fact_value@));
            }
            Ok(fresh)
        } else if str_eq(fact_name, FACT_NODE_KIND) {
            let fresh = self.node_kind.is_none();
            self.node_kind = Some(fact_value);
            proof {
                assert(self@ =~= spec_set_fact(old(self)@, fact_name@, fact_value@));
            }
            Ok(fresh)
        } else if str_eq(fact_name, FACT_PARAM_DEFAULT) {
            let fresh = self.param_default.is_none();
            self.param_default = Some(fact_value);
            proof {
                assert(self@ =~= spec_set_fact(old(self)@, fact_name@, fact_value@));
            }
            Ok(fresh)
        } else if str_eq(fact_name, FACT_SUBKIND) {
            let fresh = self.subkind.is_none();
            self.subkind = Some(fact_value);
            proof {
                assert(self@ =~= spec_set_fact(old(self)@, fact_name@, fact_value@));
            }
            Ok(fresh)
        } else if str_eq(fact_name, FACT_TAG_DEPRECATED) {
            let fresh = self.tag_deprecated.is_none();
            self.tag_deprecated = Some(fact_value);
            proof {
                assert(self@ =~= spec_set_fact(old(self)@, fact_name@, fact_value@));
            }
            Ok(fresh)
        } else if str_eq(fact_name, FACT_TAG_STATIC) {
            let fresh = self.tag_static.is_none();
            self.tag_static = Some(fact_value);
            proof {
                assert(self@ =~= spec_set_fact(old(self)@, fact_name@, fact_value@));
            }
            Ok(fresh)
        } else if str_eq(fact_name, FACT_TEXT) {
            let fresh = self.text.is_none();
            self.text = Some(fact_value);
            proof {
                assert(self@ =~= spec_set_fact(old(self)@, fact_name@, fact_value@));
            }
            Ok(fresh)
        } else {
            Err(IntoSpecErr::UnknownFactName(fact_name.to_owned()))
        }
    }

    /// A copy of this bag that denotes the same facts.
    pub fn dup(&self) -> (r: RawNodeValue)
        ensures
            r@ == self@,
    {
        let r = RawNodeValue {
            code: crate::ticket::clone_opt_str(&self.code),
            complete: crate::ticket::clone_opt_str(&self.complete),
            loc_end: crate::ticket::clone_opt_str(&self.loc_end),
            loc_start: crate::ticket::clone_opt_str(&self.loc_start),
            node_kind: crate::ticket::clone_opt_str(&self.node_kind),
            param_default: crate::ticket::clone_opt_str(&self.param_default),
            subkind: crate::ticket::clone_opt_str(&self.subkind),
            tag_deprecated: crate::ticket::clone_opt_str(&self.tag_deprecated),
            tag_static: crate::ticket::clone_opt_str(&self.tag_static),
            text: crate::ticket::clone_opt_str(&self.text),
        };
        proof {
            assert(r@ =~= self@);
        }
        r
    }

    /// Whether no slot of the bag was ever written.
    pub fn is_empty(&self) -> (r: bool)
        ensures
            r == spec_bag_is_empty(self@),
    {
        let r = self.code.is_none() && self.complete.is_none() && self.loc_end.is_none()
            && self.loc_start.is_none() && self.node_kind.is_none()
            && self.param_default.is_none() && self.subkind.is_none()
            && self.tag_deprecated.is_none() && self.tag_static.is_none() && self.text.is_none();
        proof {
            if r {
                assert(self@ =~= spec_empty_bag());
            }
        }
        r
    }

    /// Surrenders the text fact, owed by the file, doc, constant and
    /// lookup node kinds.
    pub fn to_text(self) -> (r: Result<String, IntoSpecErr>)
        ensures
            match r {
                Ok(t) => self@.text == Some(t@),
                Err(e) => self@.text is None && (e matches IntoSpecErr::MissingFact(f) && f@
                    == FACT_TEXT@),
            },
    {
        match self.text {
            Some(t) => Ok(t),
            None => Err(IntoSpecErr::MissingFact(FACT_TEXT)),
        }
    }
}

/// Borrows the inner string of an optional string.
pub fn opt_deref<'a>(o: &'a Option<String>) -> (r: Option<&'a str>)
    ensures
        match r {
            Some(s) => o.deep_view() == Some(s@),
            None => o.deep_view() is None,
        },
{
    match o {
        Some(s) => Some(s.as_str()),
        None => None,
    }
}

} // verus!
