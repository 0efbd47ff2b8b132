//! Rules for excluding fact records before they reach the graph: by the
//! kind of path a ticket carries, by a glob over the path, or by a list
//! of allowed paths, each applied to one or both endpoints of an edge.

use vstd::prelude::*;
use crate::path_filtering::MiniEntryDto;
use crate::strutil::str_eq;
use crate::ticket::{Ticket, TicketView};

verus! {

#[verifier::external_type_specification]
#[verifier::external_body]
pub struct ExGlobsetGlob(globset::Glob);

#[verifier::external_type_specification]
#[verifier::external_body]
pub struct ExGlobsetMatcher(globset::GlobMatcher);

/// What `globset::GlobMatcher::is_match` yields for a matcher compiled
/// from the given glob string, applied to the given path. The result
/// depends on the two strings alone.
pub uninterp spec fn globset_match(pattern: Seq<char>, path: Seq<char>) -> bool;

/// Relies on globset::Glob::new: parses a glob, or reports that the
/// string is not a valid glob.
#[verifier::external_body]
fn build_glob(pattern: &str) -> Option<globset::Glob> {
    match globset::Glob::new(pattern) {
        Ok(g) => Some(g),
        Err(_) => None,
    }
}

/// Relies on globset::Glob::compile_matcher: the matcher of a parsed
/// glob.
#[verifier::external_body]
fn compile_matcher(glob: &globset::Glob) -> globset::GlobMatcher {
    glob.compile_matcher()
}

/// One compiled glob over ticket paths, remembering the string it was
/// compiled from. Values exist only through `PathGlob::compile`, so the
/// inner matcher is always the compilation of the remembered source.
pub struct PathGlob {
    source: String,
    inner: globset::GlobMatcher,
}

impl View for PathGlob {
    type V = Seq<char>;

    closed spec fn view(&self) -> Seq<char> {
        self.source@
    }
}

/// Relies on globset::GlobMatcher::is_match: whether the glob matches
/// the path; the result depends on the glob's source string and the path
/// alone.
#[verifier::external_body]
fn glob_is_match(p: &PathGlob, path: &str) -> (r: bool)
    ensures
        r == globset_match(p@, path@),
{
    p.inner.is_match(path)
}

impl PathGlob {
    /// Compiles one glob string; an invalid glob yields nothing.
    pub fn compile(pattern: &str) -> (r: Option<PathGlob>)
        ensures
            r matches Some(p) ==> p@ == pattern@,
    {
        match build_glob(pattern) {
            Some(g) => {
                let inner = compile_matcher(&g);
                Some(PathGlob { source: pattern.to_owned(), inner })
            },
            None => None,
        }
    }

    /// Whether this glob matches the path.
    pub fn is_match(&self, path: &str) -> (r: bool)
        ensures
            r == globset_match(self@, path@),
    {
        glob_is_match(self, path)
    }
}

/// The shape of the path a ticket carries: none at all, an absolute
/// path, or a relative one.
#[derive(Copy, Clone, Debug, PartialEq, Eq, Structural)]
pub enum PathKind {
    NilPathed,
    RelPathed,
    AbsPathed,
}

/// The path kind of an optional path: absent is nil, a path opening with
/// a separator is absolute, anything else is relative.
pub open spec fn spec_path_kind(path: Option<Seq<char>>) -> PathKind {
    match path {
        None => PathKind::NilPathed,
        Some(text) => if text.len() > 0 && text[0] == '/' {
            PathKind::AbsPathed
        } else {
            PathKind::RelPathed
        },
    }
}

impl PathKind {
    /// Classifies an optional path.
    pub fn of(path: Option<&String>) -> (r: PathKind)
        ensures
            r == spec_path_kind(
                match path {
                    Some(p) => Some(p@),
                    None => None,
                },
            ),
    {
        match path {
            None => PathKind::NilPathed,
            Some(text) => {
                let s = text.as_str();
                let n = s.unicode_len();
                if n > 0 && s.get_char(0) == '/' {
                    PathKind::AbsPathed
                } else {
                    PathKind::RelPathed
                }
            },
        }
    }
}

/// Which endpoints of an edge a ticket rule must hit for the edge to be
/// excluded: either one, both, only the source, or only the target.
#[derive(Copy, Clone, Debug, PartialEq, Eq, Structural)]
pub enum EdgeExclusionKind {
    Any,
    All,
    Src,
    Tgt,
}

impl EdgeExclusionKind {
    /// The exclusion kind a group of command-line flags selects, or
    /// nothing when no flag of the group is set. At most one flag of a
    /// group may be set.
    pub fn from_bools(any: bool, all: bool, src: bool, tgt: bool) -> (r: Option<
        EdgeExclusionKind,
    >)
        requires
            (any as int) + (all as int) + (src as int) + (tgt as int) <= 1,
        ensures
            r == if any {
                Some(EdgeExclusionKind::Any)
            } else if all {
                Some(EdgeExclusionKind::All)
            } else if src {
                Some(EdgeExclusionKind::Src)
            } else if tgt {
                Some(EdgeExclusionKind::Tgt)
            } else {
                None::<EdgeExclusionKind>
            },
    {
        if any {
            Some(EdgeExclusionKind::Any)
        } else if all {
            Some(EdgeExclusionKind::All)
        } else if src {
            Some(EdgeExclusionKind::Src)
        } else if tgt {
            Some(EdgeExclusionKind::Tgt)
        } else {
            None
        }
    }
}

/// A rule that decides one ticket: by the shape of its path, by a glob
/// over its path (paths that do not match are excluded), or by a list of
/// allowed paths (paths outside the list are excluded).
pub enum TicketExclusionRule {
    ByPathKind(PathKind),
    ByPattern(PathGlob),
    ByPathList(Vec<String>),
}

/// Whether a list holds the given path.
pub open spec fn spec_list_contains(list: Seq<Seq<char>>, path: Seq<char>) -> bool {
    exists|i: int| 0 <= i < list.len() && #[trigger] list[i] == path
}

/// Whether the rule excludes a ticket with the given path.
pub open spec fn spec_ticket_excluded(rule: &TicketExclusionRule, t: TicketView) -> bool {
    match rule {
        TicketExclusionRule::ByPathKind(k) => spec_path_kind(t.path) == *k,
        TicketExclusionRule::ByPattern(p) => match t.path {
            None => false,
            Some(path) => !globset_match(p@, path),
        },
        TicketExclusionRule::ByPathList(list) => match t.path {
            None => false,
            Some(path) => !spec_list_contains(list.deep_view(), path),
        },
    }
}

/// Whether the list holds the path, compared by characters.
fn list_contains(list: &Vec<String>, path: &String) -> (r: bool)
    ensures
        r == spec_list_contains(list.deep_view(), path@),
{
    let n = list.len();
    let mut i: usize = 0;
    while i < n
        invariant
            0 <= i <= n,
            n == list@.len(),
            forall|j: int| 0 <= j < i ==> (#[trigger] list@[j])@ != path@,
        decreases n - i,
    {
        if str_eq(list[i].as_str(), path.as_str()) {
            proof {
                assert(list.deep_view()[i as int] == path@);
            }
            return true;
        }
        i = i + 1;
    }
    proof {
        if spec_list_contains(list.deep_view(), path@) {
            let j = choose|j: int|
                0 <= j < list.deep_view().len() && #[trigger] list.deep_view()[j] == path@;
            assert((list@[j])@ == path@);
        }
    }
    false
}

impl TicketExclusionRule {
    /// Whether this rule excludes the ticket.
    pub fn is_excluded(&self, ticket: &Ticket) -> (r: bool)
        ensures
            r == spec_ticket_excluded(self, ticket@),
    {
        match self {
            TicketExclusionRule::ByPathKind(k) => {
                let observed = PathKind::of(
                    match &ticket.path {
                        Some(p) => Some(p),
                        None => None,
                    },
                );
                observed == *k
            },
            TicketExclusionRule::ByPattern(p) => match &ticket.path {
                None => false,
                Some(path) => !p.is_match(path.as_str()),
            },
            TicketExclusionRule::ByPathList(list) => match &ticket.path {
                None => false,
                Some(path) => !list_contains(list, path),
            },
        }
    }
}

/// A rule over whole records: the ticket rule applied to the endpoints
/// the exclusion kind names. A node record is excluded only under the
/// `Any` kind and only when nodes are not being kept.
pub struct EntryExclusionRule {
    pub kind: EdgeExclusionKind,
    pub ticket_rule: TicketExclusionRule,
    pub keep_nodes: bool,
}

/// Whether the rule excludes a record with the given endpoints.
pub open spec fn spec_entry_excluded(
    rule: &EntryExclusionRule,
    src: TicketView,
    tgt: Option<TicketView>,
) -> bool {
    match tgt {
        Some(t) => match rule.kind {
            EdgeExclusionKind::Any => spec_ticket_excluded(&rule.ticket_rule, src)
                || spec_ticket_excluded(&rule.ticket_rule, t),
            EdgeExclusionKind::All => spec_ticket_excluded(&rule.ticket_rule, src)
                && spec_ticket_excluded(&rule.ticket_rule, t),
            EdgeExclusionKind::Src => spec_ticket_excluded(&rule.ticket_rule, src),
            EdgeExclusionKind::Tgt => spec_ticket_excluded(&rule.ticket_rule, t),
        },
        None => match rule.kind {
            EdgeExclusionKind::Any => !rule.keep_nodes && spec_ticket_excluded(
                &rule.ticket_rule,
                src,
            ),
            _ => false,
        },
    }
}

impl EntryExclusionRule {
    /// Whether this rule excludes the record.
    pub fn is_excluded(&self, entry: &MiniEntryDto) -> (r: bool)
        ensures
            r == spec_entry_excluded(
                self,
                entry.src@,
                match entry.tgt {
                    Some(t) => Some(t@),
                    None => None,
                },
            ),
    {
        match &entry.tgt {
            Some(t) => match self.kind {
                EdgeExclusionKind::Any => self.ticket_rule.is_excluded(&entry.src)
                    || self.ticket_rule.is_excluded(t),
                EdgeExclusionKind::All => self.ticket_rule.is_excluded(&entry.src)
                    && self.ticket_rule.is_excluded(t),
                EdgeExclusionKind::Src => self.ticket_rule.is_excluded(&entry.src),
                EdgeExclusionKind::Tgt => self.ticket_rule.is_excluded(t),
            },
            None => match self.kind {
                EdgeExclusionKind::Any => !self.keep_nodes && self.ticket_rule.is_excluded(
                    &entry.src,
                ),
                _ => false,
            },
        }
    }
}

/// Whether any of the rules excludes the record.
pub open spec fn spec_any_excluded(
    rules: Seq<EntryExclusionRule>,
    src: TicketView,
    tgt: Option<TicketView>,
) -> bool {
    exists|i: int| 0 <= i < rules.len() && spec_entry_excluded(#[trigger] &rules[i], src, tgt)
}

/// Whether any rule of the list excludes the record.
pub fn any_excluded(rules: &Vec<EntryExclusionRule>, entry: &MiniEntryDto) -> (r: bool)
    ensures
        r == spec_any_excluded(
            rules@,
            entry.src@,
            match entry.tgt {
                Some(t) => Some(t@),
                None => None,
            },
        ),
{
    let n = rules.len();
    let mut i: usize = 0;
    while i < n
        invariant
            0 <= i <= n,
            n == rules@.len(),
            forall|j: int|
                0 <= j < i ==> !spec_entry_excluded(
                    #[trigger] &rules@[j],
                    entry.src@,
                    match entry.tgt {
                        Some(t) => Some(t@),
                        None => None,
                    },
                ),
        decreases n - i,
    {
        if rules[i].is_excluded(entry) {
            return true;
        }
        i = i + 1;
    }
    false
}

} // verus!
