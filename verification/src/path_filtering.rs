//! Path-based filtering of fact records before they reach the graph:
//! compiled glob patterns over ticket paths, and the strategies for
//! records with and without a path.

use vstd::prelude::*;
use crate::ticket::Ticket;

verus! {

/// What `glob::Pattern::matches` yields for a pattern compiled from the
/// given pattern string, applied to the given text. The result depends
/// on the two strings alone.
pub uninterp spec fn glob_match(pattern: Seq<char>, s: Seq<char>) -> bool;

/// One compiled glob pattern, remembering the string it was compiled
/// from. Values exist only through `PathPattern::compile`, so the inner
/// matcher is always the compilation of the remembered source.
pub struct PathPattern {
    source: String,
    inner: glob::Pattern,
}

#[verifier::external_type_specification]
#[verifier::external_body]
pub struct ExGlobPattern(glob::Pattern);

/// Relies on glob::Pattern::new: compiles a pattern string, or reports
/// that the string is not a valid pattern.
#[verifier::external_body]
fn build_matcher(pattern: &str) -> Option<glob::Pattern> {
    match glob::Pattern::new(pattern) {
        Ok(p) => Some(p),
        Err(_) => None,
    }
}

/// Relies on glob::Pattern::matches: whether the pattern matches the
/// whole string; the result depends on the pattern's source string and
/// the matched string alone.
#[verifier::external_body]
fn matcher_matches(p: &PathPattern, s: &str) -> (r: bool)
    ensures
        r == glob_match(p@, s@),
{
    p.inner.matches(s)
}

impl View for PathPattern {
    type V = Seq<char>;

    closed spec fn view(&self) -> Seq<char> {
        self.source@
    }
}

impl PathPattern {
    /// Compiles one glob pattern string; an invalid pattern yields
    /// nothing.
    pub fn compile(pattern: &str) -> (r: Option<PathPattern>)
        ensures
            r matches Some(p) ==> p@ == pattern@,
    {
        match build_matcher(pattern) {
            Some(inner) => Some(PathPattern { source: pattern.to_owned(), inner }),
            None => None,
        }
    }

    /// Whether this pattern matches the whole string.
    pub fn matches(&self, s: &str) -> (r: bool)
        ensures
            r == glob_match(self@, s@),
    {
        matcher_matches(self, s)
    }
}

/// The string matches at least one of the patterns.
pub open spec fn spec_any_match(patterns: Seq<Seq<char>>, s: Seq<char>) -> bool {
    exists|i: int| 0 <= i < patterns.len() && glob_match(#[trigger] patterns[i], s)
}

/// A list of compiled glob patterns, matched disjunctively.
pub struct PatternList {
    patterns: Vec<PathPattern>,
}

impl View for PatternList {
    type V = Seq<Seq<char>>;

    closed spec fn view(&self) -> Seq<Seq<char>> {
        self.patterns@.map_values(|p: PathPattern| p@)
    }
}

impl PatternList {
    /// Compiles a list of pattern strings; the first invalid pattern
    /// fails the whole list and is reported.
    pub fn new(patterns: &Vec<String>) -> (r: Result<PatternList, String>)
        ensures
            r matches Ok(pl) ==> pl@ == patterns.deep_view(),
    {
        let n = patterns.len();
        let mut compiled: Vec<PathPattern> = Vec::new();
        let mut i: usize = 0;
        while i < n
            invariant
                0 <= i <= n,
                n == patterns@.len(),
                compiled@.len() == i,
                forall|j: int| 0 <= j < i ==> (#[trigger] compiled@[j])@ == patterns@[j]@,
            decreases n - i,
        {
            match PathPattern::compile(patterns[i].as_str()) {
                Some(p) => {
                    compiled.push(p);
                },
                None => {
                    return Err(patterns[i].clone());
                },
            }
            i = i + 1;
        }
        let pl = PatternList { patterns: compiled };
        proof {
            assert(pl@ =~= patterns.deep_view());
        }
        Ok(pl)
    }

    /// Whether any pattern of the list matches the whole string.
    pub fn matches(&self, s: &str) -> (r: bool)
        ensures
            r == spec_any_match(self@, s@),
    {
        let n = self.patterns.len();
        let mut i: usize = 0;
        while i < n
            invariant
                0 <= i <= n,
                n == self.patterns@.len(),
                forall|j: int| 0 <= j < i ==> !glob_match((#[trigger] self.patterns@[j])@, s@),
            decreases n - i,
        {
            if self.patterns[i].matches(s) {
                proof {
                    assert(glob_match(self@[i as int], s@));
                }
                return true;
            }
            i = i + 1;
        }
        proof {
            if spec_any_match(self@, s@) {
                let j = choose|j: int| 0 <= j < self@.len() && glob_match(#[trigger] self@[j], s@);
                assert((self.patterns@[j])@ == self@[j]);
            }
        }
        false
    }
}

/// What to do with a record whose ticket has a path: drop it, keep it,
/// or keep it only when the path matches a pattern of the list.
pub enum PathedStrategy {
    Exclude,
    Include,
    Only(PatternList),
}

/// What to do with a record whose ticket has no path.
#[derive(Copy, Clone, Debug, PartialEq, Eq, Structural)]
pub enum UnpathedStrategy {
    Exclude,
    Include,
}

/// The slice of a fact record that path filtering reads: the source
/// ticket and the target ticket, if the record is an edge.
#[derive(Debug)]
pub struct MiniEntryDto {
    pub src: Ticket,
    pub tgt: Option<Ticket>,
}

/// Whether a path is kept under the given strategies: a present path is
/// decided by the pathed strategy (matching against the pattern list
/// where one is given), an absent path by the unpathed strategy.
pub open spec fn spec_valid_path(
    pathed: &PathedStrategy,
    unpathed: UnpathedStrategy,
    path: Option<Seq<char>>,
) -> bool {
    match path {
        Some(text) => match pathed {
            PathedStrategy::Exclude => false,
            PathedStrategy::Include => true,
            PathedStrategy::Only(patterns) => spec_any_match(patterns@, text),
        },
        None => match unpathed {
            UnpathedStrategy::Exclude => false,
            UnpathedStrategy::Include => true,
        },
    }
}

/// A record filter over ticket paths.
pub struct EntryPathFilter {
    pub pathed_strat: PathedStrategy,
    pub unpathed_strat: UnpathedStrategy,
}

impl EntryPathFilter {
    /// A filter from the two strategies.
    pub fn new(pathed_strat: PathedStrategy, unpathed_strat: UnpathedStrategy) -> (r:
        EntryPathFilter)
        ensures
            r.pathed_strat == pathed_strat,
            r.unpathed_strat == unpathed_strat,
    {
        EntryPathFilter { pathed_strat, unpathed_strat }
    }

    /// Whether one optional path passes the filter.
    pub fn is_valid_path(&self, path: Option<&String>) -> (r: bool)
        ensures
            r == spec_valid_path(
                &self.pathed_strat,
                self.unpathed_strat,
                match path {
                    Some(p) => Some(p@),
                    None => None,
                },
            ),
    {
        match path {
            Some(text) => match &self.pathed_strat {
                PathedStrategy::Exclude => false,
                PathedStrategy::Include => true,
                PathedStrategy::Only(patterns) => patterns.matches(text.as_str()),
            },
            None => match self.unpathed_strat {
                UnpathedStrategy::Exclude => false,
                UnpathedStrategy::Include => true,
            },
        }
    }

    /// Whether a record passes the filter: its source path must pass,
    /// and, for an edge record, the target path too.
    pub fn is_valid_entry(&self, entry: &MiniEntryDto) -> (r: bool)
        ensures
            r == (spec_valid_path(&self.pathed_strat, self.unpathed_strat, entry.src@.path) && (
            match entry.tgt {
                Some(t) => spec_valid_path(&self.pathed_strat, self.unpathed_strat, t@.path),
                None => true,
            })),
    {
        let tgt_ok = match &entry.tgt {
            Some(t) => self.is_valid_path(match &t.path {
                Some(p) => Some(p),
                None => None,
            }),
            None => true,
        };
        let src_ok = self.is_valid_path(
            match &entry.src.path {
                Some(p) => Some(p),
                None => None,
            },
        );
        tgt_ok && src_ok
    }
}

} // verus!
