//! External node identities (tickets), the file-key projection used to
//! correlate anchors with file nodes, and dense node indices.

use vstd::prelude::*;

verus! {

/// External identity of a graph node: five optional strings. Two records
/// with equal tickets denote the same node.
#[derive(Debug, Clone)]
pub struct Ticket {
    pub corpus: Option<String>,
    pub language: Option<String>,
    pub path: Option<String>,
    pub root: Option<String>,
    pub signature: Option<String>,
}

/// Mathematical image of a `Ticket`: each string replaced by its
/// character sequence.
#[verifier::ext_equal]
pub ghost struct TicketView {
    pub corpus: Option<Seq<char>>,
    pub language: Option<Seq<char>>,
    pub path: Option<Seq<char>>,
    pub root: Option<Seq<char>>,
    pub signature: Option<Seq<char>>,
}

impl View for Ticket {
    type V = TicketView;

    open spec fn view(&self) -> TicketView {
        TicketView {
            corpus: self.corpus.deep_view(),
            language: self.language.deep_view(),
            path: self.path.deep_view(),
            root: self.root.deep_view(),
            signature: self.signature.deep_view(),
        }
    }
}

/// A copy of an optional string with the same characters.
pub fn clone_opt_str(o: &Option<String>) -> (r: Option<String>)
    ensures
        r.deep_view() == o.deep_view(),
{
    match o {
        Some(s) => Some(s.clone()),
        None => None,
    }
}

/// Equality of optional strings, decided on the character sequences.
pub fn opt_str_eq(a: &Option<String>, b: &Option<String>) -> (r: bool)
    ensures
        r == (a.deep_view() == b.deep_view()),
{
    match a {
        None => match b {
            None => true,
            Some(_) => false,
        },
        Some(x) => match b {
            None => false,
            Some(y) => *x == *y,
        },
    }
}

impl Ticket {
    /// A copy of this ticket that denotes the same identity.
    pub fn dup(&self) -> (t: Ticket)
        ensures
            t@ == self@,
    {
        let t = Ticket {
            corpus: clone_opt_str(&self.corpus),
            language: clone_opt_str(&self.language),
            path: clone_opt_str(&self.path),
            root: clone_opt_str(&self.root),
            signature: clone_opt_str(&self.signature),
        };
        proof {
            assert(t@ =~= self@);
        }
        t
    }

    /// Decides whether two tickets carry the same five identity fields.
    pub fn ticket_eq(&self, other: &Ticket) -> (r: bool)
        ensures
            r == (self@ == other@),
    {
        let r = opt_str_eq(&self.corpus, &other.corpus)
            && opt_str_eq(&self.language, &other.language)
            && opt_str_eq(&self.path, &other.path)
            && opt_str_eq(&self.root, &other.root)
            && opt_str_eq(&self.signature, &other.signature);
        proof {
            if r {
                assert(self@ =~= other@);
            }
        }
        r
    }
}

/// Dense handle of a node, assigned in first-occurrence order.
#[derive(Copy, Clone, Debug, Default, PartialEq, Eq, Structural, Hash)]
pub struct NodeIndex(pub usize);

/// Sub-projection of a ticket that identifies the file a node lives in.
#[derive(Debug, Clone)]
pub struct FileKey {
    pub corpus: Option<String>,
    pub path: Option<String>,
    pub root: Option<String>,
}

/// Mathematical image of a `FileKey`.
#[verifier::ext_equal]
pub ghost struct FileKeyView {
    pub corpus: Option<Seq<char>>,
    pub path: Option<Seq<char>>,
    pub root: Option<Seq<char>>,
}

impl View for FileKey {
    type V = FileKeyView;

    open spec fn view(&self) -> FileKeyView {
        FileKeyView {
            corpus: self.corpus.deep_view(),
            path: self.path.deep_view(),
            root: self.root.deep_view(),
        }
    }
}

/// The file key a ticket projects to.
pub open spec fn spec_file_key(t: TicketView) -> FileKeyView {
    FileKeyView { corpus: t.corpus, path: t.path, root: t.root }
}

impl FileKey {
    /// Projects a ticket onto its file key (corpus, path, root).
    pub fn from_ticket(ticket: &Ticket) -> (r: FileKey)
        ensures
            r@ == spec_file_key(ticket@),
    {
        FileKey {
            corpus: ticket.corpus.clone(),
            path: ticket.path.clone(),
            root: ticket.root.clone(),
        }
    }

    /// Decides whether two file keys are equal.
    pub fn key_eq(&self, other: &FileKey) -> (r: bool)
        ensures
            r == (self@ == other@),
    {
        let r = opt_str_eq(&self.corpus, &other.corpus)
            && opt_str_eq(&self.path, &other.path)
            && opt_str_eq(&self.root, &other.root);
        proof {
            if r {
                assert(self@ =~= other@);
            }
        }
        r
    }
}

} // verus!
