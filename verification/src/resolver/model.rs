//! What a repair is about, what can be done, and the tally of what was done.

use vstd::prelude::*;
use crate::fuzzy::ScoredCandidate;
use crate::text::{append_str, decimal, spec_decimal};

verus! {

/// One broken link to repair, with the candidates offered for it.
pub struct RepairCase {
    pub link: String,
    pub original_target: String,
    pub candidates: Vec<ScoredCandidate>,
}

impl RepairCase {
    /// A case made of exactly the given parts.
    pub fn new(link: String, original_target: String, candidates: Vec<ScoredCandidate>) -> (c: Self)
        ensures
            c.link == link,
            c.original_target == original_target,
            c.candidates == candidates,
    {
        Self { link, original_target, candidates }
    }

    /// Whether at least one candidate is offered.
    pub fn has_candidates(&self) -> (r: bool)
        ensures
            r == (self.candidates@.len() > 0),
    {
        self.candidates.len() != 0
    }
}

/// What is done to one broken link.
#[derive(Debug, Clone, PartialEq, Eq)]
pub enum Action {
    /// Point the link at this path instead.
    Relink(String),
    /// Delete the link.
    Remove,
    /// Leave the link as it is.
    Skip,
}

/// A link together with what was decided for it.
pub struct Resolution {
    pub link: String,
    pub action: Action,
}

/// How many links were relinked, removed and skipped.
#[derive(Debug)]
pub struct Summary {
    pub relinked: usize,
    pub removed: usize,
    pub skipped: usize,
}

impl Default for Summary {
    fn default() -> (s: Self)
        ensures
            s.relinked == 0,
            s.removed == 0,
            s.skipped == 0,
    {
        Summary { relinked: 0, removed: 0, skipped: 0 }
    }
}

/// The number of links a summary accounts for.
pub open spec fn spec_total(s: Summary) -> int {
    s.relinked + s.removed + s.skipped
}

/// `s` after one more `action` was taken.
pub open spec fn recorded(s: Summary, action: Action) -> Summary {
    match action {
        Action::Relink(_) => Summary { relinked: (s.relinked + 1) as usize, ..s },
        Action::Remove => Summary { removed: (s.removed + 1) as usize, ..s },
        Action::Skip => Summary { skipped: (s.skipped + 1) as usize, ..s },
    }
}

/// The counter that `action` adds to has room for one more.
pub open spec fn can_record(s: Summary, action: Action) -> bool {
    match action {
        Action::Relink(_) => s.relinked < usize::MAX,
        Action::Remove => s.removed < usize::MAX,
        Action::Skip => s.skipped < usize::MAX,
    }
}

impl Summary {
    /// Counts one more `action`: exactly one counter, the one of the
    /// action's kind, goes up by one.
    pub fn record(&mut self, action: &Action)
        requires
            can_record(*old(self), *action),
        ensures
            *final(self) == recorded(*old(self), *action),
    {
        match action {
            Action::Relink(_) => self.relinked += 1,
            Action::Remove => self.removed += 1,
            Action::Skip => self.skipped += 1,
        }
    }

    /// The number of links accounted for.
    pub fn total(&self) -> (t: usize)
        requires
            spec_total(*self) <= usize::MAX,
        ensures
            t == spec_total(*self),
    {
        self.relinked + self.removed + self.skipped
    }

    /// `N fixed, N skipped, N removed`, the closing line of a repair session.
    pub fn to_string(&self) -> (s: String)
        ensures
            s@ == spec_decimal(self.relinked as nat) + " fixed, "@ + spec_decimal(
                self.skipped as nat,
            ) + " skipped, "@ + spec_decimal(self.removed as nat) + " removed"@,
    {
        let mut s = decimal(self.relinked);
        append_str(&mut s, " fixed, ");
        append_str(&mut s, decimal(self.skipped).as_str());
        append_str(&mut s, " skipped, ");
        append_str(&mut s, decimal(self.removed).as_str());
        append_str(&mut s, " removed");
        s
    }
}

/// Recording an action adds exactly one to the total.
pub proof fn lemma_record_adds_one(s: Summary, action: Action)
    requires
        can_record(s, action),
    ensures
        spec_total(recorded(s, action)) == spec_total(s) + 1,
{
}

/// Recording an action adds one to the counter of its kind and leaves the
/// other two counters as they were.
pub proof fn lemma_record_counts_its_kind(s: Summary, action: Action)
    requires
        can_record(s, action),
    ensures
        recorded(s, action).relinked == s.relinked + if action is Relink { 1int } else { 0 },
        recorded(s, action).removed == s.removed + if action is Remove { 1int } else { 0 },
        recorded(s, action).skipped == s.skipped + if action is Skip { 1int } else { 0 },
{
}

/// Whatever the order in which two actions are recorded, the summary ends
/// the same.
pub proof fn lemma_record_commutes(s: Summary, a: Action, b: Action)
    requires
        can_record(s, a),
        can_record(recorded(s, a), b),
    ensures
        can_record(s, b),
        can_record(recorded(s, b), a),
        recorded(recorded(s, a), b) == recorded(recorded(s, b), a),
{
}

} // verus!
