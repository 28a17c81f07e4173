//! The names that a run has already given away.

use vstd::prelude::*;
use vstd::hash_set::StringHashSet;
use vstd::string::*;

verus! {

/// Whether `target` is free: not on disk and not in `claimed`.
pub open spec fn is_free(claimed: Set<Seq<char>>, target: Seq<char>, on_disk: bool) -> bool {
    !on_disk && !claimed.contains(target)
}

/// The claimed names after `target` was asked for: a free target joins
/// them, any other request changes nothing.
pub open spec fn after_claim(claimed: Set<Seq<char>>, target: Seq<char>, on_disk: bool) -> Set<
    Seq<char>,
> {
    if is_free(claimed, target, on_disk) {
        claimed.insert(target)
    } else {
        claimed
    }
}

/// The set of target paths claimed during one run. It starts empty and
/// only grows. Concurrent workers share one guard behind a lock and ask
/// the disk while they hold it, so that looking and claiming are one step.
pub struct ConflictGuard {
    claimed: StringHashSet,
}

impl View for ConflictGuard {
    type V = Set<Seq<char>>;

    closed spec fn view(&self) -> Set<Seq<char>> {
        self.claimed@
    }
}

impl ConflictGuard {
    /// A guard with no name claimed.
    pub fn new() -> (guard: ConflictGuard)
        ensures
            guard@ == Set::<Seq<char>>::empty(),
    {
        ConflictGuard { claimed: StringHashSet::new() }
    }

    /// Whether `target` was claimed in this run.
    pub fn is_claimed(&self, target: &str) -> (claimed: bool)
        ensures
            claimed == self@.contains(target@),
    {
        self.claimed.contains(target)
    }

    /// Asks for `target`; `on_disk` says whether a file of that path exists.
    /// The claim is granted exactly if the target is free, and is then
    /// recorded. A refused claim leaves the guard as it was.
    pub fn claim(&mut self, target: &str, on_disk: bool) -> (granted: bool)
        ensures
            granted == is_free(old(self)@, target@, on_disk),
            final(self)@ == after_claim(old(self)@, target@, on_disk),
    {
        if on_disk || self.claimed.contains(target) {
            false
        } else {
            self.claimed.insert(target.to_owned());
            true
        }
    }
}

} // verus!
