//! The decisions around the rename of one file.
//!
//! The caller reads the file, asks [`crate::name::get_new_name`] for the
//! target, looks for the target on disk and calls [`rename_file`] while it
//! holds the guard. A granted rename is carried out by the caller and
//! closed with [`Granted::finish`].

use vstd::prelude::*;
use vstd::string::*;
use crate::digest::Digest;
use crate::guard::{ConflictGuard, after_claim, is_free};
use crate::name::{lemma_target_path_is_fixed_point, target_path_of};
use crate::outcome::{FileError, RenameOutcome, SkipReason};

verus! {

/// Whether the file at `from` may be renamed to `to`: the two differ and
/// the target is free.
pub open spec fn may_rename(claimed: Set<Seq<char>>, from: Seq<char>, to: Seq<char>, on_disk: bool) -> bool {
    from != to && is_free(claimed, to, on_disk)
}

/// The claimed names after the request: a file that already carries its
/// target name claims nothing.
pub open spec fn claimed_after(claimed: Set<Seq<char>>, from: Seq<char>, to: Seq<char>, on_disk: bool) -> Set<
    Seq<char>,
> {
    if from == to {
        claimed
    } else {
        after_claim(claimed, to, on_disk)
    }
}

/// One request to a guard, as [`rename_file`] takes it.
pub struct Request {
    pub from: Seq<char>,
    pub to: Seq<char>,
    pub on_disk: bool,
}

/// The claimed names after each of `requests` was decided, in order.
pub open spec fn claimed_after_all(claimed: Set<Seq<char>>, requests: Seq<Request>) -> Set<
    Seq<char>,
>
    decreases requests.len(),
{
    if requests.len() == 0 {
        claimed
    } else {
        let last = requests.last();
        claimed_after(
            claimed_after_all(claimed, requests.drop_last()),
            last.from,
            last.to,
            last.on_disk,
        )
    }
}

/// Whether request `i` of `requests` is granted when they are decided in
/// order, starting from `claimed`.
pub open spec fn granted_at(claimed: Set<Seq<char>>, requests: Seq<Request>, i: int) -> bool {
    may_rename(
        claimed_after_all(claimed, requests.take(i)),
        requests[i].from,
        requests[i].to,
        requests[i].on_disk,
    )
}

/// The right to rename one file: its target is reserved in the guard.
#[derive(Debug)]
pub struct Granted {
    from: String,
    to: String,
}

impl Granted {
    /// The path of the file as it is.
    pub closed spec fn source(&self) -> Seq<char> {
        self.from@
    }

    /// The path the file is to get.
    pub closed spec fn target(&self) -> Seq<char> {
        self.to@
    }

    /// The path to rename from.
    pub fn from(&self) -> (path: &str)
        ensures
            path@ == self.source(),
    {
        self.from.as_str()
    }

    /// The path to rename to.
    pub fn to(&self) -> (path: &str)
        ensures
            path@ == self.target(),
    {
        self.to.as_str()
    }

    /// Closes the rename with what the system answered: `Ok` when the file
    /// was renamed, else the system's message. A failed rename is not
    /// tried again.
    pub fn finish(self, result: Result<(), String>) -> (outcome: RenameOutcome)
        ensures
            match result {
                Ok(_) => outcome.is_renamed(self.source(), self.target()),
                Err(message) => outcome.is_rename_failure(self.source(), message@),
            },
    {
        match result {
            Ok(_) => RenameOutcome::Renamed { from: self.from, to: self.to },
            Err(message) => RenameOutcome::Failed {
                from: self.from,
                error: FileError::Rename(message),
            },
        }
    }
}

/// Decides whether the file at `from` is renamed to `to`; `on_disk` says
/// whether a file of the path `to` exists.
///
/// The rename is granted exactly if `to` differs from `from`, is not on
/// disk and was not claimed in this run; `to` is then claimed. Otherwise
/// the file is skipped and the guard stays as it was.
pub fn rename_file(guard: &mut ConflictGuard, from: &str, to: &str, on_disk: bool) -> (result:
    Result<Granted, RenameOutcome>)
    ensures
        final(guard)@ == claimed_after(old(guard)@, from@, to@, on_disk),
        match result {
            Ok(granted) => {
                &&& may_rename(old(guard)@, from@, to@, on_disk)
                &&& granted.source() == from@
                &&& granted.target() == to@
            },
            Err(outcome) => {
                &&& !may_rename(old(guard)@, from@, to@, on_disk)
                &&& outcome.is_skipped(from@, to@)
            },
        },
{
    let source = from.to_owned();
    let target = to.to_owned();
    if source != target && guard.claim(to, on_disk) {
        Ok(Granted { from: source, to: target })
    } else {
        Err(RenameOutcome::Skipped { from: source, reason: SkipReason::TargetExists(target) })
    }
}

/// A target that is on disk is never granted, and asking for it changes
/// nothing: the file is skipped and both files stay as they are.
pub proof fn lemma_existing_target_is_kept(claimed: Set<Seq<char>>, from: Seq<char>, to: Seq<char>)
    ensures
        !may_rename(claimed, from, to, true),
        claimed_after(claimed, from, to, true) == claimed,
{
}

/// A file that carries the name of its content is skipped, whatever the
/// guard holds and whatever was seen on disk. This is so for every file
/// that a run has renamed: its path is then its own target.
pub proof fn lemma_named_file_is_skipped(
    claimed: Set<Seq<char>>,
    path: Seq<char>,
    digest: Digest,
    on_disk: bool,
)
    ensures
        ({
            let renamed = target_path_of(path, digest@);
            let target = target_path_of(renamed, digest@);
            &&& target == renamed
            &&& !may_rename(claimed, renamed, target, on_disk)
            &&& claimed_after(claimed, renamed, target, on_disk) == claimed
        }),
{
    lemma_target_path_is_fixed_point(path, digest);
}

/// The claimed names only grow, and a granted target is among them.
pub proof fn lemma_claims_only_grow(
    claimed: Set<Seq<char>>,
    from: Seq<char>,
    to: Seq<char>,
    on_disk: bool,
)
    ensures
        claimed.subset_of(claimed_after(claimed, from, to, on_disk)),
        may_rename(claimed, from, to, on_disk) ==> claimed_after(
            claimed,
            from,
            to,
            on_disk,
        ).contains(to),
{
}

/// Over a whole run the claimed names only grow.
pub proof fn lemma_run_only_grows(claimed: Set<Seq<char>>, requests: Seq<Request>, i: int)
    requires
        0 <= i <= requests.len(),
    ensures
        claimed.subset_of(claimed_after_all(claimed, requests.take(i))),
        claimed_after_all(claimed, requests.take(i)).subset_of(
            claimed_after_all(claimed, requests),
        ),
    decreases requests.len() - i,
{
    lemma_prefix_only_grows(claimed, requests.take(i));
    if i == requests.len() {
        assert(requests.take(i) =~= requests);
    } else {
        let last = requests.last();
        let front = requests.drop_last();
        assert(front.take(i) =~= requests.take(i));
        lemma_run_only_grows(claimed, front, i);
        lemma_claims_only_grow(
            claimed_after_all(claimed, front),
            last.from,
            last.to,
            last.on_disk,
        );
    }
}

proof fn lemma_prefix_only_grows(claimed: Set<Seq<char>>, requests: Seq<Request>)
    ensures
        claimed.subset_of(claimed_after_all(claimed, requests)),
    decreases requests.len(),
{
    if requests.len() > 0 {
        let last = requests.last();
        lemma_prefix_only_grows(claimed, requests.drop_last());
        lemma_claims_only_grow(
            claimed_after_all(claimed, requests.drop_last()),
            last.from,
            last.to,
            last.on_disk,
        );
    }
}

/// In one run no target is granted twice: of two requests for one target
/// at most one is granted, whatever was decided between them.
pub proof fn lemma_target_granted_once(
    claimed: Set<Seq<char>>,
    requests: Seq<Request>,
    i: int,
    j: int,
)
    requires
        0 <= i < j < requests.len(),
        requests[i].to == requests[j].to,
    ensures
        !(granted_at(claimed, requests, i) && granted_at(claimed, requests, j)),
{
    if granted_at(claimed, requests, i) {
        let first = requests[i];
        let before = claimed_after_all(claimed, requests.take(i));
        let upto = requests.take(j);
        assert(upto.take(i + 1).drop_last() =~= requests.take(i));
        assert(upto.take(i + 1).last() == first);
        assert(claimed_after_all(claimed, upto.take(i + 1)).contains(first.to));
        lemma_run_only_grows(claimed, upto, i + 1);
        assert(claimed_after_all(claimed, upto).contains(first.to));
    }
}

/// Of two files with one target exactly one is renamed, provided the
/// target is free when the first is decided and the first does not carry
/// the target's name already: the first is granted, the second skipped.
pub proof fn lemma_duplicates_renamed_once(
    claimed: Set<Seq<char>>,
    first: Request,
    second: Request,
)
    requires
        first.to == second.to,
        first.from != first.to,
        is_free(claimed, first.to, first.on_disk),
    ensures
        may_rename(claimed, first.from, first.to, first.on_disk),
        !may_rename(
            claimed_after(claimed, first.from, first.to, first.on_disk),
            second.from,
            second.to,
            second.on_disk,
        ),
{
}

} // verus!
