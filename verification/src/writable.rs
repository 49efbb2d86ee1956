//! Decision logic of the writability checker.
//!
//! Whether a path is writable is probed by the caller (opening a file for
//! writing, or creating and removing a probe file inside a directory); the
//! bounded retry policy, the verdict, and the choice of a probe-file name
//! that does not collide with existing entries are decided here.

use vstd::prelude::*;

use crate::text::dec_spec;
use crate::text::u16_to_dec;

verus! {

/// The number of attempts a writability probe makes before giving up.
pub const MAX_ATTEMPTS: usize = 10;

/// The fixed delay, in milliseconds, between two probe attempts.
pub const RETRY_DELAY_MS: u64 = 100;

/// The number of numbered probe-name variants tried after the plain name.
pub const PROBE_NAME_VARIANTS: u16 = 100;

/// Verdict of the bounded retry policy over a run of attempt outcomes,
/// `attempts_done` of the budget already being spent: the check succeeds
/// exactly when an attempt succeeds before the budget runs out.
pub open spec fn retry_accepts(outcomes: Seq<bool>, attempts_done: nat) -> bool
    decreases outcomes.len(),
{
    if outcomes.len() == 0 {
        false
    } else if outcomes[0] {
        true
    } else if attempts_done + 1 >= MAX_ATTEMPTS {
        false
    } else {
        retry_accepts(outcomes.drop_first(), attempts_done + 1)
    }
}

/// The retry policy accepts a run exactly when one of its first
/// `MAX_ATTEMPTS` outcomes is a success.  In particular, a file whose
/// write permission is denied on every attempt is reported unwritable,
/// and one whose permission is restored between attempts is reported
/// writable.
pub proof fn lemma_retry_policy(outcomes: Seq<bool>)
    ensures
        retry_accepts(outcomes, 0) <==> exists|i: int|
            0 <= i < outcomes.len() && i < MAX_ATTEMPTS && #[trigger] outcomes[i],
{
    lemma_retry_accepts_iff(outcomes, 0);
}

proof fn lemma_retry_accepts_iff(outcomes: Seq<bool>, attempts_done: nat)
    requires
        attempts_done < MAX_ATTEMPTS,
    ensures
        retry_accepts(outcomes, attempts_done) <==> exists|i: int|
            0 <= i < outcomes.len() && i + attempts_done < MAX_ATTEMPTS && #[trigger] outcomes[i],
    decreases outcomes.len(),
{
    if outcomes.len() == 0 {
    } else if outcomes[0] {
        assert(outcomes[0]);
    } else if attempts_done + 1 >= MAX_ATTEMPTS {
        assert forall|i: int|
            0 <= i < outcomes.len() && i + attempts_done < MAX_ATTEMPTS implies !(
        #[trigger] outcomes[i]) by {
            assert(i == 0);
        }
    } else {
        let rest = outcomes.drop_first();
        lemma_retry_accepts_iff(rest, attempts_done + 1);
        assert(forall|i: int| 0 <= i < rest.len() ==> rest[i] == outcomes[i + 1]);
        if retry_accepts(outcomes, attempts_done) {
            let i = choose|i: int|
                0 <= i < rest.len() && i + attempts_done + 1 < MAX_ATTEMPTS && #[trigger] rest[i];
            assert(outcomes[i + 1]);
        } else {
            assert forall|i: int|
                0 <= i < outcomes.len() && i + attempts_done < MAX_ATTEMPTS implies !(
            #[trigger] outcomes[i]) by {
                if i > 0 {
                    assert(rest[i - 1] == outcomes[i]);
                }
            }
        }
    }
}

/// What the caller must do after one probe attempt.
#[derive(PartialEq, Eq, Structural, Clone, Copy, Debug)]
pub enum RetryStep {
    /// The path is writable; stop probing.
    Accept,
    /// Wait the given number of milliseconds, then probe again.
    RetryAfter(u64),
    /// The attempt budget is spent; the path is not writable.
    GiveUp,
}

/// One step of the retry policy: `attempts_done` attempts have already
/// failed and the latest attempt ended with `success`.
pub fn retry_step(attempts_done: usize, success: bool) -> (r: RetryStep)
    requires
        attempts_done < MAX_ATTEMPTS,
    ensures
        success ==> r == RetryStep::Accept,
        !success && attempts_done + 1 < MAX_ATTEMPTS ==> r == RetryStep::RetryAfter(
            RETRY_DELAY_MS,
        ),
        !success && attempts_done + 1 >= MAX_ATTEMPTS ==> r == RetryStep::GiveUp,
{
    if success {
        RetryStep::Accept
    } else if attempts_done + 1 < MAX_ATTEMPTS {
        RetryStep::RetryAfter(RETRY_DELAY_MS)
    } else {
        RetryStep::GiveUp
    }
}

/// Outcome of one directory probe attempt, as observed by the caller.
#[derive(PartialEq, Eq, Structural, Clone, Copy)]
pub enum ProbeOutcome {
    /// The probe file was created exclusively and removed again.
    Created,
    /// The probe file could not be created.
    CreateFailed,
    /// The probe file was created but could not be removed; the attempt
    /// counts as failed so that the probe file is not leaked silently.
    DeleteFailed,
}

/// A directory probe attempt succeeds only when the probe file was both
/// created and removed.
pub fn dir_attempt_ok(o: ProbeOutcome) -> (r: bool)
    ensures
        r == (o == ProbeOutcome::Created),
{
    match o {
        ProbeOutcome::Created => true,
        ProbeOutcome::CreateFailed => false,
        ProbeOutcome::DeleteFailed => false,
    }
}

/// When the directory check accepts a run of probe attempts, some attempt
/// created the probe file and removed it again: an accepting run leaves no
/// residual probe file behind.
pub proof fn lemma_accept_leaves_no_probe_file(outcomes: Seq<ProbeOutcome>)
    requires
        retry_accepts(outcomes.map_values(|o: ProbeOutcome| o == ProbeOutcome::Created), 0),
    ensures
        exists|i: int|
            0 <= i < outcomes.len() && #[trigger] outcomes[i] == ProbeOutcome::Created,
{
    let flags = outcomes.map_values(|o: ProbeOutcome| o == ProbeOutcome::Created);
    lemma_retry_policy(flags);
    let i = choose|i: int| 0 <= i < flags.len() && i < MAX_ATTEMPTS && #[trigger] flags[i];
    assert(outcomes[i] == ProbeOutcome::Created);
}

/// The probe-file name tried at position `i`: the plain name first, then
/// numbered variants.
pub open spec fn probe_name_spec(i: int) -> Seq<char> {
    if i == 0 {
        "write_test"@
    } else {
        "write_test."@ + dec_spec(i - 1)
    }
}

/// Render the probe-file name tried at position `i`.
pub fn probe_name(i: u16) -> (r: String)
    requires
        i <= PROBE_NAME_VARIANTS,
    ensures
        r@ == probe_name_spec(i as int),
{
    if i == 0 {
        "write_test".to_owned()
    } else {
        let mut s: String = "write_test.".to_owned();
        let digits: String = u16_to_dec(i - 1);
        s.append(digits.as_str());
        s
    }
}

/// Whether `name` occurs among the names `taken`.
pub open spec fn name_taken(taken: Seq<Seq<char>>, name: Seq<char>) -> bool {
    exists|k: int| 0 <= k < taken.len() && #[trigger] taken[k] == name
}

/// The first probe name, in try order, that is not taken; `None` when the
/// plain name and all numbered variants are taken.
pub open spec fn choose_probe_spec(taken: Seq<Seq<char>>, i: int) -> Option<Seq<char>>
    decreases PROBE_NAME_VARIANTS + 1 - i,
{
    if i < 0 || i > PROBE_NAME_VARIANTS {
        None
    } else if !name_taken(taken, probe_name_spec(i)) {
        Some(probe_name_spec(i))
    } else {
        choose_probe_spec(taken, i + 1)
    }
}

/// The chooser gives a name up only when the plain probe name and every
/// numbered variant collide with an existing entry: as long as one
/// candidate is free, some name is chosen rather than reporting failure
/// prematurely.
pub proof fn lemma_probe_name_exhaustion(taken: Seq<Seq<char>>)
    ensures
        (choose_probe_spec(taken, 0) is None) <==> (forall|i: int|
            0 <= i <= PROBE_NAME_VARIANTS ==> name_taken(taken, #[trigger] probe_name_spec(i))),
{
    lemma_probe_name_exhaustion_rec(taken, 0);
}

proof fn lemma_probe_name_exhaustion_rec(taken: Seq<Seq<char>>, j: int)
    requires
        0 <= j <= PROBE_NAME_VARIANTS + 1,
    ensures
        (choose_probe_spec(taken, j) is None) <==> (forall|i: int|
            j <= i <= PROBE_NAME_VARIANTS ==> name_taken(taken, #[trigger] probe_name_spec(i))),
    decreases PROBE_NAME_VARIANTS + 1 - j,
{
    if j <= PROBE_NAME_VARIANTS {
        lemma_probe_name_exhaustion_rec(taken, j + 1);
    }
}

/// Whether `name` occurs in `taken`.
fn contains_name(taken: &Vec<String>, name: &String) -> (r: bool)
    ensures
        r == name_taken(taken.deep_view(), name@),
{
    let mut k: usize = 0;
    while k < taken.len()
        invariant
            0 <= k <= taken.len(),
            forall|j: int| 0 <= j < k ==> taken.deep_view()[j] != name@,
        decreases taken.len() - k,
    {
        if crate::text::str_eq(taken[k].as_str(), name.as_str()) {
            assert(taken.deep_view()[k as int] == name@);
            return true;
        }
        k += 1;
    }
    false
}

/// Choose a probe-file name that does not collide with the directory
/// entries `taken`: the plain name, or the first free numbered variant;
/// `None` when the plain name and all numbered variants collide.
pub fn choose_probe_name(taken: &Vec<String>) -> (r: Option<String>)
    ensures
        match r {
            Some(name) => choose_probe_spec(taken.deep_view(), 0) == Some(name@),
            None => choose_probe_spec(taken.deep_view(), 0) is None,
        },
{
    let ghost t = taken.deep_view();
    let mut i: u16 = 0;
    while i <= PROBE_NAME_VARIANTS
        invariant
            0 <= i <= PROBE_NAME_VARIANTS + 1,
            t == taken.deep_view(),
            choose_probe_spec(t, 0) == choose_probe_spec(t, i as int),
        decreases PROBE_NAME_VARIANTS + 1 - i,
    {
        let name: String = probe_name(i);
        if !contains_name(taken, &name) {
            return Some(name);
        }
        i += 1;
    }
    None
}

} // verus!
