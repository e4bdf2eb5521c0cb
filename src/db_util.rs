use vstd::prelude::*;

verus! {

/// How many insert attempts are made before a URL is given up.
pub const RETRY_CNT: usize = 5;

/// Seconds to wait between a failed insert attempt and the next one.
pub const RETRY_SLEEP: u64 = 1;

/// One URL sighting, as it goes into the `url` table.
#[derive(Debug)]
pub struct UrlCtx {
    /// Seconds since the Unix epoch.
    pub ts: i64,
    pub chan: String,
    pub nick: String,
    pub url: String,
}

/// Sightings of one URL in one channel within a time window.
#[derive(Debug, Clone, Copy, PartialEq, Eq, Structural)]
pub struct CheckUrl {
    pub cnt: i64,
    pub min: Option<i64>,
    pub max: Option<i64>,
}

/// The result of a window check from the aggregate row the store returned.
/// A missing row means no sightings: the result is still present, with a
/// count of zero.
pub fn window_result(row: Option<CheckUrl>) -> (r: CheckUrl)
    ensures
        match row {
            Some(c) => r == c,
            None => r == CheckUrl { cnt: 0, min: None, max: None },
        },
{
    match row {
        Some(c) => c,
        None => CheckUrl { cnt: 0, min: None, max: None },
    }
}

/// The earliest timestamp, exclusive, of a window of `expire_s` seconds that
/// ends at `now`; `None` where it does not fit in an `i64`.
pub fn window_start(now: i64, expire_s: i64) -> (r: Option<i64>)
    ensures
        r == (if i64::MIN <= now - expire_s <= i64::MAX {
            Some((now - expire_s) as i64)
        } else {
            None
        }),
{
    if expire_s >= 0 {
        if now >= i64::MIN + expire_s {
            Some(now - expire_s)
        } else {
            None
        }
    } else {
        if now <= i64::MAX + expire_s {
            Some(now - expire_s)
        } else {
            None
        }
    }
}

/// What an insert sequence does next.
#[derive(Debug, Clone, Copy, PartialEq, Eq, Structural)]
pub enum AddUrlStep {
    /// Run the insert statement and report its outcome.
    Insert,
    /// Wait `RETRY_SLEEP` seconds after a failed attempt, before the next one.
    Backoff,
    /// Set the change marker to the current time.
    MarkChange,
    /// The sequence is over; `rows` holds the rows inserted.
    Done,
}

/// The decisions of one insert of a URL: bounded retries with a pause between
/// two attempts, then the change marker, whether or not the insert succeeded.
#[derive(Debug, Clone, Copy, PartialEq, Eq, Structural)]
pub struct AddUrlRun {
    pub step: AddUrlStep,
    /// Insert attempts made so far.
    pub attempts: usize,
    /// Whether an attempt succeeded.
    pub inserted: bool,
    /// Rows reported by the successful attempt, else 0.
    pub rows: u64,
    /// Whether the change marker is to be set when the sequence ends.
    pub update_change: bool,
    /// Whether the change marker has been set.
    pub marked: bool,
}

/// The state in which an insert sequence starts.
pub open spec fn initial_run(update_change: bool) -> AddUrlRun {
    AddUrlRun {
        step: AddUrlStep::Insert,
        attempts: 0,
        inserted: false,
        rows: 0,
        update_change,
        marked: false,
    }
}

/// The step that ends the attempts: the change marker if it is kept.
pub open spec fn closing_step(update_change: bool) -> AddUrlStep {
    if update_change {
        AddUrlStep::MarkChange
    } else {
        AddUrlStep::Done
    }
}

/// The states an insert sequence can reach from `initial_run`.
pub open spec fn run_wf(s: AddUrlRun) -> bool {
    &&& s.attempts <= RETRY_CNT
    &&& s.step == AddUrlStep::Insert ==> s.attempts < RETRY_CNT && !s.inserted
    &&& s.step == AddUrlStep::Backoff ==> 1 <= s.attempts < RETRY_CNT && !s.inserted
    &&& s.step == AddUrlStep::MarkChange ==> s.update_change
    &&& s.marked ==> s.update_change
}

/// After an insert attempt: `Some(n)` is a success that reported `n` rows,
/// `None` a failure, which is followed by a pause and another attempt while
/// the bound allows one.
pub open spec fn after_insert(s: AddUrlRun, outcome: Option<u64>) -> AddUrlRun {
    match outcome {
        Some(n) => AddUrlRun {
            step: closing_step(s.update_change),
            attempts: (s.attempts + 1) as usize,
            inserted: true,
            rows: n,
            ..s
        },
        None => AddUrlRun {
            step: if s.attempts + 1 < RETRY_CNT {
                AddUrlStep::Backoff
            } else {
                closing_step(s.update_change)
            },
            attempts: (s.attempts + 1) as usize,
            ..s
        },
    }
}

/// After the pause that follows a failure: the next attempt.
pub open spec fn after_backoff(s: AddUrlRun) -> AddUrlRun {
    AddUrlRun { step: AddUrlStep::Insert, ..s }
}

/// After the change marker was set.
pub open spec fn after_mark(s: AddUrlRun) -> AddUrlRun {
    AddUrlRun { step: AddUrlStep::Done, marked: true, ..s }
}

impl AddUrlRun {
    /// A sequence that has made no attempt yet.
    pub fn new(update_change: bool) -> (r: AddUrlRun)
        ensures
            r == initial_run(update_change),
            run_wf(r),
    {
        AddUrlRun {
            step: AddUrlStep::Insert,
            attempts: 0,
            inserted: false,
            rows: 0,
            update_change,
            marked: false,
        }
    }

    /// Records the outcome of the insert attempt that `Insert` asked for.
    pub fn record_insert(&mut self, outcome: Option<u64>)
        requires
            run_wf(*old(self)),
            old(self).step == AddUrlStep::Insert,
        ensures
            *final(self) == after_insert(*old(self), outcome),
            run_wf(*final(self)),
    {
        self.attempts = self.attempts + 1;
        match outcome {
            Some(n) => {
                self.inserted = true;
                self.rows = n;
                self.step = if self.update_change {
                    AddUrlStep::MarkChange
                } else {
                    AddUrlStep::Done
                };
            },
            None => {
                self.step = if self.attempts < RETRY_CNT {
                    AddUrlStep::Backoff
                } else if self.update_change {
                    AddUrlStep::MarkChange
                } else {
                    AddUrlStep::Done
                };
            },
        }
    }

    /// Records that the pause that `Backoff` asked for is over.
    pub fn record_backoff(&mut self)
        requires
            run_wf(*old(self)),
            old(self).step == AddUrlStep::Backoff,
        ensures
            *final(self) == after_backoff(*old(self)),
            run_wf(*final(self)),
    {
        self.step = AddUrlStep::Insert;
    }

    /// Records that the change marker that `MarkChange` asked for was set.
    pub fn record_marked(&mut self)
        requires
            run_wf(*old(self)),
            old(self).step == AddUrlStep::MarkChange,
        ensures
            *final(self) == after_mark(*old(self)),
            run_wf(*final(self)),
    {
        self.step = AddUrlStep::Done;
        self.marked = true;
    }

    /// Whether the sequence ended with every attempt failed.
    pub fn gave_up(&self) -> (r: bool)
        ensures
            r == (self.step == AddUrlStep::Done && !self.inserted),
    {
        match self.step {
            AddUrlStep::Done => !self.inserted,
            _ => false,
        }
    }
}

/// Runs an insert sequence for at most `fuel` steps against a store whose
/// successive insert attempts come out as `outcomes` says.
pub open spec fn drive(s: AddUrlRun, outcomes: Seq<Option<u64>>, fuel: nat) -> AddUrlRun
    decreases fuel,
{
    if fuel == 0 {
        s
    } else {
        match s.step {
            AddUrlStep::Insert => if outcomes.len() == 0 {
                s
            } else {
                drive(after_insert(s, outcomes[0]), outcomes.drop_first(), (fuel - 1) as nat)
            },
            AddUrlStep::Backoff => drive(after_backoff(s), outcomes, (fuel - 1) as nat),
            AddUrlStep::MarkChange => drive(after_mark(s), outcomes, (fuel - 1) as nat),
            AddUrlStep::Done => s,
        }
    }
}

/// How many pauses `drive` makes over the same steps.
pub open spec fn pauses(s: AddUrlRun, outcomes: Seq<Option<u64>>, fuel: nat) -> nat
    decreases fuel,
{
    if fuel == 0 {
        0
    } else {
        match s.step {
            AddUrlStep::Insert => if outcomes.len() == 0 {
                0
            } else {
                pauses(after_insert(s, outcomes[0]), outcomes.drop_first(), (fuel - 1) as nat)
            },
            AddUrlStep::Backoff => 1 + pauses(after_backoff(s), outcomes, (fuel - 1) as nat),
            AddUrlStep::MarkChange => pauses(after_mark(s), outcomes, (fuel - 1) as nat),
            AddUrlStep::Done => 0,
        }
    }
}

/// Enough steps for any insert sequence to end.
pub open spec fn max_steps() -> nat {
    (2 * RETRY_CNT + 1) as nat
}

proof fn lemma_drive_closing(s: AddUrlRun, outcomes: Seq<Option<u64>>, fuel: nat)
    requires
        s.step == closing_step(s.update_change),
        !s.marked,
        fuel >= 1,
    ensures
        drive(s, outcomes, fuel) == (if s.update_change {
            after_mark(s)
        } else {
            s
        }),
        pauses(s, outcomes, fuel) == 0,
{
    if s.update_change {
        assert(drive(after_mark(s), outcomes, (fuel - 1) as nat) == after_mark(s));
        assert(pauses(after_mark(s), outcomes, (fuel - 1) as nat) == 0);
    }
}

proof fn lemma_drive_success(s: AddUrlRun, outcomes: Seq<Option<u64>>, fuel: nat, k: nat, n: u64)
    requires
        run_wf(s),
        s.step == AddUrlStep::Insert,
        !s.marked,
        s.attempts + k < RETRY_CNT,
        outcomes.len() > k,
        forall|i: int| 0 <= i < k ==> outcomes[i] is None,
        outcomes[k as int] == Some(n),
        fuel >= 2 * k + 2,
    ensures
        drive(s, outcomes, fuel).step == AddUrlStep::Done,
        drive(s, outcomes, fuel).attempts == s.attempts + k + 1,
        drive(s, outcomes, fuel).inserted,
        drive(s, outcomes, fuel).rows == n,
        drive(s, outcomes, fuel).marked == s.update_change,
        pauses(s, outcomes, fuel) == k,
    decreases k,
{
    let s1 = after_insert(s, outcomes[0]);
    if k == 0 {
        lemma_drive_closing(s1, outcomes.drop_first(), (fuel - 1) as nat);
    } else {
        let s2 = after_backoff(s1);
        let rest = outcomes.drop_first();
        assert(drive(s1, rest, (fuel - 1) as nat) == drive(s2, rest, (fuel - 2) as nat));
        assert(pauses(s1, rest, (fuel - 1) as nat) == 1 + pauses(s2, rest, (fuel - 2) as nat));
        assert forall|i: int| 0 <= i < k - 1 implies rest[i] is None by {
            assert(rest[i] == outcomes[i + 1]);
        }
        assert(rest[k - 1] == outcomes[k as int]);
        lemma_drive_success(s2, rest, (fuel - 2) as nat, (k - 1) as nat, n);
    }
}

proof fn lemma_drive_exhausted(s: AddUrlRun, outcomes: Seq<Option<u64>>, fuel: nat)
    requires
        run_wf(s),
        s.step == AddUrlStep::Insert,
        !s.marked,
        outcomes.len() >= RETRY_CNT - s.attempts,
        forall|i: int| 0 <= i < RETRY_CNT - s.attempts ==> outcomes[i] is None,
        fuel >= 2 * (RETRY_CNT - s.attempts) + 1,
    ensures
        drive(s, outcomes, fuel).step == AddUrlStep::Done,
        drive(s, outcomes, fuel).attempts == RETRY_CNT,
        !drive(s, outcomes, fuel).inserted,
        drive(s, outcomes, fuel).rows == s.rows,
        drive(s, outcomes, fuel).marked == s.update_change,
        pauses(s, outcomes, fuel) == RETRY_CNT - s.attempts - 1,
    decreases RETRY_CNT - s.attempts,
{
    let s1 = after_insert(s, outcomes[0]);
    let s2 = after_backoff(s1);
    let rest = outcomes.drop_first();
    if s1.attempts < RETRY_CNT {
        assert(drive(s1, rest, (fuel - 1) as nat) == drive(s2, rest, (fuel - 2) as nat));
        assert(pauses(s1, rest, (fuel - 1) as nat) == 1 + pauses(s2, rest, (fuel - 2) as nat));
        assert forall|i: int| 0 <= i < RETRY_CNT - s2.attempts implies rest[i] is None by {
            assert(rest[i] == outcomes[i + 1]);
        }
        lemma_drive_exhausted(s2, rest, (fuel - 2) as nat);
    } else {
        lemma_drive_closing(s1, rest, (fuel - 1) as nat);
    }
}

/// An insert that fails `k` times, fewer than the retry bound, and then
/// succeeds with `n` rows ends after `k + 1` attempts with a pause between
/// each two of them, reports `n` rows, and has set the change marker exactly
/// when change tracking is on.
pub proof fn insert_succeeds_after_failures(
    update_change: bool,
    outcomes: Seq<Option<u64>>,
    k: nat,
    n: u64,
)
    requires
        k < RETRY_CNT,
        outcomes.len() > k,
        forall|i: int| 0 <= i < k ==> outcomes[i] is None,
        outcomes[k as int] == Some(n),
    ensures
        drive(initial_run(update_change), outcomes, max_steps()).step == AddUrlStep::Done,
        drive(initial_run(update_change), outcomes, max_steps()).attempts == k + 1,
        drive(initial_run(update_change), outcomes, max_steps()).inserted,
        drive(initial_run(update_change), outcomes, max_steps()).rows == n,
        drive(initial_run(update_change), outcomes, max_steps()).marked == update_change,
        pauses(initial_run(update_change), outcomes, max_steps()) == k,
{
    lemma_drive_success(initial_run(update_change), outcomes, max_steps(), k, n);
}

/// An insert whose first `RETRY_CNT` attempts all fail ends after exactly
/// that many attempts with a pause between each two of them, and none after
/// the last; it reports 0 rows, counts as given up, and has set the change
/// marker exactly when change tracking is on.
pub proof fn insert_gives_up_at_retry_bound(update_change: bool, outcomes: Seq<Option<u64>>)
    requires
        outcomes.len() >= RETRY_CNT,
        forall|i: int| 0 <= i < RETRY_CNT ==> outcomes[i] is None,
    ensures
        drive(initial_run(update_change), outcomes, max_steps()).step == AddUrlStep::Done,
        drive(initial_run(update_change), outcomes, max_steps()).attempts == RETRY_CNT,
        !drive(initial_run(update_change), outcomes, max_steps()).inserted,
        drive(initial_run(update_change), outcomes, max_steps()).rows == 0,
        drive(initial_run(update_change), outcomes, max_steps()).marked == update_change,
        pauses(initial_run(update_change), outcomes, max_steps()) == RETRY_CNT - 1,
{
    lemma_drive_exhausted(initial_run(update_change), outcomes, max_steps());
}

/// Once an insert sequence ends, the change marker has been set exactly when
/// change tracking is on, whether the insert succeeded or was given up.
pub proof fn change_marked_on_either_outcome(update_change: bool, outcomes: Seq<Option<u64>>)
    requires
        outcomes.len() >= RETRY_CNT,
    ensures
        drive(initial_run(update_change), outcomes, max_steps()).step == AddUrlStep::Done,
        drive(initial_run(update_change), outcomes, max_steps()).marked == update_change,
{
    let s = initial_run(update_change);
    if exists|k: int| 0 <= k < RETRY_CNT && outcomes[k] is Some {
        let k0 = choose|k: int| 0 <= k < RETRY_CNT && outcomes[k] is Some;
        let k1 = first_some(outcomes, k0);
        lemma_drive_success(s, outcomes, max_steps(), k1 as nat, outcomes[k1]->Some_0);
    } else {
        lemma_drive_exhausted(s, outcomes, max_steps());
    }
}

/// The first index at or below `k` whose outcome is a success, given that
/// the outcome at `k` is one.
proof fn first_some(outcomes: Seq<Option<u64>>, k: int) -> (r: int)
    requires
        0 <= k < outcomes.len(),
        outcomes[k] is Some,
    ensures
        0 <= r <= k,
        outcomes[r] is Some,
        forall|i: int| 0 <= i < r ==> outcomes[i] is None,
    decreases k,
{
    if exists|j: int| 0 <= j < k && outcomes[j] is Some {
        let j = choose|j: int| 0 <= j < k && outcomes[j] is Some;
        first_some(outcomes, j)
    } else {
        k
    }
}

} // verus!
