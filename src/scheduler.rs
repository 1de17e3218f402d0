//! The scheduler: admits targets in list order while fewer than `ceiling`
//! probes are in flight, takes their outcomes back in whatever order they
//! finish, and keeps the run's counters. Whoever runs the probes asks
//! [`Scheduler::start_next`] for work and hands each outcome to
//! [`Scheduler::complete`].
use vstd::prelude::*;

use crate::target::{Target, TargetView, target_views};

verus! {

/// Where one target stands in a run.
#[derive(Clone, Copy, Debug, PartialEq, Eq, Structural)]
pub enum Progress {
    Pending,
    InFlight,
    Succeeded,
    Failed,
}

/// What one probe came back with: the service's status document, or the
/// reason it could not be had.
pub enum ProbeOutcome<S> {
    Success(S),
    Failure(String),
}

/// One output row: a reachable target and the status it reported.
pub struct Row<S> {
    pub address: String,
    pub port: u16,
    pub status: S,
}

/// An outcome that cannot be taken.
#[derive(Clone, Copy, Debug, PartialEq, Eq, Structural)]
pub enum ScheduleError {
    /// No target has this index.
    UnknownTarget { index: usize },
    /// The target is not in flight: not yet admitted, or already resolved.
    NotInFlight { index: usize },
}

/// The number of entries of `s` equal to `p`.
pub open spec fn count(s: Seq<Progress>, p: Progress) -> nat
    decreases s.len(),
{
    if s.len() == 0 {
        0
    } else {
        count(s.drop_last(), p) + if s.last() == p {
            1nat
        } else {
            0nat
        }
    }
}

pub open spec fn is_resolved(p: Progress) -> bool {
    p == Progress::Succeeded || p == Progress::Failed
}

/// The state of a run as plain values.
pub struct SchedulerView {
    pub targets: Seq<TargetView>,
    pub progress: Seq<Progress>,
    pub ceiling: nat,
    /// How many targets have been admitted; they are the first ones.
    pub admitted: nat,
    pub in_flight: nat,
    pub done: nat,
    pub failed: nat,
    pub succeeded: nat,
}

impl SchedulerView {
    /// The run's invariant.
    pub open spec fn inv(self) -> bool {
        &&& self.progress.len() == self.targets.len()
        &&& self.ceiling > 0
        &&& self.admitted <= self.targets.len()
        &&& forall|i: int|
            0 <= i < self.admitted ==> #[trigger] self.progress[i] != Progress::Pending
        &&& forall|i: int|
            self.admitted <= i < self.progress.len() ==> #[trigger] self.progress[i]
                == Progress::Pending
        &&& count(self.progress, Progress::Pending) == self.targets.len() - self.admitted
        &&& self.in_flight == count(self.progress, Progress::InFlight)
        &&& self.succeeded == count(self.progress, Progress::Succeeded)
        &&& self.failed == count(self.progress, Progress::Failed)
        &&& self.done == self.succeeded + self.failed
        &&& self.in_flight <= self.ceiling
    }

    pub open spec fn finished(self) -> bool {
        self.admitted == self.targets.len() && self.in_flight == 0
    }
}

/// Bookkeeping of one run over a fixed list of targets.
pub struct Scheduler {
    targets: Vec<Target>,
    progress: Vec<Progress>,
    ceiling: usize,
    admitted: usize,
    in_flight: usize,
    done: usize,
    failed: usize,
    succeeded: usize,
}

impl View for Scheduler {
    type V = SchedulerView;

    closed spec fn view(&self) -> SchedulerView {
        SchedulerView {
            targets: target_views(self.targets@),
            progress: self.progress@,
            ceiling: self.ceiling as nat,
            admitted: self.admitted as nat,
            in_flight: self.in_flight as nat,
            done: self.done as nat,
            failed: self.failed as nat,
            succeeded: self.succeeded as nat,
        }
    }
}

/// Changing one entry moves it from one count to another.
pub proof fn lemma_count_update(s: Seq<Progress>, i: int, v: Progress, p: Progress)
    requires
        0 <= i < s.len(),
    ensures
        count(s.update(i, v), p) + (if s[i] == p {
            1nat
        } else {
            0nat
        }) == count(s, p) + (if v == p {
            1nat
        } else {
            0nat
        }),
    decreases s.len(),
{
    let u = s.update(i, v);
    if i == s.len() - 1 {
        assert(u.drop_last() =~= s.drop_last());
    } else {
        assert(u.drop_last() =~= s.drop_last().update(i, v));
        lemma_count_update(s.drop_last(), i, v, p);
    }
}

/// Every entry is counted under exactly one of the four kinds.
pub proof fn lemma_count_total(s: Seq<Progress>)
    ensures
        count(s, Progress::Pending) + count(s, Progress::InFlight) + count(s, Progress::Succeeded)
            + count(s, Progress::Failed) == s.len(),
    decreases s.len(),
{
    if s.len() > 0 {
        lemma_count_total(s.drop_last());
    }
}

/// A kind counted zero times does not occur.
pub proof fn lemma_count_zero(s: Seq<Progress>, p: Progress)
    requires
        count(s, p) == 0,
    ensures
        forall|i: int| 0 <= i < s.len() ==> #[trigger] s[i] != p,
    decreases s.len(),
{
    if s.len() > 0 {
        lemma_count_zero(s.drop_last(), p);
        assert forall|i: int| 0 <= i < s.len() implies #[trigger] s[i] != p by {
            if i < s.len() - 1 {
                assert(s[i] == s.drop_last()[i]);
            }
        }
    }
}

impl Scheduler {
    pub open spec fn wf(&self) -> bool {
        self@.inv()
    }

    /// A run over `targets` with nothing admitted yet.
    pub fn new(targets: Vec<Target>, ceiling: usize) -> (r: Scheduler)
        requires
            ceiling > 0,
        ensures
            r.wf(),
            r@.targets == target_views(targets@),
            r@.ceiling == ceiling,
            r@.admitted == 0,
            r@.in_flight == 0,
            r@.done == 0,
            r@.failed == 0,
            r@.succeeded == 0,
            forall|i: int| 0 <= i < targets@.len() ==> #[trigger] r@.progress[i] == Progress::Pending,
    {
        let mut progress: Vec<Progress> = Vec::new();
        let mut i: usize = 0;
        while i < targets.len()
            invariant
                i <= targets@.len(),
                progress@.len() == i,
                forall|j: int| 0 <= j < i ==> #[trigger] progress@[j] == Progress::Pending,
                count(progress@, Progress::Pending) == i,
                count(progress@, Progress::InFlight) == 0,
                count(progress@, Progress::Succeeded) == 0,
                count(progress@, Progress::Failed) == 0,
            decreases targets@.len() - i,
        {
            let ghost before = progress@;
            progress.push(Progress::Pending);
            assert(progress@.drop_last() =~= before);
            i = i + 1;
        }
        Scheduler {
            targets,
            progress,
            ceiling,
            admitted: 0,
            in_flight: 0,
            done: 0,
            failed: 0,
            succeeded: 0,
        }
    }

    /// Starts the next target if the ceiling allows it and one is left;
    /// returns its index.
    pub fn start_next(&mut self) -> (r: Option<usize>)
        requires
            old(self).wf(),
        ensures
            final(self).wf(),
            final(self)@.targets == old(self)@.targets,
            final(self)@.ceiling == old(self)@.ceiling,
            final(self)@.done == old(self)@.done,
            final(self)@.failed == old(self)@.failed,
            final(self)@.succeeded == old(self)@.succeeded,
            final(self)@.in_flight <= final(self)@.ceiling,
            if old(self)@.admitted < old(self)@.targets.len() && old(self)@.in_flight
                < old(self)@.ceiling {
                &&& r == Some(old(self)@.admitted as usize)
                &&& final(self)@.progress == old(self)@.progress.update(
                    old(self)@.admitted as int,
                    Progress::InFlight,
                )
                &&& final(self)@.admitted == old(self)@.admitted + 1
                &&& final(self)@.in_flight == old(self)@.in_flight + 1
            } else {
                &&& r is None
                &&& final(self)@ == old(self)@
            },
    {
        if self.admitted < self.targets.len() && self.in_flight < self.ceiling {
            let i = self.admitted;
            proof {
                lemma_count_update(self.progress@, i as int, Progress::InFlight, Progress::Pending);
                lemma_count_update(self.progress@, i as int, Progress::InFlight, Progress::InFlight);
                lemma_count_update(self.progress@, i as int, Progress::InFlight, Progress::Succeeded);
                lemma_count_update(self.progress@, i as int, Progress::InFlight, Progress::Failed);
            }
            self.progress.set(i, Progress::InFlight);
            self.admitted = i + 1;
            self.in_flight = self.in_flight + 1;
            Some(i)
        } else {
            None
        }
    }

    /// Takes the outcome of the probe of target `index`. A success is
    /// turned into the row to report; a failure is only counted.
    pub fn complete<S>(&mut self, index: usize, outcome: ProbeOutcome<S>) -> (r: Result<
        Option<Row<S>>,
        ScheduleError,
    >)
        requires
            old(self).wf(),
        ensures
            final(self).wf(),
            final(self)@.targets == old(self)@.targets,
            final(self)@.ceiling == old(self)@.ceiling,
            final(self)@.admitted == old(self)@.admitted,
            index >= old(self)@.targets.len() ==> r == Err::<Option<Row<S>>, _>(
                ScheduleError::UnknownTarget { index },
            ) && final(self)@ == old(self)@,
            index < old(self)@.targets.len() && old(self)@.progress[index as int]
                != Progress::InFlight ==> r == Err::<Option<Row<S>>, _>(
                ScheduleError::NotInFlight { index },
            ) && final(self)@ == old(self)@,
            index < old(self)@.targets.len() && old(self)@.progress[index as int]
                == Progress::InFlight ==> {
                &&& final(self)@.in_flight == old(self)@.in_flight - 1
                &&& final(self)@.done == old(self)@.done + 1
                &&& match outcome {
                    ProbeOutcome::Success(status) => {
                        &&& final(self)@.progress == old(self)@.progress.update(
                            index as int,
                            Progress::Succeeded,
                        )
                        &&& final(self)@.succeeded == old(self)@.succeeded + 1
                        &&& final(self)@.failed == old(self)@.failed
                        &&& r matches Ok(Some(row))
                        &&& row.address@ == old(self)@.targets[index as int].host
                        &&& row.port == old(self)@.targets[index as int].port
                        &&& row.status == status
                    },
                    ProbeOutcome::Failure(_) => {
                        &&& final(self)@.progress == old(self)@.progress.update(
                            index as int,
                            Progress::Failed,
                        )
                        &&& final(self)@.succeeded == old(self)@.succeeded
                        &&& final(self)@.failed == old(self)@.failed + 1
                        &&& r matches Ok(None)
                    },
                }
            },
    {
        if index >= self.targets.len() {
            return Err(ScheduleError::UnknownTarget { index });
        }
        if self.progress[index] != Progress::InFlight {
            return Err(ScheduleError::NotInFlight { index });
        }
        proof {
            lemma_count_total(self.progress@);
        }
        let next = match outcome {
            ProbeOutcome::Success(_) => Progress::Succeeded,
            ProbeOutcome::Failure(_) => Progress::Failed,
        };
        proof {
            lemma_count_update(self.progress@, index as int, next, Progress::Pending);
            lemma_count_update(self.progress@, index as int, next, Progress::InFlight);
            lemma_count_update(self.progress@, index as int, next, Progress::Succeeded);
            lemma_count_update(self.progress@, index as int, next, Progress::Failed);
        }
        self.progress.set(index, next);
        self.in_flight = self.in_flight - 1;
        self.done = self.done + 1;
        match outcome {
            ProbeOutcome::Success(status) => {
                self.succeeded = self.succeeded + 1;
                let target = &self.targets[index];
                Ok(Some(Row { address: target.host.clone(), port: target.port, status }))
            },
            ProbeOutcome::Failure(_) => {
                self.failed = self.failed + 1;
                Ok(None)
            },
        }
    }
}

impl Scheduler {
    /// The run is over: every target admitted and every probe resolved.
    pub fn is_finished(&self) -> (r: bool)
        requires
            self.wf(),
        ensures
            r == self@.finished(),
    {
        self.admitted == self.targets.len() && self.in_flight == 0
    }

    pub fn total(&self) -> (r: usize)
        requires
            self.wf(),
        ensures
            r == self@.targets.len(),
    {
        self.targets.len()
    }

    pub fn ceiling(&self) -> (r: usize)
        ensures
            r == self@.ceiling,
    {
        self.ceiling
    }

    pub fn admitted(&self) -> (r: usize)
        ensures
            r == self@.admitted,
    {
        self.admitted
    }

    pub fn in_flight(&self) -> (r: usize)
        ensures
            r == self@.in_flight,
    {
        self.in_flight
    }

    pub fn done(&self) -> (r: usize)
        ensures
            r == self@.done,
    {
        self.done
    }

    pub fn failed(&self) -> (r: usize)
        ensures
            r == self@.failed,
    {
        self.failed
    }

    pub fn succeeded(&self) -> (r: usize)
        ensures
            r == self@.succeeded,
    {
        self.succeeded
    }

    /// The target with this index.
    pub fn target(&self, index: usize) -> (r: &Target)
        requires
            self.wf(),
            index < self@.targets.len(),
        ensures
            r@ == self@.targets[index as int],
    {
        &self.targets[index]
    }

    /// Where the target with this index stands.
    pub fn progress(&self, index: usize) -> (r: Progress)
        requires
            self.wf(),
            index < self@.targets.len(),
        ensures
            r == self@.progress[index as int],
    {
        self.progress[index]
    }
}

/// The indices of the targets whose probe succeeded, one output row each.
pub open spec fn reported(v: SchedulerView) -> Set<int> {
    Set::new(|i: int| 0 <= i < v.progress.len() && v.progress[i] == Progress::Succeeded)
}

/// Once a run is over, every target of the list has been resolved, and the
/// number of outcomes taken equals the number of targets: none was lost,
/// and none counted twice.
pub proof fn lemma_every_target_resolved(run: &Scheduler)
    requires
        run.wf(),
        run@.finished(),
    ensures
        run@.done == run@.targets.len(),
        forall|i: int| 0 <= i < run@.targets.len() ==> is_resolved(#[trigger] run@.progress[i]),
{
    let v = run@;
    lemma_count_total(v.progress);
    lemma_count_zero(v.progress, Progress::InFlight);
    assert forall|i: int| 0 <= i < v.targets.len() implies is_resolved(#[trigger] v.progress[i]) by {
        assert(v.progress[i] != Progress::Pending);
        assert(v.progress[i] != Progress::InFlight);
    }
}

/// At every point of a run, the outcomes taken are the rows handed out plus
/// the failures counted.
pub proof fn lemma_counters_consistent(run: &Scheduler)
    requires
        run.wf(),
    ensures
        run@.done == run@.succeeded + run@.failed,
        run@.succeeded == reported(run@).len(),
{
    let v = run@;
    lemma_reported_count(v.progress);
    assert(reported(v) == reported_in(v.progress));
}

pub open spec fn reported_in(s: Seq<Progress>) -> Set<int> {
    Set::new(|i: int| 0 <= i < s.len() && s[i] == Progress::Succeeded)
}

/// The succeeded entries are as many as their count says.
pub proof fn lemma_reported_count(s: Seq<Progress>)
    ensures
        reported_in(s).finite(),
        reported_in(s).len() == count(s, Progress::Succeeded),
    decreases s.len(),
{
    if s.len() == 0 {
        assert(reported_in(s) =~= Set::<int>::empty());
    } else {
        let t = s.drop_last();
        lemma_reported_count(t);
        let last = s.len() - 1;
        if s.last() == Progress::Succeeded {
            assert(reported_in(s) =~= reported_in(t).insert(last));
        } else {
            assert(reported_in(s) =~= reported_in(t));
        }
    }
}

/// Two finished runs over the same list, in which each target's probe gave
/// the verdict that `succeeds` gives it, end in the same state and report
/// the same rows, whatever order their probes finished in.
pub proof fn lemma_runs_agree(a: &Scheduler, b: &Scheduler, succeeds: spec_fn(TargetView) -> bool)
    requires
        a.wf(),
        b.wf(),
        a@.finished(),
        b@.finished(),
        a@.targets == b@.targets,
        forall|i: int|
            0 <= i < a@.targets.len() ==> (#[trigger] a@.progress[i] == Progress::Succeeded
                <==> succeeds(a@.targets[i])),
        forall|i: int|
            0 <= i < b@.targets.len() ==> (#[trigger] b@.progress[i] == Progress::Succeeded
                <==> succeeds(b@.targets[i])),
    ensures
        a@.progress == b@.progress,
        reported(a@) == reported(b@),
        a@.done == b@.done,
        a@.failed == b@.failed,
{
    lemma_every_target_resolved(a);
    lemma_every_target_resolved(b);
    assert(a@.progress =~= b@.progress) by {
        assert forall|i: int| 0 <= i < a@.progress.len() implies a@.progress[i] == b@.progress[i] by {
            assert(is_resolved(a@.progress[i]));
            assert(is_resolved(b@.progress[i]));
        }
    }
    assert(reported(a@) =~= reported(b@));
}

/// An empty list makes a run that is over from the start, with nothing done
/// and nothing failed.
pub proof fn lemma_empty_run(run: &Scheduler)
    requires
        run.wf(),
        run@.targets.len() == 0,
    ensures
        run@.finished(),
        run@.done == 0,
        run@.failed == 0,
{
    lemma_count_total(run@.progress);
}

/// At no point are more probes in flight than the ceiling allows.
pub proof fn lemma_ceiling_respected(run: &Scheduler)
    requires
        run.wf(),
    ensures
        run@.in_flight <= run@.ceiling,
{
}

} // verus!
