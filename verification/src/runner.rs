//! The decision core of the runner: one state machine over all jobs.
//!
//! The embedding program drives it: `submit` accepts or rejects a request and
//! hands back the workspace plan; after attempting the spawn it reports
//! `mark_launched` or `mark_launch_failed`; the stream readers report each
//! completed line through `note_output`; the coordinating task reports the
//! child's exit through `mark_exited`; a concurrent cancellation request goes
//! through `cancel`.  Every event the client is to observe is returned by
//! these calls, in order, and recorded in a ghost log over which the laws at
//! the bottom of this file are proved: an accepted job ends in exactly one
//! completion event, and all of its output events precede it.
use vstd::prelude::*;
use crate::events::{
    Event, OutputLine, RunCompleted, StreamKind, event_job, is_completion, is_completion_for,
    is_completed_event, is_output_event,
};
use crate::mode::RunMode;
use crate::registry::{JobPhase, JobRegistry};
use crate::workspace::{WorkspacePlan, plan_matches, workspace_plan};

verus! {

/// Why a submission was turned away.
#[derive(Debug, Clone, Copy, PartialEq, Eq, Structural)]
pub enum RejectReason {
    /// The id names a job that is still active, or one that already ran:
    /// an id is a single-use token.
    DuplicateId,
}

/// The synchronous answer to `submit`.
#[derive(Debug)]
pub enum SubmitOutcome {
    /// The job was accepted; the embedding program is to materialize `plan`
    /// and spawn the build tool against it.
    Accepted { plan: WorkspacePlan },
    Rejected { reason: RejectReason },
}

/// The synchronous answer to `cancel`.
#[derive(Debug, Clone, Copy, PartialEq, Eq, Structural)]
pub enum CancelOutcome {
    /// The job was running; a termination signal is to be sent to its
    /// process tree, with escalation to a forceful kill after a bounded
    /// grace period.
    Signalled,
    /// No running job has this id: never submitted, not yet spawned, already
    /// signalled, or already completed.  A normal outcome, not an error.
    NotFound,
}

/// The exit code reported in a completion event: the child's own code
/// relayed verbatim, or the sentinel `-1` when the job was cancelled or the
/// child left no code (killed by a signal, or never launched).
pub open spec fn completion_code(exit_code: Option<i32>, cancelled: bool) -> i32 {
    if cancelled {
        -1i32
    } else {
        match exit_code {
            Some(c) => c,
            None => -1i32,
        }
    }
}

/// Computes [`completion_code`].
pub fn effective_exit_code(exit_code: Option<i32>, cancelled: bool) -> (r: i32)
    ensures
        r == completion_code(exit_code, cancelled),
{
    if cancelled {
        -1
    } else {
        match exit_code {
            Some(c) => c,
            None => -1,
        }
    }
}

/// Whether `r` accepts the submission with exactly the plan prescribed for
/// `source` and `mode`.
pub open spec fn submit_accepted(r: SubmitOutcome, source: Seq<char>, mode: RunMode) -> bool {
    match r {
        SubmitOutcome::Accepted { plan } => plan_matches(plan, source, mode),
        SubmitOutcome::Rejected { .. } => false,
    }
}

/// Whether `r` rejects the submission as a duplicate.
pub open spec fn submit_rejected(r: SubmitOutcome) -> bool {
    r matches SubmitOutcome::Rejected { reason: RejectReason::DuplicateId }
}

/// The state machine over all jobs, together with the ghost log of every
/// event handed out for emission.
pub struct RunnerCore {
    registry: JobRegistry,
    done: Vec<String>,
    log: Ghost<Seq<Event>>,
}

impl RunnerCore {
    /// The active jobs: id to phase.
    pub closed spec fn jobs(&self) -> Map<Seq<char>, JobPhase> {
        self.registry@
    }

    /// Every event handed out so far, oldest first.
    pub closed spec fn log(&self) -> Seq<Event> {
        self.log@
    }

    /// The ids of jobs whose completion event has been handed out.
    pub closed spec fn finished(&self) -> Set<Seq<char>> {
        Set::new(|id: Seq<char>| exists|i: int| 0 <= i < self.done@.len() && self.done@[i]@ == id)
    }

    /// Whether `id` names an active (pending, running or cancelled) job.
    pub open spec fn active(&self, id: Seq<char>) -> bool {
        self.jobs().contains_key(id)
    }

    /// Whether `id` is taken: active now, or already run to completion.
    pub open spec fn known(&self, id: Seq<char>) -> bool {
        self.active(id) || self.finished().contains(id)
    }

    /// Whether the active job `id` is in phase `p`.
    pub open spec fn phase_is(&self, id: Seq<char>, p: JobPhase) -> bool {
        self.jobs().contains_key(id) && self.jobs()[id] == p
    }

    /// Whether the job `id` has a live child process: spawned, not yet seen
    /// to exit.
    pub open spec fn live(&self, id: Seq<char>) -> bool {
        self.phase_is(id, JobPhase::Running) || self.phase_is(id, JobPhase::Cancelled)
    }

    /// The runner's invariant, preserved by every operation.
    pub closed spec fn wf(&self) -> bool {
        &&& self.registry.wf()
        &&& forall|k: int|
            0 <= k < self.log@.len() && is_completion(#[trigger] self.log@[k])
                ==> self.finished().contains(event_job(self.log@[k]))
        &&& forall|id: Seq<char>|
            #[trigger] self.finished().contains(id) ==> exists|k: int|
                is_completion_for(self.log@, k, id)
        &&& forall|k: int, l: int|
            0 <= k < l < self.log@.len() && is_completion(#[trigger] self.log@[k])
                ==> event_job(#[trigger] self.log@[l]) != event_job(self.log@[k])
        &&& forall|id: Seq<char>|
            #[trigger] self.jobs().contains_key(id) ==> !self.finished().contains(id)
    }

    /// A fresh runner: no jobs, no events.
    pub fn new() -> (r: RunnerCore)
        ensures
            r.wf(),
            r.jobs() == Map::<Seq<char>, JobPhase>::empty(),
            r.log() == Seq::<Event>::empty(),
            r.finished() == Set::<Seq<char>>::empty(),
    {
        let r = RunnerCore { registry: JobRegistry::new(), done: Vec::new(), log: Ghost(Seq::empty()) };
        proof {
            assert(r.finished() =~= Set::<Seq<char>>::empty());
            assert(r.jobs() =~= Map::<Seq<char>, JobPhase>::empty());
        }
        r
    }

    fn done_contains(&self, key: &String) -> (r: bool)
        ensures
            r == self.finished().contains(key@),
    {
        let n = self.done.len();
        let mut i: usize = 0;
        while i < n
            invariant
                n == self.done@.len(),
                i <= n,
                forall|j: int| 0 <= j < i ==> self.done@[j]@ != key@,
            decreases n - i,
        {
            if self.done[i] == *key {
                return true;
            }
            i = i + 1;
        }
        false
    }

    /// Accepts a run request, or rejects it when the id is taken.  An id is
    /// a single-use token naming one job, ever: while a job with this id is
    /// active — and likewise after it has run — a new submission under the
    /// same id is rejected rather than silently replacing it.  On acceptance
    /// the job enters phase `Pending` and the returned plan says what to put
    /// on disk and what to spawn; no event is emitted either way.
    pub fn submit(&mut self, job_id: String, source: String, run_mode: RunMode) -> (r:
        SubmitOutcome)
        requires
            old(self).wf(),
        ensures
            final(self).wf(),
            old(self).known(job_id@) ==> submit_rejected(r) && *final(self) == *old(self),
            !old(self).known(job_id@) ==> {
                &&& submit_accepted(r, source@, run_mode)
                &&& final(self).jobs() == old(self).jobs().insert(job_id@, JobPhase::Pending)
                &&& final(self).log() == old(self).log()
                &&& final(self).finished() == old(self).finished()
            },
    {
        let is_active = match self.registry.phase_of(job_id.as_str()) {
            Some(_) => true,
            None => false,
        };
        if is_active || self.done_contains(&job_id) {
            SubmitOutcome::Rejected { reason: RejectReason::DuplicateId }
        } else {
            let ghost pre = *self;
            let plan = workspace_plan(source, run_mode);
            self.registry.insert_pending(job_id);
            proof {
                assert(self.log@ == pre.log@);
                assert(final(self).finished() =~= pre.finished());
                assert(final(self).jobs() =~= pre.jobs().insert(job_id@, JobPhase::Pending));
                assert forall|id2: Seq<char>| #[trigger]
                    self.jobs().contains_key(id2) implies !self.finished().contains(id2) by {
                    if id2 != job_id@ {
                        assert(pre.jobs().contains_key(id2));
                    }
                }
            }
            SubmitOutcome::Accepted { plan }
        }
    }

    /// Records that the child process of the pending job `id` was spawned:
    /// the job moves to `Running`.  Reports whether it did; a stale id is
    /// ignored.
    pub fn mark_launched(&mut self, job_id: &str) -> (ok: bool)
        requires
            old(self).wf(),
        ensures
            final(self).wf(),
            old(self).phase_is(job_id@, JobPhase::Pending) ==> ok && final(self).jobs() == old(
                self,
            ).jobs().insert(job_id@, JobPhase::Running) && final(self).log() == old(self).log()
                && final(self).finished() == old(self).finished(),
            !old(self).phase_is(job_id@, JobPhase::Pending) ==> !ok && *final(self) == *old(self),
    {
        let pending = match self.registry.phase_of(job_id) {
            Some(p) => p == JobPhase::Pending,
            None => false,
        };
        if pending {
            let ghost pre = *self;
            self.registry.set_phase(job_id, JobPhase::Running);
            proof {
                assert(self.log@ == pre.log@);
                assert(final(self).finished() =~= pre.finished());
                assert(final(self).jobs() =~= pre.jobs().insert(job_id@, JobPhase::Running));
                assert forall|id2: Seq<char>| #[trigger]
                    self.jobs().contains_key(id2) implies !self.finished().contains(id2) by {
                    assert(pre.jobs().contains_key(id2));
                }
            }
            true
        } else {
            false
        }
    }

    /// Records that spawning the build tool for the pending job `id` failed.
    /// The job is terminal at once: it leaves the registry and its single
    /// completion event — sentinel exit code, since no process ever ran — is
    /// returned for emission.  A stale id is ignored.
    pub fn mark_launch_failed(&mut self, job_id: &str, duration_ms: u64) -> (ev: Option<Event>)
        requires
            old(self).wf(),
        ensures
            final(self).wf(),
            old(self).phase_is(job_id@, JobPhase::Pending) ==> match ev {
                Some(e) => {
                    &&& is_completed_event(e, job_id@, -1i32, duration_ms)
                    &&& final(self).jobs() == old(self).jobs().remove(job_id@)
                    &&& final(self).log() == old(self).log().push(e)
                    &&& final(self).finished() == old(self).finished().insert(job_id@)
                },
                None => false,
            },
            !old(self).phase_is(job_id@, JobPhase::Pending) ==> ev is None && *final(self) == *old(self),
    {
        let pending = match self.registry.phase_of(job_id) {
            Some(p) => p == JobPhase::Pending,
            None => false,
        };
        if pending {
            self.finish_job(job_id, -1, duration_ms)
        } else {
            None
        }
    }

    /// Records one completed line of child output for the live job `id` and
    /// returns its output event for emission.  A line for a job that is not
    /// live — unknown, not yet spawned, or already terminal — is dropped.
    pub fn note_output(&mut self, job_id: &str, stream: StreamKind, text: String) -> (ev: Option<
        Event,
    >)
        requires
            old(self).wf(),
        ensures
            final(self).wf(),
            old(self).live(job_id@) ==> match ev {
                Some(e) => {
                    &&& is_output_event(e, job_id@, stream, text@)
                    &&& final(self).jobs() == old(self).jobs()
                    &&& final(self).log() == old(self).log().push(e)
                    &&& final(self).finished() == old(self).finished()
                },
                None => false,
            },
            !old(self).live(job_id@) ==> ev is None && *final(self) == *old(self),
    {
        let live = match self.registry.phase_of(job_id) {
            Some(p) => p == JobPhase::Running || p == JobPhase::Cancelled,
            None => false,
        };
        if live {
            let ghost pre = *self;
            let e = Event::Output {
                stream,
                data: OutputLine { job_id: job_id.to_owned(), line: text },
            };
            proof {
                self.log@ = self.log@.push(e);
            }
            proof {
                assert(pre.jobs().contains_key(job_id@));
                assert(pre.finished().contains(job_id@) == false);
                assert(self.jobs() == pre.jobs());
                assert(self.finished() =~= pre.finished());
                assert forall|k: int|
                    0 <= k < self.log@.len() && is_completion(#[trigger] self.log@[k]) implies self
                    .finished().contains(event_job(self.log@[k])) by {
                    if k < pre.log@.len() {
                        assert(self.log@[k] == pre.log@[k]);
                    }
                }
                assert forall|id: Seq<char>| #[trigger]
                    self.finished().contains(id) implies exists|k: int|
                    is_completion_for(self.log@, k, id) by {
                    let k = choose|k: int| is_completion_for(pre.log@, k, id);
                    assert(self.log@[k] == pre.log@[k]);
                    assert(is_completion_for(self.log@, k, id));
                }
                assert forall|k: int, l: int|
                    0 <= k < l < self.log@.len() && is_completion(#[trigger] self.log@[k]) implies
                    event_job(#[trigger] self.log@[l]) != event_job(self.log@[k]) by {
                    assert(self.log@[k] == pre.log@[k]);
                    if l < pre.log@.len() {
                        assert(self.log@[l] == pre.log@[l]);
                    } else {
                        assert(self.log@[l] == e);
                        assert(pre.finished().contains(event_job(pre.log@[k])));
                    }
                }
            }
            Some(e)
        } else {
            None
        }
    }

    /// Records the observed exit of the live job `id`: the job is terminal,
    /// leaves the registry, and its single completion event is returned for
    /// emission.  A cancelled job reports the sentinel code whatever the
    /// child's status was; a job that ran to its own end relays the child's
    /// exit code verbatim, with the sentinel only when the child left none
    /// (killed by a signal).  A stale id is ignored.
    pub fn mark_exited(&mut self, job_id: &str, exit_code: Option<i32>, duration_ms: u64) -> (ev:
        Option<Event>)
        requires
            old(self).wf(),
        ensures
            final(self).wf(),
            old(self).live(job_id@) ==> match ev {
                Some(e) => {
                    &&& is_completed_event(
                        e,
                        job_id@,
                        completion_code(
                            exit_code,
                            old(self).phase_is(job_id@, JobPhase::Cancelled),
                        ),
                        duration_ms,
                    )
                    &&& final(self).jobs() == old(self).jobs().remove(job_id@)
                    &&& final(self).log() == old(self).log().push(e)
                    &&& final(self).finished() == old(self).finished().insert(job_id@)
                },
                None => false,
            },
            !old(self).live(job_id@) ==> ev is None && *final(self) == *old(self),
    {
        let phase = self.registry.phase_of(job_id);
        let live = match phase {
            Some(p) => p == JobPhase::Running || p == JobPhase::Cancelled,
            None => false,
        };
        if live {
            let cancelled = match phase {
                Some(p) => p == JobPhase::Cancelled,
                None => false,
            };
            let code = effective_exit_code(exit_code, cancelled);
            self.finish_job(job_id, code, duration_ms)
        } else {
            None
        }
    }

    /// Shared terminal step: removes the active job `id`, hands out its
    /// completion event, and marks the id as used up.
    fn finish_job(&mut self, job_id: &str, code: i32, duration_ms: u64) -> (ev: Option<Event>)
        requires
            old(self).wf(),
            old(self).active(job_id@),
        ensures
            final(self).wf(),
            match ev {
                Some(e) => {
                    &&& is_completed_event(e, job_id@, code, duration_ms)
                    &&& final(self).jobs() == old(self).jobs().remove(job_id@)
                    &&& final(self).log() == old(self).log().push(e)
                    &&& final(self).finished() == old(self).finished().insert(job_id@)
                },
                None => false,
            },
    {
        let ghost pre = *self;
        self.registry.remove(job_id);
        let e = Event::Completed {
            data: RunCompleted { job_id: job_id.to_owned(), exit_code: code, duration_ms },
        };
        proof {
            self.log@ = self.log@.push(e);
        }
        self.done.push(job_id.to_owned());
        proof {
            let ghost post = *self;
            assert(pre.jobs().contains_key(job_id@));
            assert(pre.finished().contains(job_id@) == false);
            assert(post.finished() =~= pre.finished().insert(job_id@)) by {
                assert forall|id: Seq<char>| #[trigger]
                    post.finished().contains(id) implies pre.finished().insert(job_id@).contains(
                    id,
                ) by {
                    let i = choose|i: int| 0 <= i < post.done@.len() && post.done@[i]@ == id;
                    if i < pre.done@.len() {
                        assert(pre.done@[i]@ == id);
                    }
                }
                assert forall|id: Seq<char>|
                    pre.finished().insert(job_id@).contains(id) implies #[trigger] post.finished()
                    .contains(id) by {
                    if id == job_id@ {
                        assert(post.done@[post.done@.len() - 1]@ == id);
                    } else {
                        let i = choose|i: int| 0 <= i < pre.done@.len() && pre.done@[i]@ == id;
                        assert(post.done@[i]@ == id);
                    }
                }
            }
            assert(post.jobs() =~= pre.jobs().remove(job_id@));
            assert forall|k: int|
                0 <= k < post.log@.len() && is_completion(#[trigger] post.log@[k]) implies post
                .finished().contains(event_job(post.log@[k])) by {
                if k < pre.log@.len() {
                    assert(post.log@[k] == pre.log@[k]);
                    assert(pre.finished().contains(event_job(pre.log@[k])));
                } else {
                    assert(post.log@[k] == e);
                }
            }
            assert forall|id: Seq<char>| #[trigger]
                post.finished().contains(id) implies exists|k: int|
                is_completion_for(post.log@, k, id) by {
                if id == job_id@ {
                    assert(is_completion_for(post.log@, pre.log@.len() as int, id));
                } else {
                    let k = choose|k: int| is_completion_for(pre.log@, k, id);
                    assert(post.log@[k] == pre.log@[k]);
                    assert(is_completion_for(post.log@, k, id));
                }
            }
            assert forall|k: int, l: int|
                0 <= k < l < post.log@.len() && is_completion(#[trigger] post.log@[k]) implies
                event_job(#[trigger] post.log@[l]) != event_job(post.log@[k]) by {
                assert(post.log@[k] == pre.log@[k]);
                if l < pre.log@.len() {
                    assert(post.log@[l] == pre.log@[l]);
                } else {
                    assert(post.log@[l] == e);
                    assert(pre.finished().contains(event_job(pre.log@[k])));
                }
            }
            assert forall|id2: Seq<char>| #[trigger]
                post.jobs().contains_key(id2) implies !post.finished().contains(id2) by {
                assert(pre.jobs().contains_key(id2));
                assert(id2 != job_id@);
            }
        }
        Some(e)
    }

    /// Cancels the running job `id`: the job is marked `Cancelled` and the
    /// embedding program is told to signal its process tree, escalating to a
    /// forceful kill after a bounded grace period.  The call does not wait;
    /// the job's own coordinating task observes the resulting exit and
    /// reports it through `mark_exited`.  Any other id — never submitted,
    /// not yet spawned, already signalled, or already completed — answers
    /// `NotFound` with no effect, so concurrent cancellations are
    /// idempotent: only the first is told to signal.
    pub fn cancel(&mut self, job_id: &str) -> (r: CancelOutcome)
        requires
            old(self).wf(),
        ensures
            final(self).wf(),
            old(self).phase_is(job_id@, JobPhase::Running) ==> r == CancelOutcome::Signalled
                && final(self).jobs() == old(self).jobs().insert(job_id@, JobPhase::Cancelled)
                && final(self).log() == old(self).log() && final(self).finished() == old(
                self,
            ).finished(),
            !old(self).phase_is(job_id@, JobPhase::Running) ==> r == CancelOutcome::NotFound
                && *final(self) == *old(self),
    {
        let running = match self.registry.phase_of(job_id) {
            Some(p) => p == JobPhase::Running,
            None => false,
        };
        if running {
            let ghost pre = *self;
            self.registry.set_phase(job_id, JobPhase::Cancelled);
            proof {
                assert(self.log@ == pre.log@);
                assert(final(self).finished() =~= pre.finished());
                assert(final(self).jobs() =~= pre.jobs().insert(job_id@, JobPhase::Cancelled));
                assert forall|id2: Seq<char>| #[trigger]
                    self.jobs().contains_key(id2) implies !self.finished().contains(id2) by {
                    assert(pre.jobs().contains_key(id2));
                }
            }
            CancelOutcome::Signalled
        } else {
            CancelOutcome::NotFound
        }
    }

    /// An accepted job that has reached a terminal state has exactly one
    /// completion event in the log, and every other event of that job
    /// precedes it: whoever consumes the events in order sees the job's
    /// output first and its completion last.
    pub proof fn law_exactly_one_completion(&self, id: Seq<char>)
        requires
            self.wf(),
            self.finished().contains(id),
        ensures
            exists|k: int| is_completion_for(self.log(), k, id),
            forall|k: int, l: int|
                is_completion_for(self.log(), k, id) && is_completion_for(self.log(), l, id)
                    ==> k == l,
            forall|k: int, l: int|
                is_completion_for(self.log(), k, id) && k < l < self.log().len() ==> event_job(
                    self.log()[l],
                ) != id,
    {
        let k0 = choose|k: int| is_completion_for(self.log@, k, id);
        assert(is_completion_for(self.log(), k0, id));
        assert forall|k: int, l: int|
            is_completion_for(self.log(), k, id) && is_completion_for(self.log(), l, id) implies k
            == l by {
            if k < l {
                assert(event_job(self.log@[l]) != event_job(self.log@[k]));
            }
            if l < k {
                assert(event_job(self.log@[k]) != event_job(self.log@[l]));
            }
        }
    }

    /// While a job is active, no completion event for it has been handed
    /// out: completion comes last, and only once the job is gone from the
    /// registry can a cancellation answer `NotFound`.
    pub proof fn law_active_not_completed(&self, id: Seq<char>)
        requires
            self.wf(),
            self.active(id),
        ensures
            forall|k: int| !is_completion_for(self.log(), k, id),
    {
        assert(self.jobs().contains_key(id));
        assert forall|k: int| !is_completion_for(self.log(), k, id) by {
            if is_completion_for(self.log@, k, id) {
                assert(self.finished().contains(event_job(self.log@[k])));
            }
        }
    }
}

} // verus!
