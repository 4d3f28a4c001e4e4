//! The events a job produces: output lines while it runs, and exactly one
//! completion event when it reaches a terminal state.
use vstd::prelude::*;

verus! {

/// Which of the child's two output streams a line came from.
#[derive(Debug, Clone, Copy, PartialEq, Eq, Structural)]
pub enum StreamKind {
    Stdout,
    Stderr,
}

/// One completed line of child output, tagged with the job that produced it.
#[derive(Debug, Clone)]
pub struct OutputLine {
    pub job_id: String,
    pub line: String,
}

/// The single terminal notification of a job: the child's exit code (or the
/// sentinel `-1` when no code is available) and the wall-clock duration.
#[derive(Debug, Clone)]
pub struct RunCompleted {
    pub job_id: String,
    pub exit_code: i32,
    pub duration_ms: u64,
}

/// An entry of the ordered event channel the client observes.
#[derive(Debug, Clone)]
pub enum Event {
    Output { stream: StreamKind, data: OutputLine },
    Completed { data: RunCompleted },
}

/// The id of the job an event belongs to.
pub open spec fn event_job(e: Event) -> Seq<char> {
    match e {
        Event::Output { data, .. } => data.job_id@,
        Event::Completed { data } => data.job_id@,
    }
}

/// Whether an event is a completion event.
pub open spec fn is_completion(e: Event) -> bool {
    e matches Event::Completed { .. }
}

/// Whether position `k` of `log` holds the completion event of job `id`.
pub open spec fn is_completion_for(log: Seq<Event>, k: int, id: Seq<char>) -> bool {
    &&& 0 <= k < log.len()
    &&& is_completion(log[k])
    &&& event_job(log[k]) == id
}

/// Whether `e` is the output event for one line of job `id`.
pub open spec fn is_output_event(e: Event, id: Seq<char>, stream: StreamKind, text: Seq<char>) -> bool {
    match e {
        Event::Output { stream: s, data } => s == stream && data.job_id@ == id && data.line@
            == text,
        Event::Completed { .. } => false,
    }
}

/// Whether `e` is the completion event of job `id` with the given exit code
/// and duration.
pub open spec fn is_completed_event(e: Event, id: Seq<char>, code: i32, duration_ms: u64) -> bool {
    match e {
        Event::Output { .. } => false,
        Event::Completed { data } => data.job_id@ == id && data.exit_code == code
            && data.duration_ms == duration_ms,
    }
}

} // verus!
