use job_runner::events::{Event, StreamKind};
use job_runner::mode::RunMode;
use job_runner::runner::{CancelOutcome, RejectReason, RunnerCore, SubmitOutcome};

fn accept_plan(r: SubmitOutcome) -> job_runner::workspace::WorkspacePlan {
    match r {
        SubmitOutcome::Accepted { plan } => plan,
        SubmitOutcome::Rejected { .. } => panic!("submission was rejected"),
    }
}

fn is_rejected(r: &SubmitOutcome) -> bool {
    matches!(r, SubmitOutcome::Rejected { reason: RejectReason::DuplicateId })
}

#[test]
fn clean_run_streams_output_then_completes() {
    let mut core = RunnerCore::new();
    let source = "fn main(){ println!(\"hi\"); }";
    let plan = accept_plan(core.submit("a1".to_string(), source.to_string(), RunMode::Run));
    assert_eq!(plan.entry_path, "src/main.rs");
    assert_eq!(plan.subcommand, "run");
    assert_eq!(plan.source, source);
    assert!(core.mark_launched("a1"));

    let mut events: Vec<Event> = Vec::new();
    let e = core.note_output("a1", StreamKind::Stderr, "Compiling user_code".to_string());
    events.push(e.expect("line for a running job is emitted"));
    let e = core.note_output("a1", StreamKind::Stdout, "hi".to_string());
    events.push(e.expect("line for a running job is emitted"));
    let e = core.mark_exited("a1", Some(0), 42);
    events.push(e.expect("exit of a running job is emitted"));

    assert_eq!(events.len(), 3);
    match &events[1] {
        Event::Output { stream, data } => {
            assert_eq!(*stream, StreamKind::Stdout);
            assert_eq!(data.job_id, "a1");
            assert_eq!(data.line, "hi");
        }
        Event::Completed { .. } => panic!("completion arrived before the output"),
    }
    match &events[2] {
        Event::Completed { data } => {
            assert_eq!(data.job_id, "a1");
            assert_eq!(data.exit_code, 0);
            assert_eq!(data.duration_ms, 42);
        }
        Event::Output { .. } => panic!("last event must be the completion"),
    }
}

#[test]
fn build_failure_relays_nonzero_exit_code() {
    let mut core = RunnerCore::new();
    let bad = "fn main( {";
    let plan = accept_plan(core.submit("a2".to_string(), bad.to_string(), RunMode::Run));
    assert_eq!(plan.source, bad);
    assert!(core.mark_launched("a2"));
    let e = core.note_output("a2", StreamKind::Stderr, "error: expected parameter name".to_string());
    assert!(e.is_some());
    let e = core.mark_exited("a2", Some(101), 7).expect("exit is reported");
    match e {
        Event::Completed { data } => {
            assert_eq!(data.job_id, "a2");
            assert_ne!(data.exit_code, 0);
            assert_eq!(data.exit_code, 101);
        }
        Event::Output { .. } => panic!("exit must produce a completion event"),
    }
}

#[test]
fn duplicate_id_is_rejected_while_first_is_running() {
    let mut core = RunnerCore::new();
    let _ = accept_plan(core.submit("a1".to_string(), "fn main(){}".to_string(), RunMode::Run));
    assert!(core.mark_launched("a1"));
    let second = core.submit("a1".to_string(), "fn main(){ panic!() }".to_string(), RunMode::Run);
    assert!(is_rejected(&second));
    // The first job is unaffected: it still streams and completes normally.
    let e = core.note_output("a1", StreamKind::Stdout, "still here".to_string());
    assert!(e.is_some());
    let e = core.mark_exited("a1", Some(0), 3).expect("first job completes");
    match e {
        Event::Completed { data } => assert_eq!(data.exit_code, 0),
        Event::Output { .. } => panic!("exit must produce a completion event"),
    }
}

#[test]
fn id_is_single_use_even_after_completion() {
    let mut core = RunnerCore::new();
    let _ = accept_plan(core.submit("a1".to_string(), "fn main(){}".to_string(), RunMode::Run));
    assert!(core.mark_launched("a1"));
    let _ = core.mark_exited("a1", Some(0), 1).expect("completes");
    let again = core.submit("a1".to_string(), "fn main(){}".to_string(), RunMode::Run);
    assert!(is_rejected(&again));
}

#[test]
fn cancel_unknown_or_completed_job_is_not_found() {
    let mut core = RunnerCore::new();
    assert_eq!(core.cancel("never-submitted"), CancelOutcome::NotFound);
    let _ = accept_plan(core.submit("a9".to_string(), "fn main(){}".to_string(), RunMode::Run));
    // Pending: no live process yet, nothing to signal.
    assert_eq!(core.cancel("a9"), CancelOutcome::NotFound);
    assert!(core.mark_launched("a9"));
    let _ = core.mark_exited("a9", Some(0), 1).expect("completes");
    assert_eq!(core.cancel("a9"), CancelOutcome::NotFound);
}

#[test]
fn cancel_running_job_yields_sentinel_completion() {
    let mut core = RunnerCore::new();
    let loop_src = "fn main(){ loop {} }";
    let _ = accept_plan(core.submit("a3".to_string(), loop_src.to_string(), RunMode::Run));
    assert!(core.mark_launched("a3"));
    assert_eq!(core.cancel("a3"), CancelOutcome::Signalled);
    // Only the first cancellation signals; the next finds nothing to do.
    assert_eq!(core.cancel("a3"), CancelOutcome::NotFound);
    // The child ignored the polite signal and was killed: no exit code.
    let e = core.mark_exited("a3", None, 80).expect("kill still yields one completion");
    match e {
        Event::Completed { data } => {
            assert_eq!(data.job_id, "a3");
            assert_eq!(data.exit_code, -1);
        }
        Event::Output { .. } => panic!("exit must produce a completion event"),
    }
    assert_eq!(core.cancel("a3"), CancelOutcome::NotFound);
}

#[test]
fn cancelled_job_reports_sentinel_even_with_natural_exit_code() {
    let mut core = RunnerCore::new();
    let _ = accept_plan(core.submit("a4".to_string(), "fn main(){}".to_string(), RunMode::Run));
    assert!(core.mark_launched("a4"));
    assert_eq!(core.cancel("a4"), CancelOutcome::Signalled);
    // The termination signal produced an exit status with a code anyway; the
    // cancellation sentinel still wins so the client can tell them apart.
    let e = core.mark_exited("a4", Some(143), 12).expect("completes");
    match e {
        Event::Completed { data } => assert_eq!(data.exit_code, -1),
        Event::Output { .. } => panic!("exit must produce a completion event"),
    }
}

#[test]
fn launch_failure_is_terminal_with_sentinel() {
    let mut core = RunnerCore::new();
    let _ = accept_plan(core.submit("a5".to_string(), "fn main(){}".to_string(), RunMode::Run));
    let e = core.mark_launch_failed("a5", 2).expect("launch failure yields the completion");
    match e {
        Event::Completed { data } => {
            assert_eq!(data.job_id, "a5");
            assert_eq!(data.exit_code, -1);
        }
        Event::Output { .. } => panic!("launch failure must produce a completion event"),
    }
    // The job is gone: further reports about it are ignored.
    assert!(core.note_output("a5", StreamKind::Stdout, "late".to_string()).is_none());
    assert!(core.mark_exited("a5", Some(0), 9).is_none());
}

#[test]
fn reports_for_unknown_jobs_are_dropped() {
    let mut core = RunnerCore::new();
    assert!(!core.mark_launched("ghost"));
    assert!(core.note_output("ghost", StreamKind::Stdout, "boo".to_string()).is_none());
    assert!(core.mark_exited("ghost", Some(0), 1).is_none());
    assert!(core.mark_launch_failed("ghost", 1).is_none());
}

#[test]
fn output_after_cancel_is_still_delivered_before_completion() {
    let mut core = RunnerCore::new();
    let _ = accept_plan(core.submit("a6".to_string(), "fn main(){}".to_string(), RunMode::Run));
    assert!(core.mark_launched("a6"));
    assert_eq!(core.cancel("a6"), CancelOutcome::Signalled);
    // Lines already in flight when the signal went out still arrive.
    let e = core.note_output("a6", StreamKind::Stdout, "last words".to_string());
    assert!(e.is_some());
    let e = core.mark_exited("a6", None, 5).expect("completes");
    assert!(matches!(e, Event::Completed { .. }));
}
