use dpr::dispatch::{plan_cycle, CycleAction, Dispatcher};
use dpr::governor::ConcurrencyGovernor;
use dpr::job::Job;
use dpr::logger::ActiveJobRegistry;
use dpr::process::{classify_exit, failure_result, prepare_command, ProcessError};
use dpr::status::ExperimentStatus;
use dpr::table::JobTable;

#[test]
fn classifies_exit_codes() {
    assert_eq!(classify_exit(Some(0)), ExperimentStatus::SuccessFinished);
    assert_eq!(classify_exit(Some(124)), ExperimentStatus::TimedOut);
    assert_eq!(classify_exit(Some(1)), ExperimentStatus::FailedFinished);
    assert_eq!(classify_exit(Some(-1)), ExperimentStatus::FailedFinished);
    assert_eq!(classify_exit(Some(2)), ExperimentStatus::FailedFinished);
    assert_eq!(classify_exit(None), ExperimentStatus::FailedFinished);
}

#[test]
fn prepares_commands_for_spawn() {
    let parts = prepare_command("sleep 1 && echo b").unwrap();
    assert_eq!(parts.program, "sleep");
    assert_eq!(parts.args, vec!["1".to_string(), "&&".to_string(), "echo".to_string(), "b".to_string()]);
    let single = prepare_command("false").unwrap();
    assert_eq!(single.program, "false");
    assert!(single.args.is_empty());
}

#[test]
fn blank_command_never_reaches_spawn() {
    // An empty or whitespace-only command is refused before any spawn, as a
    // recorded start failure rather than a crash.
    assert!(matches!(prepare_command(""), Err(ProcessError::StartProcess)));
    assert!(matches!(prepare_command("   \t "), Err(ProcessError::StartProcess)));
    let job = Job { id: 9, command: "   ".to_string() };
    let result = failure_result(job, ProcessError::StartProcess);
    assert_eq!(result.code, -1);
    assert_eq!(result.stdout, "");
    assert_eq!(result.stderr, "Cannot start subprocess because of command is invalid");
}

#[test]
fn error_messages() {
    assert_eq!(ProcessError::GetReturnCode.message(), "Cannot get return code of subprocess");
    assert_eq!(ProcessError::FetchOutput.message(), "Cannot get stdout/stderr of the process");
}

#[test]
fn governor_tracks_capacity() {
    let mut g = ConcurrencyGovernor::new(2);
    assert_eq!(g.free_capacity(), 2);
    g.increment();
    assert_eq!(g.free_capacity(), 1);
    g.increment();
    assert_eq!(g.free_capacity(), 0);
    g.decrement();
    assert_eq!(g.free_capacity(), 1);
    assert!(g.count <= g.limit);
}

#[test]
fn registry_tracks_in_flight_jobs() {
    let mut reg = ActiveJobRegistry::new();
    reg.add_to_active_jobs(Job { id: 1, command: "a".to_string() });
    reg.add_to_active_jobs(Job { id: 2, command: "b".to_string() });
    assert_eq!(reg.len(), 2);
    assert!(reg.contains_id(1));
    assert!(!reg.contains_id(3));
    let removed = reg.remove_job(1).unwrap();
    assert_eq!(removed.id, 1);
    assert!(reg.remove_job(1).is_none());
    let drained = reg.wait_all_to_finish();
    assert_eq!(drained.len(), 1);
    assert_eq!(drained[0].id, 2);
    assert_eq!(reg.len(), 0);
}

#[test]
fn plans_poll_cycles() {
    assert_eq!(plan_cycle(0, 0, 4, false), CycleAction::Stop);
    assert_eq!(plan_cycle(0, 0, 4, true), CycleAction::Claim(4));
    assert_eq!(plan_cycle(5, 4, 4, false), CycleAction::Idle);
    assert_eq!(plan_cycle(5, 5, 4, true), CycleAction::Idle);
    assert_eq!(plan_cycle(5, 1, 4, false), CycleAction::Claim(3));
}

#[test]
fn dispatches_three_commands_under_limit_two() {
    // Three loaded commands, concurrency limit 2, no shuffle, no
    // keep-running; exit codes 0, 1 and 0 end in two successes and one
    // failure, with nothing running or available.
    let mut table = JobTable::new();
    table.load_commands("echo a\nfalse\nsleep 1 && echo b\n", false);
    let mut d = Dispatcher::new(table, 2, false);

    assert_eq!(
        plan_cycle(d.table.get_number_of_available_jobs(), d.governor.count, d.governor.limit, false),
        CycleAction::Claim(2)
    );
    let first = d.claim_and_launch();
    assert_eq!(first.len(), 2);
    assert_eq!(first[0].command, "echo a");
    assert_eq!(first[1].command, "false");
    assert!(d.governor.count <= d.governor.limit);
    assert_eq!(d.governor.count, 2);

    // "echo a" exits 0, "false" exits 1; each result is collected after its
    // terminal status is written.
    assert_eq!(d.complete_job(first[0].id, Some(0)), ExperimentStatus::SuccessFinished);
    assert_eq!(d.collect_result(first[0].id).unwrap().id, first[0].id);
    assert_eq!(d.complete_job(first[1].id, Some(1)), ExperimentStatus::FailedFinished);
    assert_eq!(d.collect_result(first[1].id).unwrap().id, first[1].id);

    let second = d.claim_and_launch();
    assert_eq!(second.len(), 1);
    assert_eq!(second[0].command, "sleep 1 && echo b");
    assert_eq!(d.complete_job(second[0].id, Some(0)), ExperimentStatus::SuccessFinished);
    assert_eq!(d.collect_result(second[0].id).unwrap().id, second[0].id);

    assert_eq!(
        plan_cycle(d.table.get_number_of_available_jobs(), d.governor.count, d.governor.limit, false),
        CycleAction::Stop
    );
    let leftover = d.wait_all_to_finish();
    assert!(leftover.is_empty());

    let h = d.table.status_histogram();
    assert_eq!(h, vec![0, 0, 2, 1, 0]);
}

#[test]
fn timeout_sentinel_marks_timed_out() {
    let mut table = JobTable::new();
    table.load_commands("long job\n", false);
    let mut d = Dispatcher::new(table, 1, false);
    let jobs = d.claim_and_launch();
    assert_eq!(jobs.len(), 1);
    assert_eq!(d.complete_job(jobs[0].id, Some(124)), ExperimentStatus::TimedOut);
    d.collect_result(jobs[0].id);
    assert_eq!(d.table.status_histogram(), vec![0, 0, 0, 0, 1]);
}

#[test]
fn claim_is_bounded_by_free_capacity() {
    let mut table = JobTable::new();
    table.load_commands("a\nb\nc\nd\ne\n", false);
    let mut d = Dispatcher::new(table, 2, false);
    let first = d.claim_and_launch();
    assert_eq!(first.len(), 2);
    // No capacity is free: a further cycle claims nothing.
    let second = d.claim_and_launch();
    assert!(second.is_empty());
    assert_eq!(d.governor.count, 2);
    // One job finishes: exactly one slot opens.
    d.complete_job(first[0].id, Some(0));
    d.collect_result(first[0].id);
    let third = d.claim_and_launch();
    assert_eq!(third.len(), 1);
    assert!(d.governor.count <= d.governor.limit);
}
