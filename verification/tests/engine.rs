//! Scenario tests of the supervision engine: the registry transitions
//! driven the way the control plane and the monitors drive them.

use exeio::config::ProcessConfig;
use exeio::registry::InputOutcome;
use exeio::registry::ProcessSummary;
use exeio::registry::Registry;
use exeio::registry::RestartReason;
use exeio::status::ProcessStatus;

fn cfg(id: &str, command: &str, args: Vec<String>, auto_restart: bool) -> ProcessConfig {
    ProcessConfig {
        id: id.to_string(),
        command: command.to_string(),
        args,
        working_dir: None,
        auto_restart,
        log_file: format!("/tmp/exeio-logs/{}.log", id),
        periodic: false,
        period_seconds: None,
    }
}

fn periodic_cfg(id: &str, command: &str, args: Vec<String>, period: u64) -> ProcessConfig {
    ProcessConfig {
        id: id.to_string(),
        command: command.to_string(),
        args,
        working_dir: None,
        auto_restart: false,
        log_file: format!("/tmp/exeio-logs/{}.log", id),
        periodic: true,
        period_seconds: Some(period),
    }
}

fn summary_of<'a>(list: &'a [ProcessSummary], id: &str) -> &'a ProcessSummary {
    list.iter().find(|s| s.id == id).expect("id missing from list")
}

#[test]
fn add_and_list_shows_new_process() {
    // Add a short-lived echo process, then list it.
    let mut reg = Registry::new();
    let c = cfg("echo1", "echo", vec!["hello".to_string()], false);
    let run = reg.begin_spawn_run_count(&"echo1".to_string());
    assert_eq!(run, 1);
    reg.install_running(c, run, 1_000, false);
    let list = reg.list_snapshot();
    assert_eq!(list.len(), 1);
    let s = summary_of(&list, "echo1");
    assert_eq!(s.command, "echo");
    assert_eq!(s.args, vec!["hello".to_string()]);
    assert_eq!(s.run_count, 1);
    assert!(s.status == ProcessStatus::Running || s.status == ProcessStatus::Stopped);
    assert_eq!(s.status.as_str(), "running");
    assert!(s.is_running);
    assert_eq!(s.log_file, "/tmp/exeio-logs/echo1.log");
}

#[test]
fn auto_restart_after_crash_increments_run_count() {
    // A crashing child with auto-restart: the monitor enqueues a
    // two-second restart, and the respawn raises the run count to two.
    let id = "crasher".to_string();
    let mut reg = Registry::new();
    let c = cfg("crasher", "sh", vec!["-c".to_string(), "exit 1".to_string()], true);
    let run = reg.begin_spawn_run_count(&id);
    reg.install_running(c.clone(), run, 1_000, true);

    let ticket = reg.on_child_exit(&id, 1, 1_001).expect("restart expected");
    assert_eq!(ticket.process_id, "crasher");
    assert_eq!(ticket.delay_seconds, 2);
    assert_eq!(ticket.reason, RestartReason::Crashed(1));

    // The dispatcher sleeps, looks the definition up, and respawns.
    let c2 = reg.get_config(&id).expect("definition still registered");
    let run2 = reg.begin_spawn_run_count(&id);
    assert_eq!(run2, 2);
    reg.install_running(c2, run2, 1_003, true);
    let list = reg.list_snapshot();
    assert!(summary_of(&list, "crasher").run_count >= 2);
}

#[test]
fn rapid_flap_penalty_applies_on_second_crash() {
    // A second crash within ten seconds of the previous exit pays the
    // twenty-second penalty on top of the base delay.
    let id = "flappy".to_string();
    let mut reg = Registry::new();
    let c = cfg("flappy", "sh", vec![], true);
    reg.install_running(c.clone(), 1, 1_000, true);
    let t1 = reg.on_child_exit(&id, 1, 1_001).expect("restart expected");
    assert_eq!(t1.delay_seconds, 2);
    reg.install_running(c, 2, 1_003, true);
    let t2 = reg.on_child_exit(&id, 1, 1_004).expect("restart expected");
    assert_eq!(t2.delay_seconds, 2 + 20);
}

#[test]
fn manual_stop_wins_over_auto_restart() {
    // Stop the process before its exit is observed: no restart is
    // enqueued, the status stays manually stopped, the count frozen.
    let id = "crasher".to_string();
    let mut reg = Registry::new();
    let c = cfg("crasher", "sh", vec!["-c".to_string(), "exit 1".to_string()], true);
    reg.install_running(c, 1, 1_000, true);
    let log = reg.stop_process(&id).expect("record exists");
    assert_eq!(log, "/tmp/exeio-logs/crasher.log");

    let ticket = reg.on_child_exit(&id, 9, 1_002);
    assert!(ticket.is_none());
    let list = reg.list_snapshot();
    let s = summary_of(&list, "crasher");
    assert_eq!(s.status, ProcessStatus::ManuallyStopped);
    assert_eq!(s.status.as_str(), "manually_stopped");
    assert_eq!(s.run_count, 1);
    assert!(!s.is_running);
}

#[test]
fn periodic_runs_count_up() {
    // Four periodic runs: the run count follows the scheduler.
    let id = "tick".to_string();
    let mut reg = Registry::new();
    let c = periodic_cfg("tick", "echo", vec!["tick".to_string()], 1);
    reg.install_periodic(c);
    let mut now = 1_000u64;
    for expected in 1..=4u64 {
        let run = reg.periodic_run_started(&id, now).expect("record exists");
        assert_eq!(run, expected);
        reg.periodic_run_finished(&id);
        now += 1;
    }
    let list = reg.list_snapshot();
    let s = summary_of(&list, "tick");
    assert_eq!(s.run_count, 4);
    assert_eq!(s.status, ProcessStatus::WaitingForPeriod);
    assert_eq!(s.status.as_str(), "waiting");
    assert!(s.is_running);
    assert!(s.periodic);
    assert_eq!(s.period_seconds, Some(1));
}

#[test]
fn stdin_line_reaches_the_pump() {
    // Queue a line for a running child and let the pump drain it.
    let id = "cat".to_string();
    let mut reg = Registry::new();
    let c = cfg("cat", "cat", vec![], false);
    reg.install_running(c, 1, 1_000, false);
    assert_eq!(reg.send_input(&id, "hi".to_string()), InputOutcome::Queued);
    assert_eq!(reg.take_next_input(&id), Some("hi".to_string()));
    assert_eq!(reg.take_next_input(&id), None);
}

#[test]
fn input_fails_without_a_channel() {
    let mut reg = Registry::new();
    reg.install_periodic(periodic_cfg("tick", "echo", vec![], 5));
    assert_eq!(
        reg.send_input(&"tick".to_string(), "x".to_string()),
        InputOutcome::NoChannel
    );
    assert_eq!(
        reg.send_input(&"ghost".to_string(), "x".to_string()),
        InputOutcome::NotFound
    );
}

#[test]
fn duplicate_install_replaces_without_duplicating() {
    // Installing under an existing id replaces the record: the registry
    // never holds two records for one id.
    let mut reg = Registry::new();
    reg.install_running(cfg("one", "a", vec![], false), 1, 1_000, false);
    reg.install_running(cfg("one", "b", vec![], false), 2, 1_001, false);
    let list = reg.list_snapshot();
    assert_eq!(list.len(), 1);
    assert_eq!(list[0].command, "b");
    assert_eq!(list[0].run_count, 2);
}

#[test]
fn remove_unregisters_the_id() {
    let id = "gone".to_string();
    let mut reg = Registry::new();
    reg.install_running(cfg("gone", "sleep", vec![], false), 1, 1_000, false);
    let removed = reg.remove_process(&id).expect("record exists");
    assert_eq!(removed.id, "gone");
    assert!(!reg.contains_id(&id));
    assert!(reg.remove_process(&id).is_none());
    assert_eq!(reg.list_snapshot().len(), 0);
}

#[test]
fn restart_prepares_a_respawn() {
    let id = "svc".to_string();
    let mut reg = Registry::new();
    reg.install_running(cfg("svc", "srv", vec![], true), 1, 1_000, true);
    let c = reg.prepare_restart(&id).expect("record exists");
    assert_eq!(c.id, "svc");
    let list = reg.list_snapshot();
    let s = &list[0];
    assert_eq!(s.status, ProcessStatus::Stopped);
    assert_eq!(s.run_count, 2);
    assert!(!s.is_running);
    // The spawn path then reads the already-incremented count.
    assert_eq!(reg.begin_spawn_run_count(&id), 2);
}

#[test]
fn stop_all_marks_everything_manually_stopped() {
    let mut reg = Registry::new();
    reg.install_running(cfg("a", "a", vec![], true), 1, 1_000, true);
    reg.install_periodic(periodic_cfg("b", "b", vec![], 3));
    reg.stop_all();
    for s in reg.list_snapshot() {
        assert_eq!(s.status, ProcessStatus::ManuallyStopped);
        assert!(!s.is_running);
    }
}

#[test]
fn restart_all_returns_every_definition() {
    let mut reg = Registry::new();
    reg.install_running(cfg("a", "cmd-a", vec![], false), 1, 1_000, false);
    reg.install_running(cfg("b", "cmd-b", vec![], false), 1, 1_001, false);
    let configs = reg.prepare_restart_all();
    let mut ids: Vec<String> = configs.iter().map(|c| c.id.clone()).collect();
    ids.sort();
    assert_eq!(ids, vec!["a".to_string(), "b".to_string()]);
    for s in reg.list_snapshot() {
        assert_eq!(s.status, ProcessStatus::Stopped);
        // The bulk restart counts the upcoming spawn attempt per id.
        assert_eq!(s.run_count, 2);
    }
}

#[test]
fn shutdown_stops_everything() {
    let mut reg = Registry::new();
    reg.install_running(cfg("a", "a", vec![], true), 1, 1_000, true);
    reg.install_periodic(periodic_cfg("b", "b", vec![], 3));
    reg.shutdown_all();
    for s in reg.list_snapshot() {
        assert_eq!(s.status, ProcessStatus::Stopped);
        assert!(!s.is_running);
    }
}

#[test]
fn failed_spawn_schedules_a_five_second_retry() {
    let mut reg = Registry::new();
    let c = cfg("nope", "/does/not/exist", vec![], true);
    let ticket = reg.install_failed(c, 1, 1_000).expect("retry expected");
    assert_eq!(ticket.process_id, "nope");
    assert_eq!(ticket.delay_seconds, 5);
    assert_eq!(ticket.reason, RestartReason::FailedStart);
    let s = &reg.list_snapshot()[0];
    assert_eq!(s.status, ProcessStatus::Failed);
    assert!(!s.is_running);

    let mut reg2 = Registry::new();
    let c2 = cfg("nope", "/does/not/exist", vec![], false);
    assert!(reg2.install_failed(c2, 1, 1_000).is_none());
}

#[test]
fn exit_without_auto_restart_just_stops() {
    let id = "once".to_string();
    let mut reg = Registry::new();
    reg.install_running(cfg("once", "true", vec![], false), 1, 1_000, false);
    assert!(reg.on_child_exit(&id, 0, 1_001).is_none());
    let s = &reg.list_snapshot()[0];
    assert_eq!(s.status, ProcessStatus::Stopped);
    assert_eq!(s.run_count, 1);
}

#[test]
fn stdin_queue_is_first_in_first_out() {
    let id = "cat".to_string();
    let mut reg = Registry::new();
    reg.install_running(cfg("cat", "cat", vec![], false), 1, 1_000, false);
    assert_eq!(reg.send_input(&id, "one".to_string()), InputOutcome::Queued);
    assert_eq!(reg.send_input(&id, "two".to_string()), InputOutcome::Queued);
    assert_eq!(reg.take_next_input(&id), Some("one".to_string()));
    assert_eq!(reg.take_next_input(&id), Some("two".to_string()));
    assert_eq!(reg.take_next_input(&id), None);
}

#[test]
fn exit_of_unknown_id_changes_nothing() {
    let mut reg = Registry::new();
    reg.install_running(cfg("a", "a", vec![], true), 1, 1_000, true);
    assert!(reg.on_child_exit(&"ghost".to_string(), 1, 1_001).is_none());
    assert_eq!(reg.list_snapshot().len(), 1);
    assert!(reg.stop_process(&"ghost".to_string()).is_none());
    assert!(reg.prepare_restart(&"ghost".to_string()).is_none());
}
