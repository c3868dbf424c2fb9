//! Unit tests of the policies: backoff, exit classification, request
//! validation, authentication, and the single-instance lock.

use exeio::api::clamp_page_param;
use exeio::api::is_blank;
use exeio::api::validate_add_request;
use exeio::api::AddError;
use exeio::api::AddRequest;
use exeio::auth::fmt_u64_hex;
use exeio::auth::generate_api_key;
use exeio::auth::validate_api_key;
use exeio::backoff::calculate_restart_delay;
use exeio::config::ProcessConfig;
use exeio::config::SafeConfigManager;
use exeio::instance::decide_lock_action;
use exeio::instance::parse_pid;
use exeio::instance::LockAction;
use exeio::registry::classify_exit;
use exeio::registry::Registry;
use exeio::registry::RestartReason;

fn add_req(id: &str, command: &str) -> AddRequest {
    AddRequest {
        id: id.to_string(),
        command: command.to_string(),
        args: vec![],
        working_dir: None,
        auto_restart: false,
        save_for_next_run: false,
        periodic: None,
        period_seconds: None,
    }
}

#[test]
fn backoff_base_table() {
    // The piecewise-constant base, far from any previous exit.
    let t = 1_000_000u64;
    assert_eq!(calculate_restart_delay(1, None, t), 2);
    assert_eq!(calculate_restart_delay(3, None, t), 2);
    assert_eq!(calculate_restart_delay(4, None, t), 5);
    assert_eq!(calculate_restart_delay(6, None, t), 5);
    assert_eq!(calculate_restart_delay(7, None, t), 15);
    assert_eq!(calculate_restart_delay(10, None, t), 15);
    assert_eq!(calculate_restart_delay(11, None, t), 30);
    assert_eq!(calculate_restart_delay(15, None, t), 30);
    assert_eq!(calculate_restart_delay(16, None, t), 60);
    assert_eq!(calculate_restart_delay(1_000, None, t), 60);
}

#[test]
fn backoff_rapid_flap_penalty() {
    // Within ten seconds of the previous exit: twenty extra seconds.
    assert_eq!(calculate_restart_delay(1, Some(995), 1_000), 22);
    assert_eq!(calculate_restart_delay(1, Some(991), 1_000), 22);
    assert_eq!(calculate_restart_delay(1, Some(990), 1_000), 2);
    assert_eq!(calculate_restart_delay(16, Some(999), 1_000), 80);
    // A clock that moved backwards still counts as a rapid flap.
    assert_eq!(calculate_restart_delay(1, Some(2_000), 1_000), 22);
}

#[test]
fn backoff_monotone_in_run_count() {
    let t = 1_000u64;
    let mut prev = 0u64;
    for n in 1..40u64 {
        let d = calculate_restart_delay(n, Some(980), t);
        assert!(d >= prev);
        prev = d;
    }
}

#[test]
fn exit_codes_classify() {
    assert_eq!(classify_exit(0), RestartReason::NormalExit);
    assert_eq!(classify_exit(9), RestartReason::KilledBySignal(9));
    assert_eq!(classify_exit(15), RestartReason::KilledBySignal(15));
    assert_eq!(classify_exit(1), RestartReason::Crashed(1));
    assert_eq!(classify_exit(-1), RestartReason::Crashed(-1));
    assert_eq!(classify_exit(137), RestartReason::Crashed(137));
}

#[test]
fn add_validation_rejects_bad_requests() {
    let mut reg = Registry::new();
    let taken = ProcessConfig {
        id: "taken".to_string(),
        command: "x".to_string(),
        args: vec![],
        working_dir: None,
        auto_restart: false,
        log_file: "/l/taken.log".to_string(),
        periodic: false,
        period_seconds: None,
    };
    reg.install_running(taken, 1, 0, false);

    let r = validate_add_request(&reg, &add_req("taken", "x"), "/l");
    assert_eq!(r.unwrap_err(), AddError::DuplicateId);

    let r = validate_add_request(&reg, &add_req("  ", "x"), "/l");
    assert_eq!(r.unwrap_err(), AddError::BlankId);

    let r = validate_add_request(&reg, &add_req("new", " \t"), "/l");
    assert_eq!(r.unwrap_err(), AddError::BlankCommand);

    let mut p = add_req("new", "x");
    p.periodic = Some(true);
    let r = validate_add_request(&reg, &p, "/l");
    assert_eq!(r.unwrap_err(), AddError::PeriodMissing);

    p.period_seconds = Some(0);
    let r = validate_add_request(&reg, &p, "/l");
    assert_eq!(r.unwrap_err(), AddError::PeriodZero);
}

#[test]
fn add_validation_builds_the_definition() {
    let reg = Registry::new();
    let mut req = add_req("echo1", "echo");
    req.args = vec!["hello".to_string()];
    req.auto_restart = true;
    let c = validate_add_request(&reg, &req, "/home/u/.local/share/exeio/logs").unwrap();
    assert_eq!(c.id, "echo1");
    assert_eq!(c.command, "echo");
    assert_eq!(c.args, vec!["hello".to_string()]);
    assert!(c.auto_restart);
    assert!(!c.periodic);
    assert_eq!(c.log_file, "/home/u/.local/share/exeio/logs/echo1.log");

    let mut preq = add_req("tick", "echo");
    preq.periodic = Some(true);
    preq.period_seconds = Some(1);
    let p = validate_add_request(&reg, &preq, "/l").unwrap();
    assert!(p.periodic);
    assert_eq!(p.period_seconds, Some(1));
}

#[test]
fn blankness() {
    assert!(is_blank(""));
    assert!(is_blank("   "));
    assert!(is_blank(" \t\n"));
    assert!(!is_blank(" x "));
}

#[test]
fn auth_requires_the_exact_key() {
    let secret = "exeio_philoabc123".to_string();
    assert!(!validate_api_key(&None, &secret));
    assert!(!validate_api_key(&Some("wrong".to_string()), &secret));
    assert!(!validate_api_key(&Some("exeio_philoabc12".to_string()), &secret));
    assert!(validate_api_key(&Some(secret.clone()), &secret));
}

#[test]
fn api_key_shape() {
    assert_eq!(generate_api_key(0xdeadbeef), "exeio_philodeadbeef");
    assert_eq!(generate_api_key(0), "exeio_philo0");
    assert_eq!(generate_api_key(u64::MAX), "exeio_philoffffffffffffffff");
}

#[test]
fn pid_parsing() {
    assert_eq!(parse_pid("123"), Some(123));
    assert_eq!(parse_pid("+7"), Some(7));
    assert_eq!(parse_pid("0"), Some(0));
    assert_eq!(parse_pid("4294967295"), Some(u32::MAX));
    assert_eq!(parse_pid("4294967296"), None);
    assert_eq!(parse_pid(""), None);
    assert_eq!(parse_pid("+"), None);
    assert_eq!(parse_pid("12a"), None);
    assert_eq!(parse_pid("-5"), None);
}

#[test]
fn second_instance_is_refused_and_lock_left_alone() {
    // A live holder: the newcomer fails and must not touch the lock.
    assert_eq!(
        decide_lock_action(true, Some(4242), true),
        LockAction::AlreadyRunning(4242)
    );
    // A dead holder: the stale lock is removed, then acquired.
    assert_eq!(
        decide_lock_action(true, Some(4242), false),
        LockAction::RemoveStaleAndAcquire
    );
    // No lock, or an unreadable one: acquire.
    assert_eq!(decide_lock_action(false, None, false), LockAction::Acquire);
    assert_eq!(decide_lock_action(true, None, false), LockAction::Acquire);
}

#[test]
fn persistence_round_trip() {
    // Save a definition, reload the store, and re-register it: the
    // definition survives with identical fields.
    let mut store = SafeConfigManager::new();
    let d = ProcessConfig {
        id: "svc".to_string(),
        command: "server".to_string(),
        args: vec!["--port".to_string(), "80".to_string()],
        working_dir: Some("/srv".to_string()),
        auto_restart: true,
        log_file: "/l/svc.log".to_string(),
        periodic: false,
        period_seconds: None,
    };
    store.save_process_config(&d);
    // Upserting again replaces rather than duplicates.
    store.save_process_config(&d);
    let loaded = store.load_configs();
    assert_eq!(loaded.len(), 1);

    // The next supervisor run registers what was loaded.
    let mut reg = Registry::new();
    for c in loaded {
        let run = reg.begin_spawn_run_count(&c.id);
        reg.install_running(c, run, 0, true);
    }
    let c = reg.get_config(&"svc".to_string()).expect("reloaded");
    assert_eq!(c.id, d.id);
    assert_eq!(c.command, d.command);
    assert_eq!(c.args, d.args);
    assert_eq!(c.working_dir, d.working_dir);
    assert_eq!(c.auto_restart, d.auto_restart);
    assert_eq!(c.log_file, d.log_file);
    assert_eq!(c.periodic, d.periodic);
    assert_eq!(c.period_seconds, d.period_seconds);

    // Removal deletes it from the store.
    store.remove_process_config(&"svc".to_string());
    assert_eq!(store.load_configs().len(), 0);
}

#[test]
fn pagination_parameters_clamp() {
    assert_eq!(clamp_page_param(None, 1), 1);
    assert_eq!(clamp_page_param(None, 50), 50);
    assert_eq!(clamp_page_param(Some(0), 1), 1);
    assert_eq!(clamp_page_param(Some(7), 50), 7);
}

#[test]
fn store_keeps_distinct_ids_apart() {
    let mut store = SafeConfigManager::new();
    let mk = |id: &str| ProcessConfig {
        id: id.to_string(),
        command: "c".to_string(),
        args: vec![],
        working_dir: None,
        auto_restart: false,
        log_file: format!("/l/{}.log", id),
        periodic: false,
        period_seconds: None,
    };
    store.save_process_config(&mk("a"));
    store.save_process_config(&mk("b"));
    store.save_process_config(&mk("a"));
    let loaded = store.load_configs();
    assert_eq!(loaded.len(), 2);
    // The re-saved entry moves to the end; the other stays.
    assert_eq!(loaded[0].id, "b");
    assert_eq!(loaded[1].id, "a");
}

#[test]
fn hex_digits_render() {
    assert_eq!(fmt_u64_hex(0), "0");
    assert_eq!(fmt_u64_hex(10), "a");
    assert_eq!(fmt_u64_hex(255), "ff");
    assert_eq!(fmt_u64_hex(0x1234_5678_9abc_def0), "123456789abcdef0");
}
