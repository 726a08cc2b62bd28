use buildwatch::builder::{
    build_result, build_status, duration_ms, keep_error_line, manual_build_result, select_manual_targets,
    ManualBuildError, ProcessOutcome,
};
use buildwatch::config::{
    apply_reload, apply_watch_overrides, config_changed, config_path, default_build_timeout, default_global_excludes, default_priority,
    default_settling_delay, default_true, default_version, default_working_dir, Config, NotificationConfig,
    OverrideError, TargetConfig,
};
use buildwatch::daemon::{
    daemon_args, exclude_dirs, initial_project_state, record_queue, should_notify, watch_extensions, DaemonAction,
    DaemonCore, DaemonEvent,
};
use buildwatch::detector::{detect_project, generate_config, marker_files, DetectedProject};
use buildwatch::gate::{gate_decision, GateAction};
use buildwatch::notifier::{notify, NotificationBody};
use buildwatch::output::{
    agent_env_vars, format_error, is_agent_caller, status_icon, status_json, status_line, status_line_icon,
};
use buildwatch::queue::{compute_priority, event_scores_fit, BuildQueue};
use buildwatch::state::{
    fuzzy_match_target, heartbeat_is_fresh, resolve_target, is_daemon_alive, state_dir_for, BuildResult, DaemonInfo, MatchError,
    ProjectState, TargetState,
};
use buildwatch::watcher::{change_event, exclude_dir_names, reconnect_delay_ms, watch_suffixes, FileChangeEvent};
use buildwatch::logs::{log_line, log_rotation, rotation_name, tail_lines, TAIL_LINES};
use buildwatch::registry::{lock_decision, lock_text, parse_lock_pid, LockDecision, Registry, RegistryEntry};

fn strings(items: &[&str]) -> Vec<String> {
    items.iter().map(|s| s.to_string()).collect()
}

fn target(name: &str, exts: &[&str], paths: &[&str], priority: i32, enabled: bool) -> TargetConfig {
    TargetConfig {
        name: name.to_string(),
        build_command: "echo build".to_string(),
        output_path: Some(format!("bin/{}", name)),
        working_directory: ".".to_string(),
        watch_extensions: strings(exts),
        watch_paths: strings(paths),
        exclude_paths: vec![],
        environment: vec![],
        priority,
        enabled,
        post_build: None,
        auto_restart: false,
    }
}

fn event(files: &[&str], ts: i64) -> FileChangeEvent {
    FileChangeEvent { changed_files: strings(files), timestamp: ts }
}

fn config_with(targets: Vec<TargetConfig>) -> Config {
    Config {
        version: 1,
        settling_delay_ms: 200,
        build_timeout_seconds: 300,
        notifications: NotificationConfig::default(),
        targets,
        global_excludes: vec![],
    }
}

fn result(exit_code: i32, summary: Option<&str>, output: Option<&str>) -> BuildResult {
    BuildResult {
        started_at: 1_000,
        finished_at: 3_500,
        duration_ms: 2_500,
        exit_code,
        output_path: output.map(|s| s.to_string()),
        trigger_files: strings(&["src/main.rs"]),
        error_summary: summary.map(|s| s.to_string()),
    }
}

fn state_with(entries: Vec<(&str, TargetState)>) -> ProjectState {
    let mut ps = ProjectState::empty(0);
    for (n, t) in entries {
        ps.targets.push((n.to_string(), t));
    }
    ps
}

fn target_state(status: &str, last_build: Option<BuildResult>) -> TargetState {
    TargetState {
        status: status.to_string(),
        last_build,
        build_count: 0,
        failure_count: 0,
        consecutive_failures: 0,
    }
}

// --- queue ---

#[test]
fn priority_is_priority_plus_files_under_watch_paths() {
    let t = target("api", &[".rs"], &["src/"], 5, true);
    let files = strings(&["src/a.rs", "src/b.rs", "docs/c.rs"]);
    assert_eq!(compute_priority(&t, &files), 7);
    let all = target("web", &[".ts"], &[], -3, true);
    assert_eq!(compute_priority(&all, &files), 0);
}

#[test]
fn disabled_and_unaffected_targets_are_not_queued() {
    let targets = vec![
        target("off", &[".rs"], &[], 5, false),
        target("ts", &[".ts"], &[], 5, true),
        target("all", &[], &[], 1, true),
    ];
    let mut q = BuildQueue::new();
    q.enqueue_from_event(&event(&["src/main.rs"], 7), &targets);
    assert_eq!(q.pending_targets(), strings(&["all"]));
}

#[test]
fn extension_without_dot_and_suffix_matching() {
    let targets = vec![target("docker", &["Dockerfile"], &[], 5, true), target("rs", &["rs"], &[], 4, true)];
    let mut q = BuildQueue::new();
    q.enqueue_from_event(&event(&["app/Dockerfile", "x.furs"], 1), &targets);
    assert_eq!(q.pending_targets(), strings(&["docker", "rs"]));
}

#[test]
fn coalescing_keeps_first_time_and_adds_files_once() {
    let targets = vec![target("api", &[".rs"], &["src/"], 5, true)];
    let mut q = BuildQueue::new();
    q.enqueue_from_event(&event(&["src/a.rs", "src/a.rs"], 10), &targets);
    q.enqueue_from_event(&event(&["src/a.rs", "src/b.rs", "src/b.rs"], 20), &targets);
    let b = q.dequeue().unwrap();
    assert_eq!(b.trigger_files, strings(&["src/a.rs", "src/a.rs", "src/b.rs"]));
    assert_eq!(b.queued_at, 10);
    assert_eq!(b.priority_score, 7);
    assert!(!q.has_pending());
}

#[test]
fn one_build_at_a_time() {
    let targets = vec![target("a", &[".rs"], &[], 1, true), target("b", &[".rs"], &[], 2, true)];
    let mut q = BuildQueue::new();
    q.enqueue_from_event(&event(&["m.rs"], 1), &targets);
    let first = q.dequeue().unwrap();
    assert_eq!(first.target_name, "b");
    assert!(q.building);
    assert_eq!(q.current_target.as_deref(), Some("b"));
    assert!(q.dequeue().is_none());
    assert!(q.has_pending());
    q.build_complete();
    assert!(!q.building);
    assert_eq!(q.current_target, None);
    assert_eq!(q.dequeue().unwrap().target_name, "a");
    q.build_complete();
    assert!(q.dequeue().is_none());
}

#[test]
fn pending_targets_highest_first_ties_in_queue_order() {
    let targets = vec![
        target("x", &[".rs"], &[], 3, true),
        target("y", &[".rs"], &[], 9, true),
        target("z", &[".rs"], &[], 3, true),
    ];
    let mut q = BuildQueue::new();
    q.enqueue_from_event(&event(&["m.rs"], 1), &targets);
    assert_eq!(q.pending_targets(), strings(&["y", "x", "z"]));
    assert_eq!(q.dequeue().unwrap().target_name, "y");
    q.build_complete();
    assert_eq!(q.dequeue().unwrap().target_name, "x");
}

// --- config ---

#[test]
fn defaults_have_their_values() {
    assert_eq!(default_version(), 1);
    assert_eq!(default_settling_delay(), 200);
    assert_eq!(default_build_timeout(), 300);
    assert!(default_true());
    assert_eq!(default_priority(), 5);
    assert_eq!(default_working_dir(), ".");
    assert_eq!(
        default_global_excludes(),
        strings(&[".git/", "node_modules/", "__pycache__/", "target/", "bin/", ".next/", "dist/"])
    );
    let n = NotificationConfig::default();
    assert!(n.enabled && n.on_success && n.on_failure && n.sound);
}

#[test]
fn config_path_joins_file_name() {
    assert_eq!(config_path("/home/u/proj"), "/home/u/proj/buildwatch.config.json");
    assert_eq!(config_path("/home/u/proj/"), "/home/u/proj/buildwatch.config.json");
    assert_eq!(config_path(""), "buildwatch.config.json");
}

#[test]
fn overrides_reject_unknown_target_and_change_nothing() {
    let mut config = config_with(vec![target("api", &[".rs"], &[], 5, true)]);
    let err = apply_watch_overrides(&mut config, &strings(&["api", "nope"]), Some(5)).unwrap_err();
    match err {
        OverrideError::UnknownTarget(n) => assert_eq!(n, "nope"),
    }
    assert_eq!(config.settling_delay_ms, 200);
    assert_eq!(config.targets.len(), 1);
}

#[test]
fn overrides_without_targets_keep_all() {
    let mut config = config_with(vec![target("api", &[".rs"], &[], 5, true), target("web", &[".ts"], &[], 3, true)]);
    apply_watch_overrides(&mut config, &[], None).unwrap();
    assert_eq!(config.targets.len(), 2);
    assert_eq!(config.settling_delay_ms, 200);
}

// --- state ---

#[test]
fn project_hash_is_sha256_prefix_in_hex() {
    assert_eq!(buildwatch::project_hash("."), "cdb4ee2aea69cc6a");
}

#[test]
fn state_dir_is_base_joined_with_project_hash() {
    assert_eq!(state_dir_for("/tmp/buildwatch", "/home/u/proj"), "/tmp/buildwatch/9c09f8055a26c277");
    assert_eq!(
        state_dir_for("/tmp/buildwatch", "/home/u/proj"),
        format!("/tmp/buildwatch/{}", buildwatch::project_hash("/home/u/proj"))
    );
}

#[test]
fn heartbeat_fresh_for_less_than_fifteen_seconds() {
    assert!(heartbeat_is_fresh(100_000, 114_999));
    assert!(!heartbeat_is_fresh(100_000, 115_000));
    assert!(heartbeat_is_fresh(100_000, 50_000));
    let info = DaemonInfo {
        pid: 1,
        project_root: "/p".to_string(),
        project_hash: "h".to_string(),
        started_at: 0,
        heartbeat: 0,
        version: "0.1.0".to_string(),
        watchman_version: None,
    };
    assert!(!is_daemon_alive(&info, 15_000));
    assert!(is_daemon_alive(&info, 14_999));
}

#[test]
fn fuzzy_match_exact_then_unique_substring() {
    let ps = state_with(vec![
        ("api", target_state("ready", None)),
        ("api-server", target_state("ready", None)),
        ("Web", target_state("ready", None)),
    ]);
    assert_eq!(fuzzy_match_target("api", &ps).unwrap(), "api");
    assert_eq!(fuzzy_match_target("SERV", &ps).unwrap(), "api-server");
    assert_eq!(fuzzy_match_target("we", &ps).unwrap(), "Web");
}

#[test]
fn fuzzy_match_errors() {
    let ps = state_with(vec![("api-one", target_state("ready", None)), ("api-two", target_state("ready", None))]);
    let none = fuzzy_match_target("zzz", &ps).unwrap_err();
    assert!(matches!(none, MatchError::NoMatch { .. }));
    assert_eq!(none.message(), "No target matching 'zzz'. Available: api-one, api-two");
    let amb = fuzzy_match_target("API", &ps).unwrap_err();
    assert!(matches!(amb, MatchError::Ambiguous { .. }));
    assert_eq!(amb.message(), "Ambiguous target 'API'. Matches: api-one, api-two");
}

#[test]
fn record_build_counts_failures_and_resets_on_success() {
    let mut ps = ProjectState::empty(0);
    ps.set_target_status(&"api".to_string(), "building", 5);
    assert_eq!(ps.targets.len(), 1);
    assert_eq!(ps.targets[0].1.status, "building");
    assert_eq!(ps.updated_at, 5);
    ps.record_build(&"api".to_string(), "failed", &result(2, Some("boom"), None), 6);
    ps.record_build(&"api".to_string(), "failed", &result(2, Some("boom"), None), 7);
    let t = &ps.targets[0].1;
    assert_eq!((t.build_count, t.failure_count, t.consecutive_failures), (2, 2, 2));
    ps.record_build(&"api".to_string(), "ready", &result(0, None, Some("bin/api")), 8);
    let t = &ps.targets[0].1;
    assert_eq!((t.build_count, t.failure_count, t.consecutive_failures), (3, 2, 0));
    assert_eq!(t.status, "ready");
    assert_eq!(t.last_build.as_ref().unwrap().exit_code, 0);
    assert_eq!(ps.targets.len(), 1);
    ps.record_build(&"web".to_string(), "ready", &result(0, None, None), 9);
    assert_eq!(ps.targets.len(), 2);
    assert_eq!(ps.targets[1].1.build_count, 1);
}

// --- detector ---

#[test]
fn detects_rust_and_docker() {
    let d = detect_project(Some("proj".to_string()), &strings(&["Cargo.toml", "Dockerfile", "Makefile"]), &vec![]);
    let types: Vec<&str> = d.iter().map(|p| p.project_type.as_str()).collect();
    assert_eq!(types, vec!["rust", "docker"]);
    assert_eq!(d[0].output_path.as_deref(), Some("target/debug/proj"));
    assert_eq!(d[1].name, "proj-docker");
}

#[test]
fn detects_make_only_alone_and_dotnet_by_entries() {
    let d = detect_project(None, &strings(&["makefile"]), &strings(&["App.sln"]));
    let types: Vec<&str> = d.iter().map(|p| p.project_type.as_str()).collect();
    assert_eq!(types, vec!["make", "dotnet"]);
    assert_eq!(d[0].name, "project");
    let go = detect_project(Some("svc".to_string()), &strings(&["go.mod", "package.json"]), &vec![]);
    assert_eq!(go.len(), 1);
    assert_eq!(go[0].build_command, "go build -o bin/svc ./cmd/svc");
    assert_eq!(marker_files().len(), 11);
}

#[test]
fn generate_config_filters_by_type() {
    let detected = detect_project(Some("p".to_string()), &strings(&["Cargo.toml", "pyproject.toml"]), &vec![]);
    let config = generate_config(detected, Some("python".to_string()));
    assert_eq!(config.targets.len(), 1);
    let t = &config.targets[0];
    assert_eq!(t.name, "p");
    assert_eq!(t.build_command, "echo 'Python: no build step'");
    assert_eq!(t.priority, 5);
    assert!(t.enabled);
    assert_eq!(t.working_directory, ".");
    assert_eq!(config.settling_delay_ms, 200);
    assert_eq!(config.global_excludes.len(), 7);
    let all = generate_config(
        vec![DetectedProject {
            project_type: "x".to_string(),
            name: "n".to_string(),
            build_command: "b".to_string(),
            output_path: None,
            watch_extensions: vec![],
            exclude_paths: vec![],
        }],
        None,
    );
    assert_eq!(all.targets.len(), 1);
}

// --- notifier and output ---

#[test]
fn notification_texts() {
    let ok = notify("api", true, 1500, None, true);
    assert_eq!(ok.title, "✓ api");
    assert!(matches!(ok.body, NotificationBody::BuiltIn { duration_ms: 1500 }));
    let bad = notify("api", false, 0, Some("error: x\r\nmore"), false);
    assert_eq!(bad.title, "✗ api");
    match bad.body {
        NotificationBody::Failed { text } => assert_eq!(text, "Build failed: error: x"),
        _ => panic!("failure body expected"),
    }
    let long = "e".repeat(150);
    match notify("api", false, 0, Some(&long), false).body {
        NotificationBody::Failed { text } => assert_eq!(text.chars().count(), "Build failed: ".len() + 100),
        _ => panic!("failure body expected"),
    }
    match notify("api", false, 0, None, false).body {
        NotificationBody::Failed { text } => assert_eq!(text, "Build failed: Unknown error"),
        _ => panic!("failure body expected"),
    }
}

#[test]
fn error_formats() {
    assert_eq!(format_error("no_daemon", "No daemon", Some("start one"), false), "No daemon\n  Hint: start one");
    assert_eq!(format_error("no_daemon", "No daemon", None, false), "No daemon");
    assert_eq!(
        format_error("no_daemon", "No \"daemon\"", Some("h"), true),
        r#"{"error":"no_daemon","hint":"h","message":"No \"daemon\""}"#
    );
}

#[test]
fn status_formats() {
    assert_eq!(status_json("api", "ready", Some(1500)), r#"{"duration_ms":1500,"status":"ready","target":"api"}"#);
    assert_eq!(status_json("web", "pending", None), r#"{"duration_ms":null,"status":"pending","target":"web"}"#);
    assert_eq!(status_line("api", "ready", Some("1.5")), "✓ api [ready] (1.5s)");
    assert_eq!(status_line("web", "pending", None), "○ web [pending]");
}

#[test]
fn agent_detection_and_icons() {
    assert!(is_agent_caller(true, true));
    assert!(is_agent_caller(false, false));
    assert!(!is_agent_caller(false, true));
    assert_eq!(agent_env_vars().len(), 7);
    assert_eq!(status_icon("ready"), "✓");
    assert_eq!(status_icon("pending"), "-");
    assert_eq!(status_line_icon("pending"), "○");
    assert_eq!(status_line_icon("failed"), "✗");
}

// --- builder ---

#[test]
fn build_results_from_outcomes() {
    let t = target("api", &[".rs"], &[], 5, true);
    let files = strings(&["src/a.rs"]);
    let lines = strings(&["e1", "e2"]);
    let r = build_result(ProcessOutcome::Exited(Some(1)), &lines, 300, 1000, 3500, &t, &files);
    assert_eq!(r.exit_code, 1);
    assert_eq!(r.error_summary.as_deref(), Some("e1\ne2"));
    assert_eq!(r.duration_ms, 2500);
    assert_eq!(r.output_path.as_deref(), Some("bin/api"));
    let ok = build_result(ProcessOutcome::Exited(Some(0)), &lines, 300, 0, 0, &t, &files);
    assert_eq!(ok.error_summary, None);
    let killed = build_result(ProcessOutcome::Exited(None), &vec![], 300, 0, 0, &t, &files);
    assert_eq!(killed.exit_code, -1);
    assert_eq!(killed.error_summary, None);
    let to = build_result(ProcessOutcome::TimedOut, &lines, 300, 0, 0, &t, &files);
    assert_eq!(to.error_summary.as_deref(), Some("Build timed out after 300s"));
    let pe = build_result(ProcessOutcome::WaitFailed("oops".to_string()), &lines, 300, 0, 0, &t, &files);
    assert_eq!((pe.exit_code, pe.error_summary.as_deref()), (-1, Some("Process error: oops")));
    assert_eq!(build_status(0), "ready");
    assert_eq!(build_status(3), "failed");
    assert_eq!(duration_ms(10, 5), u64::MAX - 4);
    let m = manual_build_result(Some(0), 0, 10, &t);
    assert_eq!(m.trigger_files, strings(&["manual"]));
}

#[test]
fn error_lines_keep_first_five() {
    let mut lines = vec![];
    for i in 0..7 {
        keep_error_line(&mut lines, format!("l{}", i));
    }
    assert_eq!(lines, strings(&["l0", "l1", "l2", "l3", "l4"]));
}

#[test]
fn manual_target_selection() {
    let config = config_with(vec![target("a", &[], &[], 1, false), target("b", &[], &[], 1, true)]);
    assert_eq!(select_manual_targets(&config, None).unwrap(), vec![1]);
    assert_eq!(select_manual_targets(&config, Some("a")).unwrap(), vec![0]);
    match select_manual_targets(&config, Some("zz")).unwrap_err() {
        ManualBuildError::TargetNotFound(n) => assert_eq!(n, "zz"),
    }
}

// --- daemon ---

#[test]
fn daemon_setup_collections() {
    let mut a = target("a", &[".rs", ".toml"], &[], 1, true);
    a.exclude_paths = strings(&["target/", "bin/"]);
    let mut b = target("b", &[".rs", ".py"], &[], 1, false);
    b.exclude_paths = strings(&["venv/"]);
    let c = target("a", &[".ts"], &[], 1, true);
    let mut config = config_with(vec![a, b, c]);
    config.global_excludes = strings(&[".git/", "bin/"]);
    assert_eq!(watch_extensions(&config), strings(&[".rs", ".toml", ".ts"]));
    assert_eq!(exclude_dirs(&config), strings(&[".git/", "bin/", "target/", "venv/"]));
    let ps = initial_project_state(&config, 42);
    assert_eq!(ps.targets.len(), 1);
    assert_eq!(ps.targets[0].0, "a");
    assert_eq!(ps.targets[0].1.status, "pending");
    assert_eq!(ps.updated_at, 42);
}

#[test]
fn daemon_notification_and_queue_report() {
    let n = NotificationConfig { enabled: true, on_success: false, on_failure: true, sound: true };
    assert!(!should_notify(&n, true));
    assert!(should_notify(&n, false));
    let mut ps = ProjectState::empty(0);
    record_queue(&mut ps, Some("a".to_string()), strings(&["b"]), 3);
    assert_eq!(ps.queue.current.as_deref(), Some("a"));
    assert_eq!(ps.queue.pending, strings(&["b"]));
    assert_eq!(ps.updated_at, 3);
}

#[test]
fn daemon_restart_arguments() {
    assert_eq!(
        daemon_args("/p", &strings(&["api", "web"]), Some(750)),
        strings(&["haunt", "--foreground", "--project", "/p", "--target", "api", "--target", "web", "--settling", "750"])
    );
    assert_eq!(daemon_args("/p", &[], None), strings(&["haunt", "--foreground", "--project", "/p"]));
}

#[test]
fn daemon_loop_drains_queue_after_settling() {
    let targets = vec![target("a", &[".rs"], &[], 1, true), target("b", &[".rs"], &[], 2, true)];
    let mut core = DaemonCore::new();
    assert!(matches!(core.step(DaemonEvent::Heartbeat, &targets), DaemonAction::WriteHeartbeat));
    assert!(matches!(core.step(DaemonEvent::Changes(event(&["x.rs"], 1)), &targets), DaemonAction::ArmSettlingTimer));
    assert!(core.settling);
    match core.step(DaemonEvent::SettlingElapsed, &targets) {
        DaemonAction::StartBuild(b) => assert_eq!(b.target_name, "b"),
        _ => panic!("build expected"),
    }
    match core.step(DaemonEvent::BuildDone, &targets) {
        DaemonAction::StartBuild(b) => assert_eq!(b.target_name, "a"),
        _ => panic!("build expected"),
    }
    assert!(matches!(core.step(DaemonEvent::BuildDone, &targets), DaemonAction::Idle));
    assert!(matches!(core.step(DaemonEvent::ShutdownRequested, &targets), DaemonAction::Stop));
}

#[test]
fn daemon_loop_reconnects_with_backoff() {
    let targets = vec![target("a", &[".rs"], &[], 1, true)];
    let mut core = DaemonCore::new();
    assert!(matches!(core.step(DaemonEvent::WatcherClosed, &targets), DaemonAction::ReconnectAfter(500)));
    assert!(matches!(core.step(DaemonEvent::WatcherClosed, &targets), DaemonAction::ReconnectAfter(1000)));
    assert!(matches!(core.step(DaemonEvent::WatcherClosed, &targets), DaemonAction::ReconnectAfter(2000)));
    assert_eq!(core.reconnect_attempts, 3);
    assert!(matches!(core.step(DaemonEvent::Reconnected, &targets), DaemonAction::Idle));
    assert_eq!(core.reconnect_attempts, 0);
    assert!(matches!(core.step(DaemonEvent::WatcherClosed, &targets), DaemonAction::ReconnectAfter(500)));
    core.reconnect_attempts = 20;
    assert!(matches!(core.step(DaemonEvent::WatcherClosed, &targets), DaemonAction::ReconnectAfter(30000)));
}

// --- watcher ---

#[test]
fn subscription_pieces() {
    assert_eq!(watch_suffixes(&strings(&[".rs", "Dockerfile"])), strings(&["rs", "Dockerfile"]));
    assert_eq!(exclude_dir_names(&strings(&["target/", ".git"])), strings(&["target", ".git"]));
    assert!(change_event(vec![], 1).is_none());
    assert_eq!(change_event(strings(&["a"]), 5).unwrap().timestamp, 5);
}

// --- gate ---

#[test]
fn gate_runs_only_fresh_successful_builds() {
    let ps = state_with(vec![
        ("ok", target_state("ready", Some(result(0, None, Some("bin/ok"))))),
        ("noout", target_state("ready", Some(result(0, None, None)))),
        ("bad", target_state("ready", Some(result(3, Some("boom"), None)))),
        ("new", target_state("ready", None)),
        ("busy", target_state("building", None)),
        ("wait", target_state("pending", None)),
        ("broke", target_state("failed", Some(result(-2, None, None)))),
        ("odd", target_state("stale", None)),
    ]);
    let name = |s: &str| s.to_string();
    match gate_decision(&ps, &name("ok"), false, false) {
        GateAction::Run { output_path } => assert_eq!(output_path, "bin/ok"),
        other => panic!("unexpected {:?}", other),
    }
    assert!(matches!(gate_decision(&ps, &name("noout"), false, false), GateAction::Fail { .. }));
    match gate_decision(&ps, &name("bad"), false, false) {
        GateAction::Exit { code, message } => {
            assert_eq!(code, 3);
            assert_eq!(message, "Build failed (exit 3): boom");
        }
        other => panic!("unexpected {:?}", other),
    }
    match gate_decision(&ps, &name("new"), false, false) {
        GateAction::Exit { code, message } => {
            assert_eq!(code, 1);
            assert_eq!(message, "Target 'new' has no build history yet\nTrigger a build with: buildwatch build new");
        }
        other => panic!("unexpected {:?}", other),
    }
    assert!(matches!(gate_decision(&ps, &name("busy"), false, false), GateAction::Wait));
    assert!(matches!(gate_decision(&ps, &name("busy"), true, false), GateAction::Exit { code: 1, .. }));
    match gate_decision(&ps, &name("wait"), false, true) {
        GateAction::Fail { message } => assert_eq!(message, "Timeout waiting for 'wait' build"),
        other => panic!("unexpected {:?}", other),
    }
    match gate_decision(&ps, &name("broke"), false, false) {
        GateAction::Exit { code, message } => {
            assert_eq!(code, -2);
            assert_eq!(message, "Build failed with exit code -2");
        }
        other => panic!("unexpected {:?}", other),
    }
    match gate_decision(&ps, &name("odd"), false, false) {
        GateAction::Fail { message } => assert_eq!(message, "Unknown target status: stale"),
        other => panic!("unexpected {:?}", other),
    }
    match gate_decision(&ps, &name("ghost"), false, false) {
        GateAction::Fail { message } => assert_eq!(message, "Target 'ghost' not found in state"),
        other => panic!("unexpected {:?}", other),
    }
}

#[test]
fn resolve_target_uses_given_lowercase_forms() {
    let names = strings(&["Api", "web"]);
    let lowered = strings(&["api", "web"]);
    assert_eq!(resolve_target("web", names.clone(), "web", &lowered).unwrap(), "web");
    assert_eq!(resolve_target("AP", names.clone(), "ap", &lowered).unwrap(), "Api");
    // the match goes by the lowercase forms handed in, not by the names themselves
    assert!(matches!(resolve_target("AP", names.clone(), "AP", &lowered), Err(MatchError::NoMatch { .. })));
    let amb = resolve_target("x", names.clone(), "", &lowered).unwrap_err();
    assert_eq!(amb.message(), "Ambiguous target 'x'. Matches: Api, web");
    // a name without a lowercase form never matches
    assert!(matches!(resolve_target("w", names, "w", &strings(&["api"])), Err(MatchError::NoMatch { .. })));
}

// --- reconnection ---

#[test]
fn reconnect_delays_double_up_to_the_cap() {
    assert_eq!(reconnect_delay_ms(0), 500);
    assert_eq!(reconnect_delay_ms(1), 1000);
    assert_eq!(reconnect_delay_ms(5), 16000);
    assert_eq!(reconnect_delay_ms(6), 30000);
    assert_eq!(reconnect_delay_ms(u32::MAX), 30000);
}

// --- hot reload ---

#[test]
fn config_reload_on_changed_modification_time() {
    assert!(config_changed(None, Some(5)));
    assert!(config_changed(Some(4), Some(5)));
    assert!(!config_changed(Some(5), Some(5)));
    assert!(!config_changed(Some(5), None));
    let mut cfg = config_with(vec![target("a", &[".rs"], &[], 1, true)]);
    let mut newer = config_with(vec![target("b", &[".go"], &[], 2, true)]);
    newer.settling_delay_ms = 900;
    assert!(!apply_reload(&mut cfg, None));
    assert_eq!(cfg.targets[0].name, "a");
    assert!(apply_reload(&mut cfg, Some(newer)));
    assert_eq!(cfg.targets[0].name, "b");
    assert_eq!(cfg.settling_delay_ms, 900);
}

// --- build log ---

#[test]
fn log_lines_and_target_filter() {
    assert_eq!(log_line("api", "stderr", "boom"), "[api] stderr: boom");
    let lines = vec![
        log_line("api", "stdout", "one"),
        log_line("web", "stdout", "two"),
        log_line("api", "stderr", "three"),
    ];
    assert_eq!(tail_lines(lines.clone(), Some("api")), strings(&["[api] stdout: one", "[api] stderr: three"]));
    assert_eq!(tail_lines(lines.clone(), None), lines);
    assert_eq!(tail_lines(lines, Some("ap")), Vec::<String>::new());
}

#[test]
fn log_tail_keeps_last_lines() {
    let lines: Vec<String> = (0..120).map(|i| format!("[t] stdout: {}", i)).collect();
    let tail = tail_lines(lines, Some("t"));
    assert_eq!(tail.len(), TAIL_LINES);
    assert_eq!(tail[0], "[t] stdout: 70");
    assert_eq!(tail[TAIL_LINES - 1], "[t] stdout: 119");
}

#[test]
fn log_rotates_when_its_week_is_over() {
    let sun_2023_12_31: i64 = 1_703_980_800_000;
    let mon_2024_01_01: i64 = 1_704_067_200_000;
    let day: i64 = 86_400_000;
    assert_eq!(log_rotation(sun_2023_12_31, mon_2024_01_01).unwrap(), "build.log.2023-W52");
    assert!(log_rotation(mon_2024_01_01, mon_2024_01_01 + day).is_none());
    assert_eq!(log_rotation(mon_2024_01_01, mon_2024_01_01 + 7 * day).unwrap(), "build.log.2024-W01");
    assert_eq!(rotation_name(Some((2024, 10)), Some((2024, 11))).unwrap(), "build.log.2024-W10");
    assert!(rotation_name(Some((2024, 10)), Some((2024, 10))).is_none());
    assert!(rotation_name(None, Some((2024, 10))).is_none());
}

// --- lock file and registry ---

#[test]
fn lock_decisions() {
    assert_eq!(lock_decision(None, false, 7), LockDecision::Acquire);
    assert_eq!(lock_decision(Some(7), true, 7), LockDecision::Acquire);
    assert_eq!(lock_decision(Some(9), true, 7), LockDecision::Held(9));
    assert_eq!(lock_decision(Some(9), false, 7), LockDecision::Reclaim(9));
}

#[test]
fn lock_file_text_round_trip() {
    assert_eq!(lock_text(4242), "4242\n");
    assert_eq!(parse_lock_pid(&lock_text(4242)), Some(4242));
    assert_eq!(parse_lock_pid("17"), Some(17));
    assert_eq!(parse_lock_pid(""), None);
    assert_eq!(parse_lock_pid("12a"), None);
    assert_eq!(parse_lock_pid("99999999999"), None);
}

#[test]
fn registry_keeps_one_entry_per_project() {
    let entry = |h: &str, pid: u32| RegistryEntry { project_hash: h.to_string(), project_root: format!("/{}", h), pid };
    let mut reg = Registry::new();
    reg.register(entry("aa", 1));
    reg.register(entry("bb", 2));
    reg.register(entry("aa", 3));
    let seen: Vec<(String, u32)> = reg.entries.iter().map(|e| (e.project_hash.clone(), e.pid)).collect();
    assert_eq!(seen, vec![("bb".to_string(), 2), ("aa".to_string(), 3)]);
    reg.unregister(&"bb".to_string());
    assert_eq!(reg.entries.len(), 1);
    assert_eq!(reg.entries[0].project_hash, "aa");
}

#[test]
fn only_new_pending_builds_need_a_fitting_score() {
    let huge = || target("a", &[".rs"], &[], i32::MAX, true);
    let small = || target("a", &[".rs"], &[], 0, true);
    let ev = event(&["x.rs"], 1);
    let q = BuildQueue::new();
    // a new pending build of priority i32::MAX plus one file overflows
    assert!(!event_scores_fit(&q, &ev, &[huge()]));
    // a target already pending is coalesced and gets no score
    assert!(event_scores_fit(&q, &ev, &[small(), huge()]));
    let mut q2 = BuildQueue::new();
    q2.enqueue_from_event(&ev, &[small()]);
    assert!(event_scores_fit(&q2, &ev, &[huge()]));
    q2.enqueue_from_event(&ev, &[huge()]);
    assert_eq!(q2.pending_targets(), vec!["a".to_string()]);
}
