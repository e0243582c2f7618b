use cordis_core::cli::{
    daemon_exit_code, next_backoff, parse_args, read_args, supervisor_action, usage, worker_args, Action,
    ArgError, Options, Supervisor, SupervisorAction, SupervisorEvent, WatchAction, WorkerStatus,
    WorkerWatch, EXIT_USAGE, EXIT_BOOT, EXIT_QUIT, EXIT_RESTART, RESTART_BACKOFF_MAX, RESTART_BACKOFF_START,
    WORKER_SHUTDOWN_GRACE, WORKER_WAIT_POLL,
};

const MILLI: u128 = 1_000_000;
const SECOND: u128 = 1_000_000_000;

fn args(list: &[&str]) -> Vec<Vec<u8>> {
    list.iter().map(|arg| arg.as_bytes().to_vec()).collect()
}

#[test]
fn parses_run_command_and_flags() {
    assert_eq!(
        parse_args(&args(&["run", "cordis.yml"])).unwrap(),
        Options {
            config: "cordis.yml".into(),
            plugin_dirs: Vec::new(),
            worker: false,
        }
    );
    assert_eq!(
        parse_args(&args(&["run", "cordis.yml", "--worker"])).unwrap(),
        Options {
            config: "cordis.yml".into(),
            plugin_dirs: Vec::new(),
            worker: true,
        }
    );
}

#[test]
fn parses_plugin_dirs_in_both_forms() {
    let options = parse_args(&args(&[
        "run",
        "cordis.yml",
        "--plugin-dir",
        "a",
        "--plugin-dir=b",
    ]))
    .unwrap();
    assert_eq!(options.plugin_dirs, [b"a".to_vec(), b"b".to_vec()]);
    assert!(!options.worker);
}

#[test]
fn rejects_malformed_plugin_dirs() {
    assert!(parse_args(&args(&["run", "cordis.yml", "--plugin-dir"])).is_err());
    assert!(parse_args(&args(&["run", "cordis.yml", "--plugin-dir="])).is_err());
}

#[test]
fn rejects_missing_or_unknown_arguments() {
    assert!(parse_args(&args(&[])).is_err());
    assert!(parse_args(&args(&["start", "cordis.yml"])).is_err());
    assert!(parse_args(&args(&["run"])).is_err());
    assert!(parse_args(&args(&["run", "a.yml", "b.yml"])).is_err());
    assert!(parse_args(&args(&["run", "a.yml", "--nope"])).is_err());
}

#[test]
fn only_code_51_restarts_and_never_after_shutdown() {
    assert_eq!(supervisor_action(Some(51), false), Action::Restart);
    assert_eq!(supervisor_action(Some(51), true), Action::Stop);
    assert_eq!(supervisor_action(Some(52), false), Action::Stop);
    assert_eq!(supervisor_action(Some(0), false), Action::Stop);
    assert_eq!(supervisor_action(None, false), Action::Stop);
}

#[test]
fn daemon_exit_code_reflects_how_the_worker_ended() {
    // Clean quit and daemon-side shutdown stay successful.
    assert_eq!(daemon_exit_code(Some(52), false), 0);
    assert_eq!(daemon_exit_code(Some(52), true), 0);
    assert_eq!(daemon_exit_code(Some(51), true), 0);
    // A worker that never booted fails the daemon.
    assert_eq!(daemon_exit_code(Some(53), false), 1);
    // Crashes propagate instead of being masked as success.
    assert_eq!(daemon_exit_code(Some(101), false), 101);
    assert_eq!(daemon_exit_code(None, false), 1);
}

#[test]
fn restart_backoff_doubles_resets_and_caps() {
    assert_eq!(next_backoff(None, 0), RESTART_BACKOFF_START);
    assert_eq!(next_backoff(Some(100 * MILLI), SECOND), 200 * MILLI);
    assert_eq!(next_backoff(Some(4 * SECOND), SECOND), RESTART_BACKOFF_MAX);
    assert_eq!(
        next_backoff(Some(4 * SECOND), 60 * SECOND),
        RESTART_BACKOFF_START,
        "a worker that stayed up resets the backoff"
    );
}

/// Arguments with bytes that are no UTF-8 (legal config paths on Unix) reach
/// `Options` unchanged, not as replacement characters.
#[test]
fn non_utf8_arguments_survive_parsing() {
    let bad = vec![b'c', 0xff, b'.', b'y', b'm', b'l'];
    let options = parse_args(&vec![b"run".to_vec(), bad.clone()]).unwrap();
    assert_eq!(options.config, bad);

    let bad_dir = vec![b'd', 0xfe, b'i', 0xff, b'r'];
    let options = parse_args(&vec![
        b"run".to_vec(),
        b"c.yml".to_vec(),
        b"--plugin-dir".to_vec(),
        bad_dir.clone(),
    ])
    .unwrap();
    assert_eq!(options.plugin_dirs, [bad_dir]);
}

#[test]
fn the_exit_codes_are_those_of_the_usage_text() {
    assert_eq!((EXIT_RESTART, EXIT_QUIT, EXIT_BOOT), (51, 52, 53));
    assert!(usage().contains("51 = hot restart, 52 = quit, 53 = boot failure"));
}

#[test]
fn refusals_quote_the_argument_as_text() {
    assert_eq!(
        parse_args(&args(&["frobnicate"])).unwrap_err(),
        format!("unknown command `frobnicate`\n\n{}", usage())
    );
    assert_eq!(
        parse_args(&args(&["run", "a", "--nope"])).unwrap_err(),
        format!("unknown flag `--nope`\n\n{}", usage())
    );
    assert_eq!(
        parse_args(&args(&["run", "a", "b"])).unwrap_err(),
        format!("unexpected extra argument `b`\n\n{}", usage())
    );
    assert_eq!(
        parse_args(&args(&["run", "--plugin-dir"])).unwrap_err(),
        format!("--plugin-dir requires a directory\n\n{}", usage())
    );
    assert_eq!(
        parse_args(&args(&["run"])).unwrap_err(),
        format!("missing config file\n\n{}", usage())
    );
    assert_eq!(parse_args(&args(&["run", "--help"])).unwrap_err(), usage());
    assert_eq!(parse_args(&args(&["run", "-h"])).unwrap_err(), usage());
    assert_eq!(parse_args(&args(&[])).unwrap_err(), usage());
}

#[test]
fn a_refusal_replaces_what_is_no_utf8() {
    assert_eq!(
        parse_args(&vec![vec![b'x', 0xff, b'y']]).unwrap_err(),
        format!("unknown command `x\u{fffd}y`\n\n{}", usage())
    );
}

#[test]
fn refusals_keep_their_kind() {
    assert!(matches!(read_args(&args(&[])), Err(ArgError::Usage)));
    assert!(matches!(
        read_args(&args(&["start"])),
        Err(ArgError::UnknownCommand(_))
    ));
    assert!(matches!(
        read_args(&args(&["run", "--plugin-dir="])),
        Err(ArgError::MissingDirectory)
    ));
    assert!(matches!(
        read_args(&args(&["run", "-x"])),
        Err(ArgError::UnknownFlag(_))
    ));
    assert!(matches!(
        read_args(&args(&["run", "a", "b"])),
        Err(ArgError::ExtraArgument(_))
    ));
    assert!(matches!(
        read_args(&args(&["run", "-w"])),
        Err(ArgError::MissingConfig)
    ));
}

#[test]
fn a_supervisor_restarts_with_growing_delays() {
    let mut supervisor = Supervisor::new();
    assert_eq!(
        supervisor.step(SupervisorEvent::Begin { shutdown: false }),
        SupervisorAction::Spawn
    );
    let exited = SupervisorEvent::Exited {
        code: Some(51),
        shutdown: false,
        ran_for: 0,
    };
    assert_eq!(
        supervisor.step(exited),
        SupervisorAction::Sleep(WORKER_WAIT_POLL)
    );
    assert_eq!(
        supervisor.step(SupervisorEvent::Waited {
            elapsed: 70 * MILLI,
            shutdown: false
        }),
        SupervisorAction::Sleep(30 * MILLI)
    );
    assert_eq!(
        supervisor.step(SupervisorEvent::Waited {
            elapsed: 100 * MILLI,
            shutdown: false
        }),
        SupervisorAction::Spawn
    );
    supervisor.step(exited);
    assert_eq!(supervisor.backoff, Some(200 * MILLI));
}

#[test]
fn shutdown_ends_the_delay_and_never_respawns() {
    let mut supervisor = Supervisor::new();
    supervisor.step(SupervisorEvent::Exited {
        code: Some(51),
        shutdown: false,
        ran_for: 0,
    });
    assert_eq!(
        supervisor.step(SupervisorEvent::Waited {
            elapsed: MILLI,
            shutdown: true
        }),
        SupervisorAction::Exit(0)
    );
    assert_eq!(
        supervisor.step(SupervisorEvent::Begin { shutdown: true }),
        SupervisorAction::Exit(0)
    );
    assert_eq!(
        supervisor.step(SupervisorEvent::SpawnFailed),
        SupervisorAction::Exit(1)
    );
    assert_eq!(
        supervisor.step(SupervisorEvent::Exited {
            code: Some(53),
            shutdown: false,
            ran_for: SECOND
        }),
        SupervisorAction::Exit(1)
    );
}

#[test]
fn a_worker_that_ignores_shutdown_is_killed_after_the_grace_period() {
    let mut watch = WorkerWatch::new();
    assert_eq!(
        watch.poll(WorkerStatus::Running, false, 0),
        WatchAction::Sleep
    );
    assert_eq!(
        watch.poll(WorkerStatus::Running, true, 0),
        WatchAction::RequestShutdown
    );
    assert_eq!(
        watch.poll(WorkerStatus::Running, true, WORKER_SHUTDOWN_GRACE - 1),
        WatchAction::Sleep
    );
    assert_eq!(
        watch.poll(WorkerStatus::Running, true, WORKER_SHUTDOWN_GRACE),
        WatchAction::Kill
    );
    assert_eq!(
        watch.poll(WorkerStatus::Exited(Some(7)), true, 0),
        WatchAction::Done(Some(7))
    );
    assert_eq!(
        watch.poll(WorkerStatus::Unknown, false, 0),
        WatchAction::Done(None)
    );
}

#[test]
fn a_worker_is_started_with_the_options_of_its_daemon() {
    let options = parse_args(&args(&[
        "run",
        "--plugin-dir=a",
        "cordis.yml",
        "--plugin-dir",
        "--worker",
    ]))
    .unwrap();
    let line = worker_args(&options);
    assert_eq!(
        line,
        args(&[
            "run",
            "cordis.yml",
            "--worker",
            "--plugin-dir",
            "a",
            "--plugin-dir",
            "--worker",
        ])
    );
    assert_eq!(
        parse_args(&line).unwrap(),
        Options {
            worker: true,
            ..options
        }
    );
    assert_eq!(EXIT_USAGE, 2);
}
