use cordis_core::contained::{
    contain, contain_join, input_drop_report, report_panic, CallbackEnd, JoinEnd, Report,
};
use cordis_core::deadline::{watchdog, WatchdogStep, WATCHDOG_CANCEL_POLL_INTERVAL};
use cordis_core::logger::{
    attempt, hyphenate, BufferExporter, Level, LogDispatch, LogRecord, Logger, LoggerService,
};
use cordis_core::observation::{observer_failure_text, observer_panic_text};
use std::time::SystemTime;

fn channel() -> (LoggerService, Logger) {
    let mut service = LoggerService::new();
    let key = service.reserve_exporter();
    service.insert_reserved(key, 7);
    let logger = service.logger_for_fiber("test");
    (service, logger)
}

fn attempted(dispatch: LogDispatch) -> (LogRecord, Vec<u64>) {
    match dispatch {
        LogDispatch::Attempt { record, exporters } => (record, exporters),
        LogDispatch::Suppressed { .. } => panic!("the record was suppressed"),
    }
}

fn reported(report: Option<Report>) -> LogRecord {
    match report {
        Some(Report::Logged(dispatch)) => {
            let (record, exporters) = attempted(dispatch);
            assert_eq!(exporters, vec![7]);
            record
        }
        _ => panic!("nothing was logged"),
    }
}

#[test]
fn hyphenates_names_like_cosmokit() {
    assert_eq!(hyphenate("FooBar"), "foo-bar");
    assert_eq!(hyphenate("fooBar"), "foo-bar");
    assert_eq!(hyphenate("HTTPServer"), "http-server");
    assert_eq!(hyphenate("root"), "root");
    assert_eq!(hyphenate("foo_bar"), "foo-bar");
    assert_eq!(hyphenate("Foo--Bar"), "foo-bar");
    assert_eq!(hyphenate("-Foo"), "foo");
    assert_eq!(hyphenate("foo2B"), "foo2-b");
    assert_eq!(hyphenate("x9Y"), "x9-y");
    assert_eq!(hyphenate("foo_"), "foo-");
    assert_eq!(hyphenate("Bar-"), "bar-");
    assert_eq!(hyphenate("audit/Probe"), "audit/-probe");
}

#[test]
fn sync_panicking_callback_is_contained_and_reaches_exporters() {
    let (mut service, logger) = channel();
    let mut buffer = BufferExporter::new(16, Level::Debug).unwrap();
    let record = reported(contain(
        "test callback",
        Some(&logger),
        &mut service,
        CallbackEnd::Panicked(Some("boom &str".to_owned())),
        SystemTime::UNIX_EPOCH,
        false,
    ));
    attempt(&mut buffer, &record);
    let records = buffer.snapshot();
    assert_eq!(records.len(), 1, "exactly one report per contained panic");
    assert_eq!(records[0].level(), Level::Warn);
    assert_eq!(
        records[0].text(),
        "cordis: test callback panicked: boom &str"
    );
}

#[test]
fn payload_kinds_render_once_each() {
    let (mut service, logger) = channel();
    let mut texts = Vec::new();
    for payload in [
        Some("as str".to_owned()),
        Some("as String".to_owned()),
        None,
    ] {
        let record = reported(contain(
            "site",
            Some(&logger),
            &mut service,
            CallbackEnd::Panicked(payload),
            SystemTime::UNIX_EPOCH,
            false,
        ));
        texts.push(record.text().to_owned());
    }
    assert_eq!(
        texts,
        [
            "cordis: site panicked: as str",
            "cordis: site panicked: as String",
            "cordis: site panicked: non-string panic payload",
        ]
    );
}

#[test]
fn sync_without_logger_falls_back_to_stderr() {
    let (mut service, _) = channel();
    let report = contain(
        "no logger",
        None,
        &mut service,
        CallbackEnd::Panicked(Some("quiet boom".to_owned())),
        SystemTime::UNIX_EPOCH,
        false,
    );
    match report {
        Some(Report::Stderr(line)) => {
            assert_eq!(line, "cordis: no logger panicked: quiet boom")
        }
        _ => panic!("the line goes to the error stream"),
    }
}

#[test]
fn panicked_task_is_reported_through_the_join_handle() {
    let (mut service, logger) = channel();
    let record = reported(contain_join(
        "join site",
        Some(&logger),
        &mut service,
        JoinEnd::Panicked(Some("join boom".to_owned())),
        SystemTime::UNIX_EPOCH,
        false,
    ));
    assert_eq!(record.text(), "cordis: join site panicked: join boom");
    for end in [JoinEnd::Returned, JoinEnd::Cancelled] {
        assert!(contain_join(
            "join site",
            Some(&logger),
            &mut service,
            end,
            SystemTime::UNIX_EPOCH,
            false
        )
        .is_none());
    }
}

#[test]
fn a_framework_panic_is_an_error_with_its_context() {
    let (mut service, logger) = channel();
    let (record, _) = attempted(report_panic(
        &logger,
        &mut service,
        "fiber convergence",
        "fiber=\"test\"",
        Some("broken".to_owned()),
        SystemTime::UNIX_EPOCH,
        false,
    ));
    assert_eq!(record.level(), Level::Error);
    assert_eq!(
        record.text(),
        "cordis: framework task fiber convergence panicked (fiber=\"test\"): broken"
    );
}

#[test]
fn a_callback_that_returns_is_not_reported() {
    let (mut service, logger) = channel();
    assert!(contain(
        "site",
        Some(&logger),
        &mut service,
        CallbackEnd::Returned,
        SystemTime::UNIX_EPOCH,
        false
    )
    .is_none());
    let (record, _) = attempted(logger.info(
        &mut service,
        "first".to_owned(),
        SystemTime::UNIX_EPOCH,
        false,
    ));
    assert_eq!(record.sequence(), 1);
}

#[test]
fn records_are_numbered_and_carry_their_channel() {
    let (mut service, logger) = channel();
    let at = SystemTime::UNIX_EPOCH;
    let (first, _) = attempted(logger.debug(&mut service, "a".to_owned(), at, false));
    let (second, _) =
        attempted(logger.with_name("other").warn(&mut service, "b".to_owned(), at, false));
    assert_eq!((first.sequence(), first.channel()), (1, "test"));
    assert_eq!((second.sequence(), second.channel()), (2, "other"));
    assert_eq!(second.timestamp(), at);
    assert_eq!(first.level().as_str(), "debug");
    assert_eq!(logger.name(), "test");
}

#[test]
fn a_record_from_inside_an_exporter_is_suppressed() {
    let (mut service, logger) = channel();
    match logger.error(
        &mut service,
        "again".to_owned(),
        SystemTime::UNIX_EPOCH,
        true,
    ) {
        LogDispatch::Suppressed { line, .. } => {
            assert_eq!(line, "cordis: reentrant log suppressed [error] test: again")
        }
        LogDispatch::Attempt { .. } => panic!("a nested record must not be exported"),
    }
}

#[test]
fn removed_exporters_are_attempted_no_more() {
    let (mut service, logger) = channel();
    let key = service.reserve_exporter();
    service.insert_reserved(key, 8);
    assert!(service.remove_exporter(key));
    assert!(!service.remove_exporter(key));
    let (_, exporters) = attempted(logger.info(
        &mut service,
        "x".to_owned(),
        SystemTime::UNIX_EPOCH,
        false,
    ));
    assert_eq!(exporters, vec![7]);
}

#[test]
fn a_buffer_keeps_the_newest_records_at_its_threshold() {
    let error = BufferExporter::new(0, Level::Debug).err().unwrap();
    assert!(!error.message().is_empty());
    let (mut service, logger) = channel();
    let mut buffer = BufferExporter::new(2, Level::Info).unwrap();
    let at = SystemTime::UNIX_EPOCH;
    for text in ["a", "b", "c"] {
        let (record, _) = attempted(logger.info(&mut service, text.to_owned(), at, false));
        assert!(attempt(&mut buffer, &record));
    }
    let (quiet, _) = attempted(logger.debug(&mut service, "d".to_owned(), at, false));
    assert!(!attempt(&mut buffer, &quiet));
    let kept: Vec<String> = buffer
        .snapshot()
        .iter()
        .map(|record| record.text().to_owned())
        .collect();
    assert_eq!(kept, ["b", "c"]);
    buffer.clear();
    assert!(buffer.snapshot().is_empty());
}

#[test]
fn levels_are_ordered_by_severity() {
    assert!(Level::Debug < Level::Info);
    assert!(Level::Info < Level::Warn);
    assert!(Level::Warn < Level::Error);
    assert!(Level::Error.reaches(Level::Warn));
    assert!(!Level::Debug.reaches(Level::Info));
}

#[test]
fn a_watchdog_sleeps_in_slices_and_ends_with_its_wait() {
    assert_eq!(watchdog(true, 0, 100), WatchdogStep::Stop);
    assert_eq!(watchdog(false, 100, 100), WatchdogStep::Fire);
    assert_eq!(watchdog(false, 40, 100), WatchdogStep::Sleep(60));
    assert_eq!(
        watchdog(false, 0, 13_000_000_000),
        WatchdogStep::Sleep(WATCHDOG_CANCEL_POLL_INTERVAL)
    );
}

#[test]
fn diagnostics_name_what_failed() {
    assert_eq!(
        observer_failure_text("full"),
        "cordis: runtime observer failed: full"
    );
    assert_eq!(
        observer_panic_text("boom"),
        "cordis: runtime observer panicked: boom"
    );
    assert_eq!(
        input_drop_report("\"test\"", "boom"),
        "cordis: era input Drop panicked after caller cancellation (fiber=\"test\"): boom"
    );
}

#[test]
fn kebab_case_is_stable_and_changes_hyphens_and_case_alone() {
    for name in ["HTTPServer2Go", "__a--_B1-c", "1-a", "x9Y_", "-", "Äb_C"] {
        let kebab = hyphenate(name);
        assert_eq!(hyphenate(&kebab), kebab);
        assert!(!kebab.starts_with('-') && !kebab.contains("--"));
        assert!(!kebab.chars().any(|c| c.is_ascii_uppercase() || c == '_'));
        let bare: String = name
            .chars()
            .filter(|c| *c != '-' && *c != '_')
            .map(|c| c.to_ascii_lowercase())
            .collect();
        assert_eq!(kebab.replace('-', ""), bare);
    }
    assert_eq!(hyphenate("1-a"), "1a");
}
