use cordis_core::worker::{
    is_plugin_library, supervisor_alive, BootAnswer, BootStage, ExitCause, LibraryAction,
    LibraryEvent, LibraryWatch, WorkerBoot,
};

#[test]
fn dynamic_library_extensions_match() {
    assert!(is_plugin_library(b"libgreeter.so"));
    assert!(is_plugin_library(b"libgreeter.dylib"));
    assert!(is_plugin_library(b"greeter.dll"));
    assert!(is_plugin_library(b"GREETER.SO"));
    assert!(!is_plugin_library(b"cordis.yml"));
    assert!(!is_plugin_library(b"libgreeter.so.tmp"));
    assert!(!is_plugin_library(b"plugins"));
}

#[test]
fn only_the_last_component_decides_what_a_library_is() {
    assert!(is_plugin_library(b"dir.d/libgreeter.so"));
    assert!(!is_plugin_library(b"dir.so/greeter"));
    assert!(!is_plugin_library(b".so"));
    assert!(!is_plugin_library(b"dir/.so"));
    assert!(!is_plugin_library(b""));
}

#[test]
fn causes_map_to_codes_and_notices() {
    assert_eq!(ExitCause::Restart.code(), 51);
    assert_eq!(ExitCause::LibraryChanged.code(), 51);
    assert_eq!(ExitCause::Shutdown.code(), 52);
    assert_eq!(ExitCause::Signal.code(), 52);
    assert_eq!(ExitCause::SupervisorGone.code(), 52);
    assert_eq!(
        ExitCause::LibraryChanged.notice(),
        Some("cordis: plugin library changed, restarting worker")
    );
    assert_eq!(
        ExitCause::Signal.notice(),
        Some("cordis: signal received, shutting down")
    );
    assert_eq!(
        ExitCause::SupervisorGone.notice(),
        Some("cordis: supervisor went away, shutting down")
    );
    assert_eq!(ExitCause::Restart.notice(), None);
    assert_eq!(ExitCause::Shutdown.notice(), None);
}

#[test]
fn a_closed_pipe_means_the_supervisor_is_gone() {
    assert!(supervisor_alive(Some(1)));
    assert!(!supervisor_alive(Some(0)));
    assert!(!supervisor_alive(None));
}

#[test]
fn a_library_change_restarts_after_a_quiet_window() {
    let mut watch = LibraryWatch::new();
    assert_eq!(watch.step(LibraryEvent::Quiet), LibraryAction::Watch);
    assert_eq!(
        watch.step(LibraryEvent::Changed { library: false }),
        LibraryAction::Watch
    );
    assert_eq!(watch.step(LibraryEvent::Quiet), LibraryAction::Watch);
    assert_eq!(
        watch.step(LibraryEvent::Changed { library: true }),
        LibraryAction::Watch
    );
    assert_eq!(
        watch.step(LibraryEvent::Changed { library: false }),
        LibraryAction::Watch
    );
    assert_eq!(watch.step(LibraryEvent::Failed), LibraryAction::Watch);
    assert_eq!(watch.step(LibraryEvent::Quiet), LibraryAction::Restart);
    assert_eq!(watch.step(LibraryEvent::Disconnected), LibraryAction::Stop);
}

#[test]
fn a_loader_that_does_not_open_ends_the_boot() {
    let mut boot = WorkerBoot::new("c.yml".to_owned(), Vec::new(), true);
    let line = boot.step(BootAnswer::Failed("bad yaml".to_owned()));
    assert_eq!(
        line.as_deref(),
        Some("cordis: failed to start from c.yml: bad yaml")
    );
    assert_eq!(boot.stage(), BootStage::Exit(53));
}

#[test]
fn a_boot_goes_through_its_stages() {
    let mut boot = WorkerBoot::new(
        "c.yml".to_owned(),
        vec!["a".to_owned(), "b".to_owned()],
        true,
    );
    assert_eq!(boot.step(BootAnswer::Done), None);
    assert_eq!(boot.stage(), BootStage::Provide);
    assert_eq!(
        boot.step(BootAnswer::Failed("taken".to_owned())).as_deref(),
        Some("cordis: could not expose the worker service: taken")
    );
    assert_eq!(boot.stage(), BootStage::Signals);
    assert_eq!(boot.step(BootAnswer::Done), None);
    assert_eq!(boot.stage(), BootStage::Supervisor);
    assert_eq!(boot.step(BootAnswer::Done), None);
    assert_eq!(boot.stage(), BootStage::Config);
    assert_eq!(
        boot.step(BootAnswer::Failed("no inotify".to_owned()))
            .as_deref(),
        Some(
            "cordis: config hot reload disabled (no inotify); restart manually to apply changes"
        )
    );
    assert_eq!(boot.stage(), BootStage::Libraries);
    assert_eq!(
        boot.step(BootAnswer::Done).as_deref(),
        Some("cordis: dynamic plugins from a, b (library changes hot-restart the worker)")
    );
    assert_eq!(boot.stage(), BootStage::Startup);
    assert_eq!(
        boot.step(BootAnswer::Found("late".to_owned())).as_deref(),
        Some("cordis: startup issue: late")
    );
    assert_eq!(
        boot.step(BootAnswer::Found("0".to_owned())).as_deref(),
        Some("cordis: worker ready (0 entries, config: c.yml)")
    );
    assert_eq!(boot.stage(), BootStage::Parked);
}

#[test]
fn an_unsupervised_worker_without_plugin_dirs_skips_both_stages() {
    let mut boot = WorkerBoot::new("c.yml".to_owned(), Vec::new(), false);
    boot.step(BootAnswer::Done);
    boot.step(BootAnswer::Done);
    boot.step(BootAnswer::Done);
    assert_eq!(boot.stage(), BootStage::Config);
    boot.step(BootAnswer::Done);
    assert_eq!(boot.stage(), BootStage::Startup);
}
