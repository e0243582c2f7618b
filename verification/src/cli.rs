//! Command line of the `cordis` binary and the rules of its supervisor.

use crate::text::{join2, join3};
use vstd::prelude::*;
use vstd::utf8::{decode_utf8, valid_utf8};

verus! {

/// Worker exit code asking the daemon for a hot restart.
pub const EXIT_RESTART: i32 = 51;

/// Worker exit code telling the daemon to quit without restarting.
pub const EXIT_QUIT: i32 = 52;

/// Worker exit code reporting that the loader never came up.
pub const EXIT_BOOT: i32 = 53;

/// The program's exit code when its command line is refused.
pub const EXIT_USAGE: i32 = 2;

/// Initial delay before respawning a restart-looping worker, in nanoseconds.
pub const RESTART_BACKOFF_START: u128 = 100_000_000;

/// Ceiling for the doubling restart delay, in nanoseconds.
pub const RESTART_BACKOFF_MAX: u128 = 5_000_000_000;

/// A worker that stayed up at least this long resets the restart backoff, in
/// nanoseconds.
pub const RESTART_BACKOFF_RESET_AFTER: u128 = 10_000_000_000;

/// How often the supervisor polls, in nanoseconds.
pub const WORKER_WAIT_POLL: u128 = 50_000_000;

/// Grace period for the worker to exit after the daemon requested shutdown, in
/// nanoseconds.
pub const WORKER_SHUTDOWN_GRACE: u128 = 10_000_000_000;

/// What the supervisor does after a worker exits.
#[derive(Clone, Copy, PartialEq, Eq, Structural, Debug)]
pub enum Action {
    /// Spawn a fresh worker.
    Restart,
    /// Stop supervising.
    Stop,
}

/// Decides whether to restart the worker after it exited: only the restart code
/// restarts, and never once the daemon itself received a shutdown signal.
pub fn supervisor_action(exit_code: Option<i32>, shutdown: bool) -> (r: Action)
    ensures
        r == spec_supervisor_action(exit_code, shutdown),
{
    match exit_code {
        Some(code) => {
            if shutdown || code != EXIT_RESTART {
                Action::Stop
            } else {
                Action::Restart
            }
        },
        None => Action::Stop,
    }
}

/// What the supervisor does after a worker exits.
pub open spec fn spec_supervisor_action(exit_code: Option<i32>, shutdown: bool) -> Action {
    if exit_code == Some(EXIT_RESTART) && !shutdown {
        Action::Restart
    } else {
        Action::Stop
    }
}

/// The daemon's own exit code after the worker stopped: a clean quit and a
/// daemon-side shutdown exit 0, a worker that never booted or that has no code
/// exits 1, and any other code is propagated.
pub open spec fn spec_daemon_exit_code(exit_code: Option<i32>, shutdown: bool) -> i32 {
    if shutdown {
        0
    } else {
        match exit_code {
            Some(code) => if code == EXIT_QUIT || code == EXIT_RESTART {
                0
            } else if code == EXIT_BOOT {
                1
            } else {
                code
            },
            None => 1,
        }
    }
}

/// The daemon's own exit code after the worker stopped.
pub fn daemon_exit_code(exit_code: Option<i32>, shutdown: bool) -> (r: i32)
    ensures
        r == spec_daemon_exit_code(exit_code, shutdown),
{
    if shutdown {
        return 0;
    }
    match exit_code {
        Some(code) => {
            if code == EXIT_QUIT || code == EXIT_RESTART {
                0
            } else if code == EXIT_BOOT {
                1
            } else {
                code
            }
        },
        None => 1,
    }
}

/// The delay before respawning a restart-looping worker: doubling from the start
/// value, capped, and reset whenever the previous worker stayed up long enough.
pub open spec fn backoff_after(previous: Option<u128>, ran_for: u128) -> int {
    match previous {
        None => RESTART_BACKOFF_START as int,
        Some(p) => if ran_for >= RESTART_BACKOFF_RESET_AFTER {
            RESTART_BACKOFF_START as int
        } else if 2 * p <= RESTART_BACKOFF_MAX {
            2 * p
        } else {
            RESTART_BACKOFF_MAX as int
        },
    }
}

/// The delay before respawning a restart-looping worker, in nanoseconds.
pub fn next_backoff(previous: Option<u128>, ran_for: u128) -> (r: u128)
    ensures
        r == backoff_after(previous, ran_for),
{
    match previous {
        None => RESTART_BACKOFF_START,
        Some(previous) => {
            if ran_for >= RESTART_BACKOFF_RESET_AFTER {
                RESTART_BACKOFF_START
            } else if previous <= RESTART_BACKOFF_MAX / 2 {
                2 * previous
            } else {
                RESTART_BACKOFF_MAX
            }
        },
    }
}

/// What the supervisor was told.
#[derive(Clone, Copy, PartialEq, Eq, Structural, Debug)]
pub enum SupervisorEvent {
    /// The supervisor is about to spawn a worker.
    Begin {
        /// Whether shutdown was requested.
        shutdown: bool,
    },
    /// The worker could not be spawned.
    SpawnFailed,
    /// The worker exited.
    Exited {
        /// Its exit code, if it has one.
        code: Option<i32>,
        /// Whether shutdown was requested.
        shutdown: bool,
        /// How long it ran.
        ran_for: u128,
    },
    /// Time passed during the delay before a respawn.
    Waited {
        /// How long the delay has lasted.
        elapsed: u128,
        /// Whether shutdown was requested.
        shutdown: bool,
    },
}

/// What the supervisor does next.
#[derive(Clone, Copy, PartialEq, Eq, Structural, Debug)]
pub enum SupervisorAction {
    /// Spawn a worker and watch it.
    Spawn,
    /// Sleep, then say how long the delay has lasted.
    Sleep(u128),
    /// Exit with this code.
    Exit(i32),
}

/// The supervisor: the delay before the last respawn, if there was one.
#[derive(Clone, Copy, PartialEq, Eq, Structural, Debug)]
pub struct Supervisor {
    /// The delay before the last respawn, in nanoseconds.
    pub backoff: Option<u128>,
}

impl Supervisor {
    /// A supervisor that has not respawned anything.
    pub fn new() -> (r: Supervisor)
        ensures
            r.backoff is None,
    {
        Supervisor { backoff: None }
    }

    /// The head of the loop: shutdown ends it as a clean quit.
    pub open spec fn heading(shutdown: bool) -> SupervisorAction {
        if shutdown {
            SupervisorAction::Exit(spec_daemon_exit_code(Some(EXIT_QUIT), shutdown))
        } else {
            SupervisorAction::Spawn
        }
    }

    /// The delay in front of the next respawn.
    pub open spec fn delay(self) -> u128 {
        match self.backoff {
            Some(delay) => delay,
            None => 0,
        }
    }

    /// How long to sleep with `elapsed` of the delay behind.
    pub open spec fn pause(self, elapsed: u128) -> u128 {
        if self.delay() - elapsed < WORKER_WAIT_POLL {
            (self.delay() - elapsed) as u128
        } else {
            WORKER_WAIT_POLL
        }
    }

    /// What one event makes of the supervisor, and what it does next. A respawn
    /// waits out its delay in short sleeps; a shutdown request ends the delay at
    /// once.
    pub open spec fn spec_step(self, event: SupervisorEvent) -> (Supervisor, SupervisorAction) {
        match event {
            SupervisorEvent::Begin { shutdown } => (self, Supervisor::heading(shutdown)),
            SupervisorEvent::SpawnFailed => (self, SupervisorAction::Exit(1)),
            SupervisorEvent::Exited { code, shutdown, ran_for } => if spec_supervisor_action(
                code,
                shutdown,
            ) is Stop {
                (self, SupervisorAction::Exit(spec_daemon_exit_code(code, shutdown)))
            } else {
                let next = Supervisor {
                    backoff: Some(backoff_after(self.backoff, ran_for) as u128),
                };
                (next, SupervisorAction::Sleep(next.pause(0)))
            },
            SupervisorEvent::Waited { elapsed, shutdown } => if elapsed >= self.delay() || shutdown {
                (self, Supervisor::heading(shutdown))
            } else {
                (self, SupervisorAction::Sleep(self.pause(elapsed)))
            },
        }
    }

    fn begin(shutdown: bool) -> (r: SupervisorAction)
        ensures
            r == Supervisor::heading(shutdown),
    {
        if shutdown {
            SupervisorAction::Exit(daemon_exit_code(Some(EXIT_QUIT), shutdown))
        } else {
            SupervisorAction::Spawn
        }
    }

    fn sleep(&self, elapsed: u128) -> (r: SupervisorAction)
        requires
            elapsed <= self.delay(),
        ensures
            r == SupervisorAction::Sleep(self.pause(elapsed)),
    {
        let delay: u128 = match self.backoff {
            Some(delay) => delay,
            None => 0,
        };
        let left: u128 = delay - elapsed;
        if left < WORKER_WAIT_POLL {
            SupervisorAction::Sleep(left)
        } else {
            SupervisorAction::Sleep(WORKER_WAIT_POLL)
        }
    }

    /// Takes one event; says what comes next.
    pub fn step(&mut self, event: SupervisorEvent) -> (r: SupervisorAction)
        ensures
            *final(self) == old(self).spec_step(event).0,
            r == old(self).spec_step(event).1,
    {
        match event {
            SupervisorEvent::Begin { shutdown } => Supervisor::begin(shutdown),
            SupervisorEvent::SpawnFailed => SupervisorAction::Exit(1),
            SupervisorEvent::Exited { code, shutdown, ran_for } => {
                if supervisor_action(code, shutdown) == Action::Stop {
                    return SupervisorAction::Exit(daemon_exit_code(code, shutdown));
                }
                self.backoff = Some(next_backoff(self.backoff, ran_for));
                self.sleep(0)
            },
            SupervisorEvent::Waited { elapsed, shutdown } => {
                let delay: u128 = match self.backoff {
                    Some(delay) => delay,
                    None => 0,
                };
                if elapsed >= delay || shutdown {
                    Supervisor::begin(shutdown)
                } else {
                    self.sleep(elapsed)
                }
            },
        }
    }
}

impl SupervisorEvent {
    /// Whether shutdown was requested by then.
    pub open spec fn told_shutdown(self) -> bool {
        match self {
            SupervisorEvent::Begin { shutdown } => shutdown,
            SupervisorEvent::SpawnFailed => false,
            SupervisorEvent::Exited { shutdown, .. } => shutdown,
            SupervisorEvent::Waited { shutdown, .. } => shutdown,
        }
    }

    /// Whether the event is what comes of an action.
    pub open spec fn answers(self, action: SupervisorAction) -> bool {
        match action {
            SupervisorAction::Spawn => self is SpawnFailed || self is Exited,
            SupervisorAction::Sleep(_) => self is Waited,
            SupervisorAction::Exit(_) => false,
        }
    }
}

impl Supervisor {
    /// The supervisor after a run of events.
    pub open spec fn after(run: Seq<SupervisorEvent>) -> Supervisor
        decreases run.len(),
    {
        if run.len() == 0 {
            Supervisor { backoff: None }
        } else {
            Supervisor::after(run.drop_last()).spec_step(run.last()).0
        }
    }

    /// What the supervisor does after a run of events.
    pub open spec fn answer(run: Seq<SupervisorEvent>) -> SupervisorAction {
        Supervisor::after(run.drop_last()).spec_step(run.last()).1
    }

    /// Whether a run begins at the head of the loop, and every later event is what
    /// came of the action before it.
    pub open spec fn is_run(run: Seq<SupervisorEvent>) -> bool
        decreases run.len(),
    {
        if run.len() <= 1 {
            run.len() == 1 && run[0] is Begin
        } else {
            Supervisor::is_run(run.drop_last()) && run.last().answers(
                Supervisor::answer(run.drop_last()),
            )
        }
    }

    /// How the last worker of a run ended: its code, and whether shutdown was
    /// requested by then.
    pub open spec fn last_exit(run: Seq<SupervisorEvent>) -> Option<(Option<i32>, bool)>
        decreases run.len(),
    {
        if run.len() == 0 {
            None
        } else {
            match run.last() {
                SupervisorEvent::Exited { code, shutdown, .. } => Some((code, shutdown)),
                _ => Supervisor::last_exit(run.drop_last()),
            }
        }
    }
}

/// Over a whole run: a worker is started only while no shutdown is requested, and
/// after another one only if that one asked for a restart; the run ends with 0
/// once shutdown was requested, with 1 where no worker could be started, and
/// otherwise with what the last worker's code comes to.
pub proof fn law_a_supervisor_restarts_on_request_alone(run: Seq<SupervisorEvent>)
    requires
        Supervisor::is_run(run),
    ensures
        match Supervisor::answer(run) {
            SupervisorAction::Spawn => {
                &&& !run.last().told_shutdown()
                &&& Supervisor::last_exit(run) is None || Supervisor::last_exit(run) == Some(
                    (Some(EXIT_RESTART), false),
                )
            },
            SupervisorAction::Sleep(_) => Supervisor::last_exit(run) == Some(
                (Some(EXIT_RESTART), false),
            ),
            SupervisorAction::Exit(code) => if run.last() is SpawnFailed {
                code == 1
            } else if run.last().told_shutdown() {
                code == 0
            } else {
                Supervisor::last_exit(run) matches Some((worker, _)) && code
                    == spec_daemon_exit_code(worker, false)
            },
        },
    decreases run.len(),
{
    if run.len() > 1 {
        law_a_supervisor_restarts_on_request_alone(run.drop_last());
    } else {
        assert(run.last() == run[0]);
        assert(Supervisor::last_exit(run.drop_last()) is None);
    }
}

/// How a watched worker stands.
#[derive(Clone, Copy, PartialEq, Eq, Structural, Debug)]
pub enum WorkerStatus {
    /// It runs.
    Running,
    /// It exited with this code, if it has one.
    Exited(Option<i32>),
    /// Its status cannot be read.
    Unknown,
}

/// What the watch of a worker does next.
#[derive(Clone, Copy, PartialEq, Eq, Structural, Debug)]
pub enum WatchAction {
    /// Sleep for one poll interval.
    Sleep,
    /// Close the worker's stdin pipe, then sleep for one poll interval.
    RequestShutdown,
    /// Kill the worker; its code, if it has one, is the result.
    Kill,
    /// The watch is over with this code.
    Done(Option<i32>),
}

/// The watch of one worker: whether its shutdown was requested.
#[derive(Clone, Copy, PartialEq, Eq, Structural, Debug)]
pub struct WorkerWatch {
    /// Whether shutdown was requested of the worker.
    pub requested: bool,
}

impl WorkerWatch {
    /// A watch of a fresh worker.
    pub fn new() -> (r: WorkerWatch)
        ensures
            !r.requested,
    {
        WorkerWatch { requested: false }
    }

    /// What one poll comes to: an exit ends the watch; a shutdown request is
    /// forwarded once, and a worker that ignores it for the grace period is
    /// killed.
    pub open spec fn spec_poll(self, status: WorkerStatus, shutdown: bool, waited: u128) -> (
        WorkerWatch,
        WatchAction,
    ) {
        match status {
            WorkerStatus::Exited(code) => (self, WatchAction::Done(code)),
            WorkerStatus::Unknown => (self, WatchAction::Done(None)),
            WorkerStatus::Running => if !shutdown {
                (self, WatchAction::Sleep)
            } else if !self.requested {
                (WorkerWatch { requested: true }, WatchAction::RequestShutdown)
            } else if waited >= WORKER_SHUTDOWN_GRACE {
                (self, WatchAction::Kill)
            } else {
                (self, WatchAction::Sleep)
            },
        }
    }

    /// One poll; `waited` is how long ago shutdown was requested of the worker.
    pub fn poll(&mut self, status: WorkerStatus, shutdown: bool, waited: u128) -> (r: WatchAction)
        ensures
            *final(self) == old(self).spec_poll(status, shutdown, waited).0,
            r == old(self).spec_poll(status, shutdown, waited).1,
    {
        match status {
            WorkerStatus::Exited(code) => WatchAction::Done(code),
            WorkerStatus::Unknown => WatchAction::Done(None),
            WorkerStatus::Running => {
                if !shutdown {
                    WatchAction::Sleep
                } else if !self.requested {
                    self.requested = true;
                    WatchAction::RequestShutdown
                } else if waited >= WORKER_SHUTDOWN_GRACE {
                    WatchAction::Kill
                } else {
                    WatchAction::Sleep
                }
            },
        }
    }
}

/// Delays double from the start value, never exceed the ceiling, and start over
/// after a worker that stayed up.
pub proof fn law_the_backoff_doubles_caps_and_resets(previous: u128, ran_for: u128)
    requires
        RESTART_BACKOFF_START <= previous <= RESTART_BACKOFF_MAX,
    ensures
        backoff_after(None, ran_for) == RESTART_BACKOFF_START,
        ran_for >= RESTART_BACKOFF_RESET_AFTER ==> backoff_after(Some(previous), ran_for)
            == RESTART_BACKOFF_START,
        ran_for < RESTART_BACKOFF_RESET_AFTER && 2 * previous <= RESTART_BACKOFF_MAX
            ==> backoff_after(Some(previous), ran_for) == 2 * previous,
        RESTART_BACKOFF_START <= backoff_after(Some(previous), ran_for) <= RESTART_BACKOFF_MAX,
{
}

/// Once shutdown is requested the supervisor spawns nothing more and exits 0.
pub proof fn law_shutdown_never_respawns(supervisor: Supervisor, event: SupervisorEvent)
    requires
        match event {
            SupervisorEvent::Begin { shutdown } => shutdown,
            SupervisorEvent::SpawnFailed => false,
            SupervisorEvent::Exited { shutdown, .. } => shutdown,
            SupervisorEvent::Waited { shutdown, .. } => shutdown,
        },
    ensures
        supervisor.spec_step(event).1 == SupervisorAction::Exit(0),
{
}

/// A sleep before a respawn is never longer than one poll interval, nor than what
/// is left of the delay.
pub proof fn law_the_delay_stays_interruptible(supervisor: Supervisor, elapsed: u128)
    requires
        elapsed < supervisor.delay(),
    ensures
        supervisor.pause(elapsed) <= WORKER_WAIT_POLL,
        elapsed + supervisor.pause(elapsed) <= supervisor.delay(),
        supervisor.pause(elapsed) > 0,
{
}

/// Parsed command line: `cordis run <config> [--plugin-dir <dir>]... [--worker|-w]`.
/// Paths are raw bytes, so that one that is no valid text reaches the loader
/// intact.
#[derive(Debug, PartialEq, Eq)]
pub struct Options {
    /// Entry config file.
    pub config: Vec<u8>,
    /// Directories searched for dynamic-library plugins.
    pub plugin_dirs: Vec<Vec<u8>>,
    /// Run as the daemon's worker process instead of supervising.
    pub worker: bool,
}

/// A command line as a mathematical value.
#[verifier::ext_equal]
pub struct OptionsView {
    pub config: Seq<u8>,
    pub plugin_dirs: Seq<Seq<u8>>,
    pub worker: bool,
}

/// The views of a list of byte strings.
pub open spec fn byte_views(args: Seq<Vec<u8>>) -> Seq<Seq<u8>> {
    args.map_values(|a: Vec<u8>| a@)
}

impl View for Options {
    type V = OptionsView;

    open spec fn view(&self) -> OptionsView {
        OptionsView {
            config: self.config@,
            plugin_dirs: byte_views(self.plugin_dirs@),
            worker: self.worker,
        }
    }
}

/// Why a command line is refused.
pub enum ArgError {
    /// No command, or help was asked for.
    Usage,
    /// The command is not `run`.
    UnknownCommand(Vec<u8>),
    /// `--plugin-dir` without a directory.
    MissingDirectory,
    /// A flag that does not exist.
    UnknownFlag(Vec<u8>),
    /// A second positional argument.
    ExtraArgument(Vec<u8>),
    /// No config file.
    MissingConfig,
}

/// Why a command line is refused, as a mathematical value.
pub enum ArgErrorView {
    Usage,
    UnknownCommand(Seq<u8>),
    MissingDirectory,
    UnknownFlag(Seq<u8>),
    ExtraArgument(Seq<u8>),
    MissingConfig,
}

impl View for ArgError {
    type V = ArgErrorView;

    open spec fn view(&self) -> ArgErrorView {
        match self {
            ArgError::Usage => ArgErrorView::Usage,
            ArgError::UnknownCommand(arg) => ArgErrorView::UnknownCommand(arg@),
            ArgError::MissingDirectory => ArgErrorView::MissingDirectory,
            ArgError::UnknownFlag(arg) => ArgErrorView::UnknownFlag(arg@),
            ArgError::ExtraArgument(arg) => ArgErrorView::ExtraArgument(arg@),
            ArgError::MissingConfig => ArgErrorView::MissingConfig,
        }
    }
}

/// The usage text.
pub open spec fn usage_text() -> Seq<char> {
    "usage: cordis run <config.yml> [--plugin-dir <dir>]... [--worker]

  run             start the loader from an entry config file
  --plugin-dir    also resolve plugins from dynamic libraries in <dir>
                  (repeatable); library changes there hot-restart the worker
  --worker        internal: run as the daemon's worker process

Worker exit codes: 51 = hot restart, 52 = quit, 53 = boot failure.
Daemon exit codes: 0 = clean shutdown, 1 = worker never booted or died
abnormally, otherwise the worker's own code."@
}

/// The usage text.
pub fn usage() -> (r: String)
    ensures
        r@ == usage_text(),
{
    "usage: cordis run <config.yml> [--plugin-dir <dir>]... [--worker]

  run             start the loader from an entry config file
  --plugin-dir    also resolve plugins from dynamic libraries in <dir>
                  (repeatable); library changes there hot-restart the worker
  --worker        internal: run as the daemon's worker process

Worker exit codes: 51 = hot restart, 52 = quit, 53 = boot failure.
Daemon exit codes: 0 = clean shutdown, 1 = worker never booted or died
abnormally, otherwise the worker's own code.".to_owned()
}

/// What `String::from_utf8_lossy` makes of bytes.
pub uninterp spec fn lossy(bytes: Seq<u8>) -> Seq<char>;

/// `std::string::String::from_utf8_lossy`, as an owned text: valid UTF-8 is
/// decoded as it is. What stands in place of invalid sequences is a function of
/// the bytes alone, named and not spelled out here.
#[verifier::external_body]
fn lossy_text(bytes: &Vec<u8>) -> (r: String)
    ensures
        r@ == lossy(bytes@),
        valid_utf8(bytes@) ==> r@ == decode_utf8(bytes@),
{
    String::from_utf8_lossy(bytes).into_owned()
}

impl ArgErrorView {
    /// The argument a refusal quotes.
    pub open spec fn quoted(self) -> Option<Seq<u8>> {
        match self {
            ArgErrorView::UnknownCommand(arg) => Some(arg),
            ArgErrorView::UnknownFlag(arg) => Some(arg),
            ArgErrorView::ExtraArgument(arg) => Some(arg),
            _ => None,
        }
    }

    /// The text of a refusal, with its quoted argument rendered as `rendered`.
    pub open spec fn message(self, rendered: Seq<char>) -> Seq<char> {
        match self {
            ArgErrorView::Usage => usage_text(),
            ArgErrorView::UnknownCommand(_) => "unknown command `"@ + rendered + "`\n\n"@
                + usage_text(),
            ArgErrorView::MissingDirectory => "--plugin-dir requires a directory\n\n"@
                + usage_text(),
            ArgErrorView::UnknownFlag(_) => "unknown flag `"@ + rendered + "`\n\n"@ + usage_text(),
            ArgErrorView::ExtraArgument(_) => "unexpected extra argument `"@ + rendered
                + "`\n\n"@ + usage_text(),
            ArgErrorView::MissingConfig => "missing config file\n\n"@ + usage_text(),
        }
    }

    /// The text of a refusal.
    pub open spec fn text(self) -> Seq<char> {
        match self.quoted() {
            Some(arg) => self.message(lossy(arg)),
            None => self.message(Seq::empty()),
        }
    }
}

impl ArgError {
    /// The text of a refusal, with its quoted argument rendered as `rendered`.
    pub fn message(&self, rendered: &str) -> (r: String)
        ensures
            r@ == self@.message(rendered@),
    {
        let usage = usage();
        match self {
            ArgError::Usage => usage,
            ArgError::UnknownCommand(_) => {
                let head = join3("unknown command `", rendered, "`\n\n");
                join2(head.as_str(), usage.as_str())
            },
            ArgError::MissingDirectory => join2(
                "--plugin-dir requires a directory\n\n",
                usage.as_str(),
            ),
            ArgError::UnknownFlag(_) => {
                let head = join3("unknown flag `", rendered, "`\n\n");
                join2(head.as_str(), usage.as_str())
            },
            ArgError::ExtraArgument(_) => {
                let head = join3("unexpected extra argument `", rendered, "`\n\n");
                join2(head.as_str(), usage.as_str())
            },
            ArgError::MissingConfig => join2("missing config file\n\n", usage.as_str()),
        }
    }

    /// The text of a refusal.
    pub fn text(&self) -> (r: String)
        ensures
            r@ == self@.text(),
    {
        match self {
            ArgError::UnknownCommand(arg) | ArgError::UnknownFlag(arg) | ArgError::ExtraArgument(
                arg,
            ) => {
                let rendered = lossy_text(arg);
                self.message(rendered.as_str())
            },
            _ => {
                proof {
                    reveal_strlit("");
                }
                assert(""@ =~= Seq::<char>::empty());
                self.message("")
            },
        }
    }
}

/// One flag or argument of the command line.
#[derive(Clone, Copy, PartialEq, Eq, Structural, Debug)]
pub enum ArgKind {
    /// `--worker` or `-w`.
    Worker,
    /// `--help` or `-h`.
    Help,
    /// `--plugin-dir`, its directory in the next argument.
    PluginDir,
    /// `--plugin-dir=` with its directory behind.
    PluginDirInline,
    /// Anything else that begins with a dash.
    UnknownFlag,
    /// A positional argument.
    Positional,
}

/// `--worker`.
pub open spec fn word_worker() -> Seq<u8> {
    seq![45u8, 45, 119, 111, 114, 107, 101, 114]
}

/// `--help`.
pub open spec fn word_help() -> Seq<u8> {
    seq![45u8, 45, 104, 101, 108, 112]
}

/// `--plugin-dir`.
pub open spec fn word_plugin_dir() -> Seq<u8> {
    seq![45u8, 45, 112, 108, 117, 103, 105, 110, 45, 100, 105, 114]
}

/// `run`.
pub open spec fn word_run() -> Seq<u8> {
    seq![114u8, 117, 110]
}

/// `--plugin-dir=`.
pub open spec fn word_plugin_dir_inline() -> Seq<u8> {
    word_plugin_dir().push(61u8)
}

/// What one argument is.
pub open spec fn kind_of(arg: Seq<u8>) -> ArgKind {
    if arg == word_worker() || arg == seq![45u8, 119] {
        ArgKind::Worker
    } else if arg == word_help() || arg == seq![45u8, 104] {
        ArgKind::Help
    } else if arg == word_plugin_dir() {
        ArgKind::PluginDir
    } else if arg.len() >= 13 && arg.take(13) == word_plugin_dir_inline() {
        ArgKind::PluginDirInline
    } else if arg.len() > 0 && arg[0] == 45u8 {
        ArgKind::UnknownFlag
    } else {
        ArgKind::Positional
    }
}

/// The arguments read so far.
#[verifier::ext_equal]
pub struct ArgsView {
    pub config: Option<Seq<u8>>,
    pub plugin_dirs: Seq<Seq<u8>>,
    pub worker: bool,
}

/// What the arguments from position `i` on make of those read so far.
pub open spec fn parsed(args: Seq<Seq<u8>>, i: int, so_far: ArgsView) -> Result<
    OptionsView,
    ArgErrorView,
>
    decreases args.len() - i,
{
    if i < 0 || i >= args.len() {
        match so_far.config {
            Some(config) => Ok(
                OptionsView { config, plugin_dirs: so_far.plugin_dirs, worker: so_far.worker },
            ),
            None => Err(ArgErrorView::MissingConfig),
        }
    } else {
        let arg = args[i];
        match kind_of(arg) {
            ArgKind::Worker => parsed(args, i + 1, ArgsView { worker: true, ..so_far }),
            ArgKind::Help => Err(ArgErrorView::Usage),
            ArgKind::PluginDir => if i + 1 < args.len() {
                parsed(
                    args,
                    i + 2,
                    ArgsView { plugin_dirs: so_far.plugin_dirs.push(args[i + 1]), ..so_far },
                )
            } else {
                Err(ArgErrorView::MissingDirectory)
            },
            ArgKind::PluginDirInline => if arg.len() > 13 {
                parsed(
                    args,
                    i + 1,
                    ArgsView { plugin_dirs: so_far.plugin_dirs.push(arg.skip(13)), ..so_far },
                )
            } else {
                Err(ArgErrorView::MissingDirectory)
            },
            ArgKind::UnknownFlag => Err(ArgErrorView::UnknownFlag(arg)),
            ArgKind::Positional => match so_far.config {
                Some(_) => Err(ArgErrorView::ExtraArgument(arg)),
                None => parsed(args, i + 1, ArgsView { config: Some(arg), ..so_far }),
            },
        }
    }
}

/// What a command line says. The command comes first.
pub open spec fn command_line(args: Seq<Seq<u8>>) -> Result<OptionsView, ArgErrorView> {
    if args.len() == 0 {
        Err(ArgErrorView::Usage)
    } else if args[0] != word_run() {
        Err(ArgErrorView::UnknownCommand(args[0]))
    } else {
        parsed(args, 1, ArgsView { config: None, plugin_dirs: Seq::empty(), worker: false })
    }
}

fn same_bytes(arg: &Vec<u8>, word: &Vec<u8>) -> (r: bool)
    ensures
        r == (arg@ == word@),
{
    if arg.len() != word.len() {
        return false;
    }
    starts_with(arg, word)
}

fn starts_with(arg: &Vec<u8>, word: &Vec<u8>) -> (r: bool)
    requires
        word@.len() <= arg@.len(),
    ensures
        r == (arg@.take(word@.len() as int) == word@),
        arg@.len() == word@.len() ==> r == (arg@ == word@),
{
    let mut i: usize = 0;
    while i < word.len()
        invariant
            i <= word@.len() <= arg@.len(),
            forall|j: int| 0 <= j < i ==> arg@[j] == word@[j],
        decreases word@.len() - i,
    {
        if arg[i] != word[i] {
            assert(arg@.take(word@.len() as int)[i as int] == arg@[i as int]);
            return false;
        }
        i = i + 1;
    }
    assert(arg@.take(word@.len() as int) =~= word@);
    assert(arg@.len() == word@.len() ==> arg@ =~= word@);
    true
}

fn copy_from(bytes: &Vec<u8>, from: usize) -> (r: Vec<u8>)
    requires
        from <= bytes@.len(),
    ensures
        r@ == bytes@.skip(from as int),
{
    let mut out: Vec<u8> = Vec::new();
    let mut i: usize = from;
    while i < bytes.len()
        invariant
            from <= i <= bytes@.len(),
            out@ == bytes@.subrange(from as int, i as int),
        decreases bytes@.len() - i,
    {
        out.push(bytes[i]);
        assert(out@ =~= bytes@.subrange(from as int, i + 1));
        i = i + 1;
    }
    assert(out@ =~= bytes@.skip(from as int));
    out
}

fn copy_bytes(bytes: &Vec<u8>) -> (r: Vec<u8>)
    ensures
        r@ == bytes@,
{
    let r = copy_from(bytes, 0);
    assert(bytes@.skip(0) =~= bytes@);
    r
}

fn classify(arg: &Vec<u8>) -> (r: ArgKind)
    ensures
        r == kind_of(arg@),
{
    let worker: Vec<u8> = vec![45, 45, 119, 111, 114, 107, 101, 114];
    let short_worker: Vec<u8> = vec![45, 119];
    let help: Vec<u8> = vec![45, 45, 104, 101, 108, 112];
    let short_help: Vec<u8> = vec![45, 104];
    let plugin_dir: Vec<u8> = vec![45, 45, 112, 108, 117, 103, 105, 110, 45, 100, 105, 114];
    let inline: Vec<u8> = vec![45, 45, 112, 108, 117, 103, 105, 110, 45, 100, 105, 114, 61];
    assert(worker@ =~= word_worker());
    assert(short_worker@ =~= seq![45u8, 119]);
    assert(help@ =~= word_help());
    assert(short_help@ =~= seq![45u8, 104]);
    assert(plugin_dir@ =~= word_plugin_dir());
    assert(inline@ =~= word_plugin_dir_inline());
    if same_bytes(arg, &worker) || same_bytes(arg, &short_worker) {
        ArgKind::Worker
    } else if same_bytes(arg, &help) || same_bytes(arg, &short_help) {
        ArgKind::Help
    } else if same_bytes(arg, &plugin_dir) {
        ArgKind::PluginDir
    } else if arg.len() >= 13 && starts_with(arg, &inline) {
        ArgKind::PluginDirInline
    } else if arg.len() > 0 && arg[0] == 45 {
        ArgKind::UnknownFlag
    } else {
        ArgKind::Positional
    }
}

/// Reads the arguments after the binary name; says exactly why they are refused.
pub fn read_args(args: &Vec<Vec<u8>>) -> (r: Result<Options, ArgError>)
    ensures
        match command_line(byte_views(args@)) {
            Ok(options) => r matches Ok(o) && o@ == options,
            Err(e) => r matches Err(x) && x@ == e,
        },
{
    let ghost rows = byte_views(args@);
    if args.len() == 0 {
        return Err(ArgError::Usage);
    }
    let run: Vec<u8> = vec![114, 117, 110];
    assert(run@ =~= word_run());
    assert(rows[0] == args@[0]@);
    if !same_bytes(&args[0], &run) {
        return Err(ArgError::UnknownCommand(copy_bytes(&args[0])));
    }
    let mut config: Option<Vec<u8>> = None;
    let mut plugin_dirs: Vec<Vec<u8>> = Vec::new();
    let mut worker = false;
    let mut i: usize = 1;
    assert(byte_views(plugin_dirs@) =~= Seq::empty());
    while i < args.len()
        invariant
            1 <= i <= args@.len(),
            rows == byte_views(args@),
            command_line(rows) == parsed(
                rows,
                i as int,
                ArgsView {
                    config: match config {
                        Some(c) => Some(c@),
                        None => None,
                    },
                    plugin_dirs: byte_views(plugin_dirs@),
                    worker,
                },
            ),
        decreases args@.len() - i,
    {
        let arg = &args[i];
        assert(rows[i as int] == arg@);
        match classify(arg) {
            ArgKind::Worker => {
                worker = true;
            },
            ArgKind::Help => {
                return Err(ArgError::Usage);
            },
            ArgKind::PluginDir => {
                if i + 1 >= args.len() {
                    return Err(ArgError::MissingDirectory);
                }
                i = i + 1;
                let dir = copy_bytes(&args[i]);
                assert(rows[i as int] == dir@);
                assert(byte_views(plugin_dirs@.push(dir)) =~= byte_views(plugin_dirs@).push(dir@));
                plugin_dirs.push(dir);
            },
            ArgKind::PluginDirInline => {
                if arg.len() == 13 {
                    return Err(ArgError::MissingDirectory);
                }
                let dir = copy_from(arg, 13);
                assert(byte_views(plugin_dirs@.push(dir)) =~= byte_views(plugin_dirs@).push(dir@));
                plugin_dirs.push(dir);
            },
            ArgKind::UnknownFlag => {
                return Err(ArgError::UnknownFlag(copy_bytes(arg)));
            },
            ArgKind::Positional => {
                if config.is_some() {
                    return Err(ArgError::ExtraArgument(copy_bytes(arg)));
                }
                config = Some(copy_bytes(arg));
            },
        }
        i = i + 1;
    }
    match config {
        Some(config) => Ok(Options { config, plugin_dirs, worker }),
        None => Err(ArgError::MissingConfig),
    }
}

/// Parses `cordis` arguments (after the binary name); a refused command line is
/// answered with a text.
pub fn parse_args(args: &Vec<Vec<u8>>) -> (r: Result<Options, String>)
    ensures
        match command_line(byte_views(args@)) {
            Ok(options) => r matches Ok(o) && o@ == options,
            Err(e) => r matches Err(text) && text@ == e.text(),
        },
{
    match read_args(args) {
        Ok(options) => Ok(options),
        Err(e) => Err(e.text()),
    }
}

/// A config path and plugin directories reach the options byte for byte, whatever
/// bytes they hold, as long as the config does not look like a flag.
pub proof fn law_paths_survive_byte_for_byte(config: Seq<u8>, dir: Seq<u8>)
    requires
        config.len() == 0 || config[0] != 45u8,
    ensures
        command_line(seq![word_run(), config, word_plugin_dir(), dir]) == Ok::<
            OptionsView,
            ArgErrorView,
        >(OptionsView { config, plugin_dirs: seq![dir], worker: false }),
{
    let args = seq![word_run(), config, word_plugin_dir(), dir];
    let start = ArgsView { config: None, plugin_dirs: Seq::empty(), worker: false };
    let first = ArgsView { config: Some(config), ..start };
    let second = ArgsView { plugin_dirs: seq![dir], ..first };
    lemma_word_kinds(config);
    assert(parsed(args, 4, second) == Ok::<OptionsView, ArgErrorView>(
        OptionsView { config, plugin_dirs: seq![dir], worker: false },
    ));
    assert(first.plugin_dirs.push(dir) =~= seq![dir]);
    assert(parsed(args, 2, first) == parsed(args, 4, second));
    assert(parsed(args, 1, start) == parsed(args, 2, first));
}

/// The command line of the worker that runs with these options.
pub open spec fn worker_line(options: OptionsView) -> Seq<Seq<u8>> {
    seq![word_run(), options.config, word_worker()] + Seq::new(
        2 * options.plugin_dirs.len(),
        |j: int|
            if j % 2 == 0 {
                word_plugin_dir()
            } else {
                options.plugin_dirs[j / 2]
            },
    )
}

/// The arguments that the daemon starts its worker with: the command, the config,
/// the worker flag, then each plugin directory behind its own flag.
pub fn worker_args(options: &Options) -> (r: Vec<Vec<u8>>)
    ensures
        byte_views(r@) == worker_line(options@),
{
    let ghost line = worker_line(options@);
    let ghost dirs = options@.plugin_dirs;
    let mut out: Vec<Vec<u8>> = Vec::new();
    let run: Vec<u8> = vec![114, 117, 110];
    let flag: Vec<u8> = vec![45, 45, 119, 111, 114, 107, 101, 114];
    assert(run@ =~= word_run());
    assert(flag@ =~= word_worker());
    out.push(run);
    out.push(copy_bytes(&options.config));
    out.push(flag);
    let mut i: usize = 0;
    while i < options.plugin_dirs.len()
        invariant
            i <= options.plugin_dirs@.len(),
            dirs == options@.plugin_dirs,
            line == worker_line(options@),
            out@.len() == 3 + 2 * i,
            forall|j: int| 0 <= j < out@.len() ==> (#[trigger] out@[j])@ == line[j],
        decreases options.plugin_dirs@.len() - i,
    {
        let word: Vec<u8> = vec![45, 45, 112, 108, 117, 103, 105, 110, 45, 100, 105, 114];
        assert(word@ =~= word_plugin_dir());
        let dir = copy_bytes(&options.plugin_dirs[i]);
        assert(dirs[i as int] == dir@);
        assert(line[3 + 2 * i] == word@);
        assert(line[4 + 2 * i] == dir@);
        out.push(word);
        out.push(dir);
        i = i + 1;
    }
    assert(byte_views(out@) =~= line);
    out
}

proof fn lemma_word_kinds(config: Seq<u8>)
    requires
        config.len() == 0 || config[0] != 45u8,
    ensures
        kind_of(config) is Positional,
        kind_of(word_worker()) is Worker,
        kind_of(word_plugin_dir()) is PluginDir,
{
    assert(word_worker()[0] == 45u8 && word_help()[0] == 45u8 && word_plugin_dir()[0] == 45u8);
    assert(seq![45u8, 119][0] == 45u8 && seq![45u8, 104][0] == 45u8);
    assert(word_plugin_dir_inline()[0] == 45u8);
    if config.len() >= 13 {
        assert(config.take(13)[0] == config[0]);
    }
    assert(word_plugin_dir().len() == 12);
    assert(word_worker().len() == 8 && word_help().len() == 6);
}

proof fn lemma_worker_dirs(options: OptionsView, k: int)
    requires
        options.config.len() == 0 || options.config[0] != 45u8,
        0 <= k <= options.plugin_dirs.len(),
    ensures
        parsed(
            worker_line(options),
            3 + 2 * k,
            ArgsView {
                config: Some(options.config),
                plugin_dirs: options.plugin_dirs.take(k),
                worker: true,
            },
        ) == Ok::<OptionsView, ArgErrorView>(OptionsView { worker: true, ..options }),
    decreases options.plugin_dirs.len() - k,
{
    let line = worker_line(options);
    let dirs = options.plugin_dirs;
    let so_far = ArgsView {
        config: Some(options.config),
        plugin_dirs: dirs.take(k),
        worker: true,
    };
    lemma_word_kinds(options.config);
    if k == dirs.len() {
        assert(dirs.take(k) =~= dirs);
    } else {
        lemma_worker_dirs(options, k + 1);
        assert(line[3 + 2 * k] == word_plugin_dir());
        assert(line[3 + 2 * k + 1] == dirs[k]);
        assert(dirs.take(k).push(dirs[k]) =~= dirs.take(k + 1));
        assert(parsed(line, 3 + 2 * k, so_far) == parsed(
            line,
            3 + 2 * k + 2,
            ArgsView { plugin_dirs: dirs.take(k).push(dirs[k]), ..so_far },
        ));
    }
}

/// A worker is started with the daemon's own options: its command line says the
/// same config and plugin directories, and that it is a worker.
pub proof fn law_a_worker_gets_the_options_of_its_daemon(options: OptionsView)
    requires
        options.config.len() == 0 || options.config[0] != 45u8,
    ensures
        command_line(worker_line(options)) == Ok::<OptionsView, ArgErrorView>(
            OptionsView { worker: true, ..options },
        ),
{
    let line = worker_line(options);
    let start = ArgsView { config: None, plugin_dirs: Seq::empty(), worker: false };
    let named = ArgsView { config: Some(options.config), ..start };
    let flagged = ArgsView { worker: true, ..named };
    lemma_word_kinds(options.config);
    lemma_worker_dirs(options, 0);
    assert(options.plugin_dirs.take(0) =~= Seq::empty());
    assert(line[0] == word_run() && line[1] == options.config && line[2] == word_worker());
    assert(parsed(line, 2, named) == parsed(line, 3, flagged));
    assert(parsed(line, 1, start) == parsed(line, 2, named));
}

proof fn lemma_read_config(args: Seq<Seq<u8>>, i: int, so_far: ArgsView)
    requires
        so_far.config matches Some(c) ==> c.len() == 0 || c[0] != 45u8,
    ensures
        parsed(args, i, so_far) matches Ok(options) ==> options.config.len() == 0
            || options.config[0] != 45u8,
    decreases args.len() - i,
{
    if 0 <= i < args.len() {
        let arg = args[i];
        match kind_of(arg) {
            ArgKind::Worker => lemma_read_config(
                args,
                i + 1,
                ArgsView { worker: true, ..so_far },
            ),
            ArgKind::PluginDir => if i + 1 < args.len() {
                lemma_read_config(
                    args,
                    i + 2,
                    ArgsView { plugin_dirs: so_far.plugin_dirs.push(args[i + 1]), ..so_far },
                );
            },
            ArgKind::PluginDirInline => lemma_read_config(
                args,
                i + 1,
                ArgsView { plugin_dirs: so_far.plugin_dirs.push(arg.skip(13)), ..so_far },
            ),
            ArgKind::Positional => lemma_read_config(
                args,
                i + 1,
                ArgsView { config: Some(arg), ..so_far },
            ),
            _ => {},
        }
    }
}

/// Every command line that a daemon accepts gives a worker the same options: a
/// config that was read never looks like a flag.
pub proof fn law_an_accepted_command_line_reaches_the_worker(args: Seq<Seq<u8>>)
    ensures
        command_line(args) matches Ok(options) ==> command_line(worker_line(options)) == Ok::<
            OptionsView,
            ArgErrorView,
        >(OptionsView { worker: true, ..options }),
{
    let start = ArgsView { config: None, plugin_dirs: Seq::empty(), worker: false };
    lemma_read_config(args, 1, start);
    match command_line(args) {
        Ok(options) => law_a_worker_gets_the_options_of_its_daemon(options),
        Err(_) => {},
    }
}

} // verus!
