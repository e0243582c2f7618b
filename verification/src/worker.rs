//! The rules of the worker process: how it boots, what ends it, and which file
//! changes restart it.

use crate::cli::{EXIT_BOOT, EXIT_QUIT, EXIT_RESTART};
use crate::text::{join2, join3, join4, join5, views};
use vstd::prelude::*;

verus! {

/// Environment marker set by the daemon on workers it supervises.
pub const SUPERVISED_ENV: &'static str = "CORDIS_SUPERVISED";

/// Quiet window a plugin library must stay unchanged before the worker restarts,
/// in nanoseconds.
pub const PLUGIN_CHANGE_DEBOUNCE: u128 = 250_000_000;

/// What ends a worker.
#[derive(Clone, Copy, PartialEq, Eq, Structural, Debug)]
pub enum ExitCause {
    /// A plugin asked for a hot restart.
    Restart,
    /// A plugin asked to stop the application.
    Shutdown,
    /// A signal arrived.
    Signal,
    /// The supervisor's pipe was closed.
    SupervisorGone,
    /// A plugin library changed and stayed unchanged since.
    LibraryChanged,
}

impl ExitCause {
    /// The exit code the cause asks for.
    pub open spec fn spec_code(self) -> i32 {
        match self {
            ExitCause::Restart => EXIT_RESTART,
            ExitCause::LibraryChanged => EXIT_RESTART,
            _ => EXIT_QUIT,
        }
    }

    /// The exit code the cause asks for, after a graceful teardown.
    pub fn code(self) -> (r: i32)
        ensures
            r == self.spec_code(),
    {
        match self {
            ExitCause::Restart | ExitCause::LibraryChanged => EXIT_RESTART,
            _ => EXIT_QUIT,
        }
    }

    /// The line the worker prints for the cause, if it prints one.
    pub open spec fn spec_notice(self) -> Option<Seq<char>> {
        match self {
            ExitCause::Signal => Some("cordis: signal received, shutting down"@),
            ExitCause::SupervisorGone => Some("cordis: supervisor went away, shutting down"@),
            ExitCause::LibraryChanged => Some("cordis: plugin library changed, restarting worker"@),
            _ => None,
        }
    }

    /// The line the worker prints for the cause, if it prints one.
    pub fn notice(self) -> (r: Option<&'static str>)
        ensures
            match self.spec_notice() {
                Some(text) => r matches Some(s) && s@ == text,
                None => r is None,
            },
    {
        match self {
            ExitCause::Signal => Some("cordis: signal received, shutting down"),
            ExitCause::SupervisorGone => Some("cordis: supervisor went away, shutting down"),
            ExitCause::LibraryChanged => Some("cordis: plugin library changed, restarting worker"),
            _ => None,
        }
    }
}

/// What reading the supervisor's pipe means: a byte is ignored, an end or an error
/// means the supervisor is gone.
pub fn supervisor_alive(read: Option<usize>) -> (r: bool)
    ensures
        r == (read matches Some(n) && n > 0),
{
    match read {
        Some(n) => n > 0,
        None => false,
    }
}

/// What the library watch was told.
#[derive(Clone, Copy, PartialEq, Eq, Structural, Debug)]
pub enum LibraryEvent {
    /// Files changed; whether one of them is a plugin library.
    Changed {
        /// Whether one of them is a plugin library.
        library: bool,
    },
    /// The watcher reported an error.
    Failed,
    /// Nothing happened for the quiet window.
    Quiet,
    /// The watcher is gone.
    Disconnected,
}

/// What the library watch does next.
#[derive(Clone, Copy, PartialEq, Eq, Structural, Debug)]
pub enum LibraryAction {
    /// Watch on.
    Watch,
    /// Restart the worker.
    Restart,
    /// End the watch.
    Stop,
}

/// The library watch: whether a change waits for its quiet window.
#[derive(Clone, Copy, PartialEq, Eq, Structural, Debug)]
pub struct LibraryWatch {
    /// Whether a library change is pending.
    pub pending: bool,
}

impl LibraryWatch {
    /// A watch without a pending change.
    pub fn new() -> (r: LibraryWatch)
        ensures
            !r.pending,
    {
        LibraryWatch { pending: false }
    }

    /// What one event makes of the watch, and what it does next: a library change
    /// restarts the worker once nothing happened for a quiet window.
    pub open spec fn spec_step(self, event: LibraryEvent) -> (LibraryWatch, LibraryAction) {
        match event {
            LibraryEvent::Changed { library } => (
                LibraryWatch { pending: self.pending || library },
                LibraryAction::Watch,
            ),
            LibraryEvent::Failed => (self, LibraryAction::Watch),
            LibraryEvent::Quiet => if self.pending {
                (self, LibraryAction::Restart)
            } else {
                (self, LibraryAction::Watch)
            },
            LibraryEvent::Disconnected => (self, LibraryAction::Stop),
        }
    }

    /// Takes one event; says what comes next.
    pub fn step(&mut self, event: LibraryEvent) -> (r: LibraryAction)
        ensures
            *final(self) == old(self).spec_step(event).0,
            r == old(self).spec_step(event).1,
    {
        match event {
            LibraryEvent::Changed { library } => {
                if library {
                    self.pending = true;
                }
                LibraryAction::Watch
            },
            LibraryEvent::Failed => LibraryAction::Watch,
            LibraryEvent::Quiet => {
                if self.pending {
                    LibraryAction::Restart
                } else {
                    LibraryAction::Watch
                }
            },
            LibraryEvent::Disconnected => LibraryAction::Stop,
        }
    }
}

/// The position behind the last `c` in front of `to`; 0 where there is none.
pub open spec fn after_last(s: Seq<u8>, c: u8) -> int
    decreases s.len(),
{
    if s.len() == 0 {
        0
    } else if s.last() == c {
        s.len() as int
    } else {
        after_last(s.drop_last(), c)
    }
}

/// The file name a path ends in: its last component that is neither empty nor a
/// single dot. A path that ends in two dots names no file.
pub open spec fn file_name(path: Seq<u8>) -> Option<Seq<u8>>
    decreases path.len(),
{
    let at = after_last(path, 47u8);
    let name = path.skip(at);
    if name.len() == 0 || name == seq![46u8] {
        if 0 < at <= path.len() {
            file_name(path.take(at - 1))
        } else {
            None
        }
    } else if name == seq![46u8, 46u8] {
        None
    } else {
        Some(name)
    }
}

/// The extension of a file name: what stands behind its last dot, unless the name
/// has none or begins with its only one.
pub open spec fn extension(name: Seq<u8>) -> Option<Seq<u8>> {
    let at = after_last(name, 46u8);
    if at <= 1 {
        None
    } else {
        Some(name.skip(at))
    }
}

/// The ASCII lower case of a byte.
pub open spec fn lower(b: u8) -> u8 {
    if 65 <= b <= 90 {
        (b + 32) as u8
    } else {
        b
    }
}

/// Whether an extension, in whatever case, is that of a dynamic library: `so`,
/// `dylib` or `dll`.
pub open spec fn is_library_extension(e: Seq<u8>) -> bool {
    let l = e.map_values(|b: u8| lower(b));
    ||| l == seq![115u8, 111]
    ||| l == seq![100u8, 121, 108, 105, 98]
    ||| l == seq![100u8, 108, 108]
}

/// Whether a path looks like a dynamic library.
pub open spec fn names_library(path: Seq<u8>) -> bool {
    match file_name(path) {
        Some(name) => match extension(name) {
            Some(e) => is_library_extension(e),
            None => false,
        },
        None => false,
    }
}

fn find_after_last(bytes: &[u8], from: usize, to: usize, c: u8) -> (r: usize)
    requires
        from <= to <= bytes@.len(),
    ensures
        from <= r <= to,
        r - from == after_last(bytes@.subrange(from as int, to as int), c),
{
    let mut i: usize = to;
    while i > from
        invariant
            from <= i <= to <= bytes@.len(),
            after_last(bytes@.subrange(from as int, to as int), c) == after_last(
                bytes@.subrange(from as int, i as int),
                c,
            ),
        decreases i,
    {
        assert(bytes@.subrange(from as int, i as int).drop_last() =~= bytes@.subrange(
            from as int,
            i - 1,
        ));
        if bytes[i - 1] == c {
            return i;
        }
        i = i - 1;
    }
    i
}

fn lower_byte(b: u8) -> (r: u8)
    ensures
        r == lower(b),
{
    if 65 <= b && b <= 90 {
        b + 32
    } else {
        b
    }
}

fn spells(bytes: &[u8], from: usize, to: usize, word: &Vec<u8>) -> (r: bool)
    requires
        from <= to <= bytes@.len(),
    ensures
        r == (bytes@.subrange(from as int, to as int).map_values(|b: u8| lower(b)) == word@),
{
    let ghost l = bytes@.subrange(from as int, to as int).map_values(|b: u8| lower(b));
    if to - from != word.len() {
        assert(l.len() != word@.len());
        return false;
    }
    let mut i: usize = 0;
    while i < word.len()
        invariant
            i <= word@.len(),
            from <= to <= bytes@.len(),
            to - from == word@.len(),
            l == bytes@.subrange(from as int, to as int).map_values(|b: u8| lower(b)),
            forall|j: int| 0 <= j < i ==> l[j] == word@[j],
        decreases word@.len() - i,
    {
        assert(l[i as int] == lower(bytes@[from + i]));
        if lower_byte(bytes[from + i]) != word[i] {
            return false;
        }
        i = i + 1;
    }
    assert(l =~= word@);
    true
}

/// Whether a path looks like a dynamic library by its extension.
pub fn is_plugin_library(path: &[u8]) -> (r: bool)
    ensures
        r == names_library(path@),
{
    let mut to: usize = path.len();
    assert(path@.subrange(0, to as int) =~= path@);
    loop
        invariant
            to <= path@.len(),
            file_name(path@) == file_name(path@.subrange(0, to as int)),
        decreases to,
    {
        let at = find_after_last(path, 0, to, 47);
        let ghost here = path@.subrange(0, to as int);
        let ghost name = here.skip(at as int);
        assert(name =~= path@.subrange(at as int, to as int));
        let dot = to - at == 1 && path[at] == 46;
        let dots = to - at == 2 && path[at] == 46 && path[at + 1] == 46;
        proof {
            if dot {
                assert(name =~= seq![46u8]);
            }
            if name == seq![46u8] {
                assert(name[0] == path@[at as int]);
            }
            if dots {
                assert(name =~= seq![46u8, 46u8]);
            }
            if name == seq![46u8, 46u8] {
                assert(name[0] == path@[at as int] && name[1] == path@[at + 1]);
            }
        }
        if at == to || dot {
            if at == 0 {
                return false;
            }
            assert(here.take(at - 1) =~= path@.subrange(0, at - 1));
            to = at - 1;
        } else if dots {
            return false;
        } else {
            let behind = find_after_last(path, at, to, 46);
            if behind - at <= 1 {
                return false;
            }
            assert(name.skip(behind - at) =~= path@.subrange(behind as int, to as int));
            let so: Vec<u8> = vec![115, 111];
            let dylib: Vec<u8> = vec![100, 121, 108, 105, 98];
            let dll: Vec<u8> = vec![100, 108, 108];
            assert(so@ =~= seq![115u8, 111]);
            assert(dylib@ =~= seq![100u8, 121, 108, 105, 98]);
            assert(dll@ =~= seq![100u8, 108, 108]);
            return spells(path, behind, to, &so) || spells(path, behind, to, &dylib) || spells(
                path,
                behind,
                to,
                &dll,
            );
        }
    }
}

/// Where a worker's boot stands.
#[derive(Clone, Copy, PartialEq, Eq, Structural, Debug)]
pub enum BootStage {
    /// The loader is opened.
    Open,
    /// The worker service is published.
    Provide,
    /// Signal handlers are installed.
    Signals,
    /// The supervisor's pipe is watched.
    Supervisor,
    /// The config file is watched.
    Config,
    /// The plugin directories are watched.
    Libraries,
    /// The loader is asked for a startup issue.
    Startup,
    /// The loader's entries are counted.
    Count,
    /// The worker works until something ends it.
    Parked,
    /// The worker exits with this code.
    Exit(i32),
}

/// How the work of a stage ended.
pub enum BootAnswer {
    /// It is done.
    Done,
    /// It failed with this text.
    Failed(String),
    /// It found this text.
    Found(String),
}

/// How the work of a stage ended, as a mathematical value.
pub enum BootAnswerView {
    Done,
    Failed(Seq<char>),
    Found(Seq<char>),
}

impl View for BootAnswer {
    type V = BootAnswerView;

    open spec fn view(&self) -> BootAnswerView {
        match self {
            BootAnswer::Done => BootAnswerView::Done,
            BootAnswer::Failed(text) => BootAnswerView::Failed(text@),
            BootAnswer::Found(text) => BootAnswerView::Found(text@),
        }
    }
}

/// The boot of one worker.
pub struct WorkerBoot {
    config: String,
    dirs: Vec<String>,
    supervised: bool,
    stage: BootStage,
}

/// A boot as a mathematical value.
#[verifier::ext_equal]
pub struct BootView {
    /// The config path, as it is displayed.
    pub config: Seq<char>,
    /// The plugin directories, as they are displayed.
    pub dirs: Seq<Seq<char>>,
    /// Whether a daemon supervises the worker.
    pub supervised: bool,
    pub stage: BootStage,
}

impl View for WorkerBoot {
    type V = BootView;

    closed spec fn view(&self) -> BootView {
        BootView {
            config: self.config@,
            dirs: views(self.dirs@),
            supervised: self.supervised,
            stage: self.stage,
        }
    }
}

/// Texts with `, ` between them.
pub open spec fn listed(texts: Seq<Seq<char>>) -> Seq<char>
    decreases texts.len(),
{
    if texts.len() == 0 {
        Seq::empty()
    } else if texts.len() == 1 {
        texts[0]
    } else {
        listed(texts.drop_last()) + ", "@ + texts.last()
    }
}

impl BootView {
    /// The stage after this one. A loader that does not open ends the boot;
    /// nothing else does.
    pub open spec fn next(self, answer: BootAnswerView) -> BootStage {
        match self.stage {
            BootStage::Open => match answer {
                BootAnswerView::Failed(_) => BootStage::Exit(EXIT_BOOT),
                _ => BootStage::Provide,
            },
            BootStage::Provide => BootStage::Signals,
            BootStage::Signals => if self.supervised {
                BootStage::Supervisor
            } else {
                BootStage::Config
            },
            BootStage::Supervisor => BootStage::Config,
            BootStage::Config => if self.dirs.len() > 0 {
                BootStage::Libraries
            } else {
                BootStage::Startup
            },
            BootStage::Libraries => BootStage::Startup,
            BootStage::Startup => BootStage::Count,
            BootStage::Count => BootStage::Parked,
            BootStage::Parked => BootStage::Parked,
            BootStage::Exit(code) => BootStage::Exit(code),
        }
    }

    /// The line the worker prints for how a stage ended, if it prints one.
    pub open spec fn report(self, answer: BootAnswerView) -> Option<Seq<char>> {
        match (self.stage, answer) {
            (BootStage::Open, BootAnswerView::Failed(e)) => Some(
                "cordis: failed to start from "@ + self.config + ": "@ + e,
            ),
            (BootStage::Provide, BootAnswerView::Failed(e)) => Some(
                "cordis: could not expose the worker service: "@ + e,
            ),
            (BootStage::Signals, BootAnswerView::Failed(_)) => Some(
                "cordis: could not install signal handlers"@,
            ),
            (BootStage::Supervisor, BootAnswerView::Failed(_)) => Some(
                "cordis: could not watch the supervisor pipe"@,
            ),
            (BootStage::Config, BootAnswerView::Failed(e)) => Some(
                "cordis: config hot reload disabled ("@ + e
                    + "); restart manually to apply changes"@,
            ),
            (BootStage::Libraries, BootAnswerView::Failed(e)) => Some(
                "cordis: plugin library watching disabled ("@ + e
                    + "); restart manually to apply changes"@,
            ),
            (BootStage::Libraries, _) => Some(
                "cordis: dynamic plugins from "@ + listed(self.dirs)
                    + " (library changes hot-restart the worker)"@,
            ),
            (BootStage::Startup, BootAnswerView::Found(e)) => Some("cordis: startup issue: "@ + e),
            (BootStage::Count, BootAnswerView::Found(n)) => Some(
                "cordis: worker ready ("@ + n + " entries, config: "@ + self.config + ")"@,
            ),
            _ => None,
        }
    }
}

fn list(texts: &Vec<String>) -> (r: String)
    ensures
        r@ == listed(views(texts@)),
{
    let ghost rows = views(texts@);
    if texts.len() == 0 {
        let empty = String::new();
        assert(empty@ =~= Seq::<char>::empty());
        return empty;
    }
    let mut out = texts[0].clone();
    let mut i: usize = 1;
    assert(rows.take(1)[0] == out@);
    while i < texts.len()
        invariant
            1 <= i <= texts@.len(),
            rows == views(texts@),
            out@ == listed(rows.take(i as int)),
        decreases texts@.len() - i,
    {
        proof {
            assert(rows.take(i + 1).drop_last() =~= rows.take(i as int));
            assert(rows.take(i + 1).last() == texts@[i as int]@);
        }
        out = join3(out.as_str(), ", ", texts[i].as_str());
        i = i + 1;
    }
    assert(rows.take(i as int) =~= rows);
    out
}

impl WorkerBoot {
    /// The boot of a worker, at its first stage.
    pub fn new(config: String, dirs: Vec<String>, supervised: bool) -> (r: WorkerBoot)
        ensures
            r@ == (BootView {
                config: config@,
                dirs: views(dirs@),
                supervised,
                stage: BootStage::Open,
            }),
    {
        WorkerBoot { config, dirs, supervised, stage: BootStage::Open }
    }

    /// The stage whose work comes next.
    pub fn stage(&self) -> (r: BootStage)
        ensures
            r == self@.stage,
    {
        self.stage
    }

    fn line(&self, answer: &BootAnswer) -> (r: Option<String>)
        ensures
            match self@.report(answer@) {
                Some(text) => r matches Some(s) && s@ == text,
                None => r is None,
            },
    {
        match (self.stage, answer) {
            (BootStage::Open, BootAnswer::Failed(e)) => Some(
                join4("cordis: failed to start from ", self.config.as_str(), ": ", e.as_str()),
            ),
            (BootStage::Provide, BootAnswer::Failed(e)) => Some(
                join2("cordis: could not expose the worker service: ", e.as_str()),
            ),
            (BootStage::Signals, BootAnswer::Failed(_)) => Some(
                "cordis: could not install signal handlers".to_owned(),
            ),
            (BootStage::Supervisor, BootAnswer::Failed(_)) => Some(
                "cordis: could not watch the supervisor pipe".to_owned(),
            ),
            (BootStage::Config, BootAnswer::Failed(e)) => Some(
                join3(
                    "cordis: config hot reload disabled (",
                    e.as_str(),
                    "); restart manually to apply changes",
                ),
            ),
            (BootStage::Libraries, BootAnswer::Failed(e)) => Some(
                join3(
                    "cordis: plugin library watching disabled (",
                    e.as_str(),
                    "); restart manually to apply changes",
                ),
            ),
            (BootStage::Libraries, _) => {
                let dirs = list(&self.dirs);
                Some(
                    join3(
                        "cordis: dynamic plugins from ",
                        dirs.as_str(),
                        " (library changes hot-restart the worker)",
                    ),
                )
            },
            (BootStage::Startup, BootAnswer::Found(e)) => Some(
                join2("cordis: startup issue: ", e.as_str()),
            ),
            (BootStage::Count, BootAnswer::Found(n)) => Some(
                join5(
                    "cordis: worker ready (",
                    n.as_str(),
                    " entries, config: ",
                    self.config.as_str(),
                    ")",
                ),
            ),
            _ => None,
        }
    }

    /// Takes how the work of the current stage ended; goes to the next stage and
    /// says what to print.
    pub fn step(&mut self, answer: BootAnswer) -> (r: Option<String>)
        ensures
            final(self)@ == (BootView { stage: old(self)@.next(answer@), ..old(self)@ }),
            match old(self)@.report(answer@) {
                Some(text) => r matches Some(s) && s@ == text,
                None => r is None,
            },
    {
        let report = self.line(&answer);
        let failed = match answer {
            BootAnswer::Failed(_) => true,
            _ => false,
        };
        let has_dirs = self.dirs.len() > 0;
        self.stage = match self.stage {
            BootStage::Open => if failed {
                BootStage::Exit(EXIT_BOOT)
            } else {
                BootStage::Provide
            },
            BootStage::Provide => BootStage::Signals,
            BootStage::Signals => if self.supervised {
                BootStage::Supervisor
            } else {
                BootStage::Config
            },
            BootStage::Supervisor => BootStage::Config,
            BootStage::Config => if has_dirs {
                BootStage::Libraries
            } else {
                BootStage::Startup
            },
            BootStage::Libraries => BootStage::Startup,
            BootStage::Startup => BootStage::Count,
            BootStage::Count => BootStage::Parked,
            BootStage::Parked => BootStage::Parked,
            BootStage::Exit(code) => BootStage::Exit(code),
        };
        report
    }
}

/// A worker whose loader does not open exits with the boot code; every other
/// trouble is reported and the boot goes on.
pub proof fn law_only_the_loader_can_fail_a_boot(boot: BootView, answer: BootAnswerView)
    requires
        !(boot.stage is Exit),
    ensures
        boot.next(answer) is Exit == (boot.stage is Open && answer is Failed),
        boot.next(answer) matches BootStage::Exit(code) ==> code == EXIT_BOOT,
{
}

/// Only what asks for a fresh worker ends with the restart code; everything else
/// quits.
pub proof fn law_only_restarts_ask_for_a_fresh_worker(cause: ExitCause)
    ensures
        cause.spec_code() == EXIT_RESTART || cause.spec_code() == EXIT_QUIT,
        cause.spec_code() == EXIT_RESTART <==> cause is Restart || cause is LibraryChanged,
{
}

/// A library change restarts the worker at the next quiet window, whatever happens
/// in between.
pub proof fn law_a_library_change_is_not_forgotten(watch: LibraryWatch, event: LibraryEvent)
    requires
        watch.pending,
        !(event is Quiet || event is Disconnected),
    ensures
        watch.spec_step(event).0.pending,
        watch.spec_step(event).1 == LibraryAction::Watch,
        watch.spec_step(event).0.spec_step(LibraryEvent::Quiet).1 == LibraryAction::Restart,
{
}

} // verus!
