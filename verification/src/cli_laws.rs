//! What the command line and the supervisor promise: how arguments are read, what
//! a worker's exit comes to, and how a watch of it goes.

use crate::cli::{
    command_line, kind_of, parsed, spec_daemon_exit_code, spec_supervisor_action, word_help,
    word_plugin_dir, word_plugin_dir_inline, word_run, word_worker, ArgErrorView, ArgKind, ArgsView,
    OptionsView, Supervisor, SupervisorAction, SupervisorEvent, WatchAction, WorkerStatus,
    WorkerWatch,
};
use vstd::prelude::*;

verus! {

/// Whenever the watched worker has exited, the watch ends with exactly the worker's
/// own exit code, whether or not shutdown was requested; and it ends with a code only
/// where the worker exited with it.
pub proof fn law_a_watch_ends_with_the_workers_own_code(
    watch: WorkerWatch,
    status: WorkerStatus,
    code: Option<i32>,
    shutdown: bool,
    waited: u128,
)
    ensures
        watch.spec_poll(WorkerStatus::Exited(code), shutdown, waited).1 == WatchAction::Done(code),
        watch.spec_poll(status, shutdown, waited).1 is Done <==> !(status is Running),
        watch.spec_poll(status, shutdown, waited).1 matches WatchAction::Done(Some(c)) ==> status
            == WorkerStatus::Exited(Some(c)),
{
}

/// One poll of a worker that runs on.
pub struct Poll {
    /// Whether shutdown was requested of the daemon.
    pub shutdown: bool,
    /// How long ago shutdown was requested of the worker, in nanoseconds.
    pub waited: u128,
}

impl WorkerWatch {
    /// The watch after a run of polls of a worker that runs on.
    pub open spec fn watched(self, polls: Seq<Poll>) -> WorkerWatch
        decreases polls.len(),
    {
        if polls.len() == 0 {
            self
        } else {
            self.watched(polls.drop_last()).spec_poll(
                WorkerStatus::Running,
                polls.last().shutdown,
                polls.last().waited,
            ).0
        }
    }
}

/// Over a whole watch of a worker that runs on: it is left alone while no shutdown is
/// requested; the first request is forwarded, once; and it is killed only after a
/// request was forwarded, once the grace period of ten seconds is over, and then for
/// certain.
pub proof fn law_a_shutdown_is_forwarded_once_and_then_enforced(
    fresh: WorkerWatch,
    polls: Seq<Poll>,
    shutdown: bool,
    waited: u128,
)
    requires
        !fresh.requested,
    ensures
        ({
            let asked = exists|i: int| 0 <= i < polls.len() && (#[trigger] polls[i]).shutdown;
            let action = fresh.watched(polls).spec_poll(WorkerStatus::Running, shutdown, waited).1;
            &&& fresh.watched(polls).requested == asked
            &&& action is RequestShutdown <==> shutdown && !asked
            &&& action is Kill <==> shutdown && asked && waited >= 10_000_000_000
            &&& !shutdown ==> action is Sleep
        }),
    decreases polls.len(),
{
    if polls.len() > 0 {
        let shorter = polls.drop_last();
        let n = polls.len() - 1;
        law_a_shutdown_is_forwarded_once_and_then_enforced(fresh, shorter, shutdown, waited);
        if exists|i: int| 0 <= i < shorter.len() && (#[trigger] shorter[i]).shutdown {
            let i = choose|i: int| 0 <= i < shorter.len() && (#[trigger] shorter[i]).shutdown;
            assert(polls[i].shutdown);
        }
        if exists|i: int| 0 <= i < polls.len() && (#[trigger] polls[i]).shutdown {
            let i = choose|i: int| 0 <= i < polls.len() && (#[trigger] polls[i]).shutdown;
            if i < n {
                assert(shorter[i].shutdown);
            }
        }
        assert(polls[n] == polls.last());
    }
}

/// What the exit of a watched worker comes to: a worker that asks for a hot restart
/// with code 51 while no shutdown is requested is followed by another; in every other
/// case the daemon exits: with 0 after a shutdown request, a quit (52) or a restart
/// code, with 1 for a worker that never booted (53) or that has no code, and
/// otherwise with the worker's own code.
pub proof fn law_a_workers_exit_decides_what_the_daemon_does(
    supervisor: Supervisor,
    watch: WorkerWatch,
    worker: Option<i32>,
    shutdown: bool,
    waited: u128,
    ran_for: u128,
)
    ensures
        match watch.spec_poll(WorkerStatus::Exited(worker), shutdown, waited).1 {
            WatchAction::Done(code) => {
                let next = supervisor.spec_step(
                    SupervisorEvent::Exited { code, shutdown, ran_for },
                ).1;
                if worker == Some(51i32) && !shutdown {
                    next is Sleep
                } else if shutdown || worker == Some(52i32) {
                    next == SupervisorAction::Exit(0)
                } else if worker == Some(53i32) || worker is None {
                    next == SupervisorAction::Exit(1)
                } else {
                    worker matches Some(own) && next == SupervisorAction::Exit(own)
                }
            },
            _ => false,
        },
{
}

/// The daemon's exit code: 0 once shutdown was requested; of a worker that quit or
/// asked for a restart 0, of one that never booted or has no code 1, and of any other
/// its own.
pub proof fn law_the_daemon_exits_as_its_worker_did(worker: i32, code: Option<i32>)
    ensures
        spec_daemon_exit_code(code, true) == 0,
        spec_daemon_exit_code(None, false) == 1,
        spec_daemon_exit_code(Some(51), false) == 0,
        spec_daemon_exit_code(Some(52), false) == 0,
        spec_daemon_exit_code(Some(53), false) == 1,
        worker != 51 && worker != 52 && worker != 53 ==> spec_daemon_exit_code(Some(worker), false)
            == worker,
        spec_supervisor_action(code, true) is Stop,
        spec_supervisor_action(code, false) is Restart <==> code == Some(51i32),
{
}

/// The delay before a respawn: a tenth of a second at first and after a worker that
/// ran for ten seconds; otherwise twice the last one, at most five seconds. It is
/// waited out in full, unless a shutdown request ends it.
pub proof fn law_a_respawn_waits_out_its_delay(
    supervisor: Supervisor,
    ran_for: u128,
    elapsed: u128,
    shutdown: bool,
)
    ensures
        ({
            let after = supervisor.spec_step(
                SupervisorEvent::Exited { code: Some(51), shutdown: false, ran_for },
            ).0;
            let delay = match supervisor.backoff {
                None => 100_000_000int,
                Some(last) => if ran_for >= 10_000_000_000 {
                    100_000_000int
                } else if 2 * last <= 5_000_000_000 {
                    2 * last
                } else {
                    5_000_000_000int
                },
            };
            let next = after.spec_step(SupervisorEvent::Waited { elapsed, shutdown }).1;
            &&& after.backoff matches Some(d) && d == delay
            &&& shutdown ==> next == SupervisorAction::Exit(0)
            &&& !shutdown && elapsed >= delay ==> next is Spawn
            &&& !shutdown && elapsed < delay ==> (next matches SupervisorAction::Sleep(slice)
                && 0 < slice <= 50_000_000 && elapsed + slice <= delay)
        }),
{
}

/// The head of the loop starts a worker unless shutdown was requested; one that
/// cannot be started ends the daemon with 1.
pub proof fn law_a_supervisor_starts_with_a_worker(supervisor: Supervisor, shutdown: bool)
    ensures
        supervisor.spec_step(SupervisorEvent::Begin { shutdown }).1 == (if shutdown {
            SupervisorAction::Exit(0)
        } else {
            SupervisorAction::Spawn
        }),
        supervisor.spec_step(SupervisorEvent::SpawnFailed).1 == SupervisorAction::Exit(1),
{
}

/// The bytes of an ASCII word.
pub open spec fn spelled(word: Seq<char>) -> Seq<u8> {
    word.map_values(|c: char| c as u8)
}

/// The words of the command line are `run`, `--worker`, `--help`, `--plugin-dir` and
/// `--plugin-dir=`.
pub proof fn law_the_words_are_spelled_out()
    ensures
        word_run() == spelled("run"@),
        word_worker() == spelled("--worker"@),
        word_help() == spelled("--help"@),
        word_plugin_dir() == spelled("--plugin-dir"@),
        word_plugin_dir_inline() == spelled("--plugin-dir="@),
{
    reveal_strlit("run");
    reveal_strlit("--worker");
    reveal_strlit("--help");
    reveal_strlit("--plugin-dir");
    reveal_strlit("--plugin-dir=");
    assert(word_run() =~= spelled("run"@));
    assert(word_worker() =~= spelled("--worker"@));
    assert(word_help() =~= spelled("--help"@));
    assert(word_plugin_dir() =~= spelled("--plugin-dir"@));
    assert(word_plugin_dir_inline() =~= spelled("--plugin-dir="@));
}

/// Without arguments the usage is shown; another command than `run` is refused.
pub proof fn law_the_command_is_run(args: Seq<Seq<u8>>)
    ensures
        args.len() == 0 ==> command_line(args) == Err::<OptionsView, ArgErrorView>(
            ArgErrorView::Usage,
        ),
        args.len() > 0 && args[0] != spelled("run"@) ==> command_line(args) == Err::<
            OptionsView,
            ArgErrorView,
        >(ArgErrorView::UnknownCommand(args[0])),
        command_line(seq![spelled("run"@)]) == Err::<OptionsView, ArgErrorView>(
            ArgErrorView::MissingConfig,
        ),
{
    law_the_words_are_spelled_out();
}

proof fn lemma_read_on(args: Seq<Seq<u8>>, more: Seq<Seq<u8>>, i: int, so_far: ArgsView)
    requires
        0 <= i <= args.len(),
    ensures
        parsed(args, i, so_far) matches Ok(o) ==> parsed(args + more, i, so_far) == parsed(
            args + more,
            args.len() as int,
            ArgsView { config: Some(o.config), plugin_dirs: o.plugin_dirs, worker: o.worker },
        ),
        parsed(args, i, so_far) matches Err(e) && !(e is MissingConfig) && !(e is MissingDirectory)
            ==> parsed(args + more, i, so_far) == parsed(args, i, so_far),
    decreases args.len() - i,
{
    let all = args + more;
    if i < args.len() {
        let arg = args[i];
        assert(all[i] == arg);
        match kind_of(arg) {
            ArgKind::Worker => lemma_read_on(
                args,
                more,
                i + 1,
                ArgsView { worker: true, ..so_far },
            ),
            ArgKind::PluginDir => if i + 1 < args.len() {
                assert(all[i + 1] == args[i + 1]);
                lemma_read_on(
                    args,
                    more,
                    i + 2,
                    ArgsView { plugin_dirs: so_far.plugin_dirs.push(args[i + 1]), ..so_far },
                );
            },
            ArgKind::PluginDirInline => if arg.len() > 13 {
                lemma_read_on(
                    args,
                    more,
                    i + 1,
                    ArgsView { plugin_dirs: so_far.plugin_dirs.push(arg.skip(13)), ..so_far },
                );
            },
            ArgKind::Positional => if so_far.config is None {
                lemma_read_on(args, more, i + 1, ArgsView { config: Some(arg), ..so_far });
            },
            _ => {},
        }
    } else {
        match so_far.config {
            Some(config) => {
                assert(so_far == (ArgsView {
                    config: Some(config),
                    plugin_dirs: so_far.plugin_dirs,
                    worker: so_far.worker,
                }));
            },
            None => {},
        }
    }
}

proof fn lemma_accepted_reads_on(args: Seq<Seq<u8>>, more: Seq<Seq<u8>>)
    requires
        command_line(args) is Ok,
    ensures
        command_line(args + more) == parsed(
            args + more,
            args.len() as int,
            ArgsView {
                config: Some(command_line(args)->Ok_0.config),
                plugin_dirs: command_line(args)->Ok_0.plugin_dirs,
                worker: command_line(args)->Ok_0.worker,
            },
        ),
{
    assert((args + more)[0] == args[0]);
    lemma_read_on(
        args,
        more,
        1,
        ArgsView { config: None, plugin_dirs: Seq::empty(), worker: false },
    );
}

/// An accepted command line goes on argument by argument: `--worker` and `-w` make it
/// a worker's; `--plugin-dir` with a directory, and `--plugin-dir=` with one behind,
/// add that directory as the last; the rest is kept.
pub proof fn law_flags_may_follow(args: Seq<Seq<u8>>, options: OptionsView, dir: Seq<u8>)
    requires
        command_line(args) == Ok::<OptionsView, ArgErrorView>(options),
    ensures
        command_line(args.push(spelled("--worker"@))) == Ok::<OptionsView, ArgErrorView>(
            OptionsView { worker: true, ..options },
        ),
        command_line(args.push(spelled("-w"@))) == Ok::<OptionsView, ArgErrorView>(
            OptionsView { worker: true, ..options },
        ),
        command_line(args + seq![spelled("--plugin-dir"@), dir]) == Ok::<
            OptionsView,
            ArgErrorView,
        >(OptionsView { plugin_dirs: options.plugin_dirs.push(dir), ..options }),
        dir.len() > 0 ==> command_line(args.push(spelled("--plugin-dir="@) + dir)) == Ok::<
            OptionsView,
            ArgErrorView,
        >(OptionsView { plugin_dirs: options.plugin_dirs.push(dir), ..options }),
{
    law_the_words_are_spelled_out();
    lemma_kinds(dir);
    let n = args.len() as int;
    let so_far = ArgsView {
        config: Some(options.config),
        plugin_dirs: options.plugin_dirs,
        worker: options.worker,
    };
    let worker = seq![spelled("--worker"@)];
    lemma_accepted_reads_on(args, worker);
    assert(args.push(spelled("--worker"@)) =~= args + worker);
    assert((args + worker)[n] == worker[0]);
    let flagged = ArgsView { worker: true, ..so_far };
    assert(parsed(args + worker, n, so_far) == parsed(args + worker, n + 1, flagged));
    let short = seq![spelled("-w"@)];
    lemma_accepted_reads_on(args, short);
    assert(args.push(spelled("-w"@)) =~= args + short);
    assert((args + short)[n] == short[0]);
    assert(parsed(args + short, n, so_far) == parsed(args + short, n + 1, flagged));
    let added = ArgsView { plugin_dirs: options.plugin_dirs.push(dir), ..so_far };
    let two = seq![spelled("--plugin-dir"@), dir];
    lemma_accepted_reads_on(args, two);
    assert((args + two)[n] == two[0]);
    assert((args + two)[n + 1] == dir);
    assert(parsed(args + two, n, so_far) == parsed(args + two, n + 2, added));
    if dir.len() > 0 {
        let word = spelled("--plugin-dir="@) + dir;
        let one = seq![word];
        lemma_accepted_reads_on(args, one);
        assert(args.push(word) =~= args + one);
        assert((args + one)[n] == word);
        assert(word.skip(13) =~= dir);
        assert(parsed(args + one, n, so_far) == parsed(args + one, n + 1, added));
    }
}

proof fn lemma_kinds(dir: Seq<u8>)
    ensures
        kind_of(spelled("--worker"@)) is Worker,
        kind_of(spelled("-w"@)) is Worker,
        kind_of(spelled("--help"@)) is Help,
        kind_of(spelled("-h"@)) is Help,
        kind_of(spelled("--plugin-dir"@)) is PluginDir,
        kind_of(spelled("--plugin-dir="@) + dir) is PluginDirInline,
        spelled("--plugin-dir="@).len() == 13,
{
    law_the_words_are_spelled_out();
    reveal_strlit("-w");
    reveal_strlit("-h");
    assert(spelled("-w"@) =~= seq![45u8, 119]);
    assert(spelled("-h"@) =~= seq![45u8, 104]);
    let h = seq![45u8, 104];
    let w = seq![45u8, 119];
    assert(h[1] != w[1]);
    assert(h.len() != word_worker().len());
    assert(word_help().len() == 6 && word_worker().len() == 8 && word_plugin_dir().len() == 12);
    let inline = word_plugin_dir_inline() + dir;
    assert(inline.take(13) =~= word_plugin_dir_inline());
}

/// An argument behind an accepted command line that is no known flag is refused: one
/// that begins with a dash as an unknown flag, any other as an extra argument; a
/// `--plugin-dir` without a directory is refused, and help is shown where it is asked
/// for.
pub proof fn law_what_does_not_fit_is_refused(
    args: Seq<Seq<u8>>,
    options: OptionsView,
    arg: Seq<u8>,
)
    requires
        command_line(args) == Ok::<OptionsView, ArgErrorView>(options),
    ensures
        command_line(args.push(spelled("--help"@))) == Err::<OptionsView, ArgErrorView>(
            ArgErrorView::Usage,
        ),
        command_line(args.push(spelled("-h"@))) == Err::<OptionsView, ArgErrorView>(
            ArgErrorView::Usage,
        ),
        command_line(args.push(spelled("--plugin-dir"@))) == Err::<OptionsView, ArgErrorView>(
            ArgErrorView::MissingDirectory,
        ),
        command_line(args.push(spelled("--plugin-dir="@))) == Err::<OptionsView, ArgErrorView>(
            ArgErrorView::MissingDirectory,
        ),
        arg.len() == 0 || arg[0] != 45u8 ==> command_line(args.push(arg)) == Err::<
            OptionsView,
            ArgErrorView,
        >(ArgErrorView::ExtraArgument(arg)),
        is_unknown_flag(arg) ==> command_line(args.push(arg)) == Err::<OptionsView, ArgErrorView>(
            ArgErrorView::UnknownFlag(arg),
        ),
{
    law_the_words_are_spelled_out();
    let none = Seq::<u8>::empty();
    lemma_kinds(none);
    assert(spelled("--plugin-dir="@) + none =~= spelled("--plugin-dir="@));
    lemma_one_more(args, options, spelled("--help"@));
    lemma_one_more(args, options, spelled("-h"@));
    lemma_one_more(args, options, spelled("--plugin-dir"@));
    lemma_one_more(args, options, spelled("--plugin-dir="@));
    lemma_one_more(args, options, arg);
    lemma_other_kinds(arg);
}

/// Whether an argument begins with a dash and is none of the flags.
pub open spec fn is_unknown_flag(arg: Seq<u8>) -> bool {
    &&& arg.len() > 0 && arg[0] == 45u8
    &&& arg != spelled("--worker"@) && arg != spelled("-w"@)
    &&& arg != spelled("--help"@) && arg != spelled("-h"@)
    &&& arg != spelled("--plugin-dir"@)
    &&& !(arg.len() >= 13 && arg.take(13) == spelled("--plugin-dir="@))
}

proof fn lemma_other_kinds(arg: Seq<u8>)
    ensures
        arg.len() == 0 || arg[0] != 45u8 ==> kind_of(arg) is Positional,
        is_unknown_flag(arg) ==> kind_of(arg) is UnknownFlag,
{
    law_the_words_are_spelled_out();
    reveal_strlit("-w");
    reveal_strlit("-h");
    assert(spelled("-w"@) =~= seq![45u8, 119]);
    assert(spelled("-h"@) =~= seq![45u8, 104]);
    assert(word_worker()[0] == 45u8 && word_help()[0] == 45u8 && word_plugin_dir()[0] == 45u8);
    assert(seq![45u8, 119][0] == 45u8 && seq![45u8, 104][0] == 45u8);
    assert(word_plugin_dir_inline()[0] == 45u8);
    if arg.len() >= 13 {
        assert(arg.take(13)[0] == arg[0]);
    }
}

proof fn lemma_one_more(args: Seq<Seq<u8>>, options: OptionsView, arg: Seq<u8>)
    requires
        command_line(args) == Ok::<OptionsView, ArgErrorView>(options),
    ensures
        command_line(args.push(arg)) == parsed(
            args.push(arg),
            args.len() as int,
            ArgsView {
                config: Some(options.config),
                plugin_dirs: options.plugin_dirs,
                worker: options.worker,
            },
        ),
        args.push(arg)[args.len() as int] == arg,
{
    lemma_accepted_reads_on(args, seq![arg]);
    assert(args.push(arg) =~= args + seq![arg]);
}

/// A command line that lacks nothing but its config is completed by it: the config is
/// kept byte for byte, and nothing else changes.
pub proof fn law_a_config_completes_the_command_line(
    args: Seq<Seq<u8>>,
    config: Seq<u8>,
)
    requires
        config.len() == 0 || config[0] != 45u8,
        args.len() > 0,
        args[0] == spelled("run"@),
    ensures
        command_line(args) == Err::<OptionsView, ArgErrorView>(ArgErrorView::MissingConfig)
            ==> (command_line(args.push(config)) matches Ok(options) && options.config == config),
        command_line(seq![spelled("run"@), config]) == Ok::<OptionsView, ArgErrorView>(
            OptionsView { config, plugin_dirs: Seq::empty(), worker: false },
        ),
{
    law_the_words_are_spelled_out();
    lemma_other_kinds(config);
    let start = ArgsView { config: None, plugin_dirs: Seq::empty(), worker: false };
    lemma_completed(args, 1, start, config);
    let two = seq![spelled("run"@), config];
    assert(two[1] == config);
    let named = ArgsView { config: Some(config), ..start };
    assert(parsed(two, 1, start) == parsed(two, 2, named));
}

proof fn lemma_completed(args: Seq<Seq<u8>>, i: int, so_far: ArgsView, config: Seq<u8>)
    requires
        0 <= i <= args.len(),
        kind_of(config) is Positional,
        so_far.config is None,
    ensures
        parsed(args, i, so_far) == Err::<OptionsView, ArgErrorView>(ArgErrorView::MissingConfig)
            ==> (parsed(args.push(config), i, so_far) matches Ok(options) && options.config
            == config),
    decreases args.len() - i,
{
    let all = args.push(config);
    if i < args.len() {
        let arg = args[i];
        assert(all[i] == arg);
        match kind_of(arg) {
            ArgKind::Worker => lemma_completed(
                args,
                i + 1,
                ArgsView { worker: true, ..so_far },
                config,
            ),
            ArgKind::PluginDir => if i + 1 < args.len() {
                assert(all[i + 1] == args[i + 1]);
                lemma_completed(
                    args,
                    i + 2,
                    ArgsView { plugin_dirs: so_far.plugin_dirs.push(args[i + 1]), ..so_far },
                    config,
                );
            },
            ArgKind::PluginDirInline => if arg.len() > 13 {
                lemma_completed(
                    args,
                    i + 1,
                    ArgsView { plugin_dirs: so_far.plugin_dirs.push(arg.skip(13)), ..so_far },
                    config,
                );
            },
            ArgKind::Positional => lemma_has_config(
                args,
                i + 1,
                ArgsView { config: Some(arg), ..so_far },
            ),
            _ => {},
        }
    } else {
        assert(all[i] == config);
        let named = ArgsView { config: Some(config), ..so_far };
        assert(parsed(all, i, so_far) == parsed(all, i + 1, named));
    }
}

proof fn lemma_has_config(args: Seq<Seq<u8>>, i: int, so_far: ArgsView)
    requires
        0 <= i,
        so_far.config is Some,
    ensures
        parsed(args, i, so_far) != Err::<OptionsView, ArgErrorView>(ArgErrorView::MissingConfig),
    decreases args.len() - i,
{
    if i < args.len() {
        let arg = args[i];
        match kind_of(arg) {
            ArgKind::Worker => lemma_has_config(args, i + 1, ArgsView { worker: true, ..so_far }),
            ArgKind::PluginDir => if i + 1 < args.len() {
                lemma_has_config(
                    args,
                    i + 2,
                    ArgsView { plugin_dirs: so_far.plugin_dirs.push(args[i + 1]), ..so_far },
                );
            },
            ArgKind::PluginDirInline => if arg.len() > 13 {
                lemma_has_config(
                    args,
                    i + 1,
                    ArgsView { plugin_dirs: so_far.plugin_dirs.push(arg.skip(13)), ..so_far },
                );
            },
            _ => {},
        }
    }
}

/// The config may stand anywhere behind the command: in front of the flags or behind
/// them, the command line says the same.
pub proof fn law_the_config_may_stand_anywhere(config: Seq<u8>, flags: Seq<Seq<u8>>)
    requires
        config.len() == 0 || config[0] != 45u8,
    ensures
        command_line(seq![spelled("run"@), config] + flags) matches Ok(options) ==> command_line(
            seq![spelled("run"@)] + flags + seq![config],
        ) == Ok::<OptionsView, ArgErrorView>(options),
{
    law_the_words_are_spelled_out();
    lemma_other_kinds(config);
    let start = ArgsView { config: None, plugin_dirs: Seq::empty(), worker: false };
    let front = seq![spelled("run"@), config] + flags;
    assert(front[0] == spelled("run"@) && front[1] == config);
    let named = ArgsView { config: Some(config), ..start };
    assert(parsed(front, 1, start) == parsed(front, 2, named));
    let back = seq![spelled("run"@)] + flags + seq![config];
    assert(back[0] == spelled("run"@));
    lemma_config_behind(config, flags, 0, Seq::empty(), false);
}

proof fn lemma_config_behind(
    config: Seq<u8>,
    flags: Seq<Seq<u8>>,
    j: int,
    dirs: Seq<Seq<u8>>,
    worker: bool,
)
    requires
        0 <= j <= flags.len(),
        kind_of(config) is Positional,
    ensures
        parsed(
            seq![spelled("run"@), config] + flags,
            2 + j,
            ArgsView { config: Some(config), plugin_dirs: dirs, worker },
        ) matches Ok(options) ==> parsed(
            seq![spelled("run"@)] + flags + seq![config],
            1 + j,
            ArgsView { config: None, plugin_dirs: dirs, worker },
        ) == Ok::<OptionsView, ArgErrorView>(options),
    decreases flags.len() - j,
{
    let front = seq![spelled("run"@), config] + flags;
    let back = seq![spelled("run"@)] + flags + seq![config];
    let with = ArgsView { config: Some(config), plugin_dirs: dirs, worker };
    let without = ArgsView { config: None, plugin_dirs: dirs, worker };
    if j < flags.len() {
        let arg = flags[j];
        assert(front[2 + j] == arg);
        assert(back[1 + j] == arg);
        match kind_of(arg) {
            ArgKind::Worker => {
                lemma_config_behind(config, flags, j + 1, dirs, true);
                assert(parsed(front, 2 + j, with) == parsed(
                    front,
                    2 + (j + 1),
                    ArgsView { worker: true, ..with },
                ));
                assert(parsed(back, 1 + j, without) == parsed(
                    back,
                    1 + (j + 1),
                    ArgsView { worker: true, ..without },
                ));
            },
            ArgKind::PluginDir => if j + 1 < flags.len() {
                let dir = flags[j + 1];
                assert(front[2 + j + 1] == dir);
                assert(back[1 + j + 1] == dir);
                lemma_config_behind(config, flags, j + 2, dirs.push(dir), worker);
                assert(parsed(front, 2 + j, with) == parsed(
                    front,
                    2 + (j + 2),
                    ArgsView { plugin_dirs: dirs.push(dir), ..with },
                ));
                assert(parsed(back, 1 + j, without) == parsed(
                    back,
                    1 + (j + 2),
                    ArgsView { plugin_dirs: dirs.push(dir), ..without },
                ));
            },
            ArgKind::PluginDirInline => if arg.len() > 13 {
                let dir = arg.skip(13);
                lemma_config_behind(config, flags, j + 1, dirs.push(dir), worker);
                assert(parsed(front, 2 + j, with) == parsed(
                    front,
                    2 + (j + 1),
                    ArgsView { plugin_dirs: dirs.push(dir), ..with },
                ));
                assert(parsed(back, 1 + j, without) == parsed(
                    back,
                    1 + (j + 1),
                    ArgsView { plugin_dirs: dirs.push(dir), ..without },
                ));
            },
            _ => {},
        }
    } else {
        assert(back[1 + j] == config);
        assert(parsed(back, 1 + j, without) == parsed(back, 2 + j, with));
    }
}

/// A refusal is final: whatever follows, the command line is refused for the same
/// reason. Only a config that is still missing, or a directory, may follow.
pub proof fn law_a_refusal_is_final(args: Seq<Seq<u8>>, more: Seq<Seq<u8>>)
    requires
        args.len() > 0,
    ensures
        command_line(args) matches Err(e) && !(e is MissingConfig) && !(e is MissingDirectory)
            ==> command_line(args + more) == command_line(args),
{
    assert((args + more)[0] == args[0]);
    lemma_read_on(
        args,
        more,
        1,
        ArgsView { config: None, plugin_dirs: Seq::empty(), worker: false },
    );
}

} // verus!
