//! What the worker process promises: the order of its boot, what counts as a plugin
//! library, when a change of one restarts it, and when a bounded wait ends.

use crate::deadline::{watching, WatchdogStep};
use crate::worker::{
    after_last, extension, file_name, is_library_extension, listed, lower, names_library,
    BootAnswerView, BootStage, BootView, ExitCause, LibraryEvent, LibraryWatch,
    PLUGIN_CHANGE_DEBOUNCE,
};
use vstd::prelude::*;

verus! {

/// A watchdog fires exactly if somebody still waits and the deadline passed; it
/// sleeps exactly if somebody still waits and it did not, for what is left, at most
/// fifty milliseconds. A plugin library has to stay unchanged for a quarter second.
pub proof fn law_a_watchdog_fires_at_its_deadline(closed: bool, elapsed: int, timeout: int)
    requires
        0 <= elapsed,
        timeout <= u128::MAX,
    ensures
        watching(closed, elapsed, timeout) is Fire <==> !closed && elapsed >= timeout,
        watching(closed, elapsed, timeout) is Sleep <==> !closed && elapsed < timeout,
        watching(closed, elapsed, timeout) is Stop <==> closed,
        watching(closed, elapsed, timeout) matches WatchdogStep::Sleep(slice) ==> slice == (
        if timeout - elapsed < 50_000_000 {
            timeout - elapsed
        } else {
            50_000_000
        }),
        PLUGIN_CHANGE_DEBOUNCE == 250_000_000,
{
}

impl LibraryWatch {
    /// The watch after a run of events.
    pub open spec fn watched(self, run: Seq<LibraryEvent>) -> LibraryWatch
        decreases run.len(),
    {
        if run.len() == 0 {
            self
        } else {
            self.watched(run.drop_last()).spec_step(run.last()).0
        }
    }
}

/// Whether an event is a change of a plugin library.
pub open spec fn is_change(event: LibraryEvent) -> bool {
    event == (LibraryEvent::Changed { library: true })
}

/// Over a whole run: the worker is restarted exactly at a quiet window after a plugin
/// library changed; a change of other files restarts nothing; and the watch ends
/// exactly when its watcher is gone.
pub proof fn law_a_library_change_restarts_at_a_quiet_window(
    fresh: LibraryWatch,
    run: Seq<LibraryEvent>,
    event: LibraryEvent,
)
    requires
        !fresh.pending,
    ensures
        ({
            let changed = exists|i: int| 0 <= i < run.len() && is_change(#[trigger] run[i]);
            let action = fresh.watched(run).spec_step(event).1;
            &&& fresh.watched(run).pending == changed
            &&& action is Restart <==> event is Quiet && changed
            &&& action is Stop <==> event is Disconnected
        }),
    decreases run.len(),
{
    if run.len() > 0 {
        let shorter = run.drop_last();
        let n = run.len() - 1;
        law_a_library_change_restarts_at_a_quiet_window(fresh, shorter, event);
        if exists|i: int| 0 <= i < shorter.len() && is_change(#[trigger] shorter[i]) {
            let i = choose|i: int| 0 <= i < shorter.len() && is_change(#[trigger] shorter[i]);
            assert(is_change(run[i]));
        }
        if exists|i: int| 0 <= i < run.len() && is_change(#[trigger] run[i]) {
            let i = choose|i: int| 0 <= i < run.len() && is_change(#[trigger] run[i]);
            if i < n {
                assert(is_change(shorter[i]));
            }
        }
        assert(run[n] == run.last());
    }
}

/// A worker ends with 51 to be started anew, and with 52 to quit.
pub proof fn law_exit_causes_have_their_codes(cause: ExitCause)
    ensures
        cause is Restart || cause is LibraryChanged ==> cause.spec_code() == 51,
        cause is Shutdown || cause is Signal || cause is SupervisorGone ==> cause.spec_code() == 52,
{
}

/// Whether bytes hold none of `c`.
pub open spec fn without(s: Seq<u8>, c: u8) -> bool {
    forall|i: int| 0 <= i < s.len() ==> #[trigger] s[i] != c
}

proof fn lemma_after_last(head: Seq<u8>, c: u8, tail: Seq<u8>)
    requires
        without(tail, c),
    ensures
        after_last(head.push(c) + tail, c) == head.len() + 1,
        after_last(tail, c) == 0,
    decreases tail.len(),
{
    let s = head.push(c) + tail;
    if tail.len() > 0 {
        let rest = tail.drop_last();
        assert(without(rest, c)) by {
            assert forall|i: int| 0 <= i < rest.len() implies #[trigger] rest[i] != c by {
                assert(tail[i] != c);
            }
        }
        lemma_after_last(head, c, rest);
        assert(tail[tail.len() - 1] != c);
        assert(s.last() == tail.last());
        assert(s.drop_last() =~= head.push(c) + rest);
    } else {
        assert(s =~= head.push(c));
        assert(s.last() == c);
    }
}

/// A file in whatever directory is a plugin library exactly if the extension behind
/// the last dot of its name is one of a dynamic library; a name without a dot, or
/// with one in front alone, has none.
pub proof fn law_a_library_is_told_by_its_extension(
    directory: Seq<u8>,
    stem: Seq<u8>,
    suffix: Seq<u8>,
)
    requires
        stem.len() > 0,
        suffix.len() > 0,
        without(stem, 47u8) && without(suffix, 47u8) && without(suffix, 46u8),
    ensures
        names_library(directory.push(47u8) + (stem.push(46u8) + suffix)) == is_library_extension(
            suffix,
        ),
        names_library(stem.push(46u8) + suffix) == is_library_extension(suffix),
        !names_library(seq![46u8] + suffix),
        !names_library(suffix),
{
    let name = stem.push(46u8) + suffix;
    assert(without(name, 47u8)) by {
        assert forall|i: int| 0 <= i < name.len() implies #[trigger] name[i] != 47u8 by {
            if i < stem.len() {
                assert(name[i] == stem[i]);
            } else if i > stem.len() {
                assert(name[i] == suffix[i - stem.len() - 1]);
            }
        }
    }
    lemma_named(directory, name);
    lemma_extension(stem, suffix);
    let hidden = seq![46u8] + suffix;
    assert(without(hidden, 47u8)) by {
        assert forall|i: int| 0 <= i < hidden.len() implies #[trigger] hidden[i] != 47u8 by {
            if i > 0 {
                assert(hidden[i] == suffix[i - 1]);
            }
        }
    }
    if hidden != seq![46u8, 46u8] {
        lemma_named(directory, hidden);
    } else {
        assert(hidden[1] == suffix[0]);
    }
    let none = Seq::<u8>::empty();
    assert(none.push(46u8) + suffix =~= hidden);
    lemma_after_last(none, 46u8, suffix);
    assert(suffix != seq![46u8]) by {
        assert(suffix[0] != 46u8);
    }
    assert(suffix != seq![46u8, 46u8]) by {
        assert(suffix[0] != 46u8);
    }
    lemma_named(directory, suffix);
}

proof fn lemma_named(directory: Seq<u8>, name: Seq<u8>)
    requires
        name.len() > 0,
        without(name, 47u8),
        name.len() != 1 || name[0] != 46u8,
        name != seq![46u8, 46u8],
    ensures
        file_name(directory.push(47u8) + name) == Some(name),
        file_name(name) == Some(name),
{
    lemma_after_last(directory, 47u8, name);
    let path = directory.push(47u8) + name;
    assert(path.skip((directory.len() + 1) as int) =~= name);
    assert(name.skip(0) =~= name);
    assert(name != seq![46u8]) by {
        assert(seq![46u8].len() == 1 && seq![46u8][0] == 46u8);
    }
}

proof fn lemma_extension(stem: Seq<u8>, suffix: Seq<u8>)
    requires
        stem.len() > 0,
        without(suffix, 46u8),
    ensures
        extension(stem.push(46u8) + suffix) == Some(suffix),
{
    lemma_after_last(stem, 46u8, suffix);
    let name = stem.push(46u8) + suffix;
    assert(name.skip((stem.len() + 1) as int) =~= suffix);
}

/// A slash, or a slash and a dot, behind a path changes nothing of the file it names;
/// a path that ends in two dots names none.
pub proof fn law_a_trailing_slash_names_the_same_file(path: Seq<u8>)
    ensures
        file_name(path.push(47u8)) == file_name(path),
        file_name(path.push(47u8).push(46u8)) == file_name(path),
        file_name(path.push(47u8) + seq![46u8, 46u8]) is None,
        file_name(seq![46u8, 46u8]) is None,
        file_name(Seq::empty()) is None,
{
    let none = Seq::<u8>::empty();
    let slash = path.push(47u8);
    lemma_after_last(path, 47u8, none);
    assert(slash + none =~= slash);
    assert(slash.skip((path.len() + 1) as int) =~= none);
    assert(slash.take(path.len() as int) =~= path);
    let dot = slash.push(46u8);
    let one = seq![46u8];
    assert(one[0] != 47u8);
    lemma_after_last(path, 47u8, one);
    assert(slash + one =~= dot);
    assert(dot.skip((path.len() + 1) as int) =~= one);
    assert(dot.take(path.len() as int) =~= path);
    let two = seq![46u8, 46u8];
    assert(two[0] != 47u8 && two[1] != 47u8);
    assert(without(two, 47u8));
    lemma_after_last(path, 47u8, two);
    let dots = slash + two;
    assert(dots.skip((path.len() + 1) as int) =~= two);
    assert(two != one) by {
        assert(two.len() == 2 && one.len() == 1);
    }
    assert(two.skip(0) =~= two);
    assert(none.skip(0) =~= none);
}

/// The ASCII letter `lower`, in either case.
pub open spec fn in_either_case(b: u8, lower: u8) -> bool {
    b == lower || b + 32 == lower
}

/// The extensions of dynamic libraries are `so`, `dylib` and `dll`, in whatever case.
pub proof fn law_library_extensions_are_so_dylib_and_dll(e: Seq<u8>)
    ensures
        is_library_extension(e) <==> {
            ||| e.len() == 2 && in_either_case(e[0], 115) && in_either_case(e[1], 111)
            ||| e.len() == 3 && in_either_case(e[0], 100) && in_either_case(e[1], 108)
                && in_either_case(e[2], 108)
            ||| e.len() == 5 && in_either_case(e[0], 100) && in_either_case(e[1], 121)
                && in_either_case(e[2], 108) && in_either_case(e[3], 105) && in_either_case(
                e[4],
                98,
            )
        },
{
    let l = e.map_values(|b: u8| lower(b));
    assert(forall|i: int| 0 <= i < e.len() ==> l[i] == lower(#[trigger] e[i]));
    let so = seq![115u8, 111];
    let dll = seq![100u8, 108, 108];
    let dylib = seq![100u8, 121, 108, 105, 98];
    if e.len() == 2 {
        assert(lower(e[0]) == l[0] && lower(e[1]) == l[1]);
        if in_either_case(e[0], 115) && in_either_case(e[1], 111) {
            assert(l =~= so);
        }
        if l == so {
            assert(l[0] == 115 && l[1] == 111);
        }
    } else if e.len() == 3 {
        assert(lower(e[0]) == l[0] && lower(e[1]) == l[1] && lower(e[2]) == l[2]);
        if in_either_case(e[0], 100) && in_either_case(e[1], 108) && in_either_case(e[2], 108) {
            assert(l =~= dll);
        }
        if l == dll {
            assert(l[0] == 100 && l[1] == 108 && l[2] == 108);
        }
    } else if e.len() == 5 {
        assert(lower(e[0]) == l[0] && lower(e[1]) == l[1] && lower(e[2]) == l[2] && lower(e[3])
            == l[3] && lower(e[4]) == l[4]);
        if in_either_case(e[0], 100) && in_either_case(e[1], 121) && in_either_case(e[2], 108)
            && in_either_case(e[3], 105) && in_either_case(e[4], 98) {
            assert(l =~= dylib);
        }
        if l == dylib {
            assert(l[0] == 100 && l[1] == 121 && l[2] == 108 && l[3] == 105 && l[4] == 98);
        }
    } else {
        assert(l.len() == e.len());
        assert(so.len() == 2 && dll.len() == 3 && dylib.len() == 5);
    }
}

impl BootView {
    /// The stages a boot goes through from here on, where nothing fails it.
    pub open spec fn stages(self, fuel: nat) -> Seq<BootStage>
        decreases fuel,
    {
        if fuel == 0 {
            Seq::empty()
        } else {
            seq![self.stage] + (BootView {
                stage: self.next(BootAnswerView::Done),
                ..self
            }).stages((fuel - 1) as nat)
        }
    }
}

/// A boot goes through its stages in order: the loader is opened, the worker service
/// published, signals handled, the supervisor's pipe watched where there is one, the
/// config watched, the plugin directories watched where there are any, the startup
/// issue asked for and the entries counted; then the worker works on.
pub proof fn law_a_boot_goes_through_its_stages_in_order(boot: BootView)
    requires
        boot.stage is Open,
    ensures
        boot.supervised && boot.dirs.len() > 0 ==> boot.stages(9) == seq![
            BootStage::Open,
            BootStage::Provide,
            BootStage::Signals,
            BootStage::Supervisor,
            BootStage::Config,
            BootStage::Libraries,
            BootStage::Startup,
            BootStage::Count,
            BootStage::Parked,
        ],
        !boot.supervised && boot.dirs.len() > 0 ==> boot.stages(8) == seq![
            BootStage::Open,
            BootStage::Provide,
            BootStage::Signals,
            BootStage::Config,
            BootStage::Libraries,
            BootStage::Startup,
            BootStage::Count,
            BootStage::Parked,
        ],
        boot.supervised && boot.dirs.len() == 0 ==> boot.stages(8) == seq![
            BootStage::Open,
            BootStage::Provide,
            BootStage::Signals,
            BootStage::Supervisor,
            BootStage::Config,
            BootStage::Startup,
            BootStage::Count,
            BootStage::Parked,
        ],
        !boot.supervised && boot.dirs.len() == 0 ==> boot.stages(7) == seq![
            BootStage::Open,
            BootStage::Provide,
            BootStage::Signals,
            BootStage::Config,
            BootStage::Startup,
            BootStage::Count,
            BootStage::Parked,
        ],
{
    let provide = BootView { stage: BootStage::Provide, ..boot };
    let signals = BootView { stage: BootStage::Signals, ..boot };
    let supervisor = BootView { stage: BootStage::Supervisor, ..boot };
    let config = BootView { stage: BootStage::Config, ..boot };
    let libraries = BootView { stage: BootStage::Libraries, ..boot };
    let startup = BootView { stage: BootStage::Startup, ..boot };
    let count = BootView { stage: BootStage::Count, ..boot };
    let parked = BootView { stage: BootStage::Parked, ..boot };
    assert(parked.stages(0) == Seq::<BootStage>::empty());
    assert(parked.stages(1) =~= seq![BootStage::Parked]);
    assert(count.stages(2) =~= seq![BootStage::Count, BootStage::Parked]);
    assert(startup.stages(3) =~= seq![BootStage::Startup, BootStage::Count, BootStage::Parked]);
    assert(libraries.stages(4) =~= seq![
        BootStage::Libraries,
        BootStage::Startup,
        BootStage::Count,
        BootStage::Parked,
    ]);
    if boot.dirs.len() > 0 {
        let rest = config.stages(5);
        assert(rest =~= seq![BootStage::Config] + libraries.stages(4));
        if boot.supervised {
            assert(supervisor.stages(6) =~= seq![BootStage::Supervisor] + rest);
            assert(signals.stages(7) =~= seq![BootStage::Signals] + supervisor.stages(6));
            assert(provide.stages(8) =~= seq![BootStage::Provide] + signals.stages(7));
            assert(boot.stages(9) =~= seq![BootStage::Open] + provide.stages(8));
        } else {
            assert(signals.stages(6) =~= seq![BootStage::Signals] + rest);
            assert(provide.stages(7) =~= seq![BootStage::Provide] + signals.stages(6));
            assert(boot.stages(8) =~= seq![BootStage::Open] + provide.stages(7));
        }
    } else {
        let rest = config.stages(4);
        assert(rest =~= seq![BootStage::Config] + startup.stages(3));
        if boot.supervised {
            assert(supervisor.stages(5) =~= seq![BootStage::Supervisor] + rest);
            assert(signals.stages(6) =~= seq![BootStage::Signals] + supervisor.stages(5));
            assert(provide.stages(7) =~= seq![BootStage::Provide] + signals.stages(6));
            assert(boot.stages(8) =~= seq![BootStage::Open] + provide.stages(7));
        } else {
            assert(signals.stages(5) =~= seq![BootStage::Signals] + rest);
            assert(provide.stages(6) =~= seq![BootStage::Provide] + signals.stages(5));
            assert(boot.stages(7) =~= seq![BootStage::Open] + provide.stages(6));
        }
    }
}

/// Trouble is never passed over: every failed stage up to the plugin directories is
/// reported, and what stopped the loader is quoted with its config; nothing that went
/// well is reported as trouble.
pub proof fn law_trouble_is_reported(boot: BootView, e: Seq<char>)
    ensures
        boot.stage is Open || boot.stage is Provide || boot.stage is Signals || boot.stage
            is Supervisor || boot.stage is Config || boot.stage is Libraries ==> boot.report(
            BootAnswerView::Failed(e),
        ) is Some,
        boot.stage is Startup || boot.stage is Count ==> boot.report(BootAnswerView::Found(e))
            is Some,
        !(boot.stage is Libraries) ==> boot.report(BootAnswerView::Done) is None,
        boot.stage is Open ==> (boot.report(BootAnswerView::Failed(e)) matches Some(line)
            && holds_text(line, boot.config) && holds_text(line, e)),
        boot.stage is Count ==> (boot.report(BootAnswerView::Found(e)) matches Some(line)
            && holds_text(line, boot.config) && holds_text(line, e)),
{
    if boot.stage is Open {
        let a = "cordis: failed to start from "@;
        let b = ": "@;
        let line = a + boot.config + b + e;
        assert(line.subrange(a.len() as int, (a.len() + boot.config.len()) as int) =~= boot.config);
        assert(line.subrange(line.len() - e.len(), line.len() as int) =~= e);
        assert(holds_at(line, boot.config, a.len() as int));
        assert(holds_at(line, e, line.len() - e.len()));
    }
    if boot.stage is Count {
        let a = "cordis: worker ready ("@;
        let b = " entries, config: "@;
        let c = ")"@;
        let line = a + e + b + boot.config + c;
        let at = a.len() + e.len() + b.len();
        assert(line.subrange(at as int, (at + boot.config.len()) as int) =~= boot.config);
        assert(line.subrange(a.len() as int, (a.len() + e.len()) as int) =~= e);
        assert(holds_at(line, boot.config, at as int));
        assert(holds_at(line, e, a.len() as int));
    }
}

/// Whether a text holds another at a place.
pub open spec fn holds_at(line: Seq<char>, text: Seq<char>, at: int) -> bool {
    0 <= at && at + text.len() <= line.len() && line.subrange(at, at + text.len()) == text
}

/// Whether a text holds another.
pub open spec fn holds_text(line: Seq<char>, text: Seq<char>) -> bool {
    exists|at: int| #[trigger] holds_at(line, text, at)
}

/// A list of texts names each of them, in order, with a comma and a blank between two.
pub proof fn law_a_list_grows_by_its_last(texts: Seq<Seq<char>>, last: Seq<char>)
    ensures
        listed(seq![last]) == last,
        texts.len() > 0 ==> listed(texts.push(last)) == listed(texts) + seq![',', ' '] + last,
{
    reveal_strlit(", ");
    assert(", "@ =~= seq![',', ' ']);
    assert(texts.push(last).drop_last() =~= texts);
}

} // verus!
