//! When a request is granted and why it is refused: publications, registrations,
//! dispatches, creations and replacements; and what the records and texts say of it.

use crate::cli::{usage_text, ArgErrorView};
use crate::contained::{panic_line, rendered};
use crate::context::ContextView;
use crate::deps::EdgeView;
use crate::era::{
    era_ending, refuses_swap, EraEndingView, EraPhaseView, EraView, UndeliveredPhaseView,
    UndeliveredView,
};
use crate::event::{
    DispatchErrorView, EventContract, EventOperation, InvocationFailureView, ListenerRole,
    ObservationRouting, RoutingView,
};
use crate::event_store::{binds_event, compacted, misfit, EventsView};
use crate::fiber::FiberView;
use crate::frame::law_a_creation_works_on_its_fiber;
use crate::handle::FiberHandle;
use crate::ids::{ContractId, FiberId, ScopeId, ServiceOccurrenceId, ServicePublicationId};
use crate::lifecycle::{LifecycleOperation, LifecycleRecursion, PluginFailureView, SpawnErrorView};
use crate::pass::{InitialOutcomeView, InitialPassView, InitialPhaseView};
use crate::plugin::TypedPlugin;
use crate::publish::{ControlVerdict, PublishVerdict};
use crate::registry::{
    is_group, law_an_attached_fiber_is_a_resident_member, lemma_group_found, selects, PluginKey,
    RegistryView,
};
use crate::root::RootView;
use crate::seqs::{first_index, is_first, lemma_first_absent, lemma_first_found, lemma_first_meets};
use crate::service::SlotView;
use crate::settle::{ActionView, ReplyView};
use crate::spawn::SpawnPhaseView;
use crate::state::{law_a_publication_touches_one_revision, FiberState, StateCellView};
use crate::worker_laws::{holds_at, holds_text};
use crate::logger::{suppressed_line, LogRecordView};
use vstd::prelude::*;

verus! {

/// A generation is open to registrations exactly while its Fiber lives, is loading or
/// active, and neither a terminal nor a replacement claim has closed it.
pub proof fn law_a_generation_is_open_while_it_loads_or_is_active(fiber: FiberView)
    ensures
        fiber.admits() <==> {
            &&& fiber.alive && !fiber.disposing && !fiber.generation_replacing
            &&& fiber.current() == FiberState::Loading || fiber.current() == FiberState::Active
        },
        fiber.is_visible() <==> fiber.alive && fiber.current() == FiberState::Active,
{
}

/// A publication commits exactly if its generation is open, its name is free for its
/// contract, and its exact slot has no publication of a living owner; a closed
/// generation is judged first, then the contract, then the occupant.
pub proof fn law_a_publication_is_refused_for_its_reason(
    root: RootView,
    ctx: ContextView,
    name: Seq<char>,
    contract: ContractId,
)
    ensures
        ({
            let open = root.has(ctx.fiber) && root.fiber(ctx.fiber).admits();
            let free = root.services.bound(name) matches Some(c) ==> c == contract;
            let taken = root.services.slot(
                EdgeView { service: name, realm: ctx.realm_of(name) },
            ) matches Some(s) && root.has(s.owner) && root.fiber(s.owner).alive;
            root.publish_verdict(ctx, name, contract) == if !open {
                PublishVerdict::Inactive
            } else if !free {
                PublishVerdict::Mismatch
            } else if taken {
                PublishVerdict::Duplicate
            } else {
                PublishVerdict::Publish
            }
        }),
{
}

/// A publication is controlled exactly while it is the occurrence in its slot and its
/// owner's generation is open; staleness is judged first.
pub proof fn law_only_the_current_publication_is_controlled(
    root: RootView,
    edge: EdgeView,
    occurrence: ServiceOccurrenceId,
    owner: FiberId,
)
    ensures
        ({
            let current = root.services.slot(edge) matches Some(s) && s.occurrence == occurrence;
            let open = root.has(owner) && root.fiber(owner).admits();
            root.control_verdict(edge, occurrence, owner) == if !current {
                ControlVerdict::Stale
            } else if !open {
                ControlVerdict::Closed
            } else {
                ControlVerdict::Commit
            }
        }),
{
}

/// A dispatch is refused for a Scope of another Runtime, then for an Event that is
/// bound to another contract, then for the first selected listener whose role does
/// not fit; in no other case.
pub proof fn law_a_dispatch_is_refused_for_its_reason(
    root: RootView,
    ctx: ContextView,
    event: Seq<char>,
    contract: EventContract,
    routing: RoutingView,
    operation: EventOperation,
)
    ensures
        ({
            let foreign = routing matches RoutingView::Scoped(s) && s.membership != ctx.runtime;
            let bound = root.events.bound(event) matches Some(c) && c != contract;
            let selected = root.events.eligible(event, routing);
            match root.preflight(ctx, event, contract, routing, operation) {
                Err(DispatchErrorView::ForeignScope) => foreign,
                Err(DispatchErrorView::EventContractMismatch { event: e }) => !foreign && bound && e
                    == event,
                Err(DispatchErrorView::IncompatibleRole { operation: o, role }) => {
                    &&& !foreign && !bound && o == operation
                    &&& exists|i: int|
                        0 <= i < selected.len() && (#[trigger] selected[i]).kind.spec_role() == role
                            && !operation.admits(role) && forall|j: int|
                            0 <= j < i ==> operation.admits(
                                (#[trigger] selected[j]).kind.spec_role(),
                            )
                },
                Err(_) => false,
                Ok(hooks) => {
                    &&& !foreign && !bound && hooks == selected
                    &&& forall|i: int|
                        0 <= i < selected.len() ==> operation.admits(
                            (#[trigger] selected[i]).kind.spec_role(),
                        )
                },
            }
        }),
{
    let selected = root.events.eligible(event, routing);
    lemma_first_meets(selected, misfit(operation));
    match first_index(selected, misfit(operation)) {
        Some(i) => {
            assert forall|j: int| 0 <= j < i implies operation.admits(
                (#[trigger] selected[j]).kind.spec_role(),
            ) by {
                assert(!misfit(operation)(selected[j]));
            }
        },
        None => {
            assert forall|i: int| 0 <= i < selected.len() implies operation.admits(
                (#[trigger] selected[i]).kind.spec_role(),
            ) by {
                assert(!misfit(operation)(selected[i]));
            }
        },
    }
}

/// An Event name is bound by what first uses it, for the lifetime of the Runtime, and
/// is then compatible with that contract alone; no other name is bound with it.
pub proof fn law_the_first_use_binds_an_event(
    events: EventsView,
    name: Seq<char>,
    contract: EventContract,
    other: Seq<char>,
    later: EventContract,
)
    ensures
        ({
            let after = events.binding(name, contract);
            &&& after.bound(name) == Some(
                match events.bound(name) {
                    Some(c) => c,
                    None => contract,
                },
            )
            &&& other != name ==> after.bound(other) == events.bound(other)
            &&& after.compatible(name, later) <==> after.bound(name) == Some(later)
            &&& after.hooks == events.hooks
        }),
{
    let rows = events.contracts;
    let more = rows.push((name, contract));
    lemma_first_meets(rows, binds_event(name));
    lemma_first_meets(rows, binds_event(other));
    if events.bound(name) is None {
        let n = rows.len() as int;
        assert forall|j: int| 0 <= j < n implies !binds_event(name)(#[trigger] more[j]) by {
            assert(more[j] == rows[j]);
        }
        assert(is_first(more, binds_event(name), n));
        lemma_first_found(more, binds_event(name), n);
        if other != name {
            match first_index(rows, binds_event(other)) {
                Some(i) => {
                    assert forall|j: int| 0 <= j < i implies !binds_event(other)(
                        #[trigger] more[j],
                    ) by {
                        assert(more[j] == rows[j]);
                    }
                    assert(more[i] == rows[i]);
                    assert(is_first(more, binds_event(other), i));
                    lemma_first_found(more, binds_event(other), i);
                },
                None => {
                    assert forall|j: int| 0 <= j < more.len() implies !binds_event(other)(
                        #[trigger] more[j],
                    ) by {
                        if j < n {
                            assert(more[j] == rows[j]);
                        }
                    }
                    lemma_first_absent(more, binds_event(other));
                },
            }
        }
    }
}

/// A creation from an open Context, and one that does not gate on its Context, admits
/// one Fiber; one that gates on a closed Context admits none.
pub proof fn law_an_open_context_admits_a_fiber(
    spawn: SpawnPhaseView,
    root: RootView,
    reply: ReplyView,
)
    requires
        root.fibers.len() < usize::MAX,
        spawn is Start,
    ensures
        ({
            let admitted = !spawn->gated || root.admits(spawn->Start_ctx.fiber);
            let after = spawn.step(root, reply).root;
            &&& after.fibers.len() == root.fibers.len() + (if admitted {
                1int
            } else {
                0int
            })
            &&& admitted ==> after.fiber(root.next_fiber()).name == spawn->name
        }),
{
    match spawn {
        SpawnPhaseView::Start { ctx, plugin, name, inject, gated } => {
            if !gated || root.admits(ctx.fiber) {
                let born = root.admitting(ctx, plugin, name, inject);
                let pass = InitialPassView {
                    fiber: root.next_fiber(),
                    phase: InitialPhaseView::Claim,
                };
                law_a_creation_works_on_its_fiber(pass, born, reply);
            }
        },
        _ => {},
    }
}

/// How a creation ends is how its initial pass ended: a failed first apply is reported
/// with its failure, an interruption as one, and a Fiber that is active or pending goes
/// on to its handoff.
pub proof fn law_a_creation_ends_as_its_pass_did(
    pass: InitialPassView,
    root: RootView,
    reply: ReplyView,
)
    requires
        pass.step(root, reply).action is None,
    ensures
        ({
            let step = SpawnPhaseView::Initial(pass).step(root, reply);
            match pass.step(root, reply).phase {
                InitialPhaseView::Over(InitialOutcomeView::Failed(f)) => step.phase
                    == SpawnPhaseView::Over(
                    Err::<FiberHandle, SpawnErrorView>(SpawnErrorView::InitialApply(f)),
                ),
                InitialPhaseView::Over(InitialOutcomeView::Active) => step.phase
                    == SpawnPhaseView::Handoff(pass.fiber),
                InitialPhaseView::Over(InitialOutcomeView::Pending) => step.phase
                    == SpawnPhaseView::Handoff(pass.fiber),
                _ => step.phase == SpawnPhaseView::Over(
                    Err::<FiberHandle, SpawnErrorView>(SpawnErrorView::Interrupted),
                ),
            }
        }),
{
}

/// An era replacement is refused before its claim for a dead source, for a dependent
/// whose wait would be a self-wait, and for a source that another claims; otherwise
/// it claims the source and keeps what the source has published.
pub proof fn law_a_replacement_is_refused_for_its_reason(era: EraView, root: RootView)
    requires
        root.has(era.source),
        era.phase is Claim,
    ensures
        ({
            let fiber = root.fiber(era.source);
            let edges = root.published_edges(era.source);
            let dependents = root.dependents_except(edges, seq![era.source]);
            let step = era.claiming(root);
            match step.era.phase {
                EraPhaseView::Claim => !(fiber.slot.inertia is Idle),
                EraPhaseView::Over(EraEndingView::Closed) => !fiber.alive || fiber.disposing,
                EraPhaseView::Over(EraEndingView::Recursion(r)) => {
                    &&& fiber.alive
                    &&& dependents.contains(r.fiber_id)
                    &&& root.has(r.fiber_id)
                    &&& root.is_recursive(era.by, r.fiber_id, LifecycleOperation::EraSwap)
                    &&& r.operation is EraSwap
                },
                EraPhaseView::Terminal(disposal, entry) => {
                    &&& fiber.alive && !fiber.disposing
                    &&& disposal.fiber == era.source
                    &&& entry == dependents
                    &&& step.era.edges == edges
                    &&& step.root.fiber(era.source).disposing
                },
                _ => false,
            }
        }),
{
    let edges = root.published_edges(era.source);
    let entry = root.dependents_except(edges, seq![era.source]);
    lemma_first_meets(entry, refuses_swap(root, era.by));
    match first_index(entry, refuses_swap(root, era.by)) {
        Some(i) => {
            assert(entry.contains(entry[i]));
        },
        None => {},
    }
}

/// A successor is created from the source's own behavior with the new input, under the
/// source's contract, from the Context the source was spawned from, with its name and
/// declarations; the old input is what is destroyed.
pub proof fn law_a_successor_gets_the_new_input(era: EraView, root: RootView, plugin: TypedPlugin)
    requires
        root.has(era.source),
        root.accepts(era.source, era.change),
    ensures
        ({
            let pair = root.sealed(era.source).unwrap();
            let step = era.superseding(root);
            &&& step.action == Some(ActionView::Release { input: pair.1 })
            &&& step.era.phase == EraPhaseView::Superseded(
                TypedPlugin {
                    contract: root.fiber(era.source).spawn.unwrap().plugin.contract,
                    state: Some((pair.0, era.change.input)),
                },
            )
            &&& step.root.sealed(era.source) is None
        }),
        ({
            let step = (EraView { phase: EraPhaseView::Superseded(plugin), ..era }).step(
                root,
                ReplyView::Released { panicked: false },
            );
            step.era.phase == EraPhaseView::Spawning(
                SpawnPhaseView::Start {
                    ctx: era.spawning_ctx,
                    plugin,
                    name: era.name,
                    inject: era.inject,
                    gated: false,
                },
            )
        }),
{
}

/// What the last convergence of a replacement waits for: the dependents of what the
/// source had published and of what the successor, if there is one, has, and neither
/// era itself; the ending is kept until then.
pub proof fn law_a_replacement_waits_for_the_dependents_of_both_eras(
    era: EraView,
    root: RootView,
    s: FiberHandle,
    ending: EraEndingView,
)
    ensures
        era.finishing(root, EraEndingView::Handed(s)).era.phase matches EraPhaseView::Final(
            convergence,
            kept,
        ) && kept == EraEndingView::Handed(s) && convergence.index == 0 && convergence.fibers
            == root.dependents_except(
            era.edges + root.published_edges(s.fiber),
            seq![era.source, s.fiber],
        ),
        !(ending is Handed) ==> (era.finishing(root, ending).era.phase
            matches EraPhaseView::Final(convergence, kept) && kept == ending
            && convergence.index == 0 && convergence.fibers == root.dependents_except(
            era.edges,
            seq![era.source],
        )),
{
}

/// The cleanup of a successor that nobody accepted disposes it first; only once that
/// disposal is over do the dependents of both eras converge, and only then is it over.
pub proof fn law_an_undelivered_successor_is_disposed_first(u: UndeliveredView, root: RootView)
    ensures
        match u.phase {
            UndeliveredPhaseView::Disposing(disposal) => {
                let step = u.step(root);
                &&& step.root == disposal.step(root).root
                &&& step.action is Some
                &&& disposal.step(root).action is None <==> step.phase is Converging
                &&& step.phase matches UndeliveredPhaseView::Converging(c) ==> c.index == 0
                    && c.fibers == step.root.dependents_except(
                    u.edges,
                    seq![u.source, u.successor],
                )
            },
            UndeliveredPhaseView::Converging(c) => u.step(root).action is None <==> c.step(
                root,
                u.by,
            ).action is None,
            UndeliveredPhaseView::Over => u.step(root).action is None && u.step(root).root == root,
        },
{
}

/// The record of a Fiber says its name and its state, and what it misses while it
/// lives and is pending, and nothing otherwise.
pub proof fn law_a_record_says_what_its_fiber_is(root: RootView, id: FiberId)
    ensures
        ({
            let record = root.fiber_record(id);
            let fiber = root.fiber(id);
            &&& record.id == id
            &&& record.role is Ordinary
            &&& record.name == fiber.name
            &&& record.state == fiber.current()
            &&& fiber.alive && fiber.current() is Pending ==> record.missing_services
                == root.missing(id)
            &&& !(fiber.alive && fiber.current() is Pending) ==> record.missing_services.len() == 0
        }),
{
}

/// The record of a publication says what occupies the slot, whose it is, and whether
/// it is visible; a publication of a closed generation has none.
pub proof fn law_a_record_says_what_its_publication_is(root: RootView, slot: SlotView)
    ensures
        match root.service_record()(slot) {
            Some(record) => {
                &&& root.admits(slot.owner)
                &&& record.id == ServicePublicationId(slot.occurrence)
                &&& record.service == slot.service
                &&& record.realm.key == slot.realm
                &&& record.realm.membership == root.runtime
                &&& record.provider == slot.owner
                &&& record.visible == (root.fiber(slot.owner).current() is Active)
            },
            None => !root.admits(slot.owner),
        },
{
}

/// A Fiber joins the group that its Plugin currently has, behind the members it has; a
/// Plugin without one gets a group of its own. The residents are in order of admission.
pub proof fn law_a_fiber_joins_the_current_group(
    reg: RegistryView,
    key: PluginKey,
    fiber: FiberId,
    fresh: u64,
)
    requires
        reg.wf(),
        forall|i: int| 0 <= i < reg.groups.len() ==> (#[trigger] reg.groups[i]).allocation != fresh,
    ensures
        reg.attached(key, fiber, fresh).current_group(key) == reg.current_group(key).push(fiber),
        reg.attached(key, fiber, fresh).residents == reg.residents.push(fiber),
{
    law_an_attached_fiber_is_a_resident_member(reg, key, fiber, fresh);
    let after = reg.attached(key, fiber, fresh);
    match reg.selected(key) {
        Some(allocation) => {
            lemma_first_meets(reg.current, selects(key));
            let c = first_index(reg.current, selects(key)).unwrap();
            let g = choose|g: int|
                #![trigger reg.groups[g]]
                0 <= g < reg.groups.len() && reg.groups[g].allocation == reg.current[c].1
                    && reg.groups[g].key == reg.current[c].0;
            lemma_group_found(reg.groups, g);
            lemma_first_meets(reg.groups, is_group(allocation));
            let k = first_index(reg.groups, is_group(allocation)).unwrap();
            assert(after.groups[k].allocation == allocation);
            lemma_group_found(after.groups, k);
        },
        None => {
            let n = reg.groups.len() as int;
            assert(after.groups[n].allocation == fresh);
            lemma_group_found(after.groups, n);
            assert(reg.current_group(key).push(fiber) =~= seq![fiber]);
        },
    }
}

/// A publication of a state makes it the current one; a wait for a state is satisfied
/// exactly if that state is current or was published since the wait began.
pub proof fn law_a_wait_ends_with_the_publication_of_its_state(
    cell: StateCellView,
    state: FiberState,
    next: FiberState,
)
    requires
        cell.room(1),
        cell.current != state,
    ensures
        cell.published(next).current == next,
        cell.published(next).satisfied(state, cell.revision(state)) <==> next == state,
{
    assert(cell.revisions[next.index()] + 1 <= u64::MAX);
    if next != state {
        law_a_publication_touches_one_revision(cell, next, state);
    }
}

/// What a record says of a routing: the position it is scoped to, or that it is
/// unscoped.
pub proof fn law_a_record_says_the_routing(routing: RoutingView)
    ensures
        routing.observed() == match routing {
            RoutingView::Unscoped => ObservationRouting::Unscoped,
            RoutingView::Scoped(scope) => ObservationRouting::Scoped(
                ScopeId {
                    membership: scope.membership,
                    layer: if scope.chain.len() == 0 {
                        None
                    } else {
                        Some(scope.chain[0])
                    },
                },
            ),
        },
{
}

/// The text of a refused command line ends with the usage, and quotes the argument it
/// refuses.
pub proof fn law_a_refusal_shows_the_usage(refusal: ArgErrorView, argument: Seq<char>)
    ensures
        ({
            let text = refusal.message(argument);
            &&& text.len() >= usage_text().len()
            &&& text.skip(text.len() - usage_text().len()) == usage_text()
            &&& refusal is UnknownCommand || refusal is UnknownFlag || refusal is ExtraArgument
                ==> holds_text(text, argument)
            &&& refusal is Usage <==> text.len() == usage_text().len()
        }),
{
    let text = refusal.message(argument);
    let usage = usage_text();
    assert(text.skip(text.len() - usage.len()) =~= usage);
    reveal_strlit("`\n\n");
    match refusal {
        ArgErrorView::UnknownCommand(_) => {
            let head = "unknown command `"@;
            assert(text.subrange(head.len() as int, (head.len() + argument.len()) as int)
                =~= argument);
            assert(holds_at(text, argument, head.len() as int));
        },
        ArgErrorView::UnknownFlag(_) => {
            let head = "unknown flag `"@;
            assert(text.subrange(head.len() as int, (head.len() + argument.len()) as int)
                =~= argument);
            assert(holds_at(text, argument, head.len() as int));
        },
        ArgErrorView::ExtraArgument(_) => {
            let head = "unexpected extra argument `"@;
            assert(text.subrange(head.len() as int, (head.len() + argument.len()) as int)
                =~= argument);
            assert(holds_at(text, argument, head.len() as int));
        },
        ArgErrorView::MissingDirectory => {
            reveal_strlit("--plugin-dir requires a directory\n\n");
        },
        ArgErrorView::MissingConfig => {
            reveal_strlit("missing config file\n\n");
        },
        ArgErrorView::Usage => {},
    }
}

/// The report of a contained panic names what panicked and shows the payload: a text
/// as it is.
pub proof fn law_a_panic_report_shows_its_payload(what: Seq<char>, payload: String)
    ensures
        rendered(Some(payload)) == payload@,
        holds_text(panic_line(what, payload@), what),
        holds_text(panic_line(what, payload@), payload@),
{
    let line = panic_line(what, payload@);
    let head = "cordis: "@;
    assert(line.subrange(head.len() as int, (head.len() + what.len()) as int) =~= what);
    assert(holds_at(line, what, head.len() as int));
    let at = line.len() - payload@.len();
    assert(line.subrange(at, at + payload@.len()) =~= payload@);
    assert(holds_at(line, payload@, at));
}

/// An apply's failure shows its diagnostic, and tells an error from a panic.
pub proof fn law_a_failure_shows_its_diagnostic(failure: PluginFailureView)
    ensures
        holds_text(failure.message(), failure.diagnostic),
        failure.kind is Panic ==> holds_text(failure.message(), "panicked"@),
        failure.kind is ReturnedError ==> holds_text(failure.message(), "returned an error"@),
{
    let line = failure.message();
    let at = line.len() - failure.diagnostic.len();
    assert(line.subrange(at, at + failure.diagnostic.len()) =~= failure.diagnostic);
    assert(holds_at(line, failure.diagnostic, at));
    reveal_strlit("panicked");
    reveal_strlit("panicked: ");
    reveal_strlit("returned an error");
    reveal_strlit("returned an error: ");
    if failure.kind is Panic {
        assert(line.subrange(0, "panicked"@.len() as int) =~= "panicked"@);
        assert(holds_at(line, "panicked"@, 0));
    } else {
        assert(line.subrange(0, "returned an error"@.len() as int) =~= "returned an error"@);
        assert(holds_at(line, "returned an error"@, 0));
    }
}

/// A refused dispatch says what it was refused for: the Event, or the role and the
/// operation that do not fit; a failed invocation shows its diagnostic.
pub proof fn law_a_dispatch_failure_says_its_reason(
    event: Seq<char>,
    operation: EventOperation,
    role: ListenerRole,
    failure: InvocationFailureView,
)
    ensures
        holds_text((DispatchErrorView::EventContractMismatch { event }).message(), event),
        holds_text(
            (DispatchErrorView::IncompatibleRole { operation, role }).message(),
            role.spec_name(),
        ),
        holds_text(
            (DispatchErrorView::IncompatibleRole { operation, role }).message(),
            operation.spec_name(),
        ),
        holds_text(DispatchErrorView::Invocation(failure).message(), failure.diagnostic),
{
    let bound = (DispatchErrorView::EventContractMismatch { event }).message();
    let head = "event `"@;
    assert(bound.subrange(head.len() as int, (head.len() + event.len()) as int) =~= event);
    assert(holds_at(bound, event, head.len() as int));
    let misfits = (DispatchErrorView::IncompatibleRole { operation, role }).message();
    assert(misfits.subrange(0, role.spec_name().len() as int) =~= role.spec_name());
    assert(holds_at(misfits, role.spec_name(), 0));
    let at = misfits.len() - operation.spec_name().len();
    assert(misfits.subrange(at, at + operation.spec_name().len()) =~= operation.spec_name());
    assert(holds_at(misfits, operation.spec_name(), at));
    let failed = DispatchErrorView::Invocation(failure).message();
    let from = failed.len() - failure.diagnostic.len();
    assert(failed.subrange(from, from + failure.diagnostic.len()) =~= failure.diagnostic);
    assert(holds_at(failed, failure.diagnostic, from));
}

/// A refused self-wait names the operation.
pub proof fn law_a_refused_wait_names_its_operation(recursion: LifecycleRecursion)
    ensures
        holds_text(recursion.spec_message(), recursion.operation.spec_name()),
{
    let line = recursion.spec_message();
    let name = recursion.operation.spec_name();
    assert(line.subrange(0, name.len() as int) =~= name);
    assert(holds_at(line, name, 0));
}

/// A suppressed record still says its severity, its channel and its text.
pub proof fn law_a_suppressed_record_is_shown(record: LogRecordView)
    ensures
        holds_text(suppressed_line(record), record.level.spec_name()),
        holds_text(suppressed_line(record), record.channel),
        holds_text(suppressed_line(record), record.text),
{
    let line = suppressed_line(record);
    let head = "cordis: reentrant log suppressed ["@;
    let level = record.level.spec_name();
    let a = head.len() as int;
    assert(line.subrange(a, a + level.len()) =~= level);
    assert(holds_at(line, level, a));
    let b = a + level.len() + "] "@.len();
    assert(line.subrange(b, b + record.channel.len()) =~= record.channel);
    assert(holds_at(line, record.channel, b));
    let c = line.len() - record.text.len();
    assert(line.subrange(c, c + record.text.len()) =~= record.text);
    assert(holds_at(line, record.text, c));
}

/// Unregistered identities are dropped from an order only once there are many: at
/// least thirty-two, and no fewer than there are listeners; then all of them are.
pub proof fn law_an_order_is_compacted_once_it_is_sparse(stale: nat, registered: nat)
    ensures
        stale >= 32 && stale >= registered ==> compacted(stale, registered) == 0,
        stale < 32 || stale < registered ==> compacted(stale, registered) == stale,
{
}

/// A replacement ends as its successor's creation did: handed off, failed with the
/// failure of the first apply, or lost.
pub proof fn law_a_replacement_ends_as_the_creation_did(
    handle: FiberHandle,
    failure: PluginFailureView,
)
    ensures
        era_ending(Ok(handle)) == EraEndingView::Handed(handle),
        era_ending(Err(SpawnErrorView::InitialApply(failure))) == EraEndingView::Apply(failure),
        era_ending(Err(SpawnErrorView::Interrupted)) == EraEndingView::Lost,
{
}

} // verus!
