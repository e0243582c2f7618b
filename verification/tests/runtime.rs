use cordis_core::context::Context;
use cordis_core::deps::{DependencyEdge, IndexRow};
use cordis_core::dispose::Disposal;
use cordis_core::effect::{
    Cleanup, CleanupResult, DetachedWork, DisposableList, EffectFailureKind, TaskRegistrationError,
};
use cordis_core::era::{EraOwnerFailure, EraSwap};
use cordis_core::fiber::Fiber;
use cordis_core::handle::FiberHandle;
use cordis_core::ids::{ContractId, FiberId, RealmKey};
use cordis_core::inertia::{Inertia, SemanticTarget};
use cordis_core::lifecycle::{
    EraSwapError, EraSwapFailure, LifecycleOperation, ReadyError, RestartError, SettleAttribution,
    SpawnError, UpdateError, UpdateOutcome,
};
use cordis_core::observation::{ResidencyChange, RuntimeObservation};
use cordis_core::pass::{ConvergencePass, InitialOutcome, InitialPass};
use cordis_core::plugin::{ConfiguredLayer, InjectSpec, PreparedChange, PreparedPlugin};
use cordis_core::publish::generation_cleanup_admitted;
use cordis_core::registry::{PluginKey, Registry};
use cordis_core::replace::{ReplacementOutcome, ReplacementPass};
use cordis_core::root::Root;
use cordis_core::service::{
    ConfigResolutionError, ConfigurableService, RealmMappingError, Service, ServiceControlError,
    ServiceLookupError, ServicePublishError,
};
use cordis_core::settle::{Action, ApplyOutcome, Reply, Settle};
use cordis_core::spawn::Spawn;
use cordis_core::spawn_state::{SpawnState, SpawnStateError};
use cordis_core::state::{FiberRole, FiberState, StatePublication, WaitStep};
use cordis_core::update::{ControlAction, UpdateKind};
use cordis_core::chain::ChainEvent;
use cordis_core::event::{InvocationFailure, InvocationFailureKind, ListenerOptions};

/// Applies and does nothing else.
const PLAIN: u64 = 1;
/// Returns an error from its apply.
const FAILING: u64 = 2;
/// Publishes `counter` with its input as the value.
const PROVIDER: u64 = 3;
/// Owes two cleanups named after its input.
const CLEANING: u64 = 4;
/// Panics in its apply.
const PANICKING: u64 = 5;

struct Counter;
impl Service for Counter {
    const NAME: &'static str = "counter";
}

const COUNTER: ContractId = ContractId(100);

/// What the host did on behalf of the Runtime.
struct Host {
    applied: Vec<(u64, u64)>,
    cleaned: Vec<u64>,
    released: Vec<u64>,
    panic_on_release: bool,
}

impl Host {
    fn new() -> Host {
        Host {
            applied: Vec::new(),
            cleaned: Vec::new(),
            released: Vec::new(),
            panic_on_release: false,
        }
    }

    fn apply(&mut self, root: &mut Root, ctx: &Context, plugin: u64, input: u64) -> ApplyOutcome {
        self.applied.push((plugin, input));
        match plugin {
            FAILING => ApplyOutcome::Returned("test apply failure".to_owned()),
            PANICKING => ApplyOutcome::Panicked("test apply panic".to_owned()),
            PROVIDER => {
                assert!(ctx.provide::<Counter>(root, COUNTER, input).is_ok());
                ApplyOutcome::Applied
            }
            CLEANING => {
                assert!(ctx.effect_sync(root, input).is_ok());
                assert!(ctx.effect(root, input + 1).is_ok());
                ApplyOutcome::Applied
            }
            _ => ApplyOutcome::Applied,
        }
    }

    fn perform(&mut self, root: &mut Root, action: Action) -> Reply {
        match action {
            Action::Wait => {
                self.run_passes(root);
                Reply::Go
            }
            Action::Again => Reply::Go,
            Action::Cleanup(cleanup) => {
                match cleanup {
                    Cleanup::Callback { handle, .. } => self.cleaned.push(handle),
                    Cleanup::Join { task } => self.cleaned.push(task),
                    _ => panic!("the framework runs its own cleanups"),
                }
                Reply::Go
            }
            Action::Apply { plugin, input, ctx } => {
                Reply::Applied(self.apply(root, &ctx, plugin, input))
            }
            Action::Release { input } => {
                self.released.push(input);
                Reply::Released {
                    panicked: self.panic_on_release,
                }
            }
        }
    }

    fn drive(&mut self, root: &mut Root, mut step: impl FnMut(&mut Root, Reply) -> Option<Action>) {
        let mut reply = Reply::Go;
        for _ in 0..200 {
            match step(root, reply) {
                Some(action) => reply = self.perform(root, action),
                None => return,
            }
        }
        panic!("the work does not end");
    }

    fn run_passes(&mut self, root: &mut Root) {
        for id in root.take_passes() {
            let mut pass = ConvergencePass::new(root, id).unwrap();
            self.drive(root, |root, reply| pass.step(root, reply));
        }
    }

    fn spawn(
        &mut self,
        ctx: &Context,
        root: &mut Root,
        prepared: PreparedPlugin,
    ) -> Result<FiberHandle, SpawnError> {
        let mut spawn = ctx.spawn(prepared);
        self.drive(root, |root, reply| spawn.step(root, reply));
        spawn.outcome().unwrap()
    }

    fn dispose(&mut self, root: &mut Root, handle: &FiberHandle) {
        let mut disposal = handle.dispose(root, &SettleAttribution::none()).unwrap();
        self.drive(root, |root, _| disposal.step(root));
    }

    fn ready(&mut self, root: &mut Root, handle: &FiberHandle) -> Result<FiberState, ReadyError> {
        let ready = handle.ready(root, &SettleAttribution::none())?;
        for _ in 0..100 {
            if let Some(outcome) = ready.poll(root) {
                return outcome;
            }
            self.run_passes(root);
        }
        panic!("the Fiber does not settle");
    }

    fn restart(&mut self, root: &mut Root, handle: &FiberHandle) -> Result<(), RestartError> {
        let mut pass = handle.restart(root, &SettleAttribution::none())?;
        self.drive(root, |root, reply| pass.step(root, reply));
        FiberHandle::restarted(pass.outcome().unwrap()).unwrap()
    }

    fn finish_swap(
        &mut self,
        root: &mut Root,
        swap: &mut EraSwap,
    ) {
        self.drive(root, |root, reply| swap.step(root, reply));
    }
}

fn runtime() -> (Context, Root) {
    let (ctx, mut root) = Context::new(1);
    root.set_executor(true);
    (ctx, root)
}

fn prepared(plugin: u64, input: u64, requires: &[&str]) -> PreparedPlugin {
    let mut inject = InjectSpec::none();
    for name in requires {
        inject = inject.require(name);
    }
    PreparedPlugin::from_input(ContractId(plugin), plugin, input, "test".to_owned(), inject)
}

fn change(plugin: u64, input: u64) -> PreparedChange {
    PreparedChange::from_input(ContractId(plugin), input)
}

/// A Fiber with an installed record and registered edges, outside the Registry.
fn fiber_requiring(ctx: &Context, root: &mut Root, plugin: u64, requires: &[&str]) -> FiberId {
    let edges = |names: &[&str]| -> Vec<DependencyEdge> {
        names
            .iter()
            .map(|name| DependencyEdge::new(name.to_string(), RealmKey::default_realm()))
            .collect()
    };
    let id = root.add_fiber(Fiber::new_with_edges("test".to_owned(), edges(requires)));
    let fresh = root.fresh();
    let sealed = prepared(plugin, 3, requires);
    root.fiber_mut(id)
        .spawn_state
        .install(
            sealed.plugin,
            sealed.name,
            sealed.inject,
            ctx.duplicate(),
            PluginKey::Typed(ContractId(plugin)),
            ctx.duplicate(),
            fresh,
        )
        .unwrap();
    root.deps_mut().register(id, edges(requires));
    id
}

fn fiber_in_creation(ctx: &Context, root: &mut Root, plugin: u64) -> FiberId {
    let id = fiber_requiring(ctx, root, plugin, &[]);
    root.fiber_mut(id).creation_pending = true;
    id
}

fn target(root: &Root, id: FiberId) -> SemanticTarget {
    root.compute_target(id).unwrap()
}

fn initial(host: &mut Host, root: &mut Root, id: FiberId) -> InitialOutcome {
    let mut pass = InitialPass::new(id);
    host.drive(root, |root, reply| pass.step(root, reply));
    pass.outcome().unwrap()
}

fn records(root: &mut Root) -> Vec<RuntimeObservation> {
    root.hub_mut()
        .take()
        .into_iter()
        .map(|publication| publication.record)
        .collect()
}

fn residents(root: &Root) -> usize {
    root.registry().snapshot_fibers().len()
}

// Dependency projection.

#[test]
fn incomplete_dependency_projection_falls_back_to_fiber_owned_edges() {
    let (_ctx, mut root) = runtime();
    let edge = || vec![DependencyEdge::new("svc".to_owned(), RealmKey::default_realm())];
    let fiber = root.add_fiber(Fiber::new_with_edges("dependent".to_owned(), edge()));
    let allocation = root.fresh();
    root.registry_mut()
        .attach_fiber(PluginKey::Anonymous(26), fiber, allocation);
    root.deps_mut().register(fiber, edge());
    root.deps_mut().disable();

    let affected = root.dependents_for_edges(&edge());
    assert_eq!(affected.len(), 1);
    assert_eq!(affected[0], fiber);

    root.deps_mut().rebuild(vec![IndexRow {
        fiber,
        edges: edge(),
    }]);
    let rebuilt = root.dependents_for_edges(&edge());
    assert_eq!(rebuilt.len(), 1);
    assert_eq!(rebuilt[0], fiber);
}

#[test]
fn disabled_projection_preserves_service_settlement() {
    let (ctx, mut root) = runtime();
    let mut host = Host::new();
    let dependent = host
        .spawn(&ctx, &mut root, prepared(PLAIN, 1, &["counter"]))
        .unwrap();
    assert_eq!(dependent.state(&root), FiberState::Pending);

    root.deps_mut().disable();
    let _publication = ctx.provide::<Counter>(&mut root, COUNTER, 7).ok().unwrap();

    assert_eq!(
        host.ready(&mut root, &dependent).unwrap(),
        FiberState::Active
    );
    assert_eq!(host.applied.len(), 1);
}

// Contexts.

struct ReentrantConfig;
impl Service for ReentrantConfig {
    const NAME: &'static str = "issue55/config-compose";
}
impl ConfigurableService for ReentrantConfig {
    type Resolved = Vec<u64>;
    type ComposeError = String;

    fn compose_config(
        base: Option<u64>,
        layers: &Vec<u64>,
        head: Option<u64>,
    ) -> Result<Vec<u64>, String> {
        let (ctx, root) = Context::new(9);
        assert!(!ctx.runtime_snapshot(&root).fibers().is_empty());
        if layers.contains(&0) {
            return Err("a zero layer".to_owned());
        }
        Ok(base
            .into_iter()
            .chain(layers.iter().copied())
            .chain(head)
            .collect())
    }
}

const CONFIG: ContractId = ContractId(55);

#[test]
fn configuration_prepare_and_compose_can_reenter_runtime_observation() {
    let (ctx, root) = runtime();
    assert!(!ctx.runtime_snapshot(&root).fibers().is_empty());
    assert_eq!(
        ctx.resolve_config::<ReentrantConfig>(CONFIG, Some(5), None)
            .unwrap(),
        vec![5]
    );
}

#[test]
fn layers_compose_outermost_first_between_base_and_head() {
    let (ctx, _root) = runtime();
    let view = ctx
        .with_intercept::<ReentrantConfig>(CONFIG, 1)
        .with_intercept::<ReentrantConfig>(CONFIG, 2);
    assert_eq!(
        view.resolve_config::<ReentrantConfig>(CONFIG, Some(10), Some(20))
            .unwrap(),
        vec![10, 1, 2, 20]
    );
    let failing = view.with_intercept::<ReentrantConfig>(CONFIG, 0);
    assert!(matches!(
        failing.resolve_config::<ReentrantConfig>(CONFIG, None, None),
        Err(ConfigResolutionError::Compose(_))
    ));
    let foreign = view.with_configured_intercept(
        ReentrantConfig::NAME.to_owned(),
        ConfiguredLayer::new(ContractId(56), 3),
    );
    assert!(matches!(
        foreign.resolve_config::<ReentrantConfig>(CONFIG, None, None),
        Err(ConfigResolutionError::ContractMismatch { .. })
    ));
}

struct ReentrantRealmName<'a> {
    ctx: &'a Context,
    root: &'a Root,
    converted: &'a mut usize,
}

impl<'a> From<ReentrantRealmName<'a>> for String {
    fn from(value: ReentrantRealmName<'a>) -> Self {
        let snapshot = value.ctx.runtime_snapshot(value.root);
        assert!(!snapshot.fibers().is_empty());
        *value.converted += 1;
        "issue55/conversion".to_owned()
    }
}

#[test]
fn realm_name_conversion_can_reenter_runtime_observation() {
    let (ctx, mut root) = runtime();
    let mut converted: usize = 0;
    let realm = ctx.new_service_realm(&mut root);
    let name: String = ReentrantRealmName {
        ctx: &ctx,
        root: &root,
        converted: &mut converted,
    }
    .into();
    let mapped = ctx.with_service_realms(vec![(name, realm)]).unwrap();
    assert_eq!(converted, 1);
    assert_eq!(
        mapped.isolate_key(&"issue55/conversion".to_owned()),
        realm.key()
    );
}

#[test]
fn realm_mappings_refuse_foreign_realms_and_repeated_names() {
    let (ctx, mut root) = runtime();
    let (other, mut elsewhere) = Context::new(2);
    let mine = ctx.new_service_realm(&mut root);
    let foreign = other.new_service_realm(&mut elsewhere);
    assert!(matches!(
        ctx.with_service_realms(vec![("a".to_owned(), foreign)]),
        Err(RealmMappingError::ForeignRealm { .. })
    ));
    assert!(matches!(
        ctx.with_service_realms(vec![("a".to_owned(), mine), ("a".to_owned(), mine)]),
        Err(RealmMappingError::DuplicateService { .. })
    ));
}

// Effects.

fn sync_cleanup(handle: u64) -> Cleanup {
    Cleanup::Callback {
        handle,
        async_cleanup: false,
    }
}

#[test]
fn detached_poll_panic_is_not_retried_by_fallback() {
    let mut work = DetachedWork::new();
    assert!(work.dropped(), "work that was never polled moves on");
    work.poll();
    assert!(
        !work.dropped(),
        "poll panic must not transfer the same future to fallback"
    );
    work.polled(false);
    assert!(work.dropped(), "suspended work moves on");
    work.poll();
    work.polled(true);
    assert!(!work.dropped(), "finished work is not run again");
}

#[test]
fn remove_claims_the_occurrence_exactly_once() {
    let mut list = DisposableList::new();
    let token = list.push(sync_cleanup(1));
    assert!(list.remove(token).is_some(), "first claim hands it out");
    assert!(
        list.remove(token).is_none(),
        "a token resolves exactly once"
    );
    assert!(list.tokens().is_empty());
}

#[test]
fn tokens_snapshot_commit_order() {
    let mut list = DisposableList::new();
    let a = list.push(sync_cleanup(1));
    let b = list.push(sync_cleanup(2));
    assert_eq!(
        list.tokens(),
        vec![a, b],
        "forward order — the drain reverses it"
    );
    list.remove(a);
    assert_eq!(list.tokens(), vec![b]);
}

#[test]
fn cleanup_result_normalizes_once() {
    assert!(().into_outcome().is_ok());
    let failure = Err::<(), String>("cleanup boom".to_owned())
        .into_outcome()
        .unwrap_err();
    assert_eq!(failure.kind(), EffectFailureKind::ReturnedError);
    assert_eq!(failure.diagnostic(), "cleanup boom");
}

#[test]
fn a_drain_serves_the_newest_cleanup_first() {
    let (ctx, mut root) = runtime();
    let mut host = Host::new();
    let fiber = host
        .spawn(&ctx, &mut root, prepared(CLEANING, 40, &[]))
        .unwrap();
    host.dispose(&mut root, &fiber);
    assert_eq!(host.cleaned, vec![41, 40]);
    assert_eq!(fiber.state(&root), FiberState::Disposed);
    host.dispose(&mut root, &fiber);
    assert_eq!(host.cleaned, vec![41, 40], "a repeated disposal is inert");
}

#[test]
fn a_disarmed_cleanup_is_not_served() {
    let (ctx, mut root) = runtime();
    let kept = ctx.effect_sync(&mut root, 1).ok().unwrap();
    let disarmed = ctx.effect_sync(&mut root, 2).ok().unwrap();
    assert!(disarmed.disarm(&mut root));
    assert!(kept.dispose(&mut root).is_some());
    let mut tokens = root.begin_drain(FiberId(0));
    assert!(root.drain_next(FiberId(0), &mut tokens).is_none());
}

// Spawn records.

#[test]
fn absence_is_optional_for_projections_and_typed_for_required_operations() {
    let mut state = SpawnState::new();
    let fiber = FiberId(1);

    assert!(state.context_for(fiber).is_none());
    assert!(state.root().is_none());
    assert!(matches!(state.apply_snapshot(fiber), Err(SpawnStateError)));
    assert!(matches!(state.era_recipe(), Err(SpawnStateError)));
    assert_eq!(state.contract(), None);
}

fn install(state: &mut SpawnState, ctx: &Context, value: u64) -> Result<PluginKey, SpawnStateError> {
    let sealed = prepared(PLAIN, value, &[]);
    let key = PluginKey::Typed(ContractId(PLAIN));
    state
        .install(
            sealed.plugin,
            sealed.name,
            sealed.inject,
            ctx.duplicate(),
            key,
            ctx.duplicate(),
            7,
        )
        .map(|()| key)
}

#[test]
fn install_is_once_and_snapshots_stay_narrow() {
    let (ctx, root) = runtime();
    let mut state = SpawnState::new();
    let fiber = FiberId(1);

    let plugin_key = install(&mut state, &ctx, 3).unwrap();

    assert!(state.context_for(fiber).is_some());
    assert_eq!(state.root().unwrap(), root.runtime());
    assert!(state.apply_snapshot(fiber).is_ok());
    assert_eq!(state.contract(), Some(ContractId(PLAIN)));
    let recipe = state.era_recipe().unwrap_or_else(|_| panic!("a recipe"));
    assert_eq!(recipe.plugin_key, plugin_key);
    assert!(recipe.spawning_ctx.belongs_to(&root));

    assert_eq!(install(&mut state, &ctx, 4).unwrap_err(), SpawnStateError);
}

#[test]
fn a_deposited_change_installs_into_the_sealed_state() {
    let (ctx, _root) = runtime();
    let mut state = SpawnState::new();
    install(&mut state, &ctx, 3).unwrap();
    assert_eq!(state.commit_change(change(PLAIN, 9), 8), Ok(3));
    let snapshot = state
        .apply_snapshot(FiberId(1))
        .unwrap_or_else(|_| panic!("a snapshot"));
    assert_eq!(
        snapshot.state.1, 9,
        "the installed candidate, not the spawn-time value, reaches apply"
    );
    assert_eq!(state.effective_input(), Ok(8));
    state.restore(snapshot.state);
    assert_eq!(
        state.commit_change(change(FAILING, 9), 10),
        Err(SpawnStateError)
    );
}

// The Registry.

#[test]
fn registry_strongly_retains_an_admitted_fiber() {
    let mut registry = Registry::new();
    registry.attach_fiber(PluginKey::Anonymous(1), FiberId(1), 1);
    assert_eq!(registry.snapshot_fibers(), vec![FiberId(1)]);
    assert_eq!(registry.snapshot_fibers().len(), 1);
}

#[test]
fn terminal_unlink_drops_the_last_fiber_outside_registry_locks() {
    let (ctx, mut root) = runtime();
    let mut host = Host::new();
    let fiber = host
        .spawn(&ctx, &mut root, prepared(PLAIN, 1, &[]))
        .unwrap();
    let resident = root
        .registry()
        .snapshot_fibers()
        .pop()
        .expect("Fiber remains resident");
    assert_eq!(resident, fiber.id());
    root.release_residency(resident);
    assert_eq!(residents(&root), 0);
}

#[test]
fn typed_and_anonymous_claims_release_and_prune_their_exact_allocation() {
    let (ctx, mut root) = runtime();
    let mut host = Host::new();
    for key in [PluginKey::Typed(ContractId(8)), PluginKey::Anonymous(2)] {
        let id = fiber_requiring(&ctx, &mut root, PLAIN, &[]);
        let allocation = root.fresh();
        let claim = root.registry_mut().attach_fiber(key, id, allocation);
        root.fiber_mut(id).residency = Some(claim);
        assert_eq!(residents(&root), 1);

        host.dispose(&mut root, &FiberHandle::new(id));

        assert_eq!(residents(&root), 0);
        assert!(root.registry().allocation_of(key).is_none());
    }
}

#[test]
fn detached_members_remain_flat_residents_until_exact_terminal_release() {
    let mut registry = Registry::new();
    let key = PluginKey::Typed(ContractId(128));
    let (old, replacement) = (FiberId(1), FiberId(2));
    let first = registry.attach_fiber(key, old, 1);

    let detached = registry
        .detach(key)
        .expect("current typed allocation detaches");
    assert!(registry.allocation_of(key).is_none());
    assert!(registry.snapshot_fibers().contains(&old));

    let second = registry.attach_fiber(key, replacement, 2);
    let residents = registry.snapshot_fibers();
    assert_eq!(residents.len(), 2);
    assert!(residents.contains(&old));
    assert!(residents.contains(&replacement));

    registry.release(first);
    let residents = registry.snapshot_fibers();
    assert_eq!(residents.len(), 1);
    assert_eq!(residents[0], replacement);
    assert_eq!(registry.fiber_count(detached.allocation), 0);

    registry.release(second);
    assert!(registry.snapshot_fibers().is_empty());
}

#[test]
fn attach_first_defeats_prune_for_typed_and_anonymous_allocations() {
    let mut registry = Registry::new();
    for key in [PluginKey::Typed(ContractId(16)), PluginKey::Anonymous(7)] {
        let first = registry.attach_fiber(key, FiberId(1), 1);
        let allocation = registry.allocation_of(key).unwrap();

        let second = registry.attach_fiber(key, FiberId(2), 2);
        registry.release(first);

        assert_eq!(registry.fiber_count(allocation), 1);
        assert_eq!(registry.allocation_of(key).unwrap(), allocation);
        registry.release(second);
        assert!(registry.allocation_of(key).is_none());
    }
}

#[test]
fn prune_first_forces_a_fresh_typed_or_anonymous_allocation() {
    let mut registry = Registry::new();
    for key in [PluginKey::Typed(ContractId(32)), PluginKey::Anonymous(8)] {
        let first = registry.attach_fiber(key, FiberId(1), 1);
        let old = registry.allocation_of(key).unwrap();
        registry.release(first);
        assert!(registry.allocation_of(key).is_none());

        let replacement = registry.attach_fiber(key, FiberId(2), 2);
        let fresh = registry.allocation_of(key).unwrap();
        assert_ne!(old, fresh);
        registry.release(replacement);
    }
}

#[test]
fn releasing_an_old_claim_cannot_prune_a_typed_or_anonymous_replacement() {
    let mut registry = Registry::new();
    for key in [PluginKey::Typed(ContractId(64)), PluginKey::Anonymous(9)] {
        let first = registry.attach_fiber(key, FiberId(1), 1);

        let detached = registry.detach(key).unwrap();
        let replacement = registry.attach_fiber(key, FiberId(2), 2);

        registry.release(first);

        assert_eq!(registry.fiber_count(detached.allocation), 0);
        assert_eq!(registry.snapshot_fibers().len(), 1);
        assert_eq!(
            registry.allocation_of(key).unwrap(),
            replacement.allocation
        );
        registry.release(replacement);
        assert_eq!(registry.snapshot_fibers().len(), 0);
    }
}

// Snapshots and observation.

#[test]
fn disposed_record_remains_visible_until_exact_residency_unlink() {
    let (ctx, mut root) = runtime();
    let id = root.add_fiber(Fiber::new("disposed-before-unlink".to_owned()));
    let allocation = root.fresh();
    let claim = root
        .registry_mut()
        .attach_fiber(PluginKey::Anonymous(41), id, allocation);
    root.fiber_mut(id).residency = Some(claim);

    root.transition(id, FiberState::Disposed);

    let snapshot = ctx.runtime_snapshot(&root);
    let record = snapshot
        .fibers()
        .iter()
        .find(|record| record.id() == &id)
        .unwrap();
    assert_eq!(record.role(), FiberRole::Ordinary);
    assert_eq!(record.state(), FiberState::Disposed);
    assert!(record.missing_services().is_empty());

    root.release_residency(id);
    assert!(ctx
        .runtime_snapshot(&root)
        .fibers()
        .iter()
        .all(|record| record.id() != &id));
}

#[test]
fn loading_install_is_not_visibility_but_active_and_unlink_are_committed_records() {
    let (ctx, mut root) = runtime();
    let mut host = Host::new();
    let mut spawn = ctx.spawn(prepared(PROVIDER, 5, &[]));
    let mut reply = Reply::Go;
    loop {
        match spawn.step(&mut root, reply).unwrap() {
            Action::Apply { plugin, input, ctx } => {
                let outcome = host.apply(&mut root, &ctx, plugin, input);
                let loading = records(&mut root);
                assert!(loading.iter().any(|r| matches!(
                    r,
                    RuntimeObservation::FiberResidency {
                        change: ResidencyChange::Admitted,
                        ..
                    }
                )));
                assert!(loading.iter().any(|r| matches!(
                    r,
                    RuntimeObservation::FiberState {
                        previous: FiberState::Pending,
                        current: FiberState::Loading,
                        ..
                    }
                )));
                assert!(
                    !loading
                        .iter()
                        .any(|r| matches!(r, RuntimeObservation::ServiceVisibility { .. })),
                    "Loading occupation alone is not Service visibility"
                );
                assert!(matches!(
                    ctx.try_service::<Counter>(&root, COUNTER),
                    Err(ServiceLookupError::Unavailable { .. })
                ));
                reply = Reply::Applied(outcome);
                break;
            }
            action => reply = host.perform(&mut root, action),
        }
    }
    let mut pending = Some(reply);
    host.drive(&mut root, |root, reply| {
        spawn.step(root, pending.take().unwrap_or(reply))
    });
    let handle = spawn.outcome().unwrap().unwrap();
    let active = records(&mut root);
    assert!(active.iter().any(|r| matches!(
        r,
        RuntimeObservation::ServiceVisibility {
            previous: None,
            current: Some(_),
            ..
        }
    )));
    assert!(active.iter().any(|r| matches!(
        r,
        RuntimeObservation::FiberState {
            previous: FiberState::Loading,
            current: FiberState::Active,
            ..
        }
    )));
    assert_eq!(ctx.try_service::<Counter>(&root, COUNTER).ok(), Some(5));

    host.dispose(&mut root, &handle);
    let disposed = records(&mut root);
    assert!(disposed.iter().any(|r| matches!(
        r,
        RuntimeObservation::ServiceVisibility {
            previous: Some(_),
            current: None,
            ..
        }
    )));
    assert_eq!(
        disposed
            .iter()
            .filter(|r| matches!(
                r,
                RuntimeObservation::FiberResidency {
                    change: ResidencyChange::Removed,
                    ..
                }
            ))
            .count(),
        1
    );
    assert!(ctx.try_service::<Counter>(&root, COUNTER).is_err());
}

#[test]
fn restart_preserves_residency_while_era_swap_replaces_it_and_manual_withdraw_is_exact() {
    let (ctx, mut root) = runtime();
    let mut host = Host::new();
    let handle = host
        .spawn(&ctx, &mut root, prepared(PLAIN, 1, &[]))
        .unwrap();
    records(&mut root);

    host.restart(&mut root, &handle).unwrap();
    assert!(
        !records(&mut root)
            .iter()
            .any(|r| matches!(r, RuntimeObservation::FiberResidency { .. })),
        "same-Fiber restart is not a residency transition"
    );

    let old = handle.id();
    let mut swap = handle
        .era_swap(&root, SettleAttribution::none(), change(PLAIN, 2))
        .unwrap_or_else(|_| panic!("the swap is admitted"));
    host.finish_swap(&mut root, &mut swap);
    let successor = swap
        .outcome()
        .unwrap()
        .into_result()
        .unwrap_or_else(|_| panic!("a successor"));
    let replaced = records(&mut root);
    assert!(replaced.iter().any(|r| matches!(r,
        RuntimeObservation::FiberResidency { change: ResidencyChange::Removed, fiber } if fiber.id() == &old)));
    assert!(replaced.iter().any(|r| matches!(r,
        RuntimeObservation::FiberResidency { change: ResidencyChange::Admitted, fiber } if fiber.id() == &successor.id())));

    let publication = ctx.provide::<Counter>(&mut root, COUNTER, 1).ok().unwrap();
    assert!(records(&mut root).iter().any(|r| matches!(
        r,
        RuntimeObservation::ServiceVisibility {
            previous: None,
            current: Some(_),
            ..
        }
    )));
    assert!(publication.remove(&mut root).is_ok());
    assert!(records(&mut root).iter().any(|r| matches!(
        r,
        RuntimeObservation::ServiceVisibility {
            previous: Some(_),
            current: None,
            ..
        }
    )));
}

// Settling.

#[test]
fn semantic_target_uses_fiber_edges_and_exact_publication_assignments() {
    let (ctx, mut root) = runtime();
    let fiber = fiber_requiring(&ctx, &mut root, PLAIN, &["counter"]);
    let missing = target(&root, fiber);
    assert!(missing.has_missing());

    let publication = ctx.provide::<Counter>(&mut root, COUNTER, 1).ok().unwrap();
    let present = target(&root, fiber);
    assert!(!present.has_missing());
    assert!(!missing.same(&present));

    assert_eq!(publication.set(&mut root, 2).ok(), Some(1));
    assert!(
        present.same(&target(&root, fiber)),
        "same publication payload mutation is target-neutral"
    );
}

#[test]
fn target_neutral_recheck_during_release_is_acknowledged_without_another_pass() {
    let (ctx, mut root) = runtime();
    let fiber = fiber_requiring(&ctx, &mut root, PLAIN, &[]);
    assert!(root.fiber_mut(fiber).slot.try_claim());
    let live = target(&root, fiber);
    let revision = root.fiber(fiber).slot.recheck_revision();

    root.fiber_mut(fiber).slot.commit_recheck();

    assert!(
        !root
            .fiber_mut(fiber)
            .slot
            .exit_recheck(&live, &live, revision),
        "mechanism-only recheck revisions are not semantic target drift"
    );
    assert!(root.fiber(fiber).slot.is_idle());
    assert!(!root.fiber(fiber).slot.has_committed_recheck());
}

#[test]
fn index_state_is_not_needed_to_reconstruct_pending_diagnostics_or_target() {
    let (ctx, mut root) = runtime();
    let fiber = fiber_requiring(&ctx, &mut root, PLAIN, &["counter"]);
    root.deps_mut().disable();
    assert_eq!(root.missing_from(fiber), vec!["counter".to_owned()]);
    assert!(target(&root, fiber).has_missing());
}

#[test]
fn off_runtime_recheck_claims_releasing_slot_for_the_existing_holder() {
    let (ctx, mut root) = runtime();
    root.set_executor(false);
    let fiber = fiber_requiring(&ctx, &mut root, PLAIN, &["counter"]);
    root.fiber_mut(fiber).slot.begin_release();
    root.fiber_mut(fiber).slot.commit_recheck();

    root.kick(fiber);
    assert_eq!(root.fiber(fiber).slot.inertia(), Inertia::Active);
    assert!(root.fiber(fiber).slot.has_committed_recheck());
    root.fiber_mut(fiber).slot.abandon();
    assert!(root.fiber(fiber).slot.is_idle());
}

#[test]
fn changed_committed_effective_input_changes_the_semantic_target() {
    let (ctx, mut root) = runtime();
    let fiber = fiber_in_creation(&ctx, &mut root, PLAIN);
    let before = target(&root, fiber);
    assert!(
        before.same(&target(&root, fiber)),
        "plain restart with the same committed input is target-neutral"
    );

    let fresh = root.fresh();
    root.fiber_mut(fiber)
        .spawn_state
        .commit_change(change(PLAIN, 3), fresh)
        .unwrap();

    assert!(
        !before.same(&target(&root, fiber)),
        "a committed apply-input change is target drift"
    );
}

#[test]
fn a_convergence_winner_leaves_the_first_apply_to_the_initial_pass() {
    let (ctx, mut root) = runtime();
    let mut host = Host::new();
    let fiber = fiber_in_creation(&ctx, &mut root, PLAIN);

    assert!(root.fiber_mut(fiber).slot.try_claim());
    let mut settle = Settle::new(fiber, target(&root, fiber), false);
    host.drive(&mut root, |root, reply| settle.step(root, reply));
    assert!(
        host.applied.is_empty(),
        "a convergence pass never runs a creation-pending first apply"
    );
    assert_eq!(FiberHandle::new(fiber).state(&root), FiberState::Pending);
    root.fiber_mut(fiber).slot.abandon();

    assert!(matches!(
        initial(&mut host, &mut root, fiber),
        InitialOutcome::Active
    ));
    assert_eq!(
        host.applied.len(),
        1,
        "the creation applied exactly once"
    );
}

#[test]
fn a_first_apply_failure_is_the_creations_initial_apply_ending() {
    let (ctx, mut root) = runtime();
    let mut host = Host::new();
    let fiber = fiber_in_creation(&ctx, &mut root, FAILING);

    assert!(root.fiber_mut(fiber).slot.try_claim());
    let mut settle = Settle::new(fiber, target(&root, fiber), false);
    host.drive(&mut root, |root, reply| settle.step(root, reply));
    root.fiber_mut(fiber).slot.abandon();

    assert!(
        matches!(
            initial(&mut host, &mut root, fiber),
            InitialOutcome::Failed(_)
        ),
        "the first apply's failure is the creation's own ending"
    );
    assert_eq!(host.applied.len(), 1, "no second apply ran");
    assert!(!root.lives(fiber), "the attempted fiber was torn down");
}

#[test]
fn a_convergence_applies_a_never_applied_fiber_after_handoff() {
    let (ctx, mut root) = runtime();
    let mut host = Host::new();
    let fiber = fiber_in_creation(&ctx, &mut root, PLAIN);
    root.fiber_mut(fiber).creation_pending = false;

    assert!(root.fiber_mut(fiber).slot.try_claim());
    let mut settle = Settle::new(fiber, target(&root, fiber), false);
    host.drive(&mut root, |root, reply| settle.step(root, reply));
    root.fiber_mut(fiber).slot.abandon();
    assert_eq!(
        host.applied.len(),
        1,
        "post-handoff convergence runs the first apply normally"
    );
    assert_eq!(FiberHandle::new(fiber).state(&root), FiberState::Active);
}

#[test]
fn target_neutral_idle_recheck_does_not_reapply_the_settled_target() {
    let (ctx, mut root) = runtime();
    let mut host = Host::new();
    let fiber = fiber_in_creation(&ctx, &mut root, PLAIN);
    assert!(matches!(
        initial(&mut host, &mut root, fiber),
        InitialOutcome::Active
    ));
    root.fiber_mut(fiber).creation_pending = false;
    assert_eq!(host.applied.len(), 1);

    root.fiber_mut(fiber).slot.commit_recheck();
    root.kick(fiber);
    host.run_passes(&mut root);
    assert!(root.fiber(fiber).slot.is_idle());

    assert_eq!(
        host.applied.len(),
        1,
        "same SemanticTarget rechecks must not trigger another apply"
    );
    assert!(!root.fiber(fiber).slot.has_committed_recheck());
}

#[test]
fn initial_spawn_pass_stays_pending_and_releases_when_services_missing() {
    let (ctx, mut root) = runtime();
    let mut host = Host::new();
    let fiber = fiber_requiring(&ctx, &mut root, PLAIN, &["counter"]);
    assert!(
        matches!(
            initial(&mut host, &mut root, fiber),
            InitialOutcome::Pending
        ),
        "missing requirements end the pass as stable Pending"
    );
    assert_eq!(FiberHandle::new(fiber).state(&root), FiberState::Pending);
    assert!(root.fiber(fiber).slot.current_target().unwrap().has_missing());
    assert!(root.fiber(fiber).slot.is_idle());
}

#[test]
fn initial_spawn_pass_on_an_invalidated_fiber_reports_interrupted() {
    let (ctx, mut root) = runtime();
    let mut host = Host::new();
    let fiber = fiber_requiring(&ctx, &mut root, PLAIN, &[]);
    let allocation = root.fresh();
    let claim = root
        .registry_mut()
        .attach_fiber(PluginKey::Anonymous(1), fiber, allocation);
    root.fiber_mut(fiber).residency = Some(claim);
    host.dispose(&mut root, &FiberHandle::new(fiber));

    assert!(
        matches!(
            initial(&mut host, &mut root, fiber),
            InitialOutcome::Interrupted
        ),
        "invalidation before the pass reports Interrupted"
    );
    assert!(
        root.fiber(fiber).slot.is_idle(),
        "the arbiter is released"
    );
    assert_eq!(
        residents(&root),
        0,
        "no resident attempted Fiber remains observable"
    );
}

#[test]
fn requested_publication_survives_state_notification_race() {
    let mut state = StatePublication::new(FiberState::Pending);
    let (_, before_loading) = state.snapshot(FiberState::Loading);

    state.publish(FiberState::Loading);
    state.publish(FiberState::Active);

    assert_eq!(
        state.wait_for_after(FiberState::Loading, before_loading, false),
        WaitStep::Satisfied,
        "the durable Loading revision survives a superseding Active publication"
    );
    assert_eq!(state.current(), FiberState::Active);
}

// Services.

#[test]
fn visible_publish_commits_recheck_before_kick_window() {
    let (ctx, mut root) = runtime();
    let mut host = Host::new();
    let dependent = host
        .spawn(&ctx, &mut root, prepared(PLAIN, 1, &["counter"]))
        .unwrap();
    assert_eq!(dependent.state(&root), FiberState::Pending);

    // Without an executor the publication's own drive does nothing: only the
    // recheck it committed is left, and the wait drives it.
    root.set_executor(false);
    let publication = ctx.provide::<Counter>(&mut root, COUNTER, 7).ok().unwrap();
    assert!(root.take_passes().is_empty());
    root.set_executor(true);

    assert_eq!(
        host.ready(&mut root, &dependent).unwrap(),
        FiberState::Active,
        "ready drives the already-committed recheck"
    );
    assert_eq!(host.applied.len(), 1);
    drop(publication);
    assert_eq!(
        ctx.try_service::<Counter>(&root, COUNTER).ok(),
        Some(7),
        "dropping the publication capability is inert"
    );
}

#[test]
fn a_dependent_follows_its_service() {
    let (ctx, mut root) = runtime();
    let mut host = Host::new();
    let dependent = host
        .spawn(&ctx, &mut root, prepared(PLAIN, 1, &["counter"]))
        .unwrap();
    assert_eq!(dependent.pending_missing(&root), vec!["counter".to_owned()]);
    let publication = ctx.provide::<Counter>(&mut root, COUNTER, 7).ok().unwrap();
    host.run_passes(&mut root);
    assert_eq!(dependent.state(&root), FiberState::Active);
    assert!(dependent.pending_missing(&root).is_empty());

    assert!(publication.remove(&mut root).is_ok());
    host.run_passes(&mut root);
    assert_eq!(dependent.state(&root), FiberState::Pending);

    let _again = ctx.provide::<Counter>(&mut root, COUNTER, 8).ok().unwrap();
    host.run_passes(&mut root);
    assert_eq!(dependent.state(&root), FiberState::Active);
    assert_eq!(host.applied.len(), 2);
}

#[test]
fn publications_are_refused_for_their_reasons() {
    let (ctx, mut root) = runtime();
    let mut host = Host::new();
    let first = ctx.provide::<Counter>(&mut root, COUNTER, 1).ok().unwrap();
    assert!(matches!(
        ctx.provide::<Counter>(&mut root, COUNTER, 2),
        Err(ServicePublishError::DuplicatePublication { .. })
    ));
    assert!(matches!(
        ctx.provide::<Counter>(&mut root, ContractId(101), 2),
        Err(ServicePublishError::ContractMismatch { .. })
    ));
    assert!(matches!(
        ctx.try_service::<Counter>(&root, ContractId(101)),
        Err(ServiceLookupError::ContractMismatch { .. })
    ));
    let private = ctx.with_isolated_service(&mut root, "counter");
    assert!(
        matches!(
            private.try_service::<Counter>(&root, COUNTER),
            Err(ServiceLookupError::Unavailable { .. })
        ),
        "a private realm is not served from the default one"
    );
    assert!(private.provide::<Counter>(&mut root, COUNTER, 3).is_ok());
    assert_eq!(private.try_service::<Counter>(&root, COUNTER).ok(), Some(3));
    assert_eq!(ctx.try_service::<Counter>(&root, COUNTER).ok(), Some(1));
    assert_eq!(first.set(&mut root, 4).ok(), Some(1));
    assert_eq!(ctx.try_service::<Counter>(&root, COUNTER).ok(), Some(4));

    let fiber = host
        .spawn(&ctx, &mut root, prepared(PLAIN, 1, &[]))
        .unwrap();
    let owned = ctx.with_fiber(fiber.id());
    let isolated = owned.with_isolated_service(&mut root, "counter");
    let stale = isolated.provide::<Counter>(&mut root, COUNTER, 5).ok().unwrap();
    host.dispose(&mut root, &fiber);
    assert!(matches!(
        stale.set(&mut root, 6),
        Err(ServiceControlError::StalePublication { .. })
    ));
    assert!(matches!(
        isolated.provide::<Counter>(&mut root, COUNTER, 5),
        Err(ServicePublishError::InactiveContext)
    ));
}

// Creation.

#[test]
fn a_spawned_fiber_is_active_or_pending_or_not_there() {
    let (ctx, mut root) = runtime();
    let mut host = Host::new();
    let active = host
        .spawn(&ctx, &mut root, prepared(PLAIN, 1, &[]))
        .unwrap();
    assert_eq!(active.state(&root), FiberState::Active);
    assert_eq!(active.name(&root), "test");

    let failed = host.spawn(&ctx, &mut root, prepared(FAILING, 1, &[]));
    match failed {
        Err(SpawnError::InitialApply(failure)) => {
            assert_eq!(failure.diagnostic(), "test apply failure")
        }
        _ => panic!("a failed apply ends the creation"),
    }
    assert!(host
        .spawn(&ctx, &mut root, prepared(PANICKING, 1, &[]))
        .is_err());
    assert_eq!(residents(&root), 1);

    host.dispose(&mut root, &active);
    let closed = ctx.with_fiber(active.id());
    assert!(matches!(
        host.spawn(&closed, &mut root, prepared(PLAIN, 1, &[])),
        Err(SpawnError::InactiveContext)
    ));
    assert_eq!(residents(&root), 0);
}

fn spawn_up_to_handoff(host: &mut Host, root: &mut Root, spawn: &mut Spawn) -> (FiberId, Reply) {
    let mut reply = Reply::Go;
    for _ in 0..100 {
        match spawn.step(root, reply).unwrap() {
            Action::Apply { plugin, input, ctx } => {
                let outcome = host.apply(root, &ctx, plugin, input);
                return (ctx.fiber(), Reply::Applied(outcome));
            }
            action => reply = host.perform(root, action),
        }
    }
    panic!("the creation does not apply");
}

/// Only a framework invalidation before the handoff interrupts a creation; a
/// caller that goes away leaves the cleanup to the framework, and an
/// invalidation after the handoff is an ordinary disposal.
#[test]
fn handoff_barrier_discriminates_invalidation_from_caller_cancellation() {
    let (ctx, mut root) = runtime();
    let mut host = Host::new();

    let mut spawn = ctx.spawn(prepared(PLAIN, 1, &[]));
    let (_, reply) = spawn_up_to_handoff(&mut host, &mut root, &mut spawn);
    assert!(spawn.step(&mut root, reply).is_some());
    let mut removal = ctx
        .remove_plugins(&mut root, &SettleAttribution::none(), ContractId(PLAIN))
        .unwrap_or_else(|_| panic!("no recursion"));
    host.drive(&mut root, |root, _| removal.step(root));
    assert_eq!(residents(&root), 0);
    host.drive(&mut root, |root, reply| spawn.step(root, reply));
    assert!(matches!(
        spawn.outcome().unwrap(),
        Err(SpawnError::Interrupted)
    ));
    assert_eq!(residents(&root), 0);

    let mut cancelled = ctx.spawn(prepared(CLEANING, 60, &[]));
    let (_, reply) = spawn_up_to_handoff(&mut host, &mut root, &mut cancelled);
    let mut pending = Some(reply);
    assert!(cancelled
        .step(&mut root, pending.take().unwrap())
        .is_some());
    let mut disposal: Disposal = cancelled
        .cancel()
        .unwrap_or_else(|| panic!("the Fiber is undelivered"));
    host.drive(&mut root, |root, _| disposal.step(root));
    assert_eq!(host.cleaned, vec![61, 60]);
    assert_eq!(residents(&root), 0);

    let handed = host
        .spawn(&ctx, &mut root, prepared(PLAIN, 1, &[]))
        .unwrap();
    host.dispose(&mut root, &handed);
    assert_eq!(handed.state(&root), FiberState::Disposed);
}

// Replacement.

#[test]
fn a_restart_closes_one_generation_and_opens_the_next() {
    let (ctx, mut root) = runtime();
    let mut host = Host::new();
    let fiber = host
        .spawn(&ctx, &mut root, prepared(CLEANING, 20, &[]))
        .unwrap();
    host.restart(&mut root, &fiber).unwrap();
    assert_eq!(host.cleaned, vec![21, 20]);
    assert_eq!(host.applied, vec![(CLEANING, 20), (CLEANING, 20)]);
    assert_eq!(fiber.state(&root), FiberState::Active);

    host.dispose(&mut root, &fiber);
    assert!(matches!(
        host.restart(&mut root, &fiber),
        Err(RestartError::Closed)
    ));
}

fn update(
    host: &mut Host,
    root: &mut Root,
    handle: &FiberHandle,
    candidate: PreparedChange,
) -> Result<UpdateOutcome, UpdateError> {
    let mut control = handle.update(root, &SettleAttribution::none(), &candidate)?;
    let mut action = control.start(root.updates_mut(), candidate);
    loop {
        match action {
            // Callback 1 doubles the input, callback 2 vetoes, callback 3 fails,
            // callback 4 passes on what its continuation returns.
            ControlAction::Invoke { hook, input } => {
                let event = match hook.kind {
                    UpdateKind::Mapper(3) => ChainEvent::Returned(Err(
                        InvocationFailure::returned("control boom".to_owned()),
                    )),
                    UpdateKind::Mapper(_) => ChainEvent::Returned(Ok(input * 2)),
                    UpdateKind::Around(2) => ChainEvent::AroundReturned {
                        depth: 0,
                        result: Ok(input),
                    },
                    UpdateKind::Around(_) => ChainEvent::NextCalled(input),
                };
                action = control.step(root.updates_mut(), event);
            }
            ControlAction::Resume(result) => {
                action = control.step(
                    root.updates_mut(),
                    ChainEvent::AroundReturned { depth: 0, result },
                );
            }
            ControlAction::Ignore => panic!("the control waits for this event"),
            ControlAction::Done(Ok(accepted)) => {
                return match handle.controlled(accepted) {
                    Ok(mut pass) => {
                        host.drive(root, |root, reply| pass.step(root, reply));
                        FiberHandle::updated(pass.outcome().unwrap()).unwrap()
                    }
                    Err(outcome) => Ok(outcome),
                };
            }
            ControlAction::Done(Err(failure)) => return Err(UpdateError::Control(failure)),
        }
    }
}

#[test]
fn an_update_replaces_the_input_of_the_same_fiber() {
    let (ctx, mut root) = runtime();
    let mut host = Host::new();
    let fiber = host
        .spawn(&ctx, &mut root, prepared(PLAIN, 1, &[]))
        .unwrap();
    assert_eq!(
        update(&mut host, &mut root, &fiber, change(PLAIN, 5)).unwrap(),
        UpdateOutcome::Committed(FiberState::Active)
    );
    assert_eq!(host.applied, vec![(PLAIN, 1), (PLAIN, 5)]);
    assert_eq!(host.released, vec![1]);
    assert!(matches!(
        update(&mut host, &mut root, &fiber, change(FAILING, 5)),
        Err(UpdateError::PluginContractMismatch)
    ));
}

#[test]
fn update_listeners_transform_veto_and_fail() {
    let (ctx, mut root) = runtime();
    let mut host = Host::new();
    let fiber = host
        .spawn(&ctx, &mut root, prepared(PLAIN, 1, &[]))
        .unwrap();
    let around = ctx
        .on_update(
            &mut root,
            ContractId(PLAIN),
            UpdateKind::Around(4),
            ListenerOptions::default(),
        )
        .ok()
        .unwrap();
    let mapper = ctx
        .on_update(
            &mut root,
            ContractId(PLAIN),
            UpdateKind::Mapper(1),
            ListenerOptions::default(),
        )
        .ok()
        .unwrap();
    assert_eq!(
        update(&mut host, &mut root, &fiber, change(PLAIN, 5)).unwrap(),
        UpdateOutcome::Committed(FiberState::Active)
    );
    assert_eq!(host.applied.last(), Some(&(PLAIN, 10)));

    assert!(mapper.remove(&mut root));
    assert!(around.remove(&mut root));
    let veto = ctx
        .on_update(
            &mut root,
            ContractId(PLAIN),
            UpdateKind::Around(2),
            ListenerOptions::default(),
        )
        .ok()
        .unwrap();
    assert_eq!(
        update(&mut host, &mut root, &fiber, change(PLAIN, 6)).unwrap(),
        UpdateOutcome::Vetoed
    );
    assert_eq!(host.applied.last(), Some(&(PLAIN, 10)), "a veto changes nothing");
    assert!(veto.remove(&mut root));

    let failing = ctx
        .on_update(
            &mut root,
            ContractId(PLAIN),
            UpdateKind::Mapper(3),
            ListenerOptions::default(),
        )
        .ok()
        .unwrap();
    match update(&mut host, &mut root, &fiber, change(PLAIN, 6)) {
        Err(UpdateError::Control(failure)) => {
            assert_eq!(failure.kind(), InvocationFailureKind::ReturnedError);
            assert_eq!(failure.registration_id(), Some(&failing.id));
        }
        _ => panic!("a failed control refuses the update"),
    }
}

// Era replacement.

#[test]
fn racing_swaps_admit_exactly_one_successor_fiber() {
    let (ctx, mut root) = runtime();
    let mut host = Host::new();
    let source = host
        .spawn(&ctx, &mut root, prepared(PLAIN, 1, &[]))
        .unwrap();
    let before = root.fiber_count();
    let mut left = source
        .era_swap(&root, SettleAttribution::none(), change(PLAIN, 2))
        .unwrap_or_else(|_| panic!("admitted"));
    let mut right = source
        .era_swap(&root, SettleAttribution::none(), change(PLAIN, 3))
        .unwrap_or_else(|_| panic!("admitted"));
    // The left swap claims the source; the right one waits for the slot and then
    // finds the source closed.
    let action = left.step(&mut root, Reply::Go).unwrap();
    assert!(matches!(
        right.step(&mut root, Reply::Go),
        Some(Action::Wait)
    ));
    let mut pending = Some(host.perform(&mut root, action));
    host.drive(&mut root, |root, reply| {
        left.step(root, pending.take().unwrap_or(reply))
    });
    host.finish_swap(&mut root, &mut right);
    let loser = right.outcome().unwrap().into_result();
    assert!(matches!(
        loser,
        Err(EraOwnerFailure::Transaction(EraSwapError::Closed))
    ));
    let winner = left
        .outcome()
        .unwrap()
        .into_result()
        .unwrap_or_else(|_| panic!("one swap wins"));
    assert_eq!(root.fiber_count(), before + 1);
    assert_eq!(host.applied.last(), Some(&(PLAIN, 2)));
    host.dispose(&mut root, &winner);
}

#[test]
fn unconsumed_success_offer_cleans_the_offered_successor() {
    let (ctx, mut root) = runtime();
    let mut host = Host::new();
    let source = host
        .spawn(&ctx, &mut root, prepared(CLEANING, 1, &[]))
        .unwrap();
    let mut swap = source
        .era_swap(&root, SettleAttribution::none(), change(CLEANING, 11))
        .unwrap_or_else(|_| panic!("admitted"));
    host.finish_swap(&mut root, &mut swap);
    let successor = FiberId(root.fiber_count() - 1);
    assert_eq!(
        FiberHandle::new(successor).state(&root),
        FiberState::Active
    );
    let mut undelivered = swap
        .undelivered(&root)
        .unwrap_or_else(|| panic!("the offer was not consumed"));
    host.drive(&mut root, |root, _| undelivered.step(root));
    assert_eq!(
        FiberHandle::new(successor).state(&root),
        FiberState::Disposed
    );
    assert_eq!(host.cleaned, vec![2, 1, 12, 11]);
    assert_eq!(residents(&root), 0);
    host.dispose(&mut root, &source);
}

#[test]
fn era_replacements_fail_for_their_reasons() {
    let (ctx, mut root) = runtime();
    let mut host = Host::new();
    let source = host
        .spawn(&ctx, &mut root, prepared(PLAIN, 1, &[]))
        .unwrap();
    assert!(matches!(
        source.era_swap(&root, SettleAttribution::none(), change(FAILING, 2)),
        Err(EraSwapError::PluginContractMismatch)
    ));
    let inside = SettleAttribution {
        settling: vec![source.id()],
        tasks: Vec::new(),
    };
    match source.era_swap(&root, inside, change(PLAIN, 2)) {
        Err(EraSwapError::Recursion(recursion)) => {
            assert_eq!(recursion.operation(), LifecycleOperation::EraSwap);
            assert_eq!(recursion.fiber_id(), &source.id());
        }
        _ => panic!("a Fiber cannot replace itself from its own settle"),
    }
    host.panic_on_release = true;
    let mut swap = source
        .era_swap(&root, SettleAttribution::none(), change(PLAIN, 2))
        .unwrap_or_else(|_| panic!("admitted"));
    host.finish_swap(&mut root, &mut swap);
    assert!(matches!(
        swap.outcome().unwrap().into_result(),
        Err(EraOwnerFailure::InputDropPanic)
    ));
    assert!(matches!(
        source.era_swap(&root, SettleAttribution::none(), change(PLAIN, 2)),
        Err(EraSwapError::Closed)
    ));
}

#[test]
fn an_invalidated_successor_is_lost() {
    let (ctx, mut root) = runtime();
    let mut host = Host::new();
    let source = host
        .spawn(&ctx, &mut root, prepared(CLEANING, 1, &[]))
        .unwrap();
    let mut swap = source
        .era_swap(&root, SettleAttribution::none(), change(CLEANING, 20))
        .unwrap_or_else(|_| panic!("admitted"));
    let mut reply = Reply::Go;
    loop {
        match swap.step(&mut root, reply).unwrap() {
            Action::Apply { plugin, input, ctx } => {
                reply = Reply::Applied(host.apply(&mut root, &ctx, plugin, input));
                break;
            }
            action => reply = host.perform(&mut root, action),
        }
    }
    assert!(swap.step(&mut root, reply).is_some());
    let mut removal = ctx
        .remove_plugins(&mut root, &SettleAttribution::none(), ContractId(CLEANING))
        .unwrap_or_else(|_| panic!("no recursion"));
    host.drive(&mut root, |root, _| removal.step(root));
    assert_eq!(host.cleaned, vec![2, 1, 21, 20]);
    assert_eq!(residents(&root), 0);
    host.finish_swap(&mut root, &mut swap);
    assert!(matches!(
        swap.outcome().unwrap().into_result(),
        Err(EraOwnerFailure::Transaction(EraSwapError::Incomplete(
            EraSwapFailure::SuccessorLost
        )))
    ));
    assert_eq!(residents(&root), 0);
}

#[test]
fn a_plugin_group_is_removed_member_by_member() {
    let (ctx, mut root) = runtime();
    let mut host = Host::new();
    let first = host
        .spawn(&ctx, &mut root, prepared(CLEANING, 10, &[]))
        .unwrap();
    let second = host
        .spawn(&ctx, &mut root, prepared(CLEANING, 20, &[]))
        .unwrap();
    let kept = host
        .spawn(&ctx, &mut root, prepared(PLAIN, 1, &[]))
        .unwrap();
    let mut removal = ctx
        .remove_plugins(&mut root, &SettleAttribution::none(), ContractId(CLEANING))
        .unwrap_or_else(|_| panic!("no recursion"));
    host.drive(&mut root, |root, _| removal.step(root));
    assert_eq!(host.cleaned, vec![11, 10, 21, 20]);
    assert_eq!(first.state(&root), FiberState::Disposed);
    assert_eq!(second.state(&root), FiberState::Disposed);
    assert_eq!(kept.state(&root), FiberState::Active);
    assert_eq!(residents(&root), 1);
}

#[test]
fn a_failed_fiber_reports_its_failure_when_it_is_ready() {
    let (ctx, mut root) = runtime();
    let mut host = Host::new();
    let failing = host
        .spawn(&ctx, &mut root, prepared(FAILING, 1, &["counter"]))
        .unwrap();
    assert_eq!(failing.state(&root), FiberState::Pending);
    let _publication = ctx.provide::<Counter>(&mut root, COUNTER, 7).ok().unwrap();
    match host.ready(&mut root, &failing) {
        Err(ReadyError::Apply(failure)) => {
            assert_eq!(failure.diagnostic(), "test apply failure")
        }
        _ => panic!("the parked failure is reported"),
    }
    assert_eq!(failing.state(&root), FiberState::Failed);
}

// Declarations.

#[test]
fn an_overlay_replaces_the_declarations_of_its_names() {
    let base = InjectSpec::none()
        .require("alpha")
        .require_configured("beta", ConfiguredLayer::new(ContractId(1), 5));
    let overlay = InjectSpec::none()
        .require_configured("alpha", ConfiguredLayer::new(ContractId(2), 6))
        .require("gamma");
    let sealed = PreparedPlugin::from_input(ContractId(PLAIN), PLAIN, 1, "test".to_owned(), base)
        .with_inject_overlay(overlay);
    let names: Vec<&str> = sealed
        .inject
        .entries()
        .iter()
        .map(|entry| entry.name.as_str())
        .collect();
    assert_eq!(names, ["alpha", "beta", "gamma"]);
    assert_eq!(
        sealed.inject.entries()[0].configured,
        Some(ConfiguredLayer::new(ContractId(2), 6))
    );
    assert_eq!(
        sealed.inject.entries()[1].configured,
        Some(ConfiguredLayer::new(ContractId(1), 5))
    );
    assert_eq!(sealed.inject.entries()[2].configured, None);
}

#[test]
fn a_configured_declaration_reaches_the_fibers_own_context() {
    let (ctx, mut root) = runtime();
    let mut host = Host::new();
    let inject = InjectSpec::none()
        .require_configured(ReentrantConfig::NAME, ConfiguredLayer::new(CONFIG, 7));
    let sealed =
        PreparedPlugin::from_input(ContractId(PLAIN), PLAIN, 1, "test".to_owned(), inject);
    let outer = ctx.with_intercept::<ReentrantConfig>(CONFIG, 3);
    let fiber = host.spawn(&outer, &mut root, sealed).unwrap();
    let own = root.fiber(fiber.id()).spawn_state.context_for(fiber.id()).unwrap();
    assert_eq!(
        own.resolve_config::<ReentrantConfig>(CONFIG, None, None).unwrap(),
        vec![3, 7]
    );
}

// Generation-owned registrations.

#[test]
fn a_closed_generation_takes_its_registrations_with_it() {
    let (ctx, mut root) = runtime();
    let mut host = Host::new();
    let fiber = host
        .spawn(&ctx, &mut root, prepared(PLAIN, 1, &[]))
        .unwrap();
    let own = root.fiber(fiber.id()).spawn_state.context_for(fiber.id()).unwrap();
    assert!(generation_cleanup_admitted(&own, &root));
    let exporter = own.add_exporter(&mut root, 9).ok().unwrap();
    assert!(own.observe_runtime(&mut root, 8).is_ok());
    assert!(own.run(&mut root, 7).is_ok());
    assert_eq!(own.logger(&root).name(), "test");

    host.dispose(&mut root, &fiber);
    assert_eq!(host.cleaned, vec![7], "only the task is joined by the host");
    assert!(!exporter.remove(&mut root), "the exporter went with its owner");
    assert!(!generation_cleanup_admitted(&own, &root));
    assert!(own.effect_sync(&mut root, 1).is_err());
    records(&mut root);
    let _publication = ctx.provide::<Counter>(&mut root, COUNTER, 7).ok().unwrap();
    assert!(root
        .hub_mut()
        .take()
        .iter()
        .all(|publication| publication.observers.is_empty()));
}

#[test]
fn a_task_needs_an_executor() {
    let (ctx, mut root) = runtime();
    root.set_executor(false);
    assert!(matches!(
        ctx.run(&mut root, 7),
        Err(TaskRegistrationError::ExecutorUnavailable)
    ));
}

#[test]
fn a_racing_disposal_joins_the_first_at_its_full_barrier() {
    let (ctx, mut root) = runtime();
    let mut host = Host::new();
    let fiber = host
        .spawn(&ctx, &mut root, prepared(CLEANING, 40, &[]))
        .unwrap();
    let own = root.fiber(fiber.id()).spawn_state.context_for(fiber.id()).unwrap();
    let mut first = fiber.dispose(&root, &SettleAttribution::none()).unwrap();
    let mut second = fiber.dispose(&root, &SettleAttribution::none()).unwrap();

    let action = first.step(&mut root).unwrap();
    assert!(!root.lives(fiber.id()), "the Fiber dies before its drain");
    assert!(own.effect_sync(&mut root, 1).is_err());
    assert!(matches!(second.step(&mut root), Some(Action::Wait)));

    host.perform(&mut root, action);
    host.drive(&mut root, |root, _| first.step(root));
    assert!(second.step(&mut root).is_none());
    assert_eq!(host.cleaned, vec![41, 40]);
    assert_eq!(residents(&root), 0);
}

#[test]
fn a_replacement_closes_the_old_generation_before_its_drain() {
    let (ctx, mut root) = runtime();
    let mut host = Host::new();
    let fiber = host
        .spawn(&ctx, &mut root, prepared(CLEANING, 40, &[]))
        .unwrap();
    let own = root.fiber(fiber.id()).spawn_state.context_for(fiber.id()).unwrap();
    let mut pass = fiber.restart(&root, &SettleAttribution::none()).unwrap();
    let action = pass.step(&mut root, Reply::Go).unwrap();
    assert!(matches!(action, Action::Cleanup(_)));
    assert!(own.effect_sync(&mut root, 1).is_err());
    let mut pending = Some(host.perform(&mut root, action));
    host.drive(&mut root, |root, reply| {
        pass.step(root, pending.take().unwrap_or(reply))
    });
    assert!(own.effect_sync(&mut root, 1).is_ok());
}

#[test]
fn a_wait_for_quiescence_outlasts_an_undriven_recheck() {
    let (ctx, mut root) = runtime();
    let mut host = Host::new();
    let dependent = host
        .spawn(&ctx, &mut root, prepared(PLAIN, 1, &["counter"]))
        .unwrap();
    root.set_executor(false);
    let _publication = ctx.provide::<Counter>(&mut root, COUNTER, 7).ok().unwrap();
    let ready = dependent.ready(&root, &SettleAttribution::none()).unwrap();
    assert!(ready.poll(&mut root).is_none());
    root.set_executor(true);
    assert!(ready.poll(&mut root).is_none(), "the pass is only started");
    host.run_passes(&mut root);
    assert_eq!(ready.poll(&mut root).unwrap().unwrap(), FiberState::Active);
}

#[test]
fn self_waits_are_refused() {
    let (ctx, mut root) = runtime();
    let mut host = Host::new();
    let fiber = host
        .spawn(&ctx, &mut root, prepared(PLAIN, 1, &[]))
        .unwrap();
    let inside = SettleAttribution {
        settling: vec![fiber.id()],
        tasks: Vec::new(),
    };
    assert!(matches!(
        fiber.ready(&root, &inside),
        Err(ReadyError::Recursion(_))
    ));
    assert!(matches!(
        fiber.restart(&root, &inside),
        Err(RestartError::Recursion(_))
    ));
    let recursion = fiber.dispose(&root, &inside).err().unwrap();
    assert_eq!(recursion.operation(), LifecycleOperation::Dispose);
    let removal = ctx
        .remove_plugins(&mut root, &inside, ContractId(PLAIN))
        .err()
        .unwrap();
    assert_eq!(removal.operation(), LifecycleOperation::RemovePlugins);

    // A task the generation owns may wait for its Fiber, but not end it.
    let task = SettleAttribution {
        settling: Vec::new(),
        tasks: vec![fiber.id()],
    };
    assert!(fiber.ready(&root, &task).is_ok());
    assert!(fiber.dispose(&root, &task).is_err());
}

#[test]
fn tenants_share_what_they_map_to_one_realm() {
    let (ctx, mut root) = runtime();
    let shared = ctx.new_service_realm(&mut root);
    let (db_a, db_b) = (
        ctx.new_service_realm(&mut root),
        ctx.new_service_realm(&mut root),
    );
    assert_ne!(db_a, db_b);
    let tenant_a = ctx
        .with_service_realms(vec![
            ("database".to_owned(), db_a),
            ("counter".to_owned(), shared),
        ])
        .unwrap();
    let tenant_b = ctx
        .with_service_realms(vec![
            ("database".to_owned(), db_b),
            ("counter".to_owned(), shared),
        ])
        .unwrap();
    assert!(tenant_a.provide::<Counter>(&mut root, COUNTER, 7).is_ok());
    assert_eq!(tenant_b.try_service::<Counter>(&root, COUNTER).ok(), Some(7));
    assert!(ctx.try_service::<Counter>(&root, COUNTER).is_err());
    assert_ne!(
        tenant_a.isolate_key(&"database".to_owned()),
        tenant_b.isolate_key(&"database".to_owned())
    );
    assert_eq!(
        tenant_a.isolate_key(&"other".to_owned()),
        RealmKey::default_realm()
    );
}

#[test]
fn a_snapshot_shows_what_a_lookup_finds() {
    let (ctx, mut root) = runtime();
    let mut host = Host::new();
    let fiber = host
        .spawn(&ctx, &mut root, prepared(PROVIDER, 5, &[]))
        .unwrap();
    let snapshot = ctx.runtime_snapshot(&root);
    assert_eq!(snapshot.fibers().len(), 2);
    assert_eq!(snapshot.fibers()[0].role(), FiberRole::Root);
    assert_eq!(snapshot.services().len(), 1);
    let service = &snapshot.services()[0];
    assert_eq!(service.service(), "counter");
    assert_eq!(service.provider(), &fiber.id());
    assert!(service.visible());
    assert_eq!(service.realm().key(), RealmKey::default_realm());
}

#[test]
fn a_passive_wait_sees_publications_and_its_deadline() {
    let (ctx, mut root) = runtime();
    let mut host = Host::new();
    let fiber = host
        .spawn(&ctx, &mut root, prepared(PLAIN, 1, &[]))
        .unwrap();
    let by = SettleAttribution::none();
    let active = fiber.wait_state(&root, &by, FiberState::Active).unwrap();
    assert!(matches!(active.poll(&root, false), Some(Ok(()))));
    let loading = fiber.wait_state(&root, &by, FiberState::Loading).unwrap();
    assert!(loading.poll(&root, false).is_none());
    assert!(matches!(loading.poll(&root, true), Some(Err(_))));
    host.restart(&mut root, &fiber).unwrap();
    assert!(
        matches!(loading.poll(&root, true), Some(Ok(()))),
        "a superseded publication still satisfies the wait"
    );
}

#[test]
fn a_removed_publication_makes_room_for_another_identity() {
    let (ctx, mut root) = runtime();
    let first = ctx.provide::<Counter>(&mut root, COUNTER, 1).ok().unwrap();
    let id = *ctx.runtime_snapshot(&root).services()[0].id();
    records(&mut root);
    assert!(matches!(
        ctx.provide::<Counter>(&mut root, COUNTER, 2),
        Err(ServicePublishError::DuplicatePublication { .. })
    ));
    assert!(records(&mut root).is_empty());
    assert!(first.remove(&mut root).is_ok());
    let removed = records(&mut root);
    assert_eq!(removed.len(), 1);
    assert!(matches!(
        &removed[0],
        RuntimeObservation::ServiceVisibility { previous: Some(p), current: None, .. } if *p == id
    ));
    assert!(matches!(
        ctx.try_service::<Counter>(&root, COUNTER),
        Err(ServiceLookupError::Unavailable { .. })
    ));
    assert!(ctx.provide::<Counter>(&mut root, COUNTER, 3).is_ok());
    assert!(*ctx.runtime_snapshot(&root).services()[0].id() != id);
}

#[test]
fn a_snapshot_has_one_record_per_fiber() {
    let (ctx, mut root) = runtime();
    let fresh = ctx.runtime_snapshot(&root);
    assert_eq!(fresh.fibers().len(), 1);
    assert_eq!(fresh.fibers()[0].name(), "root");
    assert_eq!(fresh.fibers()[0].state(), FiberState::Active);
    assert!(fresh.services().is_empty());

    let mut host = Host::new();
    for input in 0..3 {
        host.spawn(&ctx, &mut root, prepared(PLAIN, input, &[]))
            .unwrap();
    }
    let snapshot = ctx.runtime_snapshot(&root);
    let fibers = snapshot.fibers();
    assert_eq!(fibers.len(), 4);
    for i in 0..fibers.len() {
        assert_eq!(fibers[i].role() == FiberRole::Root, i == 0);
        for j in 0..i {
            assert!(fibers[i].id() != fibers[j].id());
        }
    }
}

#[test]
fn a_panic_of_the_superseded_input_leaves_an_update_committed() {
    let (ctx, mut root) = runtime();
    let mut host = Host::new();
    let fiber = host
        .spawn(&ctx, &mut root, prepared(CLEANING, 1, &[]))
        .unwrap();
    let id = fiber.id();
    let before = root.fiber(id).slot.current_target().unwrap();
    host.panic_on_release = true;
    let mut pass = ReplacementPass::update(id, change(CLEANING, 5));
    host.drive(&mut root, |root, reply| pass.step(root, reply));
    let outcome = pass.outcome().unwrap();
    assert!(matches!(outcome, ReplacementOutcome::InputPanicked));
    assert!(FiberHandle::updated(outcome).is_none());

    assert_eq!(host.released, vec![1]);
    assert_eq!(host.applied, vec![(CLEANING, 1)]);
    assert!(host.cleaned.is_empty());
    assert_eq!(root.fiber(id).spawn_state.sealed(), Some((CLEANING, 5)));
    assert_eq!(fiber.state(&root), FiberState::Active);
    assert!(!root.admits(id));
    assert!(!root.fiber(id).slot.is_idle());
    assert!(root.fiber(id).slot.current_target().unwrap().same(&before));
    assert!(!target(&root, id).same(&before));
}

#[test]
fn missing_services_are_listed_in_ascending_order() {
    let (ctx, mut root) = runtime();
    let mut host = Host::new();
    let fiber = host
        .spawn(
            &ctx,
            &mut root,
            prepared(PLAIN, 1, &["zeta", "counter", "alpha", "zeta"]),
        )
        .unwrap();
    let missing = |root: &Root| -> Vec<String> {
        let snapshot = ctx.runtime_snapshot(root);
        let record = snapshot
            .fibers()
            .iter()
            .find(|record| record.id() == &fiber.id())
            .unwrap();
        record.missing_services().to_vec()
    };
    assert_eq!(missing(&root), vec!["alpha", "counter", "zeta"]);
    let _publication = ctx.provide::<Counter>(&mut root, COUNTER, 7).ok().unwrap();
    host.run_passes(&mut root);
    assert_eq!(missing(&root), vec!["alpha", "zeta"]);
}

#[test]
fn a_complete_drain_leaves_nothing_behind() {
    let (ctx, mut root) = runtime();
    let mut host = Host::new();
    let provider = host
        .spawn(&ctx, &mut root, prepared(PROVIDER, 5, &[]))
        .unwrap();
    assert!(ctx.try_service::<Counter>(&root, COUNTER).is_ok());
    host.dispose(&mut root, &provider);
    assert!(root.services().slots_owned_by(provider.id()).is_empty());
    assert!(root.fiber(provider.id()).disposables.tokens().is_empty());
    assert!(matches!(
        ctx.try_service::<Counter>(&root, COUNTER),
        Err(ServiceLookupError::Unavailable { .. })
    ));
    assert!(!root.registry().snapshot_fibers().contains(&provider.id()));
}

#[test]
fn a_handed_successor_takes_over_from_a_departed_source() {
    let (ctx, mut root) = runtime();
    let mut host = Host::new();
    let source = host
        .spawn(&ctx, &mut root, prepared(PROVIDER, 1, &[]))
        .unwrap();
    let mut swap = source
        .era_swap(&root, SettleAttribution::none(), change(PROVIDER, 2))
        .unwrap_or_else(|_| panic!("admitted"));
    host.finish_swap(&mut root, &mut swap);
    let successor = swap
        .outcome()
        .unwrap()
        .into_result()
        .unwrap_or_else(|_| panic!("a successor"));
    assert_ne!(successor.id(), source.id());
    assert_eq!(source.state(&root), FiberState::Disposed);
    assert_eq!(successor.state(&root), FiberState::Active);
    assert_eq!(root.registry().snapshot_fibers(), vec![successor.id()]);
    assert_eq!(
        root.fiber(successor.id()).name,
        root.fiber(source.id()).name
    );
}

#[test]
fn a_pending_successor_is_handed_off() {
    let (ctx, mut root) = runtime();
    let mut host = Host::new();
    let source = host
        .spawn(&ctx, &mut root, prepared(PLAIN, 1, &["counter"]))
        .unwrap();
    let mut swap = source
        .era_swap(&root, SettleAttribution::none(), change(PLAIN, 2))
        .unwrap_or_else(|_| panic!("admitted"));
    host.finish_swap(&mut root, &mut swap);
    let successor = swap
        .outcome()
        .unwrap()
        .into_result()
        .unwrap_or_else(|_| panic!("a successor"));
    assert_eq!(successor.state(&root), FiberState::Pending);
    assert_eq!(root.registry().snapshot_fibers(), vec![successor.id()]);
    assert!(host.applied.is_empty(), "a pending era never applied");
}

#[test]
fn a_race_delivers_one_successor_whoever_claims_first() {
    let (ctx, mut root) = runtime();
    let mut host = Host::new();
    let source = host
        .spawn(&ctx, &mut root, prepared(PLAIN, 1, &[]))
        .unwrap();
    let before = root.fiber_count();
    let mut left = source
        .era_swap(&root, SettleAttribution::none(), change(PLAIN, 2))
        .unwrap_or_else(|_| panic!("admitted"));
    let mut right = source
        .era_swap(&root, SettleAttribution::none(), change(PLAIN, 3))
        .unwrap_or_else(|_| panic!("admitted"));
    host.finish_swap(&mut root, &mut right);
    host.finish_swap(&mut root, &mut left);
    assert!(matches!(
        left.outcome().unwrap().into_result(),
        Err(EraOwnerFailure::Transaction(EraSwapError::Closed))
    ));
    let winner = right
        .outcome()
        .unwrap()
        .into_result()
        .unwrap_or_else(|_| panic!("one swap wins"));
    assert_eq!(root.fiber_count(), before + 1);
    assert_eq!(root.registry().snapshot_fibers(), vec![winner.id()]);
    assert_eq!(winner.state(&root), FiberState::Active);
    assert_eq!(host.applied.last(), Some(&(PLAIN, 3)));
}
