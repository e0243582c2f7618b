//! Spawn-time state of one Fiber: the installed creation record and the narrow
//! snapshots taken from it.

use crate::context::{Context, ContextView};
use crate::ids::{ContractId, FiberId};
use crate::plugin::{InjectEntryView, InjectSpec, PreparedChange, TypedPlugin};
use crate::registry::PluginKey;
use vstd::prelude::*;

verus! {

/// An operation that needs an installed record found none, or the record was
/// installed already.
#[derive(Clone, Copy, PartialEq, Eq, Structural, Debug)]
pub struct SpawnStateError;

/// The installed spawn-time record.
pub struct Stored {
    plugin: TypedPlugin,
    name: String,
    inject: InjectSpec,
    scope: Context,
    plugin_key: PluginKey,
    spawning_ctx: Context,
    effective_input: u64,
}

/// The record as a mathematical value.
pub struct StoredView {
    /// The sealed behavior and input.
    pub plugin: TypedPlugin,
    /// The diagnostic Plugin name.
    pub name: Seq<char>,
    /// The required Services.
    pub inject: Seq<InjectEntryView>,
    /// The Context every apply derives from.
    pub scope: ContextView,
    /// The group the Fiber belongs to.
    pub plugin_key: PluginKey,
    /// The Context the Fiber was spawned from.
    pub spawning_ctx: ContextView,
    /// Identity of the committed apply input.
    pub effective_input: u64,
}

impl View for Stored {
    type V = StoredView;

    closed spec fn view(&self) -> StoredView {
        StoredView {
            plugin: self.plugin,
            name: self.name@,
            inject: self.inject@,
            scope: self.scope@,
            plugin_key: self.plugin_key,
            spawning_ctx: self.spawning_ctx@,
            effective_input: self.effective_input,
        }
    }
}

/// What one apply invocation needs.
pub struct ApplySnapshot {
    /// The host's names for the behavior and its input.
    pub state: (u64, u64),
    /// The Fiber's own Context.
    pub ctx: Context,
}

/// The creation recipe carried from one ended Fiber to one fresh successor.
pub struct EraRecipe {
    /// The diagnostic Plugin name.
    pub name: String,
    /// The required Services.
    pub inject: InjectSpec,
    /// The group the Fiber belonged to.
    pub plugin_key: PluginKey,
    /// The Context the Fiber was spawned from.
    pub spawning_ctx: Context,
}

/// The spawn-time state of one Fiber. Root and isolated Fibers have none.
pub struct SpawnState {
    stored: Option<Stored>,
}

impl View for SpawnState {
    type V = Option<StoredView>;

    closed spec fn view(&self) -> Option<StoredView> {
        match self.stored {
            Some(s) => Some(s@),
            None => None,
        }
    }
}

impl StoredView {
    /// The Plugin contract of a typed record.
    pub open spec fn contract(self) -> Option<ContractId> {
        match self.plugin_key {
            PluginKey::Typed(c) => Some(c),
            PluginKey::Anonymous(_) => None,
        }
    }

    /// Whether a change can replace the retained input.
    pub open spec fn accepts(self, change: PreparedChange) -> bool {
        self.plugin.contract == change.contract && self.plugin.state is Some
    }

    /// The record after a change was committed under a fresh input identity.
    pub open spec fn changed(self, change: PreparedChange, fresh: u64) -> StoredView {
        StoredView {
            plugin: TypedPlugin {
                contract: self.plugin.contract,
                state: Some((self.plugin.state.unwrap().0, change.input)),
            },
            effective_input: fresh,
            ..self
        }
    }
}

impl SpawnState {
    /// No record.
    pub fn new() -> (r: SpawnState)
        ensures
            r@ is None,
    {
        SpawnState { stored: None }
    }

    /// Whether a record is installed.
    pub fn is_installed(&self) -> (r: bool)
        ensures
            r == (self@ is Some),
    {
        self.stored.is_some()
    }

    /// Installs the record once; a repeated install is refused and never
    /// overwrites the first.
    pub fn install(
        &mut self,
        plugin: TypedPlugin,
        name: String,
        inject: InjectSpec,
        scope: Context,
        plugin_key: PluginKey,
        spawning_ctx: Context,
        effective_input: u64,
    ) -> (r: Result<(), SpawnStateError>)
        ensures
            r is Ok == (old(self)@ is None),
            final(self)@ == (match old(self)@ {
                Some(s) => Some(s),
                None => Some(
                    StoredView {
                        plugin,
                        name: name@,
                        inject: inject@,
                        scope: scope@,
                        plugin_key,
                        spawning_ctx: spawning_ctx@,
                        effective_input,
                    },
                ),
            }),
    {
        if self.stored.is_some() {
            return Err(SpawnStateError);
        }
        self.stored = Some(
            Stored { plugin, name, inject, scope, plugin_key, spawning_ctx, effective_input },
        );
        Ok(())
    }

    /// The Plugin contract of an installed typed record.
    pub fn contract(&self) -> (r: Option<ContractId>)
        ensures
            r == (match self@ {
                Some(s) => s.contract(),
                None => None,
            }),
    {
        match &self.stored {
            Some(stored) => match stored.plugin_key {
                PluginKey::Typed(contract) => Some(contract),
                PluginKey::Anonymous(_) => None,
            },
            None => None,
        }
    }

    /// The host's names for the sealed behavior and its input, while they are
    /// here.
    pub fn sealed(&self) -> (r: Option<(u64, u64)>)
        ensures
            r == (match self@ {
                Some(s) => s.plugin.state,
                None => None,
            }),
    {
        match &self.stored {
            Some(stored) => stored.plugin.state,
            None => None,
        }
    }

    /// Whether a change can replace the retained input.
    pub fn accepts(&self, change: &PreparedChange) -> (r: bool)
        ensures
            r == (match self@ {
                Some(s) => s.accepts(*change),
                None => false,
            }),
    {
        match &self.stored {
            Some(stored) => stored.plugin.contract == change.contract()
                && stored.plugin.state.is_some(),
            None => false,
        }
    }

    /// Commits one admitted candidate under a fresh input identity and returns
    /// the superseded input. A candidate the seal does not accept changes
    /// nothing.
    pub fn commit_change(&mut self, change: PreparedChange, fresh: u64) -> (r: Result<
        u64,
        SpawnStateError,
    >)
        ensures
            match old(self)@ {
                Some(s) => if s.accepts(change) {
                    &&& r == Ok::<u64, SpawnStateError>(s.plugin.state.unwrap().1)
                    &&& final(self)@ == Some(s.changed(change, fresh))
                } else {
                    r is Err && final(self)@ == old(self)@
                },
                None => r is Err && final(self)@ is None,
            },
    {
        match self.stored.take() {
            Some(mut stored) => {
                let result = match stored.plugin.swap_input(change) {
                    Ok(superseded) => {
                        stored.effective_input = fresh;
                        Ok(superseded)
                    },
                    Err(_) => Err(SpawnStateError),
                };
                self.stored = Some(stored);
                result
            },
            None => Err(SpawnStateError),
        }
    }

    /// The Fiber-owned Context, when a record is installed.
    pub fn context_for(&self, fiber: FiberId) -> (r: Option<Context>)
        ensures
            match self@ {
                Some(s) => r matches Some(ctx) && ctx@ == s.scope.on_fiber(fiber),
                None => r is None,
            },
    {
        match &self.stored {
            Some(stored) => Some(stored.scope.with_fiber(fiber)),
            None => None,
        }
    }

    /// The Fiber-owned Context, for an operation that requires a record.
    pub fn required_context_for(&self, fiber: FiberId) -> (r: Result<Context, SpawnStateError>)
        ensures
            match self@ {
                Some(s) => r matches Ok(ctx) && ctx@ == s.scope.on_fiber(fiber),
                None => r is Err,
            },
    {
        match self.context_for(fiber) {
            Some(ctx) => Ok(ctx),
            None => Err(SpawnStateError),
        }
    }

    /// The owning Runtime, when a record is installed.
    pub fn root(&self) -> (r: Option<u64>)
        ensures
            r == (match self@ {
                Some(s) => Some(s.scope.runtime),
                None => None,
            }),
    {
        match &self.stored {
            Some(stored) => Some(stored.scope.runtime),
            None => None,
        }
    }

    /// Identity of the currently committed apply input.
    pub fn effective_input(&self) -> (r: Result<u64, SpawnStateError>)
        ensures
            match self@ {
                Some(s) => r == Ok::<u64, SpawnStateError>(s.effective_input),
                None => r is Err,
            },
    {
        match &self.stored {
            Some(stored) => Ok(stored.effective_input),
            None => Err(SpawnStateError),
        }
    }

    /// Leases the sealed pair for one apply on `fiber`. A Fiber without a record,
    /// or whose pair is away, is refused.
    pub fn apply_snapshot(&mut self, fiber: FiberId) -> (r: Result<ApplySnapshot, SpawnStateError>)
        ensures
            match old(self)@ {
                Some(s) => match s.plugin.state {
                    Some(state) => {
                        &&& r matches Ok(snap) && snap.state == state && snap.ctx@
                            == s.scope.on_fiber(fiber)
                        &&& final(self)@ == Some(
                            StoredView {
                                plugin: TypedPlugin { contract: s.plugin.contract, state: None },
                                ..s
                            },
                        )
                    },
                    None => r is Err && final(self)@ == old(self)@,
                },
                None => r is Err && final(self)@ is None,
            },
    {
        match self.stored.take() {
            Some(mut stored) => {
                let ctx = stored.scope.with_fiber(fiber);
                let leased = stored.plugin.lease();
                self.stored = Some(stored);
                match leased {
                    Some(state) => Ok(ApplySnapshot { state, ctx }),
                    None => Err(SpawnStateError),
                }
            },
            None => Err(SpawnStateError),
        }
    }

    /// Returns a leased pair.
    pub fn restore(&mut self, state: (u64, u64))
        ensures
            final(self)@ == (match old(self)@ {
                Some(s) => Some(
                    StoredView {
                        plugin: TypedPlugin { contract: s.plugin.contract, state: Some(state) },
                        ..s
                    },
                ),
                None => None,
            }),
    {
        match self.stored.take() {
            Some(mut stored) => {
                stored.plugin.restore(state);
                self.stored = Some(stored);
            },
            None => {},
        }
    }

    /// The creation recipe for one era replacement.
    pub fn era_recipe(&self) -> (r: Result<EraRecipe, SpawnStateError>)
        ensures
            match self@ {
                Some(s) => r matches Ok(recipe) && recipe.name@ == s.name && recipe.inject@
                    == s.inject && recipe.plugin_key == s.plugin_key && recipe.spawning_ctx@
                    == s.spawning_ctx,
                None => r is Err,
            },
    {
        match &self.stored {
            Some(stored) => Ok(
                EraRecipe {
                    name: stored.name.clone(),
                    inject: stored.inject.duplicate(),
                    plugin_key: stored.plugin_key,
                    spawning_ctx: stored.spawning_ctx.duplicate(),
                },
            ),
            None => Err(SpawnStateError),
        }
    }

    /// Moves the behavior into a successor's seal carrying the change's input.
    pub fn into_successor(&mut self, change: PreparedChange) -> (r: Result<
        TypedPlugin,
        PreparedChange,
    >)
        ensures
            match old(self)@ {
                Some(s) => if s.accepts(change) {
                    &&& r == Ok::<TypedPlugin, PreparedChange>(
                        TypedPlugin {
                            contract: change.contract,
                            state: Some((s.plugin.state.unwrap().0, change.input)),
                        },
                    )
                    &&& final(self)@ == Some(
                        StoredView {
                            plugin: TypedPlugin { contract: s.plugin.contract, state: None },
                            ..s
                        },
                    )
                } else {
                    r == Err::<TypedPlugin, PreparedChange>(change) && final(self)@ == old(self)@
                },
                None => r == Err::<TypedPlugin, PreparedChange>(change) && final(self)@ is None,
            },
    {
        match self.stored.take() {
            Some(mut stored) => {
                let result = stored.plugin.into_successor(change);
                self.stored = Some(stored);
                result
            },
            None => Err(change),
        }
    }
}

} // verus!
