# cordis_core

Cordis is a typed runtime for long-lived, plugin-oriented applications: one model
for lifecycle, service dependencies, typed events, resource cleanup and isolation.
This crate is its verified core, written in Verus.

The library decides; a host performs. A `Root` holds the whole state of one Runtime.
Plugin behaviors, inputs, published values and callbacks are the host's, named by
number. Every lifecycle operation (`Spawn`, `Disposal`, `ReplacementPass`, `EraSwap`,
...) and every dispatch (`Emit`, `Query`, `Waterfall`, ...) is a step machine: the
library says what to do next, the host does it and hands back what came of it.

## Layout

| Where | What |
|---|---|
| `src/root.rs`, `src/fiber.rs` | the state of a Runtime and of one Fiber |
| `src/context.rs`, `src/scope.rs` | the axes of a Context: realms, Scope, configuration layers |
| `src/service.rs`, `src/publish.rs` | Service slots, publications, generation-owned registrations |
| `src/event.rs`, `src/event_store.rs`, `src/dispatch.rs`, `src/chain.rs`, `src/waterfall.rs` | Events and their dispatch |
| `src/inertia.rs`, `src/transition.rs`, `src/settle.rs`, `src/drain.rs`, `src/pass.rs` | convergence of one Fiber |
| `src/spawn.rs`, `src/dispose.rs`, `src/replace.rs`, `src/era.rs`, `src/converge.rs`, `src/operate.rs`, `src/update.rs` | lifecycle operations |
| `src/registry.rs`, `src/deps.rs`, `src/snapshot.rs`, `src/observation.rs`, `src/logger.rs` | residency, dependency projection, observation, logging |
| `src/cli.rs`, `src/worker.rs`, `src/dotenv.rs` | the rules of the `cordis` program |
| `src/laws.rs`, `src/sound.rs`, `src/owed.rs`, `src/visibility.rs`, `src/frame.rs`, `src/succession.rs`, `src/race.rs` | what holds across operations; the other laws stand beside what they are about |
| `app/` | the `cordis` program and the executor around one Runtime |

Contracts are stated over views: an operation on a `Root` says which function of the
view before it gives the view after it. Counters are finite, so operations ask for
room (`Root::has_room`) before they take fresh identities.
