//! The public handle of a running Plugin instance.

use crate::ids::FiberId;
use crate::root::Root;
use crate::state::FiberState;
use crate::text::views;
use vstd::prelude::*;

verus! {

/// Public handle of one Fiber. Copies name the same Fiber.
#[derive(Clone, Copy, PartialEq, Eq, Structural, Debug)]
pub struct FiberHandle {
    /// The Fiber.
    pub fiber: FiberId,
}

impl FiberHandle {
    /// The handle of a Fiber.
    pub fn new(fiber: FiberId) -> (r: FiberHandle)
        ensures
            r == (FiberHandle { fiber }),
    {
        FiberHandle { fiber }
    }

    /// Opaque Runtime-local identity shared by all copies of this handle.
    pub fn id(&self) -> (r: FiberId)
        ensures
            r == self.fiber,
    {
        self.fiber
    }

    /// Current lifecycle state of the underlying Fiber.
    pub fn state(&self, root: &Root) -> (r: FiberState)
        requires
            root@.has(self.fiber),
        ensures
            r == root@.fiber(self.fiber).current(),
    {
        root.fiber(self.fiber).state.current()
    }

    /// Display name resolved from the Plugin name.
    pub fn name<'a>(&self, root: &'a Root) -> (r: &'a str)
        requires
            root@.has(self.fiber),
        ensures
            r@ == root@.fiber(self.fiber).name,
    {
        root.fiber(self.fiber).name.as_str()
    }

    /// Names of this Fiber's declared dependencies that are missing now. Empty
    /// unless the Fiber lives and is pending.
    pub fn pending_missing(&self, root: &Root) -> (r: Vec<String>)
        requires
            root@.has(self.fiber),
        ensures
            views(r@) == ({
                let fiber = root@.fiber(self.fiber);
                if fiber.alive && fiber.current() is Pending && fiber.spawn is Some {
                    root@.missing(self.fiber)
                } else {
                    Seq::empty()
                }
            }),
    {
        let fiber = root.fiber(self.fiber);
        if !fiber.alive || fiber.state.current() != FiberState::Pending
            || !fiber.spawn_state.is_installed() {
            let none: Vec<String> = Vec::new();
            assert(views(none@) =~= Seq::empty());
            return none;
        }
        root.missing_from(self.fiber)
    }
}

} // verus!
