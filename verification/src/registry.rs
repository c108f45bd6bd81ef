//! Adapter mounting: a registry binding each transport id to its adapter.
//!
//! The registry is populated once at startup and treated as immutable while
//! the engine runs.  Looking up an unmounted id is a programming error caught
//! at startup validation, never a runtime failure of a connect or listen call.

use vstd::prelude::*;
use crate::transport::Transport;

verus! {

/// Number of adapter slots: one per transport variant.
pub const ADAPTER_SLOT_COUNT: usize = 4;

/// Registry of mounted adapters, indexed by adapter id.
///
/// Each transport is a stateless factory, so mounting records which variant
/// serves a given id; dispatch to per-transport behaviour is by `match` on the
/// stored variant.
pub struct AdapterLauncher {
    slots: Vec<Option<Transport>>,
}

impl View for AdapterLauncher {
    type V = Seq<Option<Transport>>;

    closed spec fn view(&self) -> Seq<Option<Transport>> {
        self.slots@
    }
}

impl AdapterLauncher {
    /// The registry always has exactly one slot per transport variant.
    pub open spec fn wf(&self) -> bool {
        self@.len() == ADAPTER_SLOT_COUNT
    }

    /// Whether `t` is mounted under its own id.
    pub open spec fn spec_mounted(&self, t: Transport) -> bool {
        self@[t.spec_id() as int] == Some(t)
    }

    /// A registry with no adapter mounted.
    pub fn new() -> (r: AdapterLauncher)
        ensures
            r.wf(),
            forall|i: int| 0 <= i < ADAPTER_SLOT_COUNT ==> r@[i] is None,
    {
        let mut slots: Vec<Option<Transport>> = Vec::new();
        slots.push(None);
        slots.push(None);
        slots.push(None);
        slots.push(None);
        AdapterLauncher { slots }
    }

    /// Binds adapter id `id` to the adapter for `adapter`.
    pub fn mount(&mut self, id: u8, adapter: Transport)
        requires
            old(self).wf(),
            (id as int) < ADAPTER_SLOT_COUNT as int,
        ensures
            final(self).wf(),
            final(self)@ == old(self)@.update(id as int, Some(adapter)),
    {
        self.slots.set(id as usize, Some(adapter));
    }

    /// Looks up the adapter mounted under `id`.
    pub fn lookup(&self, id: u8) -> (r: Option<Transport>)
        requires
            self.wf(),
        ensures
            (id as int) < ADAPTER_SLOT_COUNT as int ==> r == self@[id as int],
            (id as int) >= ADAPTER_SLOT_COUNT as int ==> r is None,
    {
        if (id as usize) < ADAPTER_SLOT_COUNT {
            self.slots[id as usize]
        } else {
            None
        }
    }

    /// Startup validation: whether `t` was mounted under its own id.
    pub fn is_mounted(&self, t: Transport) -> (r: bool)
        requires
            self.wf(),
        ensures
            r == self.spec_mounted(t),
    {
        match self.lookup(t.id()) {
            Some(m) => m == t,
            None => false,
        }
    }
}

} // verus!
