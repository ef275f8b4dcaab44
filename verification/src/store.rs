//! The shared configuration store: one snapshot behind one lock.
//!
//! Every command takes the lock for the whole of its work, so no caller
//! ever sees a snapshot that another is halfway through changing. What a
//! command finds under the lock depends on the callers that came before it;
//! the change that it makes to what it finds is stated on `Config`.

use crate::config::Config;
use crate::snapshot::{lemma_set_opacity_keeps_other_fields, only_opacities_differ, Snapshot};
use vstd::prelude::*;
use vstd::rwlock::{RwLock, RwLockPredicate};

verus! {

/// What every snapshot of a store satisfies: it differs in opacities alone
/// from the snapshot that the store started with.
pub struct OpacitiesOnly {
    pub initial: Snapshot,
}

impl RwLockPredicate<Config> for OpacitiesOnly {
    open spec fn inv(self, snapshot: Config) -> bool {
        only_opacities_differ(self.initial, snapshot@)
    }
}

/// The configuration store: where its snapshot is persisted, and the
/// snapshot itself behind its lock. The store never reads `path`; it keeps
/// it for whoever persists the snapshot.
pub struct ConfigState<P> {
    pub path: P,
    pub inner: RwLock<Config, OpacitiesOnly>,
}

impl<P> ConfigState<P> {
    /// The snapshot that the store started with.
    pub open spec fn initial(&self) -> Snapshot {
        self.inner.pred().initial
    }

    /// A store that holds `config`, to be persisted at `path`.
    pub fn new(path: P, config: Config) -> (state: Self)
        ensures
            state.path == path,
            state.initial() == config@,
    {
        let ghost keeps = OpacitiesOnly { initial: config@ };
        ConfigState { path, inner: RwLock::new(config, Ghost(keeps)) }
    }
}

/// Sets the opacity of one layer of the store, as
/// `Config::set_layer_opacity` does on the snapshot found under the lock.
pub fn set_layer_opacity<P>(state: &ConfigState<P>, layer: String, opacity_bits: u32) {
    let (mut snapshot, handle) = state.inner.acquire_write();
    proof {
        lemma_set_opacity_keeps_other_fields(state.initial(), snapshot@, layer@, opacity_bits);
    }
    snapshot.set_layer_opacity(layer, opacity_bits);
    handle.release_write(snapshot);
}

/// A copy of the snapshot that the store holds at the time of the call.
/// Whatever was set in the meantime, and by whom, it has every layer that
/// the store started with, and no layer of it differs in anything but the
/// opacity from what the store started with under its key.
pub fn get_config<P>(state: &ConfigState<P>) -> (copy: Config)
    ensures
        only_opacities_differ(state.initial(), copy@),
{
    let handle = state.inner.acquire_read();
    let copy = handle.borrow().clone();
    handle.release_read();
    copy
}

} // verus!
