//! A handle on a target's current session id.
//!
//! A cross-process navigation swaps a page's renderer: its session is
//! detached and a new one attached under another id. A [`SessionRef`] is a
//! cheaply cloned handle on a shared cell that the connection's event loop
//! updates, so holders always read the id that is current.

use std::sync::{Arc, RwLock};

use vstd::prelude::*;

verus! {

#[verifier::external_type_specification]
#[verifier::external_body]
#[verifier::reject_recursive_types(T)]
pub struct ExRwLock<T: ?Sized>(RwLock<T>);

/// `RwLock::new`.
///
/// Trusted: nothing is claimed of the lock.
#[verifier::external_body]
fn new_lock(id: Arc<str>) -> RwLock<Arc<str>> {
    RwLock::new(id)
}

/// `RwLock::read`, and a clone of the id it holds; a poisoned lock still
/// gives its value (`PoisonError::into_inner`).
///
/// Trusted: nothing is claimed of the id, which other holders may have
/// replaced at any time.
#[verifier::external_body]
fn read_id(lock: &RwLock<Arc<str>>) -> Arc<str> {
    match lock.read() {
        Ok(g) => Arc::clone(&g),
        Err(p) => Arc::clone(&p.into_inner()),
    }
}

/// `RwLock::write`, replacing the id it holds; nothing is written when the
/// lock is poisoned.
///
/// Trusted: nothing is claimed.
#[verifier::external_body]
fn write_id(lock: &RwLock<Arc<str>>, id: Arc<str>) {
    if let Ok(mut g) = lock.write() {
        *g = id;
    }
}

/// A shared handle on the current session id of one target.
#[derive(Clone)]
pub struct SessionRef(Arc<RwLock<Arc<str>>>);

impl SessionRef {
    /// A handle on a new cell holding `id`.
    pub fn new(id: Arc<str>) -> Self {
        SessionRef(Arc::new(new_lock(id)))
    }

    /// The session id as it is now.
    pub fn current(&self) -> Arc<str> {
        read_id(&self.0)
    }

    /// Make `id` the current session id for every holder of this handle.
    pub fn store(&self, id: Arc<str>) {
        write_id(&self.0, id)
    }
}

} // verus!
