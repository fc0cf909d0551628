//! A cached entry: an identifier, a value behind a reader/writer lock, and a
//! dirty flag.
use std::sync::atomic::{AtomicBool, Ordering};
use std::sync::{RwLock, RwLockReadGuard, RwLockWriteGuard, TryLockError};
use vstd::prelude::*;

use writium::error::Error;

use crate::error::internal_error;

verus! {

/// `std::sync::RwLock`, opaque to proofs: what it holds changes behind
/// shared references.
#[verifier::external_type_specification]
#[verifier::external_body]
#[verifier::reject_recursive_types(T)]
pub struct ExRwLock<T: ?Sized>(RwLock<T>);

#[verifier::external_type_specification]
#[verifier::external_body]
#[verifier::reject_recursive_types(T)]
pub struct ExRwLockReadGuard<'a, T: ?Sized>(RwLockReadGuard<'a, T>);

#[verifier::external_type_specification]
#[verifier::external_body]
#[verifier::reject_recursive_types(T)]
pub struct ExRwLockWriteGuard<'a, T: ?Sized + 'a>(RwLockWriteGuard<'a, T>);

pub const ERR_POISONED_LOCK: &'static str = "Current thread is poisoned.";

/// Relies on `std::sync::RwLock::new`: a fresh, unlocked lock around `data`.
#[verifier::external_body]
fn new_lock<T>(data: T) -> RwLock<T> {
    RwLock::new(data)
}

/// What an attempt to lock an entry's value gave.
pub enum Attempt<G> {
    /// The lock was taken; the guard holds it.
    Granted(G),
    /// Someone holds the lock in a way that excludes this access.
    Busy,
    /// A holder of exclusive access panicked.
    Poisoned,
}

/// Relies on `std::sync::RwLock::try_read`: takes shared access if it is
/// free, and never blocks or panics.
#[verifier::external_body]
fn try_read_lock<T>(lock: &RwLock<T>) -> Attempt<RwLockReadGuard<'_, T>> {
    match lock.try_read() {
        Ok(guard) => Attempt::Granted(guard),
        Err(TryLockError::WouldBlock) => Attempt::Busy,
        Err(TryLockError::Poisoned(_)) => Attempt::Poisoned,
    }
}

/// Relies on `std::sync::RwLock::try_write`: takes exclusive access if it is
/// free, and never blocks or panics.
#[verifier::external_body]
fn try_write_lock<T>(lock: &RwLock<T>) -> Attempt<RwLockWriteGuard<'_, T>> {
    match lock.try_write() {
        Ok(guard) => Attempt::Granted(guard),
        Err(TryLockError::WouldBlock) => Attempt::Busy,
        Err(TryLockError::Poisoned(_)) => Attempt::Poisoned,
    }
}

/// Relies on `Deref` of `std::sync::RwLockReadGuard`: the value the guard
/// keeps locked.
#[verifier::external_body]
pub(crate) fn guarded<'a, 'b, T>(guard: &'a RwLockReadGuard<'b, T>) -> &'a T {
    &**guard
}

/// Unit of storage in a cache.
#[verifier::reject_recursive_types(T)]
pub struct CacheItem<T> {
    id: String,
    data: RwLock<T>,
    is_dirty: AtomicBool,
}

impl<T> CacheItem<T> {
    /// The identifier this entry is stored under.
    pub closed spec fn key(&self) -> Seq<char> {
        self.id@
    }

    /// A fresh, clean entry holding `data`.
    pub fn new(id: &str, data: T) -> (r: CacheItem<T>)
        ensures
            r.key() == id@,
    {
        CacheItem { id: id.to_owned(), data: new_lock(data), is_dirty: AtomicBool::new(false) }
    }

    /// The identifier of this entry.
    pub fn id(&self) -> (r: &str)
        ensures
            r@ == self.key(),
    {
        self.id.as_str()
    }

    /// Whether this entry's identifier is `key`.
    pub(crate) fn has_id(&self, key: &String) -> (r: bool)
        ensures
            r == (self.key() == key@),
    {
        self.id == *key
    }

    /// Shared access to the value, if it can be had now: `Ok(None)` while
    /// someone holds exclusive access, in which case the caller waits and
    /// tries again. Never blocks. Fails only when a holder of exclusive
    /// access panicked and poisoned the lock.
    pub fn read(&self) -> (r: Result<Option<RwLockReadGuard<'_, T>>, Error>)
        ensures
            r matches Err(e) ==> e == internal_error(ERR_POISONED_LOCK@),
    {
        match try_read_lock(&self.data) {
            Attempt::Granted(guard) => Ok(Some(guard)),
            Attempt::Busy => Ok(None),
            Attempt::Poisoned => Err(Error::internal(ERR_POISONED_LOCK)),
        }
    }

    /// Exclusive access to the value, if it can be had now: `Ok(None)` while
    /// someone else holds access, in which case the caller waits and tries
    /// again. The entry is marked dirty before the lock is tried, whether or
    /// not the value is then changed. Never blocks. Fails only when a holder
    /// of exclusive access panicked and poisoned the lock.
    pub fn write(&self) -> (r: Result<Option<RwLockWriteGuard<'_, T>>, Error>)
        ensures
            r matches Err(e) ==> e == internal_error(ERR_POISONED_LOCK@),
    {
        self.set_dirty();
        match try_write_lock(&self.data) {
            Attempt::Granted(guard) => Ok(Some(guard)),
            Attempt::Busy => Ok(None),
            Attempt::Poisoned => Err(Error::internal(ERR_POISONED_LOCK)),
        }
    }

    /// Whether the value may differ from what the backing store holds.
    pub fn is_dirty(&self) -> bool {
        self.is_dirty.load(Ordering::Acquire)
    }

    /// Marks the value as changed.
    pub(crate) fn set_dirty(&self) {
        self.is_dirty.store(true, Ordering::Release)
    }
}

} // verus!
