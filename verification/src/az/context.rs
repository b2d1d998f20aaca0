//! The authorization context: per-thread state around the engine.
//!
//! A context owns its storage, counts decisions for the diagnostic
//! rebind hook, and retries a failed decision exactly once before
//! surfacing the error.

use vstd::prelude::*;
use crate::az::common::{Storage, StorageError, Trace};
use crate::az::engine::{authorize, spec_authorize};

verus! {

/// Which database backend an adapter runs over.
#[derive(Debug, Clone, Copy, PartialEq, Eq, Structural)]
pub enum AzDbType {
    Lmdb,
    Mdbx,
}

/// A per-thread authorization context over a storage.
pub struct AzContext<S: Storage> {
    pub storage: S,
    pub authorize_counter: u64,
    pub max_authorize_counter: u64,
}

impl<S: Storage> AzContext<S> {
    /// A context that rebinds its storage after `max_read_counter`
    /// decisions.
    pub fn new(storage: S, max_read_counter: u64) -> (r: AzContext<S>)
        ensures
            r.storage == storage,
            r.authorize_counter == 0u64,
            r.max_authorize_counter == max_read_counter,
    {
        AzContext { storage, authorize_counter: 0, max_authorize_counter: max_read_counter }
    }

    /// Decides a query, tracing into the given buffers.  A failed
    /// decision is retried once on the same storage before the error
    /// surfaces.
    pub fn authorize_and_trace(
        &mut self,
        uri: &str,
        user_uri: &str,
        request_access: u8,
        _is_check_for_reload: bool,
        trace: &mut Trace,
    ) -> (r: Result<u8, StorageError>)
        ensures
            final(self).storage.contents() == old(self).storage.contents(),
            final(self).storage.reliable() == old(self).storage.reliable(),
            final(self).max_authorize_counter == old(self).max_authorize_counter,
            r matches Ok(b) ==> exists|d: int|
                b == spec_authorize(
                    old(self).storage.contents(),
                    d,
                    uri@,
                    user_uri@,
                    request_access,
                ),
            r matches Ok(b) ==> b & !request_access == 0,
            old(self).storage.reliable() ==> r is Ok,
    {
        let counter: u64 = if self.authorize_counter < u64::MAX {
            self.authorize_counter + 1
        } else {
            0
        };
        self.authorize_counter = if counter >= self.max_authorize_counter {
            0
        } else {
            counter
        };
        match authorize(uri, user_uri, request_access, &mut self.storage, trace) {
            Ok(b) => Ok(b),
            Err(_e) => authorize(uri, user_uri, request_access, &mut self.storage, trace),
        }
    }

    /// Decides a query without tracing.
    pub fn authorize(
        &mut self,
        uri: &str,
        user_uri: &str,
        request_access: u8,
        is_check_for_reload: bool,
    ) -> (r: Result<u8, StorageError>)
        ensures
            final(self).storage.contents() == old(self).storage.contents(),
            final(self).storage.reliable() == old(self).storage.reliable(),
            r matches Ok(b) ==> exists|d: int|
                b == spec_authorize(
                    old(self).storage.contents(),
                    d,
                    uri@,
                    user_uri@,
                    request_access,
                ),
            r matches Ok(b) ==> b & !request_access == 0,
            old(self).storage.reliable() ==> r is Ok,
    {
        let mut t = Trace::new();
        self.authorize_and_trace(uri, user_uri, request_access, is_check_for_reload, &mut t)
    }
}

/// Decides a query against a given storage: the plain function shape
/// of the context's method.
pub fn f_authorize<S: Storage>(
    storage: &mut S,
    uri: &str,
    user_uri: &str,
    request_access: u8,
    _is_check_for_reload: bool,
    trace: &mut Trace,
) -> (r: Result<u8, StorageError>)
    ensures
        final(storage).contents() == old(storage).contents(),
        final(storage).reliable() == old(storage).reliable(),
        r matches Ok(b) ==> exists|d: int|
            b == spec_authorize(old(storage).contents(), d, uri@, user_uri@, request_access),
        r matches Ok(b) ==> b & !request_access == 0,
        old(storage).reliable() ==> r is Ok,
{
    match authorize(uri, user_uri, request_access, storage, trace) {
        Ok(b) => Ok(b),
        Err(_e) => authorize(uri, user_uri, request_access, storage, trace),
    }
}

} // verus!
