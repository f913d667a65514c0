use vstd::prelude::*;
use crate::LogError;
use crate::WriteError;
use core::hash::Hash;

verus! {

/// A process-wide concurrent mapping from destination keys to lazily
/// opened output handles. Lookups of different keys run in parallel;
/// holders of the same key serialize, so each handle has one writer at a
/// time and each key is opened at most once. Entries, once inserted, are
/// never evicted. The handle type is opaque here: the mapping only stores
/// and hands out exclusive access to it.
#[verifier::external_body]
#[verifier::reject_recursive_types(K)]
#[verifier::reject_recursive_types(V)]
pub struct HandleCache<K: Eq + Hash, V> {
    map: dashmap::DashMap<K, V>,
}

impl<K: Eq + Hash, V> HandleCache<K, V> {
    /// Relies on `dashmap::DashMap::new`: creates an empty concurrent map.
    #[verifier::external_body]
    pub fn new() -> (c: Self) {
        HandleCache { map: dashmap::DashMap::new() }
    }

    /// The atomic fetch-or-open step of the cache, followed by one
    /// exclusive use of the entry.
    ///
    /// Relies on `dashmap::DashMap::entry` and
    /// `dashmap::mapref::entry::Entry::or_try_insert_with`: the entry call
    /// locks only the shard of `key`, so distinct keys do not block each
    /// other; a vacant entry runs `open` under that lock and inserts the
    /// handle only on `Ok`, so a key is opened at most once and a failed
    /// open leaves the key absent; an occupied entry skips `open`. Either
    /// way `write` then runs on the stored handle through
    /// `dashmap::mapref::one::RefMut::value_mut`, still under the lock, so
    /// no two writers of one key overlap.
    #[verifier::external_body]
    pub fn acquire_and_use<E, FO, FW>(&self, key: K, open: FO, write: FW) -> (r: Result<
        (),
        LogError<E>,
    >) where
        FO: FnOnce() -> Result<V, E>,
        FW: FnOnce(&mut V) -> Result<(), WriteError<E>>,

        requires
            call_requires(open, ()),
            forall|m: &mut V| call_requires(write, (m,)),
        ensures
            match r {
                Ok(()) => exists|m: &mut V|
                    call_ensures(write, (m,), Ok::<(), WriteError<E>>(())),
                Err(e) => match e {
                    LogError::InvalidDestination { .. } => false,
                    LogError::OpenFailure { cause } => call_ensures(
                        open,
                        (),
                        Err::<V, E>(cause),
                    ),
                    LogError::WriteFailure { cause } => exists|m: &mut V|
                        call_ensures(write, (m,), Err::<(), _>(WriteError::Write { cause })),
                    LogError::FlushFailure { cause } => exists|m: &mut V|
                        call_ensures(write, (m,), Err::<(), _>(WriteError::Flush { cause })),
                },
            },
    {
        match self.map.entry(key).or_try_insert_with(open) {
            Ok(mut entry) => match write(entry.value_mut()) {
                Ok(()) => Ok(()),
                Err(WriteError::Write { cause }) => Err(LogError::WriteFailure { cause }),
                Err(WriteError::Flush { cause }) => Err(LogError::FlushFailure { cause }),
            },
            Err(cause) => Err(LogError::OpenFailure { cause }),
        }
    }
}

} // verus!
