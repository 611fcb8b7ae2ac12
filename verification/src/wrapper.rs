//! The memoizing wrapper: given a key, a time-to-live and a producer, it
//! returns a cached value or runs the producer, writing back to the store
//! only on success. A failed resolution never leaves a partially written
//! entry: the store is exactly what it was before the call.
//!
//! Concurrent callers are expected to serialize access to the `Cache`
//! (for example behind a lock) so that each operation is atomic. Two
//! callers that both miss on the same key between their operations may
//! each run their producer; callers that need single-flight coordination
//! must arrange it outside the cache.

use vstd::prelude::*;

use crate::store::EntryView;
use crate::store::TtlStore;
use crate::store::expiry_for;
use crate::store::map_contains;

verus! {

/// The tagged error a resolution can end in: either the producer's own
/// domain error, passed through unchanged, or the error met while turning
/// a successful producer value into its canonical serialized form.
#[derive(Debug)]
pub enum CacheError<P, S> {
    Inner(P),
    Serde(S),
}

/// A TTL store together with the compute-or-reuse discipline: entries are
/// only ever written on a producer's success path.
pub struct Cache {
    pub store: TtlStore,
}

impl Cache {
    /// The cache's invariant: its store is well formed.
    pub open spec fn wf(self) -> bool {
        self.store.wf()
    }

    /// An empty cache.
    pub fn new() -> (c: Self)
        ensures
            c.wf(),
            c.store@ == Map::<Seq<char>, EntryView>::empty(),
    {
        Cache { store: TtlStore::new() }
    }

    /// Finishes a resolution from the outcome of a producer run: a domain
    /// error or a serialization error is passed through and the store is
    /// left untouched; a canonical value is written under `key` with the
    /// given time-to-live and returned.
    pub fn resolve_commit<PE, SE>(
        &mut self,
        key: &str,
        ttl: Option<u64>,
        now: u64,
        produced: Result<Result<String, SE>, PE>,
    ) -> (r: Result<String, CacheError<PE, SE>>)
        requires
            old(self).wf(),
            ttl matches Some(d) ==> now + d <= u64::MAX,
        ensures
            final(self).wf(),
            produced matches Err(pe) ==> (r matches Err(CacheError::Inner(e)) && e == pe
                && final(self).store@ == old(self).store@),
            produced matches Ok(Err(se)) ==> (r matches Err(CacheError::Serde(e)) && e == se
                && final(self).store@ == old(self).store@),
            produced matches Ok(Ok(v)) ==> (r matches Ok(out) && out == v
                && final(self).store@ == old(self).store@.insert(
                key@,
                EntryView { value: v@, expires_at: expiry_for(ttl, now) },
            )),
    {
        match produced {
            Result::Err(pe) => Result::Err(CacheError::Inner(pe)),
            Result::Ok(Result::Err(se)) => Result::Err(CacheError::Serde(se)),
            Result::Ok(Result::Ok(v)) => {
                self.store.set(key, v.clone(), ttl, now);
                Result::Ok(v)
            },
        }
    }

    /// Returns the cached value for `key` if a live entry is present at
    /// `now`; the producer is not run in that case. On a miss the producer
    /// runs once; its success value is canonicalized, written under `key`
    /// with the given time-to-live, and returned, while either kind of
    /// failure is reported without any write to the store.
    pub fn resolve<T, PE, SE, P, C>(
        &mut self,
        key: &str,
        ttl: Option<u64>,
        now: u64,
        producer: P,
        canonicalize: C,
    ) -> (r: Result<String, CacheError<PE, SE>>) where
        P: FnOnce() -> Result<T, PE>,
        C: FnOnce(T) -> Result<String, SE>,

        requires
            old(self).wf(),
            ttl matches Some(d) ==> now + d <= u64::MAX,
            !map_contains(old(self).store@, key@, now) ==> call_requires(producer, ()),
            !map_contains(old(self).store@, key@, now) ==> forall|t: T|
                call_ensures(producer, (), Result::<T, PE>::Ok(t))
                    ==> #[trigger] call_requires(canonicalize, (t,)),
        ensures
            final(self).wf(),
            map_contains(old(self).store@, key@, now) ==> (r matches Ok(v) && v@ == old(
                self,
            ).store@[key@].value && final(self).store@ == old(self).store@),
            !map_contains(old(self).store@, key@, now) ==> match r {
                Ok(v) => exists|t: T|
                    {
                        &&& #[trigger] call_ensures(producer, (), Result::<T, PE>::Ok(t))
                        &&& call_ensures(canonicalize, (t,), Result::<String, SE>::Ok(v))
                        &&& final(self).store@ == old(self).store@.insert(
                            key@,
                            EntryView { value: v@, expires_at: expiry_for(ttl, now) },
                        )
                    },
                Err(CacheError::Inner(e)) => call_ensures(producer, (), Result::<T, PE>::Err(e))
                    && final(self).store@ == old(self).store@,
                Err(CacheError::Serde(se)) => exists|t: T|
                    {
                        &&& #[trigger] call_ensures(producer, (), Result::<T, PE>::Ok(t))
                        &&& call_ensures(canonicalize, (t,), Result::<String, SE>::Err(se))
                        &&& final(self).store@ == old(self).store@
                    },
            },
    {
        match self.store.get(key, now) {
            Option::Some(v) => Result::Ok(v),
            Option::None => {
                let produced = match producer() {
                    Result::Ok(t) => Result::Ok(canonicalize(t)),
                    Result::Err(pe) => Result::Err(pe),
                };
                self.resolve_commit(key, ttl, now, produced)
            },
        }
    }
}

impl Default for Cache {
    /// An empty cache.
    fn default() -> (c: Self)
        ensures
            c.wf(),
            c.store@ == Map::<Seq<char>, EntryView>::empty(),
    {
        Cache::new()
    }
}

} // verus!
