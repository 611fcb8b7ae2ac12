//! Laws of the TTL store, stated over its mathematical model and proved
//! once for every store state, key, value and pair of instants.

use vstd::prelude::*;

use crate::store::EntryView;
use crate::store::entry_live;
use crate::store::expiry_for;
use crate::store::map_contains;
use crate::store::map_get;

verus! {

/// Round trip: writing `v` under `k` at instant `now_set` with any
/// time-to-live makes a read of `k` observe `v` at every instant before
/// the time-to-live has elapsed.
pub proof fn lemma_round_trip(
    m: Map<Seq<char>, EntryView>,
    k: Seq<char>,
    v: Seq<char>,
    ttl: Option<u64>,
    now_set: u64,
    now_get: u64,
)
    requires
        ttl matches Some(d) ==> now_set + d <= u64::MAX && now_get < now_set + d,
    ensures
        map_get(
            m.insert(k, EntryView { value: v, expires_at: expiry_for(ttl, now_set) }),
            k,
            now_get,
        ) == Option::Some(v),
{
}

/// Expiry: an entry written at instant `now_set` with time-to-live `d` is
/// absent from every read at or after instant `now_set + d`: a read
/// observes nothing and a membership test fails.
pub proof fn lemma_expiry(
    m: Map<Seq<char>, EntryView>,
    k: Seq<char>,
    v: Seq<char>,
    d: u64,
    now_set: u64,
    now_get: u64,
)
    requires
        now_set + d <= u64::MAX,
        now_get >= now_set + d,
    ensures
        map_get(
            m.insert(k, EntryView { value: v, expires_at: expiry_for(Option::Some(d), now_set) }),
            k,
            now_get,
        ) is None,
        !map_contains(
            m.insert(k, EntryView { value: v, expires_at: expiry_for(Option::Some(d), now_set) }),
            k,
            now_get,
        ),
{
}

/// No expiry: an entry written without a time-to-live is observed by a
/// read at every later instant, however distant, until overwritten.
pub proof fn lemma_no_expiry(
    m: Map<Seq<char>, EntryView>,
    k: Seq<char>,
    v: Seq<char>,
    now_set: u64,
    now_get: u64,
)
    ensures
        map_get(
            m.insert(k, EntryView { value: v, expires_at: expiry_for(Option::None, now_set) }),
            k,
            now_get,
        ) == Option::Some(v),
{
}

/// A membership test and a read agree: the store holds a live entry for
/// `k` at `now` exactly when a read of `k` at `now` observes a value.
pub proof fn lemma_contains_agrees_with_get(m: Map<Seq<char>, EntryView>, k: Seq<char>, now: u64)
    ensures
        map_contains(m, k, now) <==> map_get(m, k, now) is Some,
{
}

/// A freshly written entry is immediately visible: right after a write at
/// instant `now` with no time-to-live or a positive one, a membership test
/// at `now` succeeds.
pub proof fn lemma_fresh_entry_visible(
    m: Map<Seq<char>, EntryView>,
    k: Seq<char>,
    v: Seq<char>,
    ttl: Option<u64>,
    now: u64,
)
    requires
        ttl matches Some(d) ==> now + d <= u64::MAX && d > 0,
    ensures
        map_contains(m.insert(k, EntryView { value: v, expires_at: expiry_for(ttl, now) }), k, now),
{
}

/// Writes to one key leave reads of every other key unchanged.
pub proof fn lemma_set_preserves_other_keys(
    m: Map<Seq<char>, EntryView>,
    k: Seq<char>,
    other: Seq<char>,
    e: EntryView,
    now: u64,
)
    requires
        other != k,
    ensures
        map_get(m.insert(k, e), other, now) == map_get(m, other, now),
{
}

} // verus!
