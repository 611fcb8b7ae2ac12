//! The TTL store: a mapping from string keys to values, each value tagged
//! with an optional absolute expiry instant. An entry whose expiry instant
//! has been reached is logically absent: reads treat it as a miss even
//! though the structure may still physically hold it (lazy expiry).
//!
//! The store is modelled as a `Map<Seq<char>, EntryView>`; all contracts
//! are stated over that model.

use vstd::prelude::*;

verus! {

/// One stored value together with its optional absolute expiry instant
/// (milliseconds). `expires_at == None` means the entry never expires
/// until it is overwritten.
pub struct CacheEntry {
    pub value: String,
    pub expires_at: Option<u64>,
}

/// The mathematical image of one entry: the value as a character sequence
/// plus the optional expiry instant.
pub struct EntryView {
    pub value: Seq<char>,
    pub expires_at: Option<u64>,
}

impl View for CacheEntry {
    type V = EntryView;

    open spec fn view(&self) -> EntryView {
        EntryView { value: self.value@, expires_at: self.expires_at }
    }
}

/// Whether an entry with the given expiry instant is still live at `now`.
/// An entry with no expiry instant is always live; one with an expiry
/// instant is live strictly before that instant.
pub open spec fn entry_live(expires_at: Option<u64>, now: u64) -> bool {
    match expires_at {
        Option::None => true,
        Option::Some(e) => now < e,
    }
}

/// The absolute expiry instant that a `set` at instant `now` with the given
/// time-to-live produces: `None` never expires, `Some(d)` expires at `now + d`.
pub open spec fn expiry_for(ttl: Option<u64>, now: u64) -> Option<u64> {
    match ttl {
        Option::None => Option::None,
        Option::Some(d) => Option::Some((now + d) as u64),
    }
}

/// Whether the model map holds a live entry for `k` at instant `now`.
pub open spec fn map_contains(m: Map<Seq<char>, EntryView>, k: Seq<char>, now: u64) -> bool {
    m.contains_key(k) && entry_live(m[k].expires_at, now)
}

/// The value a read of `k` at instant `now` observes in the model map:
/// the stored value if a live entry is present, nothing otherwise.
pub open spec fn map_get(m: Map<Seq<char>, EntryView>, k: Seq<char>, now: u64) -> Option<
    Seq<char>,
> {
    if map_contains(m, k, now) {
        Option::Some(m[k].value)
    } else {
        Option::None
    }
}

/// A mapping from string keys to at-most-one `CacheEntry` each, with lazy
/// expiry. The key space is expected to be small and fixed, so entries are
/// held in a vector scanned linearly.
pub struct TtlStore {
    entries: Vec<(String, CacheEntry)>,
}

impl View for TtlStore {
    type V = Map<Seq<char>, EntryView>;

    closed spec fn view(&self) -> Map<Seq<char>, EntryView> {
        Map::new(
            |k: Seq<char>|
                exists|i: int| 0 <= i < self.entries@.len() && self.entries@[i].0@ == k,
            |k: Seq<char>|
                self.entries@[choose|i: int|
                    0 <= i < self.entries@.len() && self.entries@[i].0@ == k].1@,
        )
    }
}

impl TtlStore {
    /// Each key occurs at most once in the backing vector.
    pub closed spec fn wf(self) -> bool {
        forall|i: int, j: int|
            0 <= i < j < self.entries@.len() ==> self.entries@[i].0@ != self.entries@[j].0@
    }

    /// Whether a live entry for `k` is present at instant `now`.
    pub open spec fn spec_contains(self, k: Seq<char>, now: u64) -> bool {
        map_contains(self@, k, now)
    }

    /// The value a read of `k` at instant `now` observes.
    pub open spec fn spec_get(self, k: Seq<char>, now: u64) -> Option<Seq<char>> {
        map_get(self@, k, now)
    }

    /// An empty store.
    pub fn new() -> (s: Self)
        ensures
            s.wf(),
            s@ == Map::<Seq<char>, EntryView>::empty(),
    {
        let s = TtlStore { entries: Vec::new() };
        proof {
            assert(s@ =~= Map::<Seq<char>, EntryView>::empty());
        }
        s
    }

    /// The backing vector's entry at index `i` is what the model maps its
    /// key to, and that key is in the model's domain.
    proof fn lemma_view_index(self, i: int)
        requires
            self.wf(),
            0 <= i < self.entries@.len(),
        ensures
            self@.contains_key(self.entries@[i].0@),
            self@[self.entries@[i].0@] == self.entries@[i].1@,
    {
        let k = self.entries@[i].0@;
        assert(0 <= i < self.entries@.len() && self.entries@[i].0@ == k);
        let j = choose|j: int| 0 <= j < self.entries@.len() && self.entries@[j].0@ == k;
        if i < j {
            assert(self.entries@[i].0@ != self.entries@[j].0@);
        } else if j < i {
            assert(self.entries@[j].0@ != self.entries@[i].0@);
        }
        assert(j == i);
    }

    /// A key that no index of the backing vector holds is absent from the
    /// model's domain.
    proof fn lemma_view_absent(self, k: Seq<char>)
        requires
            forall|i: int| 0 <= i < self.entries@.len() ==> self.entries@[i].0@ != k,
        ensures
            !self@.contains_key(k),
    {
    }

    /// The index of the backing-vector entry for `key`, if one exists.
    fn find(&self, key: &str) -> (r: Option<usize>)
        requires
            self.wf(),
        ensures
            match r {
                Option::Some(i) => i < self.entries@.len() && self.entries@[i as int].0@ == key@,
                Option::None => forall|j: int|
                    0 <= j < self.entries@.len() ==> self.entries@[j].0@ != key@,
            },
    {
        let k = key.to_owned();
        let n = self.entries.len();
        let mut i: usize = 0;
        while i < n
            invariant
                k@ == key@,
                n == self.entries@.len(),
                i <= n,
                forall|j: int| 0 <= j < i ==> self.entries@[j].0@ != key@,
            decreases n - i,
        {
            if self.entries[i].0 == k {
                return Option::Some(i);
            }
            i += 1;
        }
        Option::None
    }

    /// Replacing the entry at index `i` by one with the same key updates the
    /// model at that key and nothing else.
    proof fn lemma_view_after_update(pre: Self, post: Self, i: int)
        requires
            pre.wf(),
            0 <= i < pre.entries@.len(),
            post.entries@ == pre.entries@.update(i, post.entries@[i]),
            post.entries@[i].0@ == pre.entries@[i].0@,
        ensures
            post.wf(),
            post@ == pre@.insert(pre.entries@[i].0@, post.entries@[i].1@),
    {
        let k0 = pre.entries@[i].0@;
        let v0 = post.entries@[i].1@;
        assert(forall|j: int|
            0 <= j < post.entries@.len() ==> post.entries@[j].0@ == pre.entries@[j].0@);
        assert(post.wf());
        let target = pre@.insert(k0, v0);
        assert forall|kk: Seq<char>| post@.contains_key(kk) implies target.contains_key(kk) by {
            let j = choose|j: int|
                0 <= j < post.entries@.len() && post.entries@[j].0@ == kk;
            pre.lemma_view_index(j);
        }
        assert forall|kk: Seq<char>| target.contains_key(kk) implies post@.contains_key(kk) by {
            if kk == k0 {
                assert(0 <= i < post.entries@.len() && post.entries@[i].0@ == kk);
            } else {
                let j = choose|j: int|
                    0 <= j < pre.entries@.len() && pre.entries@[j].0@ == kk;
                assert(0 <= j < post.entries@.len() && post.entries@[j].0@ == kk);
            }
        }
        assert forall|kk: Seq<char>| post@.contains_key(kk) implies post@[kk] == target[kk] by {
            if kk == k0 {
                post.lemma_view_index(i);
            } else {
                let j = choose|j: int|
                    0 <= j < post.entries@.len() && post.entries@[j].0@ == kk;
                post.lemma_view_index(j);
                pre.lemma_view_index(j);
                assert(j != i);
            }
        }
        assert(post@ =~= target);
    }

    /// Appending an entry whose key is absent from the backing vector adds
    /// exactly that key to the model.
    proof fn lemma_view_after_push(pre: Self, post: Self)
        requires
            pre.wf(),
            post.entries@.len() == pre.entries@.len() + 1,
            post.entries@ == pre.entries@.push(post.entries@.last()),
            forall|j: int|
                0 <= j < pre.entries@.len() ==> pre.entries@[j].0@ != post.entries@.last().0@,
        ensures
            post.wf(),
            post@ == pre@.insert(post.entries@.last().0@, post.entries@.last().1@),
    {
        let k0 = post.entries@.last().0@;
        let v0 = post.entries@.last().1@;
        let n = pre.entries@.len() as int;
        assert(forall|j: int| 0 <= j < n ==> post.entries@[j] == pre.entries@[j]);
        assert(post.wf());
        let target = pre@.insert(k0, v0);
        assert forall|kk: Seq<char>| post@.contains_key(kk) implies target.contains_key(kk) by {
            let j = choose|j: int|
                0 <= j < post.entries@.len() && post.entries@[j].0@ == kk;
            if j < n {
                pre.lemma_view_index(j);
            }
        }
        assert forall|kk: Seq<char>| target.contains_key(kk) implies post@.contains_key(kk) by {
            if kk == k0 {
                assert(0 <= n < post.entries@.len() && post.entries@[n].0@ == kk);
            } else {
                let j = choose|j: int|
                    0 <= j < pre.entries@.len() && pre.entries@[j].0@ == kk;
                assert(0 <= j < post.entries@.len() && post.entries@[j].0@ == kk);
            }
        }
        assert forall|kk: Seq<char>| post@.contains_key(kk) implies post@[kk] == target[kk] by {
            if kk == k0 {
                post.lemma_view_index(n);
            } else {
                let j = choose|j: int|
                    0 <= j < post.entries@.len() && post.entries@[j].0@ == kk;
                post.lemma_view_index(j);
                assert(j != n);
                pre.lemma_view_index(j);
            }
        }
        assert(post@ =~= target);
    }

    /// Inserts or atomically replaces the entry for `key`. A time-to-live of
    /// `None` makes the entry persist until the next `set` on the same key;
    /// `Some(d)` makes it live until instant `now + d`.
    pub fn set(&mut self, key: &str, value: String, ttl: Option<u64>, now: u64)
        requires
            old(self).wf(),
            ttl matches Some(d) ==> now + d <= u64::MAX,
        ensures
            final(self).wf(),
            final(self)@ == old(self)@.insert(
                key@,
                EntryView { value: value@, expires_at: expiry_for(ttl, now) },
            ),
    {
        let expires_at = match ttl {
            Option::None => Option::None,
            Option::Some(d) => Option::Some(now + d),
        };
        let k = key.to_owned();
        let entry = CacheEntry { value, expires_at };
        match self.find(key) {
            Option::Some(i) => {
                self.entries.set(i, (k, entry));
                proof {
                    Self::lemma_view_after_update(*old(self), *self, i as int);
                }
            },
            Option::None => {
                self.entries.push((k, entry));
                proof {
                    Self::lemma_view_after_push(*old(self), *self);
                }
            },
        }
    }

    /// Returns the stored value if a live entry for `key` is present at
    /// instant `now`, and nothing otherwise. An expired entry is never
    /// returned.
    pub fn get(&self, key: &str, now: u64) -> (r: Option<String>)
        requires
            self.wf(),
        ensures
            r is Some <==> self.spec_contains(key@, now),
            self.spec_contains(key@, now) ==> (r matches Some(v) && v@ == self@[key@].value),
    {
        match self.find(key) {
            Option::Some(i) => {
                proof {
                    self.lemma_view_index(i as int);
                }
                let entry = &self.entries[i].1;
                let live = match entry.expires_at {
                    Option::None => true,
                    Option::Some(e) => now < e,
                };
                if live {
                    Option::Some(entry.value.clone())
                } else {
                    Option::None
                }
            },
            Option::None => {
                proof {
                    self.lemma_view_absent(key@);
                }
                Option::None
            },
        }
    }

    /// Whether a live entry for `key` is present at instant `now`;
    /// equivalent to `get(key, now).is_some()`, with the same freshness
    /// semantics.
    pub fn contains(&self, key: &str, now: u64) -> (r: bool)
        requires
            self.wf(),
        ensures
            r == self.spec_contains(key@, now),
            r == (self.spec_get(key@, now) is Some),
    {
        match self.find(key) {
            Option::Some(i) => {
                proof {
                    self.lemma_view_index(i as int);
                }
                match self.entries[i].1.expires_at {
                    Option::None => true,
                    Option::Some(e) => now < e,
                }
            },
            Option::None => {
                proof {
                    self.lemma_view_absent(key@);
                }
                false
            },
        }
    }
}

} // verus!
