//! The protocol resolution and lifetime cache.
//!
//! One table maps each (identifier, handle) key to at most one cached
//! protocol cell. Consumers hold [`SharedCacheEntry`] tokens; the table
//! keeps only a share count per cell, the moral equivalent of a weak
//! reference: a count of zero means every token is gone and the next
//! lookup of that key evicts the slot instead of reusing it. Each cell
//! carries a never-reused identity drawn from a monotone counter, so a
//! fresh open can be told apart from a revived slot.
//!
//! The table is an explicitly owned value, handed around by `&mut`:
//! Rust's exclusive borrows give the mutual exclusion that a shared map
//! would need a lock for, and keep every operation atomic from the
//! caller's point of view.

use vstd::prelude::*;

use crate::protocol_utility::{
    key_lt, lemma_key_lt_asym, lemma_key_lt_trans, EfiGuid, EfiOpaqueHandle, EfiProtocolPtr,
    ProtocolCacheKey, RustProtocolError,
};
use core::cmp::Ordering;

verus! {

/// What the firmware can do for the cache: enumerate the handles that
/// expose a protocol, and open the protocol interface on one handle.
///
/// The firmware alone decides what these calls return, so the methods
/// carry no contract; the cache states what holds of its own table for
/// every possible outcome. `open` reports the raw interface address, with
/// zero standing for a null interface pointer.
pub trait ServiceAccessor {
    /// Every handle that currently exposes the identified protocol.
    fn locate_handles(&mut self, guid: &EfiGuid) -> Result<Vec<EfiOpaqueHandle>, RustProtocolError>;

    /// Open the identified protocol on one handle and report the raw
    /// address of its interface.
    fn open(&mut self, guid: &EfiGuid, handle: EfiOpaqueHandle) -> Result<usize, RustProtocolError>;
}

/// What one cached cell looks like to specifications: its never-reused
/// identity, how many consumer tokens are alive, and the interface
/// address it carries (`None` once deinitialized).
pub ghost struct CacheEntryModel {
    /// The cell identity.
    pub cell: u64,
    /// The number of live consumer tokens.
    pub strong: u64,
    /// The interface address, or `None` after deinitialization.
    pub payload: Option<usize>,
}

/// A cell model with one more live token; the count saturates rather
/// than wrap.
pub open spec fn bump(e: CacheEntryModel) -> CacheEntryModel {
    CacheEntryModel {
        cell: e.cell,
        strong: if e.strong == u64::MAX {
            e.strong
        } else {
            (e.strong + 1) as u64
        },
        payload: e.payload,
    }
}

/// A consumer's strong reference to one cached protocol cell.
///
/// Tokens are handed out only by the cache and cannot be cloned; give one
/// back with [`ProtocolCache::release`] when done. Dropping a token
/// without releasing it never breaks safety; it only keeps the slot from
/// being evicted.
pub struct SharedCacheEntry {
    key: ProtocolCacheKey,
    cell: u64,
}

impl SharedCacheEntry {
    /// The key the token was issued under.
    pub closed spec fn spec_key(&self) -> ProtocolCacheKey {
        self.key
    }

    /// The identity of the cell the token refers to.
    pub closed spec fn spec_cell(&self) -> u64 {
        self.cell
    }

    /// The key the token was issued under.
    pub fn key(&self) -> (r: ProtocolCacheKey)
        ensures
            r == self.spec_key(),
    {
        self.key
    }

    /// The identity of the cell the token refers to.
    pub fn cell_id(&self) -> (r: u64)
        ensures
            r == self.spec_cell(),
    {
        self.cell
    }
}

#[derive(Clone, Copy)]
struct CacheSlot {
    key: ProtocolCacheKey,
    cell: u64,
    strong: u64,
    payload: Option<EfiProtocolPtr>,
}

/// The cache: a table ordered by key, identifier bytes first, handle
/// second, holding at most one cell per key.
pub struct ProtocolCache {
    slots: Vec<CacheSlot>,
    next_cell: u64,
    opens: Ghost<nat>,
}

impl ProtocolCache {
    spec fn slot_model(s: CacheSlot) -> CacheEntryModel {
        CacheEntryModel {
            cell: s.cell,
            strong: s.strong,
            payload: match s.payload {
                Some(p) => Some(p@),
                None => None,
            },
        }
    }

    /// Well-formed: keys strictly ordered (hence unique), and every cell
    /// identity below the counter that mints the next one.
    pub closed spec fn wf(&self) -> bool {
        &&& forall|i: int, j: int|
            0 <= i < j < self.slots@.len() ==> key_lt(
                #[trigger] self.slots@[i].key,
                #[trigger] self.slots@[j].key,
            )
        &&& forall|i: int|
            0 <= i < self.slots@.len() ==> #[trigger] self.slots@[i].cell < self.next_cell
    }

    /// Whether the table has a slot under this key.
    pub closed spec fn has_key(&self, k: ProtocolCacheKey) -> bool {
        exists|i: int| 0 <= i < self.slots@.len() && self.slots@[i].key == k
    }

    spec fn slot_index(&self, k: ProtocolCacheKey) -> int {
        choose|i: int| 0 <= i < self.slots@.len() && self.slots@[i].key == k
    }

    /// The table as a map from keys to cell models.
    pub closed spec fn entries(&self) -> Map<ProtocolCacheKey, CacheEntryModel> {
        Map::new(|k: ProtocolCacheKey| self.has_key(k), |k: ProtocolCacheKey|
            Self::slot_model(self.slots@[self.slot_index(k)]))
    }

    /// A key whose cell still has at least one live token.
    pub open spec fn live(&self, k: ProtocolCacheKey) -> bool {
        self.entries().contains_key(k) && self.entries()[k].strong >= 1
    }

    /// The identity the next opened cell will get; identities never
    /// repeat, so everything below this value refers to the past.
    pub closed spec fn next_cell_id(&self) -> u64 {
        self.next_cell
    }

    /// How many times the cache has asked the firmware to open an
    /// interface.
    pub closed spec fn opens(&self) -> nat {
        self.opens@
    }

    /// The keys of the table, in table order.
    pub closed spec fn keys_in_order(&self) -> Seq<ProtocolCacheKey> {
        self.slots@.map_values(|s: CacheSlot| s.key)
    }

    proof fn lemma_slot_is_entry(&self, i: int)
        requires
            self.wf(),
            0 <= i < self.slots@.len(),
        ensures
            self.has_key(self.slots@[i].key),
            self.slot_index(self.slots@[i].key) == i,
            self.entries().contains_key(self.slots@[i].key),
            self.entries()[self.slots@[i].key] == Self::slot_model(self.slots@[i]),
    {
        let k = self.slots@[i].key;
        assert(self.has_key(k));
        let j = self.slot_index(k);
        if i != j {
            if i < j {
                lemma_key_lt_asym(self.slots@[i].key, self.slots@[j].key);
            } else {
                lemma_key_lt_asym(self.slots@[j].key, self.slots@[i].key);
            }
        }
    }

    proof fn lemma_absent(&self, k: ProtocolCacheKey)
        requires
            !self.has_key(k),
        ensures
            !self.entries().contains_key(k),
            self.entries() == self.entries().remove(k),
    {
        assert(self.entries() =~= self.entries().remove(k));
    }

    /// An empty cache.
    pub fn new() -> (r: ProtocolCache)
        ensures
            r.wf(),
            r.entries() == Map::<ProtocolCacheKey, CacheEntryModel>::empty(),
            r.opens() == 0,
            r.next_cell_id() == 0,
    {
        let r = ProtocolCache { slots: Vec::new(), next_cell: 0, opens: Ghost(0) };
        proof {
            assert(r.entries() =~= Map::<ProtocolCacheKey, CacheEntryModel>::empty());
        }
        r
    }

    proof fn lemma_entries_after_update(pre: &Self, post: &Self, i: int)
        requires
            pre.wf(),
            0 <= i < pre.slots@.len(),
            post.slots@.len() == pre.slots@.len(),
            forall|j: int| 0 <= j < pre.slots@.len() && j != i ==> post.slots@[j] == pre.slots@[j],
            post.slots@[i].key == pre.slots@[i].key,
            post.slots@[i].cell == pre.slots@[i].cell,
            post.next_cell == pre.next_cell,
        ensures
            post.wf(),
            post.entries() == pre.entries().insert(
                pre.slots@[i].key,
                Self::slot_model(post.slots@[i]),
            ),
    {
        let k0 = pre.slots@[i].key;
        let mnew = Self::slot_model(post.slots@[i]);
        assert(forall|j: int|
            0 <= j < post.slots@.len() ==> #[trigger] post.slots@[j].key == pre.slots@[j].key
                && post.slots@[j].cell == pre.slots@[j].cell);
        assert(post.wf());
        assert forall|k2: ProtocolCacheKey| #[trigger] post.has_key(k2) == pre.has_key(k2) by {
            if post.has_key(k2) {
                let w = choose|w: int|
                    0 <= w < post.slots@.len() && post.slots@[w].key == k2;
                assert(pre.slots@[w].key == k2);
            }
            if pre.has_key(k2) {
                let w = choose|w: int| 0 <= w < pre.slots@.len() && pre.slots@[w].key == k2;
                assert(post.slots@[w].key == k2);
            }
        }
        assert forall|k2: ProtocolCacheKey| #[trigger] pre.has_key(k2) implies post.entries()[k2]
            == pre.entries().insert(k0, mnew)[k2] by {
            let w = choose|w: int| 0 <= w < pre.slots@.len() && pre.slots@[w].key == k2;
            pre.lemma_slot_is_entry(w);
            post.lemma_slot_is_entry(w);
            if w != i {
                if w < i {
                    lemma_key_lt_asym(pre.slots@[w].key, pre.slots@[i].key);
                } else {
                    lemma_key_lt_asym(pre.slots@[i].key, pre.slots@[w].key);
                }
            }
        }
        assert(post.entries() =~= pre.entries().insert(k0, mnew));
    }

    proof fn lemma_entries_after_remove(pre: &Self, post: &Self, i: int)
        requires
            pre.wf(),
            0 <= i < pre.slots@.len(),
            post.slots@ == pre.slots@.remove(i),
            post.next_cell == pre.next_cell,
        ensures
            post.wf(),
            post.entries() == pre.entries().remove(pre.slots@[i].key),
    {
        let k0 = pre.slots@[i].key;
        assert forall|a: int, b: int|
            0 <= a < b < post.slots@.len() implies key_lt(
            post.slots@[a].key,
            post.slots@[b].key,
        ) by {
            let a0 = if a < i { a } else { a + 1 };
            let b0 = if b < i { b } else { b + 1 };
            assert(post.slots@[a] == pre.slots@[a0]);
            assert(post.slots@[b] == pre.slots@[b0]);
        }
        assert forall|j: int| 0 <= j < post.slots@.len() implies #[trigger] post.slots@[j].cell
            < post.next_cell by {
            let j0 = if j < i { j } else { j + 1 };
            assert(post.slots@[j] == pre.slots@[j0]);
        }
        assert(post.wf());
        assert forall|k2: ProtocolCacheKey| #[trigger] post.has_key(k2) == (pre.has_key(k2) && k2
            != k0) by {
            if post.has_key(k2) {
                let w = choose|w: int|
                    0 <= w < post.slots@.len() && post.slots@[w].key == k2;
                let w0 = if w < i { w } else { w + 1 };
                assert(pre.slots@[w0].key == k2);
                if w0 < i {
                    lemma_key_lt_asym(pre.slots@[w0].key, pre.slots@[i].key);
                } else {
                    lemma_key_lt_asym(pre.slots@[i].key, pre.slots@[w0].key);
                }
            }
            if pre.has_key(k2) && k2 != k0 {
                let w = choose|w: int| 0 <= w < pre.slots@.len() && pre.slots@[w].key == k2;
                if w < i {
                    assert(post.slots@[w].key == k2);
                } else {
                    assert(w > i);
                    assert(post.slots@[w - 1].key == k2);
                }
            }
        }
        assert forall|k2: ProtocolCacheKey| #[trigger] post.has_key(k2) implies post.entries()[k2]
            == pre.entries()[k2] by {
            let w = choose|w: int| 0 <= w < post.slots@.len() && post.slots@[w].key == k2;
            post.lemma_slot_is_entry(w);
            let w0 = if w < i { w } else { w + 1 };
            assert(pre.slots@[w0] == post.slots@[w]);
            pre.lemma_slot_is_entry(w0);
        }
        assert(post.entries() =~= pre.entries().remove(k0));
    }

    /// Look up a key and, when its cell still has live tokens, share it
    /// once more. A slot whose tokens are all gone is evicted here, on the
    /// lookup that discovers it, never by a background sweep.
    ///
    /// The share count saturates at `u64::MAX`: beyond that many live
    /// tokens the count stays put, so eviction may only be delayed, never
    /// premature while the count is positive.
    pub fn get_existing(&mut self, key: &ProtocolCacheKey) -> (r: Option<SharedCacheEntry>)
        requires
            old(self).wf(),
        ensures
            final(self).wf(),
            final(self).opens() == old(self).opens(),
            final(self).next_cell_id() == old(self).next_cell_id(),
            r is Some <==> old(self).live(*key),
            (r matches Some(t) ==> ({
                let e = old(self).entries()[*key];
                &&& t.spec_key() == *key
                &&& t.spec_cell() == e.cell
                &&& final(self).entries() == old(self).entries().insert(*key, bump(e))
            })),
            r is None ==> final(self).entries() == old(self).entries().remove(*key),
    {
        let idx = self.find_index(key);
        match idx {
            None => {
                proof {
                    self.lemma_absent(*key);
                }
                None
            },
            Some(i) => {
                proof {
                    old(self).lemma_slot_is_entry(i as int);
                }
                let s = self.slots[i].strong;
                if s >= 1 {
                    let mut slot = self.slots[i];
                    slot.strong = if s == u64::MAX {
                        s
                    } else {
                        s + 1
                    };
                    let cell = slot.cell;
                    self.slots[i] = slot;
                    proof {
                        Self::lemma_entries_after_update(old(self), self, i as int);
                    }
                    Some(SharedCacheEntry { key: *key, cell })
                } else {
                    self.slots.remove(i);
                    proof {
                        Self::lemma_entries_after_remove(old(self), self, i as int);
                    }
                    None
                }
            },
        }
    }

    #[verifier::rlimit(50)]
    proof fn lemma_entries_after_insert(pre: &Self, post: &Self, pos: int)
        requires
            pre.wf(),
            0 <= pos <= pre.slots@.len(),
            post.slots@ == pre.slots@.insert(pos, post.slots@[pos]),
            post.next_cell >= pre.next_cell,
            post.slots@[pos].cell < post.next_cell,
            forall|j: int|
                0 <= j < pos ==> key_lt(#[trigger] pre.slots@[j].key, post.slots@[pos].key),
            forall|j: int|
                pos <= j < pre.slots@.len() ==> key_lt(
                    post.slots@[pos].key,
                    #[trigger] pre.slots@[j].key,
                ),
        ensures
            post.wf(),
            post.entries() == pre.entries().insert(
                post.slots@[pos].key,
                Self::slot_model(post.slots@[pos]),
            ),
    {
        let knew = post.slots@[pos].key;
        let mnew = Self::slot_model(post.slots@[pos]);
        assert(forall|j: int| 0 <= j < pos ==> post.slots@[j] == #[trigger] pre.slots@[j]);
        assert(forall|j: int|
            pos < j < post.slots@.len() ==> post.slots@[j] == #[trigger] pre.slots@[j - 1]);
        assert forall|a: int, b: int|
            0 <= a < b < post.slots@.len() implies key_lt(
            post.slots@[a].key,
            post.slots@[b].key,
        ) by {
            if a == pos {
                assert(post.slots@[b] == pre.slots@[b - 1]);
            } else if b == pos {
                assert(post.slots@[a] == pre.slots@[a]);
            } else {
                let a0 = if a < pos { a } else { a - 1 };
                let b0 = if b < pos { b } else { b - 1 };
                assert(post.slots@[a] == pre.slots@[a0]);
                assert(post.slots@[b] == pre.slots@[b0]);
            }
        }
        assert forall|j: int| 0 <= j < post.slots@.len() implies #[trigger] post.slots@[j].cell
            < post.next_cell by {
            if j != pos {
                let j0 = if j < pos { j } else { j - 1 };
                assert(post.slots@[j] == pre.slots@[j0]);
            }
        }
        assert(post.wf());
        assert forall|k2: ProtocolCacheKey| #[trigger] post.has_key(k2) == (pre.has_key(k2) || k2
            == knew) by {
            if post.has_key(k2) {
                let w = choose|w: int|
                    0 <= w < post.slots@.len() && post.slots@[w].key == k2;
                if w != pos {
                    let w0 = if w < pos { w } else { w - 1 };
                    assert(pre.slots@[w0].key == k2);
                }
            }
            if pre.has_key(k2) {
                let w = choose|w: int| 0 <= w < pre.slots@.len() && pre.slots@[w].key == k2;
                if w < pos {
                    assert(post.slots@[w].key == k2);
                } else {
                    assert(post.slots@[w + 1].key == k2);
                }
            }
        }
        assert forall|k2: ProtocolCacheKey| #[trigger] post.has_key(k2) implies post.entries()[k2]
            == pre.entries().insert(knew, mnew)[k2] by {
            let w = choose|w: int| 0 <= w < post.slots@.len() && post.slots@[w].key == k2;
            post.lemma_slot_is_entry(w);
            if w != pos {
                if w < pos {
                    lemma_key_lt_asym(post.slots@[w].key, knew);
                    assert(pre.slots@[w] == post.slots@[w]);
                    pre.lemma_slot_is_entry(w);
                } else {
                    lemma_key_lt_asym(knew, post.slots@[w].key);
                    assert(pre.slots@[w - 1] == post.slots@[w]);
                    pre.lemma_slot_is_entry(w - 1);
                }
            }
        }
        assert(post.entries() =~= pre.entries().insert(knew, mnew));
    }

    fn find_insert_pos(&self, key: &ProtocolCacheKey) -> (r: usize)
        requires
            self.wf(),
            !self.has_key(*key),
        ensures
            0 <= r <= self.slots@.len(),
            forall|j: int| 0 <= j < r ==> key_lt(#[trigger] self.slots@[j].key, *key),
            forall|j: int|
                r <= j < self.slots@.len() ==> key_lt(*key, #[trigger] self.slots@[j].key),
    {
        let n = self.slots.len();
        let mut i: usize = 0;
        while i < n
            invariant
                0 <= i <= n,
                n == self.slots@.len(),
                self.wf(),
                !self.has_key(*key),
                forall|j: int| 0 <= j < i ==> key_lt(#[trigger] self.slots@[j].key, *key),
            decreases n - i,
        {
            match self.slots[i].key.cmp_key(key) {
                Ordering::Less => {
                    i = i + 1;
                },
                Ordering::Equal => {
                    proof {
                        assert(self.has_key(*key));
                        assert(false);
                    }
                    i = i + 1;
                },
                Ordering::Greater => {
                    proof {
                        assert forall|j: int|
                            i <= j < self.slots@.len() implies key_lt(
                            *key,
                            #[trigger] self.slots@[j].key,
                        ) by {
                            if j > i {
                                lemma_key_lt_trans(
                                    *key,
                                    self.slots@[i as int].key,
                                    self.slots@[j].key,
                                );
                            }
                        }
                    }
                    return i;
                },
            }
        }
        i
    }

    /// Return the cached cell for the key, opening the interface through
    /// the accessor only on a miss.
    ///
    /// A hit shares the existing cell (the dedup guarantee: while any
    /// token for the key is alive, every call returns the same cell
    /// identity, never a second owner). A miss — the key absent, or its
    /// slot stale and evicted — asks the accessor to open the interface
    /// exactly once; success caches a fresh cell whose identity is the
    /// counter value `next_cell_id` and returns the first token for it.
    /// A failed open, or a null interface address (refused as
    /// `InvalidParameter`), leaves no trace: the key is absent afterwards
    /// and a later call starts from scratch. The accessor's error comes
    /// back verbatim. When the identity counter is exhausted — which
    /// would take one successful open per value of a `u64` — the call
    /// fails with `Underlying(0)` rather than reuse an identity.
    pub fn find_or_open<A: ServiceAccessor>(
        &mut self,
        key: &ProtocolCacheKey,
        acc: &mut A,
    ) -> (r: Result<SharedCacheEntry, RustProtocolError>)
        requires
            old(self).wf(),
        ensures
            final(self).wf(),
            final(self).next_cell_id() >= old(self).next_cell_id(),
            old(self).live(*key) ==> ({
                let e = old(self).entries()[*key];
                &&& (r matches Ok(t) && t.spec_key() == *key && t.spec_cell() == e.cell)
                &&& final(self).entries() == old(self).entries().insert(*key, bump(e))
                &&& final(self).opens() == old(self).opens()
                &&& final(self).next_cell_id() == old(self).next_cell_id()
            }),
            !old(self).live(*key) ==> ({
                &&& final(self).opens() == old(self).opens() + 1
                &&& (r matches Ok(t) ==> ({
                    &&& t.spec_key() == *key
                    &&& t.spec_cell() == old(self).next_cell_id()
                    &&& final(self).next_cell_id() == old(self).next_cell_id() + 1
                    &&& final(self).entries().contains_key(*key)
                    &&& final(self).entries()[*key].cell == old(self).next_cell_id()
                    &&& final(self).entries()[*key].strong == 1
                    &&& (final(self).entries()[*key].payload matches Some(a) && a != 0)
                    &&& final(self).entries().remove(*key) == old(self).entries().remove(*key)
                }))
                &&& (r is Err ==> final(self).entries() == old(self).entries().remove(*key)
                    && final(self).next_cell_id() == old(self).next_cell_id())
            }),
    {
        match self.get_existing(key) {
            Some(t) => Ok(t),
            None => {
                let ghost s1 = *self;
                self.opens = Ghost(self.opens@ + 1);
                let opened = acc.open(&key.guid, key.handle);
                match opened {
                    Err(e) => Err(e),
                    Ok(addr) => match EfiProtocolPtr::try_from(addr) {
                        Err(e) => Err(e),
                        Ok(ptr) => {
                            if self.next_cell == u64::MAX {
                                return Err(RustProtocolError::Underlying(0));
                            }
                            let cell = self.next_cell;
                            self.next_cell = cell + 1;
                            proof {
                                assert(self.entries() =~= s1.entries());
                                assert(s1.entries().contains_key(*key) == s1.has_key(*key));
                                assert(!self.has_key(*key));
                            }
                            let pos = self.find_insert_pos(key);
                            let ghost mid = *self;
                            self.slots.insert(
                                pos,
                                CacheSlot { key: *key, cell, strong: 1, payload: Some(ptr) },
                            );
                            proof {
                                Self::lemma_entries_after_insert(&mid, self, pos as int);
                                assert(mid.entries() =~= old(self).entries().remove(*key));
                                assert(self.entries().remove(*key)
                                    =~= old(self).entries().remove(*key));
                            }
                            Ok(SharedCacheEntry { key: *key, cell })
                        },
                    },
                }
            },
        }
    }

    /// Give a token back. The matching cell, when it still exists under
    /// the token's key with live tokens, loses one share; the slot stays
    /// in the table even when the count reaches zero, and is evicted only
    /// by the next lookup of its key — eviction is lazy by design.
    ///
    /// Release is pure cache bookkeeping: no firmware-side
    /// unregistration happens here. That is this library's reading of
    /// the drop discipline, stated as part of the contract.
    pub fn release(&mut self, entry: SharedCacheEntry)
        requires
            old(self).wf(),
        ensures
            final(self).wf(),
            final(self).opens() == old(self).opens(),
            final(self).next_cell_id() == old(self).next_cell_id(),
            ({
                let m = old(self).entries();
                let k = entry.spec_key();
                let hit = m.contains_key(k) && m[k].cell == entry.spec_cell() && m[k].strong >= 1;
                &&& (hit ==> final(self).entries() == m.insert(
                    k,
                    (CacheEntryModel {
                        cell: m[k].cell,
                        strong: (m[k].strong - 1) as u64,
                        payload: m[k].payload,
                    }),
                ))
                &&& (!hit ==> final(self).entries() == m)
            }),
    {
        let key = entry.key;
        let idx = self.find_index(&key);
        match idx {
            None => {
                proof {
                    self.lemma_absent(key);
                }
            },
            Some(i) => {
                proof {
                    old(self).lemma_slot_is_entry(i as int);
                }
                let s = self.slots[i];
                if s.cell == entry.cell && s.strong >= 1 {
                    let mut slot = s;
                    slot.strong = s.strong - 1;
                    self.slots[i] = slot;
                    proof {
                        Self::lemma_entries_after_update(old(self), self, i as int);
                    }
                }
            },
        }
    }

    /// Read the interface pointer a token refers to. Fails with
    /// `Unregistered` when the cell was deinitialized, and likewise when
    /// the token no longer matches any cached cell.
    pub fn read(&self, entry: &SharedCacheEntry) -> (r: Result<EfiProtocolPtr, RustProtocolError>)
        requires
            self.wf(),
        ensures
            ({
                let m = self.entries();
                let k = entry.spec_key();
                if m.contains_key(k) && m[k].cell == entry.spec_cell() {
                    match m[k].payload {
                        Some(a) => r matches Ok(p) && p@ == a,
                        None => r == Result::<EfiProtocolPtr, RustProtocolError>::Err(
                            RustProtocolError::Unregistered,
                        ),
                    }
                } else {
                    r == Result::<EfiProtocolPtr, RustProtocolError>::Err(
                        RustProtocolError::Unregistered,
                    )
                }
            }),
    {
        let key = entry.key;
        let idx = self.find_index(&key);
        match idx {
            None => Err(RustProtocolError::Unregistered),
            Some(i) => {
                proof {
                    self.lemma_slot_is_entry(i as int);
                }
                let s = self.slots[i];
                if s.cell == entry.cell {
                    match s.payload {
                        Some(p) => Ok(p),
                        None => Err(RustProtocolError::Unregistered),
                    }
                } else {
                    Err(RustProtocolError::Unregistered)
                }
            },
        }
    }

    /// Deinitialize the cell a token refers to: clear its payload so
    /// every later read reports `Unregistered`. The share count is
    /// untouched; tokens must still be released.
    pub fn deinit(&mut self, entry: &SharedCacheEntry)
        requires
            old(self).wf(),
        ensures
            final(self).wf(),
            final(self).opens() == old(self).opens(),
            final(self).next_cell_id() == old(self).next_cell_id(),
            ({
                let m = old(self).entries();
                let k = entry.spec_key();
                let hit = m.contains_key(k) && m[k].cell == entry.spec_cell();
                &&& (hit ==> final(self).entries() == m.insert(
                    k,
                    (CacheEntryModel { cell: m[k].cell, strong: m[k].strong, payload: None }),
                ))
                &&& (!hit ==> final(self).entries() == m)
            }),
    {
        let key = entry.key;
        let idx = self.find_index(&key);
        match idx {
            None => {
                proof {
                    self.lemma_absent(key);
                }
            },
            Some(i) => {
                proof {
                    old(self).lemma_slot_is_entry(i as int);
                }
                let s = self.slots[i];
                if s.cell == entry.cell {
                    let mut slot = s;
                    slot.payload = None;
                    self.slots[i] = slot;
                    proof {
                        Self::lemma_entries_after_update(old(self), self, i as int);
                    }
                }
            },
        }
    }

    /// How many keys the table holds right now, stale slots included.
    pub fn len(&self) -> (r: usize)
        ensures
            r == self.keys_in_order().len(),
    {
        self.slots.len()
    }

    /// Whether the table holds a slot for the key, live or stale.
    pub fn has_entry(&self, key: &ProtocolCacheKey) -> (r: bool)
        requires
            self.wf(),
        ensures
            r == self.entries().contains_key(*key),
    {
        match self.find_index(key) {
            Some(i) => {
                proof {
                    self.lemma_slot_is_entry(i as int);
                }
                true
            },
            None => {
                proof {
                    self.lemma_absent(*key);
                }
                false
            },
        }
    }

    /// The share count of the key's cell, or `None` when the key has no
    /// slot.
    pub fn strong_count(&self, key: &ProtocolCacheKey) -> (r: Option<u64>)
        requires
            self.wf(),
        ensures
            match r {
                Some(c) => self.entries().contains_key(*key) && c == self.entries()[*key].strong,
                None => !self.entries().contains_key(*key),
            },
    {
        match self.find_index(key) {
            Some(i) => {
                proof {
                    self.lemma_slot_is_entry(i as int);
                }
                Some(self.slots[i].strong)
            },
            None => {
                proof {
                    self.lemma_absent(*key);
                }
                None
            },
        }
    }

    /// The keys of the table, in table order: identifier bytes first,
    /// handle second.
    pub fn keys(&self) -> (r: Vec<ProtocolCacheKey>)
        ensures
            r@ == self.keys_in_order(),
    {
        let n = self.slots.len();
        let mut r: Vec<ProtocolCacheKey> = Vec::new();
        let mut i: usize = 0;
        while i < n
            invariant
                0 <= i <= n,
                n == self.slots@.len(),
                r@ == self.keys_in_order().take(i as int),
            decreases n - i,
        {
            r.push(self.slots[i].key);
            proof {
                assert(self.keys_in_order().take(i + 1 as int)
                    =~= self.keys_in_order().take(i as int).push(self.slots@[i as int].key));
            }
            i = i + 1;
        }
        proof {
            assert(self.keys_in_order().take(n as int) =~= self.keys_in_order());
        }
        r
    }

    /// Key-ordering law: the enumeration [`Self::keys`] returns is
    /// strictly increasing — identifier bytes compared lexicographically
    /// first, handles second — so each key appears at most once.
    pub proof fn lemma_keys_sorted(&self)
        requires
            self.wf(),
        ensures
            forall|i: int, j: int|
                0 <= i < j < self.keys_in_order().len() ==> key_lt(
                    #[trigger] self.keys_in_order()[i],
                    #[trigger] self.keys_in_order()[j],
                ),
    {
    }

    /// Every cached cell's identity lies below the counter that mints
    /// the next one.
    pub proof fn lemma_cells_below_counter(&self)
        requires
            self.wf(),
        ensures
            forall|k: ProtocolCacheKey| #[trigger]
                self.entries().contains_key(k) ==> self.entries()[k].cell < self.next_cell_id(),
    {
        assert forall|k: ProtocolCacheKey| #[trigger]
            self.entries().contains_key(k) implies self.entries()[k].cell
            < self.next_cell_id() by {
            let w = self.slot_index(k);
            self.lemma_slot_is_entry(w);
        }
    }

    /// Eviction law: a cell cached at an earlier moment never shares its
    /// identity with the cell a later open would mint, because the
    /// counter only grows. Together with `find_or_open`'s miss clause —
    /// the fresh token's cell identity is exactly `next_cell_id` — a key
    /// resolved anew after losing all its tokens cannot revive the dead
    /// cell's identity.
    pub proof fn lemma_eviction_no_reuse(
        earlier: &ProtocolCache,
        later: &ProtocolCache,
        k: ProtocolCacheKey,
    )
        requires
            earlier.wf(),
            earlier.entries().contains_key(k),
            later.next_cell_id() >= earlier.next_cell_id(),
        ensures
            earlier.entries()[k].cell != later.next_cell_id(),
    {
        earlier.lemma_cells_below_counter();
    }

    fn find_index(&self, key: &ProtocolCacheKey) -> (r: Option<usize>)
        requires
            self.wf(),
        ensures
            match r {
                Some(i) => 0 <= i < self.slots@.len() && self.slots@[i as int].key == *key,
                None => !self.has_key(*key),
            },
    {
        let n = self.slots.len();
        let mut i: usize = 0;
        while i < n
            invariant
                0 <= i <= n,
                n == self.slots@.len(),
                forall|k: int| 0 <= k < i ==> #[trigger] self.slots@[k].key != *key,
            decreases n - i,
        {
            match self.slots[i].key.cmp_key(key) {
                Ordering::Equal => {
                    return Some(i);
                },
                _ => {},
            }
            i = i + 1;
        }
        None
    }
}

} // verus!
