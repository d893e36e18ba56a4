//! The resolution trait: how a typed protocol client obtains its
//! cache-backed instance.
//!
//! A client type names its protocol identifier and wraps the cache token
//! it is handed; `first` and `by_handle` do the lookup through the
//! [`ProtocolCache`], so every client shares the dedup and eviction
//! discipline stated there.

use vstd::prelude::*;

use crate::protocol_cache::{bump, ProtocolCache, ServiceAccessor, SharedCacheEntry};
use crate::protocol_utility::{EfiGuid, EfiOpaqueHandle, ProtocolCacheKey, RustProtocolError};

verus! {

/// The table after a successful open on a miss: one fresh cell under the
/// key — identity minted from the counter, one token, a non-null
/// interface address — and every other key untouched.
pub open spec fn freshly_opened(
    pre: ProtocolCache,
    post: ProtocolCache,
    k: ProtocolCacheKey,
) -> bool {
    &&& post.next_cell_id() == pre.next_cell_id() + 1
    &&& post.entries().contains_key(k)
    &&& post.entries()[k].cell == pre.next_cell_id()
    &&& post.entries()[k].strong == 1
    &&& (post.entries()[k].payload matches Some(a) && a != 0)
    &&& post.entries().remove(k) == pre.entries().remove(k)
}

/// What one resolution attempt does to the table. A hit shares the
/// existing cell without opening anything; a miss costs exactly one open
/// attempt and either caches a fresh cell or — when the open failed —
/// leaves the key absent.
pub open spec fn resolution_step(
    pre: ProtocolCache,
    post: ProtocolCache,
    k: ProtocolCacheKey,
) -> bool {
    if pre.live(k) {
        &&& post.entries() == pre.entries().insert(k, bump(pre.entries()[k]))
        &&& post.opens() == pre.opens()
        &&& post.next_cell_id() == pre.next_cell_id()
    } else {
        &&& post.opens() == pre.opens() + 1
        &&& ((post.entries() == pre.entries().remove(k) && post.next_cell_id()
            == pre.next_cell_id()) || freshly_opened(pre, post, k))
    }
}

/// Dedup law: a resolution of a key whose cell still has live tokens
/// keeps that cell — same identity, still live — so every token handed
/// out while one is alive aliases the same underlying interface, and
/// only one logical owner ever exists per key.
pub proof fn lemma_dedup(c1: &ProtocolCache, c2: &ProtocolCache, k: ProtocolCacheKey)
    requires
        c1.live(k),
        resolution_step(*c1, *c2, k),
    ensures
        c2.live(k),
        c2.entries()[k].cell == c1.entries()[k].cell,
        c2.opens() == c1.opens(),
{
}

/// Miss-then-hit law: resolving a key absent from the cache opens the
/// interface exactly once, and an immediately following resolution of
/// the same key opens nothing further.
pub proof fn lemma_miss_then_hit(
    c1: &ProtocolCache,
    c2: &ProtocolCache,
    c3: &ProtocolCache,
    k: ProtocolCacheKey,
)
    requires
        !c1.live(k),
        freshly_opened(*c1, *c2, k),
        resolution_step(*c1, *c2, k),
        resolution_step(*c2, *c3, k),
    ensures
        c2.opens() == c1.opens() + 1,
        c3.opens() == c2.opens(),
        c3.entries()[k].cell == c2.entries()[k].cell,
{
}

/// Failed-open law: when a miss ends with the table equal to the old
/// table minus the key — the state `find_or_open` guarantees on every
/// error — the key is absent afterwards, so no failure is ever served
/// from the cache.
pub proof fn lemma_failed_open_leaves_no_entry(
    c1: &ProtocolCache,
    c2: &ProtocolCache,
    k: ProtocolCacheKey,
)
    requires
        c2.entries() == c1.entries().remove(k),
    ensures
        !c2.entries().contains_key(k),
        !c2.live(k),
{
}

/// The first handle of an enumeration, or `NotFound` when the firmware
/// reported none.
pub fn first_handle(handles: &Vec<EfiOpaqueHandle>) -> (r: Result<
    EfiOpaqueHandle,
    RustProtocolError,
>)
    ensures
        handles@.len() == 0 ==> r == Result::<EfiOpaqueHandle, RustProtocolError>::Err(
            RustProtocolError::NotFound,
        ),
        handles@.len() > 0 ==> r == Result::<EfiOpaqueHandle, RustProtocolError>::Ok(handles@[0]),
{
    if handles.len() == 0 {
        Err(RustProtocolError::NotFound)
    } else {
        Ok(handles[0])
    }
}

/// The contract a protocol client implements for typed, cache-backed
/// access to its firmware interface.
///
/// An implementor names its protocol identifier and builds itself around
/// the cache token handed to `init_protocol`; it keeps the token in the
/// returned value and hands it back to [`ProtocolCache::release`] when
/// the client is done. A construction that fails drops its token, and a
/// dropped token is never released: the cell then stays resident — safe,
/// but pinned — so a fallible constructor should do its checks before
/// taking ownership of anything.
pub trait RustProtocol: Sized {
    /// The identifier of the protocol this client drives, as a
    /// specification-level constant.
    spec fn guid_spec() -> EfiGuid;

    /// The client's human-readable name, for diagnostics only.
    fn get_name() -> (r: &'static str);

    /// The identifier of the protocol this client drives.
    fn get_guid() -> (r: EfiGuid)
        ensures
            r == Self::guid_spec(),
    ;

    /// Build the typed client around a cache token; one-time typed setup
    /// happens here and may fail.
    fn init_protocol(cell: SharedCacheEntry) -> Result<Self, RustProtocolError>;

    /// Resolve this client's protocol on a known handle through the
    /// cache: a token for the existing cell while one is shared, a
    /// single fresh open otherwise. The table changes exactly as
    /// [`resolution_step`] describes; on success with no prior live cell
    /// the fresh-open clause is the one that holds.
    fn by_handle<A: ServiceAccessor>(
        cache: &mut ProtocolCache,
        acc: &mut A,
        handle: EfiOpaqueHandle,
    ) -> (r: Result<Self, RustProtocolError>)
        requires
            old(cache).wf(),
        ensures
            final(cache).wf(),
            final(cache).next_cell_id() >= old(cache).next_cell_id(),
            resolution_step(
                *old(cache),
                *final(cache),
                (ProtocolCacheKey { guid: Self::guid_spec(), handle }),
            ),
            (!old(cache).live((ProtocolCacheKey { guid: Self::guid_spec(), handle })) && r is Ok)
                ==> freshly_opened(
                *old(cache),
                *final(cache),
                (ProtocolCacheKey { guid: Self::guid_spec(), handle }),
            ),
    {
        let guid = Self::get_guid();
        let key = ProtocolCacheKey { guid, handle };
        let entry = match cache.find_or_open(&key, acc) {
            Ok(e) => e,
            Err(e) => {
                return Err(e);
            },
        };
        Self::init_protocol(entry)
    }

    /// Resolve the first instance the firmware reports: enumerate the
    /// handles for this client's identifier, fail with `NotFound` when
    /// there are none — before any open is attempted — and otherwise
    /// resolve the first handle through the cache as `by_handle` does.
    fn first<A: ServiceAccessor>(cache: &mut ProtocolCache, acc: &mut A) -> (r: Result<
        Self,
        RustProtocolError,
    >)
        requires
            old(cache).wf(),
        ensures
            final(cache).wf(),
            final(cache).next_cell_id() >= old(cache).next_cell_id(),
            old(cache).opens() <= final(cache).opens() <= old(cache).opens() + 1,
            ({
                ||| (final(cache).entries() == old(cache).entries() && final(cache).opens()
                    == old(cache).opens() && final(cache).next_cell_id() == old(
                    cache,
                ).next_cell_id())
                ||| exists|h: EfiOpaqueHandle| #[trigger] resolution_step(
                    *old(cache),
                    *final(cache),
                    (ProtocolCacheKey { guid: Self::guid_spec(), handle: h }),
                )
            }),
    {
        let guid = Self::get_guid();
        let handles = match acc.locate_handles(&guid) {
            Ok(hs) => hs,
            Err(e) => {
                return Err(e);
            },
        };
        let handle = match first_handle(&handles) {
            Ok(h) => h,
            Err(e) => {
                return Err(e);
            },
        };
        let r = Self::by_handle(cache, acc, handle);
        proof {
            assert(resolution_step(
                *old(cache),
                *cache,
                (ProtocolCacheKey { guid: Self::guid_spec(), handle }),
            ));
        }
        r
    }
}

} // verus!
