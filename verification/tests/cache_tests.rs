use mu_rust_ex::protocol_cache::{ProtocolCache, ServiceAccessor};
use mu_rust_ex::protocol_utility::{
    EfiGuid, EfiOpaqueHandle, ProtocolCacheKey, RustProtocolError,
};

struct StubAccessor {
    opens: usize,
    locates: usize,
    handles: Vec<EfiOpaqueHandle>,
    open_result: Result<usize, RustProtocolError>,
}

impl StubAccessor {
    fn new(handles: Vec<EfiOpaqueHandle>, open_result: Result<usize, RustProtocolError>) -> Self {
        StubAccessor { opens: 0, locates: 0, handles, open_result }
    }
}

impl ServiceAccessor for StubAccessor {
    fn locate_handles(
        &mut self,
        _guid: &EfiGuid,
    ) -> Result<Vec<EfiOpaqueHandle>, RustProtocolError> {
        self.locates += 1;
        Ok(self.handles.clone())
    }

    fn open(
        &mut self,
        _guid: &EfiGuid,
        _handle: EfiOpaqueHandle,
    ) -> Result<usize, RustProtocolError> {
        self.opens += 1;
        self.open_result
    }
}

fn key(guid_byte: u8, handle: usize) -> ProtocolCacheKey {
    let mut bytes = [0u8; 16];
    bytes[0] = guid_byte;
    ProtocolCacheKey { guid: EfiGuid::new(bytes), handle: EfiOpaqueHandle::from_raw(handle) }
}

#[test]
fn miss_then_hit_opens_once() {
    let mut cache = ProtocolCache::new();
    let mut acc = StubAccessor::new(vec![], Ok(0x1000));
    let k = key(1, 7);

    let t1 = cache.find_or_open(&k, &mut acc).unwrap();
    assert_eq!(acc.opens, 1);
    let t2 = cache.find_or_open(&k, &mut acc).unwrap();
    assert_eq!(acc.opens, 1);
    // Both tokens alias the same cell.
    assert_eq!(t1.cell_id(), t2.cell_id());
    assert_eq!(cache.strong_count(&k), Some(2));
    // Both read the same interface address.
    assert_eq!(cache.read(&t1).unwrap().addr(), 0x1000);
    assert_eq!(cache.read(&t2).unwrap().addr(), 0x1000);
}

#[test]
fn dedup_mutation_is_visible_through_both_tokens() {
    let mut cache = ProtocolCache::new();
    let mut acc = StubAccessor::new(vec![], Ok(0x2000));
    let k = key(2, 1);

    let t1 = cache.find_or_open(&k, &mut acc).unwrap();
    let t2 = cache.find_or_open(&k, &mut acc).unwrap();
    assert!(cache.read(&t2).is_ok());
    // Deinitializing through one facade is observed through the other.
    cache.deinit(&t1);
    assert_eq!(cache.read(&t2), Err(RustProtocolError::Unregistered));
    assert_eq!(cache.read(&t1), Err(RustProtocolError::Unregistered));
}

#[test]
fn eviction_gives_fresh_identity_after_all_tokens_drop() {
    let mut cache = ProtocolCache::new();
    let mut acc = StubAccessor::new(vec![], Ok(0x3000));
    let k = key(3, 1);

    let t1 = cache.find_or_open(&k, &mut acc).unwrap();
    let first_cell = t1.cell_id();
    assert_eq!(acc.opens, 1);
    cache.release(t1);
    // Lazy eviction: the slot is still there until the next lookup.
    assert!(cache.has_entry(&k));
    assert_eq!(cache.strong_count(&k), Some(0));

    let t2 = cache.find_or_open(&k, &mut acc).unwrap();
    assert_eq!(acc.opens, 2);
    assert_ne!(t2.cell_id(), first_cell);
    assert_eq!(cache.strong_count(&k), Some(1));
}

#[test]
fn holder_alive_prevents_reopen() {
    let mut cache = ProtocolCache::new();
    let mut acc = StubAccessor::new(vec![], Ok(0x4000));
    let k = key(4, 1);

    let t1 = cache.find_or_open(&k, &mut acc).unwrap();
    let t2 = cache.find_or_open(&k, &mut acc).unwrap();
    cache.release(t1);
    // One token still alive: the next resolution is a hit, not a reopen.
    let t3 = cache.find_or_open(&k, &mut acc).unwrap();
    assert_eq!(acc.opens, 1);
    assert_eq!(t3.cell_id(), t2.cell_id());
}

#[test]
fn failed_open_is_not_cached() {
    let mut cache = ProtocolCache::new();
    let mut acc = StubAccessor::new(vec![], Err(RustProtocolError::Underlying(7)));
    let k = key(5, 1);

    assert!(matches!(
        cache.find_or_open(&k, &mut acc),
        Err(RustProtocolError::Underlying(7))
    ));
    assert_eq!(acc.opens, 1);
    assert!(!cache.has_entry(&k));

    // A later success is a real reopen, not a poisoned entry.
    acc.open_result = Ok(0x5000);
    let t = cache.find_or_open(&k, &mut acc).unwrap();
    assert_eq!(acc.opens, 2);
    assert_eq!(cache.read(&t).unwrap().addr(), 0x5000);
}

#[test]
fn null_interface_address_is_refused_and_not_cached() {
    let mut cache = ProtocolCache::new();
    let mut acc = StubAccessor::new(vec![], Ok(0));
    let k = key(6, 1);

    assert!(matches!(
        cache.find_or_open(&k, &mut acc),
        Err(RustProtocolError::InvalidParameter)
    ));
    assert!(!cache.has_entry(&k));
}

#[test]
fn get_existing_misses_on_empty_cache() {
    let mut cache = ProtocolCache::new();
    let k = key(7, 1);
    assert!(cache.get_existing(&k).is_none());
    assert_eq!(cache.len(), 0);
}

#[test]
fn read_and_release_of_stale_token_are_harmless() {
    let mut cache = ProtocolCache::new();
    let mut acc = StubAccessor::new(vec![], Ok(0x6000));
    let k = key(8, 1);

    let t1 = cache.find_or_open(&k, &mut acc).unwrap();
    let t1_bis = cache.find_or_open(&k, &mut acc).unwrap();
    cache.release(t1);
    cache.release(t1_bis);
    // The next lookup evicts the stale slot.
    assert!(cache.get_existing(&k).is_none());
    assert!(!cache.has_entry(&k));

    // A token minted later refers to a new cell; an old-style read of a
    // re-resolved key with a dead token reports Unregistered.
    let t2 = cache.find_or_open(&k, &mut acc).unwrap();
    assert_eq!(acc.opens, 2);
    assert!(cache.read(&t2).is_ok());
}

#[test]
fn keys_enumerate_in_byte_then_handle_order() {
    let mut cache = ProtocolCache::new();
    let mut acc = StubAccessor::new(vec![], Ok(0x7000));

    // Inserted deliberately out of order.
    let k_b2 = key(2, 5);
    let k_a_h9 = key(1, 9);
    let k_a_h3 = key(1, 3);
    let _t1 = cache.find_or_open(&k_b2, &mut acc).unwrap();
    let _t2 = cache.find_or_open(&k_a_h9, &mut acc).unwrap();
    let _t3 = cache.find_or_open(&k_a_h3, &mut acc).unwrap();

    let keys = cache.keys();
    assert_eq!(keys.len(), 3);
    // Identifier bytes decide first; equal identifiers fall back to the
    // handle.
    assert_eq!(keys[0], k_a_h3);
    assert_eq!(keys[1], k_a_h9);
    assert_eq!(keys[2], k_b2);
}

#[test]
fn key_comparison_is_lexicographic_then_by_handle() {
    let mut lo = [0u8; 16];
    let mut hi = [0u8; 16];
    lo[15] = 1;
    hi[0] = 1;
    let a = ProtocolCacheKey { guid: EfiGuid::new(lo), handle: EfiOpaqueHandle::from_raw(9) };
    let b = ProtocolCacheKey { guid: EfiGuid::new(hi), handle: EfiOpaqueHandle::from_raw(0) };
    assert!(a < b);
    assert!(!(b < a));

    let c = ProtocolCacheKey { guid: EfiGuid::new(lo), handle: EfiOpaqueHandle::from_raw(10) };
    assert!(a < c);
    assert_eq!(a.partial_cmp(&a), Some(core::cmp::Ordering::Equal));
}
