use mu_rust_ex::protocol_cache::{ProtocolCache, ServiceAccessor, SharedCacheEntry};
use mu_rust_ex::protocol_utility::{EfiGuid, EfiOpaqueHandle, RustProtocolError};
use mu_rust_ex::protocol_wrapper::{first_handle, RustProtocol};

struct CountingAccessor {
    opens: usize,
    locates: usize,
    handles: Vec<EfiOpaqueHandle>,
    open_result: Result<usize, RustProtocolError>,
}

impl ServiceAccessor for CountingAccessor {
    fn locate_handles(
        &mut self,
        _guid: &EfiGuid,
    ) -> Result<Vec<EfiOpaqueHandle>, RustProtocolError> {
        self.locates += 1;
        Ok(self.handles.clone())
    }

    fn open(
        &mut self,
        _guid: &EfiGuid,
        _handle: EfiOpaqueHandle,
    ) -> Result<usize, RustProtocolError> {
        self.opens += 1;
        self.open_result
    }
}

struct DemoProtocol {
    cell: SharedCacheEntry,
}

impl RustProtocol for DemoProtocol {
    // Ghost item of the trait; never called at run time.
    fn guid_spec() -> EfiGuid {
        unreachable!()
    }

    fn get_name() -> &'static str {
        "DemoProtocol"
    }

    fn get_guid() -> EfiGuid {
        let mut bytes = [0u8; 16];
        bytes[0] = 0xAB;
        bytes[15] = 0xCD;
        EfiGuid::new(bytes)
    }

    fn init_protocol(cell: SharedCacheEntry) -> Result<DemoProtocol, RustProtocolError> {
        Ok(DemoProtocol { cell })
    }
}

#[test]
fn first_with_no_handles_is_not_found_and_opens_nothing() {
    let mut cache = ProtocolCache::new();
    let mut acc =
        CountingAccessor { opens: 0, locates: 0, handles: vec![], open_result: Ok(0x9000) };
    let r = DemoProtocol::first(&mut cache, &mut acc);
    assert!(matches!(r, Err(RustProtocolError::NotFound)));
    assert_eq!(acc.locates, 1);
    assert_eq!(acc.opens, 0);
    assert_eq!(cache.len(), 0);
}

#[test]
fn first_resolves_the_first_reported_handle() {
    let mut cache = ProtocolCache::new();
    let mut acc = CountingAccessor {
        opens: 0,
        locates: 0,
        handles: vec![EfiOpaqueHandle::from_raw(11), EfiOpaqueHandle::from_raw(22)],
        open_result: Ok(0xA000),
    };
    let p = DemoProtocol::first(&mut cache, &mut acc).unwrap();
    assert_eq!(acc.opens, 1);
    assert_eq!(p.cell.key().handle, EfiOpaqueHandle::from_raw(11));
    assert_eq!(cache.read(&p.cell).unwrap().addr(), 0xA000);
}

#[test]
fn by_handle_after_first_is_a_hit() {
    let mut cache = ProtocolCache::new();
    let mut acc = CountingAccessor {
        opens: 0,
        locates: 0,
        handles: vec![EfiOpaqueHandle::from_raw(11)],
        open_result: Ok(0xB000),
    };
    let p1 = DemoProtocol::first(&mut cache, &mut acc).unwrap();
    let p2 = DemoProtocol::by_handle(&mut cache, &mut acc, EfiOpaqueHandle::from_raw(11)).unwrap();
    assert_eq!(acc.opens, 1);
    assert_eq!(p1.cell.cell_id(), p2.cell.cell_id());

    // Releasing both facades makes the next resolution a fresh open.
    cache.release(p1.cell);
    cache.release(p2.cell);
    let p3 = DemoProtocol::by_handle(&mut cache, &mut acc, EfiOpaqueHandle::from_raw(11)).unwrap();
    assert_eq!(acc.opens, 2);
    assert_ne!(p3.cell.cell_id(), 0);
}

#[test]
fn by_handle_propagates_open_failure() {
    let mut cache = ProtocolCache::new();
    let mut acc = CountingAccessor {
        opens: 0,
        locates: 0,
        handles: vec![EfiOpaqueHandle::from_raw(1)],
        open_result: Err(RustProtocolError::Underlying(41)),
    };
    let r = DemoProtocol::by_handle(&mut cache, &mut acc, EfiOpaqueHandle::from_raw(1));
    assert!(matches!(r, Err(RustProtocolError::Underlying(41))));
    assert_eq!(cache.len(), 0);
}

#[test]
fn first_handle_picks_index_zero() {
    let hs = vec![EfiOpaqueHandle::from_raw(5), EfiOpaqueHandle::from_raw(6)];
    assert_eq!(first_handle(&hs), Ok(EfiOpaqueHandle::from_raw(5)));
    let none: Vec<EfiOpaqueHandle> = vec![];
    assert_eq!(first_handle(&none), Err(RustProtocolError::NotFound));
}

#[test]
fn get_name_is_diagnostic_only() {
    assert_eq!(DemoProtocol::get_name(), "DemoProtocol");
}
