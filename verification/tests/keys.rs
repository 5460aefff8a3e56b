use bells_indexer::address_location::{AddressLocation, DecodeError, Location};
use bells_indexer::block_info::BlockInfo;
use bells_indexer::bytes::{push_be_u32, push_be_u64, read_be_u32, read_be_u64};
use bells_indexer::types::OutPoint;

fn sample() -> AddressLocation {
    AddressLocation {
        address: [7u8; 32],
        location: Location {
            outpoint: OutPoint { txid: [9u8; 32], vout: 1 },
            offset: 2,
            number: 0x0102_0304_0506_0708,
        },
    }
}

#[test]
fn be_encodings_are_exact() {
    let mut v = Vec::new();
    push_be_u32(&mut v, 0x0a0b_0c0d);
    push_be_u64(&mut v, 0x1122_3344_5566_7788);
    assert_eq!(
        v,
        vec![0x0a, 0x0b, 0x0c, 0x0d, 0x11, 0x22, 0x33, 0x44, 0x55, 0x66, 0x77, 0x88]
    );
    assert_eq!(read_be_u32(&v, 0), 0x0a0b_0c0d);
    assert_eq!(read_be_u64(&v, 4), 0x1122_3344_5566_7788);
}

#[test]
fn address_location_key_layout() {
    let key = sample().get_bytes();
    assert_eq!(key.len(), 84);
    assert_eq!(&key[..32], &[7u8; 32]);
    assert_eq!(&key[32..64], &[9u8; 32]);
    // the output index is written little-endian, as the chain's consensus encoding does
    assert_eq!(&key[64..68], &[1, 0, 0, 0]);
    assert_eq!(&key[68..76], &[0, 0, 0, 0, 0, 0, 0, 2]);
    assert_eq!(&key[76..84], &[1, 2, 3, 4, 5, 6, 7, 8]);
}

#[test]
fn address_location_roundtrip() {
    let x = sample();
    let back = AddressLocation::from_bytes(&x.get_bytes()).unwrap();
    assert_eq!(back, x);
}

#[test]
fn address_location_wrong_length() {
    let mut key = sample().get_bytes();
    key.pop();
    assert_eq!(AddressLocation::from_bytes(&key), Err(DecodeError::InvalidLength));
    let mut longer = sample().get_bytes();
    longer.push(0);
    assert_eq!(AddressLocation::from_bytes(&longer), Err(DecodeError::InvalidLength));
}

#[test]
fn search_bounds_are_exact() {
    let addr = [3u8; 32];
    let r = AddressLocation::search(addr, None);
    assert_eq!(r.start().location.outpoint, OutPoint { txid: [0u8; 32], vout: 0 });
    assert_eq!(r.start().location.offset, 0);
    assert_eq!(r.start().location.number, 0);
    assert_eq!(r.end().location.outpoint, OutPoint { txid: [0xffu8; 32], vout: u32::MAX });
    assert_eq!(r.end().location.offset, u64::MAX);
    assert_eq!(r.end().location.number, u64::MAX);
    assert_eq!(r.start().address, addr);
    assert_eq!(r.end().address, addr);

    let op = OutPoint { txid: [5u8; 32], vout: 9 };
    let r = AddressLocation::search_with_offset(addr, op);
    assert_eq!(r.start().location, Location { outpoint: op, offset: 0, number: 0 });
    assert_eq!(r.end().location, Location { outpoint: op, offset: u64::MAX, number: u64::MAX });

    let r = AddressLocation::search(addr, Some(op));
    assert_eq!(r.start().location, Location { outpoint: op, offset: 0, number: 0 });
    assert_eq!(r.end().location.outpoint, OutPoint { txid: [0xffu8; 32], vout: u32::MAX });
    let r2 = AddressLocation::search_offset(addr, op);
    assert_eq!(r2.start(), r.start());
    assert_eq!(r2.end(), r.end());
}

fn in_range(r: &std::ops::RangeInclusive<AddressLocation>, x: &AddressLocation) -> bool {
    let k = x.get_bytes();
    r.start().get_bytes() <= k && k <= r.end().get_bytes()
}

#[test]
fn search_covers_exactly_the_address() {
    let x = sample();
    assert!(in_range(&AddressLocation::search(x.address, None), &x));
    let mut other = x;
    other.address[31] = 8;
    assert!(!in_range(&AddressLocation::search(x.address, None), &other));
    other.address[31] = 6;
    assert!(!in_range(&AddressLocation::search(x.address, None), &other));
}

#[test]
fn search_with_offset_covers_exactly_the_outpoint() {
    let x = sample();
    let r = AddressLocation::search_with_offset(x.address, x.location.outpoint);
    assert!(in_range(&r, &x));
    let mut y = x;
    y.location.outpoint.vout = 2;
    assert!(!in_range(&r, &y));
}

#[test]
fn search_from_offset_uses_key_order() {
    let x = sample();
    // vout 256 encodes as 00 01 00 00, which comes before 01 00 00 00 (vout 1) in key order
    let later_index = OutPoint { txid: [9u8; 32], vout: 256 };
    let r = AddressLocation::search(x.address, Some(later_index));
    assert!(in_range(&r, &x));
    let r = AddressLocation::search(x.address, Some(OutPoint { txid: [9u8; 32], vout: 2 }));
    assert!(!in_range(&r, &x));
}

#[test]
fn block_info_roundtrip_and_layout() {
    let b = BlockInfo { hash: [4u8; 32], created: 0x0102_0304 };
    let bytes = b.get_bytes();
    assert_eq!(bytes.len(), 36);
    assert_eq!(&bytes[32..], &[1, 2, 3, 4]);
    assert_eq!(BlockInfo::from_bytes(&bytes), Ok(b));
    assert_eq!(BlockInfo::from_bytes(&bytes[..35]), Err(DecodeError::InvalidLength));
}
