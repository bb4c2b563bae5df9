//! The room of the Tracks element.

use mkvtrack::ebml::{self, id};
use mkvtrack::edit::build_region;

#[test]
fn region_fills_exactly() {
    let payload = vec![0u8; 100];
    for avail in [108usize, 109, 110, 111, 200] {
        let r = build_region(&payload, avail).expect("fits");
        assert_eq!(r.len(), avail, "avail {avail}");
        let (eid, il) = ebml::read_id(&r, 0).unwrap();
        let (size, sl) = ebml::read_size(&r, il).unwrap();
        assert_eq!(eid, id::TRACKS);
        assert_eq!(size, 100);
        // Whatever is left over must be a single valid Void.
        let used = il + sl + 100;
        if used < avail {
            let (vid, vil) = ebml::read_id(&r, used).unwrap();
            let (vsize, vsl) = ebml::read_size(&r, used + vil).unwrap();
            assert_eq!(vid, id::VOID);
            assert_eq!(used + vil + vsl + vsize as usize, avail);
        }
    }
}

#[test]
fn region_rejects_a_payload_that_is_too_big() {
    assert!(build_region(&[0u8; 100], 104).is_none());
}

#[test]
fn a_gap_of_one_byte_widens_the_size() {
    let r = build_region(&[7u8; 3], 9).unwrap();
    assert_eq!(r, vec![0x16, 0x54, 0xAE, 0x6B, 0x40, 0x03, 7, 7, 7]);
    let r = build_region(&[7u8; 3], 10).unwrap();
    assert_eq!(r, vec![0x16, 0x54, 0xAE, 0x6B, 0x83, 7, 7, 7, 0xEC, 0x80]);
    let r = build_region(&[7u8; 3], 8).unwrap();
    assert_eq!(r, vec![0x16, 0x54, 0xAE, 0x6B, 0x83, 7, 7, 7]);
}
