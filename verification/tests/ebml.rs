//! The element layer.

use mkvtrack::ebml::{
    crc32, id, id_len, id_len_from_first, is_master, parse_children, read_float, read_id, read_size, read_string,
    read_uint, size_len, track_type_name, uint_bytes, uint_bytes_fixed, vint_len_from_first, void_of, write_id,
    write_size, write_size_with_len, Element, FloatBits, UNKNOWN,
};

#[test]
fn vints_round_trip() {
    for v in [0u64, 1, 126, 127, 128, 16382, 16383, 1 << 20, (1 << 56) - 3] {
        let mut buf = Vec::new();
        write_size(&mut buf, v);
        let (got, len) = read_size(&buf, 0).unwrap();
        assert_eq!(got, v, "value {v}");
        assert_eq!(len, buf.len());
    }
}

#[test]
fn padded_vints_decode_to_the_same_value() {
    for len in size_len(300)..=8usize {
        let mut buf = Vec::new();
        write_size_with_len(&mut buf, 300, len);
        assert_eq!(buf.len(), len);
        assert_eq!(read_size(&buf, 0).unwrap().0, 300);
    }
}

#[test]
fn unknown_size_is_recognised() {
    let buf = [0xFFu8];
    assert_eq!(read_size(&buf, 0).unwrap().0, UNKNOWN);
    let buf = [0x01u8, 0xFF, 0xFF, 0xFF, 0xFF, 0xFF, 0xFF, 0xFF];
    assert_eq!(read_size(&buf, 0).unwrap().0, UNKNOWN);
}

#[test]
fn ids_round_trip() {
    for id in [id::VOID, id::FLAG_FORCED, id::LANGUAGE, id::SEGMENT] {
        let mut buf = Vec::new();
        write_id(&mut buf, id);
        assert_eq!(buf.len(), id_len(id));
        assert_eq!(read_id(&buf, 0).unwrap(), (id, id_len(id)));
    }
}

#[test]
fn void_has_the_requested_length() {
    for total in [2usize, 3, 10, 128, 129, 5000] {
        let v = void_of(total);
        assert_eq!(v.len(), total);
        let (id, il) = read_id(&v, 0).unwrap();
        let (size, sl) = read_size(&v, il).unwrap();
        assert_eq!(id, id::VOID);
        assert_eq!(il + sl + size as usize, total);
    }
}

#[test]
fn crc32_matches_known_vector() {
    assert_eq!(crc32(b"123456789"), 0xCBF4_3926);
}

#[test]
fn tree_round_trips() {
    let src = Element::master(
        id::TRACKS,
        vec![Element::master(
            id::TRACK_ENTRY,
            vec![
                Element::uint_elem(id::TRACK_NUMBER, 1),
                Element::uint_elem(id::TRACK_TYPE, 2),
                Element::string_elem(id::CODEC_ID, "A_AAC"),
            ],
        )],
    );
    let bytes = src.to_bytes();
    let (id, il) = read_id(&bytes, 0).unwrap();
    let (size, sl) = read_size(&bytes, il).unwrap();
    assert_eq!(id, id::TRACKS);
    let parsed = parse_children(&bytes[il + sl..il + sl + size as usize]).unwrap();
    let round = Element::master(id::TRACKS, parsed);
    assert_eq!(round.to_bytes(), bytes);
}

#[test]
fn first_bytes_say_the_width() {
    assert_eq!(id_len_from_first(0x1A), Some(4));
    assert_eq!(id_len_from_first(0x2A), Some(3));
    assert_eq!(id_len_from_first(0x42), Some(2));
    assert_eq!(id_len_from_first(0xEC), Some(1));
    assert_eq!(id_len_from_first(0x08), None);
    assert_eq!(vint_len_from_first(0x08), Some(5));
    assert_eq!(vint_len_from_first(0x01), Some(8));
    assert_eq!(vint_len_from_first(0x00), None);
}

#[test]
fn cut_off_headers_are_not_read() {
    assert_eq!(read_id(&[0x1A, 0x45], 0), None);
    assert_eq!(read_id(&[], 0), None);
    assert_eq!(read_size(&[0x40], 0), None);
    assert_eq!(read_size(&[0x40, 0x7F], 0), Some((0x7F, 2)));
    assert_eq!(read_size(&[0x00, 0x00], 0), None);
}

#[test]
fn integers_are_stored_in_as_few_bytes_as_they_need() {
    assert_eq!(uint_bytes(0), vec![0]);
    assert_eq!(uint_bytes(255), vec![255]);
    assert_eq!(uint_bytes(256), vec![1, 0]);
    assert_eq!(uint_bytes(u64::MAX), vec![255; 8]);
    assert_eq!(uint_bytes_fixed(300, 4), Some(vec![0, 0, 1, 44]));
    assert_eq!(uint_bytes_fixed(300, 1), None);
    assert_eq!(read_uint(&uint_bytes(123_456_789)), 123_456_789);
    assert_eq!(read_uint(&[]), 0);
    assert_eq!(read_uint(&[0, 0, 0, 0, 0, 0, 0, 1, 9]), 1);
}

#[test]
fn floats_are_kept_as_their_bits() {
    assert_eq!(read_float(&48000.0f64.to_be_bytes()), FloatBits::Double(48000.0f64.to_bits()));
    assert_eq!(read_float(&44100.0f32.to_be_bytes()), FloatBits::Single(44100.0f32.to_bits()));
    assert_eq!(read_float(&[1, 2, 3]), FloatBits::Zero);
}

#[test]
fn strings_end_at_the_first_zero_and_are_repaired() {
    assert_eq!(read_string(b"eng\0\0"), "eng");
    assert_eq!(read_string("日本語".as_bytes()), "日本語");
    assert_eq!(read_string(&[0x61, 0xFF, 0x62]), "a\u{FFFD}b");
    assert_eq!(read_string(b""), "");
}

#[test]
fn fields_are_set_found_and_removed() {
    let mut e = Element::master(
        id::TRACK_ENTRY,
        vec![Element::uint_elem(id::TRACK_NUMBER, 1), Element::uint_elem(id::TRACK_TYPE, 2)],
    );
    assert!(!e.set_uint(id::FLAG_FORCED, 1, 1));
    assert!(e.set_uint(id::FLAG_FORCED, 0, 0));
    assert_eq!(e.children().iter().map(|c| c.id).collect::<Vec<u64>>(), vec![
        id::TRACK_NUMBER,
        id::FLAG_FORCED,
        id::TRACK_TYPE
    ]);
    assert_eq!(e.get_uint(id::FLAG_FORCED), Some(0));
    e.set_string(id::TRACK_NAME, "Name", 99);
    assert_eq!(e.children()[3].id, id::TRACK_NAME);
    assert_eq!(e.get_string(id::TRACK_NAME), Some("Name".to_string()));
    e.find_mut(id::TRACK_TYPE).unwrap().body = mkvtrack::ebml::Body::Data(vec![17]);
    assert_eq!(e.get_uint(id::TRACK_TYPE), Some(17));
    assert!(e.remove(id::TRACK_NAME));
    assert!(!e.remove(id::TRACK_NAME));
    assert!(e.find(id::TRACK_NAME).is_none());
    assert_eq!(e.get_uint(id::TRACK_UID), None);
}

#[test]
fn broken_elements_are_refused() {
    let why = |buf: &[u8]| parse_children(buf).err().unwrap();
    assert_eq!(why(&[0x00]), "bad element ID");
    assert_eq!(why(&[0xD7]), "bad element size");
    assert_eq!(why(&[0xD7, 0xFF]), "unknown size inside a master element");
    assert_eq!(why(&[0xD7, 0x82, 0x01]), "element runs past the end of its parent");
    // One level down.
    assert_eq!(why(&[0xAE, 0x82, 0xD7, 0x85]), "element runs past the end of its parent");
}

#[test]
fn unknown_elements_survive() {
    let raw = [0x63, 0xCA, 0x84, 1, 2, 3, 4];
    let parsed = parse_children(&raw).unwrap();
    assert_eq!(parsed.len(), 1);
    assert_eq!(parsed[0].id, 0x63CA);
    assert_eq!(parsed[0].to_bytes(), raw.to_vec());
}

#[test]
fn elements_come_back_byte_for_byte() {
    // A track number, something unknown, a master with a child, something unknown.
    let short = vec![0xD7, 0x81, 7, 0x63, 0xCA, 0x82, 1, 2, 0xE1, 0x83, 0x9F, 0x81, 6, 0x55, 0xEE, 0x80];
    // The same with longer sizes than they need.
    let long = [
        vec![0xD7, 0x10, 0, 0, 1, 7, 0x63, 0xCA, 0x40, 0x02, 1, 2],
        vec![0xE1, 0x01, 0, 0, 0, 0, 0, 0, 4, 0x9F, 0x40, 0x01, 6, 0x55, 0xEE, 0x20, 0, 0],
    ]
    .concat();
    for raw in [short, long] {
        let whole = Element::master(id::TRACK_ENTRY, parse_children(&raw).unwrap());
        assert_eq!(whole.children().len(), 4);
        assert_eq!(whole.payload_bytes(), raw);
        assert_eq!(whole.clone().to_bytes(), [vec![0xAE, 0x80 | raw.len() as u8], raw].concat());
    }
}

#[test]
fn codec_private_data_keeps_its_header() {
    let raw = [0x63, 0xA2, 0x40, 0x01, 0x41];
    let parsed = parse_children(&raw).unwrap();
    assert_eq!(parsed[0].bytes(), &[0x41]);
    let entry = Element::master(id::TRACK_ENTRY, parsed);
    assert_eq!(entry.to_bytes(), vec![0xAE, 0x85, 0x63, 0xA2, 0x40, 0x01, 0x41]);
}

#[test]
fn a_change_leaves_the_bytes_of_the_other_elements() {
    let raw = [0xD7, 0x40, 0x01, 7, 0x53, 0x6E, 0x40, 0x01, 0x61, 0x63, 0xCA, 0x40, 0x02, 1, 2];
    let mut entry = Element::master(id::TRACK_ENTRY, parse_children(&raw).unwrap());
    entry.set_string(id::TRACK_NAME, "bc", 1);
    // What was set has the shortest size.
    let want = vec![0xD7, 0x40, 0x01, 7, 0x53, 0x6E, 0x82, 0x62, 0x63, 0x63, 0xCA, 0x40, 0x02, 1, 2];
    assert_eq!(entry.payload_bytes(), want);
    assert!(entry.remove(id::TRACK_NAME));
    let want = vec![0xD7, 0x40, 0x01, 7, 0x63, 0xCA, 0x40, 0x02, 1, 2];
    assert_eq!(entry.payload_bytes(), want);
}

#[test]
fn a_size_that_needs_more_room_gets_it() {
    // A width that the size cannot have is not used.
    let mut e = Element::data(id::TRACK_NAME, vec![0x61; 200]);
    e.width = 1;
    assert_eq!(e.to_bytes()[..4], [0x53, 0x6E, 0x40, 200]);
    e.width = 9;
    assert_eq!(e.to_bytes()[..4], [0x53, 0x6E, 0x40, 200]);
    e.width = 3;
    assert_eq!(e.to_bytes()[..5], [0x53, 0x6E, 0x20, 0, 200]);
}

#[test]
fn padding_is_dropped_and_a_checksum_stands_first() {
    let e = Element::master(
        id::TRACKS,
        vec![
            Element::uint_elem(id::TRACK_NUMBER, 7),
            Element::data(id::VOID, vec![0; 4]),
            Element::data(id::CRC32, vec![1, 2, 3, 4]),
        ],
    );
    let body = [0xD7, 0x81, 7];
    let sum = crc32(&body).to_le_bytes();
    let want = [
        vec![0x16, 0x54, 0xAE, 0x6B, 0x89, 0xBF, 0x84],
        sum.to_vec(),
        body.to_vec(),
    ]
    .concat();
    assert_eq!(e.to_bytes(), want);
}

#[test]
fn masters_and_types_are_known() {
    assert!(is_master(id::TRACK_ENTRY));
    assert!(!is_master(id::CODEC_PRIVATE));
    assert_eq!(track_type_name(1), "video");
    assert_eq!(track_type_name(2), "audio");
    assert_eq!(track_type_name(0x11), "subtitle");
}
