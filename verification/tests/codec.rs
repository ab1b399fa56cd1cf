use fuzzy_log::packets::{Entry, EntryKind, EntryLayout, OrderIndex, BASE_HEADER_SIZE, HORIZON_PROBE};

fn data_entry(chain: u32, index: u32, payload: &[u8]) -> Entry {
    Entry {
        kind: EntryKind { layout: EntryLayout::Data, read_success: true },
        id: 7,
        locs: vec![OrderIndex(chain, index)],
        deps: vec![],
        data: payload.to_vec(),
    }
}

fn same(a: &Entry, b: &Entry) -> bool {
    a.kind == b.kind && a.id == b.id && a.locs == b.locs && a.deps == b.deps && a.data == b.data
}

#[test]
fn encode_then_decode_gives_the_entry_back() {
    let e = data_entry(5, 3, b"abc");
    let bytes = e.encode(Vec::new());
    let back = Entry::decode(&bytes).expect("a wire form decodes");
    assert!(same(&back, &e));
}

#[test]
fn decode_then_encode_gives_the_bytes_back() {
    let e = Entry {
        kind: EntryKind { layout: EntryLayout::Multiput, read_success: true },
        id: 0x0102_0304_0506_0708_090a_0b0c_0d0e_0f10,
        locs: vec![OrderIndex(5, 1), OrderIndex(0, 0), OrderIndex(6, 0)],
        deps: vec![OrderIndex(9, 4), OrderIndex(8, 2)],
        data: vec![1, 2, 3, 4, 5],
    };
    let bytes = e.encode(Vec::new());
    let back = Entry::decode(&bytes).unwrap();
    assert_eq!(back.encode(Vec::new()), bytes);
}

#[test]
fn wire_form_of_a_data_entry_byte_for_byte() {
    let e = Entry {
        kind: EntryKind { layout: EntryLayout::Data, read_success: true },
        id: 0x0102,
        locs: vec![OrderIndex(5, 0x0304)],
        deps: vec![OrderIndex(6, 7)],
        data: vec![0xaa, 0xbb],
    };
    let bytes = e.encode(Vec::new());
    let mut expected: Vec<u8> = Vec::new();
    expected.push(129); // data, read success
    expected.push(1); // one position slot
    expected.extend_from_slice(&[1, 0]); // one dependency
    expected.extend_from_slice(&[2, 0, 0, 0]); // two payload bytes
    expected.extend_from_slice(&[2, 1, 0, 0, 0, 0, 0, 0, 0, 0, 0, 0, 0, 0, 0, 0]); // id
    expected.extend_from_slice(&[5, 0, 0, 0, 4, 3, 0, 0]); // (5, 0x0304)
    expected.extend_from_slice(&[6, 0, 0, 0, 7, 0, 0, 0]); // (6, 7)
    expected.extend_from_slice(&[0xaa, 0xbb]);
    assert_eq!(bytes, expected);
    assert_eq!(bytes.len(), BASE_HEADER_SIZE + 8 + 8 + 2);
}

#[test]
fn encode_writes_over_what_the_buffer_held() {
    let e = data_entry(1, 1, b"");
    let dirty = vec![9u8; 100];
    let bytes = e.encode(dirty);
    assert_eq!(bytes.len(), 32);
    assert!(same(&Entry::decode(&bytes).unwrap(), &e));
}

#[test]
fn every_kind_tag_goes_there_and_back() {
    let layouts = [
        EntryLayout::Read,
        EntryLayout::Data,
        EntryLayout::Multiput,
        EntryLayout::Sentinel,
        EntryLayout::Lock,
    ];
    for (code, layout) in layouts.iter().enumerate() {
        for read_success in [false, true] {
            let kind = EntryKind { layout: *layout, read_success };
            let tag = kind.tag();
            assert_eq!(tag as usize, code + if read_success { 128 } else { 0 });
            assert_eq!(EntryKind::from_tag(tag), Some(kind));
            assert_eq!(kind.layout(), *layout);
        }
    }
}

#[test]
fn tags_that_stand_for_no_kind() {
    for tag in [5u8, 6, 100, 127, 133, 200, 255] {
        assert_eq!(EntryKind::from_tag(tag), None);
    }
}

#[test]
fn decode_refuses_bytes_shorter_than_a_header() {
    assert!(Entry::decode(&vec![]).is_none());
    assert!(Entry::decode(&vec![1u8; 23]).is_none());
}

#[test]
fn decode_refuses_an_unknown_tag() {
    let mut bytes = data_entry(5, 1, b"x").encode(Vec::new());
    bytes[0] = 77;
    assert!(Entry::decode(&bytes).is_none());
}

#[test]
fn decode_refuses_an_entry_without_position_slots() {
    let mut bytes = vec![0u8; 24];
    bytes[0] = 1;
    bytes[1] = 0;
    assert!(Entry::decode(&bytes).is_none());
}

#[test]
fn decode_refuses_a_wrong_length() {
    let bytes = data_entry(5, 1, b"xyz").encode(Vec::new());
    let mut longer = bytes.clone();
    longer.push(0);
    assert!(Entry::decode(&longer).is_none());
    let shorter = bytes[..bytes.len() - 1].to_vec();
    assert!(Entry::decode(&shorter).is_none());
    assert!(Entry::decode(&bytes).is_some());
}

#[test]
fn the_probe_index_is_the_largest_index() {
    assert_eq!(HORIZON_PROBE, u32::MAX);
}
