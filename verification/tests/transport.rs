use fuzzy_log::packet_reader::{Ipv4SocketAddr, MessageReaderError, PacketReader};
use fuzzy_log::packets::{Entry, EntryKind, EntryLayout, OrderIndex, WrapErr, HORIZON_PROBE};
use fuzzy_log::per_socket::{
    recv_addr, recv_target, DoubleBuffer, PerSocket, PerSocketKind, RecvPacket, RecvRes,
    MAX_WRITE_BUFFER_SIZE, NUMBER_READ_BUFFERS,
};
use fuzzy_log::trivial_server::{
    answer_read, get_next_token, next_interest, Interest, PerClient, READ_REQUEST_SIZE,
    TRIVIAL_TAIL,
};

fn entry_bytes(payload: &[u8]) -> Vec<u8> {
    Entry {
        kind: EntryKind { layout: EntryLayout::Data, read_success: false },
        id: 11,
        locs: vec![OrderIndex(5, 0)],
        deps: vec![OrderIndex(6, 2)],
        data: payload.to_vec(),
    }
    .encode(Vec::new())
}

const ADDR: [u8; 6] = [10, 0, 0, 7, 0x1f, 0x90];

#[test]
fn wire_size_tells_the_size_or_what_is_missing() {
    let bytes = entry_bytes(b"hello");
    assert_eq!(bytes.len(), 24 + 8 + 8 + 5);
    assert_eq!(Entry::wire_size(&bytes), Ok(45));
    let mut more = bytes.clone();
    more.extend_from_slice(&[1, 2, 3]);
    assert_eq!(Entry::wire_size(&more), Ok(45));
    assert_eq!(Entry::wire_size(&bytes[..44].to_vec()), Err(WrapErr::NotEnoughBytes(1)));
    assert_eq!(Entry::wire_size(&bytes[..24].to_vec()), Err(WrapErr::NotEnoughBytes(21)));
    assert_eq!(Entry::wire_size(&bytes[..10].to_vec()), Err(WrapErr::NotEnoughBytes(14)));
    assert_eq!(Entry::wire_size(&vec![]), Err(WrapErr::NotEnoughBytes(24)));
    let mut bad = bytes.clone();
    bad[0] = 9;
    assert_eq!(Entry::wire_size(&bad), Err(WrapErr::BadLayout));
    let mut no_slots = bytes;
    no_slots[1] = 0;
    assert_eq!(Entry::wire_size(&no_slots), Err(WrapErr::BadLayout));
}

#[test]
fn a_message_from_a_client_is_an_entry_and_an_address() {
    let entry = entry_bytes(b"abc");
    let mut bytes = entry.clone();
    bytes.extend_from_slice(&ADDR);
    bytes.extend_from_slice(&[0xee; 5]);
    let reader = PacketReader::new(false);
    let (msg, size_read) = reader.deserialize_message(&bytes).unwrap();
    assert_eq!(size_read, entry.len() + 6);
    assert_eq!(msg.buffer, entry);
    assert_eq!(msg.src_addr, Ipv4SocketAddr { bytes: ADDR });
    assert_eq!(msg.storage_loc, None);
}

#[test]
fn a_message_between_replicas_says_where_the_entry_is_stored() {
    let entry = entry_bytes(b"abc");
    let mut bytes = entry.clone();
    bytes.extend_from_slice(&[0x08, 0x07, 0x06, 0x05, 0x04, 0x03, 0x02, 0x01]);
    bytes.extend_from_slice(&ADDR);
    let reader = PacketReader::new(true);
    let (msg, size_read) = reader.deserialize_message(&bytes).unwrap();
    assert_eq!(size_read, entry.len() + 8 + 6);
    assert_eq!(size_read, bytes.len());
    assert_eq!(msg.buffer, entry);
    assert_eq!(msg.storage_loc, Some(0x0102_0304_0506_0708));
    assert_eq!(msg.src_addr.bytes, ADDR);
}

#[test]
fn a_part_of_a_message_says_how_much_is_missing() {
    let entry = entry_bytes(b"abc");
    let mut bytes = entry.clone();
    bytes.extend_from_slice(&[0; 8]);
    bytes.extend_from_slice(&ADDR);
    let client = PacketReader::new(false);
    let replica = PacketReader::new(true);
    let need = |r: &PacketReader, upto: usize| match r.deserialize_message(&bytes[..upto].to_vec()) {
        Err(e) => e,
        Ok(_) => panic!("a whole message"),
    };
    assert_eq!(need(&client, 0), MessageReaderError::NeedMoreBytes(24 + 6));
    assert_eq!(need(&replica, 0), MessageReaderError::NeedMoreBytes(24 + 6 + 8));
    assert_eq!(need(&client, 23), MessageReaderError::NeedMoreBytes(1 + 6));
    assert_eq!(need(&client, 24), MessageReaderError::NeedMoreBytes(entry.len() - 24 + 6));
    assert_eq!(need(&replica, 24), MessageReaderError::NeedMoreBytes(entry.len() - 24 + 6 + 8));
    assert_eq!(need(&client, entry.len()), MessageReaderError::NeedMoreBytes(6));
    assert_eq!(need(&client, entry.len() + 5), MessageReaderError::NeedMoreBytes(1));
    assert_eq!(need(&replica, entry.len() + 6), MessageReaderError::NeedMoreBytes(8));
    assert_eq!(need(&replica, entry.len() + 13), MessageReaderError::NeedMoreBytes(1));
    assert!(client.deserialize_message(&bytes[..entry.len() + 6].to_vec()).is_ok());
    assert!(replica.deserialize_message(&bytes).is_ok());
}

#[test]
fn bytes_that_begin_no_message() {
    let mut bytes = entry_bytes(b"abc");
    bytes[0] = 50;
    bytes.extend_from_slice(&ADDR);
    let err = PacketReader::new(false).deserialize_message(&bytes).err();
    assert_eq!(err, Some(MessageReaderError::Other));
}

#[test]
fn a_message_is_read_in_three_steps() {
    let entry = entry_bytes(b"abcd");
    let mut buffer = entry.clone();
    buffer.extend_from_slice(&[0; 8]);
    buffer.extend_from_slice(&ADDR);
    assert_eq!(recv_target(&buffer, 0, 8), Some(24));
    assert_eq!(recv_target(&buffer, 10, 8), Some(24));
    assert_eq!(recv_target(&buffer, 24, 8), Some(40));
    assert_eq!(recv_target(&buffer, 39, 8), Some(40));
    assert_eq!(recv_target(&buffer, 40, 8), Some(44 + 6 + 8));
    assert_eq!(recv_target(&buffer, 40, 0), Some(44 + 6));
    assert_eq!(recv_target(&buffer, 57, 8), Some(58));
    assert_eq!(recv_target(&buffer, 58, 8), None);
    assert_eq!(recv_target(&buffer, 50, 0), None);
    assert_eq!(recv_addr(&buffer, 58, 0).bytes, ADDR);
    let mut from_client = entry;
    from_client.extend_from_slice(&ADDR);
    from_client.extend_from_slice(&[0; 8]);
    assert_eq!(recv_addr(&from_client, 58, 8).bytes, ADDR);
}

#[test]
fn an_empty_double_buffer_takes_anything() {
    let mut b = DoubleBuffer::new();
    assert!(b.is_empty() && b.is_filling_first());
    assert!(b.try_fill(&[7u8; 100_000]));
    assert_eq!(b.first_bytes().len(), 100_000);
    assert!(b.is_filling_first());
    assert!(!b.is_empty());
}

#[test]
fn a_double_buffer_fills_the_first_buffer_then_the_second() {
    let mut b = DoubleBuffer::with_first_buffer_capacity(16);
    assert!(b.try_fill_given(&[1; 10], 16, 0));
    assert!(b.try_fill_given(&[2; 6], 16, 0));
    assert_eq!(b.first.len(), 16);
    assert!(b.second.is_empty());
    // no room in the first; the second may still grow
    assert!(b.try_fill_given(&[3; 4], 16, 0));
    assert_eq!(b.first.len(), 16);
    assert_eq!(b.second, vec![3; 4]);
    // the second is filled from now on, room in the first or not
    assert!(b.try_fill_given(&[4; 1], 100, 8));
    assert_eq!(b.first.len(), 16);
    assert_eq!(b.second, vec![3, 3, 3, 3, 4]);
    // a second buffer that grew to its limit takes what it has room for only
    assert!(!b.try_fill_given(&vec![5; 39_996], 100, MAX_WRITE_BUFFER_SIZE));
    assert_eq!(b.second.len(), 5);
    assert!(b.try_fill_given(&[5; 2], 100, MAX_WRITE_BUFFER_SIZE));
    assert_eq!(b.second.len(), 7);
    assert!(b.can_hold_bytes_given(84, 100, 7));
    assert!(!b.can_hold_bytes_given(85, 100, 7));
    assert!(b.can_hold_bytes(0));
    b.swap_if_needed();
    assert_eq!(b.first, vec![3, 3, 3, 3, 4, 5, 5]);
    assert!(b.second.is_empty());
    b.swap_if_needed();
    assert!(b.is_empty());
}

#[test]
fn a_connection_knows_its_kind() {
    assert_eq!(PerSocket::client().kind(), PerSocketKind::Client);
    assert_eq!(PerSocket::upstream().kind(), PerSocketKind::Upstream);
    assert_eq!(PerSocket::downstream().kind(), PerSocketKind::Downstream);
    assert_eq!(PerSocket::client().extra(), 0);
    assert_eq!(PerSocket::upstream().extra(), 8);
}

#[test]
fn reading_waits_for_a_buffer_that_was_handed_on() {
    let mut socket = PerSocket::client();
    assert!(!socket.is_backpressured());
    let mut taken = Vec::new();
    for _ in 0..NUMBER_READ_BUFFERS {
        let (buffer, read) = socket.take_read_buffer().expect("a free buffer");
        assert_eq!(read, 0);
        taken.push(buffer);
    }
    assert!(socket.is_backpressured());
    assert!(socket.take_read_buffer().is_none());
    assert!(!PerSocket::downstream().is_backpressured());
    socket.wake();
    socket.return_buffer(taken.pop().unwrap());
    assert!(socket.needs_to_stay_awake());
    assert!(!socket.is_backpressured());
}

#[test]
fn a_message_that_is_not_whole_is_read_on_later() {
    let mut socket = PerSocket::client();
    let (mut buffer, _) = socket.take_read_buffer().unwrap();
    buffer.extend_from_slice(&[1, 2, 3]);
    assert!(matches!(socket.recv_packet(buffer, RecvRes::NeedsMore(3)), RecvPacket::Pending));
    assert!(!socket.needs_to_stay_awake());
    let (buffer, read) = socket.take_read_buffer().unwrap();
    assert_eq!(read, 3);
    assert_eq!(buffer, vec![1, 2, 3]);
    assert!(matches!(socket.recv_packet(buffer, RecvRes::Error), RecvPacket::Error));
    let (_, read) = socket.take_read_buffer().unwrap();
    assert_eq!(read, 0);
}

#[test]
fn a_whole_message_is_handed_on() {
    let entry = entry_bytes(b"xy");
    let addr = Ipv4SocketAddr { bytes: ADDR };

    let mut client = PerSocket::client();
    let _ = client.take_read_buffer().unwrap();
    let mut message = entry.clone();
    message.extend_from_slice(&ADDR);
    match client.recv_packet(message.clone(), RecvRes::Done(addr)) {
        RecvPacket::FromClient(buffer, from) => {
            assert_eq!(buffer, message);
            assert_eq!(from, addr);
        }
        _ => panic!("a message from a client"),
    }
    assert!(client.needs_to_stay_awake());

    let mut upstream = PerSocket::upstream();
    let _ = upstream.take_read_buffer().unwrap();
    let mut message = entry.clone();
    message.extend_from_slice(&[0xef, 0xcd, 0xab, 0x89, 0x67, 0x45, 0x23, 0x01]);
    message.extend_from_slice(&ADDR);
    match upstream.recv_packet(message.clone(), RecvRes::Done(addr)) {
        RecvPacket::FromUpstream(buffer, from, storage_loc) => {
            assert_eq!(buffer, message);
            assert_eq!(from, addr);
            assert_eq!(storage_loc, 0x0123_4567_89ab_cdef);
        }
        _ => panic!("a message from upstream"),
    }
}

#[test]
fn what_is_queued_is_written_in_bursts() {
    let mut socket = PerSocket::downstream();
    assert!(socket.burst().is_none());
    socket.add_downstream_send(&[1, 2, 3]);
    socket.add_downstream_send(&[4, 5]);
    assert!(socket.needs_to_stay_awake());
    {
        let (bytes, written) = socket.burst().unwrap();
        assert_eq!(bytes, &vec![1, 2, 3, 4, 5]);
        assert_eq!(written, 0);
    }
    assert!(!socket.send_burst(2));
    {
        let (bytes, written) = socket.burst().unwrap();
        assert_eq!(&bytes[written..], &[3, 4, 5]);
    }
    socket.add_downstream_send(&[6]);
    assert!(!socket.send_burst(1));
    assert!(socket.send_burst(3));
    assert!(socket.burst().is_none());
}

#[test]
fn what_does_not_fit_waits_and_is_written_later() {
    let mut socket = PerSocket::client();
    socket.add_downstream_send(&vec![1u8; 39_000]);
    socket.add_downstream_send(&vec![2u8; 39_000]);
    socket.add_downstream_send(&vec![3u8; 39_000]);
    let mut out: Vec<u8> = Vec::new();
    let mut bursts = 0;
    loop {
        let (chunk, len) = match socket.burst() {
            Some((bytes, written)) => (bytes[written..].to_vec(), bytes.len() - written),
            None => break,
        };
        out.extend_from_slice(&chunk);
        assert!(socket.send_burst(len));
        bursts += 1;
        assert!(bursts < 10);
    }
    let mut expected = vec![1u8; 39_000];
    expected.extend_from_slice(&vec![2u8; 39_000]);
    expected.extend_from_slice(&vec![3u8; 39_000]);
    assert_eq!(out, expected);
}

#[test]
fn three_pieces_are_queued_one_after_the_other() {
    let mut socket = PerSocket::downstream();
    socket.add_downstream_send3(&[1], &[2, 3], &[4]);
    let (bytes, _) = socket.burst().unwrap();
    assert_eq!(bytes, &vec![1, 2, 3, 4]);
    let mut big = PerSocket::downstream();
    big.add_downstream_send3(&vec![1u8; 30_000], &vec![2u8; 30_000], &vec![3u8; 30_000]);
    let mut out: Vec<u8> = Vec::new();
    loop {
        let len = match big.burst() {
            Some((bytes, written)) => {
                out.extend_from_slice(&bytes[written..]);
                bytes.len() - written
            }
            None => break,
        };
        assert!(big.send_burst(len));
    }
    assert_eq!(out.len(), 90_000);
    assert_eq!(out[29_999], 1);
    assert_eq!(out[30_000], 2);
    assert_eq!(out[89_999], 3);
}

#[test]
fn tokens_count_up_and_start_over_at_two() {
    let mut token = 2usize;
    assert_eq!(get_next_token(&mut token), 3);
    assert_eq!(token, 3);
    token = usize::MAX - 1;
    assert_eq!(get_next_token(&mut token), usize::MAX);
    assert_eq!(get_next_token(&mut token), 2);
    assert_eq!(token, 2);
}

#[test]
fn a_connection_waits_for_what_it_does_next() {
    assert_eq!(next_interest(true, true, false), Interest::Readable);
    assert_eq!(next_interest(true, false, false), Interest::Writable);
    assert_eq!(next_interest(true, false, true), Interest::Writable);
    assert_eq!(next_interest(false, true, true), Interest::Readable);
    assert_eq!(next_interest(false, false, true), Interest::Writable);
    assert_eq!(next_interest(false, false, false), Interest::Readable);
}

fn request(chain: u32, index: u32) -> Vec<u8> {
    Entry {
        kind: EntryKind { layout: EntryLayout::Read, read_success: false },
        id: 99,
        locs: vec![OrderIndex(chain, index)],
        deps: vec![],
        data: vec![],
    }
    .encode(Vec::new())
}

#[test]
fn every_read_finds_an_entry_and_every_probe_the_same_tail() {
    let found = Entry::decode(&answer_read(request(5, 3))).unwrap();
    assert_eq!(found.kind, EntryKind { layout: EntryLayout::Data, read_success: true });
    assert_eq!(found.id, 99);
    assert_eq!(found.locs, vec![OrderIndex(5, 3)]);
    assert!(found.deps.is_empty() && found.data.is_empty());
    let tail = Entry::decode(&answer_read(request(5, HORIZON_PROBE))).unwrap();
    assert_eq!(tail.kind, EntryKind { layout: EntryLayout::Read, read_success: false });
    assert_eq!(tail.locs, vec![OrderIndex(5, HORIZON_PROBE)]);
    assert_eq!(tail.deps, vec![OrderIndex(5, TRIVIAL_TAIL)]);
    assert_eq!(TRIVIAL_TAIL, 10_000_000);
    assert_eq!(answer_read(vec![1, 2, 3]), vec![1, 2, 3]);
}

#[test]
fn a_request_is_read_then_its_answer_is_written() {
    let mut client = PerClient::new();
    assert_eq!(client.buffer.len(), READ_REQUEST_SIZE);
    let bytes = request(5, HORIZON_PROBE);
    assert_eq!(bytes.len(), READ_REQUEST_SIZE);
    client.buffer[..20].copy_from_slice(&bytes[..20]);
    assert!(!client.read_packet(20));
    assert!(client.is_reading);
    client.buffer[20..].copy_from_slice(&bytes[20..]);
    assert!(client.read_packet(12));
    assert!(!client.is_reading);
    assert_eq!(client.buffer.len(), 40);
    assert_eq!(client.write_packet(15), (false, true));
    assert_eq!(client.bytes_written, 15);
    assert_eq!(client.write_packet(25), (true, false));
    assert!(client.is_reading);
    assert_eq!(client.bytes_read, 0);
    assert_eq!(client.buffer.len(), READ_REQUEST_SIZE);
}

#[test]
fn no_buffer_that_holds_something_has_room_for_the_most_bytes_there_are() {
    let mut b = DoubleBuffer::with_first_buffer_capacity(16);
    assert!(b.can_hold_bytes(usize::MAX) == (b.first.capacity() == usize::MAX));
    assert!(b.can_hold_bytes(16));
    assert!(b.try_fill(&[1; 16]));
    assert!(b.try_fill_given(&[2; 4], 16, 0));
    assert_eq!((b.first.len(), b.second.len()), (16, 4));
    assert!(!b.can_hold_bytes(usize::MAX));
    assert!(b.can_hold_bytes(0));
    let room = std::cmp::max(b.first.capacity() - 16, b.second.capacity() - 4);
    assert!(b.can_hold_bytes(room));
    assert!(!b.can_hold_bytes(room + 1));
}
