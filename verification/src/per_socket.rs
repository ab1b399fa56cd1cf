//! What a storage server keeps for one connection, apart from the connection
//! itself: the buffers that are read into, and what waits to be written.
//!
//! Whoever owns the connection reads and writes; the functions here decide
//! what is read into and written from, and take in how the reading and the
//! writing went.
use vstd::prelude::*;
use vstd::bytes::spec_u64_from_le_bytes;
use vstd::slice::slice_subrange;
use std::collections::VecDeque;
use crate::packet_reader::{Ipv4SocketAddr, read_u64_le, SOCKET_ADDR_SIZE, STORAGE_LOC_SIZE};
use crate::packets::{BASE_HEADER_SIZE, declared_header_size, declared_size};
use crate::thread_log::FromClient;

verus! {

/// The room that the first write buffer of a connection starts with.
pub const WRITE_BUFFER_SIZE: usize = 40000;

/// The room up to which the second write buffer takes what does not fit.
pub const MAX_WRITE_BUFFER_SIZE: usize = 40000;

/// How many buffers a connection has to read into.
pub const NUMBER_READ_BUFFERS: usize = 15;

/// The room that `buffer` has, taken and free, as `Vec::capacity` gives it:
/// no less than what `buffer` holds. How much it is depends on what the
/// allocator gave.
#[verifier::external_body]
fn capacity_of(buffer: &Vec<u8>) -> (capacity: usize)
    ensures
        capacity >= buffer@.len(),
{
    buffer.capacity()
}

/// Appends `bytes` to `buffer`.
fn append_bytes(buffer: &mut Vec<u8>, bytes: &[u8])
    ensures
        final(buffer)@ == old(buffer)@ + bytes@,
{
    let mut i: usize = 0;
    while i < bytes.len()
        invariant
            i <= bytes@.len(),
            buffer@ == old(buffer)@ + bytes@.take(i as int),
        decreases bytes@.len() - i,
    {
        buffer.push(bytes[i]);
        i = i + 1;
    }
}

/// Two buffers to write from: while the first is being written out, what
/// comes in is gathered in the second.
#[derive(Debug)]
pub struct DoubleBuffer {
    pub first: Vec<u8>,
    pub second: Vec<u8>,
}

/// Whether a buffer of `len` bytes with room for `capacity` can take `bytes`
/// more.
pub open spec fn can_hold(capacity: usize, len: nat, bytes: nat) -> bool {
    capacity - len >= bytes
}

impl DoubleBuffer {
    pub open spec fn spec_is_filling_first(&self) -> bool {
        self.second@.len() == 0
    }

    pub open spec fn spec_is_empty(&self) -> bool {
        self.first@.len() == 0 && self.second@.len() == 0
    }

    /// Whether `bytes` more go into the first buffer, which has room for
    /// `first_capacity`: nothing is in the second buffer yet, and the first
    /// has the room or is empty.
    pub open spec fn goes_to_first(&self, bytes: nat, first_capacity: usize) -> bool {
        self.spec_is_filling_first() && (can_hold(first_capacity, self.first@.len(), bytes)
            || self.first@.len() == 0)
    }

    /// Whether `bytes` more go into the second buffer, which has room for
    /// `second_capacity`: it has the room, or may still grow.
    pub open spec fn goes_to_second(&self, bytes: nat, second_capacity: usize) -> bool {
        can_hold(second_capacity, self.second@.len(), bytes) || second_capacity
            < MAX_WRITE_BUFFER_SIZE
    }

    /// Whether one of the buffers, with room for `first_capacity` and
    /// `second_capacity`, has room for `bytes` more.
    pub open spec fn has_room(&self, bytes: nat, first_capacity: usize, second_capacity: usize) -> bool {
        can_hold(first_capacity, self.first@.len(), bytes) || can_hold(
            second_capacity,
            self.second@.len(),
            bytes,
        )
    }

    pub fn new() -> (buffer: DoubleBuffer)
        ensures
            buffer.spec_is_empty(),
    {
        DoubleBuffer { first: Vec::new(), second: Vec::new() }
    }

    /// Two empty buffers, the first with room for `cap` bytes asked of the
    /// allocator. What room it gave shows in
    /// [`DoubleBuffer::can_hold_bytes`] and [`DoubleBuffer::try_fill`] only.
    pub fn with_first_buffer_capacity(cap: usize) -> (buffer: DoubleBuffer)
        ensures
            buffer.spec_is_empty(),
    {
        DoubleBuffer { first: Vec::with_capacity(cap), second: Vec::new() }
    }

    /// What is being written out.
    pub fn first_bytes(&self) -> (bytes: &Vec<u8>)
        ensures
            bytes@ == self.first@,
    {
        &self.first
    }

    /// The first buffer was written out: it is emptied, and what was
    /// gathered in the second buffer becomes what is written out next.
    pub fn swap_if_needed(&mut self)
        ensures
            final(self).first@ == old(self).second@,
            final(self).second@.len() == 0,
    {
        self.first.clear();
        if self.second.len() > 0 {
            std::mem::swap(&mut self.first, &mut self.second);
        }
    }

    /// Whether one of the buffers has room for `bytes` more. What room a
    /// buffer has depends on what the allocator gave, which is no less than
    /// what the buffer holds: the result is what
    /// [`DoubleBuffer::can_hold_bytes_given`] gives for the room that the
    /// two buffers have.
    pub fn can_hold_bytes(&self, bytes: usize) -> (holds: bool)
        ensures
            exists|first_capacity: usize, second_capacity: usize|
                first_capacity >= self.first@.len() && second_capacity >= self.second@.len()
                    && holds == #[trigger] self.has_room(
                    bytes as nat,
                    first_capacity,
                    second_capacity,
                ),
            bytes == 0 ==> holds,
    {
        let first = capacity_of(&self.first);
        let second = capacity_of(&self.second);
        let holds = self.can_hold_bytes_given(bytes, first, second);
        proof {
            assert(holds == self.has_room(bytes as nat, first, second));
        }
        holds
    }

    /// Whether one of the buffers, with room for `first_capacity` and
    /// `second_capacity`, has room for `bytes` more.
    pub fn can_hold_bytes_given(
        &self,
        bytes: usize,
        first_capacity: usize,
        second_capacity: usize,
    ) -> (holds: bool)
        requires
            first_capacity >= self.first@.len(),
            second_capacity >= self.second@.len(),
        ensures
            holds == self.has_room(bytes as nat, first_capacity, second_capacity),
    {
        first_capacity - self.first.len() >= bytes || second_capacity - self.second.len() >= bytes
    }

    /// Puts `bytes` behind what waits to be written, where a buffer takes
    /// them, and says whether one did. Which buffer takes them, if any,
    /// depends on the room that the allocator gave the buffers; an empty
    /// first buffer takes them whatever its room, as long as nothing is in
    /// the second.
    pub fn try_fill(&mut self, bytes: &[u8]) -> (filled: bool)
        ensures
            filled ==> (old(self).spec_is_filling_first() && final(self).first@ == old(self).first@
                + bytes@ && final(self).second@ == old(self).second@) || (!old(self).spec_is_empty()
                && final(self).second@ == old(self).second@ + bytes@ && final(self).first@ == old(
                self,
            ).first@),
            !filled ==> final(self).first@ == old(self).first@ && final(self).second@ == old(
                self,
            ).second@,
            old(self).spec_is_empty() ==> filled,
            !filled ==> bytes@.len() > 0,
    {
        let first = capacity_of(&self.first);
        let second = capacity_of(&self.second);
        self.try_fill_given(bytes, first, second)
    }

    /// Puts `bytes` behind what waits to be written, with room for
    /// `first_capacity` in the first buffer and for `second_capacity` in the
    /// second: into the first where [`DoubleBuffer::goes_to_first`] says so,
    /// else into the second where [`DoubleBuffer::goes_to_second`] says so,
    /// and else nowhere. Says whether the bytes were put somewhere.
    pub fn try_fill_given(
        &mut self,
        bytes: &[u8],
        first_capacity: usize,
        second_capacity: usize,
    ) -> (filled: bool)
        requires
            first_capacity >= old(self).first@.len(),
            second_capacity >= old(self).second@.len(),
        ensures
            filled == (old(self).goes_to_first(bytes@.len(), first_capacity) || old(
                self,
            ).goes_to_second(bytes@.len(), second_capacity)),
            final(self).first@ == (if old(self).goes_to_first(bytes@.len(), first_capacity) {
                old(self).first@ + bytes@
            } else {
                old(self).first@
            }),
            final(self).second@ == (if !old(self).goes_to_first(bytes@.len(), first_capacity)
                && old(self).goes_to_second(bytes@.len(), second_capacity) {
                old(self).second@ + bytes@
            } else {
                old(self).second@
            }),
    {
        if self.is_filling_first() {
            if first_capacity - self.first.len() >= bytes.len() || self.first.len() == 0 {
                append_bytes(&mut self.first, bytes);
                return true;
            }
        }
        if second_capacity - self.second.len() >= bytes.len() || second_capacity
            < MAX_WRITE_BUFFER_SIZE {
            append_bytes(&mut self.second, bytes);
            return true;
        }
        false
    }

    pub fn is_filling_first(&self) -> (b: bool)
        ensures
            b == self.spec_is_filling_first(),
    {
        self.second.len() == 0
    }

    pub fn is_empty(&self) -> (b: bool)
        ensures
            b == self.spec_is_empty(),
    {
        self.first.len() == 0 && self.second.len() == 0
    }
}

/// What a connection is to a server.
#[derive(Clone, Copy, Debug, PartialEq, Eq, Structural)]
pub enum PerSocketKind {
    /// A connection from the server before this one in its chain of
    /// replicas: it is read from.
    Upstream,
    /// A connection to the server after this one: it is written to.
    Downstream,
    /// A connection to a client: it is read from and written to.
    Client,
}

/// How far the reading of a message has come.
pub enum RecvRes {
    /// The message is whole; it came from this client.
    Done(Ipv4SocketAddr),
    /// The connection failed.
    Error,
    /// This many bytes of the message were read so far.
    NeedsMore(usize),
}

/// What an attempt to receive a message comes to.
pub enum RecvPacket {
    Error,
    Pending,
    /// A message from upstream: the entry, the client that sent it, and the
    /// place where the entry is stored.
    FromUpstream(Vec<u8>, Ipv4SocketAddr, u64),
    /// A message from a client: the entry and the client that sent it.
    FromClient(Vec<u8>, Ipv4SocketAddr),
}

/// What a server keeps for one connection, apart from the connection.
pub enum PerSocket {
    Upstream { being_read: VecDeque<Vec<u8>>, bytes_read: usize, needs_to_stay_awake: bool },
    Downstream {
        being_written: DoubleBuffer,
        bytes_written: usize,
        pending: VecDeque<Vec<u8>>,
        needs_to_stay_awake: bool,
    },
    Client {
        being_read: VecDeque<Vec<u8>>,
        bytes_read: usize,
        being_written: DoubleBuffer,
        bytes_written: usize,
        pending: VecDeque<Vec<u8>>,
        needs_to_stay_awake: bool,
    },
}

/// Up to where to read next, of a message of which the first `read` bytes
/// are in `buffer`; `extra` bytes stand between the entry and the address of
/// the client. First the fixed part of the header is read, then the header,
/// then the rest. `None` where the message is whole.
pub fn recv_target(buffer: &Vec<u8>, read: usize, extra: usize) -> (target: Option<usize>)
    requires
        read <= buffer@.len(),
        extra <= 8,
    ensures
        target == (if read < 24 {
            Some(24usize)
        } else if read < declared_header_size(buffer@) {
            Some(declared_header_size(buffer@) as usize)
        } else if read < declared_size(buffer@) + 6 + extra {
            Some(crate::packets::clamp_usize(declared_size(buffer@) + 6 + extra))
        } else {
            None
        }),
{
    if read < BASE_HEADER_SIZE {
        return Some(BASE_HEADER_SIZE);
    }
    let cols: u8 = buffer[1];
    let num_deps: u16 = vstd::bytes::u16_from_le_bytes(slice_subrange(buffer.as_slice(), 2, 4));
    let data_bytes: u32 = vstd::bytes::u32_from_le_bytes(slice_subrange(buffer.as_slice(), 4, 8));
    let header_size: usize = 24 + 8 * (cols as usize) + 8 * (num_deps as usize);
    if read < header_size {
        return Some(header_size);
    }
    let size: u64 = header_size as u64 + data_bytes as u64 + SOCKET_ADDR_SIZE as u64 + extra as u64;
    if (read as u64) < size {
        if size <= usize::MAX as u64 {
            return Some(size as usize);
        } else {
            return Some(usize::MAX);
        }
    }
    None
}

/// The address of the client at the end of a whole message of `read` bytes
/// in `buffer`, before its last `extra` bytes.
pub fn recv_addr(buffer: &Vec<u8>, read: usize, extra: usize) -> (addr: Ipv4SocketAddr)
    requires
        6 + extra <= read <= buffer@.len(),
    ensures
        addr.bytes@ == buffer@.subrange(read - 6 - extra, read - extra),
{
    Ipv4SocketAddr::from_slice(buffer, read - SOCKET_ADDR_SIZE - extra)
}

impl PerSocket {
    pub open spec fn spec_kind(&self) -> PerSocketKind {
        match self {
            PerSocket::Upstream { .. } => PerSocketKind::Upstream,
            PerSocket::Downstream { .. } => PerSocketKind::Downstream,
            PerSocket::Client { .. } => PerSocketKind::Client,
        }
    }

    /// The buffers that are free to be read into.
    pub open spec fn read_buffers(&self) -> Seq<Vec<u8>> {
        match self {
            PerSocket::Upstream { being_read, .. } => being_read@,
            PerSocket::Downstream { .. } => Seq::empty(),
            PerSocket::Client { being_read, .. } => being_read@,
        }
    }

    /// How many bytes of the message that is being read were read.
    pub open spec fn spec_bytes_read(&self) -> usize {
        match self {
            PerSocket::Upstream { bytes_read, .. } => *bytes_read,
            PerSocket::Downstream { .. } => 0,
            PerSocket::Client { bytes_read, .. } => *bytes_read,
        }
    }

    pub open spec fn spec_needs_to_stay_awake(&self) -> bool {
        match self {
            PerSocket::Upstream { needs_to_stay_awake, .. } => *needs_to_stay_awake,
            PerSocket::Downstream { needs_to_stay_awake, .. } => *needs_to_stay_awake,
            PerSocket::Client { needs_to_stay_awake, .. } => *needs_to_stay_awake,
        }
    }

    /// What is being written out, and what is gathered behind it.
    pub open spec fn written(&self) -> (Seq<u8>, Seq<u8>) {
        match self {
            PerSocket::Upstream { .. } => (Seq::empty(), Seq::empty()),
            PerSocket::Downstream { being_written, .. } => (
                being_written.first@,
                being_written.second@,
            ),
            PerSocket::Client { being_written, .. } => (being_written.first@, being_written.second@),
        }
    }

    /// How many bytes of what is being written out were written.
    pub open spec fn spec_bytes_written(&self) -> usize {
        match self {
            PerSocket::Upstream { .. } => 0,
            PerSocket::Downstream { bytes_written, .. } => *bytes_written,
            PerSocket::Client { bytes_written, .. } => *bytes_written,
        }
    }

    /// What waits for room in the write buffers.
    pub open spec fn spec_pending(&self) -> Seq<Vec<u8>> {
        match self {
            PerSocket::Upstream { .. } => Seq::empty(),
            PerSocket::Downstream { pending, .. } => pending@,
            PerSocket::Client { pending, .. } => pending@,
        }
    }

    /// No more was written than there was to write; nothing is gathered or
    /// waits for room while nothing is being written out; and what waits for
    /// room is not empty.
    pub open spec fn wf(&self) -> bool {
        &&& self.spec_bytes_written() <= self.written().0.len()
        &&& self.written().0.len() == 0 ==> self.written().1.len() == 0 && self.spec_pending().len()
            == 0
        &&& forall|i: int|
            0 <= i < self.spec_pending().len() ==> (#[trigger] self.spec_pending()[i])@.len() > 0
    }

    fn fresh_read_buffers() -> (buffers: VecDeque<Vec<u8>>)
        ensures
            buffers@.len() == NUMBER_READ_BUFFERS,
            forall|i: int| 0 <= i < buffers@.len() ==> (#[trigger] buffers@[i])@.len() == 0,
    {
        let mut buffers: VecDeque<Vec<u8>> = VecDeque::new();
        let mut i: usize = 0;
        while i < NUMBER_READ_BUFFERS
            invariant
                i <= NUMBER_READ_BUFFERS,
                buffers@.len() == i,
                forall|j: int| 0 <= j < buffers@.len() ==> (#[trigger] buffers@[j])@.len() == 0,
            decreases NUMBER_READ_BUFFERS - i,
        {
            buffers.push_back(Vec::new());
            i = i + 1;
        }
        buffers
    }

    /// What is kept for a new connection to a client.
    pub fn client() -> (socket: PerSocket)
        ensures
            socket.wf(),
            socket.spec_kind() == PerSocketKind::Client,
            socket.read_buffers().len() == NUMBER_READ_BUFFERS,
            socket.spec_bytes_read() == 0,
            socket.written() == (Seq::<u8>::empty(), Seq::<u8>::empty()),
            socket.spec_pending().len() == 0,
            !socket.spec_needs_to_stay_awake(),
    {
        PerSocket::Client {
            being_read: PerSocket::fresh_read_buffers(),
            bytes_read: 0,
            being_written: DoubleBuffer::with_first_buffer_capacity(WRITE_BUFFER_SIZE),
            bytes_written: 0,
            pending: VecDeque::new(),
            needs_to_stay_awake: false,
        }
    }

    /// What is kept for a new connection from upstream.
    pub fn upstream() -> (socket: PerSocket)
        ensures
            socket.wf(),
            socket.spec_kind() == PerSocketKind::Upstream,
            socket.read_buffers().len() == NUMBER_READ_BUFFERS,
            socket.spec_bytes_read() == 0,
            !socket.spec_needs_to_stay_awake(),
    {
        PerSocket::Upstream {
            being_read: PerSocket::fresh_read_buffers(),
            bytes_read: 0,
            needs_to_stay_awake: false,
        }
    }

    /// What is kept for a new connection to downstream.
    pub fn downstream() -> (socket: PerSocket)
        ensures
            socket.wf(),
            socket.spec_kind() == PerSocketKind::Downstream,
            socket.written() == (Seq::<u8>::empty(), Seq::<u8>::empty()),
            socket.spec_pending().len() == 0,
            !socket.spec_needs_to_stay_awake(),
    {
        PerSocket::Downstream {
            being_written: DoubleBuffer::with_first_buffer_capacity(WRITE_BUFFER_SIZE),
            bytes_written: 0,
            pending: VecDeque::new(),
            needs_to_stay_awake: false,
        }
    }

    pub fn kind(&self) -> (kind: PerSocketKind)
        ensures
            kind == self.spec_kind(),
    {
        match self {
            PerSocket::Upstream { .. } => PerSocketKind::Upstream,
            PerSocket::Downstream { .. } => PerSocketKind::Downstream,
            PerSocket::Client { .. } => PerSocketKind::Client,
        }
    }

    /// How many bytes stand between the entry and the address of the client
    /// in a message on this connection.
    pub fn extra(&self) -> (extra: usize)
        ensures
            extra == (if self.spec_kind() == PerSocketKind::Upstream {
                8usize
            } else {
                0usize
            }),
    {
        match self {
            PerSocket::Upstream { .. } => STORAGE_LOC_SIZE,
            _ => 0,
        }
    }

    /// Takes the buffer to read into, if one is free, and says how many
    /// bytes of the message were read into it so far.
    pub fn take_read_buffer(&mut self) -> (taken: Option<(Vec<u8>, usize)>)
        requires
            old(self).spec_kind() != PerSocketKind::Downstream,
        ensures
            final(self).spec_kind() == old(self).spec_kind(),
            final(self).spec_bytes_read() == old(self).spec_bytes_read(),
            final(self).spec_needs_to_stay_awake() == old(self).spec_needs_to_stay_awake(),
            final(self).written() == old(self).written(),
            final(self).spec_bytes_written() == old(self).spec_bytes_written(),
            final(self).spec_pending() == old(self).spec_pending(),
            match taken {
                Some((buffer, read)) => old(self).read_buffers().len() > 0 && buffer == old(
                    self,
                ).read_buffers()[0] && read == old(self).spec_bytes_read()
                    && final(self).read_buffers() == old(self).read_buffers().skip(1),
                None => old(self).read_buffers().len() == 0 && final(self).read_buffers() == old(
                    self,
                ).read_buffers(),
            },
    {
        match self {
            PerSocket::Upstream { being_read, bytes_read, .. } => {
                let read = *bytes_read;
                match being_read.pop_front() {
                    Some(buffer) => {
                        Some((buffer, read))
                    },
                    None => None,
                }
            },
            PerSocket::Client { being_read, bytes_read, .. } => {
                let read = *bytes_read;
                match being_read.pop_front() {
                    Some(buffer) => {
                        Some((buffer, read))
                    },
                    None => None,
                }
            },
            PerSocket::Downstream { .. } => None,
        }
    }

    /// Takes in how the reading of a message into `read_buffer` went.
    ///
    /// A whole message is handed on, from upstream with the place where the
    /// entry is stored, which stands behind the entry. Else the buffer goes
    /// back to the front of the buffers to read into, with what was read of
    /// the message so far. A connection from upstream must not fail.
    pub fn recv_packet(&mut self, read_buffer: Vec<u8>, recv: RecvRes) -> (packet: RecvPacket)
        requires
            old(self).spec_kind() != PerSocketKind::Downstream,
            old(self).spec_kind() == PerSocketKind::Upstream ==> !(recv is Error),
            old(self).spec_kind() == PerSocketKind::Upstream && recv is Done ==> read_buffer@.len()
                >= 24 && declared_size(read_buffer@) + 8 <= read_buffer@.len(),
        ensures
            final(self).spec_kind() == old(self).spec_kind(),
            final(self).written() == old(self).written(),
            final(self).spec_bytes_written() == old(self).spec_bytes_written(),
            final(self).spec_pending() == old(self).spec_pending(),
            match recv {
                RecvRes::Done(src_addr) => {
                    &&& final(self).spec_bytes_read() == 0
                    &&& final(self).spec_needs_to_stay_awake()
                    &&& final(self).read_buffers() == old(self).read_buffers()
                    &&& packet == (if old(self).spec_kind() == PerSocketKind::Upstream {
                        RecvPacket::FromUpstream(
                            read_buffer,
                            src_addr,
                            spec_u64_from_le_bytes(
                                read_buffer@.subrange(
                                    declared_size(read_buffer@),
                                    declared_size(read_buffer@) + 8,
                                ),
                            ),
                        )
                    } else {
                        RecvPacket::FromClient(read_buffer, src_addr)
                    })
                },
                RecvRes::Error => {
                    &&& packet is Error
                    &&& final(self).spec_bytes_read() == 0
                    &&& final(self).spec_needs_to_stay_awake() == old(
                        self,
                    ).spec_needs_to_stay_awake()
                    &&& final(self).read_buffers() == seq![read_buffer] + old(self).read_buffers()
                },
                RecvRes::NeedsMore(total_read) => {
                    &&& packet is Pending
                    &&& final(self).spec_bytes_read() == total_read
                    &&& final(self).spec_needs_to_stay_awake() == old(
                        self,
                    ).spec_needs_to_stay_awake()
                    &&& final(self).read_buffers() == seq![read_buffer] + old(self).read_buffers()
                },
            },
    {
        match self {
            PerSocket::Upstream { being_read, bytes_read, needs_to_stay_awake } => {
                match recv {
                    RecvRes::Done(src_addr) => {
                        *bytes_read = 0;
                        let cols: u8 = read_buffer[1];
                        let num_deps: u16 = vstd::bytes::u16_from_le_bytes(
                            slice_subrange(read_buffer.as_slice(), 2, 4),
                        );
                        let data_bytes: u32 = vstd::bytes::u32_from_le_bytes(
                            slice_subrange(read_buffer.as_slice(), 4, 8),
                        );
                        let len = read_buffer.len();
                        let entry_size: u64 = 24 + 8 * (cols as u64) + 8 * (num_deps as u64)
                            + data_bytes as u64;
                        let at: usize = entry_size as usize;
                        let storage_loc = read_u64_le(
                            slice_subrange(read_buffer.as_slice(), at, at + STORAGE_LOC_SIZE),
                        );
                        assert(read_buffer@.subrange(at as int, at + 8).subrange(0, 8)
                            =~= read_buffer@.subrange(at as int, at + 8));
                        *needs_to_stay_awake = true;
                        RecvPacket::FromUpstream(read_buffer, src_addr, storage_loc)
                    },
                    RecvRes::Error => {
                        *bytes_read = 0;
                        being_read.push_front(read_buffer);
                        RecvPacket::Error
                    },
                    RecvRes::NeedsMore(total_read) => {
                        *bytes_read = total_read;
                        being_read.push_front(read_buffer);
                        RecvPacket::Pending
                    },
                }
            },
            PerSocket::Client { being_read, bytes_read, needs_to_stay_awake, .. } => {
                match recv {
                    RecvRes::Done(src_addr) => {
                        *bytes_read = 0;
                        *needs_to_stay_awake = true;
                        RecvPacket::FromClient(read_buffer, src_addr)
                    },
                    RecvRes::Error => {
                        *bytes_read = 0;
                        being_read.push_front(read_buffer);
                        RecvPacket::Error
                    },
                    RecvRes::NeedsMore(total_read) => {
                        *bytes_read = total_read;
                        being_read.push_front(read_buffer);
                        RecvPacket::Pending
                    },
                }
            },
            PerSocket::Downstream { .. } => RecvPacket::Pending,
        }
    }

    /// Takes back a buffer that a message was handed on in: it is free to be
    /// read into again, after the others.
    pub fn return_buffer(&mut self, buffer: Vec<u8>)
        requires
            old(self).spec_kind() != PerSocketKind::Downstream,
        ensures
            final(self).spec_kind() == old(self).spec_kind(),
            final(self).read_buffers() == old(self).read_buffers().push(buffer),
            final(self).spec_needs_to_stay_awake(),
            final(self).spec_bytes_read() == old(self).spec_bytes_read(),
            final(self).written() == old(self).written(),
            final(self).spec_bytes_written() == old(self).spec_bytes_written(),
            final(self).spec_pending() == old(self).spec_pending(),
    {
        match self {
            PerSocket::Upstream { being_read, needs_to_stay_awake, .. } => {
                *needs_to_stay_awake = true;
                being_read.push_back(buffer);
            },
            PerSocket::Client { being_read, needs_to_stay_awake, .. } => {
                *needs_to_stay_awake = true;
                being_read.push_back(buffer);
            },
            PerSocket::Downstream { .. } => {},
        }
    }

    /// Whether reading has to wait for a buffer to be handed back.
    pub fn is_backpressured(&self) -> (b: bool)
        ensures
            b == (self.spec_kind() != PerSocketKind::Downstream && self.read_buffers().len() == 0),
    {
        match self {
            PerSocket::Client { being_read, .. } => being_read.len() == 0,
            PerSocket::Upstream { being_read, .. } => being_read.len() == 0,
            PerSocket::Downstream { .. } => false,
        }
    }

    /// Takes note that there is something to do on the connection.
    pub fn stay_awake(&mut self)
        ensures
            final(self).spec_needs_to_stay_awake(),
            final(self).spec_kind() == old(self).spec_kind(),
            final(self).read_buffers() == old(self).read_buffers(),
            final(self).spec_bytes_read() == old(self).spec_bytes_read(),
            final(self).written() == old(self).written(),
            final(self).spec_bytes_written() == old(self).spec_bytes_written(),
            final(self).spec_pending() == old(self).spec_pending(),
    {
        match self {
            PerSocket::Downstream { needs_to_stay_awake, .. } => {
                *needs_to_stay_awake = true;
            },
            PerSocket::Client { needs_to_stay_awake, .. } => {
                *needs_to_stay_awake = true;
            },
            PerSocket::Upstream { needs_to_stay_awake, .. } => {
                *needs_to_stay_awake = true;
            },
        }
    }

    pub fn needs_to_stay_awake(&self) -> (b: bool)
        ensures
            b == self.spec_needs_to_stay_awake(),
    {
        match self {
            PerSocket::Downstream { needs_to_stay_awake, .. } => *needs_to_stay_awake,
            PerSocket::Client { needs_to_stay_awake, .. } => *needs_to_stay_awake,
            PerSocket::Upstream { needs_to_stay_awake, .. } => *needs_to_stay_awake,
        }
    }

    /// Takes note that the connection was looked after.
    pub fn wake(&mut self)
        ensures
            !final(self).spec_needs_to_stay_awake(),
            final(self).spec_kind() == old(self).spec_kind(),
            final(self).read_buffers() == old(self).read_buffers(),
            final(self).spec_bytes_read() == old(self).spec_bytes_read(),
            final(self).written() == old(self).written(),
            final(self).spec_bytes_written() == old(self).spec_bytes_written(),
            final(self).spec_pending() == old(self).spec_pending(),
    {
        match self {
            PerSocket::Downstream { needs_to_stay_awake, .. } => {
                *needs_to_stay_awake = false;
            },
            PerSocket::Client { needs_to_stay_awake, .. } => {
                *needs_to_stay_awake = false;
            },
            PerSocket::Upstream { needs_to_stay_awake, .. } => {
                *needs_to_stay_awake = false;
            },
        }
    }
}

/// The bytes of `buffers`, buffer after buffer.
pub open spec fn all_bytes(buffers: Seq<Vec<u8>>) -> Seq<u8>
    decreases buffers.len(),
{
    if buffers.len() == 0 {
        Seq::empty()
    } else {
        all_bytes(buffers.drop_last()) + buffers.last()@
    }
}

/// The bytes of the first buffers, then the bytes of the next one.
proof fn lemma_all_bytes_take(buffers: Seq<Vec<u8>>, k: int)
    requires
        0 <= k < buffers.len(),
    ensures
        all_bytes(buffers.take(k + 1)) == all_bytes(buffers.take(k)) + buffers[k]@,
{
    assert(buffers.take(k + 1).drop_last() =~= buffers.take(k));
}

/// Moves what waits in `pending` into `being_written`, oldest first, as long
/// as a buffer takes it.
fn refill(being_written: &mut DoubleBuffer, pending: &mut VecDeque<Vec<u8>>) -> (moved: Ghost<int>)
    requires
        old(being_written).first@.len() == 0 ==> old(being_written).second@.len() == 0,
        forall|i: int| 0 <= i < old(pending)@.len() ==> (#[trigger] old(pending)@[i])@.len() > 0,
    ensures
        0 <= moved@ <= old(pending)@.len(),
        final(pending)@ == old(pending)@.skip(moved@),
        final(being_written).first@ + final(being_written).second@ == old(being_written).first@
            + old(being_written).second@ + all_bytes(old(pending)@.take(moved@)),
        final(being_written).first@.len() == 0 ==> final(being_written).second@.len() == 0
            && final(pending)@.len() == 0,
{
    let ghost mut moved: int = 0;
    let ghost start = pending@;
    while pending.len() > 0
        invariant
            start == old(pending)@,
            forall|i: int| 0 <= i < start.len() ==> (#[trigger] start[i])@.len() > 0,
            0 <= moved <= start.len(),
            pending@ == start.skip(moved),
            being_written.first@ + being_written.second@ == old(being_written).first@ + old(
                being_written,
            ).second@ + all_bytes(start.take(moved)),
            being_written.first@.len() == 0 ==> being_written.second@.len() == 0,
        ensures
            being_written.first@.len() == 0 ==> pending@.len() == 0,
        decreases pending@.len(),
    {
        let ghost before = *being_written;
        let added = being_written.try_fill(pending[0].as_slice());
        if !added {
            break ;
        }
        let _ = pending.pop_front();
        proof {
            lemma_all_bytes_take(start, moved);
            assert(being_written.first@ + being_written.second@ =~= before.first@ + before.second@
                + start[moved]@);
            moved = moved + 1;
        }
    }
    Ghost(moved)
}

impl PerSocket {
    /// What to write to the connection next: what is being written out, and
    /// how much of it was written. `None` where nothing is.
    pub fn burst(&self) -> (burst: Option<(&Vec<u8>, usize)>)
        requires
            self.spec_kind() != PerSocketKind::Upstream,
            self.wf(),
        ensures
            match burst {
                Some((bytes, written)) => bytes@ == self.written().0 && written
                    == self.spec_bytes_written() && written <= bytes@.len() && bytes@.len() > 0,
                None => self.written().0.len() == 0 && self.written().1.len() == 0
                    && self.spec_pending().len() == 0,
            },
    {
        match self {
            PerSocket::Downstream { being_written, bytes_written, .. } => {
                if being_written.is_empty() {
                    None
                } else {
                    Some((being_written.first_bytes(), *bytes_written))
                }
            },
            PerSocket::Client { being_written, bytes_written, .. } => {
                if being_written.is_empty() {
                    None
                } else {
                    Some((being_written.first_bytes(), *bytes_written))
                }
            },
            PerSocket::Upstream { .. } => None,
        }
    }

    /// Takes in that `sent` more bytes of what is being written out were
    /// written. Says whether all of it is written by now.
    ///
    /// Where it is, what was gathered behind it becomes what is written out
    /// next, and what waits for room is moved into the write buffers, oldest
    /// first, as far as they take it.
    pub fn send_burst(&mut self, sent: usize) -> (finished: bool)
        requires
            old(self).spec_kind() != PerSocketKind::Upstream,
            old(self).wf(),
            old(self).spec_bytes_written() + sent <= old(self).written().0.len(),
            old(self).written().0.len() > 0,
        ensures
            final(self).wf(),
            final(self).spec_kind() == old(self).spec_kind(),
            final(self).spec_needs_to_stay_awake(),
            final(self).read_buffers() == old(self).read_buffers(),
            final(self).spec_bytes_read() == old(self).spec_bytes_read(),
            finished == (old(self).spec_bytes_written() + sent == old(self).written().0.len()),
            !finished ==> final(self).written() == old(self).written()
                && final(self).spec_pending() == old(self).spec_pending()
                && final(self).spec_bytes_written()
                == old(self).spec_bytes_written() + sent,
            finished ==> final(self).spec_bytes_written() == 0 && exists|moved: int|
                0 <= moved <= old(self).spec_pending().len() && final(self).spec_pending()
                    == #[trigger] old(self).spec_pending().skip(moved) && final(self).written().0
                    + final(self).written().1 == old(self).written().1 + all_bytes(
                    old(self).spec_pending().take(moved),
                ),
    {
        match self {
            PerSocket::Downstream { being_written, bytes_written, pending, needs_to_stay_awake } => {
                *needs_to_stay_awake = true;
                let len = being_written.first_bytes().len();
                *bytes_written = *bytes_written + sent;
                if *bytes_written < len {
                    return false;
                }
                *bytes_written = 0;
                being_written.swap_if_needed();
                let moved = refill(being_written, pending);
                true
            },
            PerSocket::Client {
                being_written,
                bytes_written,
                pending,
                needs_to_stay_awake,
                ..
            } => {
                assert(pending@ == old(self).spec_pending());
                *needs_to_stay_awake = true;
                let len = being_written.first_bytes().len();
                *bytes_written = *bytes_written + sent;
                if *bytes_written < len {
                    return false;
                }
                *bytes_written = 0;
                being_written.swap_if_needed();
                let moved = refill(being_written, pending);
                true
            },
            PerSocket::Upstream { .. } => false,
        }
    }

    /// Queues `to_write` to be written to the connection: behind what is in
    /// the write buffers where one of them takes it, and else behind what
    /// waits for room.
    pub fn add_downstream_send(&mut self, to_write: &[u8])
        requires
            old(self).spec_kind() != PerSocketKind::Upstream,
            old(self).wf(),
        ensures
            final(self).wf(),
            final(self).spec_kind() == old(self).spec_kind(),
            final(self).spec_needs_to_stay_awake(),
            final(self).read_buffers() == old(self).read_buffers(),
            final(self).spec_bytes_read() == old(self).spec_bytes_read(),
            final(self).spec_bytes_written() == old(self).spec_bytes_written(),
            ({
                let (first, second) = old(self).written();
                let pending = old(self).spec_pending();
                ||| final(self).written() == (first + to_write@, second) && final(self).spec_pending()
                    == pending && second.len() == 0
                ||| final(self).written() == (first, second + to_write@)
                    && final(self).spec_pending() == pending && first.len() > 0
                ||| final(self).written() == (first, second) && final(self).spec_pending().len()
                    == pending.len() + 1 && final(self).spec_pending().drop_last() == pending
                    && final(self).spec_pending().last()@ == to_write@ && first.len() > 0
            }),
    {
        match self {
            PerSocket::Downstream { being_written, pending, needs_to_stay_awake, .. } => {
                *needs_to_stay_awake = true;
                let added = being_written.try_fill(to_write);
                if !added {
                    let mut copy: Vec<u8> = Vec::new();
                    append_bytes(&mut copy, to_write);
                    pending.push_back(copy);
                }
            },
            PerSocket::Client { being_written, pending, needs_to_stay_awake, .. } => {
                *needs_to_stay_awake = true;
                let added = being_written.try_fill(to_write);
                if !added {
                    let mut copy: Vec<u8> = Vec::new();
                    append_bytes(&mut copy, to_write);
                    pending.push_back(copy);
                    assert(pending@.drop_last() =~= old(self).spec_pending());
                }
            },
            PerSocket::Upstream { .. } => {},
        }
    }
}

/// `bytes` where `taken`, and nothing where not.
pub open spec fn if_taken(taken: bool, bytes: Seq<u8>) -> Seq<u8> {
    if taken {
        bytes
    } else {
        Seq::empty()
    }
}

/// Puts the three pieces into `being_written` one after the other, each
/// where a buffer takes it.
fn fill_three(being_written: &mut DoubleBuffer, a: &[u8], b: &[u8], c: &[u8]) -> (taken: (
    bool,
    bool,
    bool,
))
    requires
        old(being_written).first@.len() == 0 ==> old(being_written).second@.len() == 0,
    ensures
        final(being_written).first@ + final(being_written).second@ == old(being_written).first@
            + old(being_written).second@ + if_taken(taken.0, a@) + if_taken(taken.1, b@) + if_taken(
            taken.2,
            c@,
        ),
        final(being_written).first@.len() >= old(being_written).first@.len(),
        final(being_written).first@.len() == 0 ==> final(being_written).second@.len() == 0,
        old(being_written).spec_is_empty() ==> taken.0,
{
    let ta = being_written.try_fill(a);
    let tb = being_written.try_fill(b);
    let tc = being_written.try_fill(c);
    (ta, tb, tc)
}

impl PerSocket {
    /// Queues three pieces to be written to the connection, one after the
    /// other.
    ///
    /// Where a write buffer has room for all three, each piece goes behind
    /// what is in the write buffers, as far as a buffer takes it. Else the
    /// pieces wait for room, as one; but where nothing is being written out,
    /// they become what is written out next.
    pub fn add_downstream_send3(&mut self, to_write0: &[u8], to_write1: &[u8], to_write2: &[u8])
        requires
            old(self).spec_kind() != PerSocketKind::Upstream,
            old(self).wf(),
        ensures
            final(self).wf(),
            final(self).spec_kind() == old(self).spec_kind(),
            final(self).spec_needs_to_stay_awake(),
            final(self).read_buffers() == old(self).read_buffers(),
            final(self).spec_bytes_read() == old(self).spec_bytes_read(),
            final(self).spec_bytes_written() == old(self).spec_bytes_written(),
            ({
                let (first, second) = old(self).written();
                let pending = old(self).spec_pending();
                let whole = to_write0@ + to_write1@ + to_write2@;
                ||| final(self).spec_pending() == pending && exists|t0: bool, t1: bool, t2: bool|
                    #![trigger if_taken(t0, to_write0@), if_taken(t1, to_write1@), if_taken(t2, to_write2@)]
                    final(self).written().0 + final(self).written().1 == first + second + if_taken(
                        t0,
                        to_write0@,
                    ) + if_taken(t1, to_write1@) + if_taken(t2, to_write2@)
                ||| final(self).written() == (first, second) && final(self).spec_pending().len()
                    == pending.len() + 1 && final(self).spec_pending().drop_last() == pending
                    && final(self).spec_pending().last()@ == whole && first.len() > 0
            }),
    {
        let len0 = to_write0.len();
        let len1 = to_write1.len();
        let len2 = to_write2.len();
        let write_len = len0.saturating_add(len1).saturating_add(len2);
        match self {
            PerSocket::Downstream { being_written, pending, needs_to_stay_awake, .. } => {
                *needs_to_stay_awake = true;
                if being_written.can_hold_bytes(write_len) || being_written.is_empty() {
                    let taken = fill_three(being_written, to_write0, to_write1, to_write2);
                } else {
                    let mut pend: Vec<u8> = Vec::new();
                    append_bytes(&mut pend, to_write0);
                    append_bytes(&mut pend, to_write1);
                    append_bytes(&mut pend, to_write2);
                    pending.push_back(pend);
                }
            },
            PerSocket::Client { being_written, pending, needs_to_stay_awake, .. } => {
                assert(pending@ == old(self).spec_pending());
                *needs_to_stay_awake = true;
                if being_written.can_hold_bytes(write_len) || being_written.is_empty() {
                    let taken = fill_three(being_written, to_write0, to_write1, to_write2);
                } else {
                    let mut pend: Vec<u8> = Vec::new();
                    append_bytes(&mut pend, to_write0);
                    append_bytes(&mut pend, to_write1);
                    append_bytes(&mut pend, to_write2);
                    pending.push_back(pend);
                }
            },
            PerSocket::Upstream { .. } => {},
        }
    }
}

} // verus!
