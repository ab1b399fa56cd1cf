//! Cutting the byte stream of a connection into messages.
//!
//! A message is an entry in its wire form, followed on a connection between
//! replicas by the place where the entry is stored, and followed on every
//! connection by the address of the client that sent the entry.
use vstd::prelude::*;
use vstd::bytes::spec_u64_from_le_bytes;
use vstd::slice::slice_subrange;
use byteorder::{ByteOrder, LittleEndian};
use crate::packets::{clamp_usize, declared_size, Entry, header_ok, spec_decode, WrapErr};

verus! {

/// How many bytes the address of a client takes.
pub const SOCKET_ADDR_SIZE: usize = 6;

/// How many bytes the place where an entry is stored takes.
pub const STORAGE_LOC_SIZE: usize = 8;

/// The address of a client, as the bytes that stand for it on the wire.
#[derive(Clone, Copy, Debug, PartialEq, Eq)]
pub struct Ipv4SocketAddr {
    pub bytes: [u8; 6],
}

impl Ipv4SocketAddr {
    /// The address that the six bytes of `bytes` from `at` on stand for.
    pub fn from_slice(bytes: &Vec<u8>, at: usize) -> (addr: Ipv4SocketAddr)
        requires
            at + 6 <= bytes@.len(),
        ensures
            addr.bytes@ == bytes@.subrange(at as int, at + 6),
    {
        let len = bytes.len();
        let addr = Ipv4SocketAddr {
            bytes: [
                bytes[at],
                bytes[at + 1],
                bytes[at + 2],
                bytes[at + 3],
                bytes[at + 4],
                bytes[at + 5],
            ],
        };
        addr
    }
}

/// Why no message could be cut off the bytes at hand.
#[derive(Clone, Copy, Debug, PartialEq, Eq, Structural)]
pub enum MessageReaderError {
    /// This many bytes are missing.
    NeedMoreBytes(usize),
    /// The bytes begin with what is the beginning of no message.
    Other,
}

/// A message: the wire form of an entry, the address of the client that sent
/// it, and, between replicas, the place where the entry is stored.
pub struct ReceivedMessage {
    pub buffer: Vec<u8>,
    pub src_addr: Ipv4SocketAddr,
    pub storage_loc: Option<u64>,
}

/// Cuts messages off the bytes of one connection.
pub struct PacketReader {
    /// Whether the connection is one between replicas.
    pub is_replica: bool,
}

/// How many bytes follow the entry in a message, before the address.
pub open spec fn extra_bytes(is_replica: bool) -> int {
    if is_replica {
        8
    } else {
        0
    }
}

/// Reads the unsigned 64-bit number that the first eight bytes of `buf` are
/// the little-endian form of, with `byteorder::LittleEndian::read_u64`. That
/// function panics on fewer than eight bytes.
#[verifier::external_body]
pub(crate) fn read_u64_le(buf: &[u8]) -> (n: u64)
    requires
        buf@.len() >= 8,
    ensures
        n == spec_u64_from_le_bytes(buf@.subrange(0, 8)),
{
    LittleEndian::read_u64(buf)
}

impl PacketReader {
    pub fn new(is_replica: bool) -> (reader: PacketReader)
        ensures
            reader.is_replica == is_replica,
    {
        PacketReader { is_replica }
    }

    /// Cuts the first message off `bytes`.
    ///
    /// Where `bytes` begin with a whole message, the message is handed back
    /// with the number of bytes it took. Where they begin with a part of one,
    /// the error says how many bytes are missing: of the fixed part of the
    /// header where that is not there yet, and else of the message.
    pub fn deserialize_message(&self, bytes: &Vec<u8>) -> (r: Result<
        (ReceivedMessage, usize),
        MessageReaderError,
    >)
        ensures
            match r {
                Ok((msg, size_read)) => {
                    let size = declared_size(bytes@);
                    let extra = extra_bytes(self.is_replica);
                    &&& header_ok(bytes@)
                    &&& size_read == size + extra + 6
                    &&& size_read <= bytes@.len()
                    &&& msg.buffer@ == bytes@.subrange(0, size)
                    &&& spec_decode(msg.buffer@).is_some()
                    &&& msg.storage_loc == (if self.is_replica {
                        Some(spec_u64_from_le_bytes(bytes@.subrange(size, size + 8)))
                    } else {
                        None
                    })
                    &&& msg.src_addr.bytes@ == bytes@.subrange(size + extra, size + extra + 6)
                },
                Err(MessageReaderError::Other) => bytes@.len() >= 24 && !header_ok(bytes@),
                Err(MessageReaderError::NeedMoreBytes(needs)) => {
                    let extra = extra_bytes(self.is_replica);
                    if bytes@.len() < 24 {
                        needs == 24 - bytes@.len() + 6 + extra
                    } else {
                        &&& header_ok(bytes@)
                        &&& bytes@.len() < declared_size(bytes@) + extra + 6
                        &&& needs == clamp_usize(declared_size(bytes@) + extra + 6 - bytes@.len())
                    }
                },
            },
    {
        let extra: usize = if self.is_replica {
            STORAGE_LOC_SIZE
        } else {
            0
        };
        let len = bytes.len();
        let size = match Entry::wire_size(bytes) {
            Ok(size) => size,
            Err(WrapErr::NotEnoughBytes(needs)) => {
                return Err(
                    MessageReaderError::NeedMoreBytes(
                        needs.saturating_add(SOCKET_ADDR_SIZE + extra),
                    ),
                );
            },
            Err(WrapErr::BadLayout) => {
                return Err(MessageReaderError::Other);
            },
        };
        if len - size < extra + SOCKET_ADDR_SIZE {
            let needs = extra + SOCKET_ADDR_SIZE - (len - size);
            return Err(MessageReaderError::NeedMoreBytes(needs));
        }
        let mut buffer: Vec<u8> = Vec::new();
        let mut i: usize = 0;
        while i < size
            invariant
                i <= size <= bytes@.len(),
                buffer@ == bytes@.subrange(0, i as int),
            decreases size - i,
        {
            buffer.push(bytes[i]);
            i = i + 1;
        }
        let storage_loc = if self.is_replica {
            let loc = read_u64_le(slice_subrange(bytes.as_slice(), size, size + extra));
            assert(bytes@.subrange(size as int, size + 8).subrange(0, 8) =~= bytes@.subrange(
                size as int,
                size + 8,
            ));
            Some(loc)
        } else {
            None
        };
        let src_addr = Ipv4SocketAddr::from_slice(bytes, size + extra);
        let size_read = size + extra + SOCKET_ADDR_SIZE;
        Ok((ReceivedMessage { buffer, src_addr, storage_loc }, size_read))
    }
}

} // verus!
