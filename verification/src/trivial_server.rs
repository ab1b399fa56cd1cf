//! A storage server that makes its answers up: every read of a position
//! finds an entry without a payload there, and every probe of a horizon is
//! told the same tail. It is what the engine is measured against.
//!
//! Whoever owns the connections reads and writes; the functions here decide
//! what is answered, and what a connection waits for next.
use vstd::prelude::*;
use crate::packets::{
    Entry, EntryKind, EntryLayout, EntryView, frames, HORIZON_PROBE, OrderIndex, spec_decode,
};

verus! {

/// The tail that every probe of a horizon is told.
pub const TRIVIAL_TAIL: u32 = 10000000;

/// The size of a request to read one position.
pub const READ_REQUEST_SIZE: usize = 32;

/// What a connection waits for.
#[derive(Clone, Copy, Debug, PartialEq, Eq, Structural)]
pub enum Interest {
    Readable,
    Writable,
}

/// The token after `token`, which becomes the token. Tokens count up and
/// start over at 2 where they run out: 0 and 1 are taken.
pub fn get_next_token(token: &mut usize) -> (next: usize)
    ensures
        next == *final(token),
        next == (if *old(token) == usize::MAX {
            2usize
        } else {
            (*old(token) + 1) as usize
        }),
{
    let next = token.wrapping_add(1);
    if next == 0 {
        *token = 2;
    } else {
        *token = next;
    }
    *token
}

/// What a connection waits for next: for room to write where it has an
/// answer to write that it did not finish, or began none yet; else for a
/// request to read.
pub fn next_interest(finished_read: bool, finished_write: bool, needs_write: bool) -> (interest: Interest)
    ensures
        interest == (if finished_write {
            Interest::Readable
        } else if finished_read || needs_write {
            Interest::Writable
        } else {
            Interest::Readable
        }),
{
    match (finished_read, finished_write) {
        (true, true) => Interest::Readable,
        (true, false) => Interest::Writable,
        (false, true) => Interest::Readable,
        (false, false) => if needs_write {
            Interest::Writable
        } else {
            Interest::Readable
        },
    }
}

/// The answer to the request `request`: to the read of a position, an entry
/// without a payload at that position; to a probe of the horizon, that
/// nothing is there and where the tail is.
pub open spec fn answer_to(request: EntryView) -> EntryView {
    if request.locs[0].1 < HORIZON_PROBE {
        EntryView {
            kind: EntryKind { layout: EntryLayout::Data, read_success: true },
            id: request.id,
            locs: request.locs,
            deps: Seq::empty(),
            data: Seq::empty(),
        }
    } else {
        EntryView {
            kind: EntryKind { layout: EntryLayout::Read, read_success: false },
            id: request.id,
            locs: seq![request.locs[0]],
            deps: seq![OrderIndex(request.locs[0].0, TRIVIAL_TAIL)],
            data: Seq::empty(),
        }
    }
}

/// The wire form of the answer to the request that `request` is the wire
/// form of, written over `request`. Bytes that are the wire form of no entry
/// stay as they are.
pub fn answer_read(request: Vec<u8>) -> (answer: Vec<u8>)
    ensures
        match spec_decode(request@) {
            Some(e) => frames(answer_to(e), answer@),
            None => answer@ == request@,
        },
{
    match Entry::decode(&request) {
        Some(e) => {
            let loc = e.locs[0];
            let answer = if loc.1 < HORIZON_PROBE {
                Entry {
                    kind: EntryKind { layout: EntryLayout::Data, read_success: true },
                    id: e.id,
                    locs: e.locs,
                    deps: Vec::new(),
                    data: Vec::new(),
                }
            } else {
                let mut locs: Vec<OrderIndex> = Vec::new();
                locs.push(loc);
                let mut deps: Vec<OrderIndex> = Vec::new();
                deps.push(OrderIndex(loc.0, TRIVIAL_TAIL));
                Entry {
                    kind: EntryKind { layout: EntryLayout::Read, read_success: false },
                    id: e.id,
                    locs,
                    deps,
                    data: Vec::new(),
                }
            };
            answer.encode(request)
        },
        None => request,
    }
}

/// What the server keeps for the connection of one client, apart from the
/// connection: a request is read, then its answer is written, and so on.
pub struct PerClient {
    pub buffer: Vec<u8>,
    pub is_reading: bool,
    pub bytes_read: usize,
    pub bytes_written: usize,
}

impl PerClient {
    /// No more was read than a request has bytes, and no more written than
    /// the answer has.
    pub open spec fn wf(&self) -> bool {
        &&& self.bytes_read <= READ_REQUEST_SIZE
        &&& self.is_reading ==> self.buffer@.len() == READ_REQUEST_SIZE
        &&& !self.is_reading ==> self.bytes_written < self.buffer@.len()
    }

    pub fn new() -> (client: PerClient)
        ensures
            client.wf(),
            client.is_reading,
            client.bytes_read == 0,
            client.bytes_written == 0,
    {
        let mut buffer: Vec<u8> = Vec::new();
        let mut i: usize = 0;
        while i < READ_REQUEST_SIZE
            invariant
                i <= READ_REQUEST_SIZE,
                buffer@.len() == i,
            decreases READ_REQUEST_SIZE - i,
        {
            buffer.push(0);
            i = i + 1;
        }
        PerClient { buffer, is_reading: true, bytes_read: 0, bytes_written: 0 }
    }

    /// Takes in that `read` more bytes of a request were read into the
    /// buffer. Says whether the request is whole by now; where it is, the
    /// buffer holds the answer, which is to be written next.
    pub fn read_packet(&mut self, read: usize) -> (finished: bool)
        requires
            old(self).wf(),
            old(self).is_reading,
            old(self).bytes_read + read <= READ_REQUEST_SIZE,
        ensures
            final(self).wf(),
            finished == (old(self).bytes_read + read == READ_REQUEST_SIZE),
            !finished ==> final(self).is_reading && final(self).bytes_read == old(self).bytes_read
                + read && final(self).buffer@ == old(self).buffer@ && final(self).bytes_written
                == old(self).bytes_written,
            finished ==> !final(self).is_reading && final(self).bytes_written == 0 && (
            match spec_decode(old(self).buffer@) {
                Some(e) => frames(answer_to(e), final(self).buffer@),
                None => final(self).buffer@ == old(self).buffer@,
            }),
    {
        self.bytes_read = self.bytes_read + read;
        if self.bytes_read < READ_REQUEST_SIZE {
            return false;
        }
        let mut request: Vec<u8> = Vec::new();
        std::mem::swap(&mut request, &mut self.buffer);
        self.buffer = answer_read(request);
        self.is_reading = false;
        self.bytes_written = 0;
        true
    }

    /// Takes in that `written` more bytes of the answer were written. Says
    /// whether the answer is written by now, and whether there is more of it
    /// to write. Once it is written, the next request is read.
    pub fn write_packet(&mut self, written: usize) -> (done: (bool, bool))
        requires
            old(self).wf(),
            !old(self).is_reading,
            old(self).bytes_written + written <= old(self).buffer@.len(),
        ensures
            final(self).wf(),
            done.0 == (old(self).bytes_written + written == old(self).buffer@.len()),
            done.1 == !done.0,
            done.0 ==> final(self).is_reading && final(self).bytes_read == 0
                && final(self).bytes_written == 0 && final(self).buffer@.len() == READ_REQUEST_SIZE,
            !done.0 ==> !final(self).is_reading && final(self).bytes_written == old(
                self,
            ).bytes_written + written && final(self).buffer@ == old(self).buffer@,
    {
        let len = self.buffer.len();
        self.bytes_written = self.bytes_written + written;
        if self.bytes_written == len {
            self.bytes_written = 0;
            self.bytes_read = 0;
            self.is_reading = true;
            self.buffer.clear();
            let mut i: usize = 0;
            while i < READ_REQUEST_SIZE
                invariant
                    i <= READ_REQUEST_SIZE,
                    self.buffer@.len() == i,
                    self.bytes_written == 0,
                    self.bytes_read == 0,
                    self.is_reading,
                decreases READ_REQUEST_SIZE - i,
            {
                self.buffer.push(0);
                i = i + 1;
            }
            (true, false)
        } else {
            (false, !self.is_reading)
        }
    }
}

} // verus!
