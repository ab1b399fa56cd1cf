//! Entries of the shared log and their wire form.
//!
//! An entry is a header followed by a payload. On the wire it is laid out as
//!
//! | bytes            | field                                              |
//! |------------------|----------------------------------------------------|
//! | 0                | kind tag: layout code, plus 128 for "read success" |
//! | 1                | number of position slots, at least one             |
//! | 2..4             | number of dependencies                             |
//! | 4..8             | number of payload bytes                            |
//! | 8..24            | append id                                          |
//! | 24..             | position slots, 8 bytes each: chain, then index    |
//! | ..               | dependencies, 8 bytes each: chain, then index      |
//! | ..               | payload                                            |
//!
//! All integers are little-endian. [`frames`] is the relation between an entry
//! and its wire form; [`decode`] and [`encode`] are proved against it.
use vstd::prelude::*;
use vstd::bytes::*;
use vstd::slice::slice_subrange;

verus! {

/// A coordinate in the log: a chain and a 1-based index on that chain.
///
/// Chain 0 is the "no chain" placeholder of unused slots; index 0 is "unset".
#[derive(Clone, Copy, Debug, PartialEq, Eq, Structural)]
pub struct OrderIndex(pub u32, pub u32);

/// What an entry is laid out as.
#[derive(Clone, Copy, Debug, PartialEq, Eq, Structural)]
pub enum EntryLayout {
    Read,
    Data,
    Multiput,
    Sentinel,
    Lock,
}

/// The kind tag of an entry: its layout, and whether it answers a read that
/// found a value.
#[derive(Clone, Copy, Debug, PartialEq, Eq, Structural)]
pub struct EntryKind {
    pub layout: EntryLayout,
    pub read_success: bool,
}

/// A decoded entry.
#[derive(Debug)]
pub struct Entry {
    pub kind: EntryKind,
    pub id: u128,
    /// The positions this entry occupies, one slot per chain it touches.
    pub locs: Vec<OrderIndex>,
    /// The positions that must be delivered before this entry.
    pub deps: Vec<OrderIndex>,
    pub data: Vec<u8>,
}

/// The mathematical value of an [`Entry`].
pub struct EntryView {
    pub kind: EntryKind,
    pub id: u128,
    pub locs: Seq<OrderIndex>,
    pub deps: Seq<OrderIndex>,
    pub data: Seq<u8>,
}

impl View for Entry {
    type V = EntryView;

    open spec fn view(&self) -> EntryView {
        EntryView {
            kind: self.kind,
            id: self.id,
            locs: self.locs@,
            deps: self.deps@,
            data: self.data@,
        }
    }
}

/// Size of the part of the header that every entry has.
pub const BASE_HEADER_SIZE: usize = 24;

/// The index that asks the storage tier for the current tail of a chain.
pub const HORIZON_PROBE: u32 = 0xffff_ffff;

pub open spec fn layout_code(layout: EntryLayout) -> u8 {
    match layout {
        EntryLayout::Read => 0,
        EntryLayout::Data => 1,
        EntryLayout::Multiput => 2,
        EntryLayout::Sentinel => 3,
        EntryLayout::Lock => 4,
    }
}

/// The tag byte of a kind.
pub open spec fn kind_tag(kind: EntryKind) -> u8 {
    if kind.read_success {
        (layout_code(kind.layout) + 128) as u8
    } else {
        layout_code(kind.layout)
    }
}

/// The positions in `locs` that are on a real chain are on pairwise different
/// chains.
pub open spec fn chains_distinct(locs: Seq<OrderIndex>) -> bool {
    forall|i: int, j: int|
        0 <= i < j < locs.len() && (#[trigger] locs[i]).0 != 0 ==> locs[i].0 != (
        #[trigger] locs[j]).0
}

impl EntryView {
    /// Size of the header on the wire.
    pub open spec fn header_size(self) -> int {
        24 + 8 * self.locs.len() as int + 8 * self.deps.len() as int
    }

    /// Size of the whole entry on the wire.
    pub open spec fn entry_size(self) -> int {
        self.header_size() + self.data.len()
    }

    /// The counts of `self` fit the fields that the wire form has for them.
    pub open spec fn encodable(self) -> bool {
        &&& 1 <= self.locs.len() <= 255
        &&& self.deps.len() <= 0xffff
        &&& self.data.len() <= 0xffff_ffff
    }

}

/// The eight bytes of one position slot.
pub open spec fn position_bytes(p: OrderIndex) -> Seq<u8> {
    spec_u32_to_le_bytes(p.0) + spec_u32_to_le_bytes(p.1)
}

/// `bytes` holds the positions `ps` from offset `at` on, slot by slot.
pub open spec fn holds_positions(bytes: Seq<u8>, at: int, ps: Seq<OrderIndex>) -> bool {
    forall|k: int|
        0 <= k < ps.len() ==> bytes.subrange(at + 8 * k, at + 8 * k + 8) == position_bytes(
            #[trigger] ps[k],
        )
}

/// `bytes` is the wire form of `e`.
pub open spec fn frames(e: EntryView, bytes: Seq<u8>) -> bool {
    &&& e.encodable()
    &&& bytes.len() == e.entry_size()
    &&& bytes[0] == kind_tag(e.kind)
    &&& bytes[1] == e.locs.len()
    &&& bytes.subrange(2, 4) == spec_u16_to_le_bytes(e.deps.len() as u16)
    &&& bytes.subrange(4, 8) == spec_u32_to_le_bytes(e.data.len() as u32)
    &&& bytes.subrange(8, 24) == spec_u128_to_le_bytes(e.id)
    &&& holds_positions(bytes, 24, e.locs)
    &&& holds_positions(bytes, 24 + 8 * e.locs.len() as int, e.deps)
    &&& bytes.subrange(e.header_size(), e.entry_size()) == e.data
}

impl EntryKind {
    pub fn layout(&self) -> (l: EntryLayout)
        ensures
            l == self.layout,
    {
        self.layout
    }

    /// The tag byte that stands for this kind on the wire.
    pub fn tag(&self) -> (t: u8)
        ensures
            t == kind_tag(*self),
    {
        let code: u8 = match self.layout {
            EntryLayout::Read => 0,
            EntryLayout::Data => 1,
            EntryLayout::Multiput => 2,
            EntryLayout::Sentinel => 3,
            EntryLayout::Lock => 4,
        };
        if self.read_success {
            code + 128
        } else {
            code
        }
    }

    /// The kind that a tag byte stands for, if it stands for one.
    pub fn from_tag(t: u8) -> (k: Option<EntryKind>)
        ensures
            match k {
                Some(kind) => kind_tag(kind) == t,
                None => forall|kind: EntryKind| kind_tag(kind) != t,
            },
    {
        let read_success = t >= 128;
        let code: u8 = if read_success {
            t - 128
        } else {
            t
        };
        let layout = if code == 0 {
            EntryLayout::Read
        } else if code == 1 {
            EntryLayout::Data
        } else if code == 2 {
            EntryLayout::Multiput
        } else if code == 3 {
            EntryLayout::Sentinel
        } else if code == 4 {
            EntryLayout::Lock
        } else {
            return None;
        };
        Some(EntryKind { layout, read_success })
    }
}

/// Two kinds with the same tag are the same kind.
pub proof fn lemma_kind_tag_injective(a: EntryKind, b: EntryKind)
    requires
        kind_tag(a) == kind_tag(b),
    ensures
        a == b,
{
}

/// A 16-bit number is read back from its little-endian bytes.
pub proof fn lemma_le_u16(x: u16)
    ensures
        spec_u16_to_le_bytes(x).len() == 2,
        spec_u16_from_le_bytes(spec_u16_to_le_bytes(x)) == x,
{
    lemma_auto_spec_u16_to_from_le_bytes();
    assert(spec_u16_to_le_bytes(x).len() == 2);
}

/// A 32-bit number is read back from its little-endian bytes.
pub proof fn lemma_le_u32(x: u32)
    ensures
        spec_u32_to_le_bytes(x).len() == 4,
        spec_u32_from_le_bytes(spec_u32_to_le_bytes(x)) == x,
{
    lemma_auto_spec_u32_to_from_le_bytes();
    assert(spec_u32_to_le_bytes(x).len() == 4);
}

/// A 128-bit number is read back from its little-endian bytes.
pub proof fn lemma_le_u128(x: u128)
    ensures
        spec_u128_to_le_bytes(x).len() == 16,
        spec_u128_from_le_bytes(spec_u128_to_le_bytes(x)) == x,
{
    lemma_auto_spec_u128_to_from_le_bytes();
    assert(spec_u128_to_le_bytes(x).len() == 16);
}

/// Position slots with the same bytes hold the same position.
pub proof fn lemma_position_bytes_injective(p: OrderIndex, q: OrderIndex)
    requires
        position_bytes(p) == position_bytes(q),
    ensures
        p == q,
{
    lemma_le_u32(p.0);
    lemma_le_u32(p.1);
    lemma_le_u32(q.0);
    lemma_le_u32(q.1);
    let a = position_bytes(p);
    let b = position_bytes(q);
    assert(a.subrange(0, 4) == spec_u32_to_le_bytes(p.0));
    assert(b.subrange(0, 4) == spec_u32_to_le_bytes(q.0));
    assert(a.subrange(4, 8) == spec_u32_to_le_bytes(p.1));
    assert(b.subrange(4, 8) == spec_u32_to_le_bytes(q.1));
}

/// A wire form is the wire form of one entry only.
pub proof fn lemma_frames_functional(a: EntryView, b: EntryView, bytes: Seq<u8>)
    requires
        frames(a, bytes),
        frames(b, bytes),
    ensures
        a == b,
{
    lemma_kind_tag_injective(a.kind, b.kind);
    lemma_le_u16(a.deps.len() as u16);
    lemma_le_u16(b.deps.len() as u16);
    lemma_le_u32(a.data.len() as u32);
    lemma_le_u32(b.data.len() as u32);
    lemma_le_u128(a.id);
    lemma_le_u128(b.id);
    assert forall|k: int| 0 <= k < a.locs.len() implies a.locs[k] == b.locs[k] by {
        lemma_position_bytes_injective(a.locs[k], b.locs[k]);
    }
    assert(a.locs =~= b.locs);
    assert forall|k: int| 0 <= k < a.deps.len() implies a.deps[k] == b.deps[k] by {
        lemma_position_bytes_injective(a.deps[k], b.deps[k]);
    }
    assert(a.deps =~= b.deps);
    assert(a.data =~= b.data);
}

/// An entry has one wire form only.
pub proof fn law_frames_canonical(e: EntryView, x: Seq<u8>, y: Seq<u8>)
    requires
        frames(e, x),
        frames(e, y),
    ensures
        x == y,
{
    let hl: int = 24 + 8 * e.locs.len() as int;
    let hs = e.header_size();
    assert forall|i: int| 0 <= i < x.len() implies x[i] == y[i] by {
        if i < 2 {
        } else if i < 4 {
            assert(x[i] == x.subrange(2, 4)[i - 2]);
            assert(y[i] == y.subrange(2, 4)[i - 2]);
        } else if i < 8 {
            assert(x[i] == x.subrange(4, 8)[i - 4]);
            assert(y[i] == y.subrange(4, 8)[i - 4]);
        } else if i < 24 {
            assert(x[i] == x.subrange(8, 24)[i - 8]);
            assert(y[i] == y.subrange(8, 24)[i - 8]);
        } else if i < hl {
            let k = (i - 24) / 8;
            let _ = e.locs[k];
            assert(x[i] == x.subrange(24 + 8 * k, 24 + 8 * k + 8)[i - 24 - 8 * k]);
            assert(y[i] == y.subrange(24 + 8 * k, 24 + 8 * k + 8)[i - 24 - 8 * k]);
        } else if i < hs {
            let k = (i - hl) / 8;
            let _ = e.deps[k];
            assert(x[i] == x.subrange(hl + 8 * k, hl + 8 * k + 8)[i - hl - 8 * k]);
            assert(y[i] == y.subrange(hl + 8 * k, hl + 8 * k + 8)[i - hl - 8 * k]);
        } else {
            assert(x[i] == x.subrange(hs, e.entry_size())[i - hs]);
            assert(y[i] == y.subrange(hs, e.entry_size())[i - hs]);
        }
    }
    assert(x =~= y);
}

/// A range of a sequence is untouched by what is appended behind it.
proof fn lemma_append_keeps_range(s: Seq<u8>, t: Seq<u8>, a: int, b: int)
    requires
        0 <= a <= b <= s.len(),
    ensures
        (s + t).subrange(a, b) == s.subrange(a, b),
{
    assert((s + t).subrange(a, b) =~= s.subrange(a, b));
}

/// Position slots are untouched by what is appended behind them.
proof fn lemma_append_keeps_positions(s: Seq<u8>, t: Seq<u8>, at: int, ps: Seq<OrderIndex>)
    requires
        0 <= at,
        at + 8 * ps.len() <= s.len(),
        holds_positions(s, at, ps),
    ensures
        holds_positions(s + t, at, ps),
{
    assert forall|k: int| 0 <= k < ps.len() implies (s + t).subrange(at + 8 * k, at + 8 * k + 8)
        == position_bytes(#[trigger] ps[k]) by {
        lemma_append_keeps_range(s, t, at + 8 * k, at + 8 * k + 8);
    }
}

/// Reads the position slot that starts at byte `at`.
fn read_position(bytes: &Vec<u8>, at: usize) -> (p: OrderIndex)
    requires
        at + 8 <= bytes@.len(),
    ensures
        bytes@.subrange(at as int, at + 8) == position_bytes(p),
{
    let len = bytes.len();
    assert(at + 8 <= len);
    let chain = u32_from_le_bytes(slice_subrange(bytes.as_slice(), at, at + 4));
    let index = u32_from_le_bytes(slice_subrange(bytes.as_slice(), at + 4, at + 8));
    proof {
        lemma_auto_spec_u32_to_from_le_bytes();
        let lo = bytes@.subrange(at as int, at + 4);
        let hi = bytes@.subrange(at + 4, at + 8);
        assert(spec_u32_to_le_bytes(spec_u32_from_le_bytes(lo)) == lo);
        assert(spec_u32_to_le_bytes(spec_u32_from_le_bytes(hi)) == hi);
        assert(bytes@.subrange(at as int, at + 8) =~= lo + hi);
    }
    OrderIndex(chain, index)
}

/// Reads `count` position slots from byte `at` on.
fn read_positions(bytes: &Vec<u8>, at: usize, count: usize) -> (ps: Vec<OrderIndex>)
    requires
        at + 8 * count <= bytes@.len(),
    ensures
        ps@.len() == count,
        holds_positions(bytes@, at as int, ps@),
{
    let mut ps: Vec<OrderIndex> = Vec::new();
    let mut k: usize = 0;
    let len = bytes.len();
    while k < count
        invariant
            k <= count,
            len == bytes@.len(),
            at + 8 * count <= bytes@.len(),
            ps@.len() == k,
            holds_positions(bytes@, at as int, ps@),
        decreases count - k,
    {
        let p = read_position(bytes, at + 8 * k);
        ps.push(p);
        k = k + 1;
    }
    ps
}

/// Appends the slot of `p` to `buffer`.
fn write_position(buffer: &mut Vec<u8>, p: OrderIndex)
    ensures
        final(buffer)@ == old(buffer)@ + position_bytes(p),
        position_bytes(p).len() == 8,
{
    let mut chain = u32_to_le_bytes(p.0);
    let mut index = u32_to_le_bytes(p.1);
    buffer.append(&mut chain);
    buffer.append(&mut index);
    assert(buffer@ =~= old(buffer)@ + position_bytes(p));
}

/// Appends the slots of `ps` to `buffer`.
fn write_positions(buffer: &mut Vec<u8>, ps: &Vec<OrderIndex>)
    ensures
        final(buffer)@.len() == old(buffer)@.len() + 8 * ps@.len(),
        final(buffer)@.subrange(0, old(buffer)@.len() as int) == old(buffer)@,
        holds_positions(final(buffer)@, old(buffer)@.len() as int, ps@),
{
    let ghost start = buffer@;
    let ghost at = buffer@.len() as int;
    let mut k: usize = 0;
    while k < ps.len()
        invariant
            k <= ps@.len(),
            at == start.len(),
            buffer@.len() == at + 8 * k,
            buffer@.subrange(0, at) == start,
            holds_positions(buffer@, at, ps@.take(k as int)),
        decreases ps@.len() - k,
    {
        let ghost before = buffer@;
        write_position(buffer, ps[k]);
        proof {
            let slot = position_bytes(ps@[k as int]);
            lemma_append_keeps_positions(before, slot, at, ps@.take(k as int));
            lemma_append_keeps_range(before, slot, 0, at);
            assert forall|j: int| 0 <= j < k + 1 implies buffer@.subrange(at + 8 * j, at + 8 * j + 8)
                == position_bytes(#[trigger] ps@.take(k + 1)[j]) by {
                if j < k {
                    assert(ps@.take(k + 1)[j] == ps@.take(k as int)[j]);
                } else {
                    assert(buffer@.subrange(at + 8 * j, at + 8 * j + 8) =~= slot);
                }
            }
        }
        k = k + 1;
    }
    assert(ps@.take(k as int) =~= ps@);
}

/// The entry that `bytes` is the wire form of, if it is the wire form of one.
pub open spec fn spec_decode(bytes: Seq<u8>) -> Option<EntryView> {
    if exists|e: EntryView| frames(e, bytes) {
        Some(choose|e: EntryView| frames(e, bytes))
    } else {
        None
    }
}

impl Entry {
    /// Reads an entry from its wire form.
    ///
    /// Returns the entry that `bytes` is the wire form of, and `None` where
    /// `bytes` is the wire form of no entry.
    pub fn decode(bytes: &Vec<u8>) -> (r: Option<Entry>)
        ensures
            match r {
                Some(e) => frames(e@, bytes@) && spec_decode(bytes@) == Some(e@),
                None => spec_decode(bytes@).is_none() && forall|e: EntryView| !frames(e, bytes@),
            },
    {
        if bytes.len() < BASE_HEADER_SIZE {
            return None;
        }
        let kind = match EntryKind::from_tag(bytes[0]) {
            Some(kind) => kind,
            None => {
                return None;
            },
        };
        let cols: u8 = bytes[1];
        let num_deps: u16 = u16_from_le_bytes(slice_subrange(bytes.as_slice(), 2, 4));
        let data_bytes: u32 = u32_from_le_bytes(slice_subrange(bytes.as_slice(), 4, 8));
        let id: u128 = u128_from_le_bytes(slice_subrange(bytes.as_slice(), 8, 24));
        let header_size: u64 = 24 + 8 * (cols as u64) + 8 * (num_deps as u64);
        let entry_size: u64 = header_size + data_bytes as u64;
        proof {
            lemma_auto_spec_u16_to_from_le_bytes();
            lemma_auto_spec_u32_to_from_le_bytes();
            lemma_auto_spec_u128_to_from_le_bytes();
            assert forall|e: EntryView| frames(e, bytes@) implies e.kind == kind && e.locs.len()
                == cols && e.deps.len() == num_deps && e.data.len() == data_bytes && e.entry_size()
                == entry_size by {
                lemma_kind_tag_injective(e.kind, kind);
                lemma_le_u16(e.deps.len() as u16);
                lemma_le_u32(e.data.len() as u32);
            }
        }
        if cols == 0 || bytes.len() as u64 != entry_size {
            return None;
        }
        let locs = read_positions(bytes, 24, cols as usize);
        let deps = read_positions(bytes, 24 + 8 * (cols as usize), num_deps as usize);
        let mut data: Vec<u8> = Vec::new();
        let mut i: usize = header_size as usize;
        while i < bytes.len()
            invariant
                header_size <= i <= bytes@.len(),
                data@ == bytes@.subrange(header_size as int, i as int),
            decreases bytes@.len() - i,
        {
            data.push(bytes[i]);
            assert(data@ =~= bytes@.subrange(header_size as int, i + 1));
            i = i + 1;
        }
        let e = Entry { kind, id, locs, deps, data };
        proof {
            let s2 = bytes@.subrange(2, 4);
            let s4 = bytes@.subrange(4, 8);
            let s8 = bytes@.subrange(8, 24);
            assert(spec_u16_to_le_bytes(spec_u16_from_le_bytes(s2)) == s2);
            assert(spec_u32_to_le_bytes(spec_u32_from_le_bytes(s4)) == s4);
            assert(spec_u128_to_le_bytes(spec_u128_from_le_bytes(s8)) == s8);
            assert(frames(e@, bytes@));
            lemma_frames_functional(e@, spec_decode(bytes@).unwrap(), bytes@);
        }
        Some(e)
    }

    /// Writes the wire form of `self` into `buffer`, over what it held.
    pub fn encode(&self, buffer: Vec<u8>) -> (out: Vec<u8>)
        requires
            self@.encodable(),
        ensures
            frames(self@, out@),
    {
        let mut out = buffer;
        out.clear();
        out.push(self.kind.tag());
        out.push(self.locs.len() as u8);
        let mut num_deps = u16_to_le_bytes(self.deps.len() as u16);
        let mut data_bytes = u32_to_le_bytes(self.data.len() as u32);
        let mut id = u128_to_le_bytes(self.id);
        out.append(&mut num_deps);
        out.append(&mut data_bytes);
        out.append(&mut id);
        let ghost head = out@;
        proof {
            lemma_le_u16(self.deps.len() as u16);
            lemma_le_u32(self.data.len() as u32);
            lemma_le_u128(self.id);
            assert(head.len() == 24);
            assert(head.subrange(2, 4) =~= spec_u16_to_le_bytes(self.deps.len() as u16));
            assert(head.subrange(4, 8) =~= spec_u32_to_le_bytes(self.data.len() as u32));
            assert(head.subrange(8, 24) =~= spec_u128_to_le_bytes(self.id));
        }
        write_positions(&mut out, &self.locs);
        let ghost with_locs = out@;
        write_positions(&mut out, &self.deps);
        let ghost with_deps = out@;
        let ghost hs = self@.header_size();
        proof {
            assert(with_deps.subrange(0, with_locs.len() as int) == with_locs);
            assert(with_locs.subrange(0, 24) == head);
            assert forall|k: int| 0 <= k < self.locs@.len() implies with_deps.subrange(
                24 + 8 * k,
                24 + 8 * k + 8,
            ) == position_bytes(#[trigger] self.locs@[k]) by {
                assert(with_deps.subrange(24 + 8 * k, 24 + 8 * k + 8) =~= with_locs.subrange(
                    24 + 8 * k,
                    24 + 8 * k + 8,
                ));
            }
            assert(with_deps.subrange(0, 24) =~= head);
        }
        let mut i: usize = 0;
        while i < self.data.len()
            invariant
                i <= self.data@.len(),
                hs == with_deps.len(),
                out@.len() == hs + i,
                out@.subrange(0, hs) == with_deps,
                out@.subrange(hs, hs + i) == self.data@.take(i as int),
            decreases self.data@.len() - i,
        {
            let ghost before = out@;
            out.push(self.data[i]);
            proof {
                assert(out@.subrange(0, hs) =~= before.subrange(0, hs));
                assert(out@.subrange(hs, hs + i + 1) =~= self.data@.take(i + 1));
            }
            i = i + 1;
        }
        proof {
            let b = out@;
            assert(self.data@.take(i as int) =~= self.data@);
            assert(b[0] == with_deps[0] && b[1] == with_deps[1]) by {
                assert(b.subrange(0, hs)[0] == b[0]);
                assert(b.subrange(0, hs)[1] == b[1]);
            }
            assert(with_deps[0] == head[0] && with_deps[1] == head[1]) by {
                assert(with_deps.subrange(0, 24)[0] == with_deps[0]);
                assert(with_deps.subrange(0, 24)[1] == with_deps[1]);
            }
            assert(b.subrange(2, 4) =~= with_deps.subrange(2, 4));
            assert(with_deps.subrange(2, 4) =~= head.subrange(2, 4));
            assert(b.subrange(4, 8) =~= with_deps.subrange(4, 8));
            assert(with_deps.subrange(4, 8) =~= head.subrange(4, 8));
            assert(b.subrange(8, 24) =~= with_deps.subrange(8, 24));
            assert(with_deps.subrange(8, 24) =~= head.subrange(8, 24));
            assert forall|k: int| 0 <= k < self.locs@.len() implies b.subrange(
                24 + 8 * k,
                24 + 8 * k + 8,
            ) == position_bytes(#[trigger] self.locs@[k]) by {
                assert(b.subrange(24 + 8 * k, 24 + 8 * k + 8) =~= with_deps.subrange(
                    24 + 8 * k,
                    24 + 8 * k + 8,
                ));
            }
            let hl = 24 + 8 * self.locs@.len() as int;
            assert forall|k: int| 0 <= k < self.deps@.len() implies b.subrange(
                hl + 8 * k,
                hl + 8 * k + 8,
            ) == position_bytes(#[trigger] self.deps@[k]) by {
                assert(b.subrange(hl + 8 * k, hl + 8 * k + 8) =~= with_deps.subrange(
                    hl + 8 * k,
                    hl + 8 * k + 8,
                ));
            }
        }
        out
    }
}

/// Why the size of an entry cannot be told from the bytes at hand.
#[derive(Clone, Copy, Debug, PartialEq, Eq, Structural)]
pub enum WrapErr {
    /// This many bytes are missing.
    NotEnoughBytes(usize),
    /// The bytes begin with what is the header of no entry.
    BadLayout,
}

/// The bytes begin with the fixed part of a header, whose tag stands for a
/// kind and which has a position slot.
pub open spec fn header_ok(bytes: Seq<u8>) -> bool {
    &&& bytes.len() >= 24
    &&& exists|kind: EntryKind| kind_tag(kind) == bytes[0]
    &&& bytes[1] >= 1
}

/// The size of the header that `bytes` begin with, as that header says.
pub open spec fn declared_header_size(bytes: Seq<u8>) -> int {
    24 + 8 * bytes[1] + 8 * spec_u16_from_le_bytes(bytes.subrange(2, 4))
}

/// The size of the entry that `bytes` begin with, as its header says.
pub open spec fn declared_size(bytes: Seq<u8>) -> int {
    declared_header_size(bytes) + spec_u32_from_le_bytes(bytes.subrange(4, 8))
}

/// The position that the eight bytes of `bytes` from `at` on stand for.
pub open spec fn position_at(bytes: Seq<u8>, at: int) -> OrderIndex {
    OrderIndex(
        spec_u32_from_le_bytes(bytes.subrange(at, at + 4)),
        spec_u32_from_le_bytes(bytes.subrange(at + 4, at + 8)),
    )
}

/// The entry that `bytes` begin with, as far as its header says where its
/// parts are.
pub open spec fn parsed(bytes: Seq<u8>) -> EntryView {
    let num_locs = bytes[1] as nat;
    let num_deps = spec_u16_from_le_bytes(bytes.subrange(2, 4)) as nat;
    EntryView {
        kind: choose|kind: EntryKind| kind_tag(kind) == bytes[0],
        id: spec_u128_from_le_bytes(bytes.subrange(8, 24)),
        locs: Seq::new(num_locs, |k: int| position_at(bytes, 24 + 8 * k)),
        deps: Seq::new(num_deps, |k: int| position_at(bytes, 24 + 8 * num_locs + 8 * k)),
        data: bytes.subrange(declared_header_size(bytes), declared_size(bytes)),
    }
}

/// The wire form of an entry begins with a header that gives its size.
pub proof fn law_frames_declared(e: EntryView, bytes: Seq<u8>)
    requires
        frames(e, bytes),
    ensures
        header_ok(bytes),
        declared_header_size(bytes) == e.header_size(),
        declared_size(bytes) == bytes.len(),
{
    lemma_le_u16(e.deps.len() as u16);
    lemma_le_u32(e.data.len() as u32);
}

/// Bytes that begin with a header, and that are as many as that header
/// says, are the wire form of an entry: of the one that [`parsed`] reads.
pub proof fn law_declared_frames(bytes: Seq<u8>)
    requires
        header_ok(bytes),
        bytes.len() == declared_size(bytes),
    ensures
        frames(parsed(bytes), bytes),
        spec_decode(bytes) == Some(parsed(bytes)),
{
    lemma_auto_spec_u16_to_from_le_bytes();
    lemma_auto_spec_u32_to_from_le_bytes();
    lemma_auto_spec_u128_to_from_le_bytes();
    let e = parsed(bytes);
    let s2 = bytes.subrange(2, 4);
    let s4 = bytes.subrange(4, 8);
    let s8 = bytes.subrange(8, 24);
    assert(spec_u16_to_le_bytes(spec_u16_from_le_bytes(s2)) == s2);
    assert(spec_u32_to_le_bytes(spec_u32_from_le_bytes(s4)) == s4);
    assert(spec_u128_to_le_bytes(spec_u128_from_le_bytes(s8)) == s8);
    assert forall|k: int| 0 <= k < e.locs.len() implies bytes.subrange(24 + 8 * k, 24 + 8 * k + 8)
        == position_bytes(#[trigger] e.locs[k]) by {
        lemma_position_at(bytes, 24 + 8 * k);
    }
    let hl = 24 + 8 * e.locs.len() as int;
    assert forall|k: int| 0 <= k < e.deps.len() implies bytes.subrange(hl + 8 * k, hl + 8 * k + 8)
        == position_bytes(#[trigger] e.deps[k]) by {
        lemma_position_at(bytes, hl + 8 * k);
    }
    assert(frames(e, bytes));
    lemma_frames_functional(e, spec_decode(bytes).unwrap(), bytes);
}

/// Eight bytes are the slot of the position that they stand for.
proof fn lemma_position_at(bytes: Seq<u8>, at: int)
    requires
        0 <= at,
        at + 8 <= bytes.len(),
    ensures
        bytes.subrange(at, at + 8) == position_bytes(position_at(bytes, at)),
{
    lemma_auto_spec_u32_to_from_le_bytes();
    let lo = bytes.subrange(at, at + 4);
    let hi = bytes.subrange(at + 4, at + 8);
    assert(spec_u32_to_le_bytes(spec_u32_from_le_bytes(lo)) == lo);
    assert(spec_u32_to_le_bytes(spec_u32_from_le_bytes(hi)) == hi);
    assert(bytes.subrange(at, at + 8) =~= lo + hi);
}

/// `x`, or the largest number of bytes that can be spoken of where `x` is
/// larger.
pub open spec fn clamp_usize(x: int) -> usize {
    if x <= usize::MAX {
        x as usize
    } else {
        usize::MAX
    }
}

impl Entry {
    /// The size of the entry that `bytes` begin with.
    ///
    /// The size is told where `bytes` hold the entry whole; else how many
    /// bytes are missing: of the fixed part of the header, or of the entry
    /// whose size that header gives.
    pub fn wire_size(bytes: &Vec<u8>) -> (r: Result<usize, WrapErr>)
        ensures
            r == (if bytes@.len() < 24 {
                Err::<usize, WrapErr>(WrapErr::NotEnoughBytes((24 - bytes@.len()) as usize))
            } else if !header_ok(bytes@) {
                Err(WrapErr::BadLayout)
            } else if bytes@.len() < declared_size(bytes@) {
                Err(WrapErr::NotEnoughBytes(clamp_usize(declared_size(bytes@) - bytes@.len())))
            } else {
                Ok(declared_size(bytes@) as usize)
            }),
            r matches Ok(size) ==> spec_decode(bytes@.subrange(0, size as int)).is_some(),
    {
        let len = bytes.len();
        if len < BASE_HEADER_SIZE {
            return Err(WrapErr::NotEnoughBytes(BASE_HEADER_SIZE - len));
        }
        let kind = EntryKind::from_tag(bytes[0]);
        let cols: u8 = bytes[1];
        if kind.is_none() || cols == 0 {
            return Err(WrapErr::BadLayout);
        }
        let num_deps: u16 = u16_from_le_bytes(slice_subrange(bytes.as_slice(), 2, 4));
        let data_bytes: u32 = u32_from_le_bytes(slice_subrange(bytes.as_slice(), 4, 8));
        let size: u64 = 24 + 8 * (cols as u64) + 8 * (num_deps as u64) + data_bytes as u64;
        if (len as u64) < size {
            let missing: u64 = size - len as u64;
            let needs: usize = if missing <= usize::MAX as u64 {
                missing as usize
            } else {
                usize::MAX
            };
            return Err(WrapErr::NotEnoughBytes(needs));
        }
        proof {
            let whole = bytes@.subrange(0, size as int);
            assert(whole.subrange(2, 4) =~= bytes@.subrange(2, 4));
            assert(whole.subrange(4, 8) =~= bytes@.subrange(4, 8));
            assert(header_ok(whole)) by {
                let kind = choose|kind: EntryKind| kind_tag(kind) == bytes@[0];
                assert(kind_tag(kind) == whole[0]);
            }
            law_declared_frames(whole);
        }
        Ok(size as usize)
    }
}

} // verus!
