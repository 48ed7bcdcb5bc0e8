//! DMX universes: one 512-slot buffer per universe, and a set of them.
use std::collections::HashMap;

use vstd::std_specs::iter::IteratorSpec;
use vstd::prelude::*;

verus! {

broadcast use vstd::std_specs::hash::group_hash_axioms;

/// Number of channels in a single DMX universe.
pub const DMX_CHANNELS: usize = 512;

/// The slot index (0-based) that a 1-based channel number addresses, if any.
pub open spec fn slot_of(ch: int) -> Option<int> {
    if 1 <= ch <= 512 {
        Some(ch - 1)
    } else {
        None
    }
}

/// The value a read of channel `ch` gives on a universe whose slots are `data`.
pub open spec fn channel_value(data: Seq<u8>, ch: int) -> u8 {
    match slot_of(ch) {
        Some(i) => data[i],
        None => 0,
    }
}

/// The slots after writing `value` to channel `ch`; out-of-range channels change nothing.
pub open spec fn with_channel(data: Seq<u8>, ch: int, value: u8) -> Seq<u8> {
    match slot_of(ch) {
        Some(i) => data.update(i, value),
        None => data,
    }
}

/// Highest-takes-precedence merge of two universes, slot by slot.
pub open spec fn htp(a: Seq<u8>, b: Seq<u8>) -> Seq<u8> {
    Seq::new(a.len(), |i: int| if a[i] >= b[i] { a[i] } else { b[i] })
}

/// A universe of all zeros.
pub open spec fn blackout() -> Seq<u8> {
    Seq::new(512, |i: int| 0u8)
}

/// The slots after loading `src`: the first `min(len, 512)` bytes are copied,
/// every later slot is zero.
pub open spec fn loaded_from(src: Seq<u8>) -> Seq<u8> {
    Seq::new(512, |i: int| if i < src.len() { src[i] } else { 0u8 })
}

/// A single 512-byte DMX universe buffer.
#[derive(Debug, Clone, Copy)]
pub struct DmxBuffer {
    data: [u8; DMX_CHANNELS],
}

impl View for DmxBuffer {
    type V = Seq<u8>;

    closed spec fn view(&self) -> Seq<u8> {
        self.data@
    }
}

impl Default for DmxBuffer {
    fn default() -> (b: Self)
        ensures
            b@ == blackout(),
    {
        let b = Self { data: [0u8; DMX_CHANNELS] };
        assert(b@ =~= blackout());
        b
    }
}

impl DmxBuffer {
    /// A buffer's view always has exactly 512 slots.
    pub proof fn lemma_len(&self)
        ensures
            self@.len() == 512,
    {
    }

    /// Set channel `ch` (1-based) to `value`; channels outside 1–512 are ignored.
    pub fn set(&mut self, ch: u16, value: u8)
        ensures
            final(self)@ == with_channel(old(self)@, ch as int, value),
    {
        if ch >= 1 && ch <= 512 {
            self.data[(ch - 1) as usize] = value;
            assert(self@ =~= with_channel(old(self)@, ch as int, value));
        }
    }

    /// Get channel `ch` (1-based); channels outside 1–512 read as 0.
    pub fn get(&self, ch: u16) -> (v: u8)
        ensures
            v == channel_value(self@, ch as int),
    {
        if ch >= 1 && ch <= 512 {
            self.data[(ch - 1) as usize]
        } else {
            0
        }
    }

    /// The raw 512 slots.
    pub fn as_bytes(&self) -> (b: &[u8; DMX_CHANNELS])
        ensures
            b@ == self@,
    {
        &self.data
    }

    /// HTP merge: keep the higher value for each channel.
    pub fn merge_htp(&mut self, other: &DmxBuffer)
        ensures
            final(self)@ == htp(old(self)@, other@),
    {
        let mut i: usize = 0;
        while i < DMX_CHANNELS
            invariant
                0 <= i <= 512,
                self@.len() == 512,
                other@.len() == 512,
                forall|j: int| 0 <= j < i ==> self@[j] == htp(old(self)@, other@)[j],
                forall|j: int| i <= j < 512 ==> self@[j] == old(self)@[j],
            decreases 512 - i,
        {
            if other.data[i] > self.data[i] {
                self.data[i] = other.data[i];
            }
            i = i + 1;
        }
        assert(self@ =~= htp(old(self)@, other@));
    }

    /// LTP merge: unconditionally overwrite every channel with `other`.
    /// Zero is a valid LTP value (explicit blackout), so no zero-suppression.
    pub fn merge_ltp(&mut self, other: &DmxBuffer)
        ensures
            final(self)@ == other@,
    {
        self.data = other.data;
    }

    /// Zero every channel.
    pub fn clear(&mut self)
        ensures
            final(self)@ == blackout(),
    {
        self.data = [0u8; DMX_CHANNELS];
        assert(self@ =~= blackout());
    }

    /// Overwrite channels from a raw slice; zeros any channels beyond the slice length.
    pub fn copy_from_slice(&mut self, src: &[u8])
        ensures
            final(self)@ == loaded_from(src@),
    {
        let n = if src.len() < DMX_CHANNELS { src.len() } else { DMX_CHANNELS };
        let mut i: usize = 0;
        while i < DMX_CHANNELS
            invariant
                0 <= i <= 512,
                n == (if src@.len() < 512 { src@.len() } else { 512 }),
                self@.len() == 512,
                forall|j: int| 0 <= j < i ==> self@[j] == loaded_from(src@)[j],
            decreases 512 - i,
        {
            if i < n {
                self.data[i] = src[i];
            } else {
                self.data[i] = 0;
            }
            i = i + 1;
        }
        assert(self@ =~= loaded_from(src@));
    }
}

/// Reading a channel gives back what was last written to it, and a write
/// leaves every other channel as it was.
pub proof fn law_read_after_write(data: Seq<u8>, ch: int, other: int, value: u8)
    requires
        data.len() == 512,
        1 <= ch <= 512,
        ch != other,
    ensures
        channel_value(with_channel(data, ch, value), ch) == value,
        channel_value(with_channel(data, ch, value), other) == channel_value(data, other),
{
}

/// HTP merging is commutative, idempotent, and never lowers a channel.
pub proof fn law_htp(a: Seq<u8>, b: Seq<u8>)
    requires
        a.len() == 512,
        b.len() == 512,
    ensures
        htp(a, b) == htp(b, a),
        htp(a, a) == a,
        forall|i: int| 0 <= i < 512 ==> htp(a, b)[i] >= a[i] && htp(a, b)[i] >= b[i],
{
    assert(htp(a, b) =~= htp(b, a));
    assert(htp(a, a) =~= a);
}

/// Manages multiple DMX universes indexed by universe number.
#[derive(Debug, Default)]
pub struct UniverseSet {
    buffers: HashMap<u16, DmxBuffer>,
}

impl View for UniverseSet {
    type V = Map<u16, DmxBuffer>;

    closed spec fn view(&self) -> Map<u16, DmxBuffer> {
        self.buffers@
    }
}

/// The slots of every universe in a set, by universe number.
pub open spec fn contents(m: Map<u16, DmxBuffer>) -> Map<u16, Seq<u8>> {
    m.map_values(|b: DmxBuffer| b@)
}

impl UniverseSet {
    /// An empty set of universes.
    pub fn new() -> (s: Self)
        ensures
            s@ == Map::<u16, DmxBuffer>::empty(),
    {
        UniverseSet { buffers: HashMap::new() }
    }

    /// The buffer of `universe`, created blacked out when missing.
    pub fn get_or_insert(&mut self, universe: u16) -> (buf: &mut DmxBuffer)
        ensures
            old(self)@.contains_key(universe) ==> *buf == old(self)@[universe],
            !old(self)@.contains_key(universe) ==> buf@ == blackout(),
            final(self)@ == old(self)@.insert(universe, *final(buf)),
    {
        self.buffers.entry(universe).or_insert(DmxBuffer::default())
    }

    /// Number of universes held.
    pub fn len(&self) -> (n: usize)
        ensures
            n == self@.dom().len(),
    {
        self.buffers.len()
    }

    /// The buffer of `universe`, if present.
    pub fn get(&self, universe: u16) -> (r: Option<&DmxBuffer>)
        ensures
            match r {
                Some(b) => self@.contains_key(universe) && *b == self@[universe],
                None => !self@.contains_key(universe),
            },
    {
        self.buffers.get(&universe)
    }

    /// Every universe with its buffer, each once, in the map's iteration order.
    pub fn universes(&self) -> (r: Vec<(u16, &DmxBuffer)>)
        ensures
            r@.len() == self@.dom().len(),
            forall|i: int|
                0 <= i < r@.len() ==> self@.contains_key(#[trigger] r@[i].0) && self@[r@[i].0]
                    == *r@[i].1,
            forall|i: int, j: int| 0 <= i < j < r@.len() ==> r@[i].0 != r@[j].0,
            forall|k: u16| self@.contains_key(k) ==> exists|i: int| 0 <= i < r@.len() && r@[i].0 == k,
    {
        let mut out: Vec<(u16, &DmxBuffer)> = Vec::new();
        let iter = self.buffers.iter();
        let ghost pairs = iter.remaining();
        assert(pairs.no_duplicates());
        for kv in it: iter
            invariant
                it.seq() == pairs,
                out@.len() == it.index(),
                forall|i: int| 0 <= i < it.index() ==> out@[i].0 == *pairs[i].0 && out@[i].1 == pairs[i].1,
        {
            let (k, v) = kv;
            out.push((*k, v));
        }
        proof {
            let v = vstd::std_specs::hash::spec_hash_map_iter(&self.buffers).remaining();
            assert(v == pairs);
            assert forall|i: int| 0 <= i < out@.len() implies self@.contains_key(#[trigger] out@[i].0)
                && self@[out@[i].0] == *out@[i].1 by {
                assert(self@.contains_key(*v[i].0));
            }
            assert forall|i: int, j: int| 0 <= i < j < out@.len() implies out@[i].0 != out@[j].0 by {
                if out@[i].0 == out@[j].0 {
                    assert(self@[*pairs[i].0] == *pairs[i].1);
                    assert(pairs[i] == pairs[j]);
                }
            }
        }
        out
    }
}

} // verus!
