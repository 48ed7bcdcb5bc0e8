//! Stage capture: reading a fixture's levels back out of a DMX universe,
//! the inverse of the projection.
use vstd::prelude::*;
use crate::gdtf::DmxChannelMap;
use crate::io::{offset_fits, set_at};
use crate::projection::{has_map, hi, lo, projected, projection_fits, FixtureLevels};
use crate::engine::DmxEngine;
use crate::patch::{FixtureInstance, Patch};
use crate::projection::patch_fits;
use crate::types::{valid_channel, FixtureId};
use crate::universe::{channel_value, DmxBuffer};

verus! {

/// The raw levels read back for one fixture; `None` where its channel map
/// does not locate the attribute.
#[derive(Debug, Clone, Copy, PartialEq, Eq, Structural)]
pub struct CapturedLevels {
    pub dimmer: Option<u8>,
    /// Coarse and fine bytes as one 16-bit value (coarse 128 and fine 0 where not located).
    pub pan: u16,
    pub tilt: u16,
    pub red: Option<u8>,
    pub green: Option<u8>,
    pub blue: Option<u8>,
    pub gobo: Option<u8>,
    pub gobo_spin: Option<u8>,
}

/// The value at `base + off` where the offset is known.
pub open spec fn read_at(data: Seq<u8>, base: u16, off: Option<u16>) -> Option<u8> {
    match off {
        Some(o) => Some(channel_value(data, base + o)),
        None => None,
    }
}

/// A 16-bit level from a coarse and a fine byte.
pub open spec fn wide(msb: u8, fine: u8) -> u16 {
    (msb * 256 + fine) as u16
}

/// The levels a capture reads for a fixture at channel `base` with map `m`.
pub open spec fn captured(data: Seq<u8>, base: u16, m: DmxChannelMap) -> CapturedLevels {
    if has_map(m) {
        let pan_msb = match read_at(data, base, m.pan) { Some(v) => v, None => 128u8 };
        let pan_fine = match read_at(data, base, m.pan_fine) { Some(v) => v, None => 0u8 };
        let tilt_msb = match read_at(data, base, m.tilt) { Some(v) => v, None => 128u8 };
        let tilt_fine = match read_at(data, base, m.tilt_fine) { Some(v) => v, None => 0u8 };
        CapturedLevels {
            dimmer: read_at(data, base, m.dimmer),
            pan: wide(pan_msb, pan_fine),
            tilt: wide(tilt_msb, tilt_fine),
            red: read_at(data, base, m.red),
            green: read_at(data, base, m.green),
            blue: read_at(data, base, m.blue),
            gobo: read_at(data, base, m.gobo),
            gobo_spin: read_at(data, base, m.gobo_rotation),
        }
    } else {
        CapturedLevels {
            dimmer: Some(channel_value(data, base as int)),
            pan: wide(channel_value(data, base + 1), channel_value(data, base + 2)),
            tilt: wide(channel_value(data, base + 3), channel_value(data, base + 4)),
            red: Some(channel_value(data, base + 5)),
            green: Some(channel_value(data, base + 6)),
            blue: Some(channel_value(data, base + 7)),
            gobo: None,
            gobo_spin: None,
        }
    }
}

fn read_opt(buf: &DmxBuffer, base: u16, off: Option<u16>) -> (r: Option<u8>)
    requires
        offset_fits(base, off),
    ensures
        r == read_at(buf@, base, off),
{
    match off {
        Some(o) => Some(buf.get(base + o)),
        None => None,
    }
}

fn wide_of(msb: u8, fine: u8) -> (w: u16)
    ensures
        w == wide(msb, fine),
{
    msb as u16 * 256 + fine as u16
}

/// Reads a fixture's levels from the universe it is patched in.
pub fn capture_fixture(buf: &DmxBuffer, base: u16, map: &DmxChannelMap) -> (c: CapturedLevels)
    requires
        projection_fits(base, *map),
    ensures
        c == captured(buf@, base, *map),
{
    if map.dimmer.is_some() || map.pan.is_some() || map.tilt.is_some() {
        let pan_msb = match read_opt(buf, base, map.pan) {
            Some(v) => v,
            None => 128,
        };
        let pan_fine = match read_opt(buf, base, map.pan_fine) {
            Some(v) => v,
            None => 0,
        };
        let tilt_msb = match read_opt(buf, base, map.tilt) {
            Some(v) => v,
            None => 128,
        };
        let tilt_fine = match read_opt(buf, base, map.tilt_fine) {
            Some(v) => v,
            None => 0,
        };
        CapturedLevels {
            dimmer: read_opt(buf, base, map.dimmer),
            pan: wide_of(pan_msb, pan_fine),
            tilt: wide_of(tilt_msb, tilt_fine),
            red: read_opt(buf, base, map.red),
            green: read_opt(buf, base, map.green),
            blue: read_opt(buf, base, map.blue),
            gobo: read_opt(buf, base, map.gobo),
            gobo_spin: read_opt(buf, base, map.gobo_rotation),
        }
    } else {
        CapturedLevels {
            dimmer: Some(buf.get(base)),
            pan: wide_of(buf.get(base + 1), buf.get(base + 2)),
            tilt: wide_of(buf.get(base + 3), buf.get(base + 4)),
            red: Some(buf.get(base + 5)),
            green: Some(buf.get(base + 6)),
            blue: Some(buf.get(base + 7)),
            gobo: None,
            gobo_spin: None,
        }
    }
}

/// Capture inverts projection on the generic 8-channel layout: a fixture
/// without a channel map whose eight channels lie in the universe reads
/// back exactly the levels projected onto it.
pub proof fn law_capture_inverts_generic_projection(data: Seq<u8>, base: u16, m: DmxChannelMap, l: FixtureLevels)
    requires
        data.len() == 512,
        !has_map(m),
        1 <= base,
        base + 7 <= 512,
    ensures
        ({
            let c = captured(projected(data, base, m, l), base, m);
            &&& c.dimmer == Some(l.dimmer)
            &&& c.pan == l.pan
            &&& c.tilt == l.tilt
            &&& c.red == Some(l.red)
            &&& c.green == Some(l.green)
            &&& c.blue == Some(l.blue)
        }),
{
    let d = projected(data, base, m, l);
    assert(hi(l.pan) * 256 + lo(l.pan) == l.pan);
    assert(hi(l.tilt) * 256 + lo(l.tilt) == l.tilt);
    assert(channel_value(d, base as int) == l.dimmer);
    assert(channel_value(d, base + 1) == hi(l.pan));
    assert(channel_value(d, base + 2) == lo(l.pan));
    assert(channel_value(d, base + 3) == hi(l.tilt));
    assert(channel_value(d, base + 4) == lo(l.tilt));
    assert(channel_value(d, base + 5) == l.red);
    assert(channel_value(d, base + 6) == l.green);
    assert(channel_value(d, base + 7) == l.blue);
}

/// The offsets a channel map locates, in projection order.
pub open spec fn map_offsets(m: DmxChannelMap) -> Seq<Option<u16>> {
    seq![m.dimmer, m.pan, m.pan_fine, m.tilt, m.tilt_fine, m.red, m.green, m.blue, m.gobo, m.gobo_rotation]
}

/// Whether no two attributes of a map share an offset, and each located
/// channel lies in the universe for a fixture at `base`.
pub open spec fn map_separates(base: u16, m: DmxChannelMap) -> bool {
    &&& forall|i: int, j: int|
        0 <= i < j < 10 && (#[trigger] map_offsets(m)[i]) is Some ==> map_offsets(m)[i] != #[trigger] map_offsets(m)[j]
    &&& forall|i: int| 0 <= i < 10 ==> (#[trigger] map_offsets(m)[i] matches Some(o) ==> valid_channel(base + o))
}

/// The slots after the writes `ws` (offset from `base`, value), in order.
pub open spec fn apply_writes(d: Seq<u8>, base: u16, ws: Seq<(Option<u16>, u8)>) -> Seq<u8>
    decreases ws.len(),
{
    if ws.len() == 0 {
        d
    } else {
        set_at(apply_writes(d, base, ws.drop_last()), base, ws.last().0, ws.last().1)
    }
}

proof fn lemma_apply_writes_len(d: Seq<u8>, base: u16, ws: Seq<(Option<u16>, u8)>)
    requires
        d.len() == 512,
    ensures
        apply_writes(d, base, ws).len() == 512,
    decreases ws.len(),
{
    if ws.len() > 0 {
        lemma_apply_writes_len(d, base, ws.drop_last());
    }
}

/// A write that no later write to the same offset follows is what reads back.
proof fn lemma_last_write_reads_back(d: Seq<u8>, base: u16, ws: Seq<(Option<u16>, u8)>, k: int)
    requires
        d.len() == 512,
        0 <= k < ws.len(),
        ws[k].0 matches Some(o) && valid_channel(base + o),
        forall|j: int| k < j < ws.len() ==> ws[j].0 != ws[k].0,
    ensures
        channel_value(apply_writes(d, base, ws), base + ws[k].0.unwrap()) == ws[k].1,
    decreases ws.len(),
{
    let o = ws[k].0.unwrap();
    lemma_apply_writes_len(d, base, ws.drop_last());
    if k < ws.len() - 1 {
        let w = ws.drop_last();
        assert forall|j: int| k < j < w.len() implies w[j].0 != w[k].0 by {
            assert(w[j] == ws[j]);
        }
        lemma_last_write_reads_back(d, base, w, k);
        assert(ws.last().0 != ws[k].0);
    }
}

/// The writes a mapped projection makes, in order.
pub open spec fn projection_writes(m: DmxChannelMap, l: FixtureLevels) -> Seq<(Option<u16>, u8)> {
    seq![
        (m.dimmer, l.dimmer),
        (m.pan, hi(l.pan)),
        (m.pan_fine, lo(l.pan)),
        (m.tilt, hi(l.tilt)),
        (m.tilt_fine, lo(l.tilt)),
        (m.red, l.red),
        (m.green, l.green),
        (m.blue, l.blue),
        (m.gobo, l.gobo),
        (m.gobo_rotation, l.gobo_spin),
    ]
}

proof fn lemma_projected_writes(data: Seq<u8>, base: u16, m: DmxChannelMap, l: FixtureLevels)
    requires
        has_map(m),
    ensures
        projected(data, base, m, l) == apply_writes(data, base, projection_writes(m, l)),
{
    let ws = projection_writes(m, l);
    assert(ws.take(0) =~= Seq::<(Option<u16>, u8)>::empty());
    assert(apply_writes(data, base, ws.take(0)) == data);
    assert(ws.take(1).drop_last() =~= ws.take(0));
    assert(ws.take(1).last() == ws[0]);
    assert(apply_writes(data, base, ws.take(1)) == set_at(apply_writes(data, base, ws.take(0)), base, ws[0].0, ws[0].1));
    assert(ws.take(2).drop_last() =~= ws.take(1));
    assert(ws.take(2).last() == ws[1]);
    assert(apply_writes(data, base, ws.take(2)) == set_at(apply_writes(data, base, ws.take(1)), base, ws[1].0, ws[1].1));
    assert(ws.take(3).drop_last() =~= ws.take(2));
    assert(ws.take(3).last() == ws[2]);
    assert(apply_writes(data, base, ws.take(3)) == set_at(apply_writes(data, base, ws.take(2)), base, ws[2].0, ws[2].1));
    assert(ws.take(4).drop_last() =~= ws.take(3));
    assert(ws.take(4).last() == ws[3]);
    assert(apply_writes(data, base, ws.take(4)) == set_at(apply_writes(data, base, ws.take(3)), base, ws[3].0, ws[3].1));
    assert(ws.take(5).drop_last() =~= ws.take(4));
    assert(ws.take(5).last() == ws[4]);
    assert(apply_writes(data, base, ws.take(5)) == set_at(apply_writes(data, base, ws.take(4)), base, ws[4].0, ws[4].1));
    assert(ws.take(6).drop_last() =~= ws.take(5));
    assert(ws.take(6).last() == ws[5]);
    assert(apply_writes(data, base, ws.take(6)) == set_at(apply_writes(data, base, ws.take(5)), base, ws[5].0, ws[5].1));
    assert(ws.take(7).drop_last() =~= ws.take(6));
    assert(ws.take(7).last() == ws[6]);
    assert(apply_writes(data, base, ws.take(7)) == set_at(apply_writes(data, base, ws.take(6)), base, ws[6].0, ws[6].1));
    assert(ws.take(8).drop_last() =~= ws.take(7));
    assert(ws.take(8).last() == ws[7]);
    assert(apply_writes(data, base, ws.take(8)) == set_at(apply_writes(data, base, ws.take(7)), base, ws[7].0, ws[7].1));
    assert(ws.take(9).drop_last() =~= ws.take(8));
    assert(ws.take(9).last() == ws[8]);
    assert(apply_writes(data, base, ws.take(9)) == set_at(apply_writes(data, base, ws.take(8)), base, ws[8].0, ws[8].1));
    assert(ws.take(10).drop_last() =~= ws.take(9));
    assert(ws.take(10).last() == ws[9]);
    assert(apply_writes(data, base, ws.take(10)) == set_at(apply_writes(data, base, ws.take(9)), base, ws[9].0, ws[9].1));
    assert(ws.take(10) =~= ws);
}

proof fn lemma_mapped_reads_back(data: Seq<u8>, base: u16, m: DmxChannelMap, l: FixtureLevels, k: int)
    requires
        data.len() == 512,
        map_separates(base, m),
        0 <= k < 10,
        map_offsets(m)[k] is Some,
    ensures
        channel_value(apply_writes(data, base, projection_writes(m, l)), base + map_offsets(m)[k].unwrap())
            == projection_writes(m, l)[k].1,
{
    let ws = projection_writes(m, l);
    assert(forall|i: int| 0 <= i < 10 ==> (#[trigger] ws[i]).0 == map_offsets(m)[i]);
    assert(map_offsets(m)[k] matches Some(o) ==> valid_channel(base + o));
    assert forall|j: int| k < j < ws.len() implies ws[j].0 != ws[k].0 by {
        assert(map_offsets(m)[k] != map_offsets(m)[j]);
    }
    lemma_last_write_reads_back(data, base, ws, k);
}

/// Capture inverts projection on a mapped layout too: where no two
/// attributes share a channel and every located channel lies in the
/// universe, each located attribute reads back the level projected onto it
/// (pan and tilt where both their coarse and fine channels are located).
pub proof fn law_capture_inverts_mapped_projection(data: Seq<u8>, base: u16, m: DmxChannelMap, l: FixtureLevels)
    requires
        data.len() == 512,
        has_map(m),
        map_separates(base, m),
    ensures
        ({
            let c = captured(projected(data, base, m, l), base, m);
            &&& m.dimmer is Some ==> c.dimmer == Some(l.dimmer)
            &&& m.pan is Some && m.pan_fine is Some ==> c.pan == l.pan
            &&& m.tilt is Some && m.tilt_fine is Some ==> c.tilt == l.tilt
            &&& m.red is Some ==> c.red == Some(l.red)
            &&& m.green is Some ==> c.green == Some(l.green)
            &&& m.blue is Some ==> c.blue == Some(l.blue)
            &&& m.gobo is Some ==> c.gobo == Some(l.gobo)
            &&& m.gobo_rotation is Some ==> c.gobo_spin == Some(l.gobo_spin)
        }),
{
    lemma_projected_writes(data, base, m, l);
    if m.dimmer is Some { lemma_mapped_reads_back(data, base, m, l, 0); }
    if m.pan is Some { lemma_mapped_reads_back(data, base, m, l, 1); }
    if m.pan_fine is Some { lemma_mapped_reads_back(data, base, m, l, 2); }
    if m.tilt is Some { lemma_mapped_reads_back(data, base, m, l, 3); }
    if m.tilt_fine is Some { lemma_mapped_reads_back(data, base, m, l, 4); }
    if m.red is Some { lemma_mapped_reads_back(data, base, m, l, 5); }
    if m.green is Some { lemma_mapped_reads_back(data, base, m, l, 6); }
    if m.blue is Some { lemma_mapped_reads_back(data, base, m, l, 7); }
    if m.gobo is Some { lemma_mapped_reads_back(data, base, m, l, 8); }
    if m.gobo_rotation is Some { lemma_mapped_reads_back(data, base, m, l, 9); }
    assert(hi(l.pan) * 256 + lo(l.pan) == l.pan);
    assert(hi(l.tilt) * 256 + lo(l.tilt) == l.tilt);
}

/// What a capture of output `out` reads for fixture `f`: nothing where its
/// universe has no output yet.
pub open spec fn captured_fixture(out: Map<u16, DmxBuffer>, f: FixtureInstance) -> Option<CapturedLevels> {
    if out.contains_key(f.address.universe) {
        Some(captured(out[f.address.universe]@, f.address.channel, f.channel_map))
    } else {
        None
    }
}

/// Reads every patched fixture's levels from the engine's merged output,
/// in the patch's iteration order; each fixture appears once.
pub fn capture_stage(engine: &DmxEngine, patch: &Patch) -> (r: Vec<(FixtureId, Option<CapturedLevels>)>)
    requires
        patch_fits(patch@),
    ensures
        r@.len() == patch@.dom().len(),
        forall|i: int|
            0 <= i < r@.len() ==> patch@.contains_key((#[trigger] r@[i]).0.0) && r@[i].1
                == captured_fixture(engine.output_view(), patch@[r@[i].0.0]),
        forall|i: int, j: int| 0 <= i < j < r@.len() ==> r@[i].0 != r@[j].0,
        forall|k: u32| patch@.contains_key(k) ==> exists|i: int| 0 <= i < r@.len() && r@[i].0.0 == k,
{
    let fixtures = patch.fixtures();
    let mut out: Vec<(FixtureId, Option<CapturedLevels>)> = Vec::new();
    let mut i: usize = 0;
    while i < fixtures.len()
        invariant
            patch_fits(patch@),
            fixtures@.len() == patch@.dom().len(),
            forall|j: int|
                0 <= j < fixtures@.len() ==> patch@.contains_key((#[trigger] fixtures@[j]).0.0) && patch@[fixtures@[j].0.0]
                    == *fixtures@[j].1,
            i <= fixtures@.len(),
            out@.len() == i,
            forall|j: int| 0 <= j < i ==> (#[trigger] out@[j]).0 == fixtures@[j].0 && out@[j].1
                == captured_fixture(engine.output_view(), *fixtures@[j].1),
        decreases fixtures@.len() - i,
    {
        let (id, inst) = fixtures[i];
        assert(patch@.contains_key(fixtures@[i as int].0.0));
        let c = match engine.output_buffer(inst.address.universe) {
            Some(buf) => Some(capture_fixture(buf, inst.address.channel, &inst.channel_map)),
            None => None,
        };
        out.push((id, c));
        i = i + 1;
    }
    proof {
        assert forall|k: u32| patch@.contains_key(k) implies exists|i: int| 0 <= i < out@.len() && out@[i].0.0 == k by {
            let j = choose|j: int| 0 <= j < fixtures@.len() && fixtures@[j].0.0 == k;
            assert(out@[j].0.0 == k);
        }
        assert forall|a: int, b: int| 0 <= a < b < out@.len() implies out@[a].0 != out@[b].0 by {
            assert(out@[a].0 == fixtures@[a].0);
            assert(out@[b].0 == fixtures@[b].0);
        }
    }
    out
}

} // verus!
