//! Projection of attribute levels onto DMX channels: each fixture's levels
//! go to the slots its channel map names, or to the generic 8-channel
//! layout (dimmer, pan, pan fine, tilt, tilt fine, red, green, blue) where
//! the map locates neither dimmer, pan nor tilt.
use vstd::prelude::*;
use crate::engine::{DmxEngine, DmxSource, MergeStrategy};
use crate::gdtf::DmxChannelMap;
use crate::io::{offset_fits, set_at};
use crate::patch::{FixtureInstance, Patch};
use crate::types::FixtureId;
use crate::universe::{blackout, contents, with_channel, DmxBuffer, UniverseSet};

verus! {

/// The DMX levels of one fixture: 8-bit dimmer, colour and gobo values, and
/// 16-bit pan and tilt.
#[derive(Debug, Clone, Copy, PartialEq, Eq, Structural)]
pub struct FixtureLevels {
    pub dimmer: u8,
    pub pan: u16,
    pub tilt: u16,
    pub red: u8,
    pub green: u8,
    pub blue: u8,
    pub gobo: u8,
    pub gobo_spin: u8,
}

/// Whether the map locates the dimmer, pan or tilt.
pub open spec fn has_map(m: DmxChannelMap) -> bool {
    m.dimmer is Some || m.pan is Some || m.tilt is Some
}

/// The high byte of a 16-bit level.
pub open spec fn hi(v: u16) -> u8 {
    (v / 256) as u8
}

/// The low byte of a 16-bit level.
pub open spec fn lo(v: u16) -> u8 {
    (v % 256) as u8
}

/// Whether a fixture at channel `base` with map `m` only writes channel
/// numbers that a `u16` holds.
pub open spec fn projection_fits(base: u16, m: DmxChannelMap) -> bool {
    if has_map(m) {
        &&& offset_fits(base, m.dimmer)
        &&& offset_fits(base, m.pan)
        &&& offset_fits(base, m.pan_fine)
        &&& offset_fits(base, m.tilt)
        &&& offset_fits(base, m.tilt_fine)
        &&& offset_fits(base, m.red)
        &&& offset_fits(base, m.green)
        &&& offset_fits(base, m.blue)
        &&& offset_fits(base, m.gobo)
        &&& offset_fits(base, m.gobo_rotation)
    } else {
        base + 7 <= u16::MAX
    }
}

/// The slots after projecting levels `l` for a fixture at channel `base`.
pub open spec fn projected(data: Seq<u8>, base: u16, m: DmxChannelMap, l: FixtureLevels) -> Seq<u8> {
    if has_map(m) {
        let d1 = set_at(data, base, m.dimmer, l.dimmer);
        let d2 = set_at(d1, base, m.pan, hi(l.pan));
        let d3 = set_at(d2, base, m.pan_fine, lo(l.pan));
        let d4 = set_at(d3, base, m.tilt, hi(l.tilt));
        let d5 = set_at(d4, base, m.tilt_fine, lo(l.tilt));
        let d6 = set_at(d5, base, m.red, l.red);
        let d7 = set_at(d6, base, m.green, l.green);
        let d8 = set_at(d7, base, m.blue, l.blue);
        let d9 = set_at(d8, base, m.gobo, l.gobo);
        set_at(d9, base, m.gobo_rotation, l.gobo_spin)
    } else {
        let d1 = with_channel(data, base as int, l.dimmer);
        let d2 = with_channel(d1, base + 1, hi(l.pan));
        let d3 = with_channel(d2, base + 2, lo(l.pan));
        let d4 = with_channel(d3, base + 3, hi(l.tilt));
        let d5 = with_channel(d4, base + 4, lo(l.tilt));
        let d6 = with_channel(d5, base + 5, l.red);
        let d7 = with_channel(d6, base + 6, l.green);
        with_channel(d7, base + 7, l.blue)
    }
}

fn set_opt(buf: &mut DmxBuffer, base: u16, off: Option<u16>, v: u8)
    requires
        offset_fits(base, off),
    ensures
        final(buf)@ == set_at(old(buf)@, base, off, v),
{
    match off {
        Some(o) => buf.set(base + o, v),
        None => {},
    }
}

/// Writes a fixture's levels into its universe buffer.
pub fn project_fixture(buf: &mut DmxBuffer, base: u16, map: &DmxChannelMap, levels: &FixtureLevels)
    requires
        projection_fits(base, *map),
    ensures
        final(buf)@ == projected(old(buf)@, base, *map, *levels),
{
    let pan_hi = (levels.pan / 256) as u8;
    let pan_lo = (levels.pan % 256) as u8;
    let tilt_hi = (levels.tilt / 256) as u8;
    let tilt_lo = (levels.tilt % 256) as u8;
    if map.dimmer.is_some() || map.pan.is_some() || map.tilt.is_some() {
        set_opt(buf, base, map.dimmer, levels.dimmer);
        set_opt(buf, base, map.pan, pan_hi);
        set_opt(buf, base, map.pan_fine, pan_lo);
        set_opt(buf, base, map.tilt, tilt_hi);
        set_opt(buf, base, map.tilt_fine, tilt_lo);
        set_opt(buf, base, map.red, levels.red);
        set_opt(buf, base, map.green, levels.green);
        set_opt(buf, base, map.blue, levels.blue);
        set_opt(buf, base, map.gobo, levels.gobo);
        set_opt(buf, base, map.gobo_rotation, levels.gobo_spin);
    } else {
        buf.set(base, levels.dimmer);
        buf.set(base + 1, pan_hi);
        buf.set(base + 2, pan_lo);
        buf.set(base + 3, tilt_hi);
        buf.set(base + 4, tilt_lo);
        buf.set(base + 5, levels.red);
        buf.set(base + 6, levels.green);
        buf.set(base + 7, levels.blue);
    }
}

/// The universes after projecting `l` for one fixture.
pub open spec fn project_step(c: Map<u16, Seq<u8>>, f: FixtureInstance, l: FixtureLevels) -> Map<u16, Seq<u8>> {
    let u = f.address.universe;
    let cur = if c.contains_key(u) { c[u] } else { blackout() };
    c.insert(u, projected(cur, f.address.channel, f.channel_map, l))
}

/// The universes after projecting `l` for the first `k` fixtures of `fx`, in order.
#[verifier::opaque]
pub open spec fn project_fold(c: Map<u16, Seq<u8>>, fx: Seq<FixtureInstance>, l: FixtureLevels, k: int) -> Map<u16, Seq<u8>>
    decreases k,
{
    if k <= 0 {
        c
    } else {
        project_step(project_fold(c, fx, l, k - 1), fx[k - 1], l)
    }
}

/// Whether every fixture of `fx` projects within channel numbers a `u16` holds.
pub open spec fn all_fit(fx: Seq<FixtureInstance>) -> bool {
    forall|i: int| 0 <= i < fx.len() ==> projection_fits((#[trigger] fx[i]).address.channel, fx[i].channel_map)
}

/// The fixtures of a listing, without their ids.
pub open spec fn listed(fx: Seq<(FixtureId, &FixtureInstance)>) -> Seq<FixtureInstance> {
    fx.map_values(|p: (FixtureId, &FixtureInstance)| *p.1)
}

/// Projects `levels` for each fixture of `fixtures`, in order, creating
/// universes (blacked out) as needed.
pub fn project_all(set: &mut UniverseSet, fixtures: &Vec<(FixtureId, &FixtureInstance)>, levels: &FixtureLevels)
    requires
        all_fit(listed(fixtures@)),
    ensures
        contents(final(set)@) == project_fold(contents(old(set)@), listed(fixtures@), *levels, fixtures@.len() as int),
{
    let ghost fx = listed(fixtures@);
    let mut i: usize = 0;
    proof {
        reveal(project_fold);
    }
    while i < fixtures.len()
        invariant
            fx == listed(fixtures@),
            all_fit(fx),
            i <= fixtures@.len(),
            contents(set@) == project_fold(contents(old(set)@), fx, *levels, i as int),
        decreases fixtures@.len() - i,
    {
        let inst = fixtures[i].1;
        assert(*inst == fx[i as int]);
        let ghost before = set@;
        let buf = set.get_or_insert(inst.address.universe);
        project_fixture(buf, inst.address.channel, &inst.channel_map, levels);
        proof {
            let u = inst.address.universe;
            let c = contents(before);
            assert(before.contains_key(u) ==> c[u] == before[u]@);
            assert(contents(set@) =~= project_step(c, *inst, *levels));
            reveal(project_fold);
        }
        i = i + 1;
    }
}

/// Whether `fx` lists the fixtures of map `m`, each once.
#[verifier::opaque]
pub open spec fn enumerates(m: Map<u32, FixtureInstance>, fx: Seq<(FixtureId, &FixtureInstance)>) -> bool {
    &&& fx.len() == m.dom().len()
    &&& forall|i: int| 0 <= i < fx.len() ==> m.contains_key((#[trigger] fx[i]).0.0) && m[fx[i].0.0] == *fx[i].1
    &&& forall|i: int, j: int| 0 <= i < j < fx.len() ==> fx[i].0 != fx[j].0
    &&& forall|k: u32| m.contains_key(k) ==> exists|i: int| 0 <= i < fx.len() && fx[i].0.0 == k
}

/// Whether every fixture of a patch projects within channel numbers a `u16` holds.
pub open spec fn patch_fits(m: Map<u32, FixtureInstance>) -> bool {
    forall|k: u32| m.contains_key(k) ==> projection_fits(#[trigger] m[k].address.channel, m[k].channel_map)
}

/// Writes the programmer's levels for every patched fixture into the
/// engine's "programmer" source (priority 200, LTP, created where missing),
/// in the patch's iteration order, which lists each fixture once.
pub fn programmer_to_dmx(engine: &mut DmxEngine, patch: &Patch, levels: &FixtureLevels)
    requires
        patch_fits(patch@),
    ensures
        final(engine).output_view() == old(engine).output_view(),
        final(engine).cached_ids() == old(engine).cached_ids(),
        final(engine).is_dirty(),
        exists|a: DmxSource, b: DmxSource, fx: Seq<(FixtureId, &FixtureInstance)>|
            #![trigger crate::engine::source_lookup(old(engine).sources_view(), final(engine).sources_view(), "programmer"@, 200, MergeStrategy::Ltp, a, b), enumerates(patch@, fx)]
            crate::engine::source_lookup(
                old(engine).sources_view(),
                final(engine).sources_view(),
                "programmer"@,
                200,
                MergeStrategy::Ltp,
                a,
                b,
            ) && b.name == a.name && b.priority == a.priority && b.strategy == a.strategy
                && enumerates(patch@, fx)
                && contents(b.universes@) == project_fold(contents(a.universes@), listed(fx), *levels, fx.len() as int),
{
    let fixtures = patch.fixtures();
    proof {
        let fx = listed(fixtures@);
        assert forall|i: int| 0 <= i < fx.len() implies projection_fits((#[trigger] fx[i]).address.channel, fx[i].channel_map) by {
            assert(patch@.contains_key(fixtures@[i].0.0));
        }
        assert(enumerates(patch@, fixtures@)) by {
            reveal(enumerates);
        }
    }
    let src = engine.get_or_add_source("programmer", 200, MergeStrategy::Ltp);
    project_all(&mut src.universes, &fixtures, levels);
}

/// Writes one fixture's levels into `universes`, where the patch holds it.
pub fn write_fixture_levels(universes: &mut UniverseSet, patch: &Patch, id: FixtureId, levels: &FixtureLevels)
    requires
        patch_fits(patch@),
    ensures
        contents(final(universes)@) == (if patch@.contains_key(id.0) {
            project_step(contents(old(universes)@), patch@[id.0], *levels)
        } else {
            contents(old(universes)@)
        }),
{
    let inst = match patch.get(id) {
        Some(inst) => inst,
        None => return,
    };
    let ghost before = universes@;
    let buf = universes.get_or_insert(inst.address.universe);
    project_fixture(buf, inst.address.channel, &inst.channel_map, levels);
    proof {
        let u = inst.address.universe;
        let c = contents(before);
        assert(before.contains_key(u) ==> c[u] == before[u]@);
        assert(contents(universes@) =~= project_step(c, *inst, *levels));
    }
}

/// Writes one fixture's cue levels into the engine source `source_name`
/// (created with `priority` and LTP where missing), where the patch holds
/// the fixture.
pub fn write_fixture_cue_values(
    engine: &mut DmxEngine,
    source_name: &str,
    priority: u8,
    id: FixtureId,
    levels: &FixtureLevels,
    patch: &Patch,
)
    requires
        patch_fits(patch@),
    ensures
        final(engine).output_view() == old(engine).output_view(),
        final(engine).cached_ids() == old(engine).cached_ids(),
        final(engine).is_dirty(),
        exists|a: DmxSource, b: DmxSource|
            #![trigger crate::engine::source_lookup(old(engine).sources_view(), final(engine).sources_view(), source_name@, priority, MergeStrategy::Ltp, a, b)]
            crate::engine::source_lookup(
                old(engine).sources_view(),
                final(engine).sources_view(),
                source_name@,
                priority,
                MergeStrategy::Ltp,
                a,
                b,
            ) && b.name == a.name && b.priority == a.priority && b.strategy == a.strategy
                && contents(b.universes@) == (if patch@.contains_key(id.0) {
                project_step(contents(a.universes@), patch@[id.0], *levels)
            } else {
                contents(a.universes@)
            }),
{
    let src = engine.get_or_add_source(source_name, priority, MergeStrategy::Ltp);
    write_fixture_levels(&mut src.universes, patch, id, levels);
}

/// The universes after writing, in order, the first `k` entries of a cue
/// snapshot (fixture and levels) for the fixtures that the patch holds.
pub open spec fn cue_fold(
    c: Map<u16, Seq<u8>>,
    patch: Map<u32, FixtureInstance>,
    snap: Seq<(FixtureId, FixtureLevels)>,
    k: int,
) -> Map<u16, Seq<u8>>
    decreases k,
{
    if k <= 0 {
        c
    } else {
        let prev = cue_fold(c, patch, snap, k - 1);
        let id = snap[k - 1].0;
        if patch.contains_key(id.0) {
            project_step(prev, patch[id.0], snap[k - 1].1)
        } else {
            prev
        }
    }
}

/// Writes the levels of a cue snapshot into the engine's "cue_playback"
/// source (priority 150, LTP, created where missing), entry by entry, for
/// the fixtures that the patch holds.
pub fn cue_levels_to_dmx(engine: &mut DmxEngine, snapshot: &Vec<(FixtureId, FixtureLevels)>, patch: &Patch)
    requires
        patch_fits(patch@),
    ensures
        final(engine).output_view() == old(engine).output_view(),
        final(engine).cached_ids() == old(engine).cached_ids(),
        final(engine).is_dirty(),
        exists|a: DmxSource, b: DmxSource|
            #![trigger crate::engine::source_lookup(old(engine).sources_view(), final(engine).sources_view(), "cue_playback"@, 150, MergeStrategy::Ltp, a, b)]
            crate::engine::source_lookup(
                old(engine).sources_view(),
                final(engine).sources_view(),
                "cue_playback"@,
                150,
                MergeStrategy::Ltp,
                a,
                b,
            ) && b.name == a.name && b.priority == a.priority && b.strategy == a.strategy
                && contents(b.universes@) == cue_fold(contents(a.universes@), patch@, snapshot@, snapshot@.len() as int),
{
    let src = engine.get_or_add_source("cue_playback", 150, MergeStrategy::Ltp);
    let ghost a = *src;
    let mut i: usize = 0;
    while i < snapshot.len()
        invariant
            i <= snapshot@.len(),
            patch_fits(patch@),
            src.name == a.name,
            src.priority == a.priority,
            src.strategy == a.strategy,
            contents(src.universes@) == cue_fold(contents(a.universes@), patch@, snapshot@, i as int),
        decreases snapshot@.len() - i,
    {
        let (id, levels) = snapshot[i];
        write_fixture_levels(&mut src.universes, patch, id, &levels);
        i = i + 1;
    }
}

} // verus!
