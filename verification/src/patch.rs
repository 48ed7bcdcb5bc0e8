//! The patch: which fixtures the show has, under which ids, at which DMX
//! addresses.
use std::collections::HashMap;
use std::collections::hash_map::Entry;
use vstd::prelude::*;
use vstd::std_specs::iter::IteratorSpec;
use crate::gdtf::DmxChannelMap;
use crate::types::{DmxAddress, FixtureId};

verus! {

broadcast use vstd::std_specs::hash::group_hash_axioms;

/// Attribute of a fixture type, as the programmer shows it.
#[derive(Debug)]
pub struct AttributeDefinition {
    /// GDTF attribute name, e.g. "Pan", "Dimmer", "ColorAdd_R".
    pub name: String,
    /// 1-based offset from the fixture's base DMX address.
    pub dmx_offset: u16,
    /// Number of DMX bytes (1 = 8-bit, 2 = 16-bit).
    pub resolution: u8,
    pub default_value: u8,
}

/// A patched fixture instance. Its placement (position in metres, Euler
/// rotation in degrees) is kept as the bit patterns of `f32` values, which
/// only the renderer reads.
#[derive(Debug)]
pub struct FixtureInstance {
    pub id: FixtureId,
    /// Human-readable label shown in the UI.
    pub name: String,
    /// GDTF FixtureTypeId GUID, links to a loaded fixture type.
    pub fixture_type_id: String,
    /// Active DMX mode name.
    pub dmx_mode: String,
    /// Starting DMX address for this instance.
    pub address: DmxAddress,
    pub position: [u32; 3],
    pub rotation: [u32; 3],
    /// Pre-computed channel offsets for fast DMX projection.
    pub channel_map: DmxChannelMap,
}

/// Maps fixture ids to their patched instances; ids are handed out in
/// increasing order and never reused.
pub struct Patch {
    fixtures: HashMap<u32, FixtureInstance>,
    next_id: u32,
}

impl View for Patch {
    type V = Map<u32, FixtureInstance>;

    closed spec fn view(&self) -> Map<u32, FixtureInstance> {
        self.fixtures@
    }
}

impl Patch {
    /// The id the next added fixture gets.
    pub closed spec fn next(&self) -> u32 {
        self.next_id
    }

    /// Every id in use is below the next one.
    pub closed spec fn wf(&self) -> bool {
        forall|k: u32| #[trigger] self.fixtures@.contains_key(k) ==> k < self.next_id
    }

    /// An empty patch.
    pub fn new() -> (p: Self)
        ensures
            p.wf(),
            p@ == Map::<u32, FixtureInstance>::empty(),
            p.next() == 0,
    {
        Patch { fixtures: HashMap::new(), next_id: 0 }
    }

    /// Adds a fixture under a fresh id (which overwrites `fixture.id`) and
    /// returns that id.
    pub fn add(&mut self, fixture: FixtureInstance) -> (id: FixtureId)
        requires
            old(self).wf(),
            old(self).next() < u32::MAX,
        ensures
            final(self).wf(),
            id == FixtureId(old(self).next()),
            !old(self)@.contains_key(old(self).next()),
            final(self).next() == old(self).next() + 1,
            final(self)@ == old(self)@.insert(
                old(self).next(),
                FixtureInstance { id, ..fixture },
            ),
    {
        let id = FixtureId(self.next_id);
        self.next_id = self.next_id + 1;
        let mut fixture = fixture;
        fixture.id = id;
        self.fixtures.insert(id.0, fixture);
        id
    }

    /// Removes a fixture, returning it.
    pub fn remove(&mut self, id: FixtureId) -> (r: Option<FixtureInstance>)
        requires
            old(self).wf(),
        ensures
            final(self).wf(),
            final(self).next() == old(self).next(),
            final(self)@ == old(self)@.remove(id.0),
            r == (if old(self)@.contains_key(id.0) {
                Some(old(self)@[id.0])
            } else {
                None
            }),
    {
        self.fixtures.remove(&id.0)
    }

    /// The fixture with this id.
    pub fn get(&self, id: FixtureId) -> (r: Option<&FixtureInstance>)
        ensures
            r == (if self@.contains_key(id.0) {
                Some(&self@[id.0])
            } else {
                None
            }),
    {
        self.fixtures.get(&id.0)
    }

    /// The fixture with this id, for editing in place; editing cannot change its key.
    pub fn get_mut(&mut self, id: FixtureId) -> (r: Option<&mut FixtureInstance>)
        requires
            old(self).wf(),
        ensures
            final(self).wf(),
            final(self).next() == old(self).next(),
            match r {
                Some(f) => {
                    &&& old(self)@.contains_key(id.0)
                    &&& *f == old(self)@[id.0]
                    &&& final(self)@ == old(self)@.insert(id.0, *final(f))
                },
                None => !old(self)@.contains_key(id.0) && final(self)@ == old(self)@,
            },
    {
        match self.fixtures.entry(id.0) {
            Entry::Occupied(o) => Some(o.into_mut()),
            Entry::Vacant(_) => None,
        }
    }

    /// Every fixture, each once, in the map's iteration order.
    pub fn fixtures(&self) -> (r: Vec<(FixtureId, &FixtureInstance)>)
        ensures
            r@.len() == self@.dom().len(),
            forall|i: int|
                0 <= i < r@.len() ==> self@.contains_key((#[trigger] r@[i]).0.0) && self@[r@[i].0.0]
                    == *r@[i].1,
            forall|i: int, j: int| 0 <= i < j < r@.len() ==> r@[i].0 != r@[j].0,
            forall|k: u32| self@.contains_key(k) ==> exists|i: int| 0 <= i < r@.len() && r@[i].0.0 == k,
    {
        let mut out: Vec<(FixtureId, &FixtureInstance)> = Vec::new();
        let iter = self.fixtures.iter();
        let ghost pairs = iter.remaining();
        assert(pairs.no_duplicates());
        for kv in it: iter
            invariant
                it.seq() == pairs,
                out@.len() == it.index(),
                forall|i: int| 0 <= i < it.index() ==> out@[i].0.0 == *pairs[i].0 && out@[i].1 == pairs[i].1,
        {
            let (k, v) = kv;
            out.push((FixtureId(*k), v));
        }
        proof {
            let v = vstd::std_specs::hash::spec_hash_map_iter(&self.fixtures).remaining();
            assert(v == pairs);
            assert forall|i: int| 0 <= i < out@.len() implies self@.contains_key((#[trigger] out@[i]).0.0)
                && self@[out@[i].0.0] == *out@[i].1 by {
                assert(self@.contains_key(*v[i].0));
            }
            assert forall|i: int, j: int| 0 <= i < j < out@.len() implies out@[i].0 != out@[j].0 by {
                if out@[i].0 == out@[j].0 {
                    assert(self@[*pairs[i].0] == *pairs[i].1);
                    assert(pairs[i] == pairs[j]);
                }
            }
            assert forall|k: u32| self@.contains_key(k) implies exists|i: int| 0 <= i < out@.len() && out@[i].0.0 == k by {
                assert(v.contains((&k, &self@[k])));
                let i = choose|i: int| 0 <= i < v.len() && v[i] == (&k, &self@[k]);
                assert(out@[i].0.0 == k);
            }
        }
        out
    }

    /// Number of fixtures.
    pub fn len(&self) -> (n: usize)
        ensures
            n == self@.dom().len(),
    {
        self.fixtures.len()
    }

    /// Whether the patch holds no fixture.
    pub fn is_empty(&self) -> (b: bool)
        ensures
            b == (self@.dom().len() == 0),
    {
        self.fixtures.is_empty()
    }
}

/// Removing the fixture just added gives the patch back as it was.
pub proof fn law_remove_undoes_add(m: Map<u32, FixtureInstance>, k: u32, f: FixtureInstance)
    requires
        !m.contains_key(k),
    ensures
        m.insert(k, f).remove(k) == m,
{
    assert(m.insert(k, f).remove(k) =~= m);
}

} // verus!
