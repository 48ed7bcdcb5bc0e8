//! The fixture library (loaded GDTF fixture types, keyed by fixture type
//! id) and what the patch panel does with it: checking the "add fixture"
//! form, adding the fixture, and binding imported MVR fixtures to types.
use vstd::prelude::*;
use crate::gdtf::{empty_channel_map, mode_channel_map, mode_index, DmxChannelMap, GdtfFixtureType};
use crate::mvr::MvrFixture;
use crate::patch::{FixtureInstance, Patch};
use crate::text::{decimal, parse_decimal, parse_unsigned, push_decimal, push_str, split_on, split_char, str_eq, trim, trimmed};
use crate::types::{DmxAddress, FixtureId};

verus! {

/// One loaded fixture type with the GDTF file it came from.
pub struct LibraryEntry {
    pub id: String,
    pub fixture: GdtfFixtureType,
    pub raw: Vec<u8>,
}

/// Loaded GDTF fixture types, keyed by fixture type id; the file
/// bytes are kept so that an MVR export can embed them again.
pub struct FixtureLibrary {
    entries: Vec<LibraryEntry>,
}

/// The ids of the patched fixtures whose fixture type is `type_id`.
pub open spec fn fixtures_of_type(patch: Map<u32, FixtureInstance>, type_id: Seq<char>) -> Set<u32> {
    patch.dom().filter(|k: u32| patch[k].fixture_type_id@ == type_id)
}

/// How many patched fixtures are of the fixture type `type_id`, as the
/// library table shows it in its "used" column.
pub fn type_usage(patch: &Patch, type_id: &str) -> (n: usize)
    ensures
        n == fixtures_of_type(patch@, type_id@).len(),
{
    let fixtures = patch.fixtures();
    let ghost fx = fixtures@;
    let ghost mut counted: Set<u32> = Set::empty();
    let mut n: usize = 0;
    let mut i: usize = 0;
    while i < fixtures.len()
        invariant
            fx == fixtures@,
            i <= fx.len(),
            n <= i,
            counted.finite(),
            counted.len() == n,
            forall|j: int| 0 <= j < fx.len() ==> patch@.contains_key((#[trigger] fx[j]).0.0) && patch@[fx[j].0.0] == *fx[j].1,
            forall|j: int, k: int| 0 <= j < k < fx.len() ==> fx[j].0 != fx[k].0,
            forall|k: u32| #[trigger] counted.contains(k) <==> exists|j: int|
                0 <= j < i && (#[trigger] fx[j]).0.0 == k && fx[j].1.fixture_type_id@ == type_id@,
        decreases fx.len() - i,
    {
        let (id, inst) = fixtures[i];
        if str_eq(inst.fixture_type_id.as_str(), type_id) {
            proof {
                if counted.contains(id.0) {
                    let j = choose|j: int| 0 <= j < i && (#[trigger] fx[j]).0.0 == id.0 && fx[j].1.fixture_type_id@ == type_id@;
                    assert(fx[j].0 != fx[i as int].0);
                }
                counted = counted.insert(id.0);
            }
            n = n + 1;
        }
        proof {
            assert forall|k: u32| #[trigger] counted.contains(k) <==> exists|j: int|
                0 <= j < i + 1 && (#[trigger] fx[j]).0.0 == k && fx[j].1.fixture_type_id@ == type_id@ by {
                if exists|j: int| 0 <= j < i + 1 && (#[trigger] fx[j]).0.0 == k && fx[j].1.fixture_type_id@ == type_id@ {
                    let j = choose|j: int| 0 <= j < i + 1 && (#[trigger] fx[j]).0.0 == k && fx[j].1.fixture_type_id@ == type_id@;
                    if j < i {
                        assert(fx[j].0.0 == k);
                    }
                }
            }
        }
        i = i + 1;
    }
    proof {
        assert(counted =~= fixtures_of_type(patch@, type_id@)) by {
            assert forall|k: u32| fixtures_of_type(patch@, type_id@).contains(k) implies counted.contains(k) by {
                let j = choose|j: int| 0 <= j < fx.len() && fx[j].0.0 == k;
                assert(fx[j].0.0 == k);
            }
            assert forall|k: u32| counted.contains(k) implies fixtures_of_type(patch@, type_id@).contains(k) by {
                let j = choose|j: int| 0 <= j < i && (#[trigger] fx[j]).0.0 == k && fx[j].1.fixture_type_id@ == type_id@;
                assert(patch@.contains_key(fx[j].0.0));
            }
        }
    }
    n
}

/// The position of the entry with id `id`.
pub open spec fn entry_index(es: Seq<LibraryEntry>, id: Seq<char>) -> Option<int> {
    if exists|i: int| 0 <= i < es.len() && es[i].id@ == id {
        Some(choose|i: int| 0 <= i < es.len() && es[i].id@ == id)
    } else {
        None
    }
}

impl FixtureLibrary {
    /// The entries, in load order.
    pub closed spec fn entries_view(&self) -> Seq<LibraryEntry> {
        self.entries@
    }

    /// No two entries share an id.
    pub open spec fn wf(&self) -> bool {
        forall|i: int, j: int|
            0 <= i < j < self.entries_view().len() ==> self.entries_view()[i].id@
                != self.entries_view()[j].id@
    }

    /// An empty library.
    pub fn new() -> (l: Self)
        ensures
            l.wf(),
            l.entries_view().len() == 0,
    {
        FixtureLibrary { entries: Vec::new() }
    }

    fn find(&self, id: &str) -> (r: Option<usize>)
        requires
            self.wf(),
        ensures
            match r {
                Some(i) => i < self.entries_view().len() && self.entries_view()[i as int].id@ == id@
                    && entry_index(self.entries_view(), id@) == Some(i as int),
                None => entry_index(self.entries_view(), id@) is None,
            },
    {
        let mut i: usize = 0;
        while i < self.entries.len()
            invariant
                self.wf(),
                i <= self.entries@.len(),
                forall|j: int| 0 <= j < i ==> self.entries@[j].id@ != id@,
            decreases self.entries@.len() - i,
        {
            if str_eq(self.entries[i].id.as_str(), id) {
                proof {
                    let es = self.entries@;
                    let w = choose|k: int| 0 <= k < es.len() && es[k].id@ == id@;
                    if w != i {
                        assert(es[w].id@ == es[i as int].id@);
                    }
                }
                return Some(i);
            }
            i = i + 1;
        }
        None
    }

    /// Registers a fixture type under `id` (replacing one of that id) with
    /// the file it was read from.
    pub fn insert(&mut self, id: String, fixture: GdtfFixtureType, raw: Vec<u8>)
        requires
            old(self).wf(),
        ensures
            final(self).wf(),
            entry_index(final(self).entries_view(), id@) matches Some(i) && final(self).entries_view()[i].id@
                == id@ && final(self).entries_view()[i].fixture == fixture
                && final(self).entries_view()[i].raw@ == raw@,
            forall|k: Seq<char>|
                k != id@ ==> (entry_index(final(self).entries_view(), k) is Some <==> entry_index(
                    old(self).entries_view(),
                    k,
                ) is Some),
            forall|k: Seq<char>|
                k != id@ && #[trigger] entry_index(old(self).entries_view(), k) is Some ==> final(self).entries_view()[entry_index(final(self).entries_view(), k).unwrap()]
                    == old(self).entries_view()[entry_index(old(self).entries_view(), k).unwrap()],
    {
        let ghost ids = id@;
        match self.find(id.as_str()) {
            Some(i) => {
                let ghost before = self.entries@;
                let e = LibraryEntry { id, fixture, raw };
                self.entries.set(i, e);
                proof {
                    let es = self.entries@;
                    assert(es == before.update(i as int, e));
                    assert forall|a: int, b: int| 0 <= a < b < es.len() implies es[a].id@ != es[b].id@ by {
                        if a != i && b != i {
                            assert(es[a] == before[a] && es[b] == before[b]);
                        } else if a == i {
                            assert(es[b] == before[b]);
                        } else {
                            assert(es[a] == before[a]);
                        }
                    }
                    assert(es[i as int].id@ == ids);
                    assert forall|k: Seq<char>| k != ids implies (entry_index(es, k) is Some <==> entry_index(before, k) is Some) by {
                        if exists|x: int| 0 <= x < es.len() && es[x].id@ == k {
                            let x = choose|x: int| 0 <= x < es.len() && es[x].id@ == k;
                            assert(before[x].id@ == k);
                        }
                        if exists|x: int| 0 <= x < before.len() && before[x].id@ == k {
                            let x = choose|x: int| 0 <= x < before.len() && before[x].id@ == k;
                            assert(x != i);
                            assert(es[x].id@ == k);
                        }
                    }
                    assert forall|k: Seq<char>| k != ids && #[trigger] entry_index(before, k) is Some implies es[entry_index(es, k).unwrap()] == before[entry_index(before, k).unwrap()] by {
                        let x = entry_index(before, k).unwrap();
                        let y = entry_index(es, k).unwrap();
                        assert(x != i);
                        assert(es[x].id@ == k);
                        if x != y {
                            assert(es[y].id@ == k);
                        }
                    }
                    let w = choose|x: int| 0 <= x < es.len() && es[x].id@ == ids;
                    if w != i {
                        assert(es[w].id@ == es[i as int].id@);
                    }
                }
            },
            None => {
                let ghost before = self.entries@;
                let e = LibraryEntry { id, fixture, raw };
                self.entries.push(e);
                proof {
                    let es = self.entries@;
                    let n = before.len() as int;
                    assert(es[n] == e);
                    assert forall|a: int, b: int| 0 <= a < b < es.len() implies es[a].id@ != es[b].id@ by {
                        if b == n {
                            assert(es[a] == before[a]);
                        } else {
                            assert(es[a] == before[a] && es[b] == before[b]);
                        }
                    }
                    assert forall|k: Seq<char>| k != ids implies (entry_index(es, k) is Some <==> entry_index(before, k) is Some) by {
                        if exists|x: int| 0 <= x < es.len() && es[x].id@ == k {
                            let x = choose|x: int| 0 <= x < es.len() && es[x].id@ == k;
                            assert(x != n);
                            assert(before[x].id@ == k);
                        }
                        if exists|x: int| 0 <= x < before.len() && before[x].id@ == k {
                            let x = choose|x: int| 0 <= x < before.len() && before[x].id@ == k;
                            assert(es[x].id@ == k);
                        }
                    }
                    assert forall|k: Seq<char>| k != ids && #[trigger] entry_index(before, k) is Some implies es[entry_index(es, k).unwrap()] == before[entry_index(before, k).unwrap()] by {
                        let x = entry_index(before, k).unwrap();
                        let y = entry_index(es, k).unwrap();
                        assert(es[x] == before[x]);
                        if x != y {
                            assert(es[y].id@ == k);
                        }
                    }
                    assert(es[n].id@ == ids);
                    let w = choose|x: int| 0 <= x < es.len() && es[x].id@ == ids;
                    if w != n {
                        assert(es[w].id@ == es[n].id@);
                    }
                }
            },
        }
    }

    /// The fixture type with this id.
    pub fn get(&self, id: &str) -> (r: Option<&GdtfFixtureType>)
        requires
            self.wf(),
        ensures
            match entry_index(self.entries_view(), id@) {
                Some(i) => r == Some(&self.entries_view()[i].fixture),
                None => r is None,
            },
    {
        match self.find(id) {
            Some(i) => Some(&self.entries[i].fixture),
            None => None,
        }
    }

    /// The GDTF file a fixture type was read from.
    pub fn raw_bytes(&self, id: &str) -> (r: Option<&[u8]>)
        requires
            self.wf(),
        ensures
            match entry_index(self.entries_view(), id@) {
                Some(i) => r matches Some(b) && b@ == self.entries_view()[i].raw@,
                None => r is None,
            },
    {
        match self.find(id) {
            Some(i) => Some(self.entries[i].raw.as_slice()),
            None => None,
        }
    }

    /// Every fixture type, each once, in load order.
    pub fn all(&self) -> (r: Vec<&GdtfFixtureType>)
        ensures
            r@.len() == self.entries_view().len(),
            forall|i: int| 0 <= i < r@.len() ==> *r@[i] == self.entries_view()[i].fixture,
    {
        let mut out: Vec<&GdtfFixtureType> = Vec::new();
        let mut i: usize = 0;
        while i < self.entries.len()
            invariant
                i <= self.entries@.len(),
                out@.len() == i,
                forall|j: int| 0 <= j < i ==> *out@[j] == self.entries@[j].fixture,
            decreases self.entries@.len() - i,
        {
            out.push(&self.entries[i].fixture);
            i = i + 1;
        }
        out
    }

    /// Number of fixture types.
    pub fn len(&self) -> (n: usize)
        ensures
            n == self.entries_view().len(),
    {
        self.entries.len()
    }

    /// Whether no fixture type is loaded.
    pub fn is_empty(&self) -> (b: bool)
        ensures
            b == (self.entries_view().len() == 0),
    {
        self.entries.len() == 0
    }
}

// ─── The "add fixture" form ──────────────────────────────────────────────────

/// The transient state of the patch panel's "add fixture" form.
pub struct PatchEditState {
    pub selected_type_id: String,
    pub selected_mode: String,
    pub new_name: String,
    pub universe_str: String,
    pub channel_str: String,
    pub add_error: Option<String>,
}

/// Why the form was refused.
#[derive(Debug, Clone, Copy, PartialEq, Eq, Structural)]
pub enum AddFixtureError {
    /// The universe is not a `u16`.
    UniverseNotNumber,
    /// The channel is not a `u16`.
    ChannelNotNumber,
    /// The universe is 0.
    UniverseZero,
    /// The channel is outside 1–512.
    ChannelOutOfRange,
    /// No fixture type is selected.
    NoTypeSelected,
}

impl AddFixtureError {
    /// The message the form shows.
    pub fn message(self) -> (s: String)
        ensures
            s@ == match self {
                AddFixtureError::UniverseNotNumber => "Universe must be a number (1–32767)"@,
                AddFixtureError::ChannelNotNumber => "Channel must be 1–512"@,
                AddFixtureError::UniverseZero => "Universe must be ≥ 1"@,
                AddFixtureError::ChannelOutOfRange => "Channel must be 1–512"@,
                AddFixtureError::NoTypeSelected => "No fixture type selected"@,
            },
    {
        let mut s = String::new();
        match self {
            AddFixtureError::UniverseNotNumber => push_str(&mut s, "Universe must be a number (1–32767)"),
            AddFixtureError::ChannelNotNumber => push_str(&mut s, "Channel must be 1–512"),
            AddFixtureError::UniverseZero => push_str(&mut s, "Universe must be ≥ 1"),
            AddFixtureError::ChannelOutOfRange => push_str(&mut s, "Channel must be 1–512"),
            AddFixtureError::NoTypeSelected => push_str(&mut s, "No fixture type selected"),
        }
        s
    }
}

/// The outcome of checking the form: the address and name of the fixture
/// to add, or the first problem found (universe, then channel, then type).
pub open spec fn check_add_spec(
    universe_str: Seq<char>,
    channel_str: Seq<char>,
    type_id: Seq<char>,
    new_name: Seq<char>,
    patch_len: nat,
) -> Result<(u16, u16, Seq<char>), AddFixtureError> {
    match parse_unsigned(trimmed(universe_str), 65535) {
        None => Err(AddFixtureError::UniverseNotNumber),
        Some(u) => match parse_unsigned(trimmed(channel_str), 65535) {
            None => Err(AddFixtureError::ChannelNotNumber),
            Some(c) => if u == 0 {
                Err(AddFixtureError::UniverseZero)
            } else if c == 0 || c > 512 {
                Err(AddFixtureError::ChannelOutOfRange)
            } else if type_id.len() == 0 {
                Err(AddFixtureError::NoTypeSelected)
            } else {
                Ok((
                    u as u16,
                    c as u16,
                    if trimmed(new_name).len() == 0 {
                        "Fixture "@ + decimal(patch_len + 1)
                    } else {
                        trimmed(new_name)
                    },
                ))
            },
        },
    }
}

/// Checks the form against a patch that holds `patch_len` fixtures.
pub fn check_add_fixture(edit: &PatchEditState, patch_len: usize) -> (r: Result<(u16, u16, String), AddFixtureError>)
    requires
        patch_len < usize::MAX,
    ensures
        match r {
            Ok((u, c, name)) => check_add_spec(
                edit.universe_str@,
                edit.channel_str@,
                edit.selected_type_id@,
                edit.new_name@,
                patch_len as nat,
            ) == Ok::<(u16, u16, Seq<char>), AddFixtureError>((u, c, name@)),
            Err(e) => check_add_spec(
                edit.universe_str@,
                edit.channel_str@,
                edit.selected_type_id@,
                edit.new_name@,
                patch_len as nat,
            ) == Err::<(u16, u16, Seq<char>), AddFixtureError>(e),
        },
{
    let universe = match parse_decimal(trim(edit.universe_str.as_str()), 65535) {
        Some(u) => u as u16,
        None => return Err(AddFixtureError::UniverseNotNumber),
    };
    let channel = match parse_decimal(trim(edit.channel_str.as_str()), 65535) {
        Some(c) => c as u16,
        None => return Err(AddFixtureError::ChannelNotNumber),
    };
    if universe == 0 {
        return Err(AddFixtureError::UniverseZero);
    }
    if channel == 0 || channel > 512 {
        return Err(AddFixtureError::ChannelOutOfRange);
    }
    if edit.selected_type_id.unicode_len() == 0 {
        return Err(AddFixtureError::NoTypeSelected);
    }
    let trimmed_name = trim(edit.new_name.as_str());
    let mut name = String::new();
    if trimmed_name.unicode_len() == 0 {
        push_str(&mut name, "Fixture ");
        push_decimal(&mut name, patch_len as u64 + 1);
    } else {
        push_str(&mut name, trimmed_name);
    }
    Ok((universe, channel, name))
}

/// Where a fixture added from the panel is placed: (0, 6, 0) metres, as
/// `f32` bit patterns.
pub const DEFAULT_POSITION: [u32; 3] = [0, 0x40C0_0000, 0];

/// Adds the fixture the form describes to the patch: its channel map comes
/// from the selected type and mode where the library holds the type. On
/// success the name and address fields are cleared along with any error;
/// returns the new fixture's id.
pub fn add_fixture(patch: &mut Patch, edit: &mut PatchEditState, library: &FixtureLibrary) -> (r: Result<FixtureId, AddFixtureError>)
    requires
        old(patch).wf(),
        old(patch).next() < u32::MAX,
        old(patch)@.dom().len() < usize::MAX,
        library.wf(),
    ensures
        match check_add_spec(
            old(edit).universe_str@,
            old(edit).channel_str@,
            old(edit).selected_type_id@,
            old(edit).new_name@,
            old(patch)@.dom().len(),
        ) {
            Err(e) => r == Err::<FixtureId, AddFixtureError>(e) && *final(patch) == *old(patch) && *final(edit) == *old(edit),
            Ok((u, c, name)) => {
                let map = match entry_index(library.entries_view(), old(edit).selected_type_id@) {
                    Some(i) => match mode_index(library.entries_view()[i].fixture.dmx_modes@, old(edit).selected_mode@) {
                        Some(m) => mode_channel_map(library.entries_view()[i].fixture.dmx_modes@[m]),
                        None => empty_channel_map(),
                    },
                    None => empty_channel_map(),
                };
                &&& r == Ok::<FixtureId, AddFixtureError>(FixtureId(old(patch).next()))
                &&& final(patch).wf()
                &&& final(patch).next() == old(patch).next() + 1
                &&& final(patch)@.dom() == old(patch)@.dom().insert(old(patch).next())
                &&& forall|k: u32| k != old(patch).next() && old(patch)@.contains_key(k) ==> final(patch)@[k] == old(patch)@[k]
                &&& ({
                    let f = final(patch)@[old(patch).next()];
                    &&& f.id == FixtureId(old(patch).next())
                    &&& f.name@ == name
                    &&& f.fixture_type_id@ == old(edit).selected_type_id@
                    &&& f.dmx_mode@ == old(edit).selected_mode@
                    &&& f.address == DmxAddress { universe: u, channel: c }
                    &&& f.position == DEFAULT_POSITION
                    &&& f.rotation == [0u32, 0, 0]
                    &&& f.channel_map == map
                })
                &&& final(edit).selected_type_id@ == old(edit).selected_type_id@
                &&& final(edit).selected_mode@ == old(edit).selected_mode@
                &&& final(edit).new_name@.len() == 0
                &&& final(edit).universe_str@.len() == 0
                &&& final(edit).channel_str@.len() == 0
                &&& final(edit).add_error is None
            },
        },
{
    let (universe, channel, name) = match check_add_fixture(edit, patch.len()) {
        Ok(v) => v,
        Err(e) => return Err(e),
    };
    let channel_map = match library.get(edit.selected_type_id.as_str()) {
        Some(ft) => ft.channel_map(edit.selected_mode.as_str()),
        None => DmxChannelMap::default(),
    };
    let id = patch.add(FixtureInstance {
        id: FixtureId(0),
        name,
        fixture_type_id: edit.selected_type_id.clone(),
        dmx_mode: edit.selected_mode.clone(),
        address: DmxAddress::new(universe, channel),
        position: DEFAULT_POSITION,
        rotation: [0, 0, 0],
        channel_map,
    });
    edit.new_name = String::new();
    edit.universe_str = String::new();
    edit.channel_str = String::new();
    edit.add_error = None;
    Ok(id)
}

// ─── Binding MVR fixtures ────────────────────────────────────────────────────

/// The key an embedded GDTF file is known by: its file name after the last `/`.
pub fn gdtf_key(filename: &str) -> (k: String)
    ensures
        k@ == split_on(filename@, '/').last(),
{
    let parts = split_char(filename, '/');
    parts[parts.len() - 1].clone()
}

/// The views of the embedded GDTF files after loading: each file's name and
/// the fixture type id it was loaded as (`None` where it did not load).
pub open spec fn loaded_views(v: Seq<(String, Option<String>)>) -> Seq<(Seq<char>, Option<Seq<char>>)> {
    v.map_values(|e: (String, Option<String>)| (e.0@, match e.1 { Some(t) => Some(t@), None => None }))
}

/// The fixture type an MVR fixture refers to once the embedded files are
/// loaded: the type loaded from the last file whose key is the fixture's
/// type reference, else the reference itself.
pub open spec fn resolved_type(loaded: Seq<(Seq<char>, Option<Seq<char>>)>, t: Seq<char>) -> Seq<char>
    decreases loaded.len(),
{
    if loaded.len() == 0 {
        t
    } else if loaded.last().1 is Some && split_on(loaded.last().0, '/').last() == t {
        loaded.last().1.unwrap()
    } else {
        resolved_type(loaded.drop_last(), t)
    }
}

fn resolve_type(loaded: &Vec<(String, Option<String>)>, t: &str) -> (r: String)
    ensures
        r@ == resolved_type(loaded_views(loaded@), t@),
{
    let ghost lv = loaded_views(loaded@);
    let mut i: usize = loaded.len();
    assert(lv.take(i as int) =~= lv);
    while i > 0
        invariant
            i <= loaded@.len(),
            lv == loaded_views(loaded@),
            resolved_type(lv, t@) == resolved_type(lv.take(i as int), t@),
        decreases i,
    {
        proof {
            assert(lv.take(i as int).drop_last() =~= lv.take(i - 1));
            assert(lv.take(i as int).last() == lv[i - 1]);
        }
        match &loaded[i - 1].1 {
            Some(id) => {
                let key = gdtf_key(loaded[i - 1].0.as_str());
                if str_eq(key.as_str(), t) {
                    return id.clone();
                }
            },
            None => {},
        }
        i = i - 1;
    }
    let mut r = String::new();
    push_str(&mut r, t);
    r
}

/// Whether an MVR fixture binds to a loaded fixture type.
pub open spec fn binds(f: MvrFixture, lib: Seq<LibraryEntry>, loaded: Seq<(Seq<char>, Option<Seq<char>>)>) -> bool {
    entry_index(lib, resolved_type(loaded, f.fixture_type_id@)) is Some
}

/// The positions of the fixtures that bind, among the first `k`.
pub open spec fn bound_positions(
    fs: Seq<MvrFixture>,
    lib: Seq<LibraryEntry>,
    loaded: Seq<(Seq<char>, Option<Seq<char>>)>,
    k: int,
) -> Seq<int>
    decreases k,
{
    if k <= 0 {
        Seq::empty()
    } else if binds(fs[k - 1], lib, loaded) {
        bound_positions(fs, lib, loaded, k - 1).push(k - 1)
    } else {
        bound_positions(fs, lib, loaded, k - 1)
    }
}

/// Whether `g` is what MVR fixture `f`, placed at `place`, becomes in the
/// patch under id `id`: its resolved type, and the channel map of its mode
/// in that type.
pub open spec fn bound_as(
    g: FixtureInstance,
    f: MvrFixture,
    place: ([u32; 3], [u32; 3]),
    lib: Seq<LibraryEntry>,
    loaded: Seq<(Seq<char>, Option<Seq<char>>)>,
    id: u32,
) -> bool {
    let t = resolved_type(loaded, f.fixture_type_id@);
    let e = entry_index(lib, t).unwrap();
    &&& g.id == FixtureId(id)
    &&& g.name@ == f.name@
    &&& g.fixture_type_id@ == t
    &&& g.dmx_mode@ == f.dmx_mode@
    &&& g.address == f.address
    &&& g.position == place.0
    &&& g.rotation == place.1
    &&& g.channel_map == match mode_index(lib[e].fixture.dmx_modes@, f.dmx_mode@) {
        Some(m) => mode_channel_map(lib[e].fixture.dmx_modes@[m]),
        None => empty_channel_map(),
    }
}

/// Adds the fixtures of an imported MVR scene to the patch, in order:
/// `loaded` holds each embedded GDTF file with the type id it was loaded
/// as, and `placements[i]` the position and rotation of fixture `i`. A
/// fixture whose type reference names a loaded file takes that file's type;
/// a fixture whose type is not in the library is skipped. Returns the ids
/// given.
pub fn bind_mvr_fixtures(
    patch: &mut Patch,
    library: &FixtureLibrary,
    loaded: &Vec<(String, Option<String>)>,
    fixtures: &Vec<MvrFixture>,
    placements: &Vec<([u32; 3], [u32; 3])>,
) -> (added: Vec<FixtureId>)
    requires
        old(patch).wf(),
        old(patch).next() + fixtures@.len() < u32::MAX,
        library.wf(),
        placements@.len() == fixtures@.len(),
    ensures
        final(patch).wf(),
        added@.len() == bound_positions(fixtures@, library.entries_view(), loaded_views(loaded@), fixtures@.len() as int).len(),
        final(patch).next() == old(patch).next() + added@.len(),
        forall|j: int| 0 <= j < added@.len() ==> added@[j] == FixtureId((old(patch).next() + j) as u32),
        forall|k: u32| final(patch)@.contains_key(k) <==> (old(patch)@.contains_key(k) || (old(patch).next() <= k < old(patch).next() + added@.len())),
        forall|k: u32| old(patch)@.contains_key(k) ==> final(patch)@[k] == old(patch)@[k],
        forall|j: int| 0 <= j < added@.len() ==> {
            let pos = bound_positions(fixtures@, library.entries_view(), loaded_views(loaded@), fixtures@.len() as int)[j];
            bound_as(
                #[trigger] final(patch)@[(old(patch).next() + j) as u32],
                fixtures@[pos],
                placements@[pos],
                library.entries_view(),
                loaded_views(loaded@),
                (old(patch).next() + j) as u32,
            )
        },
{
    let ghost lib = library.entries_view();
    let ghost lv = loaded_views(loaded@);
    let ghost p0 = patch@;
    let ghost n0 = patch.next();
    let mut added: Vec<FixtureId> = Vec::new();
    let mut i: usize = 0;
    while i < fixtures.len()
        invariant
            i <= fixtures@.len(),
            library.wf(),
            lib == library.entries_view(),
            lv == loaded_views(loaded@),
            placements@.len() == fixtures@.len(),
            patch.wf(),
            n0 + fixtures@.len() < u32::MAX,
            added@.len() == bound_positions(fixtures@, lib, lv, i as int).len(),
            added@.len() <= i,
            patch.next() == n0 + added@.len(),
            forall|j: int| 0 <= j < added@.len() ==> added@[j] == FixtureId((n0 + j) as u32),
            forall|k: u32| patch@.contains_key(k) <==> (p0.contains_key(k) || (n0 <= k < n0 + added@.len())),
            forall|k: u32| p0.contains_key(k) ==> patch@[k] == p0[k],
            forall|j: int| 0 <= j < added@.len() ==> {
                let pos = bound_positions(fixtures@, lib, lv, i as int)[j];
                bound_as(#[trigger] patch@[(n0 + j) as u32], fixtures@[pos], placements@[pos], lib, lv, (n0 + j) as u32)
            },
        decreases fixtures@.len() - i,
    {
        let f = &fixtures[i];
        let type_id = resolve_type(loaded, f.fixture_type_id.as_str());
        let ghost bp = bound_positions(fixtures@, lib, lv, i as int);
        match library.get(type_id.as_str()) {
            Some(ft) => {
                let map = ft.channel_map(f.dmx_mode.as_str());
                let inst = FixtureInstance {
                    id: FixtureId(0),
                    name: f.name.clone(),
                    fixture_type_id: type_id,
                    dmx_mode: f.dmx_mode.clone(),
                    address: f.address,
                    position: placements[i].0,
                    rotation: placements[i].1,
                    channel_map: map,
                };
                let ghost before = patch@;
                let id = patch.add(inst);
                added.push(id);
                proof {
                    let bp1 = bound_positions(fixtures@, lib, lv, i + 1);
                    assert(bp1 == bp.push(i as int));
                    assert forall|j: int| 0 <= j < added@.len() implies {
                        let pos = bp1[j];
                        bound_as(#[trigger] patch@[(n0 + j) as u32], fixtures@[pos], placements@[pos], lib, lv, (n0 + j) as u32)
                    } by {
                        if j < added@.len() - 1 {
                            assert(bp1[j] == bp[j]);
                            assert(patch@[(n0 + j) as u32] == before[(n0 + j) as u32]);
                        } else {
                            assert((n0 + j) as u32 == n0 + bp.len());
                        }
                    }
                }
            },
            None => {
                proof {
                    assert(bound_positions(fixtures@, lib, lv, i + 1) == bp);
                }
            },
        }
        i = i + 1;
    }
    added
}

// ─── Panel helpers ───────────────────────────────────────────────────────────

/// The main modes of the application.
#[derive(Debug, Clone, Copy, PartialEq, Eq, Structural)]
pub enum AppMode {
    Setup,
    Patch,
    Program,
    Run,
}

impl AppMode {
    /// The name shown on the mode tab.
    pub fn as_str(self) -> (s: &'static str)
        ensures
            s@ == match self {
                AppMode::Setup => "Setup"@,
                AppMode::Patch => "Patch"@,
                AppMode::Program => "Program"@,
                AppMode::Run => "Run"@,
            },
    {
        match self {
            AppMode::Setup => "Setup",
            AppMode::Patch => "Patch",
            AppMode::Program => "Program",
            AppMode::Run => "Run",
        }
    }
}

impl Default for AppMode {
    fn default() -> (m: Self)
        ensures
            m == AppMode::Program,
    {
        AppMode::Program
    }
}

/// The panels that can be detached or minimised.
#[derive(Debug, Clone, Copy, PartialEq, Eq, Structural)]
pub enum PanelKind {
    Programmer,
    Patch,
    Library,
    Io,
}

/// The first `max` characters of `s` (all of it where it is shorter).
pub fn truncate(s: &str, max: usize) -> (r: &str)
    ensures
        r@ == (if s@.len() > max { s@.subrange(0, max as int) } else { s@ }),
{
    let n = s.unicode_len();
    if n > max {
        s.substring_char(0, max)
    } else {
        s
    }
}

} // verus!
