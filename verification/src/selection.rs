//! What the patch panel does besides drawing: listing fixtures by id,
//! selecting rows (plain, Ctrl and Shift clicks), the labels of a row, and
//! keeping the "add fixture" type and mode on an existing choice.
use std::collections::HashSet;
use vstd::prelude::*;
use vstd::std_specs::iter::IteratorSpec;
use crate::gdtf::DmxMode;
use crate::library::{entry_index, FixtureLibrary, LibraryEntry, PatchEditState};
use crate::patch::{FixtureInstance, Patch};
use crate::text::{decimal, push_char, push_decimal, push_str};
use crate::types::{DmxAddress, FixtureId};

verus! {

broadcast use vstd::std_specs::hash::group_hash_axioms;

/// Whether `ids` is strictly increasing.
pub open spec fn strictly_increasing(ids: Seq<FixtureId>) -> bool {
    forall|i: int, j: int| 0 <= i < j < ids.len() ==> (#[trigger] ids[i]).0 < (#[trigger] ids[j]).0
}

/// The ids of a patch's fixtures in increasing order.
pub fn sorted_ids(patch: &Patch) -> (r: Vec<FixtureId>)
    ensures
        strictly_increasing(r@),
        forall|k: u32| patch@.contains_key(k) <==> r@.contains(FixtureId(k)),
{
    let all = patch.fixtures();
    let mut out: Vec<FixtureId> = Vec::new();
    let mut i: usize = 0;
    while i < all.len()
        invariant
            i <= all@.len(),
            forall|j: int| 0 <= j < all@.len() ==> patch@.contains_key((#[trigger] all@[j]).0.0),
            forall|a: int, b: int| 0 <= a < b < all@.len() ==> all@[a].0 != all@[b].0,
            forall|k: u32| patch@.contains_key(k) ==> exists|j: int| 0 <= j < all@.len() && all@[j].0.0 == k,
            strictly_increasing(out@),
            forall|x: FixtureId| out@.contains(x) <==> exists|j: int| 0 <= j < i && all@[j].0 == x,
        decreases all@.len() - i,
    {
        let id = all[i].0;
        // Insert `id` at its place.
        let mut pos: usize = 0;
        while pos < out.len() && out[pos].0 < id.0
            invariant
                pos <= out@.len(),
                forall|j: int| 0 <= j < pos ==> (#[trigger] out@[j]).0 < id.0,
            decreases out@.len() - pos,
        {
            pos = pos + 1;
        }
        proof {
            assert forall|j: int| 0 <= j < out@.len() implies (#[trigger] out@[j]) != id by {
                if out@[j] == id {
                    assert(out@.contains(out@[j]));
                    let w = choose|w: int| 0 <= w < i && all@[w].0 == out@[j];
                    assert(all@[w].0 == all@[i as int].0);
                }
            }
        }
        let ghost before = out@;
        out.insert(pos, id);
        proof {
            assert(out@ =~= before.insert(pos as int, id));
            if pos < before.len() {
                assert(before[pos as int].0 >= id.0);
                assert(before[pos as int] != id);
            }
            assert forall|a: int, b: int| 0 <= a < b < out@.len() implies (#[trigger] out@[a]).0 < (#[trigger] out@[b]).0 by {
                if b < pos {
                    assert(out@[a] == before[a] && out@[b] == before[b]);
                } else if b == pos {
                    assert(out@[a] == before[a]);
                } else if a < pos {
                    assert(out@[a] == before[a] && out@[b] == before[b - 1]);
                    assert(before[pos as int].0 > id.0 || before[pos as int].0 >= id.0);
                    if b - 1 > pos {
                        assert(before[pos as int].0 < before[b - 1].0);
                    }
                } else if a == pos {
                    assert(out@[b] == before[b - 1]);
                    if b - 1 > pos {
                        assert(before[pos as int].0 < before[b - 1].0);
                    }
                } else {
                    assert(out@[a] == before[a - 1] && out@[b] == before[b - 1]);
                }
            }
            assert forall|x: FixtureId| out@.contains(x) <==> exists|j: int| 0 <= j < i + 1 && all@[j].0 == x by {
                if out@.contains(x) {
                    let k = choose|k: int| 0 <= k < out@.len() && out@[k] == x;
                    if k < pos {
                        assert(before[k] == x);
                        assert(before.contains(x));
                    } else if k > pos {
                        assert(before[k - 1] == x);
                        assert(before.contains(x));
                    } else {
                        assert(all@[i as int].0 == x);
                    }
                }
                if exists|j: int| 0 <= j < i + 1 && all@[j].0 == x {
                    let j = choose|j: int| 0 <= j < i + 1 && all@[j].0 == x;
                    if j < i {
                        assert(before.contains(x));
                        let k = choose|k: int| 0 <= k < before.len() && before[k] == x;
                        if k < pos {
                            assert(out@[k] == x);
                        } else {
                            assert(out@[k + 1] == x);
                        }
                    } else {
                        assert(out@[pos as int] == x);
                    }
                }
            }
        }
        i = i + 1;
    }
    proof {
        assert forall|k: u32| patch@.contains_key(k) <==> out@.contains(FixtureId(k)) by {
            if patch@.contains_key(k) {
                let j = choose|j: int| 0 <= j < all@.len() && all@[j].0.0 == k;
                assert(all@[j].0 == FixtureId(k));
            }
            if out@.contains(FixtureId(k)) {
                let j = choose|j: int| 0 <= j < all@.len() && all@[j].0 == FixtureId(k);
                assert(patch@.contains_key(all@[j].0.0));
            }
        }
    }
    out
}

/// The selected fixtures of the patch panel.
pub struct PatchSelection {
    pub selected_ids: HashSet<u32>,
}

/// The selection after a click on row `i` of `rows`: Ctrl toggles the row
/// (and anchors it when it becomes selected), Shift adds the rows between
/// the anchor and the clicked one (or just the clicked one where the anchor
/// is not listed), a plain click selects only the row and anchors it.
pub open spec fn click_selection(sel: Set<u32>, anchor: Option<FixtureId>, rows: Seq<FixtureId>, i: int, ctrl: bool, shift: bool) -> Set<u32> {
    let id = rows[i].0;
    if ctrl {
        if sel.contains(id) { sel.remove(id) } else { sel.insert(id) }
    } else if shift {
        match anchor {
            Some(a) => if exists|k: int| 0 <= k < rows.len() && rows[k] == a {
                let k = choose|k: int| 0 <= k < rows.len() && rows[k] == a && forall|j: int| 0 <= j < k ==> rows[j] != a;
                let (lo, hi) = if k <= i { (k, i) } else { (i, k) };
                sel.union(Set::new(|x: u32| exists|j: int| lo <= j <= hi && rows[j].0 == x))
            } else {
                sel.insert(id)
            },
            None => sel.insert(id),
        }
    } else {
        Set::empty().insert(id)
    }
}

/// The anchor after that click.
pub open spec fn click_anchor(sel: Set<u32>, anchor: Option<FixtureId>, rows: Seq<FixtureId>, i: int, ctrl: bool, shift: bool) -> Option<FixtureId> {
    if ctrl {
        if sel.contains(rows[i].0) { anchor } else { Some(rows[i]) }
    } else if shift {
        anchor
    } else {
        Some(rows[i])
    }
}

/// Range selection: after a plain click on row `a`, a Shift click on row
/// `b` selects exactly the rows from `a` to `b`, both included (the rows
/// listing each fixture once, as the patch panel's do).
pub proof fn law_shift_click_selects_range(sel: Set<u32>, anchor: Option<FixtureId>, rows: Seq<FixtureId>, a: int, b: int)
    requires
        0 <= a < rows.len(),
        0 <= b < rows.len(),
        forall|i: int, j: int| 0 <= i < j < rows.len() ==> rows[i] != rows[j],
    ensures
        ({
            let s1 = click_selection(sel, anchor, rows, a, false, false);
            let an1 = click_anchor(sel, anchor, rows, a, false, false);
            let lo = if a <= b { a } else { b };
            let hi = if a <= b { b } else { a };
            click_selection(s1, an1, rows, b, false, true) == Set::new(
                |x: u32| exists|j: int| lo <= j <= hi && rows[j].0 == x,
            )
        }),
{
    let s1 = click_selection(sel, anchor, rows, a, false, false);
    let an1 = click_anchor(sel, anchor, rows, a, false, false);
    assert(an1 == Some(rows[a]));
    assert(s1 == Set::<u32>::empty().insert(rows[a].0));
    assert(exists|k: int| 0 <= k < rows.len() && rows[k] == rows[a]);
    let k = choose|k: int| 0 <= k < rows.len() && rows[k] == rows[a] && forall|j: int| 0 <= j < k ==> rows[j] != rows[a];
    assert(0 <= a < rows.len() && rows[a] == rows[a] && forall|j: int| 0 <= j < a ==> rows[j] != rows[a]);
    assert(k == a) by {
        if k != a {
            if k < a {
                assert(rows[k] != rows[a]);
            } else {
                assert(rows[a] != rows[k]);
            }
        }
    }
    let lo = if a <= b { a } else { b };
    let hi = if a <= b { b } else { a };
    let range = Set::new(|x: u32| exists|j: int| lo <= j <= hi && rows[j].0 == x);
    assert(range.contains(rows[a].0)) by {
        assert(lo <= a <= hi && rows[a].0 == rows[a].0);
    }
    assert(s1.union(range) =~= range);
}

/// Applies a click on row `i`.
pub fn click_row(sel: &mut PatchSelection, anchor: &mut Option<FixtureId>, rows: &Vec<FixtureId>, i: usize, ctrl: bool, shift: bool)
    requires
        i < rows@.len(),
    ensures
        final(sel).selected_ids@ == click_selection(old(sel).selected_ids@, *old(anchor), rows@, i as int, ctrl, shift),
        *final(anchor) == click_anchor(old(sel).selected_ids@, *old(anchor), rows@, i as int, ctrl, shift),
{
    let id = rows[i];
    if ctrl {
        if sel.selected_ids.contains(&id.0) {
            sel.selected_ids.remove(&id.0);
        } else {
            sel.selected_ids.insert(id.0);
            *anchor = Some(id);
        }
    } else if shift {
        match *anchor {
            Some(a) => {
                let mut k: usize = 0;
                while k < rows.len() && rows[k] != a
                    invariant
                        k <= rows@.len(),
                        forall|j: int| 0 <= j < k ==> rows@[j] != a,
                    decreases rows@.len() - k,
                {
                    k = k + 1;
                }
                if k < rows.len() {
                    proof {
                        let w = choose|w: int| 0 <= w < rows@.len() && rows@[w] == a && forall|j: int| 0 <= j < w ==> rows@[j] != a;
                        assert(w == k) by {
                            if w < k {
                                assert(rows@[w] != a);
                            }
                            if k < w {
                                assert(rows@[k as int] != a);
                            }
                        }
                    }
                    let (lo, hi) = if k <= i {
                        (k, i)
                    } else {
                        (i, k)
                    };
                    let ghost s0 = sel.selected_ids@;
                    let mut j = lo;
                    while j <= hi
                        invariant
                            lo <= j <= hi + 1,
                            hi < rows.len(),
                            sel.selected_ids@ == s0.union(Set::new(|x: u32| exists|m: int| lo <= m < j && rows@[m].0 == x)),
                        decreases hi + 1 - j,
                    {
                        sel.selected_ids.insert(rows[j].0);
                        proof {
                            let prev = Set::new(|x: u32| exists|m: int| lo <= m < j && rows@[m].0 == x);
                            let next = Set::new(|x: u32| exists|m: int| lo <= m < j + 1 && rows@[m].0 == x);
                            assert(next =~= prev.insert(rows@[j as int].0)) by {
                                assert forall|x: u32| next.contains(x) implies prev.insert(rows@[j as int].0).contains(x) by {
                                    let m = choose|m: int| lo <= m < j + 1 && rows@[m].0 == x;
                                    if m < j {
                                        assert(prev.contains(x));
                                    }
                                }
                                assert forall|x: u32| prev.insert(rows@[j as int].0).contains(x) implies next.contains(x) by {
                                    if x != rows@[j as int].0 {
                                        let m = choose|m: int| lo <= m < j && rows@[m].0 == x;
                                        assert(lo <= m < j + 1 && rows@[m].0 == x);
                                    } else {
                                        assert(lo <= j < j + 1 && rows@[j as int].0 == x);
                                    }
                                }
                            }
                            assert(sel.selected_ids@ =~= s0.union(next));
                        }
                        j = j + 1;
                    }
                    proof {
                        let got = Set::new(|x: u32| exists|m: int| lo <= m < hi + 1 && rows@[m].0 == x);
                        let want = Set::new(|x: u32| exists|m: int| lo <= m <= hi && rows@[m].0 == x);
                        assert(got =~= want) by {
                            assert forall|x: u32| got.contains(x) implies want.contains(x) by {
                                let m = choose|m: int| lo <= m < hi + 1 && rows@[m].0 == x;
                                assert(lo <= m <= hi && rows@[m].0 == x);
                            }
                            assert forall|x: u32| want.contains(x) implies got.contains(x) by {
                                let m = choose|m: int| lo <= m <= hi && rows@[m].0 == x;
                                assert(lo <= m < hi + 1 && rows@[m].0 == x);
                            }
                        }
                    }
                } else {
                    sel.selected_ids.insert(id.0);
                }
            },
            None => {
                sel.selected_ids.insert(id.0);
            },
        }
    } else {
        sel.selected_ids.clear();
        sel.selected_ids.insert(id.0);
        *anchor = Some(id);
    }
}

/// Keeps the fixtures that MIDI controls act on in step with the patch
/// selection where the configuration asks for it, and empty otherwise.
pub fn sync_midi_target(follow_selection: bool, sel: &PatchSelection, target: &mut HashSet<u32>)
    ensures
        final(target)@ == (if follow_selection { sel.selected_ids@ } else { Set::<u32>::empty() }),
{
    target.clear();
    if follow_selection {
        let ghost all = sel.selected_ids@;
        proof {
            let keys = vstd::std_specs::hash::spec_hash_keys_iter(&sel.selected_ids).remaining();
            assert(keys.unref().to_set() == all);
            assert forall|x: u32| all.contains(x) <==> exists|j: int| 0 <= j < keys.len() && *keys[j] == x by {
                if all.contains(x) {
                    assert(keys.unref().to_set().contains(x));
                    let j = choose|j: int| 0 <= j < keys.unref().len() && keys.unref()[j] == x;
                    assert(*keys[j] == x);
                }
                if exists|j: int| 0 <= j < keys.len() && *keys[j] == x {
                    let j = choose|j: int| 0 <= j < keys.len() && *keys[j] == x;
                    assert(keys.unref()[j] == x);
                    assert(keys.unref().contains(x));
                }
            }
        }
        for id in it: sel.selected_ids.iter()
            invariant
                all == sel.selected_ids@,
                forall|x: u32| all.contains(x) <==> exists|j: int| 0 <= j < it.seq().len() && *it.seq()[j] == x,
                forall|x: u32| target@.contains(x) <==> exists|j: int| 0 <= j < it.index() && *it.seq()[j] == x,
        {
            target.insert(*id);
            proof {
                assert forall|x: u32| target@.contains(x) <==> exists|j: int| 0 <= j < it.index() + 1 && *it.seq()[j] == x by {
                    if exists|j: int| 0 <= j < it.index() + 1 && *it.seq()[j] == x {
                        let j = choose|j: int| 0 <= j < it.index() + 1 && *it.seq()[j] == x;
                        if j < it.index() {
                            assert(exists|k: int| 0 <= k < it.index() && *it.seq()[k] == x);
                        }
                    }
                    if target@.contains(x) && x != *id {
                        let j = choose|j: int| 0 <= j < it.index() && *it.seq()[j] == x;
                    }
                }
            }
        }
        assert(target@ =~= all);
    }
}

/// Names joined with " · ".
pub open spec fn joined_names(names: Seq<Seq<char>>) -> Seq<char>
    decreases names.len(),
{
    if names.len() == 0 {
        Seq::empty()
    } else if names.len() == 1 {
        names[0]
    } else {
        joined_names(names.drop_last()) + " · "@ + names.last()
    }
}

/// The names of the selected fixtures that the patch holds, in increasing
/// id order, joined with " · "; "—" where there is none.
pub open spec fn selected_names_text(patch: Map<u32, FixtureInstance>, ids: Seq<u32>) -> Seq<char> {
    if ids.len() == 0 {
        "—"@
    } else {
        joined_names(ids.map_values(|k: u32| patch[k].name@))
    }
}

/// The programmer's line of selected fixture names.
pub fn selected_names(patch: &Patch, sel: &PatchSelection) -> (s: String)
    ensures
        exists|ids: Seq<u32>|
            #![trigger selected_names_text(patch@, ids)]
            {
                &&& forall|i: int, j: int| 0 <= i < j < ids.len() ==> ids[i] < ids[j]
                &&& forall|k: u32| ids.contains(k) <==> (patch@.contains_key(k) && sel.selected_ids@.contains(k))
                &&& s@ == selected_names_text(patch@, ids)
            },
{
    let rows = sorted_ids(patch);
    let mut out = String::new();
    let mut picked: Vec<u32> = Vec::new();
    let mut i: usize = 0;
    while i < rows.len()
        invariant
            i <= rows@.len(),
            strictly_increasing(rows@),
            forall|k: u32| patch@.contains_key(k) <==> rows@.contains(FixtureId(k)),
            forall|a: int, b: int| 0 <= a < b < picked@.len() ==> picked@[a] < picked@[b],
            forall|a: int| 0 <= a < picked@.len() ==> exists|j: int| 0 <= j < i && rows@[j].0 == #[trigger] picked@[a],
            forall|k: u32| picked@.contains(k) <==> (sel.selected_ids@.contains(k) && exists|j: int| 0 <= j < i && rows@[j].0 == k),
            picked@.len() > 0 ==> exists|j: int| 0 <= j < i && rows@[j].0 == picked@.last(),
            out@ == joined_names(picked@.map_values(|k: u32| patch@[k].name@)),
        decreases rows@.len() - i,
    {
        let id = rows[i];
        if sel.selected_ids.contains(&id.0) {
            assert(rows@.contains(id));
            let inst = patch.get(id).unwrap();
            let ghost before = picked@;
            if picked.len() > 0 {
                push_str(&mut out, " · ");
            }
            push_str(&mut out, inst.name.as_str());
            picked.push(id.0);
            proof {
                let names = picked@.map_values(|k: u32| patch@[k].name@);
                assert(names.drop_last() =~= before.map_values(|k: u32| patch@[k].name@));
                if before.len() > 0 {
                    let j = choose|j: int| 0 <= j < i && rows@[j].0 == before.last();
                    assert(rows@[j].0 < rows@[i as int].0);
                }
                assert forall|a: int, b: int| 0 <= a < b < picked@.len() implies picked@[a] < picked@[b] by {
                    if b == picked@.len() - 1 && a < b {
                        let j = choose|j: int| 0 <= j < i && rows@[j].0 == #[trigger] before[a];
                        assert(rows@[j].0 < rows@[i as int].0);
                    }
                }
                assert forall|k: u32| picked@.contains(k) <==> (sel.selected_ids@.contains(k) && exists|j: int| 0 <= j < i + 1 && rows@[j].0 == k) by {
                    if picked@.contains(k) && k != id.0 {
                        let a = choose|a: int| 0 <= a < picked@.len() && picked@[a] == k;
                        assert(before[a] == k);
                        assert(before.contains(k));
                    }
                    if sel.selected_ids@.contains(k) && exists|j: int| 0 <= j < i + 1 && rows@[j].0 == k {
                        let j = choose|j: int| 0 <= j < i + 1 && rows@[j].0 == k;
                        if j < i {
                            assert(before.contains(k));
                            let a = choose|a: int| 0 <= a < before.len() && before[a] == k;
                            assert(picked@[a] == k);
                        } else {
                            assert(picked@[picked@.len() - 1] == k);
                        }
                    }
                }
            }
        } else {
            proof {
                assert forall|k: u32| picked@.contains(k) <==> (sel.selected_ids@.contains(k) && exists|j: int| 0 <= j < i + 1 && rows@[j].0 == k) by {
                    if sel.selected_ids@.contains(k) && exists|j: int| 0 <= j < i + 1 && rows@[j].0 == k {
                        let j = choose|j: int| 0 <= j < i + 1 && rows@[j].0 == k;
                        if j == i {
                            assert(k == id.0);
                        }
                    }
                }
            }
        }
        i = i + 1;
    }
    proof {
        assert forall|k: u32| picked@.contains(k) <==> (patch@.contains_key(k) && sel.selected_ids@.contains(k)) by {
            if patch@.contains_key(k) {
                assert(rows@.contains(FixtureId(k)));
                let j = choose|j: int| 0 <= j < rows@.len() && rows@[j] == FixtureId(k);
                assert(rows@[j].0 == k);
            }
            if picked@.contains(k) {
                let j = choose|j: int| 0 <= j < rows@.len() && rows@[j].0 == k;
                assert(rows@[j] == FixtureId(k));
                assert(rows@.contains(FixtureId(k)));
            }
        }
    }
    if picked.len() == 0 {
        let mut dash = String::new();
        push_str(&mut dash, "—");
        assert(selected_names_text(patch@, picked@) == dash@);
        return dash;
    }
    assert(selected_names_text(patch@, picked@) == out@);
    out
}

// ─── Row labels ──────────────────────────────────────────────────────────────

/// `s` padded with leading zeros to at least `w` characters.
pub open spec fn zero_pad(s: Seq<char>, w: nat) -> Seq<char> {
    if s.len() >= w {
        s
    } else {
        Seq::new((w - s.len()) as nat, |i: int| '0') + s
    }
}

fn push_padded(out: &mut String, n: u64, w: usize)
    ensures
        final(out)@ == old(out)@ + zero_pad(decimal(n as nat), w as nat),
{
    let mut digits = String::new();
    push_decimal(&mut digits, n);
    let len = digits.as_str().unicode_len();
    let ghost d = digits@;
    let ghost start = out@;
    if len < w {
        let mut k: usize = 0;
        while k < w - len
            invariant
                len < w,
                k <= w - len,
                out@ == start + Seq::new(k as nat, |i: int| '0'),
            decreases w - len - k,
        {
            push_char(out, '0');
            assert(out@ =~= start + Seq::new((k + 1) as nat, |i: int| '0'));
            k = k + 1;
        }
    }
    push_str(out, digits.as_str());
    assert(out@ =~= start + zero_pad(d, w as nat));
}

/// The address of a row: "universe.channel" with the channel on three digits.
pub fn address_label(a: DmxAddress) -> (s: String)
    ensures
        s@ == decimal(a.universe as nat) + "."@ + zero_pad(decimal(a.channel as nat), 3),
{
    let mut s = String::new();
    push_decimal(&mut s, a.universe as u64);
    push_str(&mut s, ".");
    push_padded(&mut s, a.channel as u64, 3);
    s
}

/// The number of a row: the fixture id plus one, on three digits.
pub fn index_label(id: FixtureId) -> (s: String)
    ensures
        s@ == zero_pad(decimal(id.0 as nat + 1), 3),
{
    let mut s = String::new();
    push_padded(&mut s, id.0 as u64 + 1, 3);
    s
}

// ─── Type and mode choice ────────────────────────────────────────────────────

/// Whether some loaded fixture type has the type id `t`.
pub open spec fn type_listed(es: Seq<LibraryEntry>, t: Seq<char>) -> bool {
    exists|i: int| 0 <= i < es.len() && (#[trigger] es[i]).fixture.fixture_type_id@ == t
}

/// The type id the form keeps: the chosen one where it is loaded, else the
/// first loaded type's; nothing changes while the library is empty.
pub open spec fn kept_type(es: Seq<LibraryEntry>, t: Seq<char>) -> Seq<char> {
    if es.len() == 0 || type_listed(es, t) {
        t
    } else {
        es[0].fixture.fixture_type_id@
    }
}

/// The modes offered for type id `t`: those of the entry keyed `t`.
pub open spec fn offered_modes(es: Seq<LibraryEntry>, t: Seq<char>) -> Seq<DmxMode> {
    match entry_index(es, t) {
        Some(i) => es[i].fixture.dmx_modes@,
        None => Seq::empty(),
    }
}

/// The mode the form keeps: the chosen one where the offered modes name it
/// (or none is offered), else the first offered mode.
pub open spec fn kept_mode(modes: Seq<DmxMode>, m: Seq<char>) -> Seq<char> {
    if modes.len() == 0 || exists|k: int| 0 <= k < modes.len() && (#[trigger] modes[k]).name@ == m {
        m
    } else {
        modes[0].name@
    }
}

/// Keeps the chosen type and mode of the form on existing ones: a type id
/// that no loaded type has is replaced by the first loaded type's, and a
/// mode that the chosen type lacks by its first mode. With no type loaded
/// the form is left as it is.
pub fn keep_choice_valid(edit: &mut PatchEditState, library: &FixtureLibrary)
    requires
        library.wf(),
    ensures
        final(edit).new_name == old(edit).new_name,
        final(edit).universe_str == old(edit).universe_str,
        final(edit).channel_str == old(edit).channel_str,
        final(edit).add_error == old(edit).add_error,
        final(edit).selected_type_id@ == kept_type(library.entries_view(), old(edit).selected_type_id@),
        library.entries_view().len() == 0 ==> final(edit).selected_mode == old(edit).selected_mode,
        library.entries_view().len() > 0 ==> final(edit).selected_mode@ == kept_mode(
            offered_modes(library.entries_view(), final(edit).selected_type_id@),
            old(edit).selected_mode@,
        ),
{
    let types = library.all();
    if types.len() == 0 {
        return;
    }
    let ghost es = library.entries_view();
    let mut found = false;
    let mut i: usize = 0;
    while i < types.len()
        invariant
            i <= types@.len(),
            types@.len() == es.len(),
            es == library.entries_view(),
            forall|j: int| 0 <= j < types@.len() ==> *types@[j] == es[j].fixture,
            found <==> exists|j: int| 0 <= j < i && (#[trigger] es[j]).fixture.fixture_type_id@ == edit.selected_type_id@,
        decreases types@.len() - i,
    {
        if crate::text::str_eq(types[i].fixture_type_id.as_str(), edit.selected_type_id.as_str()) {
            found = true;
        }
        proof {
            assert(types@[i as int].fixture_type_id == es[i as int].fixture.fixture_type_id);
        }
        i = i + 1;
    }
    if !found {
        edit.selected_type_id = types[0].fixture_type_id.clone();
        assert(types@[0].fixture_type_id == es[0].fixture.fixture_type_id);
    }
    let ghost m0 = edit.selected_mode@;
    match library.get(edit.selected_type_id.as_str()) {
        Some(ft) => {
            if ft.dmx_modes.len() > 0 {
                let mut mode_found = false;
                let mut m: usize = 0;
                while m < ft.dmx_modes.len()
                    invariant
                        m <= ft.dmx_modes@.len(),
                        edit.selected_mode@ == m0,
                        mode_found <==> exists|k: int| 0 <= k < m && (#[trigger] ft.dmx_modes@[k]).name@ == m0,
                    decreases ft.dmx_modes@.len() - m,
                {
                    if crate::text::str_eq(ft.dmx_modes[m].name.as_str(), edit.selected_mode.as_str()) {
                        mode_found = true;
                    }
                    m = m + 1;
                }
                if !mode_found {
                    edit.selected_mode = ft.dmx_modes[0].name.clone();
                }
            }
        },
        None => {},
    }
}

} // verus!
