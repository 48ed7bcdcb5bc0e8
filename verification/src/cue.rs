//! The cue stack and its playhead: recording, deleting (with renumbering),
//! GO / BACK navigation and the fades they start.
//!
//! What a cue stores for each fixture (`S`) and what a running fade holds
//! (`F`) are up to the caller; the navigation never looks inside them.
use vstd::prelude::*;
use crate::patch::Patch;
use crate::text::{decimal, push_decimal, push_str};
use crate::types::FixtureId;

verus! {

/// A single cue of the stack.
pub struct Cue<S> {
    pub id: String,
    pub label: String,
    pub fade_in_ms: u32,
    pub fade_out_ms: u32,
    pub delay_ms: u32,
    /// What the cue sets, per fixture.
    pub snapshot: S,
}

impl<S> Cue<S> {
    /// A cue without fades or delay.
    pub fn new(id: &str, label: &str, snapshot: S) -> (c: Self)
        ensures
            c.id@ == id@,
            c.label@ == label@,
            c.fade_in_ms == 0,
            c.fade_out_ms == 0,
            c.delay_ms == 0,
            c.snapshot == snapshot,
    {
        let mut i = String::new();
        push_str(&mut i, id);
        let mut l = String::new();
        push_str(&mut l, label);
        Cue { id: i, label: l, fade_in_ms: 0, fade_out_ms: 0, delay_ms: 0, snapshot }
    }
}

/// The ordered list of cues.
pub struct CueStack<S> {
    pub cues: Vec<Cue<S>>,
}

/// The id of the cue at position `i`: its 1-based number in decimal.
pub open spec fn cue_number_id(i: int) -> Seq<char> {
    decimal((i + 1) as nat)
}

/// Whether every cue's id is its 1-based position.
pub open spec fn numbered<S>(cues: Seq<Cue<S>>) -> bool {
    forall|i: int| 0 <= i < cues.len() ==> (#[trigger] cues[i]).id@ == cue_number_id(i)
}

/// The label a recorded cue gets: "Cue N".
pub open spec fn recorded_label(n: nat) -> Seq<char> {
    "Cue "@ + decimal(n)
}

impl<S> CueStack<S> {
    /// An empty stack.
    pub fn new() -> (s: Self)
        ensures
            s.cues@.len() == 0,
    {
        CueStack { cues: Vec::new() }
    }

    /// Appends a cue holding `snapshot`, numbered after the last one and
    /// labelled "Cue N"; returns its position.
    pub fn record(&mut self, snapshot: S) -> (idx: usize)
        requires
            old(self).cues@.len() < usize::MAX,
        ensures
            idx == old(self).cues@.len(),
            final(self).cues@.len() == old(self).cues@.len() + 1,
            final(self).cues@.drop_last() == old(self).cues@,
            final(self).cues@[idx as int].id@ == cue_number_id(idx as int),
            final(self).cues@[idx as int].label@ == recorded_label(idx as nat + 1),
            final(self).cues@[idx as int].snapshot == snapshot,
            final(self).cues@[idx as int].fade_in_ms == 0,
            final(self).cues@[idx as int].fade_out_ms == 0,
            final(self).cues@[idx as int].delay_ms == 0,
    {
        let num = self.cues.len() as u64 + 1;
        let mut id = String::new();
        push_decimal(&mut id, num);
        let mut label = String::new();
        push_str(&mut label, "Cue ");
        push_decimal(&mut label, num);
        let ghost before = self.cues@;
        self.cues.push(Cue { id, label, fade_in_ms: 0, fade_out_ms: 0, delay_ms: 0, snapshot });
        assert(self.cues@.drop_last() =~= before);
        self.cues.len() - 1
    }

    /// Appends a cue captured from the stage holding `snapshot`, numbered
    /// after the last one, labelled "Stage N", with 2 s fades in and out;
    /// returns its position.
    pub fn record_stage(&mut self, snapshot: S) -> (idx: usize)
        requires
            old(self).cues@.len() < usize::MAX,
        ensures
            idx == old(self).cues@.len(),
            final(self).cues@.len() == old(self).cues@.len() + 1,
            final(self).cues@.drop_last() == old(self).cues@,
            final(self).cues@[idx as int].id@ == cue_number_id(idx as int),
            final(self).cues@[idx as int].label@ == "Stage "@ + decimal(idx as nat + 1),
            final(self).cues@[idx as int].snapshot == snapshot,
            final(self).cues@[idx as int].fade_in_ms == 2000,
            final(self).cues@[idx as int].fade_out_ms == 2000,
            final(self).cues@[idx as int].delay_ms == 0,
    {
        let num = self.cues.len() as u64 + 1;
        let mut id = String::new();
        push_decimal(&mut id, num);
        let mut label = String::new();
        push_str(&mut label, "Stage ");
        push_decimal(&mut label, num);
        let ghost before = self.cues@;
        self.cues.push(Cue { id, label, fade_in_ms: 2000, fade_out_ms: 2000, delay_ms: 0, snapshot });
        assert(self.cues@.drop_last() =~= before);
        self.cues.len() - 1
    }

    /// Deletes the cue at `index` (nothing where there is none) and
    /// renumbers the remaining cues 1, 2, 3, …
    pub fn delete_cue(&mut self, index: usize)
        ensures
            index >= old(self).cues@.len() ==> final(self).cues@ == old(self).cues@,
            index < old(self).cues@.len() ==> {
                &&& final(self).cues@.len() == old(self).cues@.len() - 1
                &&& numbered(final(self).cues@)
                &&& forall|i: int|
                    0 <= i < final(self).cues@.len() ==> {
                        let o = if i < index { old(self).cues@[i] } else { old(self).cues@[i + 1] };
                        let c = #[trigger] final(self).cues@[i];
                        &&& c.label == o.label
                        &&& c.fade_in_ms == o.fade_in_ms
                        &&& c.fade_out_ms == o.fade_out_ms
                        &&& c.delay_ms == o.delay_ms
                        &&& c.snapshot == o.snapshot
                    }
            },
    {
        if index >= self.cues.len() {
            return;
        }
        let ghost orig = self.cues@;
        self.cues.remove(index);
        let ghost removed = self.cues@;
        assert(removed =~= orig.remove(index as int));
        let n = self.cues.len();
        let mut i: usize = 0;
        while i < n
            invariant
                n == self.cues@.len(),
                n == removed.len(),
                removed == orig.remove(index as int),
                i <= n,
                forall|j: int| 0 <= j < i ==> (#[trigger] self.cues@[j]).id@ == cue_number_id(j),
                forall|j: int|
                    0 <= j < n ==> {
                        let c = #[trigger] self.cues@[j];
                        &&& c.label == removed[j].label
                        &&& c.fade_in_ms == removed[j].fade_in_ms
                        &&& c.fade_out_ms == removed[j].fade_out_ms
                        &&& c.delay_ms == removed[j].delay_ms
                        &&& c.snapshot == removed[j].snapshot
                    },
            decreases n - i,
        {
            let mut id = String::new();
            push_decimal(&mut id, i as u64 + 1);
            let ghost prev = self.cues@;
            let mut cue = self.cues.remove(i);
            cue.id = id;
            self.cues.insert(i, cue);
            assert(self.cues@ =~= prev.update(i as int, cue));
            i = i + 1;
        }
    }
}

/// What the playhead is doing: nothing, or a fade holding `F`.
pub enum PlayheadState<F> {
    Idle,
    Fading(F),
}

/// A fade that GO or BACK asks to start: its length and the cues it goes
/// from and to (`None`: from or to nothing recorded).
#[derive(Debug, Clone, Copy, PartialEq, Eq, Structural)]
pub struct FadeRequest {
    pub duration_ms: u32,
    pub from: Option<usize>,
    pub to: Option<usize>,
}

/// The position of the playhead in the stack, and its fade.
pub struct CuePlayhead<F> {
    pub current_cue_index: Option<usize>,
    pub state: PlayheadState<F>,
}

/// The cue GO moves to from `cur` in a stack of `len` cues: the next one,
/// held at the last; the first from nowhere.
pub open spec fn go_target(cur: Option<usize>, len: nat) -> nat {
    match cur {
        Some(i) => {
            let last = if len == 0 { 0 } else { (len - 1) as nat };
            if i + 1 < last { (i + 1) as nat } else { last }
        },
        None => 0,
    }
}

/// The position BACK moves to from `cur`: one earlier, none before the first.
pub open spec fn back_target(cur: Option<usize>) -> Option<usize> {
    match cur {
        Some(i) => if i == 0 { None } else { Some((i - 1) as usize) },
        None => None,
    }
}

/// Whether the playhead points at a cue of a stack of `len` cues, or nowhere.
pub open spec fn index_valid(cur: Option<usize>, len: nat) -> bool {
    match cur {
        Some(i) => i < len,
        None => true,
    }
}

fn go_index(cur: Option<usize>, len: usize) -> (n: usize)
    ensures
        n == go_target(cur, len as nat),
{
    match cur {
        Some(i) => {
            let last = if len == 0 { 0 } else { len - 1 };
            if i < last && i + 1 < last {
                i + 1
            } else {
                last
            }
        },
        None => 0,
    }
}

impl<F> CuePlayhead<F> {
    /// A playhead before the first cue, not fading.
    pub fn new() -> (p: Self)
        ensures
            p.current_cue_index is None,
            p.state is Idle,
    {
        CuePlayhead { current_cue_index: None, state: PlayheadState::Idle }
    }

    /// Advances to the next cue (held at the last one); returns the new position.
    pub fn go<S>(&mut self, stack: &CueStack<S>) -> (r: Option<usize>)
        ensures
            final(self).current_cue_index == (if go_target(old(self).current_cue_index, stack.cues@.len())
                < stack.cues@.len() {
                Some(go_target(old(self).current_cue_index, stack.cues@.len()) as usize)
            } else {
                old(self).current_cue_index
            }),
            r == final(self).current_cue_index,
            final(self).state == old(self).state,
    {
        let next = go_index(self.current_cue_index, stack.cues.len());
        if next < stack.cues.len() {
            self.current_cue_index = Some(next);
        }
        self.current_cue_index
    }

    /// Steps back to the previous cue (to none before the first); returns the new position.
    pub fn back(&mut self) -> (r: Option<usize>)
        ensures
            final(self).current_cue_index == back_target(old(self).current_cue_index),
            r == final(self).current_cue_index,
            final(self).state == old(self).state,
    {
        self.current_cue_index = match self.current_cue_index {
            Some(i) => if i == 0 {
                None
            } else {
                Some(i - 1)
            },
            None => None,
        };
        self.current_cue_index
    }

    /// Ends any running fade at once.
    pub fn snap_fade(&mut self)
        ensures
            final(self).state is Idle,
            final(self).current_cue_index == old(self).current_cue_index,
    {
        if let PlayheadState::Fading(_) = self.state {
            self.state = PlayheadState::Idle;
        }
    }

    /// GO from the cue panel: nothing where the stack is empty; else ends a
    /// running fade, moves to the next cue, and asks for a fade into it
    /// where it has a fade-in time (from the cue it leaves, if that exists).
    pub fn go_cue<S>(&mut self, stack: &CueStack<S>) -> (fade: Option<FadeRequest>)
        ensures
            ({
                let next = go_target(old(self).current_cue_index, stack.cues@.len());
                if next >= stack.cues@.len() {
                    &&& *final(self) == *old(self)
                    &&& fade is None
                } else {
                    let cue = stack.cues@[next as int];
                    &&& final(self).current_cue_index == Some(next as usize)
                    &&& final(self).state is Idle
                    &&& fade == (if cue.fade_in_ms > 0 {
                        Some(FadeRequest {
                            duration_ms: cue.fade_in_ms,
                            from: match old(self).current_cue_index {
                                Some(i) => if i < stack.cues@.len() { Some(i) } else { None },
                                None => None,
                            },
                            to: Some(next as usize),
                        })
                    } else {
                        None
                    })
                }
            }),
    {
        let next = go_index(self.current_cue_index, stack.cues.len());
        if next >= stack.cues.len() {
            return None;
        }
        self.snap_fade();
        let cur = self.current_cue_index;
        let cue = &stack.cues[next];
        let fade = if cue.fade_in_ms > 0 {
            let from = match cur {
                Some(i) => if i < stack.cues.len() {
                    Some(i)
                } else {
                    None
                },
                None => None,
            };
            Some(FadeRequest { duration_ms: cue.fade_in_ms, from, to: Some(next) })
        } else {
            None
        };
        self.current_cue_index = Some(next);
        fade
    }

    /// BACK from the cue panel: ends a running fade, steps back, and asks
    /// for a fade out of the cue it leaves where that cue has a fade-out
    /// time and there is a cue before it.
    pub fn back_cue<S>(&mut self, stack: &CueStack<S>) -> (fade: Option<FadeRequest>)
        requires
            index_valid(old(self).current_cue_index, stack.cues@.len()),
        ensures
            final(self).current_cue_index == back_target(old(self).current_cue_index),
            final(self).state is Idle,
            fade == match old(self).current_cue_index {
                Some(i) => if stack.cues@[i as int].fade_out_ms > 0 && i > 0 {
                    Some(FadeRequest {
                        duration_ms: stack.cues@[i as int].fade_out_ms,
                        from: Some(i),
                        to: Some((i - 1) as usize),
                    })
                } else {
                    None
                },
                None => None,
            },
    {
        let prev = match self.current_cue_index {
            Some(i) => if i == 0 {
                None
            } else {
                Some(i - 1)
            },
            None => None,
        };
        self.snap_fade();
        let mut fade = None;
        match self.current_cue_index {
            Some(current) => {
                let cue = &stack.cues[current];
                if cue.fade_out_ms > 0 && prev.is_some() {
                    fade = Some(FadeRequest { duration_ms: cue.fade_out_ms, from: Some(current), to: prev });
                }
            },
            None => {},
        }
        self.current_cue_index = prev;
        fade
    }

    /// Keeps the playhead on a cue after the cue at `index` was deleted from
    /// a stack that now holds `len` cues: past the end it moves to the last
    /// cue, on the deleted cue to the one before it.
    pub fn after_delete(&mut self, index: usize, len: usize)
        ensures
            final(self).state == old(self).state,
            final(self).current_cue_index == match old(self).current_cue_index {
                Some(idx) => if idx >= len {
                    if len == 0 { None } else { Some((len - 1) as usize) }
                } else if idx == index {
                    if idx == 0 { None } else { Some((idx - 1) as usize) }
                } else {
                    Some(idx)
                },
                None => None,
            },
    {
        match self.current_cue_index {
            Some(idx) => {
                if idx >= len {
                    self.current_cue_index = len.checked_sub(1);
                } else if idx == index {
                    self.current_cue_index = idx.checked_sub(1);
                }
            },
            None => {},
        }
    }
}

// ─── Laws ────────────────────────────────────────────────────────────────────

/// GO never leaves the stack: from any position it lands on a cue of a
/// non-empty stack.
pub proof fn law_go_stays_in_stack(cur: Option<usize>, len: nat)
    requires
        len > 0,
    ensures
        go_target(cur, len) < len,
{
}

/// BACK undoes GO where GO moved to a further cue: from nowhere, or from a
/// cue that is not the last one, GO then BACK returns to where it started.
pub proof fn law_back_undoes_go(cur: Option<usize>, len: nat)
    requires
        0 < len <= usize::MAX,
        match cur {
            Some(i) => i + 1 < len,
            None => true,
        },
    ensures
        back_target(Some(go_target(cur, len) as usize)) == cur,
{
}

/// At the last cue GO stays put.
pub proof fn law_go_holds_at_last(len: nat)
    requires
        0 < len <= usize::MAX,
    ensures
        go_target(Some((len - 1) as usize), len) == len - 1,
{
}

/// After a delete, a playhead that was on a cue (or nowhere) is on a cue of
/// the shorter stack (or nowhere).
pub proof fn law_delete_keeps_playhead_valid(cur: Option<usize>, index: usize, len: usize)
    ensures
        index_valid(
            match cur {
                Some(idx) => if idx >= len {
                    if len == 0 { None } else { Some((len - 1) as usize) }
                } else if idx == index {
                    if idx == 0 { None } else { Some((idx - 1) as usize) }
                } else {
                    Some(idx)
                },
                None => None,
            },
            len as nat,
        ),
{
}

/// Recording onto a numbered stack keeps it numbered.
pub proof fn law_record_keeps_numbering<S>(before: Seq<Cue<S>>, after: Seq<Cue<S>>)
    requires
        numbered(before),
        after.len() == before.len() + 1,
        after.drop_last() == before,
        after.last().id@ == cue_number_id(before.len() as int),
    ensures
        numbered(after),
{
    assert forall|i: int| 0 <= i < after.len() implies (#[trigger] after[i]).id@ == cue_number_id(i) by {
        if i < before.len() {
            assert(after[i] == after.drop_last()[i]);
        }
    }
}

// ─── Snapshots ───────────────────────────────────────────────────────────────

/// Whether no fixture occurs twice in a snapshot.
pub open spec fn distinct_fixtures<V>(s: Seq<(FixtureId, V)>) -> bool {
    forall|i: int, j: int| 0 <= i < j < s.len() ==> (#[trigger] s[i]).0 != (#[trigger] s[j]).0
}

/// The values a snapshot holds for fixture `k`.
pub open spec fn snapshot_value<V>(s: Seq<(FixtureId, V)>, k: u32) -> Option<V> {
    if exists|i: int| 0 <= i < s.len() && (#[trigger] s[i]).0 == FixtureId(k) {
        Some(s[choose|i: int| 0 <= i < s.len() && (#[trigger] s[i]).0 == FixtureId(k)].1)
    } else {
        None
    }
}

proof fn lemma_snapshot_value_at<V>(s: Seq<(FixtureId, V)>, i: int)
    requires
        distinct_fixtures(s),
        0 <= i < s.len(),
    ensures
        snapshot_value(s, s[i].0.0) == Some(s[i].1),
{
    let k = s[i].0.0;
    assert(s[i].0 == FixtureId(k));
    let j = choose|j: int| 0 <= j < s.len() && (#[trigger] s[j]).0 == FixtureId(k);
    assert(j == i);
}

/// The snapshot of a cue recorded from the programmer: every patched
/// fixture with the same values.
pub fn programmer_snapshot<V: Copy>(patch: &Patch, values: V) -> (r: Vec<(FixtureId, V)>)
    ensures
        distinct_fixtures(r@),
        forall|k: u32| #[trigger] snapshot_value(r@, k) == (if patch@.contains_key(k) { Some(values) } else { None }),
{
    let fixtures = patch.fixtures();
    let mut out: Vec<(FixtureId, V)> = Vec::new();
    let mut i: usize = 0;
    while i < fixtures.len()
        invariant
            i <= fixtures@.len(),
            out@.len() == i,
            forall|j: int| 0 <= j < i ==> (#[trigger] out@[j]) == (fixtures@[j].0, values),
        decreases fixtures@.len() - i,
    {
        out.push((fixtures[i].0, values));
        i = i + 1;
    }
    proof {
        assert forall|k: u32| #[trigger] snapshot_value(out@, k) == (if patch@.contains_key(k) { Some(values) } else { None }) by {
            if patch@.contains_key(k) {
                let j = choose|j: int| 0 <= j < fixtures@.len() && fixtures@[j].0.0 == k;
                assert(out@[j].0 == FixtureId(k));
            } else {
                assert forall|j: int| 0 <= j < out@.len() implies (#[trigger] out@[j]).0 != FixtureId(k) by {
                    assert(patch@.contains_key(fixtures@[j].0.0));
                }
            }
        }
    }
    out
}

/// Sets the values of every patched fixture in a snapshot (as updating the
/// active cue from the programmer does): a fixture already there gets the
/// new values in place, another is added at the end; fixtures outside the
/// patch keep theirs.
pub fn set_snapshot_values<V: Copy>(snapshot: &mut Vec<(FixtureId, V)>, patch: &Patch, values: V)
    requires
        distinct_fixtures(old(snapshot)@),
    ensures
        distinct_fixtures(final(snapshot)@),
        forall|k: u32| #[trigger] snapshot_value(final(snapshot)@, k) == (if patch@.contains_key(k) {
            Some(values)
        } else {
            snapshot_value(old(snapshot)@, k)
        }),
{
    let fixtures = patch.fixtures();
    let ghost s0 = snapshot@;
    let mut i: usize = 0;
    while i < fixtures.len()
        invariant
            i <= fixtures@.len(),
            distinct_fixtures(snapshot@),
            forall|k: u32| #[trigger] snapshot_value(snapshot@, k) == (if exists|j: int| 0 <= j < i && fixtures@[j].0.0 == k {
                Some(values)
            } else {
                snapshot_value(s0, k)
            }),
        decreases fixtures@.len() - i,
    {
        let id = fixtures[i].0;
        let mut pos: usize = 0;
        while pos < snapshot.len() && snapshot[pos].0.0 != id.0
            invariant
                pos <= snapshot@.len(),
                forall|j: int| 0 <= j < pos ==> (#[trigger] snapshot@[j]).0 != id,
            decreases snapshot@.len() - pos,
        {
            pos = pos + 1;
        }
        let ghost before = snapshot@;
        if pos < snapshot.len() {
            snapshot.set(pos, (id, values));
            proof {
                assert(snapshot@ == before.update(pos as int, (id, values)));
                assert forall|a: int, b: int| 0 <= a < b < snapshot@.len() implies (#[trigger] snapshot@[a]).0 != (#[trigger] snapshot@[b]).0 by {
                    assert(before[a].0 != before[b].0);
                }
                assert forall|k: u32| #[trigger] snapshot_value(snapshot@, k) == (if k == id.0 { Some(values) } else { snapshot_value(before, k) }) by {
                    lemma_snapshot_value_at(snapshot@, pos as int);
                    if k != id.0 {
                        if exists|j: int| 0 <= j < before.len() && (#[trigger] before[j]).0 == FixtureId(k) {
                            let j = choose|j: int| 0 <= j < before.len() && (#[trigger] before[j]).0 == FixtureId(k);
                            lemma_snapshot_value_at(before, j);
                            lemma_snapshot_value_at(snapshot@, j);
                        } else {
                            assert forall|j: int| 0 <= j < snapshot@.len() implies (#[trigger] snapshot@[j]).0 != FixtureId(k) by {
                                assert(before[j].0 != FixtureId(k));
                            }
                        }
                    }
                }
            }
        } else {
            snapshot.push((id, values));
            proof {
                assert(snapshot@ == before.push((id, values)));
                assert forall|k: u32| #[trigger] snapshot_value(snapshot@, k) == (if k == id.0 { Some(values) } else { snapshot_value(before, k) }) by {
                    lemma_snapshot_value_at(snapshot@, before.len() as int);
                    if k != id.0 {
                        if exists|j: int| 0 <= j < before.len() && (#[trigger] before[j]).0 == FixtureId(k) {
                            let j = choose|j: int| 0 <= j < before.len() && (#[trigger] before[j]).0 == FixtureId(k);
                            lemma_snapshot_value_at(before, j);
                            lemma_snapshot_value_at(snapshot@, j);
                        } else {
                            assert forall|j: int| 0 <= j < snapshot@.len() implies (#[trigger] snapshot@[j]).0 != FixtureId(k) by {
                                if j < before.len() {
                                    assert(before[j].0 != FixtureId(k));
                                }
                            }
                        }
                    }
                }
            }
        }
        proof {
            assert forall|k: u32| #[trigger] snapshot_value(snapshot@, k) == (if exists|j: int| 0 <= j < i + 1 && fixtures@[j].0.0 == k {
                Some(values)
            } else {
                snapshot_value(s0, k)
            }) by {
                if k == id.0 {
                    assert(fixtures@[i as int].0.0 == k);
                } else {
                    if exists|j: int| 0 <= j < i + 1 && fixtures@[j].0.0 == k {
                        let j = choose|j: int| 0 <= j < i + 1 && fixtures@[j].0.0 == k;
                        assert(j < i);
                    }
                }
            }
        }
        i = i + 1;
    }
    proof {
        assert forall|k: u32| #[trigger] snapshot_value(snapshot@, k) == (if patch@.contains_key(k) {
            Some(values)
        } else {
            snapshot_value(s0, k)
        }) by {
            if patch@.contains_key(k) {
                let j = choose|j: int| 0 <= j < fixtures@.len() && fixtures@[j].0.0 == k;
            } else {
                if exists|j: int| 0 <= j < fixtures@.len() && fixtures@[j].0.0 == k {
                    let j = choose|j: int| 0 <= j < fixtures@.len() && fixtures@[j].0.0 == k;
                    assert(patch@.contains_key(fixtures@[j].0.0));
                }
            }
        }
    }
}

} // verus!
