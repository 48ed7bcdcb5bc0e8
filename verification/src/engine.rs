//! The DMX merge engine: priority-ordered sources combined per universe by
//! HTP or LTP into one output universe set.
use std::collections::HashSet;
use vstd::prelude::*;
use crate::text::str_eq;
use crate::universe::{blackout, htp, DmxBuffer, UniverseSet};

verus! {

broadcast use vstd::std_specs::hash::group_hash_axioms;

/// How a source's universe combines with what lower-priority sources produced.
#[derive(Debug, Clone, Copy, PartialEq, Eq, Structural)]
pub enum MergeStrategy {
    /// Highest takes precedence, channel by channel.
    Htp,
    /// Latest takes precedence: the whole universe is replaced.
    Ltp,
}

impl Default for MergeStrategy {
    fn default() -> (s: Self)
        ensures
            s == MergeStrategy::Htp,
    {
        MergeStrategy::Htp
    }
}

/// What looking up source `name` does: where a source of that name exists,
/// the first one is handed out (`src`) and its final value (`fsrc`) replaces
/// it; otherwise a new empty source with that priority and strategy is
/// added in priority order, and the first source of that name is handed out.
/// Either way the source handed out may be changed, so the engine marks its
/// universe cache stale.
#[verifier::opaque]
pub open spec fn source_lookup(
    s: Seq<DmxSource>,
    after: Seq<DmxSource>,
    name: Seq<char>,
    priority: u8,
    strategy: MergeStrategy,
    src: DmxSource,
    fsrc: DmxSource,
) -> bool {
    if exists|i: int| 0 <= i < s.len() && s[i].name@ == name {
        let i = choose|i: int|
            0 <= i < s.len() && s[i].name@ == name && forall|j: int|
                0 <= j < i ==> s[j].name@ != name;
        &&& src == s[i]
        &&& after == s.update(i, fsrc)
    } else {
        let t = by_priority(s.push(src));
        let i = choose|i: int|
            0 <= i < t.len() && t[i].name@ == name && forall|j: int|
                0 <= j < i ==> t[j].name@ != name;
        &&& src.name@ == name
        &&& src.priority == priority
        &&& src.strategy == strategy
        &&& src.universes@ == Map::<u16, DmxBuffer>::empty()
        &&& 0 <= i < t.len()
        &&& src == t[i]
        &&& after == t.update(i, fsrc)
    }
}

/// Priority-ordered DMX source.
#[derive(Debug)]
pub struct DmxSource {
    pub name: String,
    pub priority: u8,
    pub strategy: MergeStrategy,
    pub universes: UniverseSet,
}

/// What universe `uid` holds after source `s` has been merged onto `acc`.
pub open spec fn merge_step(acc: Seq<u8>, s: DmxSource, uid: u16) -> Seq<u8> {
    if s.universes@.contains_key(uid) {
        match s.strategy {
            MergeStrategy::Htp => htp(acc, s.universes@[uid]@),
            MergeStrategy::Ltp => s.universes@[uid]@,
        }
    } else {
        acc
    }
}

/// Universe `uid` after merging `sources` in order onto a blacked-out universe.
pub open spec fn merged(sources: Seq<DmxSource>, uid: u16) -> Seq<u8>
    decreases sources.len(),
{
    if sources.len() == 0 {
        blackout()
    } else {
        merge_step(merged(sources.drop_last(), uid), sources.last(), uid)
    }
}

/// The indices `< n` whose priority is `p`, ascending.
pub open spec fn with_priority(prios: Seq<u8>, p: int, n: int) -> Seq<int>
    decreases n,
{
    if n <= 0 {
        Seq::empty()
    } else {
        with_priority(prios, p, n - 1) + if prios[n - 1] == p {
            seq![n - 1]
        } else {
            Seq::empty()
        }
    }
}

/// The indices whose priority is below `p`, grouped by ascending priority
/// and ascending index within one priority: a stable sort by priority.
pub open spec fn stable_order(prios: Seq<u8>, p: int) -> Seq<int>
    decreases p,
{
    if p <= 0 {
        Seq::empty()
    } else {
        stable_order(prios, p - 1) + with_priority(prios, p - 1, prios.len() as int)
    }
}

/// The priorities of a list of sources.
pub open spec fn priorities(s: Seq<DmxSource>) -> Seq<u8> {
    s.map_values(|x: DmxSource| x.priority)
}

/// `s` stably sorted by ascending priority (what `sort_by_key` on the priority gives).
#[verifier::opaque]
pub open spec fn by_priority(s: Seq<DmxSource>) -> Seq<DmxSource> {
    stable_order(priorities(s), 256).map_values(|i: int| s[i])
}

proof fn lemma_with_priority(prios: Seq<u8>, p: int, n: int)
    requires
        0 <= n <= prios.len(),
    ensures
        forall|k: int|
            0 <= k < with_priority(prios, p, n).len() ==> 0 <= #[trigger] with_priority(prios, p, n)[k]
                < n && prios[with_priority(prios, p, n)[k]] == p,
        forall|i: int| 0 <= i < n && prios[i] == p ==> #[trigger] with_priority(prios, p, n).contains(i),
        with_priority(prios, p, n).no_duplicates(),
    decreases n,
{
    if n > 0 {
        lemma_with_priority(prios, p, n - 1);
        let prev = with_priority(prios, p, n - 1);
        let cur = with_priority(prios, p, n);
        assert forall|i: int| 0 <= i < n && prios[i] == p implies #[trigger] cur.contains(i) by {
            if i < n - 1 {
                assert(prev.contains(i));
                let k = choose|k: int| 0 <= k < prev.len() && prev[k] == i;
                assert(cur[k] == prev[k]);
            } else {
                assert(cur[cur.len() - 1] == i);
            }
        }
    }
}

proof fn lemma_stable_order(prios: Seq<u8>, p: int)
    requires
        0 <= p,
    ensures
        forall|k: int|
            0 <= k < stable_order(prios, p).len() ==> 0 <= #[trigger] stable_order(prios, p)[k]
                < prios.len() && prios[stable_order(prios, p)[k]] < p,
        forall|i: int|
            0 <= i < prios.len() && prios[i] < p ==> #[trigger] stable_order(prios, p).contains(i),
        stable_order(prios, p).no_duplicates(),
    decreases p,
{
    if p > 0 {
        lemma_stable_order(prios, p - 1);
        lemma_with_priority(prios, p - 1, prios.len() as int);
        let a = stable_order(prios, p - 1);
        let b = with_priority(prios, p - 1, prios.len() as int);
        let c = stable_order(prios, p);
        assert(c == a + b);
        assert forall|i: int| 0 <= i < prios.len() && prios[i] < p implies #[trigger] c.contains(i) by {
            if prios[i] < p - 1 {
                assert(a.contains(i));
                let k = choose|k: int| 0 <= k < a.len() && a[k] == i;
                assert(c[k] == a[k]);
            } else {
                assert(b.contains(i));
                let k = choose|k: int| 0 <= k < b.len() && b[k] == i;
                assert(c[a.len() + k] == b[k]);
            }
        }
        assert forall|x: int, y: int| 0 <= x < y < c.len() implies c[x] != c[y] by {
            if y < a.len() {
            } else if x >= a.len() {
                assert(b[x - a.len()] != b[y - a.len()]);
            } else {
                assert(prios[c[x]] < p - 1);
                assert(prios[c[y]] == p - 1);
            }
        }
    }
}

proof fn lemma_stable_order_sorted(prios: Seq<u8>, p: int)
    requires
        0 <= p,
    ensures
        forall|x: int, y: int|
            0 <= x < y < stable_order(prios, p).len() ==> prios[#[trigger] stable_order(prios, p)[x]]
                <= prios[#[trigger] stable_order(prios, p)[y]],
    decreases p,
{
    if p > 0 {
        lemma_stable_order(prios, p - 1);
        lemma_stable_order_sorted(prios, p - 1);
        lemma_with_priority(prios, p - 1, prios.len() as int);
        let a = stable_order(prios, p - 1);
        let b = with_priority(prios, p - 1, prios.len() as int);
        let c = stable_order(prios, p);
        assert(c == a + b);
        assert forall|x: int, y: int| 0 <= x < y < c.len() implies prios[#[trigger] c[x]] <= prios[#[trigger] c[y]] by {
            if y < a.len() {
                assert(c[x] == a[x] && c[y] == a[y]);
            } else if x >= a.len() {
                assert(c[x] == b[x - a.len()] && c[y] == b[y - a.len()]);
            } else {
                assert(c[x] == a[x] && c[y] == b[y - a.len()]);
            }
        }
    }
}

/// The merge order is by ascending priority: a source never comes before
/// one of lower priority, so higher priorities are merged later and win.
pub proof fn law_sources_sorted_by_priority(s: Seq<DmxSource>)
    ensures
        forall|i: int, j: int|
            0 <= i < j < by_priority(s).len() ==> (#[trigger] by_priority(s)[i]).priority
                <= (#[trigger] by_priority(s)[j]).priority,
{
    reveal(by_priority);
    let prios = priorities(s);
    lemma_stable_order(prios, 256);
    lemma_stable_order_sorted(prios, 256);
    let ord = stable_order(prios, 256);
    assert forall|i: int, j: int| 0 <= i < j < by_priority(s).len() implies (#[trigger] by_priority(s)[i]).priority
        <= (#[trigger] by_priority(s)[j]).priority by {
        assert(by_priority(s)[i] == s[ord[i]]);
        assert(by_priority(s)[j] == s[ord[j]]);
        assert(prios[ord[i]] == s[ord[i]].priority);
        assert(prios[ord[j]] == s[ord[j]].priority);
    }
}

/// Adding sources loses none and invents none: every source is in the merge
/// order, and every entry of the merge order is a source, each at its own
/// position.
pub proof fn law_sources_kept(s: Seq<DmxSource>)
    ensures
        forall|i: int| #![trigger s[i]] 0 <= i < s.len() ==> exists|k: int| 0 <= k < by_priority(s).len() && #[trigger] by_priority(s)[k] == s[i],
        forall|k: int| #![trigger by_priority(s)[k]] 0 <= k < by_priority(s).len() ==> exists|i: int| 0 <= i < s.len() && by_priority(s)[k] == #[trigger] s[i],
{
    reveal(by_priority);
    let prios = priorities(s);
    lemma_stable_order(prios, 256);
    let ord = stable_order(prios, 256);
    assert forall|i: int| #![trigger s[i]] 0 <= i < s.len() implies exists|k: int| 0 <= k < by_priority(s).len() && #[trigger] by_priority(s)[k] == s[i] by {
        assert(prios[i] == s[i].priority);
        assert(ord.contains(i));
        let k = choose|k: int| 0 <= k < ord.len() && ord[k] == i;
        assert(by_priority(s)[k] == s[i]);
    }
    assert forall|k: int| #![trigger by_priority(s)[k]] 0 <= k < by_priority(s).len() implies exists|i: int| 0 <= i < s.len() && by_priority(s)[k] == #[trigger] s[i] by {
        assert(by_priority(s)[k] == s[ord[k]]);
    }
}

/// Latest takes precedence: where the last source (in merge order) that
/// holds a universe merges by LTP, the merged universe is exactly that
/// source's universe, whatever came before it.
pub proof fn law_top_ltp_wins(sources: Seq<DmxSource>, uid: u16, k: int)
    requires
        0 <= k < sources.len(),
        sources[k].universes@.contains_key(uid),
        sources[k].strategy == MergeStrategy::Ltp,
        forall|j: int| k < j < sources.len() ==> !(#[trigger] sources[j].universes@).contains_key(uid),
    ensures
        merged(sources, uid) == sources[k].universes@[uid]@,
    decreases sources.len(),
{
    if k < sources.len() - 1 {
        let p = sources.drop_last();
        assert forall|j: int| k < j < p.len() implies !(#[trigger] p[j].universes@).contains_key(uid) by {
            assert(p[j] == sources[j]);
        }
        law_top_ltp_wins(p, uid, k);
    }
}

/// A universe that no source holds stays blacked out.
pub proof fn law_unheld_universe_is_dark(sources: Seq<DmxSource>, uid: u16)
    requires
        forall|j: int| 0 <= j < sources.len() ==> !(#[trigger] sources[j].universes@).contains_key(uid),
    ensures
        merged(sources, uid) == blackout(),
    decreases sources.len(),
{
    if sources.len() > 0 {
        let p = sources.drop_last();
        assert forall|j: int| 0 <= j < p.len() implies !(#[trigger] p[j].universes@).contains_key(uid) by {
            assert(p[j] == sources[j]);
        }
        law_unheld_universe_is_dark(p, uid);
    }
}

/// Combines multiple DMX sources into a single output universe set.
///
/// Sources are processed in ascending priority order; higher priority wins per strategy.
#[derive(Debug)]
pub struct DmxEngine {
    sources: Vec<DmxSource>,
    output: UniverseSet,
    /// Cached universe IDs — rebuilt only when sources change.
    cached_universe_ids: Vec<u16>,
    /// Scratch set for deduplication — reused to avoid per-tick allocation.
    id_scratch: HashSet<u16>,
    /// Set to true when a source is added or handed out for change (which
    /// may add a universe to it).
    dirty: bool,
}

/// Whether some source holds universe `u`.
pub open spec fn holds_universe(sources: Seq<DmxSource>, u: u16) -> bool {
    exists|i: int| 0 <= i < sources.len() && (#[trigger] sources[i].universes@).contains_key(u)
}

/// Whether `ids` lists, each once, exactly the universes that some source holds.
pub open spec fn lists_all_universes(sources: Seq<DmxSource>, ids: Seq<u16>) -> bool {
    &&& ids.no_duplicates()
    &&& forall|u: u16|
        #![trigger ids.contains(u)]
        ids.contains(u) <==> exists|i: int|
            0 <= i < sources.len() && (#[trigger] sources[i].universes@).contains_key(u)
}

impl Default for DmxEngine {
    fn default() -> (e: Self)
        ensures
            e.sources_view() == Seq::<DmxSource>::empty(),
            e.output_view() == Map::<u16, DmxBuffer>::empty(),
            e.cached_ids() == Seq::<u16>::empty(),
            !e.is_dirty(),
            e.wf(),
    {
        DmxEngine {
            sources: Vec::new(),
            output: UniverseSet::new(),
            cached_universe_ids: Vec::new(),
            id_scratch: HashSet::new(),
            dirty: false,
        }
    }
}

impl DmxEngine {
    /// The sources, in merge order.
    pub closed spec fn sources_view(&self) -> Seq<DmxSource> {
        self.sources@
    }

    /// The merged output universes.
    pub closed spec fn output_view(&self) -> Map<u16, DmxBuffer> {
        self.output@
    }

    /// The universe ids that a tick recomputes.
    pub closed spec fn cached_ids(&self) -> Seq<u16> {
        self.cached_universe_ids@
    }

    /// Whether the cached universe ids must be rebuilt at the next tick.
    pub closed spec fn is_dirty(&self) -> bool {
        self.dirty
    }

    /// The engine's invariant: a cache that is not marked stale lists
    /// exactly the universes that the sources hold.
    pub open spec fn wf(&self) -> bool {
        self.is_dirty() || lists_all_universes(self.sources_view(), self.cached_ids())
    }

    /// An engine with no sources and no output.
    pub fn new() -> (e: Self)
        ensures
            e.sources_view() == Seq::<DmxSource>::empty(),
            e.output_view() == Map::<u16, DmxBuffer>::empty(),
            e.cached_ids() == Seq::<u16>::empty(),
            !e.is_dirty(),
            e.wf(),
    {
        Self::default()
    }

    /// Adds a source and re-sorts the sources stably by ascending priority.
    pub fn add_source(&mut self, source: DmxSource)
        ensures
            final(self).sources_view() == by_priority(old(self).sources_view().push(source)),
            final(self).output_view() == old(self).output_view(),
            final(self).cached_ids() == old(self).cached_ids(),
            final(self).is_dirty(),
    {
        self.sources.push(source);
        let ghost all = self.sources@;
        let ghost prios = priorities(all);
        let n = self.sources.len();
        // Compute the stable priority order of indices.
        let mut order: Vec<usize> = Vec::new();
        let mut p: u16 = 0;
        while p < 256
            invariant
                n == all.len(),
                self.sources@ == all,
                prios == priorities(all),
                p <= 256,
                order@.len() == stable_order(prios, p as int).len(),
                forall|k: int| 0 <= k < order@.len() ==> order@[k] as int == stable_order(prios, p as int)[k],
            decreases 256 - p,
        {
            let mut i: usize = 0;
            while i < n
                invariant
                    n == all.len(),
                    self.sources@ == all,
                    prios == priorities(all),
                    p < 256,
                    i <= n,
                    order@.len() == (stable_order(prios, p as int) + with_priority(prios, p as int, i as int)).len(),
                    forall|k: int| 0 <= k < order@.len() ==> order@[k] as int == (stable_order(prios, p as int)
                        + with_priority(prios, p as int, i as int))[k],
                decreases n - i,
            {
                let ghost before = order@;
                if self.sources[i].priority as u16 == p {
                    order.push(i);
                }
                proof {
                    let spec_next = stable_order(prios, p as int) + with_priority(prios, p as int, i + 1);
                    let spec_prev = stable_order(prios, p as int) + with_priority(prios, p as int, i as int);
                    assert(prios[i as int] == all[i as int].priority);
                    if prios[i as int] == p {
                        assert(spec_next =~= spec_prev.push(i as int));
                    } else {
                        assert(spec_next =~= spec_prev);
                    }
                }
                i = i + 1;
            }
            proof {
                assert(stable_order(prios, p + 1) =~= stable_order(prios, p as int) + with_priority(prios, p as int, n as int));
            }
            p = p + 1;
        }
        let ghost ord = stable_order(prios, 256);
        proof {
            lemma_stable_order(prios, 256);
            assert(prios.len() == all.len());
            assert(order@.len() == ord.len());
        }
        // Move the sources into their slots.
        let mut taken: Vec<Option<DmxSource>> = Vec::new();
        let mut old_sources: Vec<DmxSource> = Vec::new();
        std::mem::swap(&mut old_sources, &mut self.sources);
        let mut rest = old_sources;
        let mut rev: Vec<DmxSource> = Vec::new();
        while rest.len() > 0
            invariant
                rev@.len() + rest@.len() == all.len(),
                forall|j: int| 0 <= j < rest@.len() ==> rest@[j] == all[j],
                forall|j: int| 0 <= j < rev@.len() ==> rev@[j] == all[all.len() - 1 - j],
            decreases rest@.len(),
        {
            let x = rest.pop().unwrap();
            rev.push(x);
        }
        while rev.len() > 0
            invariant
                rev@.len() + taken@.len() == all.len(),
                forall|j: int| 0 <= j < rev@.len() ==> rev@[j] == all[all.len() - 1 - j],
                forall|j: int| 0 <= j < taken@.len() ==> taken@[j] == Some(all[j]),
            decreases rev@.len(),
        {
            let x = rev.pop().unwrap();
            taken.push(Some(x));
        }
        let mut out: Vec<DmxSource> = Vec::new();
        let mut k: usize = 0;
        while k < order.len()
            invariant
                taken@.len() == all.len(),
                n == all.len(),
                order@.len() == ord.len(),
                forall|j: int| 0 <= j < order@.len() ==> order@[j] as int == ord[j],
                forall|j: int| 0 <= j < ord.len() ==> 0 <= #[trigger] ord[j] < all.len(),
                ord.no_duplicates(),
                k <= order@.len(),
                out@.len() == k,
                forall|j: int| 0 <= j < k ==> out@[j] == all[ord[j]],
                forall|i: int|
                    0 <= i < all.len() ==> (#[trigger] taken@[i] == Some(all[i]) || ord.take(
                        k as int,
                    ).contains(i)),
            decreases order@.len() - k,
        {
            let idx = order[k];
            assert(order@[k as int] as int == ord[k as int]);
            assert(idx < taken@.len());
            proof {
                if ord.take(k as int).contains(idx as int) {
                    let j = choose|j: int| 0 <= j < k && ord.take(k as int)[j] == idx as int;
                    assert(ord[j] == ord[k as int]);
                }
            }
            let s = taken[idx].take();
            out.push(s.unwrap());
            proof {
                assert forall|i: int| 0 <= i < all.len() implies (#[trigger] taken@[i] == Some(all[i])
                    || ord.take(k + 1).contains(i)) by {
                    if i == idx {
                        assert(ord.take(k + 1)[k as int] == i);
                    } else if ord.take(k as int).contains(i) {
                        let j = choose|j: int| 0 <= j < k && ord.take(k as int)[j] == i;
                        assert(ord.take(k + 1)[j] == i);
                    }
                }
            }
            k = k + 1;
        }
        proof {
            reveal(by_priority);
            assert(out@ =~= ord.map_values(|i: int| all[i]));
        }
        self.sources = out;
        self.dirty = true;
    }

    /// Return an existing source by name, or create it with the given
    /// priority/strategy. The caller may add universes to it, so the
    /// universe cache is marked stale either way.
    pub fn get_or_add_source(&mut self, name: &str, priority: u8, strategy: MergeStrategy) -> (src: &mut DmxSource)
        ensures
            source_lookup(
                old(self).sources_view(),
                final(self).sources_view(),
                name@,
                priority,
                strategy,
                *src,
                *final(src),
            ),
            final(self).is_dirty(),
            final(self).output_view() == old(self).output_view(),
            final(self).cached_ids() == old(self).cached_ids(),
    {
        let mut i: usize = 0;
        while i < self.sources.len()
            invariant
                i <= self.sources@.len(),
                self.sources@ == old(self).sources@,
                self.output@ == old(self).output@,
                self.cached_universe_ids@ == old(self).cached_universe_ids@,
                forall|j: int| 0 <= j < i ==> self.sources@[j].name@ != name@,
            decreases self.sources@.len() - i,
        {
            if str_eq(self.sources[i].name.as_str(), name) {
                proof {
                    let s0 = self.sources@;
                    let ii = choose|ii: int|
                        0 <= ii < s0.len() && s0[ii].name@ == name@ && forall|jj: int|
                            0 <= jj < ii ==> s0[jj].name@ != name@;
                    assert(ii == i);
                    reveal(source_lookup);
                }
                self.dirty = true;
                return &mut self.sources[i];
            }
            i = i + 1;
        }
        let mut owned = String::new();
        owned.append(name);
        let fresh = DmxSource { name: owned, priority, strategy, universes: UniverseSet::new() };
        let ghost g = fresh;
        let ghost s0 = self.sources@;
        self.add_source(fresh);
        let ghost t = self.sources@;
        let ghost pushed = s0.push(g);
        let ghost ord = stable_order(priorities(pushed), 256);
        proof {
            let prios = priorities(pushed);
            reveal(by_priority);
            lemma_stable_order(prios, 256);
            assert(prios.len() == pushed.len());
            assert(prios[s0.len() as int] == g.priority);
            assert(ord.contains(s0.len() as int));
            let k = choose|k: int| 0 <= k < ord.len() && ord[k] == s0.len();
            assert(t[k] == pushed[ord[k]]);
            assert(t[k].name@ == name@);
        }
        let mut j: usize = 0;
        while j < self.sources.len()
            invariant
                j <= self.sources@.len(),
                self.sources@ == t,
                self.output@ == old(self).output@,
                self.cached_universe_ids@ == old(self).cached_universe_ids@,
                self.dirty,
                t == by_priority(pushed),
                pushed == s0.push(g),
                s0 == old(self).sources@,
                ord == stable_order(priorities(pushed), 256),
                g.name@ == name@,
                g.priority == priority,
                g.strategy == strategy,
                g.universes@ == Map::<u16, DmxBuffer>::empty(),
                forall|m: int| 0 <= m < s0.len() ==> s0[m].name@ != name@,
                forall|m: int| 0 <= m < j ==> t[m].name@ != name@,
                exists|k: int| 0 <= k < t.len() && t[k].name@ == name@,
            decreases self.sources@.len() - j,
        {
            if str_eq(self.sources[j].name.as_str(), name) {
                proof {
                    let prios = priorities(pushed);
                    reveal(by_priority);
                    lemma_stable_order(prios, 256);
                    assert(prios.len() == pushed.len());
                    assert(t == by_priority(pushed));
                    assert(t.len() == ord.len());
                    assert(t[j as int] == pushed[ord[j as int]]);
                    if ord[j as int] < s0.len() {
                        assert(s0[ord[j as int]].name@ != name@);
                    }
                    assert(t[j as int] == g);
                    let i = choose|i: int|
                        0 <= i < t.len() && t[i].name@ == name@ && forall|jj: int|
                            0 <= jj < i ==> t[jj].name@ != name@;
                    assert(i == j);
                    reveal(source_lookup);
                }
                return &mut self.sources[j];
            }
            j = j + 1;
        }
        assert(false);
        &mut self.sources[0]
    }

    /// Recompute the output universes from all sources: afterwards every
    /// universe that some source holds is output as the merge of the
    /// sources, and the universes that no source holds are left as they were.
    pub fn tick(&mut self)
        requires
            old(self).wf(),
        ensures
            final(self).sources_view() == old(self).sources_view(),
            final(self).wf(),
            !final(self).is_dirty(),
            lists_all_universes(final(self).sources_view(), final(self).cached_ids()),
            !old(self).is_dirty() ==> final(self).cached_ids() == old(self).cached_ids(),
            forall|u: u16|
                #![trigger holds_universe(old(self).sources_view(), u)]
                holds_universe(old(self).sources_view(), u) ==> final(self).output_view().contains_key(u)
                    && final(self).output_view()[u]@ == merged(old(self).sources_view(), u),
            forall|u: u16|
                #![trigger final(self).output_view().contains_key(u)]
                !holds_universe(old(self).sources_view(), u) ==> final(self).output_view().contains_key(u)
                    == old(self).output_view().contains_key(u) && (old(self).output_view().contains_key(u)
                    ==> final(self).output_view()[u] == old(self).output_view()[u]),
    {
        if self.dirty {
            self.cached_universe_ids.clear();
            self.id_scratch.clear();
            let mut si: usize = 0;
            while si < self.sources.len()
                invariant
                    si <= self.sources@.len(),
                    self.sources@ == old(self).sources@,
                    self.output@ == old(self).output@,
                    self.cached_universe_ids@.no_duplicates(),
                    forall|u: u16| #[trigger] self.id_scratch@.contains(u) <==> self.cached_universe_ids@.contains(u),
                    forall|u: u16|
                        #![trigger self.cached_universe_ids@.contains(u)]
                        self.cached_universe_ids@.contains(u) <==> exists|i: int|
                            0 <= i < si && (#[trigger] self.sources@[i].universes@).contains_key(u),
                decreases self.sources@.len() - si,
            {
                let ids = self.sources[si].universes.universes();
                let mut k: usize = 0;
                while k < ids.len()
                    invariant
                        si < self.sources@.len(),
                        self.sources@ == old(self).sources@,
                        self.output@ == old(self).output@,
                        k <= ids@.len(),
                        ids@.len() == self.sources@[si as int].universes@.dom().len(),
                        forall|m: int|
                            0 <= m < ids@.len() ==> self.sources@[si as int].universes@.contains_key(
                                #[trigger] ids@[m].0,
                            ),
                        forall|uu: u16|
                            self.sources@[si as int].universes@.contains_key(uu) ==> exists|m: int|
                                0 <= m < ids@.len() && ids@[m].0 == uu,
                        self.cached_universe_ids@.no_duplicates(),
                        forall|u: u16| #[trigger] self.id_scratch@.contains(u) <==> self.cached_universe_ids@.contains(u),
                        forall|u: u16|
                            #![trigger self.cached_universe_ids@.contains(u)]
                            self.cached_universe_ids@.contains(u) <==> (exists|i: int|
                                0 <= i < si && (#[trigger] self.sources@[i].universes@).contains_key(u))
                                || exists|m: int| 0 <= m < k && ids@[m].0 == u,
                    decreases ids@.len() - k,
                {
                    let id = ids[k].0;
                    let ghost cached_before = self.cached_universe_ids@;
                    let fresh = self.id_scratch.insert(id);
                    if fresh {
                        self.cached_universe_ids.push(id);
                    }
                    proof {
                        if fresh {
                            assert(self.cached_universe_ids@[cached_before.len() as int] == id);
                        }
                        assert(self.cached_universe_ids@.contains(id));
                        assert forall|u: u16| #[trigger] self.cached_universe_ids@.contains(u) <==> (
                            cached_before.contains(u) || u == id) by {
                            if fresh && self.cached_universe_ids@.contains(u) {
                                let m = choose|m: int| 0 <= m < self.cached_universe_ids@.len() && self.cached_universe_ids@[m] == u;
                                if m < cached_before.len() {
                                    assert(cached_before[m] == u);
                                }
                            }
                            if fresh && cached_before.contains(u) {
                                let m = choose|m: int| 0 <= m < cached_before.len() && cached_before[m] == u;
                                assert(self.cached_universe_ids@[m] == u);
                            }
                        }
                        assert forall|u: u16|
                            #![trigger self.cached_universe_ids@.contains(u)]
                            self.cached_universe_ids@.contains(u) <==> (exists|i: int|
                                0 <= i < si && (#[trigger] self.sources@[i].universes@).contains_key(u))
                                || exists|m: int| 0 <= m < k + 1 && ids@[m].0 == u by {
                            if u == id {
                                assert(ids@[k as int].0 == u);
                            }
                            if exists|m: int| 0 <= m < k + 1 && ids@[m].0 == u {
                                let m = choose|m: int| 0 <= m < k + 1 && ids@[m].0 == u;
                                if m == k {
                                    assert(self.cached_universe_ids@.contains(id));
                                }
                            }
                        }
                    }
                    k = k + 1;
                }
                proof {
                    assert forall|u: u16|
                        #![trigger self.cached_universe_ids@.contains(u)]
                        self.cached_universe_ids@.contains(u) <==> exists|i: int|
                            0 <= i < si + 1 && (#[trigger] self.sources@[i].universes@).contains_key(u) by {
                        if self.sources@[si as int].universes@.contains_key(u) {
                            let m = choose|m: int| 0 <= m < ids@.len() && ids@[m].0 == u;
                            assert(ids@[m].0 == u);
                        }
                        if exists|m: int| 0 <= m < ids@.len() && ids@[m].0 == u {
                            let m = choose|m: int| 0 <= m < ids@.len() && ids@[m].0 == u;
                            assert(self.sources@[si as int].universes@.contains_key(ids@[m].0));
                        }
                    }
                }
                si = si + 1;
            }
            self.dirty = false;
        }
        let ghost srcs = self.sources@;
        let ghost ids = self.cached_universe_ids@;
        let ghost out0 = self.output@;
        let mut c: usize = 0;
        while c < self.cached_universe_ids.len()
            invariant
                self.sources@ == srcs,
                srcs == old(self).sources@,
                self.cached_universe_ids@ == ids,
                !self.dirty,
                lists_all_universes(srcs, ids),
                !old(self).dirty ==> ids == old(self).cached_universe_ids@,
                c <= ids.len(),
                forall|j: int|
                    0 <= j < c ==> self.output@.contains_key(#[trigger] ids[j]) && self.output@[ids[j]]@
                        == merged(srcs, ids[j]),
                forall|u: u16|
                    #![trigger out0.contains_key(u)]
                    !ids.take(c as int).contains(u) ==> self.output@.contains_key(u) == out0.contains_key(u)
                        && (out0.contains_key(u) ==> self.output@[u] == out0[u]),
                out0 == old(self).output@,
            decreases ids.len() - c,
        {
            let uid = self.cached_universe_ids[c];
            let mut acc = DmxBuffer::default();
            let ghost out_c = self.output@;
            let mut si: usize = 0;
            while si < self.sources.len()
                invariant
                    self.sources@ == srcs,
                    self.output@ == out_c,
                    self.cached_universe_ids@ == ids,
                    !self.dirty,
                    si <= srcs.len(),
                    acc@ == merged(srcs.take(si as int), uid),
                decreases srcs.len() - si,
            {
                proof {
                    assert(srcs.take(si + 1).drop_last() =~= srcs.take(si as int));
                }
                match self.sources[si].universes.get(uid) {
                    Some(buf) => {
                        match self.sources[si].strategy {
                            MergeStrategy::Htp => acc.merge_htp(buf),
                            MergeStrategy::Ltp => acc.merge_ltp(buf),
                        }
                    },
                    None => {},
                }
                si = si + 1;
            }
            let ghost before = self.output@;
            let out = self.output.get_or_insert(uid);
            *out = acc;
            assert(self.output@ == before.insert(uid, acc));
            proof {
                assert(srcs.take(srcs.len() as int) =~= srcs);
                assert forall|j: int|
                    0 <= j < c + 1 implies self.output@.contains_key(#[trigger] ids[j]) && self.output@[ids[j]]@
                        == merged(srcs, ids[j]) by {
                }
                assert forall|u: u16|
                    #![trigger out0.contains_key(u)]
                    !ids.take(c + 1).contains(u) implies self.output@.contains_key(u)
                    == out0.contains_key(u) && (out0.contains_key(u) ==> self.output@[u] == out0[u]) by {
                    assert(ids.take(c + 1)[c as int] == uid);
                    assert(ids.take(c + 1).contains(uid));
                    assert(u != uid);
                    if ids.take(c as int).contains(u) {
                        let j = choose|j: int| 0 <= j < c && ids.take(c as int)[j] == u;
                        assert(ids.take(c + 1)[j] == u);
                    }
                    assert(!ids.take(c as int).contains(u));
                    assert(before.contains_key(u) == out0.contains_key(u));
                    assert(self.output@.contains_key(u) == before.contains_key(u));
                    assert(self.output@.contains_key(u) == out0.contains_key(u));
                    if out0.contains_key(u) {
                        assert(before[u] == out0[u]);
                        assert(self.output@[u] == before[u]);
                    }
                }
            }
            c = c + 1;
        }
        proof {
            assert(ids.take(ids.len() as int) =~= ids);
            assert forall|u: u16| holds_universe(srcs, u) implies self.output@.contains_key(u)
                && self.output@[u]@ == merged(srcs, u) by {
                assert(ids.contains(u));
                let j = choose|j: int| 0 <= j < ids.len() && ids[j] == u;
                assert(self.output@.contains_key(ids[j]));
            }
            assert forall|u: u16| !holds_universe(srcs, u) implies self.output@.contains_key(u)
                == out0.contains_key(u) && (out0.contains_key(u) ==> self.output@[u] == out0[u]) by {
                assert(!ids.contains(u));
                assert(out0.contains_key(u) == out0.contains_key(u));
            }
        }
    }

    /// The merged output universes.
    pub fn output(&self) -> (o: &UniverseSet)
        ensures
            o@ == self.output_view(),
    {
        &self.output
    }

    /// The merged output of one universe, if a tick has produced it.
    pub fn output_buffer(&self, universe: u16) -> (r: Option<&DmxBuffer>)
        ensures
            match r {
                Some(b) => self.output_view().contains_key(universe) && *b == self.output_view()[universe],
                None => !self.output_view().contains_key(universe),
            },
    {
        self.output.get(universe)
    }
}

} // verus!
