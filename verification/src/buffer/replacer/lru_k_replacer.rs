use std::collections::{HashSet, VecDeque};
use vstd::prelude::*;
use crate::buffer::replacer::replacer::Replacer;
use crate::types::FrameId;

verus! {

broadcast use vstd::std_specs::hash::group_hash_axioms;

/// The history that follows `h` once an access at time `ts` is recorded and
/// only the `k` most recent accesses are kept.
pub open spec fn push_stamp(h: Seq<usize>, ts: usize, k: nat) -> Seq<usize> {
    let longer = h.push(ts);
    if longer.len() > k {
        longer.subrange(1, longer.len() as int)
    } else {
        longer
    }
}

/// Backward k-distance of a history at time `clock`: `None` stands for
/// infinite, the distance of a history with fewer than `k` accesses.
pub open spec fn backward_distance(h: Seq<usize>, k: nat, clock: nat) -> Option<int> {
    if h.len() < k {
        None
    } else {
        Some(clock - h[0])
    }
}

/// Whether distance `a` is strictly greater than distance `b`.
pub open spec fn farther(a: Option<int>, b: Option<int>) -> bool {
    match (a, b) {
        (None, None) => false,
        (None, Some(_)) => true,
        (Some(_), None) => false,
        (Some(x), Some(y)) => x > y,
    }
}

/// Whether a frame with history `a` is reclaimed in preference to one with
/// history `b`: the greater backward k-distance wins, and of two equal
/// distances the smaller oldest timestamp.
pub open spec fn evicted_before(a: Seq<usize>, b: Seq<usize>, k: nat, clock: nat) -> bool {
    let da = backward_distance(a, k, clock);
    let db = backward_distance(b, k, clock);
    farther(da, db) || (da == db && a[0] < b[0])
}

/// What an LRU-K replacer knows.
pub struct LruKState {
    /// Number of accesses kept per frame.
    pub k: nat,
    /// The logical time of the next access.
    pub clock: nat,
    /// The recorded timestamps of each frame, oldest first.
    pub history: Map<FrameId, Seq<usize>>,
    /// The frames excluded from eviction.
    pub non_evictable: Set<FrameId>,
}

impl LruKState {
    /// Histories hold between one and `k` timestamps, each earlier than the
    /// clock, in increasing order, and no timestamp occurs in two histories.
    pub open spec fn wf(self) -> bool {
        &&& self.k >= 1
        &&& forall|f: FrameId|
            self.history.contains_key(f) ==> 1 <= (#[trigger] self.history[f]).len() <= self.k
        &&& forall|f: FrameId, i: int|
            self.history.contains_key(f) && 0 <= i < self.history[f].len() ==> (
            #[trigger] self.history[f][i]) < self.clock
        &&& forall|f: FrameId, i: int, j: int|
            self.history.contains_key(f) && 0 <= i < j < self.history[f].len() ==> (
            #[trigger] self.history[f][i]) < (#[trigger] self.history[f][j])
        &&& forall|f: FrameId, g: FrameId, i: int, j: int|
            self.history.contains_key(f) && self.history.contains_key(g) && f != g && 0 <= i
                < self.history[f].len() && 0 <= j < self.history[g].len() ==> (
            #[trigger] self.history[f][i]) != (#[trigger] self.history[g][j])
    }

    /// A frame takes part in eviction when it has a history and is not
    /// marked non-evictable.
    pub open spec fn is_candidate(self, f: FrameId) -> bool {
        self.history.contains_key(f) && !self.non_evictable.contains(f)
    }

    /// Whether frame `f` is reclaimed in preference to frame `g`.
    pub open spec fn prefers(self, f: FrameId, g: FrameId) -> bool {
        evicted_before(self.history[f], self.history[g], self.k, self.clock)
    }

    /// `f` is the frame to reclaim: a candidate preferred to every other.
    pub open spec fn is_victim(self, f: FrameId) -> bool {
        &&& self.is_candidate(f)
        &&& forall|g: FrameId| #[trigger] self.is_candidate(g) && g != f ==> self.prefers(f, g)
    }

    /// The state after an access to `f`.
    pub open spec fn record_access(self, f: FrameId) -> LruKState {
        let prior = if self.history.contains_key(f) {
            self.history[f]
        } else {
            Seq::<usize>::empty()
        };
        LruKState {
            k: self.k,
            clock: self.clock + 1,
            history: self.history.insert(f, push_stamp(prior, self.clock as usize, self.k)),
            non_evictable: self.non_evictable,
        }
    }

    /// The state after `f` is marked evictable or not.
    pub open spec fn set_evictable(self, f: FrameId, evictable: bool) -> LruKState {
        LruKState {
            k: self.k,
            clock: self.clock,
            history: self.history,
            non_evictable: if evictable {
                self.non_evictable.remove(f)
            } else {
                self.non_evictable.insert(f)
            },
        }
    }

    /// The state after `f` is reclaimed: nothing is left of it.
    pub open spec fn forget(self, f: FrameId) -> LruKState {
        LruKState {
            k: self.k,
            clock: self.clock,
            history: self.history.remove(f),
            non_evictable: self.non_evictable.remove(f),
        }
    }
}

/// The timestamps of one frame.
struct FrameHistory {
    frame_id: FrameId,
    stamps: VecDeque<usize>,
}

spec fn holds(entries: Seq<FrameHistory>, f: FrameId) -> bool {
    exists|i: int| 0 <= i < entries.len() && entries[i].frame_id == f
}

spec fn slot_of(entries: Seq<FrameHistory>, f: FrameId) -> int {
    choose|i: int| 0 <= i < entries.len() && entries[i].frame_id == f
}

spec fn history_map(entries: Seq<FrameHistory>) -> Map<FrameId, Seq<usize>> {
    Map::new(|f: FrameId| holds(entries, f), |f: FrameId| entries[slot_of(entries, f)].stamps@)
}

spec fn distinct_frames(entries: Seq<FrameHistory>) -> bool {
    forall|i: int, j: int|
        0 <= i < j < entries.len() ==> entries[i].frame_id != entries[j].frame_id
}

proof fn lemma_slot(entries: Seq<FrameHistory>, i: int)
    requires
        distinct_frames(entries),
        0 <= i < entries.len(),
    ensures
        holds(entries, entries[i].frame_id),
        slot_of(entries, entries[i].frame_id) == i,
        history_map(entries).contains_key(entries[i].frame_id),
        history_map(entries)[entries[i].frame_id] == entries[i].stamps@,
{
    let f = entries[i].frame_id;
    assert(holds(entries, f));
    let s = slot_of(entries, f);
    if s < i {
        assert(entries[s].frame_id != entries[i].frame_id);
    } else if i < s {
        assert(entries[i].frame_id != entries[s].frame_id);
    }
}

proof fn lemma_history_update(entries: Seq<FrameHistory>, i: int, e: FrameHistory)
    requires
        distinct_frames(entries),
        0 <= i < entries.len(),
        e.frame_id == entries[i].frame_id,
    ensures
        distinct_frames(entries.update(i, e)),
        history_map(entries.update(i, e)) == history_map(entries).insert(e.frame_id, e.stamps@),
{
    let after = entries.update(i, e);
    assert(distinct_frames(after)) by {
        assert forall|a: int, b: int| 0 <= a < b < after.len() implies after[a].frame_id
            != after[b].frame_id by {
            assert(entries[a].frame_id != entries[b].frame_id);
        }
    }
    let lhs = history_map(after);
    let rhs = history_map(entries).insert(e.frame_id, e.stamps@);
    assert forall|f: FrameId| lhs.contains_key(f) <==> rhs.contains_key(f) by {
        if holds(after, f) {
            let s = slot_of(after, f);
            assert(entries[s].frame_id == f);
        }
        if holds(entries, f) {
            let s = slot_of(entries, f);
            assert(after[s].frame_id == f);
        }
        if f == e.frame_id {
            assert(after[i].frame_id == f);
        }
    }
    assert forall|f: FrameId| lhs.contains_key(f) implies lhs[f] == rhs[f] by {
        let s = slot_of(after, f);
        lemma_slot(after, s);
        lemma_slot(entries, s);
    }
    assert(lhs =~= rhs);
}

proof fn lemma_history_push(entries: Seq<FrameHistory>, e: FrameHistory)
    requires
        distinct_frames(entries),
        !holds(entries, e.frame_id),
    ensures
        distinct_frames(entries.push(e)),
        history_map(entries.push(e)) == history_map(entries).insert(e.frame_id, e.stamps@),
{
    let after = entries.push(e);
    assert(distinct_frames(after)) by {
        assert forall|a: int, b: int| 0 <= a < b < after.len() implies after[a].frame_id
            != after[b].frame_id by {
            if b < entries.len() {
                assert(entries[a].frame_id != entries[b].frame_id);
            } else {
                assert(after[a] == entries[a]);
            }
        }
    }
    let lhs = history_map(after);
    let rhs = history_map(entries).insert(e.frame_id, e.stamps@);
    assert forall|f: FrameId| lhs.contains_key(f) <==> rhs.contains_key(f) by {
        if holds(after, f) {
            let s = slot_of(after, f);
            if s < entries.len() {
                assert(entries[s].frame_id == f);
            }
        }
        if holds(entries, f) {
            let s = slot_of(entries, f);
            assert(after[s].frame_id == f);
        }
        if f == e.frame_id {
            assert(after[entries.len() as int].frame_id == f);
        }
    }
    assert forall|f: FrameId| lhs.contains_key(f) implies lhs[f] == rhs[f] by {
        let s = slot_of(after, f);
        lemma_slot(after, s);
        if s < entries.len() {
            assert(after[s] == entries[s]);
            lemma_slot(entries, s);
        }
    }
    assert(lhs =~= rhs);
}

proof fn lemma_history_remove(entries: Seq<FrameHistory>, i: int)
    requires
        distinct_frames(entries),
        0 <= i < entries.len(),
    ensures
        distinct_frames(entries.remove(i)),
        history_map(entries.remove(i)) == history_map(entries).remove(entries[i].frame_id),
{
    let after = entries.remove(i);
    let gone = entries[i].frame_id;
    assert forall|a: int| 0 <= a < after.len() implies after[a] == entries[if a < i {
        a
    } else {
        a + 1
    }] by {}
    assert(distinct_frames(after)) by {
        assert forall|a: int, b: int| 0 <= a < b < after.len() implies after[a].frame_id
            != after[b].frame_id by {
            let a0 = if a < i { a } else { a + 1 };
            let b0 = if b < i { b } else { b + 1 };
            assert(entries[a0].frame_id != entries[b0].frame_id);
        }
    }
    let lhs = history_map(after);
    let rhs = history_map(entries).remove(gone);
    assert forall|f: FrameId| lhs.contains_key(f) <==> rhs.contains_key(f) by {
        if holds(after, f) {
            let s = slot_of(after, f);
            let s0 = if s < i { s } else { s + 1 };
            assert(entries[s0].frame_id == f);
            lemma_slot(entries, i);
            lemma_slot(entries, s0);
        }
        if holds(entries, f) && f != gone {
            let s = slot_of(entries, f);
            let s1 = if s < i { s } else { s - 1 };
            assert(after[s1].frame_id == f);
        }
    }
    assert forall|f: FrameId| lhs.contains_key(f) implies lhs[f] == rhs[f] by {
        let s = slot_of(after, f);
        let s0 = if s < i { s } else { s + 1 };
        lemma_slot(after, s);
        lemma_slot(entries, s0);
    }
    assert(lhs =~= rhs);
}

/// The LRU-K replacement policy.
pub struct LruKReplacer {
    k: usize,
    current_timestamp: usize,
    history: Vec<FrameHistory>,
    non_evictable: HashSet<FrameId>,
}

impl View for LruKReplacer {
    type V = LruKState;

    closed spec fn view(&self) -> LruKState {
        LruKState {
            k: self.k as nat,
            clock: self.current_timestamp as nat,
            history: history_map(self.history@),
            non_evictable: self.non_evictable@,
        }
    }
}

/// Decides `evicted_before` on two recorded histories.
fn outranks(a: &VecDeque<usize>, b: &VecDeque<usize>, k: usize, clock: usize) -> (r: bool)
    requires
        a@.len() >= 1,
        b@.len() >= 1,
        a@[0] <= clock,
        b@[0] <= clock,
    ensures
        r == evicted_before(a@, b@, k as nat, clock as nat),
{
    let da: Option<usize> = if a.len() < k { None } else { Some(clock - a[0]) };
    let db: Option<usize> = if b.len() < k { None } else { Some(clock - b[0]) };
    match (da, db) {
        (None, None) => a[0] < b[0],
        (None, Some(_)) => true,
        (Some(_), None) => false,
        (Some(x), Some(y)) => x > y || (x == y && a[0] < b[0]),
    }
}

impl LruKReplacer {
    /// The representation is sound and the state it stands for is
    /// well-formed.
    pub closed spec fn wf(&self) -> bool {
        &&& distinct_frames(self.history@)
        &&& self@.wf()
    }

    /// A well-formed replacer stands for a well-formed state.
    pub proof fn lemma_wf_state(&self)
        requires
            self.wf(),
        ensures
            self@.wf(),
    {
    }

    /// A replacer that keeps `k` accesses per frame and has seen none.
    pub fn new(k: usize) -> (replacer: Self)
        requires
            k >= 1,
        ensures
            replacer.wf(),
            replacer@ == (LruKState {
                k: k as nat,
                clock: 0,
                history: Map::empty(),
                non_evictable: Set::empty(),
            }),
    {
        let replacer = Self {
            k,
            current_timestamp: 0,
            history: Vec::new(),
            non_evictable: HashSet::new(),
        };
        proof {
            assert(history_map(replacer.history@) =~= Map::<FrameId, Seq<usize>>::empty());
        }
        replacer
    }

    /// Whether one more access can be recorded: the clock has not reached
    /// the largest timestamp.
    pub fn has_room(&self) -> (room: bool)
        ensures
            room == (self@.clock < usize::MAX),
    {
        self.current_timestamp < usize::MAX
    }

    /// Where `frame_id` stands in the history, if it has one.
    fn find(&self, frame_id: FrameId) -> (slot: Option<usize>)
        ensures
            match slot {
                Some(i) => i < self.history@.len() && self.history@[i as int].frame_id == frame_id,
                None => !holds(self.history@, frame_id),
            },
    {
        let mut i: usize = 0;
        while i < self.history.len()
            invariant
                i <= self.history@.len(),
                forall|j: int| 0 <= j < i ==> self.history@[j].frame_id != frame_id,
            decreases self.history@.len() - i,
        {
            if self.history[i].frame_id == frame_id {
                return Some(i);
            }
            i += 1;
        }
        None
    }
}

/// Recording an access keeps a well-formed state well-formed.
pub proof fn lemma_record_access_wf(s: LruKState, f: FrameId)
    requires
        s.wf(),
        s.clock < usize::MAX,
    ensures
        s.record_access(f).wf(),
{
    let t = s.record_access(f);
    let prior = if s.history.contains_key(f) {
        s.history[f]
    } else {
        Seq::<usize>::empty()
    };
    let fresh = push_stamp(prior, s.clock as usize, s.k);
    assert(t.history[f] == fresh);
    assert forall|g: FrameId| t.history.contains_key(g) && g != f implies t.history[g]
        == s.history[g] && s.history.contains_key(g) by {}
    assert forall|i: int| 0 <= i < fresh.len() implies (fresh[i] == s.clock as usize || exists|
        j: int,
    | 0 <= j < prior.len() && prior[j] == fresh[i]) by {
        if prior.push(s.clock as usize).len() > s.k {
            if i < fresh.len() - 1 {
                assert(fresh[i] == prior[i + 1]);
            }
        } else {
            if i < fresh.len() - 1 {
                assert(fresh[i] == prior[i]);
            }
        }
    }
    assert forall|i: int, j: int| 0 <= i < j < fresh.len() implies fresh[i] < fresh[j] by {
        if prior.push(s.clock as usize).len() > s.k {
            if j < fresh.len() - 1 {
                assert(fresh[i] == prior[i + 1] && fresh[j] == prior[j + 1]);
            } else {
                assert(fresh[i] == prior[i + 1]);
            }
        } else {
            if j < fresh.len() - 1 {
                assert(fresh[i] == prior[i] && fresh[j] == prior[j]);
            } else {
                assert(fresh[i] == prior[i]);
            }
        }
    }
    assert forall|g: FrameId, i: int| t.history.contains_key(g) && 0 <= i < t.history[g].len()
        implies (#[trigger] t.history[g][i]) < t.clock by {
        if g == f {
            if fresh[i] != s.clock as usize {
                let j = choose|j: int| 0 <= j < prior.len() && prior[j] == fresh[i];
                assert(s.history[f][j] < s.clock);
            }
        } else {
            assert(s.history[g][i] < s.clock);
        }
    }
    assert forall|g: FrameId, h: FrameId, i: int, j: int|
        t.history.contains_key(g) && t.history.contains_key(h) && g != h && 0 <= i
            < t.history[g].len() && 0 <= j < t.history[h].len() implies (
    #[trigger] t.history[g][i]) != (#[trigger] t.history[h][j]) by {
        if g == f {
            assert(s.history[h][j] < s.clock);
            if fresh[i] != s.clock as usize {
                let m = choose|m: int| 0 <= m < prior.len() && prior[m] == fresh[i];
                assert(s.history[f][m] != s.history[h][j]);
            }
        } else if h == f {
            assert(s.history[g][i] < s.clock);
            if fresh[j] != s.clock as usize {
                let m = choose|m: int| 0 <= m < prior.len() && prior[m] == fresh[j];
                assert(s.history[g][i] != s.history[f][m]);
            }
        } else {
            assert(s.history[g][i] != s.history[h][j]);
        }
    }
    assert forall|g: FrameId, i: int, j: int|
        t.history.contains_key(g) && 0 <= i < j < t.history[g].len() implies (
    #[trigger] t.history[g][i]) < (#[trigger] t.history[g][j]) by {
        if g != f {
            assert(s.history[g][i] < s.history[g][j]);
        }
    }
}

/// Forgetting a frame keeps a well-formed state well-formed.
pub proof fn lemma_forget_wf(s: LruKState, f: FrameId)
    requires
        s.wf(),
    ensures
        s.forget(f).wf(),
{
    let t = s.forget(f);
    assert forall|g: FrameId| t.history.contains_key(g) implies t.history[g] == s.history[g]
        && s.history.contains_key(g) by {}
}

/// There is at most one victim: which frame is evicted is determined by
/// the state alone.
pub proof fn lemma_victim_unique(s: LruKState, f: FrameId, g: FrameId)
    requires
        s.wf(),
        s.is_victim(f),
        s.is_victim(g),
    ensures
        f == g,
{
    if f != g {
        assert(s.is_candidate(f));
        assert(s.is_candidate(g));
        assert(s.prefers(f, g));
        assert(s.prefers(g, f));
    }
}

/// Where every frame with a history is marked non-evictable, there is no
/// victim, whatever the histories hold.
pub proof fn lemma_all_non_evictable_no_victim(s: LruKState, f: FrameId)
    requires
        forall|g: FrameId| s.history.contains_key(g) ==> s.non_evictable.contains(g),
    ensures
        !s.is_candidate(f),
        !s.is_victim(f),
{
}

/// A candidate with fewer than `k` accesses goes before every candidate
/// with `k`: while it is there, none of those is the victim.
pub proof fn lemma_short_history_first(s: LruKState, short: FrameId, full: FrameId)
    requires
        s.wf(),
        s.is_candidate(short),
        s.is_candidate(full),
        s.history[short].len() < s.k,
        s.history[full].len() >= s.k,
    ensures
        s.prefers(short, full),
        !s.prefers(full, short),
        !s.is_victim(full),
{
}

/// Of two candidates with fewer than `k` accesses each, the one accessed
/// first goes first.
pub proof fn lemma_older_short_history_first(s: LruKState, first: FrameId, second: FrameId)
    requires
        s.wf(),
        s.is_candidate(first),
        s.is_candidate(second),
        s.history[first].len() < s.k,
        s.history[second].len() < s.k,
        s.history[first][0] < s.history[second][0],
    ensures
        s.prefers(first, second),
        !s.prefers(second, first),
        !s.is_victim(second),
{
}

/// Eviction consumes the history: the next access to an evicted frame
/// starts a history of that one access.
pub proof fn lemma_history_starts_anew(s: LruKState, f: FrameId)
    requires
        s.wf(),
    ensures
        !s.forget(f).history.contains_key(f),
        s.forget(f).record_access(f).history[f] == seq![s.clock as usize],
{
    let fresh = push_stamp(Seq::<usize>::empty(), s.clock as usize, s.k);
    assert(fresh =~= seq![s.clock as usize]);
}

impl Replacer for LruKReplacer {
    open spec fn inv(&self) -> bool {
        self.wf()
    }

    open spec fn recorded(&self) -> Set<FrameId> {
        self@.history.dom()
    }

    open spec fn pinned(&self) -> Set<FrameId> {
        self@.non_evictable
    }

    open spec fn can_record(&self) -> bool {
        self@.clock < usize::MAX
    }

    /// Appends the current logical time to the frame's history, keeps the
    /// `k` most recent timestamps, and advances the clock.
    fn record_access(&mut self, frame_id: FrameId)
        ensures
            final(self)@ == old(self)@.record_access(frame_id),
    {
        let ts: usize = self.current_timestamp;
        proof {
            lemma_record_access_wf(self@, frame_id);
        }
        match self.find(frame_id) {
            Some(i) => {
                proof {
                    lemma_slot(self.history@, i as int);
                }
                self.history[i].stamps.push_back(ts);
                if self.history[i].stamps.len() > self.k {
                    self.history[i].stamps.pop_front();
                }
                proof {
                    lemma_history_update(old(self).history@, i as int, self.history@[i as int]);
                    assert(self.history@ =~= old(self).history@.update(
                        i as int,
                        self.history@[i as int],
                    ));
                }
            },
            None => {
                let mut stamps: VecDeque<usize> = VecDeque::new();
                stamps.push_back(ts);
                proof {
                    assert(stamps@ =~= push_stamp(Seq::<usize>::empty(), ts, self.k as nat));
                    lemma_history_push(self.history@, FrameHistory { frame_id, stamps });
                }
                self.history.push(FrameHistory { frame_id, stamps });
            },
        }
        self.current_timestamp = ts + 1;
    }

    /// Marks the frame as taking part in eviction or not; its history is
    /// untouched.
    fn set_evictable(&mut self, frame_id: FrameId, evictable: bool)
        ensures
            final(self)@ == old(self)@.set_evictable(frame_id, evictable),
    {
        if evictable {
            self.non_evictable.remove(&frame_id);
        } else {
            self.non_evictable.insert(frame_id);
        }
        proof {
            assert(self@.history == old(self)@.history);
            assert(self@ == old(self)@.set_evictable(frame_id, evictable));
            assert(old(self)@.wf());
            assert(self@.wf());
        }
    }

    /// Picks the candidate with the greatest backward k-distance, of equals
    /// the one with the smallest oldest timestamp, and forgets it. Without a
    /// candidate nothing changes.
    fn evict(&mut self) -> (victim: Option<FrameId>)
        ensures
            match victim {
                Some(f) => old(self)@.is_victim(f) && final(self)@ == old(self)@.forget(f),
                None => final(self)@ == old(self)@ && forall|f: FrameId|
                    !old(self)@.is_candidate(f),
            },
    {
        let ghost entries = self.history@;
        let ghost state = self@;
        let mut best: Option<usize> = None;
        let mut i: usize = 0;
        while i < self.history.len()
            invariant
                self.wf(),
                self.history@ == entries,
                self@ == state,
                i <= entries.len(),
                match best {
                    Some(b) => {
                        &&& b < i
                        &&& state.is_candidate(entries[b as int].frame_id)
                        &&& forall|j: int|
                            0 <= j < i && j != b && state.is_candidate(
                                #[trigger] entries[j].frame_id,
                            ) ==> state.prefers(entries[b as int].frame_id, entries[j].frame_id)
                    },
                    None => forall|j: int|
                        0 <= j < i ==> !state.is_candidate(#[trigger] entries[j].frame_id),
                },
            decreases entries.len() - i,
        {
            let fid: FrameId = self.history[i].frame_id;
            proof {
                lemma_slot(entries, i as int);
                assert(state.history[fid].len() >= 1);
                assert(state.history[fid][0] < state.clock);
            }
            if !self.non_evictable.contains(&fid) {
                match best {
                    None => {
                        best = Some(i);
                    },
                    Some(b) => {
                        proof {
                            lemma_slot(entries, b as int);
                            let bid = entries[b as int].frame_id;
                            assert(state.history[bid].len() >= 1);
                            assert(state.history[bid][0] < state.clock);
                            assert(state.history[bid][0] != state.history[fid][0]);
                            assert forall|j: int|
                                0 <= j < i && state.is_candidate(
                                    #[trigger] entries[j].frame_id,
                                ) implies state.history[entries[j].frame_id] == entries[j].stamps@
                                by {
                                lemma_slot(entries, j);
                            }
                        }
                        if outranks(
                            &self.history[i].stamps,
                            &self.history[b].stamps,
                            self.k,
                            self.current_timestamp,
                        ) {
                            best = Some(i);
                        }
                    },
                }
            }
            i += 1;
        }
        match best {
            Some(b) => {
                let fid: FrameId = self.history[b].frame_id;
                proof {
                    lemma_slot(entries, b as int);
                    lemma_history_remove(entries, b as int);
                    lemma_forget_wf(state, fid);
                    assert forall|g: FrameId| #[trigger]
                        state.is_candidate(g) && g != fid implies state.prefers(fid, g) by {
                        let j = slot_of(entries, g);
                        lemma_slot(entries, j);
                    }
                }
                self.history.remove(b);
                self.non_evictable.remove(&fid);
                Some(fid)
            },
            None => {
                proof {
                    assert forall|f: FrameId| !state.is_candidate(f) by {
                        if state.history.contains_key(f) {
                            let j = slot_of(entries, f);
                            lemma_slot(entries, j);
                        }
                    }
                }
                None
            },
        }
    }
}

} // verus!
