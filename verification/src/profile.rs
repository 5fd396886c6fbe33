//! Ranked bandwidth profiles.
//!
//! A profile stores the list of (bandwidth, configuration, accuracy) rules,
//! ordered by ascending bandwidth threshold, together with the index of the
//! currently selected level. Selection is pure index arithmetic: a binary
//! search finds the level whose threshold matches (is equal or smaller than)
//! a measured bandwidth.
//!
//! Bandwidths are plain unsigned integers in whatever unit the caller picks;
//! fractional rates are represented by choosing a fine enough unit.

use vstd::prelude::*;

verus! {

/// A threshold sequence is sorted when its values never decrease.
pub open spec fn sorted(s: Seq<u64>) -> bool {
    forall|i: int, j: int| 0 <= i <= j < s.len() ==> s[i] <= s[j]
}

/// Number of entries of `s` strictly below `bw`.
pub open spec fn count_below(s: Seq<u64>, bw: u64) -> int
    decreases s.len(),
{
    if s.len() == 0 {
        0
    } else {
        count_below(s.drop_last(), bw) + (if s.last() < bw {
            1int
        } else {
            0int
        })
    }
}

/// The level selected for bandwidth `bw` in the threshold sequence `s`: an
/// exact match returns that index (the first one, if thresholds repeat);
/// otherwise the index of the greatest threshold below `bw`, except that a
/// bandwidth below the smallest threshold still selects level 0.
pub open spec fn locate(s: Seq<u64>, bw: u64) -> int {
    let i = count_below(s, bw);
    if i < s.len() && s[i] == bw {
        i
    } else if i == 0 {
        0
    } else {
        i - 1
    }
}

/// The state reached by one `adjust_level` step from level `cur`, and what
/// the step reports: the newly selected index on change, nothing otherwise.
pub open spec fn adjust_step(s: Seq<u64>, cur: int, bw: u64) -> (int, Option<int>) {
    let nl = locate(s, bw);
    if nl == cur {
        (cur, None)
    } else {
        (nl, Some(nl))
    }
}

/// The state reached by one `advance_level` step from level `cur`, and what
/// the step reports: the next index when one exists, nothing at the top.
pub open spec fn advance_step(s: Seq<u64>, cur: int) -> (int, Option<int>) {
    if cur < s.len() - 1 {
        (cur + 1, Some(cur + 1))
    } else {
        (cur, None)
    }
}

proof fn lemma_count_below_bounds(s: Seq<u64>, bw: u64)
    ensures
        0 <= count_below(s, bw) <= s.len(),
    decreases s.len(),
{
    if s.len() > 0 {
        lemma_count_below_bounds(s.drop_last(), bw);
    }
}

/// In a sorted sequence split at `i` into a prefix strictly below `bw` and a
/// suffix at or above it, exactly `i` entries lie below `bw`.
proof fn lemma_count_below_at(s: Seq<u64>, bw: u64, i: int)
    requires
        0 <= i <= s.len(),
        forall|j: int| 0 <= j < i ==> s[j] < bw,
        forall|j: int| i <= j < s.len() ==> s[j] >= bw,
    ensures
        count_below(s, bw) == i,
    decreases s.len(),
{
    if s.len() > 0 {
        let t = s.drop_last();
        assert(forall|j: int| 0 <= j < t.len() ==> t[j] == s[j]);
        if i == s.len() {
            lemma_count_below_at(t, bw, i - 1);
        } else {
            lemma_count_below_at(t, bw, i);
        }
    }
}

/// The selected level is always a valid index of a non-empty table.
pub proof fn lemma_locate_in_range(s: Seq<u64>, bw: u64)
    requires
        s.len() > 0,
    ensures
        0 <= locate(s, bw) < s.len(),
{
    lemma_count_below_bounds(s, bw);
}

/// Law: in a strictly ascending table a bandwidth equal to the threshold of
/// level `i` selects exactly level `i`.
pub proof fn lemma_locate_exact_match(s: Seq<u64>, bw: u64, i: int)
    requires
        forall|p: int, q: int| 0 <= p < q < s.len() ==> s[p] < s[q],
        0 <= i < s.len(),
        s[i] == bw,
    ensures
        locate(s, bw) == i,
{
    assert forall|j: int| 0 <= j < i implies s[j] < bw by {
        assert(s[j] < s[i]);
    }
    assert forall|j: int| i <= j < s.len() implies s[j] >= bw by {
        if j > i {
            assert(s[i] < s[j]);
        }
    }
    lemma_count_below_at(s, bw, i);
}

/// Law: a bandwidth strictly between the thresholds of two adjacent levels
/// selects the lower of the two.
pub proof fn lemma_locate_between(s: Seq<u64>, bw: u64, i: int)
    requires
        sorted(s),
        0 <= i,
        i + 1 < s.len(),
        s[i] < bw,
        bw < s[i + 1],
    ensures
        locate(s, bw) == i,
{
    assert forall|j: int| 0 <= j < i + 1 implies s[j] < bw by {
        assert(s[j] <= s[i]);
    }
    assert forall|j: int| i + 1 <= j < s.len() implies s[j] >= bw by {
        assert(s[i + 1] <= s[j]);
    }
    lemma_count_below_at(s, bw, i + 1);
}

/// Law: a bandwidth below the smallest threshold still selects level 0
/// (the lowest level), not a "no feasible level" signal. This quirk is kept
/// deliberately.
pub proof fn lemma_locate_below_min(s: Seq<u64>, bw: u64)
    requires
        sorted(s),
        s.len() > 0,
        bw < s[0],
    ensures
        locate(s, bw) == 0,
{
    assert forall|j: int| 0 <= j < s.len() implies s[j] >= bw by {
        assert(s[0] <= s[j]);
    }
    lemma_count_below_at(s, bw, 0);
}

/// Law: `adjust` is idempotent for a fixed bandwidth: the state reached by
/// one adjustment is a fixed point, so an immediate repeat with the same
/// bandwidth reports no change; and a first adjustment from a differing
/// state reports the new index.
pub proof fn lemma_adjust_idempotent(s: Seq<u64>, cur: int, bw: u64)
    ensures
        ({
            let first = adjust_step(s, cur, bw);
            let second = adjust_step(s, first.0, bw);
            &&& second.0 == first.0
            &&& second.1 is None
            &&& (cur != locate(s, bw) ==> first.1 == Some(locate(s, bw)))
        }),
{
}

/// Law: `advance` is strictly monotone below the top level and idempotent at
/// the boundary: each step raises the level by exactly one until the last
/// index is reached, and from the last index every further step stays put
/// and reports nothing.
pub proof fn lemma_advance_monotone(s: Seq<u64>, cur: int)
    requires
        0 <= cur < s.len(),
    ensures
        ({
            let step = advance_step(s, cur);
            &&& (cur < s.len() - 1 ==> step.0 == cur + 1 && step.1 == Some(cur + 1))
            &&& (cur == s.len() - 1 ==> step.0 == cur && step.1 is None)
            &&& advance_step(s, s.len() - 1).0 == s.len() - 1
            &&& advance_step(s, s.len() - 1).1 is None
        }),
{
}

/// The level reached after `k` advance steps from `cur`.
pub open spec fn advance_iter(s: Seq<u64>, cur: int, k: nat) -> int
    decreases k,
{
    if k == 0 {
        cur
    } else {
        advance_iter(s, advance_step(s, cur).0, (k - 1) as nat)
    }
}

/// Law: repeated `advance` steps raise the level one at a time until the
/// last index, where they stay: after `k` steps the level is `cur + k`,
/// clipped to the last index, so once enough steps have been taken every
/// further one leaves the top level selected.
pub proof fn lemma_advance_reaches_max(s: Seq<u64>, cur: int, k: nat)
    requires
        0 <= cur < s.len(),
    ensures
        advance_iter(s, cur, k) == (if cur + k < s.len() - 1 {
            cur + k
        } else {
            s.len() - 1
        }),
    decreases k,
{
    if k > 0 {
        lemma_advance_reaches_max(s, advance_step(s, cur).0, (k - 1) as nat);
    }
}

/// The index-only core of a profile: an ascending list of bandwidth
/// thresholds and the currently selected level.
pub struct SimpleProfile {
    /// Ascending list of bandwidth thresholds, one per level.
    levels: Vec<u64>,
    /// The currently selected level (serving as cache).
    current: usize,
}

impl SimpleProfile {
    /// The threshold sequence.
    pub closed spec fn levels(&self) -> Seq<u64> {
        self.levels@
    }

    /// The currently selected level.
    pub closed spec fn cur(&self) -> int {
        self.current as int
    }

    /// Well-formed: at least one level, thresholds ascending, current level
    /// in range.
    pub closed spec fn wf(&self) -> bool {
        &&& self.levels@.len() > 0
        &&& (self.current as int) < self.levels@.len()
        &&& sorted(self.levels@)
    }

    /// Current level index.
    pub fn current(&self) -> (r: usize)
        ensures
            r as int == self.cur(),
    {
        self.current
    }

    /// Finds the index of the level that matches (is equal or smaller than)
    /// the provided bandwidth, by binary search.
    fn get_level_index(&self, bw: u64) -> (r: usize)
        requires
            self.wf(),
        ensures
            r as int == locate(self.levels(), bw),
    {
        let mut lo: usize = 0;
        let mut hi: usize = self.levels.len();
        while lo < hi
            invariant
                lo <= hi <= self.levels@.len(),
                self.wf(),
                forall|j: int| 0 <= j < lo ==> self.levels@[j] < bw,
                forall|j: int| hi <= j < self.levels@.len() ==> self.levels@[j] >= bw,
            decreases hi - lo,
        {
            let mid = lo + (hi - lo) / 2;
            if self.levels[mid] < bw {
                assert forall|j: int| 0 <= j < mid + 1 implies self.levels@[j] < bw by {
                    assert(self.levels@[j] <= self.levels@[mid as int]);
                }
                lo = mid + 1;
            } else {
                assert forall|j: int| mid <= j < self.levels@.len() implies self.levels@[j]
                    >= bw by {
                    assert(self.levels@[mid as int] <= self.levels@[j]);
                }
                hi = mid;
            }
        }
        proof {
            lemma_count_below_at(self.levels@, bw, lo as int);
        }
        if lo < self.levels.len() && self.levels[lo] == bw {
            lo
        } else if lo == 0 {
            0
        } else {
            lo - 1
        }
    }

    /// Adjusts the current level to the one that satisfies the provided
    /// bandwidth (equal or smaller threshold). Reports the new index when
    /// the selection changed, nothing when it was already current.
    pub fn adjust_level(&mut self, bw: u64) -> (r: Option<usize>)
        requires
            old(self).wf(),
        ensures
            final(self).wf(),
            final(self).levels() == old(self).levels(),
            final(self).cur() == adjust_step(old(self).levels(), old(self).cur(), bw).0,
            (match r {
                Some(i) => adjust_step(old(self).levels(), old(self).cur(), bw).1 == Some(
                    i as int,
                ),
                None => adjust_step(old(self).levels(), old(self).cur(), bw).1 is None,
            }),
    {
        proof {
            lemma_locate_in_range(self.levels@, bw);
        }
        let new_level = self.get_level_index(bw);
        if self.current != new_level {
            self.current = new_level;
            Some(new_level)
        } else {
            None
        }
    }

    /// Advances to the next level. Reports the new index if there was a next
    /// level, nothing when the profile cannot advance any more.
    pub fn advance_level(&mut self) -> (r: Option<usize>)
        requires
            old(self).wf(),
        ensures
            final(self).wf(),
            final(self).levels() == old(self).levels(),
            final(self).cur() == advance_step(old(self).levels(), old(self).cur()).0,
            (match r {
                Some(i) => advance_step(old(self).levels(), old(self).cur()).1 == Some(i as int),
                None => advance_step(old(self).levels(), old(self).cur()).1 is None,
            }),
    {
        if self.current < self.levels.len() - 1 {
            self.current = self.current + 1;
            Some(self.current)
        } else {
            None
        }
    }

    /// The bandwidth threshold required for the next higher level, or
    /// nothing when already at the top level.
    pub fn next_rate(&self) -> (r: Option<u64>)
        requires
            self.wf(),
        ensures
            (match r {
                Some(b) => self.cur() < self.levels().len() - 1 && b == self.levels()[self.cur()
                    + 1],
                None => self.cur() == self.levels().len() - 1,
            }),
    {
        if self.current < self.levels.len() - 1 {
            Some(self.levels[self.current + 1])
        } else {
            None
        }
    }

    /// Whether the current level is the last (highest) one.
    pub fn is_max(&self) -> (r: bool)
        requires
            self.wf(),
        ensures
            r == (self.cur() == self.levels().len() - 1),
    {
        self.current == self.levels.len() - 1
    }
}

/// One rule of a profile: a bandwidth threshold paired with the
/// configuration payload it selects, plus advisory accuracy metadata.
#[derive(Clone, Copy)]
pub struct Record<C> {
    /// Bandwidth threshold for this level.
    pub bandwidth: u64,
    /// Opaque configuration payload.
    pub config: C,
    /// Advisory accuracy metadata; not read by the runtime logic.
    pub accuracy: u64,
}

/// A ranked lookup table pairing each bandwidth threshold with a detailed
/// configuration payload. `SimpleProfile` takes care of the indexing.
pub struct Profile<C> {
    /// Index-only core: searches for the appropriate level.
    simple_profile: SimpleProfile,
    /// The reference list with detailed configurations.
    records: Vec<Record<C>>,
}

impl<C> Profile<C> {
    /// The record sequence.
    pub closed spec fn recs(&self) -> Seq<Record<C>> {
        self.records@
    }

    /// The threshold sequence.
    pub closed spec fn levels(&self) -> Seq<u64> {
        self.simple_profile.levels()
    }

    /// The currently selected level.
    pub closed spec fn cur(&self) -> int {
        self.simple_profile.cur()
    }

    /// Well-formed: the core is well-formed and its thresholds are exactly
    /// the records' bandwidths, in order.
    pub closed spec fn wf(&self) -> bool {
        &&& self.simple_profile.wf()
        &&& self.records@.len() == self.simple_profile.levels().len()
        &&& forall|i: int|
            0 <= i < self.records@.len() ==> self.records@[i].bandwidth
                == self.simple_profile.levels()[i]
    }

    /// Creates a new profile from a vector containing all the records, which
    /// must be non-empty and sorted by ascending bandwidth.
    pub fn _with_vec(vec: Vec<Record<C>>) -> (r: Profile<C>)
        requires
            vec@.len() > 0,
            forall|i: int, j: int|
                0 <= i <= j < vec@.len() ==> vec@[i].bandwidth <= vec@[j].bandwidth,
        ensures
            r.wf(),
            r.recs() == vec@,
            r.cur() == 0,
    {
        let mut simple: Vec<u64> = Vec::new();
        let mut k: usize = 0;
        while k < vec.len()
            invariant
                k <= vec@.len(),
                simple@.len() == k,
                forall|i: int| 0 <= i < k ==> simple@[i] == vec@[i].bandwidth,
            decreases vec@.len() - k,
        {
            simple.push(vec[k].bandwidth);
            k = k + 1;
        }
        let simple_profile = SimpleProfile { levels: simple, current: 0 };
        Profile { records: vec, simple_profile }
    }

    /// A copy of the index-only core of this profile.
    pub fn simplify(&self) -> (r: SimpleProfile)
        requires
            self.wf(),
        ensures
            r.wf(),
            r.levels() == self.levels(),
            r.cur() == self.cur(),
    {
        let src = &self.simple_profile.levels;
        let mut levels: Vec<u64> = Vec::new();
        let mut k: usize = 0;
        while k < src.len()
            invariant
                k <= src@.len(),
                levels@.len() == k,
                forall|i: int| 0 <= i < k ==> levels@[i] == src@[i],
            decreases src@.len() - k,
        {
            levels.push(src[k]);
            k = k + 1;
        }
        assert(levels@ =~= src@);
        SimpleProfile { levels, current: self.simple_profile.current }
    }
}

impl<C: Copy> Profile<C> {
    /// Returns the n-th configuration by direct positional lookup; the
    /// caller must supply a valid level index.
    pub fn nth(&self, level: usize) -> (r: C)
        requires
            self.wf(),
            (level as int) < self.recs().len(),
        ensures
            r == self.recs()[level as int].config,
    {
        self.records[level].config
    }

    /// Returns the initial configuration (the first record's).
    pub fn init_config(&self) -> (r: C)
        requires
            self.wf(),
        ensures
            r == self.recs()[0].config,
    {
        self.records[0].config
    }

    /// Returns the best configuration (the last record's).
    pub fn last_config(&self) -> (r: C)
        requires
            self.wf(),
        ensures
            r == self.recs()[self.recs().len() - 1].config,
    {
        self.records[self.records.len() - 1].config
    }

    /// Returns the currently selected configuration.
    pub fn current_config(&self) -> (r: C)
        requires
            self.wf(),
        ensures
            r == self.recs()[self.cur()].config,
    {
        self.records[self.simple_profile.current()].config
    }

    /// Returns the current level.
    pub fn current_level(&self) -> (r: usize)
        requires
            self.wf(),
        ensures
            r as int == self.cur(),
    {
        self.simple_profile.current()
    }

    /// Adjusts the profile to the level that satisfies the provided
    /// bandwidth. On change returns the newly selected record, otherwise
    /// nothing.
    pub fn adjust_config(&mut self, bw: u64) -> (r: Option<Record<C>>)
        requires
            old(self).wf(),
        ensures
            final(self).wf(),
            final(self).recs() == old(self).recs(),
            final(self).levels() == old(self).levels(),
            final(self).cur() == adjust_step(old(self).levels(), old(self).cur(), bw).0,
            (match r {
                Some(rec) => adjust_step(old(self).levels(), old(self).cur(), bw).1 == Some(
                    locate(old(self).levels(), bw),
                ) && rec == old(self).recs()[locate(old(self).levels(), bw)],
                None => adjust_step(old(self).levels(), old(self).cur(), bw).1 is None,
            }),
    {
        match self.simple_profile.adjust_level(bw) {
            Some(new_level) => Some(self.records[new_level]),
            None => None,
        }
    }

    /// Advances the profile to the next level. Returns the newly selected
    /// record if there was one, otherwise nothing.
    pub fn advance_config(&mut self) -> (r: Option<Record<C>>)
        requires
            old(self).wf(),
        ensures
            final(self).wf(),
            final(self).recs() == old(self).recs(),
            final(self).levels() == old(self).levels(),
            final(self).cur() == advance_step(old(self).levels(), old(self).cur()).0,
            (match r {
                Some(rec) => advance_step(old(self).levels(), old(self).cur()).1 == Some(
                    old(self).cur() + 1,
                ) && rec == old(self).recs()[old(self).cur() + 1],
                None => advance_step(old(self).levels(), old(self).cur()).1 is None,
            }),
    {
        match self.simple_profile.advance_level() {
            Some(new_level) => Some(self.records[new_level]),
            None => None,
        }
    }
}

} // verus!
