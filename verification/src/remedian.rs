//! A streaming estimate of the median in sublinear memory: a tower of buckets
//! of a fixed width. A full bucket hands its exact median to the bucket above
//! and starts over.

use vstd::prelude::*;
use vstd::relations::sorted_by;
use vstd::seq_lib::*;

verus! {

/// The order in which observations are ranked.
pub open spec fn ascending() -> spec_fn(u64, u64) -> bool {
    |a: u64, b: u64| a <= b
}

/// The median of a non-empty sequence: the element in the middle of its
/// ascending arrangement, the upper of the two middle ones when the length is even.
pub open spec fn median_of(values: Seq<u64>) -> u64 {
    values.sort_by(ascending())[values.len() as int / 2]
}

/// The levels after `value` arrives at `level`. A level that is not yet full
/// with it keeps it; a level that is full hands its median to the next level
/// and is emptied; above the top a new level is opened.
pub open spec fn observe(levels: Seq<Seq<u64>>, base: nat, level: nat, value: u64) -> Seq<Seq<u64>>
    decreases levels.len() - level,
{
    if level >= levels.len() {
        levels.push(seq![value])
    } else if levels[level as int].len() + 1 < base {
        levels.update(level as int, levels[level as int].push(value))
    } else {
        observe(
            levels.update(level as int, Seq::empty()),
            base,
            level + 1,
            median_of(levels[level as int].push(value)),
        )
    }
}

/// The levels after the values have arrived at the lowest level, one after another.
pub open spec fn observe_all(levels: Seq<Seq<u64>>, base: nat, values: Seq<u64>) -> Seq<Seq<u64>>
    decreases values.len(),
{
    if values.len() == 0 {
        levels
    } else {
        observe(observe_all(levels, base, values.drop_last()), base, 0, values.last())
    }
}

/// Whether every value held at any level lies between `low` and `high`.
pub open spec fn within(levels: Seq<Seq<u64>>, low: u64, high: u64) -> bool {
    forall|i: int, j: int|
        0 <= i < levels.len() && 0 <= j < levels[i].len() ==> low <= #[trigger] levels[i][j] <= high
}

/// The median of a non-empty sequence is one of its elements.
pub proof fn lemma_median_is_element(values: Seq<u64>)
    requires
        values.len() > 0,
    ensures
        values.contains(median_of(values)),
{
    let sorted = values.sort_by(ascending());
    values.lemma_sort_by_ensures(ascending());
    sorted.to_multiset_ensures();
    values.to_multiset_ensures();
    assert(sorted.len() == values.len());
    let m = sorted[values.len() as int / 2];
    assert(sorted.contains(m));
}

/// A streaming estimator of the median of a sequence of observations.
pub struct Remedian {
    base: usize,
    buffers: Vec<Vec<u64>>,
}

impl View for Remedian {
    type V = Seq<Seq<u64>>;

    /// The values held at each level, the level of raw observations first.
    closed spec fn view(&self) -> Seq<Seq<u64>> {
        self.buffers@.map_values(|buffer: Vec<u64>| buffer@)
    }
}

/// The ascending arrangement of `values`.
fn sorted_copy(values: &Vec<u64>) -> (sorted: Vec<u64>)
    ensures
        sorted@ == values@.sort_by(ascending()),
{
    let mut sorted: Vec<u64> = Vec::new();
    let mut i: usize = 0;
    assert(sorted@ =~= values@.subrange(0, 0));
    while i < values.len()
        invariant
            i <= values.len(),
            sorted_by(sorted@, ascending()),
            sorted@.to_multiset() == values@.subrange(0, i as int).to_multiset(),
        decreases values.len() - i,
    {
        let value = values[i];
        let mut position: usize = 0;
        while position < sorted.len() && sorted[position] <= value
            invariant
                position <= sorted.len(),
                forall|k: int| 0 <= k < position ==> sorted@[k] <= value,
            decreases sorted.len() - position,
        {
            position = position + 1;
        }
        proof {
            let before = sorted@;
            let after = before.insert(position as int, value);
            to_multiset_insert(before, position as int, value);
            let prefix = values@.subrange(0, i as int);
            assert(values@.subrange(0, i + 1) =~= prefix.push(value));
            to_multiset_build(prefix, value);
            assert forall|a: int, b: int| 0 <= a < b < after.len() implies #[trigger] ascending()(
                after[a],
                after[b],
            ) by {
                if b < position {
                    assert(ascending()(before[a], before[b]));
                } else if b == position {
                } else if a < position {
                    assert(ascending()(before[a], before[b - 1]));
                } else if a == position {
                    assert(ascending()(before[position as int], before[b - 1]) || b - 1
                        == position);
                } else {
                    assert(ascending()(before[a - 1], before[b - 1]));
                }
            }
        }
        sorted.insert(position, value);
        i = i + 1;
    }
    proof {
        assert(values@.subrange(0, values.len() as int) =~= values@);
        values@.lemma_sort_by_ensures(ascending());
        lemma_sorted_unique(sorted@, values@.sort_by(ascending()), ascending());
    }
    sorted
}

/// The exact median of a non-empty buffer.
fn median(values: &Vec<u64>) -> (m: u64)
    requires
        values.len() > 0,
    ensures
        m == median_of(values@),
{
    let sorted = sorted_copy(values);
    proof {
        values@.lemma_sort_by_ensures(ascending());
        sorted@.to_multiset_ensures();
        values@.to_multiset_ensures();
    }
    sorted[values.len() / 2]
}

impl Remedian {
    /// The width of the buckets.
    pub closed spec fn base(&self) -> nat {
        self.base as nat
    }

    /// The invariant of the estimator: buckets are at least two wide, no
    /// bucket is full, and the top bucket is not empty.
    pub open spec fn wf(&self) -> bool {
        &&& self.base() >= 2
        &&& forall|i: int| 0 <= i < self@.len() ==> (#[trigger] self@[i]).len() < self.base()
        &&& self@.len() > 0 ==> self@.last().len() > 0
    }

    /// An estimator without observations. The width `base` is the number of
    /// values a bucket takes before it hands its median up; a width below two
    /// would never let a bucket settle.
    pub fn new(base: usize) -> (remedian: Remedian)
        requires
            base >= 2,
        ensures
            remedian.wf(),
            remedian.base() == base,
            remedian@.len() == 0,
    {
        Remedian { base, buffers: Vec::new() }
    }

    /// Takes one observation into the lowest level and lets full levels hand
    /// their medians upwards.
    pub fn add_observation(&mut self, value: u64)
        requires
            old(self).wf(),
        ensures
            final(self).wf(),
            final(self).base() == old(self).base(),
            final(self)@ == observe(old(self)@, old(self).base(), 0, value),
    {
        let mut level: usize = 0;
        let mut carry = value;
        loop
            invariant_except_break
                self.base == old(self).base,
                self.base >= 2,
                level <= self.buffers.len(),
                forall|i: int| 0 <= i < self@.len() ==> (#[trigger] self@[i]).len() < self.base(),
                level < self.buffers.len() ==> self@.last().len() > 0,
                observe(old(self)@, old(self).base(), 0, value) == observe(
                    self@,
                    self.base(),
                    level as nat,
                    carry,
                ),
            ensures
                self.wf(),
                self.base == old(self).base,
                self@ == observe(old(self)@, old(self).base(), 0, value),
            decreases self.buffers.len() - level,
        {
            let ghost before = self@;
            if level >= self.buffers.len() {
                let mut top: Vec<u64> = Vec::new();
                top.push(carry);
                self.buffers.push(top);
                assert(self@ =~= before.push(seq![carry]));
                break ;
            }
            if self.buffers[level].len() + 1 < self.base {
                self.buffers[level].push(carry);
                assert(self@ =~= before.update(level as int, before[level as int].push(carry)));
                break ;
            }
            self.buffers[level].push(carry);
            let middle = median(&self.buffers[level]);
            self.buffers[level].clear();
            assert(self@ =~= before.update(level as int, Seq::empty()));
            carry = middle;
            level = level + 1;
        }
    }

    /// The estimate of the median: the median of the top level, or nothing
    /// before the first observation.
    pub fn approx_median(&self) -> (estimate: Option<u64>)
        requires
            self.wf(),
        ensures
            estimate matches Some(m) ==> self@.len() > 0 && m == median_of(self@.last()),
            estimate is None <==> self@.len() == 0,
    {
        let levels = self.buffers.len();
        if levels == 0 {
            None
        } else {
            assert(self@.last() == self.buffers@[levels - 1]@);
            Some(median(&self.buffers[levels - 1]))
        }
    }
}

/// Taking a value between `low` and `high` keeps every level between them.
pub proof fn lemma_observe_stays_within(
    levels: Seq<Seq<u64>>,
    base: nat,
    level: nat,
    value: u64,
    low: u64,
    high: u64,
)
    requires
        within(levels, low, high),
        low <= value <= high,
    ensures
        within(observe(levels, base, level, value), low, high),
    decreases levels.len() - level,
{
    if level >= levels.len() {
        let after = levels.push(seq![value]);
        assert forall|i: int, j: int| 0 <= i < after.len() && 0 <= j < after[i].len() implies low
            <= #[trigger] after[i][j] <= high by {
            if i < levels.len() {
                assert(after[i][j] == levels[i][j]);
            }
        }
    } else {
        let filled = levels[level as int].push(value);
        assert forall|j: int| 0 <= j < filled.len() implies low <= #[trigger] filled[j] <= high by {
            if j < levels[level as int].len() {
                assert(filled[j] == levels[level as int][j]);
            }
        }
        if levels[level as int].len() + 1 < base {
            let after = levels.update(level as int, filled);
            assert forall|i: int, j: int| 0 <= i < after.len() && 0 <= j < after[i].len() implies low
                <= #[trigger] after[i][j] <= high by {
                if i != level {
                    assert(after[i][j] == levels[i][j]);
                }
            }
        } else {
            let middle = median_of(filled);
            lemma_median_is_element(filled);
            let at = choose|j: int| 0 <= j < filled.len() && filled[j] == middle;
            assert(low <= filled[at] <= high);
            let cleared = levels.update(level as int, Seq::empty());
            assert forall|i: int, j: int| 0 <= i < cleared.len() && 0 <= j < cleared[i].len() implies low
                <= #[trigger] cleared[i][j] <= high by {
                if i != level {
                    assert(cleared[i][j] == levels[i][j]);
                }
            }
            lemma_observe_stays_within(cleared, base, level + 1, middle, low, high);
        }
    }
}

/// The estimate never leaves the range of the observations: while every value
/// held lies between `low` and `high`, so does the estimate.
pub proof fn lemma_estimate_within(levels: Seq<Seq<u64>>, low: u64, high: u64)
    requires
        within(levels, low, high),
        levels.len() > 0,
        levels.last().len() > 0,
    ensures
        low <= median_of(levels.last()) <= high,
{
    let top = levels.last();
    lemma_median_is_element(top);
    let at = choose|j: int| 0 <= j < top.len() && top[j] == median_of(top);
    assert(low <= levels[levels.len() - 1][at] <= high);
}

} // verus!
