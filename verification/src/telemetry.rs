//! The statistics that the telemetry keeps of a run: how many generations
//! have improved the best known solution, among all and among the most
//! recent ones.

use crate::heuristics::HeuristicStatistics;
use vstd::arithmetic::div_mod::*;
use vstd::prelude::*;

verus! {

/// The number of generations that count as recent.
pub const RECENT_GENERATIONS: usize = 1000;

/// The number of improving generations among `flags`.
pub open spec fn improvements(flags: Seq<bool>) -> nat
    decreases flags.len(),
{
    if flags.len() == 0 {
        0
    } else {
        improvements(flags.drop_last()) + if flags.last() {
            1nat
        } else {
            0nat
        }
    }
}

/// The most recent `window` generations, or all where there are fewer.
pub open spec fn recent(flags: Seq<bool>, window: nat) -> Seq<bool> {
    if flags.len() <= window {
        flags
    } else {
        flags.subrange(flags.len() - window, flags.len() as int)
    }
}

/// The share of `count` in `total`, in parts per million and rounded down; a
/// share in nothing is zero.
pub open spec fn share(count: nat, total: nat) -> int {
    if total == 0 {
        0
    } else {
        ((count * 1_000_000) as int) / (total as int)
    }
}

/// No more generations improve than there are.
pub proof fn lemma_improvements_bound(flags: Seq<bool>)
    ensures
        improvements(flags) <= flags.len(),
    decreases flags.len(),
{
    if flags.len() > 0 {
        lemma_improvements_bound(flags.drop_last());
    }
}

/// Leaving out the first generation takes its improvement off the count.
proof fn lemma_improvements_without_first(flags: Seq<bool>)
    requires
        flags.len() > 0,
    ensures
        improvements(flags.drop_first()) + (if flags[0] {
            1nat
        } else {
            0nat
        }) == improvements(flags),
    decreases flags.len(),
{
    if flags.len() == 1 {
        assert(flags.drop_first() =~= Seq::<bool>::empty());
        assert(flags.drop_last() =~= Seq::<bool>::empty());
    } else {
        lemma_improvements_without_first(flags.drop_last());
        assert(flags.drop_first().drop_last() =~= flags.drop_last().drop_first());
    }
}

/// Computes the share of `count` in `total`.
pub fn share_of(count: usize, total: usize) -> (ratio: u32)
    requires
        count <= total,
    ensures
        ratio == share(count as nat, total as nat),
        ratio <= 1_000_000,
{
    if total == 0 {
        0
    } else {
        proof {
            assert(count * 1_000_000 <= 1_000_000 * total) by (nonlinear_arith)
                requires
                    count <= total,
            ;
            lemma_div_pos_is_pos(count * 1_000_000, total as int);
            lemma_div_is_ordered(count * 1_000_000, 1_000_000 * total, total as int);
            lemma_div_multiples_vanish(1_000_000, total as int);
            assert(1_000_000 * total == total * 1_000_000) by (nonlinear_arith);
        }
        ((count as u128 * 1_000_000) / (total as u128)) as u32
    }
}

/// The tracker of improvements. It remembers of the recent generations
/// whether they improved, and counts.
pub struct ImprovementTracker {
    buffer: Vec<bool>,
    generation: usize,
    total_improvements: usize,
    recent_improvements: usize,
    history: Ghost<Seq<bool>>,
}

impl View for ImprovementTracker {
    type V = Seq<bool>;

    /// For every generation so far, whether it improved the best known solution.
    closed spec fn view(&self) -> Seq<bool> {
        self.history@
    }
}

impl ImprovementTracker {
    /// The number of generations that count as recent.
    pub closed spec fn window(&self) -> nat {
        self.buffer.len() as nat
    }

    /// The invariant: the counts are those of the generations so far, and the
    /// recent generations are remembered each in its slot.
    pub closed spec fn wf(&self) -> bool {
        &&& self.buffer.len() > 0
        &&& self.generation == self.history@.len()
        &&& self.total_improvements == improvements(self.history@)
        &&& self.recent_improvements == improvements(recent(self.history@, self.window()))
        &&& forall|g: int|
            0 <= g < self.generation && self.generation - g <= self.buffer.len()
                ==> self.buffer[g % (self.buffer.len() as int)] == #[trigger] self.history@[g]
    }

    /// A tracker before the first generation, for which the last `capacity`
    /// generations count as recent.
    pub fn new(capacity: usize) -> (tracker: ImprovementTracker)
        requires
            capacity > 0,
        ensures
            tracker.wf(),
            tracker.window() == capacity,
            tracker@.len() == 0,
    {
        let mut buffer: Vec<bool> = Vec::new();
        let mut i: usize = 0;
        while i < capacity
            invariant
                i <= capacity,
                buffer.len() == i,
            decreases capacity - i,
        {
            buffer.push(false);
            i = i + 1;
        }
        ImprovementTracker {
            buffer,
            generation: 0,
            total_improvements: 0,
            recent_improvements: 0,
            history: Ghost(Seq::empty()),
        }
    }

    /// Takes note of a generation.
    pub fn track(&mut self, is_improved: bool)
        requires
            old(self).wf(),
            old(self)@.len() < usize::MAX,
        ensures
            final(self).wf(),
            final(self).window() == old(self).window(),
            final(self)@ == old(self)@.push(is_improved),
    {
        let capacity = self.buffer.len();
        let slot = self.generation % capacity;
        let ghost before = self.history@;
        let ghost after = before.push(is_improved);
        let ghost window = capacity as nat;
        proof {
            lemma_improvements_bound(before);
            lemma_improvements_bound(recent(before, window));
            assert(after.drop_last() =~= before);
        }
        if self.generation >= capacity {
            // the generation that leaves the recent ones is the one in the slot
            proof {
                let leaving = self.generation - capacity;
                lemma_mod_sub_multiples_vanish(self.generation as int, capacity as int);
                assert(leaving % (capacity as int) == slot);
                assert(self.buffer[slot as int] == before[leaving]);
                let old_recent = recent(before, window);
                assert(old_recent[0] == before[leaving]);
                lemma_improvements_without_first(old_recent);
                assert(recent(after, window) =~= old_recent.drop_first().push(is_improved));
                assert(recent(after, window).drop_last() =~= old_recent.drop_first());
            }
            if self.buffer[slot] {
                self.recent_improvements = self.recent_improvements - 1;
            }
        } else {
            proof {
                assert(recent(after, window) =~= recent(before, window).push(is_improved));
                assert(recent(after, window).drop_last() =~= recent(before, window));
            }
        }
        if is_improved {
            self.total_improvements = self.total_improvements + 1;
            self.recent_improvements = self.recent_improvements + 1;
        }
        self.buffer[slot] = is_improved;
        self.generation = self.generation + 1;
        self.history = Ghost(after);
        proof {
            assert forall|g: int|
                0 <= g < self.generation && self.generation - g <= self.buffer.len()
                    implies self.buffer[g % (self.buffer.len() as int)] == #[trigger] after[g] by {
                if g == self.generation - 1 {
                } else {
                    assert(before[g] == after[g]);
                    let distance = self.generation - 1 - g;
                    assert(0 < distance < capacity);
                    lemma_fundamental_div_mod(g, capacity as int);
                    lemma_fundamental_div_mod(self.generation - 1, capacity as int);
                    let q1 = g / (capacity as int);
                    let q2 = (self.generation - 1) / (capacity as int);
                    if g % (capacity as int) == slot {
                        assert(distance == (capacity as int) * (q2 - q1)) by (nonlinear_arith)
                            requires
                                g == (capacity as int) * q1 + slot,
                                self.generation - 1 == (capacity as int) * q2 + slot,
                                distance == self.generation - 1 - g,
                        ;
                        assert(false) by (nonlinear_arith)
                            requires
                                distance == (capacity as int) * (q2 - q1),
                                0 < distance < capacity,
                        ;
                    }
                }
            }
        }
    }

    /// The statistics of the run so far: the number of generations, and the
    /// shares of improving generations among all and among the recent ones.
    pub fn statistics(&self, termination_estimate: u32) -> (statistics: HeuristicStatistics)
        requires
            self.wf(),
        ensures
            statistics.generation == self@.len(),
            statistics.improvement_all_ratio == share(improvements(self@), self@.len()),
            statistics.improvement_1000_ratio == share(
                improvements(recent(self@, self.window())),
                recent(self@, self.window()).len(),
            ),
            statistics.termination_estimate == termination_estimate,
    {
        proof {
            lemma_improvements_bound(self.history@);
            lemma_improvements_bound(recent(self.history@, self.window()));
        }
        let considered = if self.generation <= self.buffer.len() {
            self.generation
        } else {
            self.buffer.len()
        };
        HeuristicStatistics {
            generation: self.generation,
            improvement_all_ratio: share_of(self.total_improvements, self.generation),
            improvement_1000_ratio: share_of(self.recent_improvements, considered),
            termination_estimate,
        }
    }
}

} // verus!
