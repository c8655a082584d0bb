//! What the estimate of the remedian is worth: after a full tower of
//! observations, a guaranteed share of them lies on either side of it.

use crate::remedian::{ascending, median_of, observe, observe_all};
use vstd::prelude::*;
use vstd::relations::sorted_by;
use vstd::seq_lib::*;

verus! {

/// The step that counts a value if it is at most `bound`.
pub open spec fn tally_at_most(bound: u64) -> spec_fn(nat, u64) -> nat {
    |count: nat, value: u64|
        if value <= bound {
            count + 1
        } else {
            count
        }
}

/// The step that counts a value if it is at least `bound`.
pub open spec fn tally_at_least(bound: u64) -> spec_fn(nat, u64) -> nat {
    |count: nat, value: u64|
        if value >= bound {
            count + 1
        } else {
            count
        }
}

/// The number of values that are at most `bound`.
pub open spec fn count_at_most(values: Seq<u64>, bound: u64) -> nat {
    values.fold_left(0nat, tally_at_most(bound))
}

/// The number of values that are at least `bound`.
pub open spec fn count_at_least(values: Seq<u64>, bound: u64) -> nat {
    values.fold_left(0nat, tally_at_least(bound))
}

/// `base` to the power of `exponent`.
pub open spec fn power(base: nat, exponent: nat) -> nat
    decreases exponent,
{
    if exponent == 0 {
        1
    } else {
        base * power(base, (exponent - 1) as nat)
    }
}

/// A power of a positive number is positive.
pub proof fn lemma_power_positive(base: nat, exponent: nat)
    requires
        base > 0,
    ensures
        power(base, exponent) > 0,
    decreases exponent,
{
    if exponent > 0 {
        lemma_power_positive(base, (exponent - 1) as nat);
        assert(base * power(base, (exponent - 1) as nat) > 0) by (nonlinear_arith)
            requires
                base > 0,
                power(base, (exponent - 1) as nat) > 0,
        ;
    }
}

/// Counting over a sequence followed by another adds up. The count of the
/// first part may start from any number.
proof fn lemma_fold_adds(f: spec_fn(nat, u64) -> nat, start: nat, values: Seq<u64>)
    requires
        forall|count: nat, value: u64|
            #[trigger] f(count, value) == count || f(count, value) == count + 1,
        forall|count: nat, other: nat, value: u64|
            (#[trigger] f(count, value) == count) <==> (#[trigger] f(other, value) == other),
    ensures
        values.fold_left(start, f) == start + values.fold_left(0nat, f),
        values.fold_left(0nat, f) <= values.len(),
    decreases values.len(),
{
    if values.len() > 0 {
        lemma_fold_adds(f, start, values.drop_last());
        let a = values.drop_last().fold_left(start, f);
        let b = values.drop_last().fold_left(0nat, f);
        assert(f(a, values.last()) == a <==> f(b, values.last()) == b);
    }
}

/// The count over two sequences joined is the sum of their counts.
pub proof fn lemma_count_at_most_adds(first: Seq<u64>, second: Seq<u64>, bound: u64)
    ensures
        count_at_most(first + second, bound) == count_at_most(first, bound) + count_at_most(
            second,
            bound,
        ),
        count_at_most(first, bound) <= first.len(),
{
    let f = tally_at_most(bound);
    let joined = first + second;
    joined.lemma_fold_left_split(0nat, f, first.len() as int);
    assert(joined.subrange(0, first.len() as int) =~= first);
    assert(joined.subrange(first.len() as int, joined.len() as int) =~= second);
    lemma_fold_adds(f, first.fold_left(0nat, f), second);
    lemma_fold_adds(f, 0nat, first);
}

/// The count over two sequences joined is the sum of their counts.
pub proof fn lemma_count_at_least_adds(first: Seq<u64>, second: Seq<u64>, bound: u64)
    ensures
        count_at_least(first + second, bound) == count_at_least(first, bound) + count_at_least(
            second,
            bound,
        ),
        count_at_least(first, bound) <= first.len(),
{
    let f = tally_at_least(bound);
    let joined = first + second;
    joined.lemma_fold_left_split(0nat, f, first.len() as int);
    assert(joined.subrange(0, first.len() as int) =~= first);
    assert(joined.subrange(first.len() as int, joined.len() as int) =~= second);
    lemma_fold_adds(f, first.fold_left(0nat, f), second);
    lemma_fold_adds(f, 0nat, first);
}

/// A larger bound counts at least as many values.
pub proof fn lemma_count_at_most_grows(values: Seq<u64>, low: u64, high: u64)
    requires
        low <= high,
    ensures
        count_at_most(values, low) <= count_at_most(values, high),
    decreases values.len(),
{
    if values.len() > 0 {
        lemma_count_at_most_grows(values.drop_last(), low, high);
    }
}

/// A smaller bound counts at least as many values.
pub proof fn lemma_count_at_least_grows(values: Seq<u64>, low: u64, high: u64)
    requires
        low <= high,
    ensures
        count_at_least(values, high) <= count_at_least(values, low),
    decreases values.len(),
{
    if values.len() > 0 {
        lemma_count_at_least_grows(values.drop_last(), low, high);
    }
}

/// Where every value is at most the bound, all are counted.
proof fn lemma_count_all_at_most(values: Seq<u64>, bound: u64)
    requires
        forall|i: int| 0 <= i < values.len() ==> values[i] <= bound,
    ensures
        count_at_most(values, bound) == values.len(),
    decreases values.len(),
{
    if values.len() > 0 {
        lemma_count_all_at_most(values.drop_last(), bound);
    }
}

/// Where every value is at least the bound, all are counted.
proof fn lemma_count_all_at_least(values: Seq<u64>, bound: u64)
    requires
        forall|i: int| 0 <= i < values.len() ==> values[i] >= bound,
    ensures
        count_at_least(values, bound) == values.len(),
    decreases values.len(),
{
    if values.len() > 0 {
        lemma_count_all_at_least(values.drop_last(), bound);
    }
}

/// The median has its share of the values on either side: more than half of
/// them are at most the median, and at least half of them, rounded up, are
/// at least the median.
pub proof fn lemma_median_rank(values: Seq<u64>)
    requires
        values.len() > 0,
    ensures
        count_at_most(values, median_of(values)) >= values.len() / 2 + 1,
        count_at_least(values, median_of(values)) >= values.len() - values.len() / 2,
{
    let sorted = values.sort_by(ascending());
    values.lemma_sort_by_ensures(ascending());
    sorted.to_multiset_ensures();
    values.to_multiset_ensures();
    let n = values.len() as int;
    assert(sorted.len() == n);
    let middle = n / 2;
    let m = sorted[middle];
    // counts do not depend on the order
    assert(vstd::seq_lib::commutative_foldl(tally_at_most(m)));
    assert(vstd::seq_lib::commutative_foldl(tally_at_least(m)));
    lemma_fold_left_permutation(values, sorted, tally_at_most(m), 0nat);
    lemma_fold_left_permutation(values, sorted, tally_at_least(m), 0nat);
    // the values up to the middle are at most the median
    let lower = sorted.subrange(0, middle + 1);
    let rest = sorted.subrange(middle + 1, n);
    assert(sorted =~= lower + rest);
    assert forall|i: int| 0 <= i < lower.len() implies lower[i] <= m by {
        if i < middle {
            assert(ascending()(sorted[i], sorted[middle]));
        }
    }
    lemma_count_all_at_most(lower, m);
    lemma_count_at_most_adds(lower, rest, m);
    // the values from the middle on are at least the median
    let before = sorted.subrange(0, middle);
    let upper = sorted.subrange(middle, n);
    assert(sorted =~= before + upper);
    assert forall|i: int| 0 <= i < upper.len() implies upper[i] >= m by {
        if i > 0 {
            assert(ascending()(sorted[middle], sorted[middle + i]));
        }
    }
    lemma_count_all_at_least(upper, m);
    lemma_count_at_least_adds(before, upper, m);
}

} // verus!

verus! {

/// The `i`-th block of `size` values.
pub open spec fn block(values: Seq<u64>, size: nat, i: int) -> Seq<u64> {
    values.subrange(i * size, (i + 1) * size)
}

/// The remedian of `base` to the power of `depth` values: the value itself
/// at depth zero; above that, the median of the remedians of the `base`
/// blocks that the values fall into.
pub open spec fn remedian_of(values: Seq<u64>, base: nat, depth: nat) -> u64
    decreases depth,
{
    if depth == 0 {
        values[0]
    } else {
        median_of(block_remedians(values, base, depth, base))
    }
}

/// The remedians of the first `count` blocks of the values at `depth`.
pub open spec fn block_remedians(values: Seq<u64>, base: nat, depth: nat, count: nat) -> Seq<u64>
    decreases depth, 0nat,
    when depth > 0
{
    Seq::new(
        count,
        |i: int| remedian_of(block(values, power(base, (depth - 1) as nat), i), base, (depth - 1) as nat),
    )
}

/// A tower of `levels` empty levels.
pub open spec fn empties(levels: nat) -> Seq<Seq<u64>> {
    Seq::new(levels, |i: int| Seq::<u64>::empty())
}

/// Observing one sequence after another is observing them joined.
pub proof fn lemma_observe_all_joins(
    levels: Seq<Seq<u64>>,
    base: nat,
    first: Seq<u64>,
    second: Seq<u64>,
)
    ensures
        observe_all(levels, base, first + second) == observe_all(
            observe_all(levels, base, first),
            base,
            second,
        ),
    decreases second.len(),
{
    if second.len() == 0 {
        assert(first + second =~= first);
    } else {
        lemma_observe_all_joins(levels, base, first, second.drop_last());
        assert((first + second).drop_last() =~= first + second.drop_last());
        assert((first + second).last() == second.last());
    }
}

} // verus!

verus! {

/// The bounds of the `i`-th of `base` blocks of `size` values.
proof fn lemma_block_bounds(base: nat, size: nat, i: int)
    requires
        0 <= i < base,
    ensures
        0 <= i * size,
        (i + 1) * size == i * size + size,
        (i + 1) * size <= base * size,
{
    assert(0 <= i * size && (i + 1) * size == i * size + size && (i + 1) * size <= base * size)
        by (nonlinear_arith)
        requires
            0 <= i < base,
            size >= 0,
    ;
}

/// While the blocks of a tower of values arrive, their remedians gather at
/// the level below `depth`: after `count` blocks, fewer than `base`, that
/// level holds the remedians of the blocks, and nothing else has changed.
proof fn lemma_blocks_gather(
    levels: Seq<Seq<u64>>,
    base: nat,
    values: Seq<u64>,
    depth: nat,
    count: nat,
)
    requires
        base >= 2,
        depth > 0,
        values.len() == power(base, depth),
        levels.len() >= depth,
        forall|i: int| 0 <= i < depth ==> (#[trigger] levels[i]).len() == 0,
        count < base,
    ensures
        observe_all(
            levels,
            base,
            values.subrange(0, (count * power(base, (depth - 1) as nat)) as int),
        ) == levels.update(depth - 1, block_remedians(values, base, depth, count)),
    decreases depth, 0nat, count,
{
    let size = power(base, (depth - 1) as nat);
    lemma_power_positive(base, (depth - 1) as nat);
    assert(values.len() == base * size);
    if count == 0 {
        assert(0 * size == 0) by (nonlinear_arith);
        assert(values.subrange(0, 0) =~= Seq::<u64>::empty());
        assert(levels.update(depth - 1, block_remedians(values, base, depth, 0)) =~= levels) by {
            assert(block_remedians(values, base, depth, 0) =~= levels[depth - 1]);
        }
    } else {
        let before = (count - 1) as nat;
        lemma_blocks_gather(levels, base, values, depth, before);
        lemma_block_bounds(base, size, before as int);
        let prefix = values.subrange(0, (before * size) as int);
        let arriving = block(values, size, before as int);
        assert(values.subrange(0, (count * size) as int) =~= prefix + arriving);
        lemma_observe_all_joins(levels, base, prefix, arriving);
        let gathered = block_remedians(values, base, depth, before);
        let standing = levels.update(depth - 1, gathered);
        let r = remedian_of(arriving, base, (depth - 1) as nat);
        lemma_block_arrives(standing, base, arriving, (depth - 1) as nat);
        assert(standing[depth - 1].push(r) =~= block_remedians(values, base, depth, count));
        assert(observe(standing, base, (depth - 1) as nat, r) =~= levels.update(
            depth - 1,
            block_remedians(values, base, depth, count),
        ));
    }
}

/// A tower of values that arrives at a tower of levels whose levels below
/// `depth` are empty does what its remedian does when it arrives at the
/// level `depth`.
pub proof fn lemma_block_arrives(levels: Seq<Seq<u64>>, base: nat, values: Seq<u64>, depth: nat)
    requires
        base >= 2,
        values.len() == power(base, depth),
        levels.len() > depth,
        forall|i: int| 0 <= i < depth ==> (#[trigger] levels[i]).len() == 0,
    ensures
        observe_all(levels, base, values) == observe(
            levels,
            base,
            depth,
            remedian_of(values, base, depth),
        ),
    decreases depth, 1nat, 0nat,
{
    if depth == 0 {
        assert(values.drop_last() =~= Seq::<u64>::empty());
        assert(observe_all(levels, base, values.drop_last()) == levels);
    } else {
        let size = power(base, (depth - 1) as nat);
        lemma_power_positive(base, (depth - 1) as nat);
        let before = (base - 1) as nat;
        lemma_blocks_gather(levels, base, values, depth, before);
        lemma_block_bounds(base, size, before as int);
        let prefix = values.subrange(0, (before * size) as int);
        let arriving = block(values, size, before as int);
        assert(values =~= prefix + arriving);
        lemma_observe_all_joins(levels, base, prefix, arriving);
        let gathered = block_remedians(values, base, depth, before);
        let standing = levels.update(depth - 1, gathered);
        let r = remedian_of(arriving, base, (depth - 1) as nat);
        lemma_block_arrives(standing, base, arriving, (depth - 1) as nat);
        assert(gathered.push(r) =~= block_remedians(values, base, depth, base));
        assert(levels[depth - 1] =~= Seq::<u64>::empty());
        assert(standing.update(depth - 1, Seq::empty()) =~= levels);
    }
}

} // verus!

verus! {

/// While the first blocks of a tower of values arrive at an estimator
/// without observations, their remedians gather on top of empty levels.
proof fn lemma_first_blocks_gather(base: nat, values: Seq<u64>, depth: nat, count: nat)
    requires
        base >= 2,
        depth > 0,
        values.len() == power(base, depth),
        1 <= count < base,
    ensures
        observe_all(
            Seq::empty(),
            base,
            values.subrange(0, (count * power(base, (depth - 1) as nat)) as int),
        ) == empties((depth - 1) as nat).push(block_remedians(values, base, depth, count)),
    decreases depth, 0nat, count,
{
    let size = power(base, (depth - 1) as nat);
    lemma_power_positive(base, (depth - 1) as nat);
    assert(values.len() == base * size);
    let before = (count - 1) as nat;
    lemma_block_bounds(base, size, before as int);
    let arriving = block(values, size, before as int);
    let r = remedian_of(arriving, base, (depth - 1) as nat);
    if count == 1 {
        assert(0 * size == 0) by (nonlinear_arith);
        assert(values.subrange(0, (count * size) as int) =~= arriving);
        lemma_tower_from_nothing(base, arriving, (depth - 1) as nat);
        assert(block_remedians(values, base, depth, 1) =~= seq![r]);
    } else {
        lemma_first_blocks_gather(base, values, depth, before);
        let prefix = values.subrange(0, (before * size) as int);
        assert(values.subrange(0, (count * size) as int) =~= prefix + arriving);
        lemma_observe_all_joins(Seq::empty(), base, prefix, arriving);
        let gathered = block_remedians(values, base, depth, before);
        let standing = empties((depth - 1) as nat).push(gathered);
        lemma_block_arrives(standing, base, arriving, (depth - 1) as nat);
        assert(gathered.push(r) =~= block_remedians(values, base, depth, count));
        assert(observe(standing, base, (depth - 1) as nat, r) =~= empties((depth - 1) as nat).push(
            block_remedians(values, base, depth, count),
        ));
    }
}

/// After a full tower of values, `base` to the power of `depth` of them, an
/// estimator that started without observations holds their remedian on top
/// of `depth` empty levels.
pub proof fn lemma_tower_from_nothing(base: nat, values: Seq<u64>, depth: nat)
    requires
        base >= 2,
        values.len() == power(base, depth),
    ensures
        observe_all(Seq::empty(), base, values) == empties(depth).push(
            seq![remedian_of(values, base, depth)],
        ),
    decreases depth, 1nat, 0nat,
{
    if depth == 0 {
        assert(values.drop_last() =~= Seq::<u64>::empty());
        assert(observe_all(Seq::empty(), base, values.drop_last()) == Seq::<Seq<u64>>::empty());
        assert(Seq::<Seq<u64>>::empty() =~= empties(0));
        assert(observe(empties(0), base, 0, values[0]) == empties(0).push(seq![values[0]]));
    } else {
        let size = power(base, (depth - 1) as nat);
        lemma_power_positive(base, (depth - 1) as nat);
        let before = (base - 1) as nat;
        lemma_first_blocks_gather(base, values, depth, before);
        lemma_block_bounds(base, size, before as int);
        let prefix = values.subrange(0, (before * size) as int);
        let arriving = block(values, size, before as int);
        assert(values =~= prefix + arriving);
        lemma_observe_all_joins(Seq::empty(), base, prefix, arriving);
        let gathered = block_remedians(values, base, depth, before);
        let standing = empties((depth - 1) as nat).push(gathered);
        let r = remedian_of(arriving, base, (depth - 1) as nat);
        lemma_block_arrives(standing, base, arriving, (depth - 1) as nat);
        assert(gathered.push(r) =~= block_remedians(values, base, depth, base));
        assert(standing.update(depth - 1, Seq::empty()) =~= empties(depth));
        let m = remedian_of(values, base, depth);
        assert(observe(empties(depth), base, depth, m) == empties(depth).push(seq![m]));
        assert(observe(standing, base, (depth - 1) as nat, r) == observe(
            empties(depth),
            base,
            depth,
            m,
        ));
    }
}

/// The counts over the first blocks of a tower of values: each block whose
/// remedian is at most the bound has its guaranteed share of values at most
/// the bound, and likewise for the values at least the bound.
proof fn lemma_blocks_count(base: nat, values: Seq<u64>, depth: nat, bound: u64, count: nat)
    requires
        base >= 2,
        depth > 0,
        values.len() == power(base, depth),
        count <= base,
    ensures
        count_at_most(
            values.subrange(0, (count * power(base, (depth - 1) as nat)) as int),
            bound,
        ) >= power(base / 2 + 1, (depth - 1) as nat) * count_at_most(
            block_remedians(values, base, depth, count),
            bound,
        ),
        count_at_least(
            values.subrange(0, (count * power(base, (depth - 1) as nat)) as int),
            bound,
        ) >= power((base - base / 2) as nat, (depth - 1) as nat) * count_at_least(
            block_remedians(values, base, depth, count),
            bound,
        ),
    decreases depth, 0nat, count,
{
    let size = power(base, (depth - 1) as nat);
    let low = power(base / 2 + 1, (depth - 1) as nat);
    let high = power((base - base / 2) as nat, (depth - 1) as nat);
    lemma_power_positive(base, (depth - 1) as nat);
    assert(values.len() == base * size);
    if count == 0 {
        assert(0 * size == 0) by (nonlinear_arith);
        assert(values.subrange(0, 0) =~= Seq::<u64>::empty());
        assert(block_remedians(values, base, depth, 0) =~= Seq::<u64>::empty());
        assert(low * 0 == 0 && high * 0 == 0) by (nonlinear_arith);
    } else {
        let before = (count - 1) as nat;
        lemma_blocks_count(base, values, depth, bound, before);
        lemma_block_bounds(base, size, before as int);
        let prefix = values.subrange(0, (before * size) as int);
        let arriving = block(values, size, before as int);
        assert(values.subrange(0, (count * size) as int) =~= prefix + arriving);
        lemma_count_at_most_adds(prefix, arriving, bound);
        lemma_count_at_least_adds(prefix, arriving, bound);
        let gathered = block_remedians(values, base, depth, before);
        let r = remedian_of(arriving, base, (depth - 1) as nat);
        let all = block_remedians(values, base, depth, count);
        assert(all =~= gathered.push(r));
        assert(all.drop_last() =~= gathered);
        lemma_remedian_rank(base, arriving, (depth - 1) as nat);
        let most = count_at_most(gathered, bound);
        let least = count_at_least(gathered, bound);
        if r <= bound {
            lemma_count_at_most_grows(arriving, r, bound);
            assert(count_at_most(all, bound) == most + 1);
            assert(low * (most + 1) == low * most + low) by (nonlinear_arith);
        } else {
            assert(count_at_most(all, bound) == most);
        }
        if r >= bound {
            lemma_count_at_least_grows(arriving, bound, r);
            assert(count_at_least(all, bound) == least + 1);
            assert(high * (least + 1) == high * least + high) by (nonlinear_arith);
        } else {
            assert(count_at_least(all, bound) == least);
        }
    }
}

/// The rank of the remedian. Of `base` to the power of `depth` values, at
/// least `base / 2 + 1` to the power of `depth` are at most their remedian,
/// and at least `base - base / 2` to the power of `depth` are at least their
/// remedian. With buckets of eleven, six of every eleven at each level: at
/// least 36 of 121 values, and 216 of 1331, on either side.
pub proof fn lemma_remedian_rank(base: nat, values: Seq<u64>, depth: nat)
    requires
        base >= 2,
        values.len() == power(base, depth),
    ensures
        count_at_most(values, remedian_of(values, base, depth)) >= power(base / 2 + 1, depth),
        count_at_least(values, remedian_of(values, base, depth)) >= power(
            (base - base / 2) as nat,
            depth,
        ),
    decreases depth, 1nat, 0nat,
{
    if depth == 0 {
        assert(values.drop_last() =~= Seq::<u64>::empty());
        assert(values.last() == values[0]);
    } else {
        let size = power(base, (depth - 1) as nat);
        let low = power(base / 2 + 1, (depth - 1) as nat);
        let high = power((base - base / 2) as nat, (depth - 1) as nat);
        let medians = block_remedians(values, base, depth, base);
        let m = median_of(medians);
        lemma_blocks_count(base, values, depth, m, base);
        assert(values.subrange(0, (base * size) as int) =~= values);
        lemma_median_rank(medians);
        let most = count_at_most(medians, m);
        let least = count_at_least(medians, m);
        assert(low * most >= (base / 2 + 1) * low) by (nonlinear_arith)
            requires
                most >= base / 2 + 1,
                low >= 0,
        ;
        assert(high * least >= (base - base / 2) * high) by (nonlinear_arith)
            requires
                least >= base - base / 2,
                high >= 0,
        ;
    }
}

/// The worth of the estimate. After exactly `base` to the power of `depth`
/// observations, an estimator that started without any estimates their
/// remedian, and a guaranteed share of the observations lies on either side
/// of the estimate.
pub proof fn lemma_estimate_after_full_tower(base: nat, values: Seq<u64>, depth: nat)
    requires
        base >= 2,
        values.len() == power(base, depth),
    ensures
        ({
            let levels = observe_all(Seq::empty(), base, values);
            let estimate = median_of(levels.last());
            &&& levels.len() == depth + 1
            &&& estimate == remedian_of(values, base, depth)
            &&& count_at_most(values, estimate) >= power(base / 2 + 1, depth)
            &&& count_at_least(values, estimate) >= power((base - base / 2) as nat, depth)
        }),
{
    lemma_tower_from_nothing(base, values, depth);
    lemma_remedian_rank(base, values, depth);
    let top = seq![remedian_of(values, base, depth)];
    crate::remedian::lemma_median_is_element(top);
}

} // verus!
