//! Action-value estimates of one state: for each action, the return that the
//! agent expects from it.

use crate::search_state::SearchAction;
use vstd::prelude::*;

verus! {

/// A `hashbrown::HashMap` from action indices to estimates. Verus sees
/// nothing inside it: what a map holds is named by `estimate_map_contents`,
/// and the functions below say what the methods of the map do to it. The map
/// is held in a structure of its own because its type cannot be declared to
/// Verus: the allocator parameter of the type is bound by a trait of another
/// crate.
#[verifier::external_body]
pub struct EstimateMap {
    inner: hashbrown::HashMap<usize, i64>,
}

/// The entries that an `EstimateMap` holds.
pub uninterp spec fn estimate_map_contents(map: EstimateMap) -> Map<usize, i64>;

/// `hashbrown::HashMap::new`: the new map holds no entry.
#[verifier::external_body]
fn map_new() -> (map: EstimateMap)
    ensures
        estimate_map_contents(map) == (Map::<usize, i64>::empty()),
{
    EstimateMap { inner: hashbrown::HashMap::new() }
}

/// `hashbrown::HashMap::insert`: the entry for `key` is set to `value`, every
/// other entry stays, and the value that `key` had before is returned.
#[verifier::external_body]
fn map_insert(map: &mut EstimateMap, key: usize, value: i64) -> (previous: Option<i64>)
    ensures
        estimate_map_contents(*final(map)) == estimate_map_contents(*old(map)).insert(key, value),
        previous == (if estimate_map_contents(*old(map)).contains_key(key) {
            Some(estimate_map_contents(*old(map))[key])
        } else {
            None
        }),
{
    map.inner.insert(key, value)
}

/// `hashbrown::HashMap::get`: the value of the entry for `key`, if there is one.
#[verifier::external_body]
fn map_get(map: &EstimateMap, key: usize) -> (value: Option<i64>)
    ensures
        value == (if estimate_map_contents(*map).contains_key(key) {
            Some(estimate_map_contents(*map)[key])
        } else {
            None
        }),
{
    map.inner.get(&key).copied()
}

/// `hashbrown::HashMap::keys`: every key of the map once, in an order that is
/// not specified.
#[verifier::external_body]
fn map_keys(map: &EstimateMap) -> (keys: Vec<usize>)
    ensures
        keys@.no_duplicates(),
        forall|key: usize|
            #![trigger keys@.contains(key)]
            #![trigger estimate_map_contents(*map).contains_key(key)]
            keys@.contains(key) <==> estimate_map_contents(*map).contains_key(key),
{
    map.inner.keys().copied().collect()
}

/// `Clone` of `hashbrown::HashMap`: the copy holds the same entries.
#[verifier::external_body]
fn map_clone(map: &EstimateMap) -> (copy: EstimateMap)
    ensures
        estimate_map_contents(copy) == estimate_map_contents(*map),
{
    EstimateMap { inner: map.inner.clone() }
}

/// Whether `key` with `value` is the best entry of `estimates`: no entry has a
/// larger value, and among the entries with that value `key` is the smallest.
pub open spec fn is_max_estimate(estimates: Map<usize, i64>, key: usize, value: i64) -> bool {
    &&& estimates.contains_key(key)
    &&& estimates[key] == value
    &&& forall|other: usize| #[trigger]
        estimates.contains_key(other) ==> estimates[other] < value || (estimates[other] == value
            && key <= other)
}

/// Whether `value` is the smallest value of `estimates`.
pub open spec fn is_min_value(estimates: Map<usize, i64>, value: i64) -> bool {
    &&& exists|key: usize| #[trigger] estimates.contains_key(key) && estimates[key] == value
    &&& forall|other: usize| #[trigger] estimates.contains_key(other) ==> value <= estimates[other]
}

/// The smallest value of `estimates`, where it has any.
pub open spec fn least_value(estimates: Map<usize, i64>) -> i64 {
    choose|value: i64| is_min_value(estimates, value)
}

/// Whether `estimates` has an entry for each of the first `count` action
/// indices and for no other.
pub open spec fn covers(estimates: Map<usize, i64>, count: nat) -> bool {
    forall|key: usize| #[trigger] estimates.contains_key(key) <==> key < count
}

/// The estimates of the actions available in one state.
pub struct ActionEstimates {
    data: EstimateMap,
}

impl View for ActionEstimates {
    type V = Map<usize, i64>;

    /// The estimate of each action, by the action's index.
    closed spec fn view(&self) -> Map<usize, i64> {
        estimate_map_contents(self.data)
    }
}

impl ActionEstimates {
    /// Estimates for no action.
    pub fn new() -> (estimates: ActionEstimates)
        ensures
            estimates@ == (Map::<usize, i64>::empty()),
    {
        ActionEstimates { data: map_new() }
    }

    /// An estimate of zero for each of the first `count` actions.
    pub fn zeros(count: usize) -> (estimates: ActionEstimates)
        ensures
            covers(estimates@, count as nat),
            forall|key: usize| key < count ==> estimates@[key] == 0,
    {
        let mut data = map_new();
        let mut index: usize = 0;
        while index < count
            invariant
                index <= count,
                forall|key: usize| #[trigger]
                    estimate_map_contents(data).contains_key(key) <==> key < index,
                forall|key: usize| key < index ==> estimate_map_contents(data)[key] == 0,
            decreases count - index,
        {
            let _ = map_insert(&mut data, index, 0);
            index = index + 1;
        }
        ActionEstimates { data }
    }

    /// Sets the estimate of the action at `index`.
    pub fn insert(&mut self, index: usize, estimate: i64)
        ensures
            final(self)@ == old(self)@.insert(index, estimate),
    {
        let _ = map_insert(&mut self.data, index, estimate);
    }

    /// The estimate of the action at `index`, if it has one.
    pub fn get(&self, index: usize) -> (estimate: Option<i64>)
        ensures
            estimate == (if self@.contains_key(index) {
                Some(self@[index])
            } else {
                None
            }),
    {
        map_get(&self.data, index)
    }

    /// The indices of the actions that have an estimate, each once, in no
    /// particular order.
    pub fn actions(&self) -> (indices: Vec<usize>)
        ensures
            indices@.no_duplicates(),
            forall|key: usize|
                #![trigger indices@.contains(key)]
                #![trigger self@.contains_key(key)]
                indices@.contains(key) <==> self@.contains_key(key),
    {
        map_keys(&self.data)
    }

    /// Whether no action has an estimate.
    pub fn is_empty(&self) -> (empty: bool)
        ensures
            empty <==> forall|key: usize| !self@.contains_key(key),
    {
        let keys = map_keys(&self.data);
        proof {
            if keys.len() > 0 {
                assert(keys@.contains(keys@[0]));
                assert(self@.contains_key(keys@[0]));
            }
        }
        keys.len() == 0
    }

    /// The best action and its estimate, or nothing when no action has one.
    /// Among equally good actions the one with the smallest index is the best.
    pub fn max_estimate(&self) -> (best: Option<(SearchAction, i64)>)
        ensures
            best is None <==> forall|key: usize| !self@.contains_key(key),
            best matches Some((SearchAction::Search { heuristic_idx }, value)) ==> is_max_estimate(
                self@,
                heuristic_idx,
                value,
            ),
    {
        let keys = map_keys(&self.data);
        if keys.len() == 0 {
            return None;
        }
        assert(keys@.contains(keys@[0]));
        let mut best_key = keys[0];
        let mut best_value = match map_get(&self.data, best_key) {
            Some(value) => value,
            None => 0,
        };
        let mut i: usize = 1;
        while i < keys.len()
            invariant
                1 <= i <= keys.len(),
                forall|key: usize|
                    #![trigger keys@.contains(key)]
                    #![trigger self@.contains_key(key)]
                    keys@.contains(key) <==> self@.contains_key(key),
                self@.contains_key(best_key),
                self@[best_key] == best_value,
                forall|j: int|
                    0 <= j < i ==> self@[#[trigger] keys@[j]] < best_value || (self@[keys@[j]]
                        == best_value && best_key <= keys@[j]),
            decreases keys.len() - i,
        {
            let key = keys[i];
            assert(keys@.contains(key));
            let value = match map_get(&self.data, key) {
                Some(value) => value,
                None => 0,
            };
            if value > best_value || (value == best_value && key < best_key) {
                best_key = key;
                best_value = value;
            }
            i = i + 1;
        }
        proof {
            assert forall|other: usize| #[trigger] self@.contains_key(other) implies self@[other]
                < best_value || (self@[other] == best_value && best_key <= other) by {
                assert(keys@.contains(other));
                let j = choose|j: int| 0 <= j < keys@.len() && keys@[j] == other;
                assert(self@[keys@[j]] < best_value || (self@[keys@[j]] == best_value && best_key
                    <= keys@[j]));
            }
        }
        Some((SearchAction::Search { heuristic_idx: best_key }, best_value))
    }

    /// The smallest estimate, or nothing when no action has one.
    pub fn min_value(&self) -> (least: Option<i64>)
        ensures
            least is None <==> forall|key: usize| !self@.contains_key(key),
            least matches Some(value) ==> is_min_value(self@, value),
    {
        let keys = map_keys(&self.data);
        if keys.len() == 0 {
            return None;
        }
        assert(keys@.contains(keys@[0]));
        let ghost mut witness = keys@[0];
        let mut least = match map_get(&self.data, keys[0]) {
            Some(value) => value,
            None => 0,
        };
        let mut i: usize = 1;
        while i < keys.len()
            invariant
                1 <= i <= keys.len(),
                forall|key: usize|
                    #![trigger keys@.contains(key)]
                    #![trigger self@.contains_key(key)]
                    keys@.contains(key) <==> self@.contains_key(key),
                self@.contains_key(witness),
                self@[witness] == least,
                forall|j: int| 0 <= j < i ==> least <= self@[#[trigger] keys@[j]],
            decreases keys.len() - i,
        {
            let key = keys[i];
            assert(keys@.contains(key));
            let value = match map_get(&self.data, key) {
                Some(value) => value,
                None => 0,
            };
            if value < least {
                least = value;
                proof {
                    witness = key;
                }
            }
            i = i + 1;
        }
        proof {
            assert forall|other: usize| #[trigger] self@.contains_key(other) implies least
                <= self@[other] by {
                assert(keys@.contains(other));
                let j = choose|j: int| 0 <= j < keys@.len() && keys@[j] == other;
                assert(least <= self@[keys@[j]]);
            }
        }
        Some(least)
    }

    /// A copy with the same estimates.
    pub fn copy(&self) -> (estimates: ActionEstimates)
        ensures
            estimates@ == self@,
    {
        ActionEstimates { data: map_clone(&self.data) }
    }
}

} // verus!
