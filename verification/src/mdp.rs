//! The Markov decision process behind the selection of operators: the table
//! of estimates per state, the agents that act, and the simulator that runs
//! their episodes and learns from them.

use crate::estimates::ActionEstimates;
use crate::learning::{learned_value, reduce_values, reduced_value, EpsilonWeighted, MonteCarlo};
use crate::search_state::{SearchAction, SearchState, STATE_COUNT};
use vstd::prelude::*;

verus! {

/// The estimates of every state that has some, by the index of the state.
/// There are six states, so the table is a vector of six slots: a hash map
/// of the estimates by state would have to hold values that are no plain
/// values, and keys with an equality of their own.
pub struct StateEstimates {
    slots: Vec<Option<ActionEstimates>>,
}

impl View for StateEstimates {
    type V = Seq<Option<Map<usize, i64>>>;

    /// For each state index, the estimates of the state, if it has any.
    closed spec fn view(&self) -> Seq<Option<Map<usize, i64>>> {
        Seq::new(
            STATE_COUNT as nat,
            |i: int|
                if i < self.slots.len() {
                    match self.slots[i] {
                        Some(estimates) => Some(estimates@),
                        None => None,
                    }
                } else {
                    None
                },
        )
    }
}

impl StateEstimates {
    #[verifier::type_invariant]
    spec fn one_slot_per_state(self) -> bool {
        self.slots.len() == STATE_COUNT
    }

    /// The view has one entry per state.
    pub proof fn lemma_view_len(&self)
        ensures
            self@.len() == STATE_COUNT,
    {
    }

    /// A table in which no state has estimates.
    pub fn new() -> (table: StateEstimates)
        ensures
            table@ == Seq::new(STATE_COUNT as nat, |i: int| None::<Map<usize, i64>>),
    {
        let mut slots: Vec<Option<ActionEstimates>> = Vec::new();
        let mut i: usize = 0;
        while i < STATE_COUNT
            invariant
                i <= STATE_COUNT,
                slots.len() == i,
                forall|k: int| 0 <= k < i ==> slots[k] is None,
            decreases STATE_COUNT - i,
        {
            slots.push(None);
            i = i + 1;
        }
        let table = StateEstimates { slots };
        assert(table@ =~= Seq::new(STATE_COUNT as nat, |i: int| None::<Map<usize, i64>>));
        table
    }

    /// The estimates of the state at `index`, if it has any.
    pub fn at(&self, index: usize) -> (estimates: Option<&ActionEstimates>)
        requires
            index < STATE_COUNT,
        ensures
            match estimates {
                Some(found) => self@[index as int] == Some(found@),
                None => self@[index as int] is None,
            },
    {
        proof {
            use_type_invariant(self);
        }
        match &self.slots[index] {
            Some(estimates) => Some(estimates),
            None => None,
        }
    }

    /// The estimates of `state`, if it has any.
    pub fn get(&self, state: &SearchState) -> (estimates: Option<&ActionEstimates>)
        ensures
            match estimates {
                Some(found) => self@[state.index_spec()] == Some(found@),
                None => self@[state.index_spec()] is None,
            },
    {
        self.at(state.index())
    }

    /// Gives the state at `index` the estimates `estimates`.
    pub fn set(&mut self, index: usize, estimates: ActionEstimates)
        requires
            index < STATE_COUNT,
        ensures
            final(self)@ == old(self)@.update(index as int, Some(estimates@)),
    {
        proof {
            use_type_invariant(&*self);
        }
        self.slots[index] = Some(estimates);
        assert(self@ =~= old(self)@.update(index as int, Some(estimates@)));
    }

    /// Gives `state` the estimates `estimates`.
    pub fn insert(&mut self, state: SearchState, estimates: ActionEstimates)
        ensures
            final(self)@ == old(self)@.update(state.index_spec(), Some(estimates@)),
    {
        self.set(state.index(), estimates);
    }
}

} // verus!

verus! {

/// One value learnt in an episode: the new estimate of an action taken in a state.
#[derive(Clone, Copy, Debug)]
pub struct Experience {
    /// The index of the state in which the action was taken.
    pub state: usize,
    /// The index of the action.
    pub action: usize,
    /// The value that the learning rule gave the action.
    pub value: i64,
}

/// The values learnt for `action` in the state at `state`, in the order in
/// which they were learnt.
pub open spec fn values_for(experiences: Seq<Experience>, state: int, action: usize) -> Seq<i64>
    decreases experiences.len(),
{
    if experiences.len() == 0 {
        Seq::empty()
    } else {
        let earlier = values_for(experiences.drop_last(), state, action);
        if experiences.last().state == state && experiences.last().action == action {
            earlier.push(experiences.last().value)
        } else {
            earlier
        }
    }
}

/// Whether anything was learnt in the state at `state`.
pub open spec fn visits(experiences: Seq<Experience>, state: int) -> bool {
    exists|j: int| 0 <= j < experiences.len() && (#[trigger] experiences[j]).state == state
}

/// The estimates that learning in a state starts from: those of the table,
/// else those that an agent brought for the state, else none.
pub open spec fn base_of(
    table: Seq<Option<Map<usize, i64>>>,
    seeds: Seq<Option<Map<usize, i64>>>,
    state: int,
) -> Map<usize, i64> {
    match table[state] {
        Some(estimates) => estimates,
        None => match seeds[state] {
            Some(estimates) => estimates,
            None => Map::empty(),
        },
    }
}

/// The estimates of a state after a batch: each action for which values were
/// learnt takes their reduction, every other action keeps its estimate. No
/// action comes or goes.
pub open spec fn learnt(base: Map<usize, i64>, experiences: Seq<Experience>, state: int) -> Map<
    usize,
    i64,
> {
    Map::new(
        |action: usize| base.contains_key(action),
        |action: usize|
            if values_for(experiences, state, action).len() > 0 {
                reduced_value(state, values_for(experiences, state, action)) as i64
            } else {
                base[action]
            },
    )
}

/// The entry of a state after a batch: a state in which nothing was learnt
/// keeps its entry; any other has the estimates learnt from its base.
pub open spec fn merged(
    table: Seq<Option<Map<usize, i64>>>,
    seeds: Seq<Option<Map<usize, i64>>>,
    experiences: Seq<Experience>,
    state: int,
) -> Option<Map<usize, i64>> {
    if visits(experiences, state) {
        Some(learnt(base_of(table, seeds, state), experiences, state))
    } else {
        table[state]
    }
}

fn collect_values(experiences: &Vec<Experience>, state: usize, action: usize) -> (values: Vec<i64>)
    ensures
        values@ == values_for(experiences@, state as int, action),
{
    let mut values: Vec<i64> = Vec::new();
    let mut j: usize = 0;
    while j < experiences.len()
        invariant
            j <= experiences.len(),
            values@ == values_for(experiences@.subrange(0, j as int), state as int, action),
        decreases experiences.len() - j,
    {
        assert(experiences@.subrange(0, j + 1).drop_last() =~= experiences@.subrange(0, j as int));
        if experiences[j].state == state && experiences[j].action == action {
            values.push(experiences[j].value);
        }
        j = j + 1;
    }
    assert(experiences@.subrange(0, experiences.len() as int) =~= experiences@);
    values
}

fn is_visited(experiences: &Vec<Experience>, state: usize) -> (visited: bool)
    ensures
        visited == visits(experiences@, state as int),
{
    let mut j: usize = 0;
    while j < experiences.len()
        invariant
            j <= experiences.len(),
            forall|k: int| 0 <= k < j ==> (#[trigger] experiences[k]).state != state,
        decreases experiences.len() - j,
    {
        if experiences[j].state == state {
            return true;
        }
        j = j + 1;
    }
    false
}

/// Brings what a batch of episodes learnt into the table.
pub fn learn(table: &mut StateEstimates, seeds: &StateEstimates, experiences: &Vec<Experience>)
    ensures
        forall|state: int|
            0 <= state < STATE_COUNT ==> #[trigger] final(table)@[state] == merged(
                old(table)@,
                seeds@,
                experiences@,
                state,
            ),
{
    let mut state: usize = 0;
    while state < STATE_COUNT
        invariant
            state <= STATE_COUNT,
            forall|s: int|
                0 <= s < state ==> #[trigger] table@[s] == merged(
                    old(table)@,
                    seeds@,
                    experiences@,
                    s,
                ),
            forall|s: int| state <= s < STATE_COUNT ==> #[trigger] table@[s] == old(table)@[s],
        decreases STATE_COUNT - state,
    {
        if is_visited(experiences, state) {
            let mut estimates = match table.at(state) {
                Some(found) => found.copy(),
                None => match seeds.at(state) {
                    Some(found) => found.copy(),
                    None => ActionEstimates::new(),
                },
            };
            let ghost base = estimates@;
            assert(base == base_of(old(table)@, seeds@, state as int));
            let actions = estimates.actions();
            let mut i: usize = 0;
            while i < actions.len()
                invariant
                    i <= actions.len(),
                    state < STATE_COUNT,
                    actions@.no_duplicates(),
                    forall|key: usize|
                        #![trigger actions@.contains(key)]
                        #![trigger base.contains_key(key)]
                        actions@.contains(key) <==> base.contains_key(key),
                    forall|key: usize| #[trigger]
                        estimates@.contains_key(key) <==> base.contains_key(key),
                    forall|k: int|
                        0 <= k < i ==> estimates@[#[trigger] actions@[k]] == learnt(
                            base,
                            experiences@,
                            state as int,
                        )[actions@[k]],
                    forall|k: int|
                        i <= k < actions.len() ==> estimates@[#[trigger] actions@[k]]
                            == base[actions@[k]],
                decreases actions.len() - i,
            {
                let action = actions[i];
                assert(actions@.contains(action));
                let values = collect_values(experiences, state, action);
                if values.len() > 0 {
                    let reduced = reduce_values(state, &values);
                    estimates.insert(action, reduced);
                }
                i = i + 1;
            }
            proof {
                let goal = learnt(base, experiences@, state as int);
                assert forall|key: usize| #[trigger] estimates@.contains_key(key) implies estimates@[key]
                    == goal[key] by {
                    assert(actions@.contains(key));
                    let k = choose|k: int| 0 <= k < actions@.len() && actions@[k] == key;
                    assert(estimates@[actions@[k]] == goal[actions@[k]]);
                }
                assert(estimates@ =~= goal);
            }
            table.set(state, estimates);
        }
        state = state + 1;
    }
}

} // verus!

verus! {

/// An actor of the decision process. It holds a state, offers the estimates
/// from which its actions are drawn, and acts.
pub trait Agent {
    /// The invariant that the agent keeps while it acts. An agent that has
    /// none keeps this default.
    open spec fn inv(&self) -> bool {
        true
    }

    /// The model of the number of actions that the agent still takes in its
    /// episode, at most.
    open spec fn steps_left(&self) -> nat {
        arbitrary()
    }

    /// The model of the estimates that the agent offers in the state at `state`.
    open spec fn offered(&self, state: int) -> Map<usize, i64> {
        arbitrary()
    }

    /// The model of the state of the agent.
    open spec fn state_spec(&self) -> SearchState {
        arbitrary()
    }

    /// Whether `after` is this agent after it has taken `action`. An agent
    /// that tells nothing about its actions keeps this default.
    open spec fn acted(&self, action: SearchAction, after: &Self) -> bool {
        true
    }

    /// The state of the agent.
    fn get_state(&self) -> (state: SearchState)
        ensures
            state == self.state_spec(),
    ;

    /// Whether the episode of the agent goes on.
    fn can_act(&self) -> (acting: bool)
        ensures
            acting == (self.steps_left() > 0),
    ;

    /// The estimates that the agent starts from in `state`.
    fn get_actions(&self, state: &SearchState) -> (estimates: ActionEstimates)
        requires
            self.inv(),
        ensures
            estimates@ == self.offered(state.index_spec()),
    ;

    /// Takes an action, which changes the state. An agent that could act
    /// has fewer steps left after it; what it offers stays the same.
    fn take_action(&mut self, action: &SearchAction)
        requires
            old(self).inv(),
        ensures
            final(self).inv(),
            old(self).acted(*action, final(self)),
            old(self).steps_left() > 0 ==> final(self).steps_left() < old(self).steps_left(),
            forall|state: int| final(self).offered(state) == old(self).offered(state),
    ;
}

/// An episode: the agent as it was before and after each of its actions, and
/// the actions.
pub struct Episode<A> {
    /// The agent at the start, and after each action.
    pub path: Seq<A>,
    /// The actions, in the order in which they were taken.
    pub actions: Seq<SearchAction>,
}

/// Whether every agent of the path of an episode but the last could act, and
/// the next is this agent after the action at its position.
pub open spec fn is_trail<A: Agent>(episode: Episode<A>) -> bool {
    &&& episode.path.len() == episode.actions.len() + 1
    &&& forall|k: int|
        0 <= k < episode.actions.len() ==> (#[trigger] episode.path[k]).steps_left() > 0
            && episode.path[k].acted(episode.actions[k], &episode.path[k + 1])
}

/// Whether the agent `after` is the agent `before` after an episode: after
/// some actions, none too, each taken while the agent could act.
pub open spec fn reached<A: Agent>(before: A, after: A) -> bool {
    exists|episode: Episode<A>|
        #[trigger] is_trail(episode) && episode.path.first() == before && episode.path.last()
            == after
}

/// Whether a set of actions holds one.
pub open spec fn offers(actions: Set<usize>) -> bool {
    exists|key: usize| actions.contains(key)
}

/// Whether an agent can find an action in the state at `state`: the table
/// has estimates for the state, or else some agent offers some.
pub open spec fn offered_by_any<A: Agent>(
    table: Seq<Option<Map<usize, i64>>>,
    agents: Seq<A>,
    state: int,
) -> bool {
    match table[state] {
        Some(estimates) => offers(estimates.dom()),
        None => exists|k: int| 0 <= k < agents.len() && offers((#[trigger] agents[k]).offered(state).dom()),
    }
}

/// Whether every agent finds an action in the state at `state`: the table has
/// estimates for the state, or else every agent offers some.
pub open spec fn offered_to_all<A: Agent>(
    table: Seq<Option<Map<usize, i64>>>,
    agents: Seq<A>,
    state: int,
) -> bool {
    match table[state] {
        Some(estimates) => offers(estimates.dom()),
        None => forall|k: int| 0 <= k < agents.len() ==> offers((#[trigger] agents[k]).offered(state).dom()),
    }
}

/// What a batch may have done to the entry of one state. An entry that was
/// there keeps its actions. A new entry has the actions that one of the
/// agents offers in the state, and at least one.
pub open spec fn entry_evolved<A: Agent>(
    before: Option<Map<usize, i64>>,
    after: Option<Map<usize, i64>>,
    agents: Seq<A>,
    state: int,
) -> bool {
    match (before, after) {
        (Some(old_estimates), Some(new_estimates)) => new_estimates.dom() == old_estimates.dom(),
        (None, Some(new_estimates)) => {
            &&& exists|key: usize| new_estimates.contains_key(key)
            &&& exists|i: int|
                0 <= i < agents.len() && new_estimates.dom() == (#[trigger] agents[i]).offered(
                    state,
                ).dom()
        },
        (Some(_), None) => false,
        (None, None) => true,
    }
}

/// Whether the table `after` is the table `before` with what the experiences
/// teach brought in, state by state.
pub open spec fn learnt_from(
    before: Seq<Option<Map<usize, i64>>>,
    after: Seq<Option<Map<usize, i64>>>,
    seeds: Seq<Option<Map<usize, i64>>>,
    experiences: Seq<Experience>,
) -> bool {
    forall|state: int|
        0 <= state < STATE_COUNT ==> #[trigger] after[state] == merged(
            before,
            seeds,
            experiences,
            state,
        )
}

/// Whether an experience is an update by the learning rule: the value is
/// what the rule with the step size `alpha` makes of the estimate that the
/// action had in its state, after the return that some state rewards.
pub open spec fn is_update(
    table: Seq<Option<Map<usize, i64>>>,
    seeds: Seq<Option<Map<usize, i64>>>,
    alpha: int,
    experience: Experience,
) -> bool {
    &&& experience.state < STATE_COUNT
    &&& base_of(table, seeds, experience.state as int).contains_key(experience.action)
    &&& exists|reached: SearchState|
        experience.value == learned_value(
            alpha,
            #[trigger] reached.reward_spec(),
            base_of(table, seeds, experience.state as int)[experience.action] as int,
        )
}

/// What one action of an episode teaches: the new estimate of the action
/// in the state in which it was taken, made by the learning rule from the
/// estimate that the action had and the reward of the state reached.
pub open spec fn step_experience<A: Agent>(
    table: Seq<Option<Map<usize, i64>>>,
    seeds: Seq<Option<Map<usize, i64>>>,
    alpha: int,
    before: A,
    action: SearchAction,
    after: A,
) -> Experience {
    let state = before.state_spec().index_spec();
    let SearchAction::Search { heuristic_idx } = action;
    Experience {
        state: state as usize,
        action: heuristic_idx,
        value: learned_value(
            alpha,
            after.state_spec().reward_spec(),
            base_of(table, seeds, state)[heuristic_idx] as int,
        ) as i64,
    }
}

/// What an episode teaches: what each of its actions teaches, in order.
pub open spec fn episode_experiences<A: Agent>(
    table: Seq<Option<Map<usize, i64>>>,
    seeds: Seq<Option<Map<usize, i64>>>,
    alpha: int,
    episode: Episode<A>,
) -> Seq<Experience> {
    Seq::new(
        episode.actions.len(),
        |k: int|
            step_experience(
                table,
                seeds,
                alpha,
                episode.path[k],
                episode.actions[k],
                episode.path[k + 1],
            ),
    )
}

/// Whether every action of an episode was one that has an estimate in the
/// state in which it was taken.
pub open spec fn is_offered<A: Agent>(
    table: Seq<Option<Map<usize, i64>>>,
    seeds: Seq<Option<Map<usize, i64>>>,
    episode: Episode<A>,
) -> bool {
    forall|k: int|
        0 <= k < episode.actions.len() ==> base_of(
            table,
            seeds,
            (#[trigger] episode.path[k]).state_spec().index_spec(),
        ).contains_key(episode.actions[k]->heuristic_idx)
}

/// What a batch of episodes teaches: what the episodes teach, one after another.
pub open spec fn batch_experiences<A: Agent>(
    table: Seq<Option<Map<usize, i64>>>,
    seeds: Seq<Option<Map<usize, i64>>>,
    alpha: int,
    episodes: Seq<Episode<A>>,
) -> Seq<Experience>
    decreases episodes.len(),
{
    if episodes.len() == 0 {
        Seq::empty()
    } else {
        batch_experiences(table, seeds, alpha, episodes.drop_last()) + episode_experiences(
            table,
            seeds,
            alpha,
            episodes.last(),
        )
    }
}

/// Whether the episodes are those of the agents of a batch, one each: the
/// episode of an agent leads from the agent as it came to the agent as it
/// went, by actions that were taken while the agent could act and that had
/// an estimate.
pub open spec fn is_batch<A: Agent>(
    table: Seq<Option<Map<usize, i64>>>,
    seeds: Seq<Option<Map<usize, i64>>>,
    agents: Seq<A>,
    done: Seq<A>,
    episodes: Seq<Episode<A>>,
) -> bool {
    &&& episodes.len() == agents.len()
    &&& done.len() == agents.len()
    &&& forall|i: int|
        0 <= i < episodes.len() ==> {
            &&& is_trail(#[trigger] episodes[i])
            &&& is_offered(table, seeds, episodes[i])
            &&& episodes[i].path.first() == agents[i]
            &&& episodes[i].path.last() == done[i]
        }
}

/// Whether the table `after` is the table `before` after a batch of episodes
/// that took the agents from `agents` to `done`: the table has learnt what
/// the episodes teach, with the step size `alpha`, and a state that had no
/// estimates started from those that one of the agents offers.
pub open spec fn batch_learnt<A: Agent>(
    before: Seq<Option<Map<usize, i64>>>,
    after: Seq<Option<Map<usize, i64>>>,
    alpha: int,
    agents: Seq<A>,
    done: Seq<A>,
) -> bool {
    exists|seeds: Seq<Option<Map<usize, i64>>>, episodes: Seq<Episode<A>>|
        #[trigger] is_batch(before, seeds, agents, done, episodes) && brought(seeds, agents)
            && learnt_from(before, after, seeds, batch_experiences(before, seeds, alpha, episodes))
}

/// Whether the estimates brought for the states are kept: `later` has every
/// entry of `earlier`.
pub open spec fn keeps_seeds(
    earlier: Seq<Option<Map<usize, i64>>>,
    later: Seq<Option<Map<usize, i64>>>,
) -> bool {
    forall|state: int|
        0 <= state < STATE_COUNT ==> ((#[trigger] earlier[state]) is Some ==> later[state]
            == earlier[state])
}

/// An episode teaches the same when more estimates are brought.
proof fn lemma_episode_keeps(
    table: Seq<Option<Map<usize, i64>>>,
    earlier: Seq<Option<Map<usize, i64>>>,
    later: Seq<Option<Map<usize, i64>>>,
    alpha: int,
    episode: Episode<impl Agent>,
)
    requires
        table.len() == STATE_COUNT,
        earlier.len() == STATE_COUNT,
        keeps_seeds(earlier, later),
        is_offered(table, earlier, episode),
    ensures
        is_offered(table, later, episode),
        episode_experiences(table, later, alpha, episode) == episode_experiences(
            table,
            earlier,
            alpha,
            episode,
        ),
{
    assert forall|k: int| 0 <= k < episode.actions.len() implies base_of(
        table,
        later,
        (#[trigger] episode.path[k]).state_spec().index_spec(),
    ) == base_of(table, earlier, episode.path[k].state_spec().index_spec()) by {
        let state = episode.path[k].state_spec().index_spec();
        assert(base_of(table, earlier, state).contains_key(episode.actions[k]->heuristic_idx));
        assert(earlier[state] is Some || table[state] is Some);
    }
    assert(episode_experiences(table, later, alpha, episode) =~= episode_experiences(
        table,
        earlier,
        alpha,
        episode,
    ));
}

/// A batch teaches the same when more estimates are brought.
proof fn lemma_batch_keeps<A: Agent>(
    table: Seq<Option<Map<usize, i64>>>,
    earlier: Seq<Option<Map<usize, i64>>>,
    later: Seq<Option<Map<usize, i64>>>,
    alpha: int,
    episodes: Seq<Episode<A>>,
)
    requires
        table.len() == STATE_COUNT,
        earlier.len() == STATE_COUNT,
        keeps_seeds(earlier, later),
        forall|i: int| 0 <= i < episodes.len() ==> is_offered(table, earlier, #[trigger] episodes[i]),
    ensures
        forall|i: int| 0 <= i < episodes.len() ==> is_offered(table, later, #[trigger] episodes[i]),
        batch_experiences(table, later, alpha, episodes) == batch_experiences(
            table,
            earlier,
            alpha,
            episodes,
        ),
    decreases episodes.len(),
{
    if episodes.len() > 0 {
        let rest = episodes.drop_last();
        assert forall|i: int| 0 <= i < rest.len() implies is_offered(
            table,
            earlier,
            #[trigger] rest[i],
        ) by {
            assert(rest[i] == episodes[i]);
        }
        lemma_batch_keeps(table, earlier, later, alpha, rest);
        assert forall|i: int| 0 <= i < episodes.len() implies is_offered(
            table,
            later,
            #[trigger] episodes[i],
        ) by {
            lemma_episode_keeps(table, earlier, later, alpha, episodes[i]);
        }
        lemma_episode_keeps(table, earlier, later, alpha, episodes.last());
    }
}

/// Whether every experience is an update by the learning rule.
spec fn recorded(
    table: Seq<Option<Map<usize, i64>>>,
    seeds: Seq<Option<Map<usize, i64>>>,
    alpha: int,
    experiences: Seq<Experience>,
) -> bool {
    forall|j: int|
        0 <= j < experiences.len() ==> is_update(table, seeds, alpha, #[trigger] experiences[j])
}

/// Whether the estimates brought for a state are those that one of the agents offers.
pub open spec fn brought<A: Agent>(seeds: Seq<Option<Map<usize, i64>>>, agents: Seq<A>) -> bool {
    forall|state: int|
        0 <= state < STATE_COUNT ==> ((#[trigger] seeds[state]) matches Some(estimates)
            ==> exists|i: int|
            0 <= i < agents.len() && estimates == (#[trigger] agents[i]).offered(state))
}

/// The estimates that an agent finds for a state before it brings its own:
/// those of the table, else those that another agent has brought.
spec fn base_at(
    table: Seq<Option<Map<usize, i64>>>,
    seeds: Seq<Option<Map<usize, i64>>>,
    state: int,
) -> Option<Map<usize, i64>> {
    match table[state] {
        Some(estimates) => Some(estimates),
        None => seeds[state],
    }
}

/// Runs the episode of one agent against a snapshot of the table: while the
/// agent can act and the policy finds an action, the agent takes it and the
/// learning rule values it by the reward of the state reached.
fn run_episode<A: Agent>(
    agent: &mut A,
    table: &StateEstimates,
    learning: &MonteCarlo,
    policy: &EpsilonWeighted,
    experiences: &mut Vec<Experience>,
    seeds: &mut StateEstimates,
)
    requires
        old(agent).inv(),
        recorded(table@, old(seeds)@, learning.alpha(), old(experiences)@),
    ensures
        final(agent).inv(),
        reached(*old(agent), *final(agent)),
        exists|episode: Episode<A>|
            {
                &&& #[trigger] is_trail(episode)
                &&& is_offered(table@, final(seeds)@, episode)
                &&& episode.path.first() == *old(agent)
                &&& episode.path.last() == *final(agent)
                &&& final(experiences)@ == old(experiences)@ + episode_experiences(
                    table@,
                    final(seeds)@,
                    learning.alpha(),
                    episode,
                )
            },
        old(agent).steps_left() > 0 && offers(
            match base_at(table@, old(seeds)@, old(agent).state_spec().index_spec()) {
                Some(estimates) => estimates.dom(),
                None => old(agent).offered(old(agent).state_spec().index_spec()).dom(),
            },
        ) ==> final(agent).steps_left() < old(agent).steps_left(),
        !offers(
            match base_at(table@, old(seeds)@, old(agent).state_spec().index_spec()) {
                Some(estimates) => estimates.dom(),
                None => old(agent).offered(old(agent).state_spec().index_spec()).dom(),
            },
        ) ==> *final(agent) == *old(agent),
        forall|state: int| final(agent).offered(state) == old(agent).offered(state),
        recorded(table@, final(seeds)@, learning.alpha(), final(experiences)@),
        forall|state: int|
            0 <= state < STATE_COUNT ==> (#[trigger] final(seeds)@[state]) == old(seeds)@[state] || (
            old(seeds)@[state] is None && table@[state] is None && (final(seeds)@[state] matches Some(
                estimates,
            ) && estimates == old(agent).offered(state))),
{
    let ghost mut path: Seq<A> = seq![*agent];
    let ghost mut actions: Seq<SearchAction> = Seq::empty();
    let ghost mut acted_once = false;
    let ghost found = match base_at(table@, seeds@, agent.state_spec().index_spec()) {
        Some(estimates) => estimates.dom(),
        None => agent.offered(agent.state_spec().index_spec()).dom(),
    };
    while agent.can_act()
        invariant_except_break
            !acted_once ==> seeds@ == old(seeds)@,
        invariant
            agent.inv(),
            !acted_once ==> *agent == *old(agent),
            acted_once ==> offers(found),
            is_trail(Episode { path, actions }),
            is_offered(table@, seeds@, Episode { path, actions }),
            experiences@ == old(experiences)@ + episode_experiences(
                table@,
                seeds@,
                learning.alpha(),
                Episode { path, actions },
            ),
            path.first() == *old(agent),
            path.last() == *agent,
            acted_once ==> agent.steps_left() < old(agent).steps_left(),
            found == (match base_at(table@, old(seeds)@, old(agent).state_spec().index_spec()) {
                Some(estimates) => estimates.dom(),
                None => old(agent).offered(old(agent).state_spec().index_spec()).dom(),
            }),
            forall|state: int| agent.offered(state) == old(agent).offered(state),
            recorded(table@, seeds@, learning.alpha(), experiences@),
            forall|state: int|
                0 <= state < STATE_COUNT ==> (#[trigger] seeds@[state]) == old(seeds)@[state] || (
                old(seeds)@[state] is None && table@[state] is None && (seeds@[state] matches Some(
                    estimates,
                ) && estimates == old(agent).offered(state))),
        ensures
            old(agent).steps_left() > 0 && offers(found) ==> agent.steps_left() < old(
                agent,
            ).steps_left(),
        decreases agent.steps_left(),
    {
        let state = agent.get_state();
        let index = state.index();
        let ghost seeds_before = seeds@;
        let ghost experiences_before = experiences@;
        if table.at(index).is_none() && seeds.at(index).is_none() {
            let offered = agent.get_actions(&state);
            seeds.set(index, offered);
        }
        proof {
            seeds.lemma_view_len();
            table.lemma_view_len();
            old(seeds).lemma_view_len();
            assert(seeds_before.len() == STATE_COUNT);
            lemma_episode_keeps(
                table@,
                seeds_before,
                seeds@,
                learning.alpha(),
                Episode { path, actions },
            );
            assert forall|j: int| 0 <= j < experiences@.len() implies base_of(
                table@,
                seeds@,
                (#[trigger] experiences@[j]).state as int,
            ) == base_of(table@, seeds_before, experiences@[j].state as int) by {
                let visited = experiences@[j].state as int;
                assert(is_update(table@, seeds_before, learning.alpha(), experiences@[j]));
                if visited == index && table@[visited] is None && seeds_before[visited] is None {
                    assert(base_of(table@, seeds_before, visited).contains_key(
                        experiences@[j].action,
                    ));
                    assert(false);
                }
            }
        }
        let estimates: &ActionEstimates = match table.at(index) {
            Some(found) => found,
            None => match seeds.at(index) {
                Some(found) => found,
                None => {
                    break ;
                },
            },
        };
        assert(estimates@ == base_of(table@, seeds@, index as int));
        let action = match policy.select(estimates) {
            Some(action) => action,
            None => {
                proof {
                    if !acted_once {
                        assert(found == estimates@.dom());
                        if offers(found) {
                            let key = choose|key: usize| found.contains(key);
                            assert(estimates@.contains_key(key));
                        }
                    }
                }
                break ;
            },
        };
        let SearchAction::Search { heuristic_idx } = action;
        assert(estimates@.contains_key(heuristic_idx));
        let ghost offered = estimates@;
        proof {
            if !acted_once {
                assert(found == estimates@.dom());
                assert(found.contains(heuristic_idx));
            }
        }
        let old_value = match estimates.get(heuristic_idx) {
            Some(value) => value,
            None => 0,
        };
        let ghost acting = *agent;
        let ghost base_before = base_of(table@, seeds@, index as int);
        let ghost taught = episode_experiences(
            table@,
            seeds@,
            learning.alpha(),
            Episode { path, actions },
        );
        agent.take_action(&action);
        proof {
            let longer = path.push(*agent);
            let taken = actions.push(action);
            assert forall|k: int| 0 <= k < taken.len() implies (#[trigger] longer[k]).steps_left()
                > 0 && longer[k].acted(taken[k], &longer[k + 1]) by {
                if k < actions.len() {
                    assert(longer[k] == path[k]);
                    assert(longer[k + 1] == path[k + 1]);
                    assert(taken[k] == actions[k]);
                } else {
                    assert(longer[k] == acting);
                }
            }
            assert forall|k: int| 0 <= k < taken.len() implies base_of(
                table@,
                seeds@,
                (#[trigger] longer[k]).state_spec().index_spec(),
            ).contains_key(taken[k]->heuristic_idx) by {
                if k < actions.len() {
                    assert(longer[k] == path[k]);
                    assert(taken[k] == actions[k]);
                } else {
                    assert(longer[k] == acting);
                }
            }
            assert(episode_experiences(
                table@,
                seeds@,
                learning.alpha(),
                Episode { path: longer, actions: taken },
            ) =~= taught.push(
                step_experience(table@, seeds@, learning.alpha(), acting, action, *agent),
            )) by {
                assert forall|k: int| 0 <= k < actions.len() implies #[trigger] longer[k] == path[k]
                    && longer[k + 1] == path[k + 1] && taken[k] == actions[k] by {}
            }
            path = longer;
            actions = taken;
            acted_once = true;
        }
        let reward = agent.get_state().reward();
        let new_value = learning.value(reward, old_value);
        experiences.push(Experience { state: index, action: heuristic_idx, value: new_value });
        proof {
            let step = step_experience(table@, seeds@, learning.alpha(), acting, action, *agent);
            assert(step == experiences@.last());
            assert(experiences@ =~= old(experiences)@ + taught.push(step));
            let reached_state = agent.state_spec();
            assert forall|j: int| 0 <= j < experiences@.len() implies is_update(
                table@,
                seeds@,
                learning.alpha(),
                #[trigger] experiences@[j],
            ) by {
                if j < experiences_before.len() {
                    assert(experiences@[j] == experiences_before[j]);
                    assert(is_update(table@, seeds_before, learning.alpha(), experiences_before[j]));
                    assert(base_of(table@, seeds@, experiences_before[j].state as int) == base_of(
                        table@,
                        seeds_before,
                        experiences_before[j].state as int,
                    ));
                } else {
                    assert(experiences@[j].state == index);
                    assert(offered == base_of(table@, seeds@, index as int));
                    assert(offered.contains_key(heuristic_idx));
                    assert(experiences@[j].value == learned_value(
                        learning.alpha(),
                        reached_state.reward_spec(),
                        offered[heuristic_idx] as int,
                    ));
                }
            }
        }
    }
}

/// The simulator of the decision process: it owns the table of estimates,
/// runs the episodes of a batch of agents and learns from them.
pub struct Simulator {
    q: StateEstimates,
    learning_strategy: MonteCarlo,
    policy_strategy: EpsilonWeighted,
}

impl Simulator {
    /// For each state index, the estimates of the state, if it has any.
    pub closed spec fn estimates(&self) -> Seq<Option<Map<usize, i64>>> {
        self.q@
    }

    /// The step size of the learning rule, in parts per million.
    pub closed spec fn alpha(&self) -> int {
        self.learning_strategy.alpha()
    }

    /// The probability with which the policy explores, in parts per million.
    pub closed spec fn epsilon(&self) -> int {
        self.policy_strategy.epsilon()
    }

    /// The table has one entry per state.
    pub proof fn lemma_estimates_len(&self)
        ensures
            self.estimates().len() == STATE_COUNT,
    {
        self.q.lemma_view_len();
    }

    /// A simulator that has learnt nothing yet.
    pub fn new(learning_strategy: MonteCarlo, policy_strategy: EpsilonWeighted) -> (simulator:
        Simulator)
        ensures
            simulator.estimates() == Seq::new(STATE_COUNT as nat, |i: int| None::<Map<usize, i64>>),
            simulator.alpha() == learning_strategy.alpha(),
            simulator.epsilon() == policy_strategy.epsilon(),
    {
        Simulator { q: StateEstimates::new(), learning_strategy, policy_strategy }
    }

    /// The table of estimates.
    pub fn get_state_estimates(&self) -> (table: &StateEstimates)
        ensures
            table@ == self.estimates(),
    {
        &self.q
    }

    /// Replaces the estimates of one state.
    pub fn set_action_estimates(&mut self, state: SearchState, estimates: ActionEstimates)
        ensures
            final(self).estimates() == old(self).estimates().update(
                state.index_spec(),
                Some(estimates@),
            ),
            final(self).alpha() == old(self).alpha(),
            final(self).epsilon() == old(self).epsilon(),
    {
        self.q.insert(state, estimates);
    }

    /// Runs one episode for every agent, in order, and then learns from all
    /// of them at once: no agent sees what another has learnt in the batch.
    /// The agents come back as their episodes have left them: an agent that
    /// could act and found an action has acted, and an agent that could find
    /// none comes back as it was. The table changes only by what was learnt,
    /// and every entry keeps its actions.
    pub fn run_episodes<A: Agent>(&mut self, agents: Vec<A>) -> (done: Vec<A>)
        requires
            forall|i: int| 0 <= i < agents.len() ==> (#[trigger] agents[i]).inv(),
        ensures
            done.len() == agents.len(),
            forall|i: int| 0 <= i < done.len() ==> (#[trigger] done[i]).inv(),
            forall|i: int| 0 <= i < done.len() ==> reached(agents[i], #[trigger] done[i]),
            forall|i: int|
                0 <= i < done.len() && agents[i].steps_left() > 0 && offered_to_all(
                    old(self).estimates(),
                    agents@,
                    agents[i].state_spec().index_spec(),
                ) ==> (#[trigger] done[i]).steps_left() < agents[i].steps_left(),
            forall|i: int|
                0 <= i < done.len() && !offered_by_any(
                    old(self).estimates(),
                    agents@,
                    agents[i].state_spec().index_spec(),
                ) ==> (#[trigger] done[i]) == agents[i],
            forall|i: int, state: int|
                0 <= i < done.len() ==> (#[trigger] done[i].offered(state)) == agents[i].offered(state),
            forall|state: int|
                0 <= state < STATE_COUNT ==> entry_evolved(
                    old(self).estimates()[state],
                    #[trigger] final(self).estimates()[state],
                    agents@,
                    state,
                ),
            batch_learnt(
                old(self).estimates(),
                final(self).estimates(),
                old(self).alpha(),
                agents@,
                done@,
            ),
            final(self).alpha() == old(self).alpha(),
            final(self).epsilon() == old(self).epsilon(),
    {
        let mut done = agents;
        let mut experiences: Vec<Experience> = Vec::new();
        let mut seeds = StateEstimates::new();
        let ghost mut episodes: Seq<Episode<A>> = Seq::empty();
        let mut i: usize = 0;
        while i < done.len()
            invariant
                i <= done.len(),
                done.len() == agents.len(),
                self.q@ == old(self).q@,
                self.learning_strategy.alpha() == old(self).learning_strategy.alpha(),
                self.policy_strategy.epsilon() == old(self).policy_strategy.epsilon(),
                forall|k: int| 0 <= k < done.len() ==> (#[trigger] done[k]).inv(),
                forall|k: int| i <= k < done.len() ==> (#[trigger] done[k]) == agents[k],
                forall|k: int| 0 <= k < i ==> reached(agents[k], #[trigger] done[k]),
                forall|k: int|
                    0 <= k < i && agents[k].steps_left() > 0 && offered_to_all(
                        self.q@,
                        agents@,
                        agents[k].state_spec().index_spec(),
                    ) ==> (#[trigger] done[k]).steps_left() < agents[k].steps_left(),
                forall|k: int|
                    0 <= k < i && !offered_by_any(
                        self.q@,
                        agents@,
                        agents[k].state_spec().index_spec(),
                    ) ==> (#[trigger] done[k]) == agents[k],
                forall|k: int, state: int|
                    0 <= k < done.len() ==> (#[trigger] done[k].offered(state)) == agents[k].offered(
                        state,
                    ),
                recorded(self.q@, seeds@, self.learning_strategy.alpha(), experiences@),
                brought(seeds@, agents@),
                episodes.len() == i,
                forall|k: int|
                    0 <= k < i ==> {
                        &&& is_trail(#[trigger] episodes[k])
                        &&& is_offered(self.q@, seeds@, episodes[k])
                        &&& episodes[k].path.first() == agents[k]
                        &&& episodes[k].path.last() == done[k]
                    },
                experiences@ == batch_experiences(
                    self.q@,
                    seeds@,
                    self.learning_strategy.alpha(),
                    episodes,
                ),
            decreases done.len() - i,
        {
            let ghost seeds_before = seeds@;
            let ghost experiences_before = experiences@;
            let ghost acting = done[i as int];
            let ghost batch = done@;
            proof {
                let state = acting.state_spec().index_spec();
                seeds.lemma_view_len();
                self.q.lemma_view_len();
                if offered_to_all(self.q@, agents@, state) && self.q@[state] is None {
                    if seeds@[state] is Some {
                        let brought_estimates = seeds@[state]->Some_0;
                        let k = choose|k: int|
                            0 <= k < agents@.len() && brought_estimates == (
                            #[trigger] agents@[k]).offered(state);
                        assert(offers(agents@[k].offered(state).dom()));
                    } else {
                        assert(offers(agents@[i as int].offered(state).dom()));
                    }
                }
                if !offered_by_any(self.q@, agents@, state) && self.q@[state] is None {
                    if seeds@[state] is Some {
                        let brought_estimates = seeds@[state]->Some_0;
                        let k = choose|k: int|
                            0 <= k < agents@.len() && brought_estimates == (
                            #[trigger] agents@[k]).offered(state);
                        assert(!offers(agents@[k].offered(state).dom()));
                    } else {
                        assert(!offers(agents@[i as int].offered(state).dom()));
                    }
                }
            }
            run_episode(
                &mut done[i],
                &self.q,
                &self.learning_strategy,
                &self.policy_strategy,
                &mut experiences,
                &mut seeds,
            );
            proof {
                assert forall|state: int| 0 <= state < STATE_COUNT implies ((
                #[trigger] seeds@[state]) matches Some(estimates) ==> exists|k: int|
                    0 <= k < agents@.len() && estimates == (#[trigger] agents@[k]).offered(state))
                by {
                    if seeds@[state] != seeds_before[state] {
                        assert(acting.offered(state) == agents@[i as int].offered(state));
                    }
                }
                assert forall|k: int| i < k < done.len() implies (#[trigger] done[k]) == agents[k] by {
                    assert(done[k] == batch[k]);
                }
                assert forall|k: int| 0 <= k < i implies reached(agents[k], #[trigger] done[k]) by {
                    assert(done[k] == batch[k]);
                }
                let alpha = self.learning_strategy.alpha();
                let episode = choose|episode: Episode<A>|
                    {
                        &&& #[trigger] is_trail(episode)
                        &&& is_offered(self.q@, seeds@, episode)
                        &&& episode.path.first() == acting
                        &&& episode.path.last() == done[i as int]
                        &&& experiences@ == experiences_before + episode_experiences(
                            self.q@,
                            seeds@,
                            alpha,
                            episode,
                        )
                    };
                self.q.lemma_view_len();
                assert(seeds_before.len() == STATE_COUNT);
                assert(keeps_seeds(seeds_before, seeds@));
                lemma_batch_keeps(self.q@, seeds_before, seeds@, alpha, episodes);
                let longer = episodes.push(episode);
                assert(longer.drop_last() =~= episodes);
                assert forall|k: int| 0 <= k < i + 1 implies {
                    &&& is_trail(#[trigger] longer[k])
                    &&& is_offered(self.q@, seeds@, longer[k])
                    &&& longer[k].path.first() == agents[k]
                    &&& longer[k].path.last() == done[k]
                } by {
                    if k < i {
                        assert(longer[k] == episodes[k]);
                        assert(done[k] == batch[k]);
                    }
                }
                episodes = longer;
            }
            i = i + 1;
        }
        learn(&mut self.q, &seeds, &experiences);
        proof {
            let before = old(self).q@;
            old(self).q.lemma_view_len();
            seeds.lemma_view_len();
            assert forall|state: int| 0 <= state < STATE_COUNT implies entry_evolved(
                before[state],
                #[trigger] self.q@[state],
                agents@,
                state,
            ) by {
                assert(self.q@[state] == merged(before, seeds@, experiences@, state));
                if visits(experiences@, state) {
                    let j = choose|j: int|
                        0 <= j < experiences@.len() && (#[trigger] experiences@[j]).state == state;
                    let base = base_of(before, seeds@, state);
                    let after = learnt(base, experiences@, state);
                    assert(self.q@[state] == Some(after));
                    assert(after.dom() =~= base.dom());
                    assert(is_update(before, seeds@, self.alpha(), experiences@[j]));
                    let key = experiences@[j].action;
                    assert(base.contains_key(key));
                    assert(after.contains_key(key));
                    if before[state] is None {
                        assert(seeds@[state] is Some);
                        let brought_estimates = seeds@[state]->Some_0;
                        assert(base == brought_estimates);
                        let k = choose|k: int|
                            0 <= k < agents@.len() && brought_estimates == (
                            #[trigger] agents@[k]).offered(state);
                        assert(after.dom() == agents@[k].offered(state).dom());
                    }
                }
            }
            assert(learnt_from(before, self.q@, seeds@, experiences@));
            assert(is_batch(before, seeds@, agents@, done@, episodes));
            assert(batch_learnt(
                old(self).estimates(),
                self.estimates(),
                old(self).alpha(),
                agents@,
                done@,
            ));
        }
        done
    }
}

} // verus!
