//! The learning agent: discretisation of observations, the value table,
//! epsilon-greedy action selection and the progress of a training run.

use vstd::prelude::*;
use crate::action::{Actions, ACTION_COUNT};
use crate::discretizer::{
    at_or_above, at_or_below, bucket, bucket_index, lemma_bucket_at_lower_bound,
    lemma_bucket_at_upper_bound, lemma_bucket_in_range,
};
use crate::environment::{net_reward, penalty, Env, ObservationSpace};
use crate::reading::{exceeds, greater, lemma_total_key_distinct, order_key, total_key};
use crate::table::{
    lemma_volume_push, positive, row_at, row_items, row_len, volume, within, zero_content, QTable,
    Row,
};

verus! {

/// Bit pattern of 1.0.
pub const ONE: u32 = 0x3f80_0000;

/// Bit pattern of 0.1, the floor of the learning rate and of epsilon.
pub const TENTH: u32 = 0x3dcc_cccd;

/// Bit pattern of 0.99, the default discount.
pub const DEFAULT_DISCOUNT: u32 = 0x3f7d_70a4;

/// Bit pattern of 25.0, the default decay rate.
pub const DEFAULT_DECAY: u32 = 0x41c8_0000;

/// Default number of buckets per observation dimension.
pub const DEFAULT_BUCKETS: usize = 10;

/// Default number of episodes.
pub const DEFAULT_EPISODES: u32 = 1000;

/// What can go wrong in an agent.
#[derive(Copy, Clone, Debug, PartialEq, Eq, Structural)]
pub enum AgentError {
    /// An observation has another number of dimensions than the observation
    /// space.
    DimensionMismatch,
    /// A grid coordinate or an action index lies outside the table.
    IndexOutOfRange,
    /// The environment could not produce a state.
    EnvironmentUnavailable,
}

/// The scalars that steer learning. Each real number is the bit pattern of
/// a single-precision number.
#[derive(Copy, Clone, Debug, PartialEq, Eq, Structural)]
pub struct Hyperparameters {
    pub num_episodes: u32,
    pub min_lr: u32,
    pub min_epsilon: u32,
    pub discount: u32,
    pub decay: u32,
    pub learning_rate: u32,
    pub epsilon: u32,
}

impl Hyperparameters {
    /// 1000 episodes, learning rate 1.0 with floor 0.1, discount 0.99,
    /// epsilon 1.0 with floor 0.1, decay rate 25.0.
    pub open spec fn standard() -> Hyperparameters {
        Hyperparameters {
            num_episodes: DEFAULT_EPISODES,
            min_lr: TENTH,
            min_epsilon: TENTH,
            discount: DEFAULT_DISCOUNT,
            decay: DEFAULT_DECAY,
            learning_rate: ONE,
            epsilon: ONE,
        }
    }

    /// The standard hyperparameters.
    pub fn new() -> (r: Hyperparameters)
        ensures
            r == Hyperparameters::standard(),
    {
        Hyperparameters {
            num_episodes: DEFAULT_EPISODES,
            min_lr: TENTH,
            min_epsilon: TENTH,
            discount: DEFAULT_DISCOUNT,
            decay: DEFAULT_DECAY,
            learning_rate: ONE,
            epsilon: ONE,
        }
    }
}

/// An environment, a grid over its observation space, hyperparameters and
/// the value table over grid and actions.
pub struct Agent {
    env: Env,
    buckets: Vec<usize>,
    params: Hyperparameters,
    q_table: QTable,
}

/// Where a training run stands.
#[derive(Debug, PartialEq, Eq)]
pub enum Stage {
    /// Episode `episode` is about to begin: the environment is to be reset.
    Start { episode: u32 },
    /// Episode `episode` is under way and has reached the grid coordinate
    /// `state`.
    Running { episode: u32, state: Vec<usize> },
    /// Every episode has run.
    Done,
}

/// What the environment answered.
#[derive(Debug, PartialEq, Eq)]
pub enum Event {
    /// The observation after a reset.
    Reset { observation: Vec<u32> },
    /// One step was taken with `action`; it led to the grid coordinate
    /// `next_state`, `value` is the new estimate for the action in the
    /// state it was taken in, and `done` says whether the episode is over.
    Step { action: usize, value: u32, next_state: Vec<usize>, done: bool },
    /// The environment could not produce a state.
    Unavailable,
}

/// `best` is the first position of `items` that holds its greatest item in
/// the total order of single-precision numbers.
pub open spec fn is_first_max(items: Seq<u32>, best: int) -> bool {
    &&& 0 <= best < items.len()
    &&& forall|j: int| 0 <= j < items.len() ==> total_key(items[j]) <= total_key(items[best])
    &&& forall|j: int| 0 <= j < best ==> total_key(items[j]) < total_key(items[best])
}

/// `top` is the greatest item of `items` in the total order.
pub open spec fn is_max(items: Seq<u32>, top: u32) -> bool {
    &&& items.contains(top)
    &&& forall|j: int| 0 <= j < items.len() ==> total_key(items[j]) <= total_key(top)
}

/// A row has one greatest item and one first position of it, and the item
/// at that position is the greatest.
pub proof fn lemma_max_is_unique(items: Seq<u32>, best: int, other: int, top: u32, peer: u32)
    requires
        is_first_max(items, best),
        is_first_max(items, other),
        is_max(items, top),
        is_max(items, peer),
    ensures
        best == other,
        top == peer,
        items[best] == top,
{
    let i = choose|i: int| 0 <= i < items.len() && items[i] == top;
    let j = choose|j: int| 0 <= j < items.len() && items[j] == peer;
    lemma_total_key_distinct(top, peer);
    lemma_total_key_distinct(items[best], top);
    assert(total_key(items[i]) <= total_key(items[best]));
    assert(total_key(items[j]) <= total_key(top));
    assert(total_key(items[i]) <= total_key(peer));
}

impl Agent {
    /// The agent's environment.
    pub closed spec fn env(&self) -> Env {
        self.env
    }

    /// The number of buckets of each observation dimension.
    pub closed spec fn buckets(&self) -> Seq<usize> {
        self.buckets@
    }

    /// The value table.
    pub closed spec fn table(&self) -> QTable {
        self.q_table
    }

    /// The hyperparameters.
    pub closed spec fn params(&self) -> Hyperparameters {
        self.params
    }

    /// The environment and the table are well formed, there is one bucket
    /// count per observation dimension, and the table's axes are the bucket
    /// counts followed by the number of actions.
    pub open spec fn wf(&self) -> bool {
        &&& self.env().wf()
        &&& self.table().wf()
        &&& self.buckets().len() == self.env().bounds().low@.len()
        &&& self.table().shape() == self.buckets().push(self.env().actions())
    }

    /// The grid coordinate of an observation: the bucket of each reading on
    /// its own axis.
    pub open spec fn spec_discretize(&self, state: Seq<u32>) -> Seq<usize> {
        Seq::new(
            state.len(),
            |i: int|
                bucket_index(
                    state[i],
                    self.env().bounds().low@[i] as int,
                    self.env().bounds().high@[i] as int,
                    self.buckets()[i] as int,
                ) as usize,
        )
    }

    /// A grid coordinate that the table has a row for.
    pub open spec fn on_grid(&self, d_state: Seq<usize>) -> bool {
        within(d_state, self.buckets())
    }

    /// The grid of a well-formed agent is the table's grid, no axis of it is
    /// empty, and there is at least one action.
    pub proof fn lemma_grid(&self)
        requires
            self.wf(),
        ensures
            self.table().grid() == self.buckets(),
            self.table().actions() == self.env().actions(),
            self.env().actions() == ACTION_COUNT,
            positive(self.buckets()),
    {
        let shape = self.table().shape();
        self.table().lemma_wf();
        assert(shape.drop_last() =~= self.buckets());
        assert forall|k: int| 0 <= k < self.buckets().len() implies self.buckets()[k] >= 1 by {
            assert(shape[k] == self.buckets()[k]);
        }
    }

    /// Every observation with one reading per dimension discretises to a
    /// coordinate on the grid, so that together with any action index of the
    /// environment it names a cell of the table.
    pub proof fn lemma_discretized_state_on_grid(&self, state: Seq<u32>, action: usize)
        requires
            self.wf(),
            state.len() == self.buckets().len(),
            action < self.env().actions(),
        ensures
            self.on_grid(self.spec_discretize(state)),
            within(self.spec_discretize(state).push(action), self.table().shape()),
    {
        self.lemma_grid();
        let d = self.spec_discretize(state);
        assert forall|k: int| 0 <= k < d.len() implies d[k] < self.buckets()[k] by {
            lemma_bucket_in_range(
                state[k],
                self.env().bounds().low@[k] as int,
                self.env().bounds().high@[k] as int,
                self.buckets()[k] as int,
            );
        }
    }

    /// An observation whose every reading is at or below its dimension's
    /// lower bound discretises to the all-zero coordinate.
    pub proof fn lemma_discretize_at_lower_bounds(&self, state: Seq<u32>)
        requires
            self.wf(),
            state.len() == self.buckets().len(),
            forall|i: int|
                0 <= i < state.len() ==> at_or_below(
                    #[trigger] state[i],
                    self.env().bounds().low@[i] as int,
                ),
        ensures
            self.spec_discretize(state) == Seq::new(state.len(), |i: int| 0usize),
    {
        self.lemma_grid();
        let d = self.spec_discretize(state);
        assert forall|k: int| 0 <= k < d.len() implies d[k] == 0 by {
            assert(at_or_below(state[k], self.env().bounds().low@[k] as int));
            lemma_bucket_at_lower_bound(
                state[k],
                self.env().bounds().low@[k] as int,
                self.env().bounds().high@[k] as int,
                self.buckets()[k] as int,
            );
        }
        assert(d =~= Seq::new(state.len(), |i: int| 0usize));
    }

    /// An observation whose every reading is at or above its dimension's
    /// upper bound discretises to the last bucket of every dimension,
    /// provided that no dimension's bounds coincide.
    pub proof fn lemma_discretize_at_upper_bounds(&self, state: Seq<u32>)
        requires
            self.wf(),
            state.len() == self.buckets().len(),
            forall|i: int|
                0 <= i < state.len() ==> self.env().bounds().low@[i] < self.env().bounds().high@[i],
            forall|i: int|
                0 <= i < state.len() ==> at_or_above(
                    #[trigger] state[i],
                    self.env().bounds().high@[i] as int,
                ),
        ensures
            self.spec_discretize(state) == Seq::new(
                state.len(),
                |i: int| (self.buckets()[i] - 1) as usize,
            ),
    {
        self.lemma_grid();
        let d = self.spec_discretize(state);
        assert forall|k: int| 0 <= k < d.len() implies d[k] == self.buckets()[k] - 1 by {
            assert(at_or_above(state[k], self.env().bounds().high@[k] as int));
            lemma_bucket_at_upper_bound(
                state[k],
                self.env().bounds().low@[k] as int,
                self.env().bounds().high@[k] as int,
                self.buckets()[k] as int,
            );
        }
        assert(d =~= Seq::new(state.len(), |i: int| (self.buckets()[i] - 1) as usize));
    }

    /// An agent over `buckets` with the given hyperparameters and a table
    /// of zeros, or `None` where there is not one bucket count per dimension
    /// or no table of that size can be built.
    pub fn with(buckets: Vec<usize>, params: Hyperparameters) -> (r: Option<Agent>)
        ensures
            r is Some <==> buckets@.len() == ObservationSpace::default_low().len()
                && QTable::buildable(buckets@, ACTION_COUNT),
            r matches Some(a) ==> {
                &&& a.wf()
                &&& a.buckets() == buckets@
                &&& a.params() == params
                &&& a.env().bounds().low@ == ObservationSpace::default_low()
                &&& a.env().bounds().high@ == ObservationSpace::default_high()
                &&& a.table().content() == zero_content(a.table().shape())
            },
    {
        let env = Env::new();
        if buckets.len() != env.observation_space().low.len() {
            return None;
        }
        match QTable::new(&buckets, env.action_space()) {
            Some(q_table) => Some(Agent { env, buckets, params, q_table }),
            None => None,
        }
    }

    /// The default agent: ten buckets on each of the six dimensions, 1000
    /// episodes, learning rate 1.0, discount 0.99, epsilon 1.0, and a table
    /// of zeros.
    pub fn new() -> (r: Agent)
        ensures
            r.wf(),
            r.buckets() == Seq::new(6, |i: int| DEFAULT_BUCKETS),
            r.params() == Hyperparameters::standard(),
            r.env().bounds().low@ == ObservationSpace::default_low(),
            r.env().bounds().high@ == ObservationSpace::default_high(),
            r.table().content() == zero_content(r.table().shape()),
    {
        let mut buckets: Vec<usize> = Vec::new();
        let mut i: usize = 0;
        while i < 6
            invariant
                i <= 6,
                buckets@ == Seq::new(i as nat, |k: int| DEFAULT_BUCKETS),
            decreases 6 - i,
        {
            buckets.push(DEFAULT_BUCKETS);
            i = i + 1;
            assert(buckets@ =~= Seq::new(i as nat, |k: int| DEFAULT_BUCKETS));
        }
        proof {
            lemma_default_table_buildable();
        }
        let env = Env::new();
        let q_table = QTable::zeros(&buckets, env.action_space());
        Agent { env, buckets, params: Hyperparameters::new(), q_table }
    }

    /// The grid coordinate of an observation given as bit patterns, one
    /// reading per dimension.
    pub fn discretize_state(&self, state: &Vec<u32>) -> (r: Result<Vec<usize>, AgentError>)
        requires
            self.wf(),
        ensures
            state@.len() != self.buckets().len() ==> r == Err::<Vec<usize>, AgentError>(
                AgentError::DimensionMismatch,
            ),
            state@.len() == self.buckets().len() ==> r is Ok,
            r matches Ok(d) ==> d@ == self.spec_discretize(state@) && self.on_grid(d@),
    {
        if state.len() != self.buckets.len() {
            return Err(AgentError::DimensionMismatch);
        }
        proof {
            self.lemma_grid();
        }
        let space = self.env.observation_space();
        let mut discrete_state: Vec<usize> = Vec::new();
        let mut i: usize = 0;
        while i < state.len()
            invariant
                self.wf(),
                *space == self.env().bounds(),
                positive(self.buckets()),
                state@.len() == self.buckets().len(),
                i <= state@.len(),
                discrete_state@.len() == i,
                forall|k: int|
                    0 <= k < i ==> discrete_state@[k] == self.spec_discretize(state@)[k]
                        && discrete_state@[k] < self.buckets()[k],
            decreases state@.len() - i,
        {
            let new_state = bucket(state[i], space.low[i], space.high[i], self.buckets[i]);
            discrete_state.push(new_state);
            i = i + 1;
        }
        assert(discrete_state@ =~= self.spec_discretize(state@));
        Ok(discrete_state)
    }

    /// Whether `d_state` is a coordinate on the grid.
    pub fn valid_state(&self, d_state: &Vec<usize>) -> (r: bool)
        ensures
            r == self.on_grid(d_state@),
    {
        if d_state.len() != self.buckets.len() {
            return false;
        }
        let mut i: usize = 0;
        while i < d_state.len()
            invariant
                d_state@.len() == self.buckets().len(),
                i <= d_state@.len(),
                forall|k: int| 0 <= k < i ==> d_state@[k] < self.buckets()[k],
            decreases d_state@.len() - i,
        {
            if d_state[i] >= self.buckets[i] {
                return false;
            }
            i = i + 1;
        }
        true
    }

    /// The index of a cell: the grid coordinate followed by the action.
    pub fn concat_idx(idxs: &Vec<usize>, idx: usize) -> (r: Vec<usize>)
        ensures
            r@ == idxs@.push(idx),
    {
        let mut new_idxs = idxs.clone();
        new_idxs.push(idx);
        new_idxs
    }

    /// The value of `action` in `d_state`, or `IndexOutOfRange` where the
    /// table has no such cell.
    pub fn value(&self, d_state: &Vec<usize>, action: usize) -> (r: Result<u32, AgentError>)
        requires
            self.wf(),
        ensures
            self.on_grid(d_state@) && action < self.env().actions() ==> r == Ok::<u32, AgentError>(
                self.table().spec_value(d_state@, action),
            ),
            !(self.on_grid(d_state@) && action < self.env().actions()) ==> r == Err::<
                u32,
                AgentError,
            >(AgentError::IndexOutOfRange),
    {
        proof {
            self.lemma_grid();
        }
        if !self.valid_state(d_state) || action >= self.env.action_space() {
            return Err(AgentError::IndexOutOfRange);
        }
        Ok(self.q_table.value(d_state, action))
    }

    /// The values of all actions in the state `slice_idx`, as a view into
    /// the table.
    pub fn get_slice(&self, slice_idx: &Vec<usize>) -> (r: Row<'_>)
        requires
            self.wf(),
            self.on_grid(slice_idx@),
        ensures
            row_items(r) == self.table().spec_row(slice_idx@),
            row_items(r).len() == self.env().actions(),
    {
        proof {
            self.lemma_grid();
        }
        self.q_table.row(slice_idx)
    }

    /// Writes `val` into the cell at `idxs`, a grid coordinate followed by
    /// an action. No other cell changes.
    pub fn set_qtable_val(&mut self, idxs: Vec<usize>, val: u32)
        requires
            old(self).wf(),
            within(idxs@, old(self).table().shape()),
        ensures
            final(self).wf(),
            final(self).table().shape() == old(self).table().shape(),
            final(self).table().content() == old(self).table().content().insert(idxs@, val),
            final(self).env() == old(self).env(),
            final(self).buckets() == old(self).buckets(),
            final(self).params() == old(self).params(),
    {
        self.q_table.set(&idxs, val);
    }

    /// Stores `value` as the new estimate of `action` in `d_state`. Exactly
    /// that cell changes. Where the table has no such cell nothing changes
    /// and `IndexOutOfRange` comes back.
    pub fn update_q(&mut self, d_state: &Vec<usize>, action: usize, value: u32) -> (r: Result<
        (),
        AgentError,
    >)
        requires
            old(self).wf(),
        ensures
            final(self).wf(),
            final(self).table().shape() == old(self).table().shape(),
            final(self).env() == old(self).env(),
            final(self).buckets() == old(self).buckets(),
            final(self).params() == old(self).params(),
            old(self).on_grid(d_state@) && action < old(self).env().actions() ==> r is Ok
                && final(self).table().content() == old(self).table().content().insert(
                d_state@.push(action),
                value,
            ),
            !(old(self).on_grid(d_state@) && action < old(self).env().actions()) ==> r == Err::<
                (),
                AgentError,
            >(AgentError::IndexOutOfRange) && final(self).table() == old(self).table(),
    {
        proof {
            self.lemma_grid();
        }
        if !self.valid_state(d_state) || action >= self.env.action_space() {
            return Err(AgentError::IndexOutOfRange);
        }
        let idx = Self::concat_idx(d_state, action);
        self.set_qtable_val(idx, value);
        Ok(())
    }

    /// The agent's environment.
    pub fn environment(&self) -> (r: &Env)
        ensures
            *r == self.env(),
    {
        &self.env
    }

    /// The number of buckets of each observation dimension.
    pub fn bucket_counts(&self) -> (r: &Vec<usize>)
        ensures
            r@ == self.buckets(),
    {
        &self.buckets
    }

    /// The hyperparameters.
    pub fn hyperparameters(&self) -> (r: Hyperparameters)
        ensures
            r == self.params(),
    {
        self.params
    }

    /// Whether a draw calls for the best known action: it does when it
    /// exceeds epsilon.
    pub fn exploits(&self, draw: u32) -> (r: bool)
        ensures
            r == exceeds(draw, self.params().epsilon),
    {
        greater(draw, self.params.epsilon)
    }

    /// Epsilon-greedy selection with both draws given: where `draw` (a bit
    /// pattern) exceeds epsilon, the first action of greatest value in
    /// `d_state`; otherwise `sampled`.
    pub fn select_action(&self, d_state: &Vec<usize>, draw: u32, sampled: usize) -> (r: usize)
        requires
            self.wf(),
            self.on_grid(d_state@),
            sampled < self.env().actions(),
        ensures
            r < self.env().actions(),
            exceeds(draw, self.params().epsilon) ==> is_first_max(
                self.table().spec_row(d_state@),
                r as int,
            ),
            !exceeds(draw, self.params().epsilon) ==> r == sampled,
    {
        if self.exploits(draw) {
            Self::argmax(self.get_slice(d_state))
        } else {
            sampled
        }
    }

    /// Epsilon-greedy selection: where `draw` (the bit pattern of a number
    /// drawn uniformly from the unit interval) exceeds epsilon, the first
    /// action of greatest value in `d_state`; otherwise an action sampled
    /// from the environment.
    pub fn choose_action(&self, d_state: &Vec<usize>, draw: u32) -> (r: usize)
        requires
            self.wf(),
            self.on_grid(d_state@),
        ensures
            r < self.env().actions(),
            exceeds(draw, self.params().epsilon) ==> is_first_max(
                self.table().spec_row(d_state@),
                r as int,
            ),
    {
        if self.exploits(draw) {
            Self::argmax(self.get_slice(d_state))
        } else {
            self.env.sample()
        }
    }

    /// What taking the action with index `action` at time `now` earns in the
    /// agent's environment, which notes the use.
    pub fn step_reward(&mut self, action: usize, now: u64) -> (r: i32)
        requires
            old(self).wf(),
            penalty(
                Actions::spec_from(action as int).spec_reward(),
                old(self).env().spec_last_used(Actions::spec_from(action as int)),
                now,
            ) <= i32::MAX,
        ensures
            r == net_reward(
                Actions::spec_from(action as int).spec_reward(),
                old(self).env().spec_last_used(Actions::spec_from(action as int)),
                now,
            ),
            final(self).wf(),
            final(self).env().cooldowns() == old(self).env().cooldowns().insert(
                Actions::spec_from(action as int).spec_index() as usize,
                now,
            ),
            final(self).table() == old(self).table(),
            final(self).buckets() == old(self).buckets(),
            final(self).params() == old(self).params(),
    {
        self.env.step_reward(action, now)
    }

    /// The stage that follows the end of episode `episode`.
    pub open spec fn spec_following(&self, episode: u32) -> Stage {
        if episode + 1 < self.params().num_episodes {
            Stage::Start { episode: (episode + 1) as u32 }
        } else {
            Stage::Done
        }
    }

    /// The stage in which a run begins.
    pub fn start(&self) -> (r: Stage)
        ensures
            r == if self.params().num_episodes > 0 {
                Stage::Start { episode: 0 }
            } else {
                Stage::Done
            },
    {
        if self.params.num_episodes > 0 {
            Stage::Start { episode: 0 }
        } else {
            Stage::Done
        }
    }

    /// The stage that follows the end of episode `episode`.
    fn following(&self, episode: u32) -> (r: Stage)
        ensures
            r == self.spec_following(episode),
    {
        if episode < u32::MAX && episode + 1 < self.params.num_episodes {
            Stage::Start { episode: episode + 1 }
        } else {
            Stage::Done
        }
    }

    /// The stage after giving up the episode that `stage` is in.
    pub fn abandon(&self, stage: Stage) -> (r: Stage)
        ensures
            r == match stage {
                Stage::Start { episode } => self.spec_following(episode),
                Stage::Running { episode, state } => self.spec_following(episode),
                Stage::Done => Stage::Done,
            },
    {
        match stage {
            Stage::Start { episode } => self.following(episode),
            Stage::Running { episode, state } => self.following(episode),
            Stage::Done => Stage::Done,
        }
    }

    /// An event that can be answered in a stage: a reset where an episode
    /// begins, a step while one runs, and a failure in either.
    pub open spec fn expects(stage: Stage, event: Event) -> bool {
        match (stage, event) {
            (Stage::Start { .. }, Event::Reset { .. }) => true,
            (Stage::Running { .. }, Event::Step { .. }) => true,
            (Stage::Start { .. }, Event::Unavailable) => true,
            (Stage::Running { .. }, Event::Unavailable) => true,
            _ => false,
        }
    }

    /// One transition of a training run.
    ///
    /// After a reset the episode runs from the grid coordinate of the
    /// observation. After a step the new estimate is stored in the cell of
    /// the action taken, and the episode goes on from the next coordinate
    /// or, when it is over, the next episode begins or the run is done. An
    /// error leaves the table as it was.
    pub fn train_step(&mut self, stage: Stage, event: Event) -> (r: Result<Stage, AgentError>)
        requires
            old(self).wf(),
            Agent::expects(stage, event),
        ensures
            final(self).wf(),
            final(self).table().shape() == old(self).table().shape(),
            final(self).env() == old(self).env(),
            final(self).buckets() == old(self).buckets(),
            final(self).params() == old(self).params(),
            r is Err ==> final(self).table() == old(self).table(),
            event is Unavailable ==> r == Err::<Stage, AgentError>(
                AgentError::EnvironmentUnavailable,
            ),
            (stage, event) matches (Stage::Start { episode }, Event::Reset { observation }) ==> {
                &&& final(self).table() == old(self).table()
                &&& observation@.len() != old(self).buckets().len() ==> r == Err::<
                    Stage,
                    AgentError,
                >(AgentError::DimensionMismatch)
                &&& observation@.len() == old(self).buckets().len() ==> (r matches Ok(
                    Stage::Running { episode: e, state },
                ) && e == episode && state@ == old(self).spec_discretize(observation@))
            },
            (stage, event) matches (
                Stage::Running { episode, state },
                Event::Step { action, value, next_state, done },
            ) ==> {
                let valid = old(self).on_grid(state@) && action < old(self).env().actions()
                    && old(self).on_grid(next_state@);
                &&& !valid ==> r == Err::<Stage, AgentError>(AgentError::IndexOutOfRange)
                &&& valid ==> final(self).table().content() == old(self).table().content().insert(
                    state@.push(action),
                    value,
                )
                &&& valid && !done ==> r == Ok::<Stage, AgentError>(
                    Stage::Running { episode, state: next_state },
                )
                &&& valid && done ==> r == Ok::<Stage, AgentError>(
                    old(self).spec_following(episode),
                )
            },
    {
        match (stage, event) {
            (Stage::Start { episode }, Event::Reset { observation }) => {
                match self.discretize_state(&observation) {
                    Ok(state) => Ok(Stage::Running { episode, state }),
                    Err(e) => Err(e),
                }
            },
            (Stage::Running { episode, state }, Event::Step { action, value, next_state, done }) => {
                if !self.valid_state(&next_state) {
                    return Err(AgentError::IndexOutOfRange);
                }
                match self.update_q(&state, action, value) {
                    Ok(()) => {
                        if done {
                            Ok(self.following(episode))
                        } else {
                            Ok(Stage::Running { episode, state: next_state })
                        }
                    },
                    Err(e) => Err(e),
                }
            },
            _ => Err(AgentError::EnvironmentUnavailable),
        }
    }

    /// The first position of the greatest value of a row.
    pub fn argmax(slice: Row<'_>) -> (r: usize)
        requires
            row_items(slice).len() > 0,
        ensures
            is_first_max(row_items(slice), r as int),
    {
        let n = row_len(&slice);
        let mut best: usize = 0;
        let mut best_key: i64 = order_key(row_at(&slice, 0));
        let mut j: usize = 1;
        while j < n
            invariant
                n == row_items(slice).len(),
                1 <= j <= n,
                best < j,
                best_key == total_key(row_items(slice)[best as int]),
                forall|k: int|
                    0 <= k < j ==> total_key(row_items(slice)[k]) <= total_key(
                        row_items(slice)[best as int],
                    ),
                forall|k: int|
                    0 <= k < best ==> total_key(row_items(slice)[k]) < total_key(
                        row_items(slice)[best as int],
                    ),
            decreases n - j,
        {
            let key = order_key(row_at(&slice, j));
            if key > best_key {
                best = j;
                best_key = key;
            }
            j = j + 1;
        }
        best
    }

    /// The greatest value of a row.
    pub fn max(slice: Row<'_>) -> (r: u32)
        requires
            row_items(slice).len() > 0,
        ensures
            is_max(row_items(slice), r),
    {
        let n = row_len(&slice);
        let mut top: u32 = row_at(&slice, 0);
        let mut j: usize = 1;
        while j < n
            invariant
                n == row_items(slice).len(),
                1 <= j <= n,
                row_items(slice).contains(top),
                forall|k: int| 0 <= k < j ==> total_key(row_items(slice)[k]) <= total_key(top),
            decreases n - j,
        {
            let item = row_at(&slice, j);
            if order_key(item) > order_key(top) {
                top = item;
            }
            j = j + 1;
        }
        top
    }
}

/// The default grid with its five actions has five million cells.
proof fn lemma_default_table_buildable()
    ensures
        QTable::buildable(Seq::new(6, |i: int| DEFAULT_BUCKETS), ACTION_COUNT),
{
    let s0 = Seq::<usize>::empty();
    let s1 = s0.push(DEFAULT_BUCKETS);
    let s2 = s1.push(DEFAULT_BUCKETS);
    let s3 = s2.push(DEFAULT_BUCKETS);
    let s4 = s3.push(DEFAULT_BUCKETS);
    let s5 = s4.push(DEFAULT_BUCKETS);
    let s6 = s5.push(DEFAULT_BUCKETS);
    let shape = s6.push(ACTION_COUNT);
    assert(s6 =~= Seq::new(6, |i: int| DEFAULT_BUCKETS));
    assert(volume(s0) == 1);
    lemma_volume_push(s0, DEFAULT_BUCKETS);
    lemma_volume_push(s1, DEFAULT_BUCKETS);
    lemma_volume_push(s2, DEFAULT_BUCKETS);
    lemma_volume_push(s3, DEFAULT_BUCKETS);
    lemma_volume_push(s4, DEFAULT_BUCKETS);
    lemma_volume_push(s5, DEFAULT_BUCKETS);
    lemma_volume_push(s6, ACTION_COUNT);
    assert(volume(shape) == 5000000);
}

} // verus!
