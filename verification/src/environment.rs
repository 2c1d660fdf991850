//! The environment's static bounds and its reward model: nominal rewards
//! reduced by a cooldown penalty that fades as time passes.

use vstd::prelude::*;
use std::collections::HashMap;
use crate::action::{random_index, Actions, ACTION_COUNT};

verus! {

broadcast use vstd::std_specs::hash::group_hash_axioms;

/// Length of the cooldown window in seconds, and the denominator by which
/// the remaining cooldown is weighted.
pub const COOLDOWN: u64 = 100;

/// Lower and upper bound of each observation dimension.
pub struct ObservationSpace {
    pub low: Vec<i32>,
    pub high: Vec<i32>,
}

impl ObservationSpace {
    /// Both bounds cover the same dimensions and no lower bound lies above
    /// its upper bound.
    pub open spec fn wf(&self) -> bool {
        &&& self.low@.len() == self.high@.len()
        &&& forall|i: int| 0 <= i < self.low@.len() ==> self.low@[i] <= self.high@[i]
    }

    /// The lower bounds of the six dimensions.
    pub open spec fn default_low() -> Seq<i32> {
        seq![0i32, 0i32, 0i32, 0i32, -10000i32, 0i32]
    }

    /// The upper bounds of the six dimensions.
    pub open spec fn default_high() -> Seq<i32> {
        seq![100i32, 100i32, 10i32, 10i32, 10000i32, 1500000i32]
    }

    /// The lower bound of each dimension.
    pub fn low() -> (r: Vec<i32>)
        ensures
            r@ == ObservationSpace::default_low(),
    {
        let mut v: Vec<i32> = Vec::new();
        v.push(0);
        v.push(0);
        v.push(0);
        v.push(0);
        v.push(-10000);
        v.push(0);
        assert(v@ =~= ObservationSpace::default_low());
        v
    }

    /// The upper bound of each dimension.
    pub fn high() -> (r: Vec<i32>)
        ensures
            r@ == ObservationSpace::default_high(),
    {
        let mut v: Vec<i32> = Vec::new();
        v.push(100);
        v.push(100);
        v.push(10);
        v.push(10);
        v.push(10000);
        v.push(1500000);
        assert(v@ =~= ObservationSpace::default_high());
        v
    }

    /// The observation space of the environment.
    pub fn new() -> (r: Self)
        ensures
            r.low@ == ObservationSpace::default_low(),
            r.high@ == ObservationSpace::default_high(),
            r.wf(),
    {
        Self { low: Self::low(), high: Self::high() }
    }
}

/// What is left of the cooldown at `now` for an action last used at `last`.
pub open spec fn effective_cooldown(last: u64, now: u64) -> int {
    let left = COOLDOWN - (now - last);
    if left > 0 {
        left
    } else {
        0
    }
}

/// The share of an action's nominal reward that the remaining cooldown
/// takes away.
pub open spec fn penalty(weight: int, last: u64, now: u64) -> int {
    weight * effective_cooldown(last, now) / (COOLDOWN as int)
}

/// What an action of nominal reward `weight` earns at `now` when it was
/// last used at `last`.
pub open spec fn net_reward(weight: int, last: u64, now: u64) -> int {
    weight - penalty(weight, last, now)
}

/// An action used again within the window earns at most its nominal reward
/// and never less than nothing; at the window's edge it earns the nominal
/// reward again. It earns no more than the use before it wherever that use
/// was not itself penalised more, and strictly less wherever that use went
/// unpenalised and the repeat costs at least one unit.
pub proof fn lemma_repeat_earns_no_more(weight: int, last: u64, first: u64, second: u64)
    requires
        0 <= weight,
        first <= second <= first + COOLDOWN,
        penalty(weight, last, first) <= penalty(weight, first, second),
    ensures
        net_reward(weight, first, second) <= net_reward(weight, last, first),
        0 <= net_reward(weight, first, second) <= weight,
        penalty(weight, first, second) == weight * (COOLDOWN - (second - first)) / (
        COOLDOWN as int),
        second == first + COOLDOWN ==> net_reward(weight, first, second) == weight,
        penalty(weight, last, first) == 0 && weight * (COOLDOWN - (second - first)) >= COOLDOWN
            ==> net_reward(weight, first, second) < net_reward(weight, last, first),
{
    lemma_penalty_bounds(weight, first, second);
    let left = COOLDOWN - (second - first);
    if weight * left >= COOLDOWN {
        vstd::arithmetic::div_mod::lemma_div_is_ordered(COOLDOWN as int, weight * left, COOLDOWN as int);
    }
}

/// A use at or after the end of the window is not penalised.
pub proof fn lemma_cold_use_is_free(weight: int, last: u64, now: u64)
    requires
        now - last >= COOLDOWN,
    ensures
        penalty(weight, last, now) == 0,
        net_reward(weight, last, now) == weight,
{
    assert(weight * 0 == 0);
}

/// While time does not run backwards the penalty lies between nothing and
/// the whole nominal reward.
pub proof fn lemma_penalty_bounds(weight: int, last: u64, now: u64)
    requires
        0 <= weight,
        last <= now,
    ensures
        0 <= penalty(weight, last, now) <= weight,
{
    let e = effective_cooldown(last, now);
    assert(0 <= weight * e <= weight * 100) by (nonlinear_arith)
        requires
            0 <= weight,
            0 <= e <= 100,
    ;
    vstd::arithmetic::div_mod::lemma_div_is_ordered(0, weight * e, 100);
    vstd::arithmetic::div_mod::lemma_div_is_ordered(weight * e, weight * 100, 100);
    assert(weight * 100 / 100 == weight);
}

/// The environment's bounds and the cooldown state of every action.
pub struct Env {
    observation_space: ObservationSpace,
    action_space: usize,
    cooldown_map: HashMap<usize, u64>,
}

impl Env {
    /// When each action was last used, by action index, in seconds since
    /// the epoch.
    pub closed spec fn cooldowns(&self) -> Map<usize, u64> {
        self.cooldown_map@
    }

    /// The bounds of the observation space.
    pub closed spec fn bounds(&self) -> ObservationSpace {
        self.observation_space
    }

    /// The number of action indices.
    pub closed spec fn actions(&self) -> usize {
        self.action_space
    }

    /// When `action` was last used.
    pub open spec fn spec_last_used(&self, action: Actions) -> u64 {
        self.cooldowns()[action.spec_index() as usize]
    }

    /// The bounds are well formed, the action space is the catalogue, and
    /// every action of the catalogue has a cooldown entry.
    pub open spec fn wf(&self) -> bool {
        &&& self.bounds().wf()
        &&& self.actions() == ACTION_COUNT
        &&& forall|i: usize| self.cooldowns().dom().contains(i) <==> i < ACTION_COUNT
    }

    /// The lower and the upper bounds of the observation space.
    pub fn get_action_space() -> (r: (Vec<i32>, Vec<i32>))
        ensures
            r.0@ == ObservationSpace::default_low(),
            r.1@ == ObservationSpace::default_high(),
    {
        (ObservationSpace::low(), ObservationSpace::high())
    }

    /// An environment in which no action has been used yet.
    pub fn new() -> (r: Self)
        ensures
            r.wf(),
            r.bounds().low@ == ObservationSpace::default_low(),
            r.bounds().high@ == ObservationSpace::default_high(),
            forall|i: usize| i < ACTION_COUNT ==> r.cooldowns()[i] == 0,
    {
        let mut cooldown_map: HashMap<usize, u64> = HashMap::new();
        let all = Actions::iter();
        let mut i: usize = 0;
        while i < all.len()
            invariant
                i <= all@.len(),
                all@ == Actions::catalog(),
                forall|j: usize| cooldown_map@.dom().contains(j) <==> j < i,
                forall|j: usize| j < i ==> cooldown_map@[j] == 0,
            decreases all@.len() - i,
        {
            let a = all[i];
            proof {
                Actions::lemma_index_round_trip(a);
                Actions::lemma_from_index(i as int);
            }
            cooldown_map.insert(a.to_index(), 0);
            i = i + 1;
        }
        Self { observation_space: ObservationSpace::new(), action_space: ACTION_COUNT, cooldown_map }
    }

    /// The bounds of the observation space.
    pub fn observation_space(&self) -> (r: &ObservationSpace)
        ensures
            *r == self.bounds(),
    {
        &self.observation_space
    }

    /// The number of action indices.
    pub fn action_space(&self) -> (r: usize)
        ensures
            r == self.actions(),
    {
        self.action_space
    }

    /// When `action` was last used; 0 if never.
    pub fn last_used(&self, action: Actions) -> (r: u64)
        requires
            self.wf(),
        ensures
            r == self.spec_last_used(action),
    {
        let idx = action.to_index();
        match self.cooldown_map.get(&idx) {
            Some(t) => *t,
            None => 0,
        }
    }

    /// The action index that a raw draw selects.
    pub fn pick(&self, draw: usize) -> (r: usize)
        requires
            self.actions() > 0,
        ensures
            r == draw % self.actions(),
            r < self.actions(),
    {
        draw % self.action_space
    }

    /// Draws an action index at random.
    pub fn sample(&self) -> (r: usize)
        requires
            self.actions() > 0,
        ensures
            r < self.actions(),
    {
        self.pick(random_index())
    }

    /// Whether the penalty for taking the action with index `action_key` at
    /// `now` fits the result type of `action_cooldown`. It always does
    /// unless the clock has run backwards by centuries.
    pub fn penalty_fits(&self, action_key: usize, now: u64) -> (r: bool)
        requires
            self.wf(),
        ensures
            r == (penalty(
                Actions::spec_from(action_key as int).spec_reward(),
                self.spec_last_used(Actions::spec_from(action_key as int)),
                now,
            ) <= i32::MAX),
    {
        let action = Actions::from(action_key);
        let last = self.last_used(action);
        let weight = action.get_reward();
        let left: i128 = 100 - (now as i128 - last as i128);
        let effective: i128 = if left > 0 { left } else { 0 };
        assert(0 <= weight * effective <= 4 * effective) by (nonlinear_arith)
            requires
                0 <= weight <= 4,
                0 <= effective,
        ;
        (weight as i128) * effective / 100 <= i32::MAX as i128
    }

    /// The cooldown penalty for taking the action with index `action_key`
    /// at time `now`, and a note that the action was used at `now`. An index
    /// outside the catalogue stands for `NONE`.
    pub fn action_cooldown(&mut self, action_key: usize, now: u64) -> (r: i32)
        requires
            old(self).wf(),
            penalty(
                Actions::spec_from(action_key as int).spec_reward(),
                old(self).spec_last_used(Actions::spec_from(action_key as int)),
                now,
            ) <= i32::MAX,
        ensures
            r == penalty(
                Actions::spec_from(action_key as int).spec_reward(),
                old(self).spec_last_used(Actions::spec_from(action_key as int)),
                now,
            ),
            r >= 0,
            final(self).wf(),
            final(self).cooldowns() == old(self).cooldowns().insert(
                Actions::spec_from(action_key as int).spec_index() as usize,
                now,
            ),
            final(self).bounds() == old(self).bounds(),
            final(self).actions() == old(self).actions(),
    {
        let action = Actions::from(action_key);
        let idx = action.to_index();
        let last = self.last_used(action);
        let weight = action.get_reward();
        let left: i128 = 100 - (now as i128 - last as i128);
        let effective: i128 = if left > 0 { left } else { 0 };
        assert(0 <= weight * effective <= 4 * effective) by (nonlinear_arith)
            requires
                0 <= weight <= 4,
                0 <= effective,
        ;
        let value: i128 = (weight as i128) * effective / 100;
        self.cooldown_map.insert(idx, now);
        value as i32
    }

    /// What taking the action with index `action` at time `now` earns: its
    /// nominal reward less the cooldown penalty. The action counts as used
    /// at `now`.
    pub fn step_reward(&mut self, action: usize, now: u64) -> (r: i32)
        requires
            old(self).wf(),
            penalty(
                Actions::spec_from(action as int).spec_reward(),
                old(self).spec_last_used(Actions::spec_from(action as int)),
                now,
            ) <= i32::MAX,
        ensures
            r == net_reward(
                Actions::spec_from(action as int).spec_reward(),
                old(self).spec_last_used(Actions::spec_from(action as int)),
                now,
            ),
            final(self).wf(),
            final(self).cooldowns() == old(self).cooldowns().insert(
                Actions::spec_from(action as int).spec_index() as usize,
                now,
            ),
            final(self).bounds() == old(self).bounds(),
            final(self).actions() == old(self).actions(),
    {
        let result = Actions::from(action);
        let weight = result.get_reward();
        weight - self.action_cooldown(action, now)
    }
}

} // verus!
