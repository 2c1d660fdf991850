//! The closed set of actions, their nominal rewards and their indices.

use vstd::prelude::*;

verus! {

/// Number of actions in the catalogue.
pub const ACTION_COUNT: usize = 5;

/// What the agent can do in one step.
#[allow(non_camel_case_types)]
#[derive(Copy, Clone, Debug, PartialEq, Eq, Structural, Hash)]
pub enum Actions {
    NONE,
    PING,
    SCAN,
    INFECT,
    FETCH_INFO,
}

/// Draws one `usize` from `rand::random`. The value depends on the thread's
/// generator, so nothing is promised of it.
#[verifier::external_body]
pub(crate) fn random_index() -> (r: usize) {
    rand::random::<usize>()
}

impl Actions {
    /// The nominal reward of the action.
    pub open spec fn spec_reward(self) -> int {
        match self {
            Actions::NONE => 0,
            Actions::PING => 1,
            Actions::SCAN => 2,
            Actions::INFECT => 3,
            Actions::FETCH_INFO => 4,
        }
    }

    /// The dense index of the action, in catalogue order.
    pub open spec fn spec_index(self) -> int {
        match self {
            Actions::NONE => 0,
            Actions::PING => 1,
            Actions::SCAN => 2,
            Actions::INFECT => 3,
            Actions::FETCH_INFO => 4,
        }
    }

    /// The action with a given index; every index outside the catalogue
    /// stands for `NONE`.
    pub open spec fn spec_from(action: int) -> Actions {
        if action == 1 {
            Actions::PING
        } else if action == 2 {
            Actions::SCAN
        } else if action == 3 {
            Actions::INFECT
        } else if action == 4 {
            Actions::FETCH_INFO
        } else {
            Actions::NONE
        }
    }

    /// The catalogue in canonical order.
    pub open spec fn catalog() -> Seq<Actions> {
        seq![Actions::NONE, Actions::PING, Actions::SCAN, Actions::INFECT, Actions::FETCH_INFO]
    }

    /// The action that a raw draw selects: the draw reduced modulo the size
    /// of the catalogue.
    pub fn pick(draw: usize) -> (r: Actions)
        ensures
            r == Actions::spec_from(draw as int % ACTION_COUNT as int),
    {
        Actions::from(draw % ACTION_COUNT)
    }

    /// Draws an action at random from the whole catalogue.
    pub fn sample() -> (r: Actions)
        ensures
            Actions::catalog().contains(r),
    {
        let r = Actions::pick(random_index());
        proof {
            Actions::lemma_catalog_complete(r);
        }
        r
    }

    /// The nominal reward of the action.
    pub fn get_reward(&self) -> (r: i32)
        ensures
            r == self.spec_reward(),
            0 <= r <= 4,
    {
        match self {
            Actions::NONE => 0,
            Actions::PING => 1,
            Actions::SCAN => 2,
            Actions::INFECT => 3,
            Actions::FETCH_INFO => 4,
        }
    }

    /// The action with the given index; an index outside the catalogue
    /// gives `NONE`.
    pub fn from(action: usize) -> (r: Self)
        ensures
            r == Actions::spec_from(action as int),
            action >= ACTION_COUNT ==> r == Actions::NONE,
    {
        match action {
            0 => Actions::NONE,
            1 => Actions::PING,
            2 => Actions::SCAN,
            3 => Actions::INFECT,
            4 => Actions::FETCH_INFO,
            _ => Actions::NONE,
        }
    }

    /// The index of the action in the catalogue.
    pub fn to_index(&self) -> (r: usize)
        ensures
            r == self.spec_index(),
            r < ACTION_COUNT,
    {
        match self {
            Actions::NONE => 0,
            Actions::PING => 1,
            Actions::SCAN => 2,
            Actions::INFECT => 3,
            Actions::FETCH_INFO => 4,
        }
    }

    /// All actions, in canonical order. Each call builds the list anew.
    pub fn iter() -> (r: Vec<Actions>)
        ensures
            r@ == Actions::catalog(),
    {
        let mut all: Vec<Actions> = Vec::new();
        all.push(Actions::NONE);
        all.push(Actions::PING);
        all.push(Actions::SCAN);
        all.push(Actions::INFECT);
        all.push(Actions::FETCH_INFO);
        assert(all@ =~= Actions::catalog());
        all
    }

    /// Going from an action to its index and back gives the same action, and
    /// the index of the action at position `i` of the catalogue is `i`.
    pub proof fn lemma_index_round_trip(a: Actions)
        ensures
            Actions::spec_from(a.spec_index()) == a,
            0 <= a.spec_index() < ACTION_COUNT,
            Actions::catalog()[a.spec_index()] == a,
    {
    }

    /// Every index outside the catalogue stands for `NONE`, and every index
    /// inside it comes back unchanged.
    pub proof fn lemma_from_index(i: int)
        ensures
            !(0 <= i < ACTION_COUNT) ==> Actions::spec_from(i) == Actions::NONE,
            0 <= i < ACTION_COUNT ==> Actions::spec_from(i).spec_index() == i,
    {
    }

    /// The catalogue holds every action, and the reward of an action equals
    /// its index.
    pub proof fn lemma_catalog_complete(a: Actions)
        ensures
            Actions::catalog().contains(a),
            Actions::catalog().len() == ACTION_COUNT,
            a.spec_reward() == a.spec_index(),
    {
        assert(Actions::catalog()[a.spec_index()] == a);
    }
}

/// Gatekeeper in front of the action handlers: while busy it refuses every
/// action.
pub struct ActionBot {
    pub is_busy: bool,
}

/// Error code with which a busy bot refuses an action.
pub const BUSY: usize = usize::MAX;

impl ActionBot {
    /// A bot that is not busy.
    pub fn new() -> (r: ActionBot)
        ensures
            !r.is_busy,
    {
        ActionBot { is_busy: false }
    }

    /// Admits `action` unless the bot is busy. On `Ok` the caller runs the
    /// handler that belongs to the action.
    pub fn action(&self, action: Actions) -> (r: Result<(), usize>)
        ensures
            self.is_busy ==> r == Err::<(), usize>(BUSY),
            !self.is_busy ==> r == Ok::<(), usize>(()),
    {
        if self.is_busy {
            return Err(BUSY);
        }
        Ok(())
    }
}

} // verus!
