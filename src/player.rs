//! Move selection.

use vstd::prelude::*;

use rand::rngs::StdRng;

use crate::actions::{Action, ActionList};
use crate::gamestate::ObservableGameState;
use crate::rng::{entropy_rng, random_below, seeded_rng};

verus! {

/// Something that picks a move for a seat, from what that seat can see.
pub trait Player {
    /// Picks one of `actions`, given the player's view of the current state
    /// and of every earlier state.
    fn choose_action(
        &mut self,
        game_state: ObservableGameState,
        actions: ActionList,
        history: Vec<ObservableGameState>,
    ) -> (r: Action)
        requires
            actions@.len() > 0,
        ensures
            actions@.contains(r),
    ;
}

/// Picks uniformly at random among the legal actions.
pub struct RandomPlayer {
    rng: StdRng,
}

impl RandomPlayer {
    /// A player drawing from a generator seeded with `seed`, or from the
    /// operating system when there is none.
    pub fn new(seed: Option<u64>) -> RandomPlayer {
        match seed {
            Some(s) => RandomPlayer { rng: seeded_rng(s) },
            None => RandomPlayer { rng: entropy_rng() },
        }
    }
}

impl Player for RandomPlayer {
    fn choose_action(
        &mut self,
        _game_state: ObservableGameState,
        actions: ActionList,
        _history: Vec<ObservableGameState>,
    ) -> (r: Action) {
        let n = actions.0.len();
        let choice = if n == 1 {
            0
        } else {
            random_below(&mut self.rng, n)
        };
        assert(actions@[choice as int] == actions.0@[choice as int]);
        actions.0[choice]
    }
}

} // verus!
