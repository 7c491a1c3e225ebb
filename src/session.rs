//! A match hosted for remote players: its identifier, the seats' owners,
//! and a bounded log of the moves played.

use vstd::prelude::*;

use uuid::Uuid;

use crate::actions::Action;
use crate::game::Game;
use crate::gamestate::GamePlayer;

verus! {

#[verifier::external_type_specification]
#[verifier::external_body]
pub struct ExUuid(Uuid);

/// Relies on uuid's `Uuid::new_v4`: a fresh random identifier.
#[verifier::external_body]
fn new_session_id() -> Uuid {
    Uuid::new_v4()
}

/// The most recent moves a session keeps.
pub const MAX_LOGGED_ACTIONS: usize = 100;

/// One move of the log: who played what, and when (seconds since the Unix
/// epoch).
#[derive(Clone, Copy, Debug)]
pub struct ActionHistoryEntry {
    pub player: GamePlayer,
    pub action: Action,
    pub timestamp: u64,
}

/// The log after appending `e` to `log`, dropping the oldest entry once it
/// holds more than the most it keeps.
pub open spec fn logged(log: Seq<ActionHistoryEntry>, e: ActionHistoryEntry) -> Seq<
    ActionHistoryEntry,
> {
    let l = log.push(e);
    if l.len() > MAX_LOGGED_ACTIONS {
        l.drop_first()
    } else {
        l
    }
}

/// A hosted match.
pub struct GameSession {
    pub id: Uuid,
    pub game: Game,
    pub player1_id: Option<String>,
    pub player2_id: Option<String>,
    pub action_history: Vec<ActionHistoryEntry>,
}

impl GameSession {
    /// A session with a fresh identifier, a new match, free seats and an
    /// empty log.
    pub fn new() -> (r: Self)
        ensures
            r.game.wf(),
            r.game.history@.len() == 0,
            r.game.game_state@.deck.len() == 24,
            r.player1_id is None,
            r.player2_id is None,
            r.action_history@.len() == 0,
    {
        GameSession {
            id: new_session_id(),
            game: Game::new(),
            player1_id: None,
            player2_id: None,
            action_history: Vec::new(),
        }
    }

    /// Appends a move to the log, which keeps only the latest hundred.
    pub fn record_action(&mut self, player: GamePlayer, action: Action, timestamp: u64)
        ensures
            final(self).action_history@ == logged(
                old(self).action_history@,
                ActionHistoryEntry { player, action, timestamp },
            ),
            final(self).game == old(self).game,
            final(self).player1_id == old(self).player1_id,
            final(self).player2_id == old(self).player2_id,
    {
        self.action_history.push(ActionHistoryEntry { player, action, timestamp });
        if self.action_history.len() > MAX_LOGGED_ACTIONS {
            self.action_history.remove(0);
            assert(self.action_history@ =~= logged(
                old(self).action_history@,
                ActionHistoryEntry { player, action, timestamp },
            ));
        }
    }

    /// Who holds the seat of `player`, if anyone.
    pub fn get_player_id(&self, player: GamePlayer) -> (r: Option<String>)
        ensures
            r == match player {
                GamePlayer::Player1 => self.player1_id,
                GamePlayer::Player2 => self.player2_id,
            },
    {
        match player {
            GamePlayer::Player1 => self.player1_id.clone(),
            GamePlayer::Player2 => self.player2_id.clone(),
        }
    }

    /// Gives the seat of `player` to `player_id` if it is free; returns
    /// whether it was.
    pub fn assign_player(&mut self, player: GamePlayer, player_id: String) -> (r: bool)
        ensures
            r == (match player {
                GamePlayer::Player1 => old(self).player1_id is None,
                GamePlayer::Player2 => old(self).player2_id is None,
            }),
            r && player == GamePlayer::Player1 ==> final(self).player1_id == Some(player_id),
            !(r && player == GamePlayer::Player1) ==> final(self).player1_id == old(self).player1_id,
            r && player == GamePlayer::Player2 ==> final(self).player2_id == Some(player_id),
            !(r && player == GamePlayer::Player2) ==> final(self).player2_id == old(self).player2_id,
            final(self).game == old(self).game,
            final(self).action_history == old(self).action_history,
    {
        match player {
            GamePlayer::Player1 => {
                if self.player1_id.is_none() {
                    self.player1_id = Some(player_id);
                    true
                } else {
                    false
                }
            },
            GamePlayer::Player2 => {
                if self.player2_id.is_none() {
                    self.player2_id = Some(player_id);
                    true
                } else {
                    false
                }
            },
        }
    }
}

} // verus!
