//! The full game state, its mathematical model, and the one-player view of it.

use vstd::prelude::*;

use crate::cards::{all_cards_wf, card_bitmap, cards_to_bitmap, Card, Deck, Hand};

verus! {

/// One of the two seats.
#[derive(Clone, Copy, PartialEq, Eq, Structural, Debug)]
pub enum GamePlayer {
    Player1,
    Player2,
}

impl GamePlayer {
    pub open spec fn spec_other(self) -> GamePlayer {
        match self {
            GamePlayer::Player1 => GamePlayer::Player2,
            GamePlayer::Player2 => GamePlayer::Player1,
        }
    }

    /// The opponent.
    pub fn other(&self) -> (r: GamePlayer)
        ensures
            r == self.spec_other(),
    {
        match self {
            GamePlayer::Player1 => GamePlayer::Player2,
            GamePlayer::Player2 => GamePlayer::Player1,
        }
    }
}

/// A player as a 2-wide one-hot vector, player one first.
pub open spec fn player_bits(p: GamePlayer) -> Seq<u8> {
    match p {
        GamePlayer::Player1 => seq![1u8, 0u8],
        GamePlayer::Player2 => seq![0u8, 1u8],
    }
}

fn encode_player(p: GamePlayer) -> (r: Vec<u8>)
    ensures
        r@ == player_bits(p),
{
    let mut r: Vec<u8> = Vec::new();
    match p {
        GamePlayer::Player1 => {
            r.push(1);
            r.push(0);
        },
        GamePlayer::Player2 => {
            r.push(0);
            r.push(1);
        },
    }
    assert(r@ =~= player_bits(p));
    r
}

/// The mathematical model of a game state: every pile as a sequence.
pub struct GameModel {
    pub deck: Seq<Card>,
    pub attack_table: Seq<Card>,
    pub defense_table: Seq<Card>,
    pub hand1: Seq<Card>,
    pub hand2: Seq<Card>,
    pub acting_player: GamePlayer,
    pub defending_player: GamePlayer,
    pub visible_card: Card,
    pub defender_has_taken: bool,
    pub graveyard: Seq<Card>,
}

impl GameModel {
    pub open spec fn hand(self, p: GamePlayer) -> Seq<Card> {
        match p {
            GamePlayer::Player1 => self.hand1,
            GamePlayer::Player2 => self.hand2,
        }
    }

    pub open spec fn with_hand(self, p: GamePlayer, h: Seq<Card>) -> GameModel {
        match p {
            GamePlayer::Player1 => GameModel { hand1: h, ..self },
            GamePlayer::Player2 => GameModel { hand2: h, ..self },
        }
    }

    pub open spec fn defender_hand(self) -> Seq<Card> {
        self.hand(self.defending_player)
    }

    pub open spec fn attacker_hand(self) -> Seq<Card> {
        self.hand(self.defending_player.spec_other())
    }

    /// Number of cards in all piles together.
    pub open spec fn total_cards(self) -> int {
        (self.deck.len() + self.hand1.len() + self.hand2.len() + self.attack_table.len()
            + self.defense_table.len() + self.graveyard.len()) as int
    }

    /// Attack cards that no defence answers yet.
    pub open spec fn undefended(self) -> int {
        self.attack_table.len() - self.defense_table.len()
    }
}

/// The authoritative snapshot of a match.
#[derive(Debug, PartialEq)]
pub struct GameState {
    pub deck: Deck,
    pub attack_table: Vec<Card>,
    pub defense_table: Vec<Card>,
    pub hand1: Hand,
    pub hand2: Hand,
    pub acting_player: GamePlayer,
    pub defending_player: GamePlayer,
    pub visible_card: Card,
    pub defender_has_taken: bool,
    pub graveyard: Vec<Card>,
}

impl View for GameState {
    type V = GameModel;

    open spec fn view(&self) -> GameModel {
        GameModel {
            deck: self.deck@,
            attack_table: self.attack_table@,
            defense_table: self.defense_table@,
            hand1: self.hand1@,
            hand2: self.hand2@,
            acting_player: self.acting_player,
            defending_player: self.defending_player,
            visible_card: self.visible_card,
            defender_has_taken: self.defender_has_taken,
            graveyard: self.graveyard@,
        }
    }
}

/// A copy of the cards of a pile.
fn copy_cards(v: &Vec<Card>) -> (r: Vec<Card>)
    ensures
        r@ == v@,
{
    let r = v.clone();
    assert(r@ =~= v@);
    r
}

impl Clone for GameState {
    fn clone(&self) -> (r: Self)
        ensures
            r@ == self@,
    {
        GameState {
            deck: self.deck.clone(),
            attack_table: copy_cards(&self.attack_table),
            defense_table: copy_cards(&self.defense_table),
            hand1: self.hand1.clone(),
            hand2: self.hand2.clone(),
            acting_player: self.acting_player,
            defending_player: self.defending_player,
            visible_card: self.visible_card,
            defender_has_taken: self.defender_has_taken,
            graveyard: copy_cards(&self.graveyard),
        }
    }
}

/// What one player may see of a match: their own hand, both tables, the
/// trump card, the roles, and only the sizes of the deck and of the
/// opponent's hand.
#[derive(Debug)]
pub struct ObservableGameState {
    pub player: GamePlayer,
    pub num_cards_in_deck: u8,
    pub attack_table: Vec<Card>,
    pub defense_table: Vec<Card>,
    pub hand: Hand,
    pub visible_card: Card,
    pub defender_has_taken: bool,
    pub acting_player: GamePlayer,
    pub defender: GamePlayer,
    pub cards_in_opponent: u8,
}

impl Clone for ObservableGameState {
    fn clone(&self) -> (r: Self)
        ensures
            r.player == self.player,
            r.num_cards_in_deck == self.num_cards_in_deck,
            r.attack_table@ == self.attack_table@,
            r.defense_table@ == self.defense_table@,
            r.hand@ == self.hand@,
            r.visible_card == self.visible_card,
            r.defender_has_taken == self.defender_has_taken,
            r.acting_player == self.acting_player,
            r.defender == self.defender,
            r.cards_in_opponent == self.cards_in_opponent,
    {
        ObservableGameState {
            player: self.player,
            num_cards_in_deck: self.num_cards_in_deck,
            attack_table: copy_cards(&self.attack_table),
            defense_table: copy_cards(&self.defense_table),
            hand: self.hand.clone(),
            visible_card: self.visible_card,
            defender_has_taken: self.defender_has_taken,
            acting_player: self.acting_player,
            defender: self.defender,
            cards_in_opponent: self.cards_in_opponent,
        }
    }
}

impl ObservableGameState {
    /// The view as a flat feature vector: acting player, own hand, attack
    /// table, defence table, deck size, trump card, taken flag, defender,
    /// and opponent's hand size; cards as 36-wide bitmaps, players one-hot.
    pub fn encode(&self) -> (r: Vec<u8>)
        requires
            all_cards_wf(self.hand@),
            all_cards_wf(self.attack_table@),
            all_cards_wf(self.defense_table@),
            self.visible_card.wf(),
        ensures
            r@ == player_bits(self.acting_player) + card_bitmap(self.hand@) + card_bitmap(
                self.attack_table@,
            ) + card_bitmap(self.defense_table@) + seq![self.num_cards_in_deck] + card_bitmap(
                seq![self.visible_card],
            ) + seq![if self.defender_has_taken {
                1u8
            } else {
                0u8
            }] + player_bits(self.defender) + seq![self.cards_in_opponent],
    {
        let mut r = encode_player(self.acting_player);
        let mut part = self.hand.to_bitmap();
        r.append(&mut part);
        let mut part = cards_to_bitmap(&self.attack_table);
        r.append(&mut part);
        let mut part = cards_to_bitmap(&self.defense_table);
        r.append(&mut part);
        r.push(self.num_cards_in_deck);
        let mut shown: Vec<Card> = Vec::new();
        shown.push(self.visible_card);
        assert(shown@ =~= seq![self.visible_card]);
        let mut part = cards_to_bitmap(&shown);
        r.append(&mut part);
        r.push(if self.defender_has_taken { 1 } else { 0 });
        let mut part = encode_player(self.defender);
        r.append(&mut part);
        r.push(self.cards_in_opponent);
        r
    }
}

impl GameState {
    /// The full state as a flat vector: the deck's card indices bottom
    /// first, the attack table, defence table and both hands as 36-wide
    /// bitmaps, acting and defending player one-hot, the trump card's index,
    /// the taken flag, and the graveyard as a bitmap.
    pub fn encode(&self) -> (r: Vec<u8>)
        requires
            all_cards_wf(self.deck@),
            all_cards_wf(self.attack_table@),
            all_cards_wf(self.defense_table@),
            all_cards_wf(self.hand1@),
            all_cards_wf(self.hand2@),
            all_cards_wf(self.graveyard@),
            self.visible_card.wf(),
        ensures
            r@ == Seq::new(self.deck@.len(), |i: int| self.deck@[i].spec_index() as u8)
                + card_bitmap(self.attack_table@) + card_bitmap(self.defense_table@)
                + card_bitmap(self.hand1@) + card_bitmap(self.hand2@) + player_bits(
                self.acting_player,
            ) + player_bits(self.defending_player) + seq![self.visible_card.spec_index() as u8]
                + seq![if self.defender_has_taken {
                1u8
            } else {
                0u8
            }] + card_bitmap(self.graveyard@),
    {
        let mut r = self.deck.to_indices();
        let mut part = cards_to_bitmap(&self.attack_table);
        r.append(&mut part);
        let mut part = cards_to_bitmap(&self.defense_table);
        r.append(&mut part);
        let mut part = self.hand1.to_bitmap();
        r.append(&mut part);
        let mut part = self.hand2.to_bitmap();
        r.append(&mut part);
        let mut part = encode_player(self.acting_player);
        r.append(&mut part);
        let mut part = encode_player(self.defending_player);
        r.append(&mut part);
        r.push(self.visible_card.index());
        r.push(if self.defender_has_taken { 1 } else { 0 });
        let mut part = cards_to_bitmap(&self.graveyard);
        r.append(&mut part);
        r
    }

    pub fn new(
        deck: Deck,
        attack_table: Vec<Card>,
        defense_table: Vec<Card>,
        hand1: Hand,
        hand2: Hand,
        acting_player: GamePlayer,
        defending_player: GamePlayer,
        visible_card: Card,
        defender_has_taken: bool,
        graveyard: Vec<Card>,
    ) -> (r: GameState)
        ensures
            r@ == (GameModel {
                deck: deck@,
                attack_table: attack_table@,
                defense_table: defense_table@,
                hand1: hand1@,
                hand2: hand2@,
                acting_player,
                defending_player,
                visible_card,
                defender_has_taken,
                graveyard: graveyard@,
            }),
    {
        GameState {
            deck,
            attack_table,
            defense_table,
            hand1,
            hand2,
            acting_player,
            defending_player,
            visible_card,
            defender_has_taken,
            graveyard,
        }
    }

    /// The view of `player`: their own hand in full, the opponent's hand and
    /// the deck only by their sizes.
    pub fn observe(&self, player: GamePlayer) -> (r: ObservableGameState)
        requires
            self.deck@.len() <= u8::MAX,
            self.hand1@.len() <= u8::MAX,
            self.hand2@.len() <= u8::MAX,
        ensures
            r.player == player,
            r.num_cards_in_deck == self.deck@.len(),
            r.attack_table@ == self.attack_table@,
            r.defense_table@ == self.defense_table@,
            r.hand@ == self@.hand(player),
            r.visible_card == self.visible_card,
            r.defender_has_taken == self.defender_has_taken,
            r.acting_player == self.acting_player,
            r.defender == self.defending_player,
            r.cards_in_opponent == self@.hand(player.spec_other()).len(),
    {
        let hand = match player {
            GamePlayer::Player1 => self.hand1.clone(),
            GamePlayer::Player2 => self.hand2.clone(),
        };
        let cards_in_opponent = match player {
            GamePlayer::Player1 => self.hand2.0.len() as u8,
            GamePlayer::Player2 => self.hand1.0.len() as u8,
        };
        ObservableGameState {
            player,
            num_cards_in_deck: self.deck.len() as u8,
            attack_table: copy_cards(&self.attack_table),
            defense_table: copy_cards(&self.defense_table),
            hand,
            visible_card: self.visible_card,
            defender_has_taken: self.defender_has_taken,
            acting_player: self.acting_player,
            defender: self.defending_player,
            cards_in_opponent,
        }
    }

    /// Attack cards not yet answered by a defence.
    pub fn num_undefended(&self) -> (r: u8)
        requires
            self.defense_table@.len() <= self.attack_table@.len() <= u8::MAX,
        ensures
            r == self@.undefended(),
    {
        let num_attack = self.attack_table.len() as u8;
        let num_defend = self.defense_table.len() as u8;
        num_attack - num_defend
    }
}

} // verus!
