//! The engine: a match, its legal actions, and its transitions.

use vstd::prelude::*;

use std::collections::HashSet;

use rand::rngs::StdRng;

use crate::actions::{Action, ActionList};
use crate::cards::{
    lemma_ordered_deck, lemma_permutation_wf, ordered_cards, top_cards, Card, Deck, Hand, Suit,
    LOWEST_RANK,
};
use crate::gamestate::{GameModel, GamePlayer, GameState, ObservableGameState};
use crate::player::Player;
use crate::rng::{entropy_rng, seeded_rng};
use crate::rules::{
    after_attack, after_defense, after_stop_attack, after_take, all_attacks, apply_action,
    attacks_matching, beats, defenses_of, first_attacker_of, full_deck, has_suit, initial_state,
    is_lowest_rank, is_over_of, legal_actions_of, lemma_initial_state, lemma_legal_members,
    lemma_legal_nonempty, lemma_step_preserves_inv, lowest_rank, refill, refill_one, remove_card, state_inv,
    table_ranks, table_to_defender, table_to_graveyard, winner_of, HAND_SIZE,
};

verus! {

/// The position of the first occurrence of `c` in `v`.
fn position_of(v: &Vec<Card>, c: Card) -> (r: usize)
    requires
        v@.contains(c),
    ensures
        v@.index_of_first(c) == Some(r as int),
{
    proof {
        v@.index_of_first_ensures(c);
    }
    let mut i: usize = 0;
    while i < v.len()
        invariant
            i <= v@.len(),
            v@.contains(c),
            forall|k: int| 0 <= k < i ==> v@[k] != c,
            v@.index_of_first(c) matches Some(f) && i <= f < v@.len() && v@[f] == c,
        decreases v@.len() - i,
    {
        if v[i] == c {
            proof {
                let f = v@.index_of_first(c)->Some_0;
                v@.index_of_first_ensures(c);
                assert(f == i);
            }
            return i;
        }
        i += 1;
    }
    proof {
        v@.index_of_first_ensures(c);
    }
    0
}

/// Whether `a` is one of `v`.
fn list_contains(v: &Vec<Action>, a: Action) -> (r: bool)
    ensures
        r == v@.contains(a),
{
    let mut i: usize = 0;
    while i < v.len()
        invariant
            i <= v@.len(),
            forall|k: int| 0 <= k < i ==> v@[k] != a,
        decreases v@.len() - i,
    {
        if v[i] == a {
            assert(v@[i as int] == a);
            return true;
        }
        i += 1;
    }
    false
}

/// The lowest rank of suit `s` in `h`, if `h` holds that suit.
fn lowest_rank_of_suit(h: &Hand, s: Suit) -> (r: Option<u8>)
    ensures
        r is None <==> !has_suit(h@, s),
        r matches Some(x) ==> x == lowest_rank(h@, s) && is_lowest_rank(h@, s, x),
{
    let v = &h.0;
    let mut best: Option<u8> = None;
    let mut i: usize = 0;
    while i < v.len()
        invariant
            i <= v@.len(),
            best is None <==> !has_suit(v@.take(i as int), s),
            best matches Some(x) ==> is_lowest_rank(v@.take(i as int), s, x),
        decreases v@.len() - i,
    {
        let c = v[i];
        let ghost pre = v@.take(i as int);
        let ghost post = v@.take(i + 1);
        assert(forall|k: int| 0 <= k < i ==> pre[k] == post[k]);
        assert(post[i as int] == c);
        if c.suit == s {
            match best {
                None => {
                    best = Some(c.rank);
                },
                Some(x) => {
                    if c.rank < x {
                        best = Some(c.rank);
                    }
                },
            }
        }
        proof {
            if has_suit(post, s) && !(c.suit == s) {
                let k = choose|k: int| 0 <= k < post.len() && post[k].suit == s;
                assert(k < i);
                assert(has_suit(pre, s));
            }
            if has_suit(pre, s) {
                let k = choose|k: int| 0 <= k < pre.len() && pre[k].suit == s;
                assert(post[k].suit == s);
            }
        }
        i += 1;
    }
    assert(v@.take(v@.len() as int) =~= v@);
    if let Some(x) = best {
        proof {
            let y = lowest_rank(h@, s);
            assert(is_lowest_rank(h@, s, y));
            let ix = choose|k: int| 0 <= k < h@.len() && h@[k].suit == s && h@[k].rank == x;
            let iy = choose|k: int| 0 <= k < h@.len() && h@[k].suit == s && h@[k].rank == y;
            assert(x <= h@[iy].rank);
            assert(y <= h@[ix].rank);
        }
    }
    best
}

/// Who attacks first: the player with the lower trump.
pub fn det_first_attacker(hand1: &Hand, hand2: &Hand, suit: Suit) -> (r: GamePlayer)
    ensures
        r == first_attacker_of(hand1@, hand2@, suit),
{
    let min1 = lowest_rank_of_suit(hand1, suit);
    let min2 = lowest_rank_of_suit(hand2, suit);
    match (min1, min2) {
        (Some(rank1), Some(rank2)) => {
            if rank1 < rank2 {
                GamePlayer::Player1
            } else {
                GamePlayer::Player2
            }
        },
        (Some(_), None) => GamePlayer::Player1,
        (None, Some(_)) => GamePlayer::Player2,
        (None, None) => GamePlayer::Player1,
    }
}

/// A legal action meets the requirements of the handler that plays it.
proof fn lemma_legal_action_playable(m: GameModel, a: Action)
    requires
        state_inv(m),
        legal_actions_of(m).contains(a),
    ensures
        m.defense_table.len() <= m.attack_table.len(),
        a matches Action::Attack(c) ==> m.attacker_hand().contains(c),
        a matches Action::Defend(c) ==> m.defender_hand().contains(c),
{
    lemma_legal_members(m, a);
}

/// Removes the first occurrence of `c` from `h`.
fn remove_from(h: &mut Vec<Card>, c: Card)
    requires
        old(h)@.contains(c),
    ensures
        final(h)@ == remove_card(old(h)@, c),
{
    let i = position_of(h, c);
    proof {
        old(h)@.index_of_first_ensures(c);
    }
    h.remove(i);
}

/// A match: the current state, and the state before each attempted step.
#[derive(Debug)]
pub struct Game {
    pub history: Vec<GameState>,
    pub game_state: GameState,
}

impl Game {
    /// A new match dealt from a deck shuffled by a generator seeded from the
    /// operating system.
    pub fn new() -> (r: Game)
        ensures
            r.wf(),
            r.history@.len() == 0,
            exists|d: Seq<Card>|
                d.to_multiset() == ordered_cards(6, 4).to_multiset() && r.game_state@
                    == initial_state(d),
            r.game_state@.deck.len() == 24,
    {
        let mut rng = entropy_rng();
        Game::deal(&mut rng)
    }

    /// A new match dealt from a deck shuffled by a generator seeded with
    /// `seed`, so that it can be replayed.
    pub fn new_seeded(seed: u64) -> (r: Game)
        ensures
            r.wf(),
            r.history@.len() == 0,
            exists|d: Seq<Card>|
                d.to_multiset() == ordered_cards(6, 4).to_multiset() && r.game_state@
                    == initial_state(d),
            r.game_state@.deck.len() == 24,
    {
        let mut rng = seeded_rng(seed);
        Game::deal(&mut rng)
    }

    fn deal(rng: &mut StdRng) -> (r: Game)
        ensures
            r.wf(),
            r.history@.len() == 0,
            exists|d: Seq<Card>|
                d.to_multiset() == ordered_cards(6, 4).to_multiset() && r.game_state@
                    == initial_state(d),
            r.game_state@.deck.len() == 24,
    {
        let mut deck = Deck::new(LOWEST_RANK);
        deck.shuffle(rng);
        Game::from_deck(deck)
    }

    /// Deals a match from `deck`, whose last card is its top: six cards to
    /// player one, six to player two, and the bottom card is shown as trump.
    pub fn from_deck(deck: Deck) -> (r: Game)
        requires
            deck@.to_multiset() == full_deck(),
        ensures
            r.game_state@ == initial_state(deck@),
            r.history@.len() == 0,
            r.wf(),
            r.game_state@.deck.len() == 24,
    {
        let ghost d = deck@;
        proof {
            lemma_ordered_deck();
            lemma_permutation_wf(d, ordered_cards(6, 4));
        }
        let mut deck = deck;
        let hand1 = Hand(deck.draw_n(HAND_SIZE));
        let hand2 = Hand(deck.draw_n(HAND_SIZE));
        assert(d.take(30).take(24) =~= d.take(24));
        let visible_card = deck.get_first().unwrap();
        let first_attacker = det_first_attacker(&hand1, &hand2, visible_card.suit);
        let game_state = GameState::new(
            deck,
            Vec::new(),
            Vec::new(),
            hand1,
            hand2,
            first_attacker,
            first_attacker.other(),
            visible_card,
            false,
            Vec::new(),
        );
        proof {
            lemma_initial_state(d);
            assert(game_state@.attack_table =~= Seq::<Card>::empty());
            assert(game_state@.defense_table =~= Seq::<Card>::empty());
            assert(game_state@.graveyard =~= Seq::<Card>::empty());
            assert(game_state@ == initial_state(d));
        }
        Game { game_state, history: Vec::new() }
    }

    /// The current state, and every state of the history, satisfies the
    /// invariant of the rules.
    pub open spec fn wf(&self) -> bool {
        &&& state_inv(self.game_state@)
        &&& forall|i: int| 0 <= i < self.history@.len() ==> state_inv(#[trigger] self.history@[i]@)
    }

    fn defender_hand(&self) -> (r: &Hand)
        ensures
            r@ == self.game_state@.defender_hand(),
    {
        match self.game_state.defending_player {
            GamePlayer::Player1 => &self.game_state.hand1,
            GamePlayer::Player2 => &self.game_state.hand2,
        }
    }

    fn attacker_hand(&self) -> (r: &Hand)
        ensures
            r@ == self.game_state@.attacker_hand(),
    {
        match self.game_state.defending_player.other() {
            GamePlayer::Player1 => &self.game_state.hand1,
            GamePlayer::Player2 => &self.game_state.hand2,
        }
    }

    /// Fills the hand of `p` up to six cards from the deck.
    fn refill_hand(&mut self, p: GamePlayer)
        ensures
            final(self).game_state@ == refill_one(old(self).game_state@, p),
            final(self).history@ == old(self).history@,
    {
        let len = match p {
            GamePlayer::Player1 => self.game_state.hand1.0.len(),
            GamePlayer::Player2 => self.game_state.hand2.0.len(),
        };
        if len < HAND_SIZE {
            let mut new_cards = self.game_state.deck.draw_n(HAND_SIZE - len);
            match p {
                GamePlayer::Player1 => self.game_state.hand1.0.append(&mut new_cards),
                GamePlayer::Player2 => self.game_state.hand2.0.append(&mut new_cards),
            }
        }
        proof {
            let m = old(self).game_state@;
            let r = refill_one(m, p);
            if len >= HAND_SIZE {
                assert(m.deck.take(m.deck.len() as int) =~= m.deck);
                assert(m.hand(p) + top_cards(m.deck, 0) =~= m.hand(p));
            }
            assert(self.game_state@.hand1 =~= r.hand1);
            assert(self.game_state@.hand2 =~= r.hand2);
        }
    }

    /// Fills both hands after a round, starting with the player who is not
    /// defending.
    fn refill_hands(&mut self)
        ensures
            final(self).game_state@ == refill(old(self).game_state@),
            final(self).history@ == old(self).history@,
    {
        let first = self.game_state.defending_player.other();
        let second = self.game_state.defending_player;
        self.refill_hand(first);
        self.refill_hand(second);
    }

    /// Puts both tables into the defender's hand.
    fn add_table_to_defender(&mut self)
        ensures
            final(self).game_state@ == table_to_defender(old(self).game_state@),
            final(self).history@ == old(self).history@,
    {
        match self.game_state.defending_player {
            GamePlayer::Player1 => {
                self.game_state.hand1.0.append(&mut self.game_state.defense_table);
                self.game_state.hand1.0.append(&mut self.game_state.attack_table);
            },
            GamePlayer::Player2 => {
                self.game_state.hand2.0.append(&mut self.game_state.defense_table);
                self.game_state.hand2.0.append(&mut self.game_state.attack_table);
            },
        }
        proof {
            let r = table_to_defender(old(self).game_state@);
            assert(self.game_state@.hand1 =~= r.hand1);
            assert(self.game_state@.hand2 =~= r.hand2);
            assert(self.game_state@.attack_table =~= r.attack_table);
            assert(self.game_state@.defense_table =~= r.defense_table);
        }
    }

    /// The defender gives up the round: at once when the table is full or
    /// holds as many open attacks as the defender has cards, else after the
    /// attacker has had the chance to add more.
    fn handle_take(&mut self)
        requires
            old(self).game_state@.defense_table.len() <= old(self).game_state@.attack_table.len(),
        ensures
            final(self).game_state@ == after_take(old(self).game_state@),
            final(self).history@ == old(self).history@,
    {
        let num_attack = self.game_state.attack_table.len();
        let num_defend = self.game_state.defense_table.len();
        if num_attack == HAND_SIZE || num_attack - num_defend >= self.defender_hand().0.len() {
            self.add_table_to_defender();
            self.refill_hands();
            self.game_state.acting_player = self.game_state.acting_player.other();
        } else {
            self.game_state.defender_has_taken = true;
            self.game_state.acting_player = self.game_state.acting_player.other();
        }
    }

    /// The attacker adds no more cards.
    fn handle_stop_attack(&mut self)
        requires
            old(self).game_state@.defense_table.len() <= old(self).game_state@.attack_table.len(),
        ensures
            final(self).game_state@ == after_stop_attack(old(self).game_state@),
            final(self).history@ == old(self).history@,
    {
        if self.game_state.defender_has_taken {
            self.add_table_to_defender();
            self.refill_hands();
        } else {
            if self.game_state.attack_table.len() == self.game_state.defense_table.len() {
                self.clear_table();
                self.game_state.defending_player = self.game_state.defending_player.other();
                self.refill_hands();
            }
            self.game_state.acting_player = self.game_state.acting_player.other();
        }
        self.game_state.defender_has_taken = false;
    }

    /// The attacker puts `card` on the attack table.
    fn handle_attack(&mut self, card: Card)
        requires
            old(self).game_state@.attacker_hand().contains(card),
        ensures
            final(self).game_state@ == after_attack(old(self).game_state@, card),
            final(self).history@ == old(self).history@,
    {
        self.game_state.attack_table.push(card);
        match self.game_state.defending_player {
            GamePlayer::Player1 => remove_from(&mut self.game_state.hand2.0, card),
            GamePlayer::Player2 => remove_from(&mut self.game_state.hand1.0, card),
        }
    }

    /// The defender answers the first open attack with `card`.
    fn handle_defense(&mut self, card: Card)
        requires
            old(self).game_state@.defender_hand().contains(card),
        ensures
            final(self).game_state@ == after_defense(old(self).game_state@, card),
            final(self).history@ == old(self).history@,
    {
        self.game_state.defense_table.push(card);
        match self.game_state.defending_player {
            GamePlayer::Player1 => remove_from(&mut self.game_state.hand1.0, card),
            GamePlayer::Player2 => remove_from(&mut self.game_state.hand2.0, card),
        }
        if self.game_state.defense_table.len() == HAND_SIZE || self.defender_hand().0.len() == 0 {
            self.clear_table();
            self.refill_hands();
            self.game_state.defender_has_taken = false;
            self.game_state.defending_player = self.game_state.defending_player.other();
        } else if self.game_state.attack_table.len() == self.game_state.defense_table.len() {
            self.game_state.acting_player = self.game_state.acting_player.other();
        }
    }

    /// The ranks present on either table.
    fn ranks(&self) -> (r: HashSet<u8>)
        ensures
            r@ == table_ranks(self.game_state@),
    {
        broadcast use vstd::std_specs::hash::group_hash_axioms;

        let ghost m = self.game_state@;
        let mut ranks: HashSet<u8> = HashSet::new();
        let mut i: usize = 0;
        while i < self.game_state.attack_table.len()
            invariant
                m == self.game_state@,
                i <= m.attack_table.len(),
                ranks@ == Set::new(
                    |r: u8| exists|k: int| 0 <= k < i && #[trigger] m.attack_table[k].rank == r,
                ),
            decreases m.attack_table.len() - i,
        {
            let c = self.game_state.attack_table[i];
            ranks.insert(c.rank);
            proof {
                assert(ranks@ =~= Set::new(
                    |r: u8| exists|k: int| 0 <= k < i + 1 && #[trigger] m.attack_table[k].rank == r,
                )) by {
                    assert(m.attack_table[i as int].rank == c.rank);
                }
            }
            i += 1;
        }
        let mut j: usize = 0;
        while j < self.game_state.defense_table.len()
            invariant
                m == self.game_state@,
                j <= m.defense_table.len(),
                ranks@ == Set::new(
                    |r: u8|
                        (exists|k: int|
                            0 <= k < m.attack_table.len() && #[trigger] m.attack_table[k].rank
                                == r) || (exists|k: int|
                            0 <= k < j && #[trigger] m.defense_table[k].rank == r),
                ),
            decreases m.defense_table.len() - j,
        {
            let c = self.game_state.defense_table[j];
            ranks.insert(c.rank);
            proof {
                assert(ranks@ =~= Set::new(
                    |r: u8|
                        (exists|k: int|
                            0 <= k < m.attack_table.len() && #[trigger] m.attack_table[k].rank
                                == r) || (exists|k: int|
                            0 <= k < j + 1 && #[trigger] m.defense_table[k].rank == r),
                )) by {
                    assert(m.defense_table[j as int].rank == c.rank);
                }
            }
            j += 1;
        }
        assert(ranks@ =~= table_ranks(m));
        ranks
    }

    /// The attacker's legal actions: any card to open, else stopping or,
    /// while fewer than six attacks are out, a card whose rank is on the
    /// table.
    fn legal_attacks(&self) -> (r: Vec<Action>)
        ensures
            self.game_state.attack_table@.len() == 0 ==> r@ == all_attacks(
                self.game_state@.attacker_hand(),
            ),
            0 < self.game_state.attack_table@.len() < 6 ==> r@ == seq![Action::StopAttack]
                + attacks_matching(self.game_state@.attacker_hand(), table_ranks(self.game_state@)),
            self.game_state.attack_table@.len() >= 6 ==> r@ == seq![Action::StopAttack],
    {
        broadcast use vstd::std_specs::hash::group_hash_axioms;

        let hand = self.attacker_hand();
        let h = &hand.0;
        let mut actions: Vec<Action> = Vec::new();
        if self.game_state.attack_table.len() == 0 {
            let mut i: usize = 0;
            while i < h.len()
                invariant
                    i <= h@.len(),
                    actions@ == all_attacks(h@.take(i as int)),
                decreases h@.len() - i,
            {
                actions.push(Action::Attack(h[i]));
                assert(actions@ =~= all_attacks(h@.take(i + 1)));
                i += 1;
            }
            assert(h@.take(h@.len() as int) =~= h@);
        } else if self.game_state.attack_table.len() >= HAND_SIZE {
            actions.push(Action::StopAttack);
            assert(actions@ =~= seq![Action::StopAttack]);
        } else {
            let ranks = self.ranks();
            actions.push(Action::StopAttack);
            let mut i: usize = 0;
            assert(h@.take(0) =~= Seq::<Card>::empty());
            while i < h.len()
                invariant
                    i <= h@.len(),
                    actions@ == seq![Action::StopAttack] + attacks_matching(
                        h@.take(i as int),
                        ranks@,
                    ),
                decreases h@.len() - i,
            {
                let c = h[i];
                assert(h@.take(i + 1).drop_last() =~= h@.take(i as int));
                if ranks.contains(&c.rank) {
                    actions.push(Action::Attack(c));
                }
                i += 1;
                assert(actions@ =~= seq![Action::StopAttack] + attacks_matching(
                    h@.take(i as int),
                    ranks@,
                ));
            }
            assert(h@.take(h@.len() as int) =~= h@);
        }
        actions
    }

    /// The defender's legal actions: taking, or a card that beats the first
    /// open attack.
    fn legal_defenses(&self) -> (r: Vec<Action>)
        requires
            self.game_state@.defense_table.len() < self.game_state@.attack_table.len(),
        ensures
            r@ == seq![Action::Take] + defenses_of(
                self.game_state@.defender_hand(),
                self.game_state@.attack_table[self.game_state@.defense_table.len() as int],
                self.game_state@.visible_card.suit,
            ),
    {
        let mut actions: Vec<Action> = Vec::new();
        actions.push(Action::Take);
        let last_attack = self.game_state.attack_table[self.game_state.defense_table.len()];
        let tsuit = self.game_state.visible_card.suit;
        let h = &self.defender_hand().0;
        let mut i: usize = 0;
        assert(h@.take(0) =~= Seq::<Card>::empty());
        while i < h.len()
            invariant
                i <= h@.len(),
                actions@ == seq![Action::Take] + defenses_of(h@.take(i as int), last_attack, tsuit),
            decreases h@.len() - i,
        {
            let card = h[i];
            assert(h@.take(i + 1).drop_last() =~= h@.take(i as int));
            let legal = if last_attack.suit == tsuit {
                card.suit == tsuit && card.rank > last_attack.rank
            } else {
                card.suit == tsuit || (card.suit == last_attack.suit && card.rank > last_attack.rank)
            };
            assert(legal == beats(card, last_attack, tsuit));
            if legal {
                actions.push(Action::Defend(card));
            }
            i += 1;
            assert(actions@ =~= seq![Action::Take] + defenses_of(h@.take(i as int), last_attack, tsuit));
        }
        assert(h@.take(h@.len() as int) =~= h@);
        actions
    }

    /// The actions the acting player may take now.
    pub fn legal_actions(&self) -> (r: ActionList)
        requires
            self.wf(),
        ensures
            r@ == legal_actions_of(self.game_state@),
    {
        let actions = if self.game_state.acting_player == self.game_state.defending_player {
            self.legal_defenses()
        } else {
            self.legal_attacks()
        };
        ActionList(actions)
    }

    /// Plays `action` for the acting player. The state before the attempt is
    /// appended to the history whether or not the action is legal; an illegal
    /// action changes nothing else and is reported as an error.
    pub fn step(&mut self, action: Action) -> (r: Result<(), &'static str>)
        requires
            old(self).wf(),
        ensures
            final(self).wf(),
            final(self).history@.len() == old(self).history@.len() + 1,
            final(self).history@.drop_last() == old(self).history@,
            final(self).history@.last()@ == old(self).game_state@,
            legal_actions_of(old(self).game_state@).contains(action) ==> r is Ok
                && final(self).game_state@ == apply_action(old(self).game_state@, action),
            !legal_actions_of(old(self).game_state@).contains(action) ==> r == Err::<
                (),
                &'static str,
            >("Illegal action") && final(self).game_state@ == old(self).game_state@,
    {
        let current_state = self.game_state.clone();
        self.history.push(current_state);
        assert(forall|i: int|
            0 <= i < old(self).history@.len() ==> self.history@[i] == old(self).history@[i]);
        let legal_actions = self.legal_actions();
        if !list_contains(&legal_actions.0, action) {
            return Err("Illegal action");
        }
        let ghost m = self.game_state@;
        proof {
            lemma_legal_action_playable(m, action);
            lemma_step_preserves_inv(m, action);
        }
        match action {
            Action::StopAttack => self.handle_stop_attack(),
            Action::Take => self.handle_take(),
            Action::Attack(card) => self.handle_attack(card),
            Action::Defend(card) => self.handle_defense(card),
        }
        Ok(())
    }

    /// The acting player picks one of the legal actions, seeing only their
    /// view of the current state and of every earlier state, and the action
    /// is played. Returns the action.
    pub fn play_turn<P1: Player, P2: Player>(&mut self, player1: &mut P1, player2: &mut P2) -> (r:
        Action)
        requires
            old(self).wf(),
            !is_over_of(old(self).game_state@),
        ensures
            final(self).wf(),
            legal_actions_of(old(self).game_state@).contains(r),
            final(self).game_state@ == apply_action(old(self).game_state@, r),
            final(self).history@.drop_last() == old(self).history@,
            final(self).history@.last()@ == old(self).game_state@,
    {
        let pta = self.game_state.acting_player;
        let actions = self.legal_actions();
        proof {
            lemma_legal_nonempty(self.game_state@);
        }
        let mut history: Vec<ObservableGameState> = Vec::new();
        let mut i: usize = 0;
        while i < self.history.len()
            invariant
                i <= self.history@.len(),
                self.wf(),
            decreases self.history@.len() - i,
        {
            assert(state_inv(self.history@[i as int]@));
            history.push(self.history[i].observe(pta));
            i += 1;
        }
        let view = self.game_state.observe(pta);
        let action = match pta {
            GamePlayer::Player1 => player1.choose_action(view, actions, history),
            GamePlayer::Player2 => player2.choose_action(view, actions, history),
        };
        let stepped = self.step(action);
        assert(stepped is Ok);
        action
    }

    /// Same as `legal_actions`.
    pub fn get_actions(&self) -> (r: ActionList)
        requires
            self.wf(),
        ensures
            r@ == legal_actions_of(self.game_state@),
    {
        self.legal_actions()
    }

    /// The winner, once the deck is empty and exactly one hand is empty.
    pub fn get_winner(&self) -> (r: Option<GamePlayer>)
        ensures
            r == winner_of(self.game_state@),
    {
        let h1 = self.game_state.hand1.0.len();
        let h2 = self.game_state.hand2.0.len();
        if self.game_state.deck.len() > 0 {
            None
        } else if h1 == 0 && h2 == 0 {
            None
        } else if h1 == 0 {
            Some(GamePlayer::Player1)
        } else if h2 == 0 {
            Some(GamePlayer::Player2)
        } else {
            None
        }
    }

    /// The rewards of player one and player two: `1` for the winner, `-1` for
    /// the loser, `0` each when there is no winner.
    pub fn get_rewards(&self) -> (r: (i8, i8))
        ensures
            r == match winner_of(self.game_state@) {
                Some(GamePlayer::Player1) => (1i8, -1i8),
                Some(GamePlayer::Player2) => (-1i8, 1i8),
                None => (0i8, 0i8),
            },
    {
        match self.get_winner() {
            Some(GamePlayer::Player1) => (1, -1),
            Some(GamePlayer::Player2) => (-1, 1),
            None => (0, 0),
        }
    }

    /// Whether the match is over: the deck is empty and a hand is empty.
    pub fn is_over(&self) -> (r: bool)
        ensures
            r == is_over_of(self.game_state@),
    {
        self.game_state.deck.len() == 0 && (self.game_state.hand1.0.len() == 0
            || self.game_state.hand2.0.len() == 0)
    }

    /// Moves both tables to the graveyard.
    fn clear_table(&mut self)
        ensures
            final(self).game_state@ == table_to_graveyard(old(self).game_state@),
            final(self).history@ == old(self).history@,
    {
        self.game_state.graveyard.append(&mut self.game_state.attack_table);
        self.game_state.graveyard.append(&mut self.game_state.defense_table);
        proof {
            let r = table_to_graveyard(old(self).game_state@);
            assert(self.game_state@.graveyard =~= r.graveyard);
            assert(self.game_state@.attack_table =~= r.attack_table);
            assert(self.game_state@.defense_table =~= r.defense_table);
        }
    }
}

} // verus!
