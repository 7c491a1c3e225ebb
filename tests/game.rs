use rand::rngs::StdRng;
use rand::SeedableRng;

use durak_rt::actions::{Action, ActionList};
use durak_rt::cards::{Card, Deck, Hand, Suit};
use durak_rt::game::{det_first_attacker, Game};
use durak_rt::gamestate::{GamePlayer, GameState};
use durak_rt::player::{Player, RandomPlayer};
use durak_rt::utils::indices_to_bitmap;

fn card(suit: Suit, rank: u8) -> Card {
    Card { suit, rank }
}

/// All 36 cards, each once.
fn all_cards() -> Vec<Card> {
    Deck::new(6).draw_n(36)
}

/// The cards of `all_cards` that are not in any of `used`.
fn rest(used: &[&[Card]]) -> Vec<Card> {
    all_cards()
        .into_iter()
        .filter(|c| !used.iter().any(|pile| pile.contains(c)))
        .collect()
}

fn empty_deck() -> Deck {
    let mut deck = Deck::new(6);
    deck.draw_n(36);
    deck
}

fn total(s: &GameState) -> usize {
    s.deck.len()
        + s.hand1.0.len()
        + s.hand2.0.len()
        + s.attack_table.len()
        + s.defense_table.len()
        + s.graveyard.len()
}

#[test]
fn ordered_deck_and_drawing() {
    let mut deck = Deck::new(6);
    assert_eq!(deck.len(), 36);
    assert_eq!(deck.get_first(), Some(card(Suit::Spades, 6)));
    let drawn = deck.draw_n(3);
    assert_eq!(
        drawn,
        vec![card(Suit::Clubs, 14), card(Suit::Clubs, 13), card(Suit::Clubs, 12)]
    );
    assert_eq!(deck.len(), 33);
    let many = deck.draw_n(40);
    assert_eq!(many.len(), 33);
    assert_eq!(deck.len(), 0);
    assert_eq!(deck.get_first(), None);
    assert!(deck.draw_n(2).is_empty());
    assert_eq!(Deck::new(12).len(), 12);
    assert_eq!(Deck::new(15).len(), 0);
}

#[test]
fn hand_equality_ignores_order() {
    let a = Hand(vec![card(Suit::Spades, 6), card(Suit::Hearts, 7), card(Suit::Spades, 6)]);
    let b = Hand(vec![card(Suit::Hearts, 7), card(Suit::Spades, 6), card(Suit::Spades, 6)]);
    let c = Hand(vec![card(Suit::Hearts, 7), card(Suit::Hearts, 7), card(Suit::Spades, 6)]);
    let d = Hand(vec![card(Suit::Hearts, 7), card(Suit::Spades, 6)]);
    assert!(a == b);
    assert!(a != c);
    assert!(a != d);
}

#[test]
fn bitmap_of_indices() {
    assert_eq!(indices_to_bitmap(vec![0, 3, 3], 5), vec![1, 0, 0, 1, 0]);
    assert_eq!(indices_to_bitmap(vec![], 3), vec![0, 0, 0]);
}

#[test]
fn first_attacker_holds_the_lower_trump() {
    let h1 = Hand(vec![card(Suit::Hearts, 9), card(Suit::Spades, 6), card(Suit::Hearts, 12)]);
    let h2 = Hand(vec![card(Suit::Hearts, 10), card(Suit::Clubs, 6)]);
    let none = Hand(vec![card(Suit::Clubs, 7)]);
    assert_eq!(det_first_attacker(&h1, &h2, Suit::Hearts), GamePlayer::Player1);
    assert_eq!(det_first_attacker(&h2, &h1, Suit::Hearts), GamePlayer::Player2);
    assert_eq!(det_first_attacker(&none, &h2, Suit::Hearts), GamePlayer::Player2);
    assert_eq!(det_first_attacker(&h1, &none, Suit::Hearts), GamePlayer::Player1);
    assert_eq!(det_first_attacker(&none, &none, Suit::Hearts), GamePlayer::Player1);
}

#[test]
fn new_match_deals_six_each_and_leaves_24() {
    for seed in 0..20 {
        let game = Game::new_seeded(seed);
        let s = &game.game_state;
        assert_eq!(s.deck.len(), 24);
        assert_eq!(s.hand1.0.len(), 6);
        assert_eq!(s.hand2.0.len(), 6);
        assert_eq!(total(s), 36);
        assert_eq!(Some(s.visible_card), s.deck.get_first());
        assert!(s.acting_player != s.defending_player);
        assert!(game.history.is_empty());
    }
    assert_eq!(Game::new().game_state.deck.len(), 24);
}

#[test]
fn new_match_attacker_may_open_with_any_card() {
    let game = Game::new_seeded(7);
    let s = &game.game_state;
    let hand = match s.acting_player {
        GamePlayer::Player1 => &s.hand1,
        GamePlayer::Player2 => &s.hand2,
    };
    let actions = game.legal_actions().0;
    let expected: Vec<Action> = hand.0.iter().map(|c| Action::Attack(*c)).collect();
    assert_eq!(actions, expected);
    assert!(!actions.contains(&Action::StopAttack));
}

/// Trump is hearts; player one attacked with the seven of spades and
/// stopped, so player two must answer it.
fn defender_to_answer_seven_of_spades() -> Game {
    let attack = vec![card(Suit::Spades, 7)];
    let hand2 = vec![
        card(Suit::Diamonds, 6),
        card(Suit::Spades, 8),
        card(Suit::Hearts, 6),
        card(Suit::Spades, 6),
        card(Suit::Diamonds, 7),
        card(Suit::Spades, 14),
    ];
    let hand1 = vec![card(Suit::Clubs, 9)];
    let graveyard = rest(&[&attack, &hand2, &hand1]);
    Game {
        history: Vec::new(),
        game_state: GameState::new(
            empty_deck(),
            attack,
            Vec::new(),
            Hand(hand1),
            Hand(hand2),
            GamePlayer::Player2,
            GamePlayer::Player2,
            card(Suit::Hearts, 10),
            false,
            graveyard,
        ),
    }
}

#[test]
fn defender_may_take_or_beat_the_open_attack() {
    let game = defender_to_answer_seven_of_spades();
    assert_eq!(total(&game.game_state), 36);
    assert_eq!(
        game.legal_actions().0,
        vec![
            Action::Take,
            Action::Defend(card(Suit::Spades, 8)),
            Action::Defend(card(Suit::Hearts, 6)),
            Action::Defend(card(Suit::Spades, 14)),
        ]
    );
}

#[test]
fn attack_then_stop_hands_the_turn_to_the_defender() {
    let hand1 = vec![card(Suit::Spades, 12), card(Suit::Clubs, 12), card(Suit::Diamonds, 9)];
    let hand2 = vec![card(Suit::Diamonds, 6), card(Suit::Spades, 13), card(Suit::Hearts, 6)];
    let mut deck = Deck::new(6);
    let drawn = deck.draw_n(30);
    let graveyard: Vec<Card> = drawn
        .into_iter()
        .filter(|c| !hand1.contains(c) && !hand2.contains(c))
        .collect();
    let mut game = Game {
        history: Vec::new(),
        game_state: GameState::new(
            deck,
            Vec::new(),
            Vec::new(),
            Hand(hand1),
            Hand(hand2),
            GamePlayer::Player1,
            GamePlayer::Player2,
            card(Suit::Hearts, 10),
            false,
            graveyard,
        ),
    };
    assert_eq!(total(&game.game_state), 36);
    assert!(game.step(Action::Attack(card(Suit::Spades, 12))).is_ok());
    assert_eq!(game.game_state.acting_player, GamePlayer::Player1);
    assert_eq!(
        game.legal_actions().0,
        vec![Action::StopAttack, Action::Attack(card(Suit::Clubs, 12))]
    );
    assert!(game.step(Action::StopAttack).is_ok());
    assert_eq!(game.game_state.acting_player, GamePlayer::Player2);
    assert_eq!(
        game.legal_actions().0,
        vec![
            Action::Take,
            Action::Defend(card(Suit::Spades, 13)),
            Action::Defend(card(Suit::Hearts, 6)),
        ]
    );
    assert!(!game.legal_actions().0.contains(&Action::Defend(card(Suit::Diamonds, 6))));
    assert_eq!(game.history.len(), 2);
}

#[test]
fn illegal_action_is_rejected_but_recorded() {
    let mut game = defender_to_answer_seven_of_spades();
    let before = game.game_state.clone();
    let r = game.step(Action::Defend(card(Suit::Diamonds, 6)));
    assert_eq!(r, Err("Illegal action"));
    assert_eq!(game.history.len(), 1);
    assert_eq!(game.game_state.hand2, before.hand2);
    assert_eq!(game.game_state.attack_table, before.attack_table);
    assert!(game.step(Action::StopAttack).is_err());
    assert_eq!(game.history.len(), 2);
}

#[test]
fn sixth_defence_clears_table_refills_and_swaps_roles() {
    let mut deck = Deck::new(6);
    let drawn = deck.draw_n(24);
    assert_eq!(deck.len(), 12);
    let attack = vec![
        card(Suit::Diamonds, 6),
        card(Suit::Diamonds, 7),
        card(Suit::Diamonds, 8),
        card(Suit::Clubs, 6),
        card(Suit::Clubs, 7),
        card(Suit::Clubs, 8),
    ];
    let defense = vec![
        card(Suit::Diamonds, 9),
        card(Suit::Diamonds, 10),
        card(Suit::Diamonds, 11),
        card(Suit::Clubs, 9),
        card(Suit::Clubs, 10),
    ];
    let hand2 = vec![card(Suit::Clubs, 11), card(Suit::Clubs, 12)];
    let hand1 = vec![card(Suit::Clubs, 13), card(Suit::Clubs, 14), card(Suit::Diamonds, 12)];
    let graveyard: Vec<Card> = drawn
        .into_iter()
        .filter(|c| {
            !attack.contains(c) && !defense.contains(c) && !hand1.contains(c) && !hand2.contains(c)
        })
        .collect();
    assert_eq!(graveyard.len(), 8);
    let mut game = Game {
        history: Vec::new(),
        game_state: GameState::new(
            deck,
            attack,
            defense,
            Hand(hand1),
            Hand(hand2),
            GamePlayer::Player2,
            GamePlayer::Player2,
            card(Suit::Spades, 6),
            false,
            graveyard,
        ),
    };
    assert_eq!(total(&game.game_state), 36);
    assert!(game.step(Action::Defend(card(Suit::Clubs, 11))).is_ok());
    let s = &game.game_state;
    assert!(s.attack_table.is_empty());
    assert!(s.defense_table.is_empty());
    assert_eq!(s.graveyard.len(), 20);
    assert_eq!(s.defending_player, GamePlayer::Player1);
    assert_eq!(s.acting_player, GamePlayer::Player2);
    assert!(!s.defender_has_taken);
    assert_eq!(s.hand1.0.len(), 6);
    assert_eq!(s.hand2.0.len(), 6);
    assert_eq!(
        &s.hand1.0[3..],
        &[card(Suit::Hearts, 8), card(Suit::Hearts, 7), card(Suit::Hearts, 6)]
    );
    assert_eq!(
        &s.hand2.0[1..],
        &[
            card(Suit::Spades, 14),
            card(Suit::Spades, 13),
            card(Suit::Spades, 12),
            card(Suit::Spades, 11),
            card(Suit::Spades, 10)
        ]
    );
    assert_eq!(s.deck.len(), 4);
    assert_eq!(total(s), 36);
}

#[test]
fn take_with_more_cards_possible_waits_for_attacker() {
    let mut game = defender_to_answer_seven_of_spades();
    assert!(game.step(Action::Take).is_ok());
    assert!(game.game_state.defender_has_taken);
    assert_eq!(game.game_state.acting_player, GamePlayer::Player1);
    assert_eq!(game.legal_actions().0, vec![Action::StopAttack]);
    assert!(game.step(Action::StopAttack).is_ok());
    let s = &game.game_state;
    assert!(!s.defender_has_taken);
    assert!(s.attack_table.is_empty());
    assert_eq!(s.hand2.0.len(), 7);
    assert_eq!(s.hand2.0[6], card(Suit::Spades, 7));
    assert_eq!(s.defending_player, GamePlayer::Player2);
    assert_eq!(s.acting_player, GamePlayer::Player1);
    assert_eq!(total(s), 36);
}

fn ended_with(hand1: Vec<Card>, hand2: Vec<Card>) -> Game {
    let graveyard = rest(&[&hand1, &hand2]);
    Game {
        history: Vec::new(),
        game_state: GameState::new(
            empty_deck(),
            Vec::new(),
            Vec::new(),
            Hand(hand1),
            Hand(hand2),
            GamePlayer::Player1,
            GamePlayer::Player2,
            card(Suit::Hearts, 10),
            false,
            graveyard,
        ),
    }
}

#[test]
fn empty_deck_and_empty_first_hand_means_player_one_won() {
    let game = ended_with(Vec::new(), vec![card(Suit::Spades, 6)]);
    assert!(game.is_over());
    assert_eq!(game.get_winner(), Some(GamePlayer::Player1));
    let (r1, r2) = game.get_rewards();
    assert_eq!((r1 as f32, r2 as f32), (1.0, -1.0));
}

#[test]
fn empty_deck_and_empty_second_hand_means_player_two_won() {
    let game = ended_with(vec![card(Suit::Spades, 6)], Vec::new());
    assert!(game.is_over());
    assert_eq!(game.get_winner(), Some(GamePlayer::Player2));
    assert_eq!(game.get_rewards(), (-1, 1));
}

#[test]
fn both_hands_empty_is_a_draw() {
    let game = ended_with(Vec::new(), Vec::new());
    assert!(game.is_over());
    assert_eq!(game.get_winner(), None);
    assert_eq!(game.get_rewards(), (0, 0));
}

#[test]
fn match_goes_on_while_the_deck_has_cards() {
    let mut deck = Deck::new(6);
    let mut drawn = deck.draw_n(35);
    let hand2 = drawn.split_off(30);
    let game = Game {
        history: Vec::new(),
        game_state: GameState::new(
            deck,
            Vec::new(),
            Vec::new(),
            Hand(Vec::new()),
            Hand(hand2),
            GamePlayer::Player2,
            GamePlayer::Player1,
            card(Suit::Spades, 6),
            false,
            drawn,
        ),
    };
    assert_eq!(total(&game.game_state), 36);
    assert!(!game.is_over());
    assert_eq!(game.get_winner(), None);
    assert_eq!(game.get_rewards(), (0, 0));
    assert!(!game.legal_actions().0.is_empty());
}

#[test]
fn observation_hides_the_opponent() {
    let game = defender_to_answer_seven_of_spades();
    let view = game.game_state.observe(GamePlayer::Player1);
    assert_eq!(view.player, GamePlayer::Player1);
    assert_eq!(view.hand.0, vec![card(Suit::Clubs, 9)]);
    assert_eq!(view.cards_in_opponent, 6);
    assert_eq!(view.num_cards_in_deck, 0);
    assert_eq!(view.attack_table, vec![card(Suit::Spades, 7)]);
    assert_eq!(view.defender, GamePlayer::Player2);
    assert_eq!(view.acting_player, GamePlayer::Player2);
    let view2 = game.game_state.observe(GamePlayer::Player2);
    assert_eq!(view2.hand.0.len(), 6);
    assert_eq!(view2.cards_in_opponent, 1);
    assert_eq!(game.game_state.num_undefended(), 1);
}

#[test]
fn random_matches_keep_every_card_and_always_offer_a_move() {
    for seed in 0..30u64 {
        let mut game = Game::new_seeded(seed);
        let mut p1 = RandomPlayer::new(Some(seed));
        let mut p2 = RandomPlayer::new(Some(seed + 1000));
        let mut steps = 0;
        while !game.is_over() && steps < 5000 {
            let pta = game.game_state.acting_player;
            let actions: ActionList = game.legal_actions();
            assert!(!actions.0.is_empty());
            let history = game.history.iter().map(|x| x.observe(pta)).collect();
            let view = game.game_state.observe(pta);
            let player: &mut RandomPlayer = match pta {
                GamePlayer::Player1 => &mut p1,
                GamePlayer::Player2 => &mut p2,
            };
            let action = player.choose_action(view, actions.clone(), history);
            assert!(actions.0.contains(&action));
            assert!(game.step(action).is_ok());
            let s = &game.game_state;
            assert_eq!(total(s), 36);
            assert!(s.defense_table.len() <= s.attack_table.len());
            assert!(s.attack_table.len() <= 6);
            steps += 1;
        }
        assert!(game.is_over());
    }
}

#[test]
fn encodings_follow_the_layout() {
    let game = defender_to_answer_seven_of_spades();
    let view = game.game_state.observe(GamePlayer::Player1);
    let v = view.encode();
    assert_eq!(v.len(), 2 + 36 * 3 + 1 + 36 + 1 + 2 + 1);
    assert_eq!(&v[0..2], &[0, 1]);
    let hand_bits = &v[2..38];
    assert_eq!(hand_bits.iter().filter(|b| **b == 1).count(), 1);
    assert_eq!(hand_bits[27 + 3], 1);
    assert_eq!(v[2 + 36 + 1], 1);
    assert_eq!(v[110], 0);
    assert_eq!(v[111 + 9 + 4], 1);
    assert_eq!(v[147], 0);
    assert_eq!(&v[148..150], &[0, 1]);
    assert_eq!(v[150], 6);

    let full = game.game_state.encode();
    assert_eq!(full.len(), 36 * 4 + 2 + 2 + 1 + 1 + 36);
    assert_eq!(full[36 * 4 + 4], 13);
    let mut deck = Deck::new(6);
    deck.draw_n(34);
    assert_eq!(deck.to_indices(), vec![0, 1]);
    let hand = Hand(vec![card(Suit::Clubs, 14), card(Suit::Spades, 6)]);
    let bits = hand.to_bitmap();
    assert_eq!(bits.len(), 36);
    assert_eq!(bits[0], 1);
    assert_eq!(bits[35], 1);
    assert_eq!(bits.iter().map(|b| *b as usize).sum::<usize>(), 2);
}

#[test]
fn shuffle_permutes_the_deck() {
    let mut rng = StdRng::seed_from_u64(3);
    let mut deck = Deck::new(6);
    deck.shuffle(&mut rng);
    assert_eq!(deck.len(), 36);
    let shuffled = deck.to_indices();
    assert_ne!(shuffled, (0..36u8).collect::<Vec<u8>>());
    let mut sorted = shuffled.clone();
    sorted.sort();
    assert_eq!(sorted, (0..36u8).collect::<Vec<u8>>());
}

#[test]
fn random_player_picks_among_the_offered_actions() {
    let game = defender_to_answer_seven_of_spades();
    let mut player = RandomPlayer::new(Some(11));
    let actions = game.legal_actions();
    let mut seen: Vec<Action> = Vec::new();
    for _ in 0..200 {
        let view = game.game_state.observe(GamePlayer::Player2);
        let a = player.choose_action(view, actions.clone(), Vec::new());
        assert!(actions.0.contains(&a));
        if !seen.contains(&a) {
            seen.push(a);
        }
    }
    assert_eq!(seen.len(), actions.0.len());
    let single = ActionList(vec![Action::Take]);
    let view = game.game_state.observe(GamePlayer::Player2);
    assert_eq!(player.choose_action(view, single, Vec::new()), Action::Take);
}

#[test]
fn seeded_matches_replay_identically() {
    let a = Game::new_seeded(42);
    let b = Game::new_seeded(42);
    assert!(a.game_state == b.game_state);
    assert_eq!(a.game_state.deck.to_indices(), b.game_state.deck.to_indices());
}

#[test]
fn no_seventh_attack_once_six_are_out() {
    let attack = vec![
        card(Suit::Spades, 6),
        card(Suit::Hearts, 6),
        card(Suit::Diamonds, 6),
        card(Suit::Spades, 7),
        card(Suit::Hearts, 7),
        card(Suit::Diamonds, 7),
    ];
    let defense = vec![
        card(Suit::Spades, 8),
        card(Suit::Hearts, 8),
        card(Suit::Diamonds, 8),
        card(Suit::Spades, 9),
        card(Suit::Hearts, 9),
    ];
    let hand1 = vec![card(Suit::Clubs, 6), card(Suit::Clubs, 7), card(Suit::Clubs, 8)];
    let hand2 = vec![card(Suit::Spades, 10)];
    let graveyard = rest(&[&attack, &defense, &hand1, &hand2]);
    let mut game = Game {
        history: Vec::new(),
        game_state: GameState::new(
            empty_deck(),
            attack,
            defense,
            Hand(hand1),
            Hand(hand2),
            GamePlayer::Player1,
            GamePlayer::Player2,
            card(Suit::Hearts, 10),
            false,
            graveyard,
        ),
    };
    assert_eq!(total(&game.game_state), 36);
    assert_eq!(game.legal_actions().0, vec![Action::StopAttack]);
    assert_eq!(
        game.step(Action::Attack(card(Suit::Clubs, 6))),
        Err("Illegal action")
    );
    assert_eq!(game.game_state.attack_table.len(), 6);
    assert!(game.step(Action::StopAttack).is_ok());
    assert_eq!(game.game_state.acting_player, GamePlayer::Player2);
}

#[test]
fn play_turn_plays_a_legal_move() {
    let mut game = Game::new_seeded(5);
    let mut p1 = RandomPlayer::new(Some(1));
    let mut p2 = RandomPlayer::new(Some(2));
    let mut turns = 0;
    while !game.is_over() && turns < 5000 {
        let before = game.legal_actions();
        let a = game.play_turn(&mut p1, &mut p2);
        assert!(before.0.contains(&a));
        assert_eq!(total(&game.game_state), 36);
        assert!(game.game_state.attack_table.len() <= 6);
        turns += 1;
        assert_eq!(game.history.len(), turns);
    }
    assert!(game.is_over());
}
