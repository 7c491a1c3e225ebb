use durak_rt::actions::{num_actions, Action, ActionList};
use durak_rt::cards::{Card, Suit};

fn get_all_actions() -> Vec<Action> {
    let mut actions = vec![Action::StopAttack, Action::Take];
    for suit in 0..4 {
        for rank in 0..9 {
            actions.push(Action::Attack(Card {
                suit: Suit::from_index(suit),
                rank: rank + 6,
            }));
        }
    }
    for suit in 0..4 {
        for rank in 0..9 {
            actions.push(Action::Defend(Card {
                suit: Suit::from_index(suit),
                rank: rank + 6,
            }));
        }
    }
    actions
}

#[test]
fn test_action_to_u8_and_back() {
    let actions = get_all_actions();

    for action in actions {
        let num = action.index();
        let action_back = Action::from_index(num);
        assert_eq!(action, action_back);
    }
}

#[test]
fn test_to_from_bitmaps() {
    let actions = get_all_actions();
    let action_list = ActionList(actions.clone());
    let bitmap = action_list.to_bitmap();
    let action_list_from_bitmap = ActionList::from_bitmap(bitmap);

    assert_eq!(action_list, action_list_from_bitmap);

    let actions_back = action_list_from_bitmap.0;
    assert_eq!(actions, actions_back);
}

#[test]
fn every_index_decodes_and_encodes_back() {
    for i in 0..74u8 {
        assert_eq!(Action::from_index(i).index(), i);
    }
    for i in 0..36u8 {
        assert_eq!(Card::from_index(i).index(), i);
    }
}

#[test]
fn action_indices_follow_the_layout() {
    assert_eq!(num_actions(), 74);
    assert_eq!(Action::StopAttack.index(), 0);
    assert_eq!(Action::Take.index(), 1);
    let six_spades = Card { suit: Suit::Spades, rank: 6 };
    let ace_clubs = Card { suit: Suit::Clubs, rank: 14 };
    let seven_hearts = Card { suit: Suit::Hearts, rank: 7 };
    assert_eq!(Action::Attack(six_spades).index(), 2);
    assert_eq!(Action::Attack(ace_clubs).index(), 37);
    assert_eq!(Action::Defend(six_spades).index(), 38);
    assert_eq!(Action::Defend(ace_clubs).index(), 73);
    assert_eq!(seven_hearts.index(), 10);
    assert_eq!(Card::from_index(10), seven_hearts);
    assert_eq!(Suit::Diamonds.index(), 2);
    assert_eq!(Suit::from_index(3), Suit::Clubs);
}

#[test]
fn bitmap_of_unordered_list_decodes_sorted() {
    let king_hearts = Card { suit: Suit::Hearts, rank: 13 };
    let list = ActionList(vec![Action::Defend(king_hearts), Action::Take, Action::Take]);
    let bitmap = list.to_bitmap();
    assert_eq!(bitmap.len(), 74);
    assert_eq!(bitmap.iter().filter(|b| **b).count(), 2);
    assert!(bitmap[1]);
    assert!(bitmap[38 + 16]);
    let back = ActionList::from_bitmap(bitmap);
    assert_eq!(back.0, vec![Action::Take, Action::Defend(king_hearts)]);
}

#[test]
fn empty_bitmap_decodes_to_no_actions() {
    let back = ActionList::from_bitmap(vec![false; 74]);
    assert!(back.0.is_empty());
    assert_eq!(ActionList(Vec::new()).to_bitmap(), vec![false; 74]);
}

#[test]
fn actions_are_written_out() {
    let seven_spades = Card { suit: Suit::Spades, rank: 7 };
    let ace_hearts = Card { suit: Suit::Hearts, rank: 14 };
    let ten_clubs = Card { suit: Suit::Clubs, rank: 10 };
    let list = ActionList(vec![
        Action::StopAttack,
        Action::Take,
        Action::Attack(seven_spades),
        Action::Defend(ace_hearts),
        Action::Attack(ten_clubs),
    ]);
    assert_eq!(
        list.to_strings(),
        vec![
            "StopAttack".to_string(),
            "Take".to_string(),
            "Attack(7\u{2660})".to_string(),
            "Defend(A\u{2665})".to_string(),
            "Attack(10\u{2663})".to_string(),
        ]
    );
    assert_eq!(list.to_u8s(), vec![0, 1, 3, 38 + 17, 2 + 31]);
    let queen_diamonds = Card { suit: Suit::Diamonds, rank: 12 };
    assert_eq!(queen_diamonds.label(), "Q\u{2666}");
}

#[test]
fn actions_are_read_from_their_parts() {
    let jack_clubs = Card { suit: Suit::Clubs, rank: 11 };
    assert_eq!(Action::from_parts(&"StopAttack".to_string(), None), Some(Action::StopAttack));
    assert_eq!(Action::from_parts(&"Take".to_string(), Some(jack_clubs)), Some(Action::Take));
    assert_eq!(
        Action::from_parts(&"Attack".to_string(), Some(jack_clubs)),
        Some(Action::Attack(jack_clubs))
    );
    assert_eq!(
        Action::from_parts(&"Defend".to_string(), Some(jack_clubs)),
        Some(Action::Defend(jack_clubs))
    );
    assert_eq!(Action::from_parts(&"Attack".to_string(), None), None);
    assert_eq!(Action::from_parts(&"attack".to_string(), Some(jack_clubs)), None);
    assert_eq!(Action::Defend(jack_clubs).kind_name(), "Defend");
    assert_eq!(Action::StopAttack.kind_name(), "StopAttack");
    assert_eq!(Suit::Diamonds.name(), "Diamonds");
    assert_eq!(Suit::from_name(&"Hearts".to_string()), Some(Suit::Hearts));
    assert_eq!(Suit::from_name(&"Clubs".to_string()), Some(Suit::Clubs));
    assert_eq!(Suit::from_name(&"Joker".to_string()), None);
}
