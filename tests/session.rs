use durak_rt::actions::Action;
use durak_rt::gamestate::GamePlayer;
use durak_rt::session::GameSession;

#[test]
fn new_session_has_free_seats_and_a_fresh_match() {
    let s = GameSession::new();
    assert!(s.player1_id.is_none());
    assert!(s.player2_id.is_none());
    assert!(s.action_history.is_empty());
    assert_eq!(s.game.game_state.deck.len(), 24);
    assert_ne!(s.id, GameSession::new().id);
}

#[test]
fn seats_are_given_once() {
    let mut s = GameSession::new();
    assert!(s.assign_player(GamePlayer::Player1, "alice".to_string()));
    assert!(!s.assign_player(GamePlayer::Player1, "bob".to_string()));
    assert_eq!(s.get_player_id(GamePlayer::Player1), Some("alice".to_string()));
    assert_eq!(s.get_player_id(GamePlayer::Player2), None);
    assert!(s.assign_player(GamePlayer::Player2, "bob".to_string()));
    assert_eq!(s.get_player_id(GamePlayer::Player2), Some("bob".to_string()));
}

#[test]
fn log_keeps_the_latest_hundred_moves() {
    let mut s = GameSession::new();
    for t in 0..150u64 {
        s.record_action(GamePlayer::Player1, Action::Take, t);
        assert_eq!(s.action_history.len(), (t as usize + 1).min(100));
    }
    assert_eq!(s.action_history[0].timestamp, 50);
    assert_eq!(s.action_history[99].timestamp, 149);
}
