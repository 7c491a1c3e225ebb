//! The rules of the game as mathematics: which actions are legal in a state,
//! what each action does, when the match is over and who won.

use vstd::multiset::Multiset;
use vstd::prelude::*;

use crate::actions::Action;
use crate::cards::{
    all_cards_wf, drawn_count, lemma_ordered_deck, lemma_permutation_wf, ordered_cards, top_cards,
    Card, Suit,
};
use crate::gamestate::{GameModel, GamePlayer};

verus! {

/// Cards a hand is filled up to at a round boundary, and the size of a full
/// table: a sixth defence ends the round, and a take with six attacks out
/// ends it at once.
pub const HAND_SIZE: usize = 6;

/// Whether `d` beats the attack card `a` when `trump` is the trump suit: a
/// higher card of the same suit, or any trump against a non-trump.
pub open spec fn beats(d: Card, a: Card, trump: Suit) -> bool {
    if a.suit == trump {
        d.suit == trump && d.rank > a.rank
    } else {
        d.suit == trump || (d.suit == a.suit && d.rank > a.rank)
    }
}

/// The defences, in hand order, of the cards of `h` that beat `a`.
pub open spec fn defenses_of(h: Seq<Card>, a: Card, trump: Suit) -> Seq<Action>
    decreases h.len(),
{
    if h.len() == 0 {
        Seq::empty()
    } else {
        let rest = defenses_of(h.drop_last(), a, trump);
        if beats(h.last(), a, trump) {
            rest.push(Action::Defend(h.last()))
        } else {
            rest
        }
    }
}

/// The attacks, in hand order, of the cards of `h` whose rank is in `ranks`.
pub open spec fn attacks_matching(h: Seq<Card>, ranks: Set<u8>) -> Seq<Action>
    decreases h.len(),
{
    if h.len() == 0 {
        Seq::empty()
    } else {
        let rest = attacks_matching(h.drop_last(), ranks);
        if ranks.contains(h.last().rank) {
            rest.push(Action::Attack(h.last()))
        } else {
            rest
        }
    }
}

/// An attack with each card of `h`, in hand order.
pub open spec fn all_attacks(h: Seq<Card>) -> Seq<Action> {
    Seq::new(h.len(), |i: int| Action::Attack(h[i]))
}

/// The ranks present on either table.
pub open spec fn table_ranks(m: GameModel) -> Set<u8> {
    Set::new(
        |r: u8|
            (exists|i: int| 0 <= i < m.attack_table.len() && #[trigger] m.attack_table[i].rank == r)
                || (exists|i: int|
                0 <= i < m.defense_table.len() && #[trigger] m.defense_table[i].rank == r),
    )
}

/// The legal actions of the acting player, in the order the engine lists
/// them. The defender may take or beat the first unanswered attack; the
/// attacker opens with any card, or stops or, while fewer than six attacks
/// are out, adds a card of a rank already on the table.
pub open spec fn legal_actions_of(m: GameModel) -> Seq<Action> {
    if m.acting_player == m.defending_player {
        seq![Action::Take] + defenses_of(
            m.defender_hand(),
            m.attack_table[m.defense_table.len() as int],
            m.visible_card.suit,
        )
    } else if m.attack_table.len() == 0 {
        all_attacks(m.attacker_hand())
    } else if m.attack_table.len() < 6 {
        seq![Action::StopAttack] + attacks_matching(m.attacker_hand(), table_ranks(m))
    } else {
        seq![Action::StopAttack]
    }
}

/// The defences listed for `h` are exactly those with a card of `h` that
/// beats `a`.
pub proof fn lemma_defenses_of_members(h: Seq<Card>, a: Card, trump: Suit)
    ensures
        forall|x: Action|
            defenses_of(h, a, trump).contains(x) <==> (x matches Action::Defend(c) && h.contains(c)
                && beats(c, a, trump)),
    decreases h.len(),
{
    if h.len() > 0 {
        let p = h.drop_last();
        lemma_defenses_of_members(p, a, trump);
        let rest = defenses_of(p, a, trump);
        let r = defenses_of(h, a, trump);
        assert forall|x: Action|
            r.contains(x) <==> (x matches Action::Defend(c) && h.contains(c) && beats(
                c,
                a,
                trump,
            )) by {
            if r.contains(x) {
                let k = choose|k: int| 0 <= k < r.len() && r[k] == x;
                if k < rest.len() {
                    assert(rest[k] == r[k]);
                    assert(rest.contains(x));
                    let c = x->Defend_0;
                    let j = choose|j: int| 0 <= j < p.len() && p[j] == c;
                    assert(h[j] == c);
                } else {
                    assert(h[h.len() - 1] == h.last());
                }
            }
            if let Action::Defend(c) = x {
              if h.contains(c) && beats(c, a, trump) {
                let j = choose|j: int| 0 <= j < h.len() && h[j] == c;
                if j < h.len() - 1 {
                    assert(p[j] == c);
                    assert(rest.contains(x));
                    let k = choose|k: int| 0 <= k < rest.len() && rest[k] == x;
                    assert(r[k] == x);
                } else {
                    assert(r[r.len() - 1] == x);
                }
              }
            }
        }
    }
}

/// The attacks listed for `h` are exactly those with a card of `h` whose
/// rank is in `ranks`.
pub proof fn lemma_attacks_matching_members(h: Seq<Card>, ranks: Set<u8>)
    ensures
        forall|x: Action|
            attacks_matching(h, ranks).contains(x) <==> (x matches Action::Attack(c) && h.contains(c)
                && ranks.contains(c.rank)),
    decreases h.len(),
{
    if h.len() > 0 {
        let p = h.drop_last();
        lemma_attacks_matching_members(p, ranks);
        let rest = attacks_matching(p, ranks);
        let r = attacks_matching(h, ranks);
        assert forall|x: Action|
            r.contains(x) <==> (x matches Action::Attack(c) && h.contains(c) && ranks.contains(
                c.rank,
            )) by {
            if r.contains(x) {
                let k = choose|k: int| 0 <= k < r.len() && r[k] == x;
                if k < rest.len() {
                    assert(rest[k] == r[k]);
                    assert(rest.contains(x));
                    let c = x->Attack_0;
                    let j = choose|j: int| 0 <= j < p.len() && p[j] == c;
                    assert(h[j] == c);
                } else {
                    assert(h[h.len() - 1] == h.last());
                }
            }
            if let Action::Attack(c) = x {
              if h.contains(c) && ranks.contains(c.rank) {
                let j = choose|j: int| 0 <= j < h.len() && h[j] == c;
                if j < h.len() - 1 {
                    assert(p[j] == c);
                    assert(rest.contains(x));
                    let k = choose|k: int| 0 <= k < rest.len() && rest[k] == x;
                    assert(r[k] == x);
                } else {
                    assert(r[r.len() - 1] == x);
                }
              }
            }
        }
    }
}

/// Which actions are legal, stated member by member.
pub proof fn lemma_legal_members(m: GameModel, x: Action)
    requires
        m.acting_player == m.defending_player ==> m.defense_table.len() < m.attack_table.len(),
    ensures
        legal_actions_of(m).contains(x) <==> {
            if m.acting_player == m.defending_player {
                ||| x is Take
                ||| x matches Action::Defend(c) && m.defender_hand().contains(c) && beats(
                    c,
                    m.attack_table[m.defense_table.len() as int],
                    m.visible_card.suit,
                )
            } else if m.attack_table.len() == 0 {
                x matches Action::Attack(c) && m.attacker_hand().contains(c)
            } else {
                ||| x is StopAttack
                ||| x matches Action::Attack(c) && m.attack_table.len() < 6
                    && m.attacker_hand().contains(c) && table_ranks(m).contains(c.rank)
            }
        },
{
    let l = legal_actions_of(m);
    if m.acting_player == m.defending_player {
        let d = defenses_of(
            m.defender_hand(),
            m.attack_table[m.defense_table.len() as int],
            m.visible_card.suit,
        );
        lemma_defenses_of_members(
            m.defender_hand(),
            m.attack_table[m.defense_table.len() as int],
            m.visible_card.suit,
        );
        assert(l == seq![Action::Take] + d);
        if l.contains(x) {
            let k = choose|k: int| 0 <= k < l.len() && l[k] == x;
            if k > 0 {
                assert(d[k - 1] == x);
            }
        }
        if x is Take {
            assert(l[0] == x);
        } else if d.contains(x) {
            let k = choose|k: int| 0 <= k < d.len() && d[k] == x;
            assert(l[k + 1] == x);
        }
    } else if m.attack_table.len() == 0 {
        let h = m.attacker_hand();
        if l.contains(x) {
            let k = choose|k: int| 0 <= k < l.len() && l[k] == x;
            assert(h[k] == x->Attack_0);
        }
        if let Action::Attack(c) = x {
            if h.contains(c) {
                let k = choose|k: int| 0 <= k < h.len() && h[k] == c;
                assert(l[k] == x);
            }
        }
    } else if m.attack_table.len() >= 6 {
        if l.contains(x) {
            let k = choose|k: int| 0 <= k < l.len() && l[k] == x;
            assert(k == 0);
        }
        if x is StopAttack {
            assert(l[0] == x);
        }
    } else {
        let d = attacks_matching(m.attacker_hand(), table_ranks(m));
        lemma_attacks_matching_members(m.attacker_hand(), table_ranks(m));
        if l.contains(x) {
            let k = choose|k: int| 0 <= k < l.len() && l[k] == x;
            if k > 0 {
                assert(d[k - 1] == x);
            }
        }
        if x is StopAttack {
            assert(l[0] == x);
        } else if d.contains(x) {
            let k = choose|k: int| 0 <= k < d.len() && d[k] == x;
            assert(l[k + 1] == x);
        }
    }
}

/// `h` without the first occurrence of `c`.
pub open spec fn remove_card(h: Seq<Card>, c: Card) -> Seq<Card> {
    match h.index_of_first(c) {
        Some(i) => h.remove(i),
        None => h,
    }
}

/// Fills the hand of `p` up to six cards from the top of the deck, as far as
/// the deck allows.
pub open spec fn refill_one(m: GameModel, p: GamePlayer) -> GameModel {
    let h = m.hand(p);
    let need = if h.len() < 6 {
        6 - h.len()
    } else {
        0
    };
    let k = drawn_count(m.deck.len() as int, need);
    GameModel {
        deck: m.deck.take(m.deck.len() - k),
        ..m.with_hand(p, h + top_cards(m.deck, k))
    }
}

/// Fills both hands, the non-defending player first.
pub open spec fn refill(m: GameModel) -> GameModel {
    refill_one(refill_one(m, m.defending_player.spec_other()), m.defending_player)
}

/// Moves both tables into the defender's hand (defences first).
pub open spec fn table_to_defender(m: GameModel) -> GameModel {
    GameModel {
        attack_table: Seq::empty(),
        defense_table: Seq::empty(),
        ..m.with_hand(m.defending_player, m.defender_hand() + m.defense_table + m.attack_table)
    }
}

/// Moves both tables to the graveyard (attacks first).
pub open spec fn table_to_graveyard(m: GameModel) -> GameModel {
    GameModel {
        attack_table: Seq::empty(),
        defense_table: Seq::empty(),
        graveyard: m.graveyard + m.attack_table + m.defense_table,
        ..m
    }
}

pub open spec fn after_take(m: GameModel) -> GameModel {
    if m.attack_table.len() == 6 || m.undefended() >= m.defender_hand().len() {
        GameModel {
            acting_player: m.acting_player.spec_other(),
            ..refill(table_to_defender(m))
        }
    } else {
        GameModel {
            defender_has_taken: true,
            acting_player: m.acting_player.spec_other(),
            ..m
        }
    }
}

pub open spec fn after_stop_attack(m: GameModel) -> GameModel {
    if m.defender_has_taken {
        GameModel { defender_has_taken: false, ..refill(table_to_defender(m)) }
    } else if m.undefended() == 0 {
        let cleared = GameModel {
            defending_player: m.defending_player.spec_other(),
            ..table_to_graveyard(m)
        };
        GameModel {
            acting_player: m.acting_player.spec_other(),
            defender_has_taken: false,
            ..refill(cleared)
        }
    } else {
        GameModel {
            acting_player: m.acting_player.spec_other(),
            defender_has_taken: false,
            ..m
        }
    }
}

pub open spec fn after_attack(m: GameModel, c: Card) -> GameModel {
    let attacker = m.defending_player.spec_other();
    GameModel {
        attack_table: m.attack_table.push(c),
        ..m.with_hand(attacker, remove_card(m.hand(attacker), c))
    }
}

pub open spec fn after_defense(m: GameModel, c: Card) -> GameModel {
    let played = GameModel {
        defense_table: m.defense_table.push(c),
        ..m.with_hand(m.defending_player, remove_card(m.defender_hand(), c))
    };
    if played.defense_table.len() == 6 || played.defender_hand().len() == 0 {
        let refilled = refill(table_to_graveyard(played));
        GameModel {
            defender_has_taken: false,
            defending_player: refilled.defending_player.spec_other(),
            ..refilled
        }
    } else if played.undefended() == 0 {
        GameModel { acting_player: played.acting_player.spec_other(), ..played }
    } else {
        played
    }
}

/// The state after a legal action.
pub open spec fn apply_action(m: GameModel, a: Action) -> GameModel {
    match a {
        Action::StopAttack => after_stop_attack(m),
        Action::Take => after_take(m),
        Action::Attack(c) => after_attack(m, c),
        Action::Defend(c) => after_defense(m, c),
    }
}

/// `h` holds a card of suit `s`.
pub open spec fn has_suit(h: Seq<Card>, s: Suit) -> bool {
    exists|i: int| 0 <= i < h.len() && h[i].suit == s
}

/// `r` is the lowest rank among the cards of suit `s` in `h`.
pub open spec fn is_lowest_rank(h: Seq<Card>, s: Suit, r: u8) -> bool {
    &&& exists|i: int| 0 <= i < h.len() && h[i].suit == s && h[i].rank == r
    &&& forall|i: int| 0 <= i < h.len() && h[i].suit == s ==> r <= h[i].rank
}

/// The lowest rank among the cards of suit `s` in `h`.
pub open spec fn lowest_rank(h: Seq<Card>, s: Suit) -> u8 {
    choose|r: u8| is_lowest_rank(h, s, r)
}

/// Who opens the match: the holder of the lower trump; a player without a
/// trump loses the comparison; player one if neither has one.
pub open spec fn first_attacker_of(h1: Seq<Card>, h2: Seq<Card>, trump: Suit) -> GamePlayer {
    if has_suit(h1, trump) && has_suit(h2, trump) {
        if lowest_rank(h1, trump) < lowest_rank(h2, trump) {
            GamePlayer::Player1
        } else {
            GamePlayer::Player2
        }
    } else if has_suit(h2, trump) {
        GamePlayer::Player2
    } else {
        GamePlayer::Player1
    }
}

/// The state dealt from the shuffled deck `d`: six cards from the top to
/// player one, the next six to player two, the bottom card shown as trump.
pub open spec fn initial_state(d: Seq<Card>) -> GameModel {
    let hand1 = top_cards(d, 6);
    let hand2 = top_cards(d.take(30), 6);
    let deck = d.take(24);
    let first = first_attacker_of(hand1, hand2, deck[0].suit);
    GameModel {
        deck,
        attack_table: Seq::empty(),
        defense_table: Seq::empty(),
        hand1,
        hand2,
        acting_player: first,
        defending_player: first.spec_other(),
        visible_card: deck[0],
        defender_has_taken: false,
        graveyard: Seq::empty(),
    }
}

/// A dealt match satisfies the invariant, with 24 cards left in the deck.
pub proof fn lemma_initial_state(d: Seq<Card>)
    requires
        d.to_multiset() == full_deck(),
    ensures
        state_inv(initial_state(d)),
        initial_state(d).deck.len() == 24,
        initial_state(d).hand1.len() == 6,
        initial_state(d).hand2.len() == 6,
{
    let m = initial_state(d);
    lemma_ordered_deck();
    lemma_permutation_wf(d, ordered_cards(6, 4));
    let d1 = d.take(30);
    lemma_draw_keeps_cards(d, 6);
    lemma_draw_keeps_cards(d1, 6);
    assert(d1.take(24) =~= d.take(24));
    assert(cards_in_play(m) =~= full_deck()) by {
        broadcast use vstd::multiset::group_multiset_axioms;

        lemma_empty_multiset();
    }
    assert forall|i: int| 0 <= i < 6 implies #[trigger] m.hand1[i].wf() by {
        assert(m.hand1[i] == d[35 - i]);
    }
    assert forall|i: int| 0 <= i < 6 implies #[trigger] m.hand2[i].wf() by {
        assert(m.hand2[i] == d[29 - i]);
    }
    assert forall|i: int| 0 <= i < 24 implies #[trigger] m.deck[i].wf() by {
        assert(m.deck[i] == d[i]);
    }
}

/// The match is over once the deck is empty and some hand is empty.
pub open spec fn is_over_of(m: GameModel) -> bool {
    m.deck.len() == 0 && (m.hand1.len() == 0 || m.hand2.len() == 0)
}

/// The winner: the one player whose hand emptied once the deck is empty.
pub open spec fn winner_of(m: GameModel) -> Option<GamePlayer> {
    if m.deck.len() > 0 {
        None
    } else if m.hand1.len() == 0 && m.hand2.len() == 0 {
        None
    } else if m.hand1.len() == 0 {
        Some(GamePlayer::Player1)
    } else if m.hand2.len() == 0 {
        Some(GamePlayer::Player2)
    } else {
        None
    }
}

/// The cards of all piles together.
pub open spec fn cards_in_play(m: GameModel) -> Multiset<Card> {
    m.deck.to_multiset().add(m.hand1.to_multiset()).add(m.hand2.to_multiset()).add(
        m.attack_table.to_multiset(),
    ).add(m.defense_table.to_multiset()).add(m.graveyard.to_multiset())
}

/// The 36 cards of the deck, each once.
pub open spec fn full_deck() -> Multiset<Card> {
    ordered_cards(6, 4).to_multiset()
}

/// Every card in every pile, and the trump card, is a card of the deck.
pub open spec fn piles_wf(m: GameModel) -> bool {
    &&& all_cards_wf(m.deck)
    &&& all_cards_wf(m.attack_table)
    &&& all_cards_wf(m.defense_table)
    &&& all_cards_wf(m.hand1)
    &&& all_cards_wf(m.hand2)
    &&& all_cards_wf(m.graveyard)
    &&& m.visible_card.wf()
}

/// The invariant of every state of a match: the 36 cards of the deck are
/// all in play, each once, and well formed; the defence table never
/// outgrows the attack table, which holds at most six cards; the defender
/// acts only with an attack to answer; a take waiting on the attacker leaves
/// the attacker to act; and an opening attacker has a card unless the deck
/// is gone.
pub open spec fn state_inv(m: GameModel) -> bool {
    &&& cards_in_play(m) == full_deck()
    &&& m.total_cards() == 36
    &&& m.defense_table.len() <= m.attack_table.len()
    &&& m.attack_table.len() <= 6
    &&& piles_wf(m)
    &&& (m.defender_has_taken ==> m.acting_player != m.defending_player)
    &&& (m.acting_player == m.defending_player ==> m.defense_table.len() < m.attack_table.len())
    &&& (m.attack_table.len() == 0 ==> m.deck.len() == 0 || (m.hand1.len() > 0
        && m.hand2.len() > 0))
}

proof fn lemma_wf_concat(a: Seq<Card>, b: Seq<Card>)
    requires
        all_cards_wf(a),
        all_cards_wf(b),
    ensures
        all_cards_wf(a + b),
{
    assert forall|i: int| 0 <= i < (a + b).len() implies #[trigger] (a + b)[i].wf() by {
        if i < a.len() {
            assert((a + b)[i] == a[i]);
        } else {
            assert((a + b)[i] == b[i - a.len()]);
        }
    }
}

proof fn lemma_remove_card(h: Seq<Card>, c: Card)
    requires
        all_cards_wf(h),
        h.contains(c),
    ensures
        all_cards_wf(remove_card(h, c)),
        remove_card(h, c).len() == h.len() - 1,
        c.wf(),
        remove_card(h, c).to_multiset() == h.to_multiset().remove(c),
{
    h.index_of_first_ensures(c);
    let i = h.index_of_first(c)->Some_0;
    let r = h.remove(i);
    vstd::seq_lib::to_multiset_remove(h, i);
    assert forall|k: int| 0 <= k < r.len() implies #[trigger] r[k].wf() by {
        if k < i {
            assert(r[k] == h[k]);
        } else {
            assert(r[k] == h[k + 1]);
        }
    }
}

/// Drawing `k` cards from `d` splits it into the rest of the deck and the
/// drawn cards, with no card gained or lost.
proof fn lemma_draw_keeps_cards(d: Seq<Card>, k: int)
    requires
        0 <= k <= d.len(),
    ensures
        d.take(d.len() - k).to_multiset().add(top_cards(d, k).to_multiset()) == d.to_multiset(),
{
    let a = d.take(d.len() - k);
    let b = d.subrange(d.len() - k, d.len() as int);
    assert(d =~= a + b);
    vstd::seq_lib::lemma_multiset_commutative(a, b);
    assert(top_cards(d, k) =~= b.reverse());
    b.lemma_reverse_to_multiset();
}

/// Filling one hand moves cards from the deck to that hand and touches
/// nothing else; afterwards the hand has six cards or the deck is empty.
proof fn lemma_refill_one(m: GameModel, p: GamePlayer)
    requires
        piles_wf(m),
    ensures
        ({
            let r = refill_one(m, p);
            &&& piles_wf(r)
            &&& r.total_cards() == m.total_cards()
            &&& cards_in_play(r) == cards_in_play(m)
            &&& r.hand(p).len() >= 6 || r.deck.len() == 0
            &&& r.hand(p).len() >= m.hand(p).len()
            &&& r.hand(p.spec_other()) == m.hand(p.spec_other())
            &&& r.deck.len() <= m.deck.len()
            &&& r.attack_table == m.attack_table
            &&& r.defense_table == m.defense_table
            &&& r.graveyard == m.graveyard
            &&& r.acting_player == m.acting_player
            &&& r.defending_player == m.defending_player
            &&& r.visible_card == m.visible_card
            &&& r.defender_has_taken == m.defender_has_taken
        }),
{
    let h = m.hand(p);
    let need = if h.len() < 6 {
        6 - h.len()
    } else {
        0
    };
    let k = drawn_count(m.deck.len() as int, need);
    let t = top_cards(m.deck, k);
    assert forall|i: int| 0 <= i < t.len() implies #[trigger] t[i].wf() by {
        assert(t[i] == m.deck[m.deck.len() - 1 - i]);
    }
    lemma_wf_concat(h, t);
    let d = m.deck.take(m.deck.len() - k);
    assert forall|i: int| 0 <= i < d.len() implies #[trigger] d[i].wf() by {
        assert(d[i] == m.deck[i]);
    }
    broadcast use vstd::multiset::group_multiset_axioms;

    lemma_draw_keeps_cards(m.deck, k);
    vstd::seq_lib::lemma_multiset_commutative(h, t);
    assert(cards_in_play(refill_one(m, p)) =~= cards_in_play(m));
}

proof fn lemma_empty_multiset()
    ensures
        Seq::<Card>::empty().to_multiset() == Multiset::<Card>::empty(),
{
    broadcast use vstd::multiset::group_multiset_axioms, vstd::seq_lib::group_to_multiset_ensures;

    assert(Seq::<Card>::empty().to_multiset() =~= Multiset::<Card>::empty());
}

/// Moving `c` from `h` onto the table `t` keeps the cards of both together.
proof fn lemma_play_card(h: Seq<Card>, t: Seq<Card>, c: Card)
    requires
        h.contains(c),
    ensures
        remove_card(h, c).to_multiset().add(t.push(c).to_multiset()) == h.to_multiset().add(
            t.to_multiset(),
        ),
{
    broadcast use vstd::multiset::group_multiset_axioms, vstd::seq_lib::group_to_multiset_ensures;

    h.index_of_first_ensures(c);
    let i = h.index_of_first(c)->Some_0;
    vstd::seq_lib::to_multiset_remove(h, i);
    assert(h.to_multiset().count(c) > 0);
    assert(remove_card(h, c).to_multiset().add(t.push(c).to_multiset()) =~= h.to_multiset().add(
        t.to_multiset(),
    ));
}

/// Filling both hands keeps every card and leaves each hand with six cards
/// unless the deck ran out.
proof fn lemma_refill(m: GameModel)
    requires
        piles_wf(m),
    ensures
        ({
            let r = refill(m);
            &&& piles_wf(r)
            &&& r.total_cards() == m.total_cards()
            &&& cards_in_play(r) == cards_in_play(m)
            &&& r.hand1.len() >= 6 || r.deck.len() == 0
            &&& r.hand2.len() >= 6 || r.deck.len() == 0
            &&& r.attack_table == m.attack_table
            &&& r.defense_table == m.defense_table
            &&& r.graveyard == m.graveyard
            &&& r.acting_player == m.acting_player
            &&& r.defending_player == m.defending_player
            &&& r.visible_card == m.visible_card
            &&& r.defender_has_taken == m.defender_has_taken
        }),
{
    let first = m.defending_player.spec_other();
    let m1 = refill_one(m, first);
    lemma_refill_one(m, first);
    lemma_refill_one(m1, m.defending_player);
}

proof fn lemma_table_to_defender(m: GameModel)
    requires
        piles_wf(m),
    ensures
        piles_wf(table_to_defender(m)),
        table_to_defender(m).total_cards() == m.total_cards(),
        cards_in_play(table_to_defender(m)) == cards_in_play(m),
{
    broadcast use vstd::multiset::group_multiset_axioms;

    lemma_wf_concat(m.defender_hand(), m.defense_table);
    lemma_wf_concat(m.defender_hand() + m.defense_table, m.attack_table);
    vstd::seq_lib::lemma_multiset_commutative(m.defender_hand(), m.defense_table);
    vstd::seq_lib::lemma_multiset_commutative(m.defender_hand() + m.defense_table, m.attack_table);
    lemma_empty_multiset();
    assert(cards_in_play(table_to_defender(m)) =~= cards_in_play(m));
}

proof fn lemma_table_to_graveyard(m: GameModel)
    requires
        piles_wf(m),
    ensures
        piles_wf(table_to_graveyard(m)),
        table_to_graveyard(m).total_cards() == m.total_cards(),
        cards_in_play(table_to_graveyard(m)) == cards_in_play(m),
{
    broadcast use vstd::multiset::group_multiset_axioms;

    lemma_wf_concat(m.graveyard, m.attack_table);
    lemma_wf_concat(m.graveyard + m.attack_table, m.defense_table);
    vstd::seq_lib::lemma_multiset_commutative(m.graveyard, m.attack_table);
    vstd::seq_lib::lemma_multiset_commutative(m.graveyard + m.attack_table, m.defense_table);
    lemma_empty_multiset();
    assert(cards_in_play(table_to_graveyard(m)) =~= cards_in_play(m));
}

/// Every legal action leads from a state of a match to a state of a match:
/// in particular all 36 cards stay in play, none duplicated in count.
pub proof fn lemma_step_preserves_inv(m: GameModel, a: Action)
    requires
        state_inv(m),
        legal_actions_of(m).contains(a),
    ensures
        state_inv(apply_action(m, a)),
{
    lemma_legal_members(m, a);
    let r = apply_action(m, a);
    match a {
        Action::Take => {
            if m.attack_table.len() == 6 || m.undefended() >= m.defender_hand().len() {
                lemma_table_to_defender(m);
                lemma_refill(table_to_defender(m));
            }
        },
        Action::StopAttack => {
            if m.defender_has_taken {
                lemma_table_to_defender(m);
                lemma_refill(table_to_defender(m));
            } else if m.undefended() == 0 {
                let cleared = GameModel {
                    defending_player: m.defending_player.spec_other(),
                    ..table_to_graveyard(m)
                };
                lemma_table_to_graveyard(m);
                lemma_refill(cleared);
            }
        },
        Action::Attack(c) => {
            let attacker = m.defending_player.spec_other();
            lemma_remove_card(m.hand(attacker), c);
            lemma_play_card(m.hand(attacker), m.attack_table, c);
            assert(cards_in_play(r) =~= cards_in_play(m)) by {
                broadcast use vstd::multiset::group_multiset_axioms;

                let h = m.hand(attacker);
                let t = m.attack_table;
                assert forall|x: Card| #[trigger] cards_in_play(r).count(x) == cards_in_play(m).count(
                    x,
                ) by {
                    assert(remove_card(h, c).to_multiset().add(t.push(c).to_multiset()).count(x)
                        == h.to_multiset().add(t.to_multiset()).count(x));
                }
            }
            assert(all_cards_wf(m.attack_table.push(c))) by {
                assert forall|i: int| 0 <= i < m.attack_table.len() + 1 implies #[trigger] m.attack_table.push(c)[i].wf() by {
                    if i < m.attack_table.len() {
                        assert(m.attack_table.push(c)[i] == m.attack_table[i]);
                    }
                }
            }
        },
        Action::Defend(c) => {
            lemma_remove_card(m.defender_hand(), c);
            let played = GameModel {
                defense_table: m.defense_table.push(c),
                ..m.with_hand(m.defending_player, remove_card(m.defender_hand(), c))
            };
            assert(all_cards_wf(m.defense_table.push(c))) by {
                assert forall|i: int| 0 <= i < m.defense_table.len() + 1 implies #[trigger] m.defense_table.push(c)[i].wf() by {
                    if i < m.defense_table.len() {
                        assert(m.defense_table.push(c)[i] == m.defense_table[i]);
                    }
                }
            }
            lemma_play_card(m.defender_hand(), m.defense_table, c);
            assert(cards_in_play(played) =~= cards_in_play(m)) by {
                broadcast use vstd::multiset::group_multiset_axioms;

                let h = m.defender_hand();
                let t = m.defense_table;
                assert forall|x: Card| #[trigger] cards_in_play(played).count(x) == cards_in_play(
                    m,
                ).count(x) by {
                    assert(remove_card(h, c).to_multiset().add(t.push(c).to_multiset()).count(x)
                        == h.to_multiset().add(t.to_multiset()).count(x));
                }
            }
            assert(piles_wf(played));
            assert(played.total_cards() == 36);
            if played.defense_table.len() == 6 || played.defender_hand().len() == 0 {
                lemma_table_to_graveyard(played);
                lemma_refill(table_to_graveyard(played));
            }
        },
    }
}

/// The state after playing `acts` in order from `m`, or `None` if one of
/// them is not legal when its turn comes.
pub open spec fn play_all(m: GameModel, acts: Seq<Action>) -> Option<GameModel>
    decreases acts.len(),
{
    if acts.len() == 0 {
        Some(m)
    } else if legal_actions_of(m).contains(acts[0]) {
        play_all(apply_action(m, acts[0]), acts.drop_first())
    } else {
        None
    }
}

/// Card conservation: after any sequence of legal actions from a state of a
/// match, the deck, both hands, both tables and the graveyard together still
/// hold the 36 cards of the deck, each once (and the whole invariant still
/// holds).
pub proof fn lemma_cards_conserved(m: GameModel, acts: Seq<Action>)
    requires
        state_inv(m),
        play_all(m, acts) is Some,
    ensures
        state_inv(play_all(m, acts)->Some_0),
        cards_in_play(play_all(m, acts)->Some_0) == full_deck(),
        ({
            let r = play_all(m, acts)->Some_0;
            r.deck.len() + r.hand1.len() + r.hand2.len() + r.attack_table.len()
                + r.defense_table.len() + r.graveyard.len() == 36
        }),
    decreases acts.len(),
{
    if acts.len() > 0 {
        lemma_step_preserves_inv(m, acts[0]);
        lemma_cards_conserved(apply_action(m, acts[0]), acts.drop_first());
    }
}

/// The tables hold at most six attacks, and no more defences than attacks.
pub open spec fn tables_bounded(m: GameModel) -> bool {
    m.defense_table.len() <= m.attack_table.len() <= 6
}

/// Every legal action keeps the tables bounded: at most six attacks, and
/// no more defences than attacks.
pub proof fn lemma_step_keeps_tables_bounded(m: GameModel, a: Action)
    requires
        state_inv(m),
        legal_actions_of(m).contains(a),
    ensures
        tables_bounded(m),
        tables_bounded(apply_action(m, a)),
{
    lemma_step_preserves_inv(m, a);
}

/// A take when the table is full, or holds as many open attacks as the
/// defender has cards, ends the round at once: the defender keeps the
/// defending role and picks up both tables, and the attacker acts next with
/// no take pending.
pub proof fn lemma_immediate_take(m: GameModel)
    requires
        state_inv(m),
        legal_actions_of(m).contains(Action::Take),
        m.attack_table.len() == 6 || m.undefended() >= m.defender_hand().len(),
    ensures
        ({
            let r = apply_action(m, Action::Take);
            &&& r.attack_table.len() == 0
            &&& r.defense_table.len() == 0
            &&& r.defending_player == m.defending_player
            &&& r.acting_player == m.acting_player.spec_other()
            &&& !r.defender_has_taken
            &&& r.hand1.len() >= 6 || r.deck.len() == 0
            &&& r.hand2.len() >= 6 || r.deck.len() == 0
        }),
{
    lemma_legal_members(m, Action::Take);
    lemma_table_to_defender(m);
    lemma_refill(table_to_defender(m));
}

/// In every state of a match that is not over, the acting player has at
/// least one legal action.
pub proof fn lemma_legal_nonempty(m: GameModel)
    requires
        state_inv(m),
        !is_over_of(m),
    ensures
        legal_actions_of(m).len() > 0,
{
    if m.acting_player != m.defending_player && m.attack_table.len() == 0 {
        assert(m.hand1.len() > 0 && m.hand2.len() > 0);
        assert(m.attacker_hand().len() > 0);
    }
}

/// At the start of a match the attacker may open with any card of their
/// hand, and cannot stop an attack that has not begun.
pub proof fn lemma_opening_moves(d: Seq<Card>)
    requires
        d.to_multiset() == full_deck(),
    ensures
        legal_actions_of(initial_state(d)) == all_attacks(initial_state(d).attacker_hand()),
        !legal_actions_of(initial_state(d)).contains(Action::StopAttack),
{
    lemma_initial_state(d);
    let l = legal_actions_of(initial_state(d));
    if l.contains(Action::StopAttack) {
        let k = choose|k: int| 0 <= k < l.len() && l[k] == Action::StopAttack;
        assert(l[k] is Attack);
    }
}

/// When the sixth attack is beaten, the round ends: both tables go to the
/// graveyard, the hands are filled to six as far as the deck allows, and the
/// defender becomes the attacker.
pub proof fn lemma_sixth_defense_ends_round(m: GameModel, c: Card)
    requires
        state_inv(m),
        m.acting_player == m.defending_player,
        m.attack_table.len() == 6,
        m.defense_table.len() == 5,
        legal_actions_of(m).contains(Action::Defend(c)),
    ensures
        ({
            let r = apply_action(m, Action::Defend(c));
            &&& r.attack_table.len() == 0
            &&& r.defense_table.len() == 0
            &&& r.graveyard == m.graveyard + m.attack_table + m.defense_table.push(c)
            &&& r.hand1.len() >= 6 || r.deck.len() == 0
            &&& r.hand2.len() >= 6 || r.deck.len() == 0
            &&& r.defending_player == m.defending_player.spec_other()
            &&& r.acting_player == m.acting_player
            &&& !r.defender_has_taken
        }),
{
    lemma_legal_members(m, Action::Defend(c));
    lemma_remove_card(m.defender_hand(), c);
    let played = GameModel {
        defense_table: m.defense_table.push(c),
        ..m.with_hand(m.defending_player, remove_card(m.defender_hand(), c))
    };
    lemma_wf_concat(m.defense_table, seq![c]);
    assert(m.defense_table.push(c) =~= m.defense_table + seq![c]);
    assert(piles_wf(played));
    lemma_table_to_graveyard(played);
    lemma_refill(table_to_graveyard(played));
}

} // verus!
