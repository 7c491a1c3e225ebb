//! Suits, cards, hands and the deck.

use vstd::prelude::*;
use vstd::string::StringExecFns;

use rand::rngs::StdRng;

use crate::rng::shuffle_cards;
use crate::utils::{bitmap_of_indices, indices_to_bitmap};

verus! {

/// One of the four suits. The order of the variants is the order used for
/// deterministic comparisons and for the dense encodings.
#[derive(Clone, Copy, PartialEq, Eq, Structural, PartialOrd, Ord, Hash, Debug)]
pub enum Suit {
    Spades,
    Hearts,
    Diamonds,
    Clubs,
}

/// The position of a suit in the encoding, in `0..4`.
pub open spec fn suit_index(s: Suit) -> int {
    match s {
        Suit::Spades => 0,
        Suit::Hearts => 1,
        Suit::Diamonds => 2,
        Suit::Clubs => 3,
    }
}

/// The suit at position `i` (`0..4`) of the encoding.
pub open spec fn suit_of_index(i: int) -> Suit {
    if i == 0 {
        Suit::Spades
    } else if i == 1 {
        Suit::Hearts
    } else if i == 2 {
        Suit::Diamonds
    } else {
        Suit::Clubs
    }
}

impl Suit {
    pub fn index(self) -> (r: u8)
        ensures
            r as int == suit_index(self),
    {
        match self {
            Suit::Spades => 0,
            Suit::Hearts => 1,
            Suit::Diamonds => 2,
            Suit::Clubs => 3,
        }
    }

    pub fn from_index(i: u8) -> (r: Suit)
        requires
            i < 4,
        ensures
            r == suit_of_index(i as int),
            suit_index(r) == i,
    {
        match i {
            0 => Suit::Spades,
            1 => Suit::Hearts,
            2 => Suit::Diamonds,
            _ => Suit::Clubs,
        }
    }
}

/// The name of a suit.
pub open spec fn suit_name(s: Suit) -> Seq<char> {
    match s {
        Suit::Spades => "Spades"@,
        Suit::Hearts => "Hearts"@,
        Suit::Diamonds => "Diamonds"@,
        Suit::Clubs => "Clubs"@,
    }
}

impl Suit {
    /// The suit's name, `Spades` to `Clubs`.
    pub fn name(&self) -> (r: String)
        ensures
            r@ == suit_name(*self),
    {
        match self {
            Suit::Spades => String::from_str("Spades"),
            Suit::Hearts => String::from_str("Hearts"),
            Suit::Diamonds => String::from_str("Diamonds"),
            Suit::Clubs => String::from_str("Clubs"),
        }
    }

    /// The suit with the given name, if any.
    pub fn from_name(name: &String) -> (r: Option<Suit>)
        ensures
            forall|s: Suit| r == Some(s) <==> name@ == suit_name(s),
    {
        proof {
            reveal_strlit("Spades");
            reveal_strlit("Hearts");
            reveal_strlit("Diamonds");
            reveal_strlit("Clubs");
            assert("Spades"@[0] != "Hearts"@[0]);
            assert("Spades"@.len() != "Diamonds"@.len());
            assert("Spades"@.len() != "Clubs"@.len());
            assert("Hearts"@.len() != "Diamonds"@.len());
            assert("Hearts"@.len() != "Clubs"@.len());
            assert("Diamonds"@.len() != "Clubs"@.len());
        }
        if *name == String::from_str("Spades") {
            Some(Suit::Spades)
        } else if *name == String::from_str("Hearts") {
            Some(Suit::Hearts)
        } else if *name == String::from_str("Diamonds") {
            Some(Suit::Diamonds)
        } else if *name == String::from_str("Clubs") {
            Some(Suit::Clubs)
        } else {
            None
        }
    }
}

/// The lowest rank of the 36-card deck, which runs from 6 up to the ace (14).
pub const LOWEST_RANK: u8 = 6;

/// Number of distinct cards, and so the width of a card bitmap.
pub const NUM_CARDS: u8 = 36;

/// A playing card. Ranks 11 to 14 stand for jack, queen, king and ace.
#[derive(Clone, Copy, PartialEq, Eq, Structural, PartialOrd, Ord, Hash, Debug)]
pub struct Card {
    pub suit: Suit,
    pub rank: u8,
}

/// The card at position `i` (`0..36`) of the dense encoding.
pub open spec fn card_of_index(i: int) -> Card {
    Card { suit: suit_of_index(i / 9), rank: (i % 9 + 6) as u8 }
}

impl Card {
    /// A card of the 36-card deck: its rank lies in `6..=14`.
    pub open spec fn wf(self) -> bool {
        6 <= self.rank <= 14
    }

    /// The dense index `suit * 9 + rank - 6`.
    pub open spec fn spec_index(self) -> int {
        suit_index(self.suit) * 9 + self.rank - 6
    }

    pub fn index(self) -> (r: u8)
        requires
            self.wf(),
        ensures
            r as int == self.spec_index(),
            r < NUM_CARDS,
    {
        self.suit.index() * 9 + self.rank - 6
    }

    pub fn from_index(i: u8) -> (r: Card)
        requires
            i < NUM_CARDS,
        ensures
            r == card_of_index(i as int),
            r.wf(),
            r.spec_index() == i,
    {
        let suit = Suit::from_index(i / 9);
        let rank = i % 9 + 6;
        Card { suit, rank }
    }
}

/// The symbol of a suit.
pub open spec fn suit_symbol(s: Suit) -> Seq<char> {
    match s {
        Suit::Spades => "\u{2660}"@,
        Suit::Hearts => "\u{2665}"@,
        Suit::Diamonds => "\u{2666}"@,
        Suit::Clubs => "\u{2663}"@,
    }
}

/// The name of a rank: its number up to ten, then J, Q, K and A.
pub open spec fn rank_name(r: u8) -> Seq<char> {
    if r == 6 {
        "6"@
    } else if r == 7 {
        "7"@
    } else if r == 8 {
        "8"@
    } else if r == 9 {
        "9"@
    } else if r == 10 {
        "10"@
    } else if r == 11 {
        "J"@
    } else if r == 12 {
        "Q"@
    } else if r == 13 {
        "K"@
    } else {
        "A"@
    }
}

/// How a card is written: rank name, then suit symbol (`10` and the heart,
/// `A` and the spade).
pub open spec fn card_label(c: Card) -> Seq<char> {
    rank_name(c.rank) + suit_symbol(c.suit)
}

impl Card {
    /// The card written as rank name and suit symbol.
    pub fn label(&self) -> (r: String)
        requires
            self.wf(),
        ensures
            r@ == card_label(*self),
    {
        let mut r = if self.rank == 6 {
            String::from_str("6")
        } else if self.rank == 7 {
            String::from_str("7")
        } else if self.rank == 8 {
            String::from_str("8")
        } else if self.rank == 9 {
            String::from_str("9")
        } else if self.rank == 10 {
            String::from_str("10")
        } else if self.rank == 11 {
            String::from_str("J")
        } else if self.rank == 12 {
            String::from_str("Q")
        } else if self.rank == 13 {
            String::from_str("K")
        } else {
            String::from_str("A")
        };
        match self.suit {
            Suit::Spades => r.append("\u{2660}"),
            Suit::Hearts => r.append("\u{2665}"),
            Suit::Diamonds => r.append("\u{2666}"),
            Suit::Clubs => r.append("\u{2663}"),
        }
        r
    }
}

/// Every card of the deck has exactly one index, and every index in `0..36`
/// names exactly one card: the encoding round-trips in both directions.
pub proof fn lemma_card_index_bijective(c: Card, i: int)
    requires
        c.wf(),
        0 <= i < 36,
    ensures
        0 <= c.spec_index() < 36,
        card_of_index(c.spec_index()) == c,
        card_of_index(i).wf(),
        card_of_index(i).spec_index() == i,
{
}

/// Every card of the sequence is a card of the deck.
pub open spec fn all_cards_wf(s: Seq<Card>) -> bool {
    forall|i: int| 0 <= i < s.len() ==> #[trigger] s[i].wf()
}

/// A permutation of a sequence of deck cards is one too, of the same length.
pub proof fn lemma_permutation_wf(a: Seq<Card>, b: Seq<Card>)
    requires
        a.to_multiset() == b.to_multiset(),
        all_cards_wf(b),
    ensures
        all_cards_wf(a),
        a.len() == b.len(),
{
    broadcast use vstd::seq_lib::group_to_multiset_ensures;

    assert forall|i: int| 0 <= i < a.len() implies #[trigger] a[i].wf() by {
        assert(a.contains(a[i]));
        assert(a.to_multiset().count(a[i]) > 0);
        assert(b.contains(a[i]));
    }
    vstd::seq_lib::to_multiset_len(a);
    vstd::seq_lib::to_multiset_len(b);
}

/// The index of each card, in order.
pub open spec fn card_indices(s: Seq<Card>) -> Seq<usize> {
    Seq::new(s.len(), |i: int| s[i].spec_index() as usize)
}

/// The 36-wide 0/1 bitmap of the cards of `s`.
pub open spec fn card_bitmap(s: Seq<Card>) -> Seq<u8> {
    bitmap_of_indices(card_indices(s), 36)
}

/// The 36-wide bitmap of a pile of cards.
pub fn cards_to_bitmap(cards: &Vec<Card>) -> (r: Vec<u8>)
    requires
        all_cards_wf(cards@),
    ensures
        r@ == card_bitmap(cards@),
{
    let mut indices: Vec<usize> = Vec::new();
    let mut i: usize = 0;
    while i < cards.len()
        invariant
            i <= cards@.len(),
            all_cards_wf(cards@),
            indices@ == card_indices(cards@.take(i as int)),
        decreases cards@.len() - i,
    {
        indices.push(cards[i].index() as usize);
        assert(indices@ =~= card_indices(cards@.take(i + 1)));
        i += 1;
    }
    assert(cards@.take(cards@.len() as int) =~= cards@);
    assert forall|j: int| 0 <= j < indices@.len() implies #[trigger] indices@[j] < 36 by {
        assert(cards@[j].wf());
    }
    indices_to_bitmap(indices, NUM_CARDS as usize)
}

/// How many times `c` occurs in `v`.
fn count_card(v: &Vec<Card>, c: Card) -> (r: usize)
    ensures
        r == v@.to_multiset().count(c),
{
    broadcast use vstd::seq_lib::group_to_multiset_ensures, vstd::multiset::group_multiset_axioms;

    let mut r: usize = 0;
    let mut i: usize = 0;
    assert(v@.take(0) =~= Seq::<Card>::empty());
    while i < v.len()
        invariant
            i <= v@.len(),
            r <= i,
            r == v@.take(i as int).to_multiset().count(c),
        decreases v@.len() - i,
    {
        assert(v@.take(i + 1) =~= v@.take(i as int).push(v@[i as int]));
        proof {
            vstd::seq_lib::to_multiset_build(v@.take(i as int), v@[i as int]);
        }
        if v[i] == c {
            r += 1;
        }
        i += 1;
    }
    assert(v@.take(v@.len() as int) =~= v@);
    r
}

/// The cards one player holds. Order carries no meaning: two hands are equal
/// when they hold the same cards the same number of times.
#[derive(Debug)]
pub struct Hand(pub Vec<Card>);

impl View for Hand {
    type V = Seq<Card>;

    open spec fn view(&self) -> Seq<Card> {
        self.0@
    }
}

impl Clone for Hand {
    fn clone(&self) -> (r: Self)
        ensures
            r@ == self@,
    {
        let v = self.0.clone();
        assert(v@ =~= self.0@);
        Hand(v)
    }
}

impl Hand {
    /// The 36-wide bitmap of the hand.
    pub fn to_bitmap(&self) -> (r: Vec<u8>)
        requires
            all_cards_wf(self@),
        ensures
            r@ == card_bitmap(self@),
    {
        cards_to_bitmap(&self.0)
    }
}

impl PartialEq for Hand {
    fn eq(&self, other: &Hand) -> (r: bool)
        ensures
            r == (self.0@.to_multiset() == other.0@.to_multiset()),
    {
        broadcast use vstd::seq_lib::group_to_multiset_ensures;

        let mut i: usize = 0;
        while i < self.0.len()
            invariant
                i <= self.0@.len(),
                forall|k: int|
                    0 <= k < i ==> self.0@.to_multiset().count(#[trigger] self.0@[k])
                        == other.0@.to_multiset().count(self.0@[k]),
            decreases self.0@.len() - i,
        {
            if count_card(&self.0, self.0[i]) != count_card(&other.0, self.0[i]) {
                return false;
            }
            i += 1;
        }
        let mut j: usize = 0;
        while j < other.0.len()
            invariant
                j <= other.0@.len(),
                forall|k: int|
                    0 <= k < j ==> self.0@.to_multiset().count(#[trigger] other.0@[k])
                        == other.0@.to_multiset().count(other.0@[k]),
            decreases other.0@.len() - j,
        {
            if count_card(&self.0, other.0[j]) != count_card(&other.0, other.0[j]) {
                return false;
            }
            j += 1;
        }
        proof {
            assert forall|x: Card| self.0@.to_multiset().count(x) == other.0@.to_multiset().count(
                x,
            ) by {
                if self.0@.contains(x) {
                    let k = choose|k: int| 0 <= k < self.0@.len() && self.0@[k] == x;
                    assert(self.0@.to_multiset().count(self.0@[k]) == other.0@.to_multiset().count(
                        self.0@[k],
                    ));
                } else if other.0@.contains(x) {
                    let k = choose|k: int| 0 <= k < other.0@.len() && other.0@[k] == x;
                    assert(self.0@.to_multiset().count(other.0@[k])
                        == other.0@.to_multiset().count(other.0@[k]));
                }
            }
            assert(self.0@.to_multiset() =~= other.0@.to_multiset());
        }
        true
    }
}

impl vstd::std_specs::cmp::PartialEqSpecImpl for Hand {
    open spec fn obeys_eq_spec() -> bool {
        true
    }

    open spec fn eq_spec(&self, other: &Hand) -> bool {
        self.0@.to_multiset() == other.0@.to_multiset()
    }
}

/// The cards of one suit from rank `lo` up to the ace, in increasing rank.
pub open spec fn suit_run(s: Suit, lo: int) -> Seq<Card> {
    Seq::new(
        if lo < 15 {
            (15 - lo) as nat
        } else {
            0
        },
        |i: int| Card { suit: s, rank: (lo + i) as u8 },
    )
}

/// The runs of the first `k` suits, in suit order.
pub open spec fn ordered_cards(lo: int, k: int) -> Seq<Card>
    decreases k,
{
    if k <= 0 {
        Seq::empty()
    } else {
        ordered_cards(lo, k - 1) + suit_run(suit_of_index(k - 1), lo)
    }
}

/// The cards that `n` draws from the top (the end) of `d` return, the
/// topmost first.
pub open spec fn top_cards(d: Seq<Card>, n: int) -> Seq<Card> {
    Seq::new(n as nat, |i: int| d[d.len() - 1 - i])
}

/// How many cards a draw of `n` takes from a deck of `len` cards.
pub open spec fn drawn_count(len: int, n: int) -> int {
    if n < len {
        n
    } else {
        len
    }
}

/// The remaining cards, drawn from the end.
#[derive(Debug, PartialEq)]
pub struct Deck {
    cards: Vec<Card>,
}

impl View for Deck {
    type V = Seq<Card>;

    closed spec fn view(&self) -> Seq<Card> {
        self.cards@
    }
}

impl Clone for Deck {
    fn clone(&self) -> (r: Self)
        ensures
            r@ == self@,
    {
        let v = self.cards.clone();
        assert(v@ =~= self.cards@);
        Deck { cards: v }
    }
}

/// The 36-card deck in construction order lists every card once, in the
/// order of the dense index.
pub proof fn lemma_ordered_deck()
    ensures
        ordered_cards(6, 4) == Seq::new(36, |i: int| card_of_index(i)),
        ordered_cards(6, 4).len() == 36,
        all_cards_wf(ordered_cards(6, 4)),
{
    let d = ordered_cards(6, 4);
    assert(ordered_cards(6, 0) =~= Seq::<Card>::empty());
    assert(ordered_cards(6, 1) == ordered_cards(6, 0) + suit_run(suit_of_index(0), 6));
    assert(ordered_cards(6, 2) == ordered_cards(6, 1) + suit_run(suit_of_index(1), 6));
    assert(ordered_cards(6, 3) == ordered_cards(6, 2) + suit_run(suit_of_index(2), 6));
    assert(d == ordered_cards(6, 3) + suit_run(suit_of_index(3), 6));
    assert(d =~= Seq::new(36, |i: int| card_of_index(i)));
}

impl Deck {
    /// All cards of the four suits from `lowest_rank` up to the ace, suit by
    /// suit, each suit in increasing rank.
    pub fn new(lowest_rank: u8) -> (d: Deck)
        ensures
            d@ == ordered_cards(lowest_rank as int, 4),
    {
        let mut cards: Vec<Card> = Vec::new();
        let mut k: u8 = 0;
        while k < 4
            invariant
                k <= 4,
                cards@ == ordered_cards(lowest_rank as int, k as int),
            decreases 4 - k,
        {
            let suit = Suit::from_index(k);
            let ghost before = cards@;
            let mut rank: u8 = lowest_rank;
            while rank < 15
                invariant
                    lowest_rank <= rank,
                    rank <= 15 || rank == lowest_rank,
                    cards@ == before + suit_run(suit, lowest_rank as int).take(
                        rank - lowest_rank,
                    ),
                decreases 15 - rank,
            {
                cards.push(Card { suit, rank });
                assert(suit_run(suit, lowest_rank as int).take(rank + 1 - lowest_rank)
                    =~= suit_run(suit, lowest_rank as int).take(rank - lowest_rank).push(
                    Card { suit, rank },
                ));
                rank += 1;
            }
            assert(suit_run(suit, lowest_rank as int).take(rank - lowest_rank) =~= suit_run(
                suit,
                lowest_rank as int,
            ));
            k += 1;
        }
        Deck { cards }
    }

    /// The index of each card, bottom card first.
    pub fn to_indices(&self) -> (r: Vec<u8>)
        requires
            all_cards_wf(self@),
        ensures
            r@ == Seq::new(self@.len(), |i: int| self@[i].spec_index() as u8),
    {
        let mut r: Vec<u8> = Vec::new();
        let mut i: usize = 0;
        while i < self.cards.len()
            invariant
                i <= self@.len(),
                all_cards_wf(self@),
                r@ == Seq::new(i as nat, |k: int| self@[k].spec_index() as u8),
            decreases self@.len() - i,
        {
            r.push(self.cards[i].index());
            assert(r@ =~= Seq::new((i + 1) as nat, |k: int| self@[k].spec_index() as u8));
            i += 1;
        }
        r
    }

    pub fn len(&self) -> (r: usize)
        ensures
            r == self@.len(),
    {
        self.cards.len()
    }

    /// Puts the cards in a random order.
    pub fn shuffle(&mut self, rng: &mut StdRng)
        ensures
            final(self)@.to_multiset() == old(self)@.to_multiset(),
    {
        shuffle_cards(&mut self.cards, rng);
    }

    /// Takes the top card, if any.
    fn draw(&mut self) -> (r: Option<Card>)
        ensures
            old(self)@.len() == 0 ==> r is None && final(self)@ == old(self)@,
            old(self)@.len() > 0 ==> r == Some(old(self)@.last()) && final(self)@
                == old(self)@.drop_last(),
    {
        self.cards.pop()
    }

    /// Takes up to `n` cards from the top, fewer when the deck runs out; the
    /// topmost card comes first.
    pub fn draw_n(&mut self, n: usize) -> (drawn: Vec<Card>)
        ensures
            drawn@ == top_cards(old(self)@, drawn_count(old(self)@.len() as int, n as int)),
            final(self)@ == old(self)@.take(
                old(self)@.len() - drawn_count(old(self)@.len() as int, n as int),
            ),
    {
        let ghost d = self@;
        let mut drawn: Vec<Card> = Vec::new();
        let mut i: usize = 0;
        while i < n
            invariant_except_break
                i <= n,
                i <= d.len(),
                drawn@ == top_cards(d, i as int),
                self@ == d.take(d.len() - i),
            ensures
                drawn@ == top_cards(d, drawn_count(d.len() as int, n as int)),
                self@ == d.take(d.len() - drawn_count(d.len() as int, n as int)),
            decreases n - i,
        {
            match self.draw() {
                Some(card) => {
                    drawn.push(card);
                    assert(drawn@ =~= top_cards(d, i + 1));
                    assert(self@ =~= d.take(d.len() - (i + 1)));
                },
                None => {
                    break;
                },
            }
            i += 1;
        }
        drawn
    }

    /// The bottom card, which stays in the deck.
    pub fn get_first(&self) -> (r: Option<Card>)
        ensures
            self@.len() == 0 ==> r is None,
            self@.len() > 0 ==> r == Some(self@[0]),
    {
        if self.cards.len() == 0 {
            None
        } else {
            Some(self.cards[0])
        }
    }
}

} // verus!
