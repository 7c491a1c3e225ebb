//! The closed set of moves and its dense integer encoding.

use vstd::prelude::*;
use vstd::string::StringExecFns;

use crate::cards::{card_label, card_of_index, Card, NUM_CARDS};

verus! {

/// Number of distinct actions: stop-attack, take, 36 attacks, 36 defences.
pub const NUM_ACTIONS: u8 = 74;

/// A move.
#[derive(Clone, Copy, PartialEq, Eq, Structural, Debug)]
pub enum Action {
    StopAttack,
    Take,
    Attack(Card),
    Defend(Card),
}

/// The action at position `i` (`0..74`) of the dense encoding.
pub open spec fn action_of_index(i: int) -> Action {
    if i == 0 {
        Action::StopAttack
    } else if i == 1 {
        Action::Take
    } else if i < 38 {
        Action::Attack(card_of_index(i - 2))
    } else {
        Action::Defend(card_of_index(i - 38))
    }
}

impl Action {
    /// Every card that the action carries is a card of the deck.
    pub open spec fn wf(self) -> bool {
        match self {
            Action::Attack(c) => c.wf(),
            Action::Defend(c) => c.wf(),
            _ => true,
        }
    }

    /// `0` for stop-attack, `1` for take, `2 + card` for an attack and
    /// `38 + card` for a defence.
    pub open spec fn spec_index(self) -> int {
        match self {
            Action::StopAttack => 0,
            Action::Take => 1,
            Action::Attack(c) => 2 + c.spec_index(),
            Action::Defend(c) => 38 + c.spec_index(),
        }
    }

    pub fn index(self) -> (r: u8)
        requires
            self.wf(),
        ensures
            r as int == self.spec_index(),
            r < NUM_ACTIONS,
    {
        match self {
            Action::StopAttack => 0,
            Action::Take => 1,
            Action::Attack(c) => 2 + c.index(),
            Action::Defend(c) => 38 + c.index(),
        }
    }

    pub fn from_index(i: u8) -> (r: Action)
        requires
            i < NUM_ACTIONS,
        ensures
            r == action_of_index(i as int),
            r.wf(),
            r.spec_index() == i,
    {
        if i == 0 {
            Action::StopAttack
        } else if i == 1 {
            Action::Take
        } else if i < 38 {
            Action::Attack(Card::from_index(i - 2))
        } else {
            Action::Defend(Card::from_index(i - 38))
        }
    }
}

/// How an action is written: `StopAttack`, `Take`, or `Attack(..)` and
/// `Defend(..)` around the card's label.
pub open spec fn action_label(a: Action) -> Seq<char> {
    match a {
        Action::StopAttack => "StopAttack"@,
        Action::Take => "Take"@,
        Action::Attack(c) => "Attack("@ + card_label(c) + ")"@,
        Action::Defend(c) => "Defend("@ + card_label(c) + ")"@,
    }
}

impl Action {
    /// The action written out.
    pub fn label(&self) -> (r: String)
        requires
            self.wf(),
        ensures
            r@ == action_label(*self),
    {
        match self {
            Action::StopAttack => String::from_str("StopAttack"),
            Action::Take => String::from_str("Take"),
            Action::Attack(c) => {
                let mut r = String::from_str("Attack(");
                r.append(c.label().as_str());
                r.append(")");
                r
            },
            Action::Defend(c) => {
                let mut r = String::from_str("Defend(");
                r.append(c.label().as_str());
                r.append(")");
                r
            },
        }
    }
}

/// The name of an action's kind.
pub open spec fn kind_name(a: Action) -> Seq<char> {
    match a {
        Action::StopAttack => "StopAttack"@,
        Action::Take => "Take"@,
        Action::Attack(_) => "Attack"@,
        Action::Defend(_) => "Defend"@,
    }
}

/// The action named by `kind` (as `kind_name` writes it), carrying `card`
/// where the kind takes a card.
pub open spec fn action_of_parts(kind: Seq<char>, card: Option<Card>) -> Option<Action> {
    if kind == "StopAttack"@ {
        Some(Action::StopAttack)
    } else if kind == "Take"@ {
        Some(Action::Take)
    } else if kind == "Attack"@ {
        match card {
            Some(c) => Some(Action::Attack(c)),
            None => None,
        }
    } else if kind == "Defend"@ {
        match card {
            Some(c) => Some(Action::Defend(c)),
            None => None,
        }
    } else {
        None
    }
}

impl Action {
    /// The name of the action's kind: `StopAttack`, `Take`, `Attack` or
    /// `Defend`.
    pub fn kind_name(&self) -> (r: String)
        ensures
            r@ == kind_name(*self),
    {
        match self {
            Action::StopAttack => String::from_str("StopAttack"),
            Action::Take => String::from_str("Take"),
            Action::Attack(_) => String::from_str("Attack"),
            Action::Defend(_) => String::from_str("Defend"),
        }
    }

    /// The action of the given kind, with `card` for an attack or a defence;
    /// `None` for an unknown kind or a missing card.
    pub fn from_parts(kind: &String, card: Option<Card>) -> (r: Option<Action>)
        ensures
            r == action_of_parts(kind@, card),
    {
        if *kind == String::from_str("StopAttack") {
            Some(Action::StopAttack)
        } else if *kind == String::from_str("Take") {
            Some(Action::Take)
        } else if *kind == String::from_str("Attack") {
            match card {
                Some(c) => Some(Action::Attack(c)),
                None => None,
            }
        } else if *kind == String::from_str("Defend") {
            match card {
                Some(c) => Some(Action::Defend(c)),
                None => None,
            }
        } else {
            None
        }
    }
}

/// Width of the action encoding.
pub fn num_actions() -> (r: u8)
    ensures
        r == NUM_ACTIONS,
{
    1 + 1 + NUM_CARDS + NUM_CARDS
}

/// The encoding of actions is a bijection between the well-formed actions
/// and `0..74`: decoding an encoded action gives it back, and encoding a
/// decoded index gives the index back.
pub proof fn lemma_action_index_bijective(a: Action, i: int)
    requires
        a.wf(),
        0 <= i < 74,
    ensures
        0 <= a.spec_index() < 74,
        action_of_index(a.spec_index()) == a,
        action_of_index(i).wf(),
        action_of_index(i).spec_index() == i,
{
}

/// Every action of the sequence is well formed.
pub open spec fn all_wf(l: Seq<Action>) -> bool {
    forall|j: int| 0 <= j < l.len() ==> #[trigger] l[j].wf()
}

/// The 74-wide bitmap of a sequence of actions: position `i` is set iff some
/// action of the sequence encodes to `i`.
pub open spec fn bitmap_of(l: Seq<Action>) -> Seq<bool> {
    Seq::new(74, |i: int| exists|j: int| 0 <= j < l.len() && #[trigger] l[j].spec_index() == i)
}

/// The actions whose positions are set in `b`, in increasing order.
pub open spec fn actions_of_bitmap(b: Seq<bool>) -> Seq<Action>
    decreases b.len(),
{
    if b.len() == 0 {
        Seq::empty()
    } else {
        let rest = actions_of_bitmap(b.drop_last());
        if b.last() {
            rest.push(action_of_index(b.len() - 1))
        } else {
            rest
        }
    }
}

/// A sequence of actions, as handed to a player or to an agent.
#[derive(Clone, PartialEq, Eq, Debug)]
pub struct ActionList(pub Vec<Action>);

impl View for ActionList {
    type V = Seq<Action>;

    open spec fn view(&self) -> Seq<Action> {
        self.0@
    }
}

impl ActionList {
    /// Each action written out, in the same order.
    pub fn to_strings(&self) -> (r: Vec<String>)
        requires
            all_wf(self.0@),
        ensures
            r@.len() == self.0@.len(),
            forall|j: int| 0 <= j < r@.len() ==> #[trigger] r@[j]@ == action_label(self.0@[j]),
    {
        let mut r: Vec<String> = Vec::new();
        let mut j: usize = 0;
        while j < self.0.len()
            invariant
                j <= self.0@.len(),
                all_wf(self.0@),
                r@.len() == j,
                forall|k: int| 0 <= k < j ==> #[trigger] r@[k]@ == action_label(self.0@[k]),
            decreases self.0@.len() - j,
        {
            r.push(self.0[j].label());
            j += 1;
        }
        r
    }

    /// The index of each action, in the same order.
    pub fn to_u8s(&self) -> (r: Vec<u8>)
        requires
            all_wf(self.0@),
        ensures
            r@.len() == self.0@.len(),
            forall|j: int| 0 <= j < r@.len() ==> r@[j] as int == #[trigger] self.0@[j].spec_index(),
    {
        let mut r: Vec<u8> = Vec::new();
        let mut j: usize = 0;
        while j < self.0.len()
            invariant
                j <= self.0@.len(),
                all_wf(self.0@),
                r@.len() == j,
                forall|k: int| 0 <= k < j ==> r@[k] as int == #[trigger] self.0@[k].spec_index(),
            decreases self.0@.len() - j,
        {
            r.push(self.0[j].index());
            j += 1;
        }
        r
    }

    /// The 74-wide bitmap of the list.
    pub fn to_bitmap(&self) -> (r: Vec<bool>)
        requires
            all_wf(self.0@),
        ensures
            r@ == bitmap_of(self.0@),
    {
        let mut bitmap: Vec<bool> = Vec::new();
        let mut i: usize = 0;
        while i < NUM_ACTIONS as usize
            invariant
                i <= 74,
                bitmap@.len() == i,
                forall|k: int| 0 <= k < i ==> !bitmap@[k],
            decreases 74 - i,
        {
            bitmap.push(false);
            i += 1;
        }
        assert(bitmap@ == bitmap_of(self.0@.take(0)));
        let mut j: usize = 0;
        while j < self.0.len()
            invariant
                j <= self.0@.len(),
                all_wf(self.0@),
                bitmap@ == bitmap_of(self.0@.take(j as int)),
            decreases self.0@.len() - j,
        {
            let a = self.0[j];
            let idx = a.index();
            bitmap.set(idx as usize, true);
            proof {
                let pre = self.0@.take(j as int);
                let post = self.0@.take(j + 1);
                assert forall|i: int| 0 <= i < 74 implies bitmap@[i] == bitmap_of(post)[i] by {
                    if i == idx as int {
                        assert(post[j as int] == a);
                    } else if bitmap_of(post)[i] {
                        let w = choose|w: int| 0 <= w < post.len() && #[trigger] post[w].spec_index() == i;
                        assert(pre[w] == post[w]);
                    } else if bitmap_of(pre)[i] {
                        let w = choose|w: int| 0 <= w < pre.len() && #[trigger] pre[w].spec_index() == i;
                        assert(pre[w] == post[w]);
                    }
                }
                assert(bitmap@ =~= bitmap_of(post));
            }
            j += 1;
        }
        assert(self.0@.take(self.0@.len() as int) =~= self.0@);
        bitmap
    }

    /// The actions whose positions are set in the bitmap, in increasing order
    /// of their index.
    pub fn from_bitmap(bitmap: Vec<bool>) -> (r: Self)
        requires
            forall|i: int| 0 <= i < bitmap@.len() && #[trigger] bitmap@[i] ==> i < 74,
        ensures
            r.0@ == actions_of_bitmap(bitmap@),
    {
        let mut actions: Vec<Action> = Vec::new();
        let mut i: usize = 0;
        assert(bitmap@.take(0) =~= Seq::<bool>::empty());
        while i < bitmap.len()
            invariant
                i <= bitmap@.len(),
                forall|k: int| 0 <= k < bitmap@.len() && #[trigger] bitmap@[k] ==> k < 74,
                actions@ == actions_of_bitmap(bitmap@.take(i as int)),
            decreases bitmap@.len() - i,
        {
            assert(bitmap@.take(i + 1).drop_last() =~= bitmap@.take(i as int));
            if bitmap[i] {
                actions.push(Action::from_index(i as u8));
            }
            i += 1;
        }
        assert(bitmap@.take(bitmap@.len() as int) =~= bitmap@);
        ActionList(actions)
    }
}

/// The actions of the sequence come in strictly increasing order of their
/// index (so each occurs once).
pub open spec fn strictly_increasing(l: Seq<Action>) -> bool {
    forall|i: int, j: int| 0 <= i < j < l.len() ==> l[i].spec_index() < l[j].spec_index()
}

/// What decoding a bitmap yields: well-formed actions in increasing order,
/// each at a set position, and one for every set position.
proof fn lemma_actions_of_bitmap_members(b: Seq<bool>)
    requires
        forall|i: int| 0 <= i < b.len() && #[trigger] b[i] ==> i < 74,
    ensures
        all_wf(actions_of_bitmap(b)),
        strictly_increasing(actions_of_bitmap(b)),
        forall|j: int|
            0 <= j < actions_of_bitmap(b).len() ==> {
                let k = #[trigger] actions_of_bitmap(b)[j].spec_index();
                0 <= k < b.len() && b[k]
            },
        forall|i: int|
            0 <= i < b.len() && #[trigger] b[i] ==> actions_of_bitmap(b).contains(action_of_index(i)),
    decreases b.len(),
{
    if b.len() > 0 {
        let p = b.drop_last();
        lemma_actions_of_bitmap_members(p);
        let rest = actions_of_bitmap(p);
        let r = actions_of_bitmap(b);
        let n = b.len() - 1;
        assert(forall|i: int| 0 <= i < p.len() ==> p[i] == b[i]);
        if b.last() {
            let a = action_of_index(n);
            assert(r == rest.push(a));
            assert(a.spec_index() == n);
            assert forall|j: int| 0 <= j < r.len() implies #[trigger] r[j].wf() by {
                if j < rest.len() {
                    assert(r[j] == rest[j]);
                }
            }
            assert forall|i: int, j: int| 0 <= i < j < r.len() implies r[i].spec_index()
                < r[j].spec_index() by {
                assert(r[i] == rest[i]);
                if j < rest.len() {
                    assert(r[j] == rest[j]);
                }
            }
            assert forall|j: int| 0 <= j < r.len() implies {
                let k = #[trigger] r[j].spec_index();
                0 <= k < b.len() && b[k]
            } by {
                if j < rest.len() {
                    assert(r[j] == rest[j]);
                }
            }
            assert forall|i: int| 0 <= i < b.len() && #[trigger] b[i] implies r.contains(
                action_of_index(i),
            ) by {
                if i < n {
                    let w = choose|w: int| 0 <= w < rest.len() && rest[w] == action_of_index(i);
                    assert(r[w] == rest[w]);
                } else {
                    assert(r[r.len() - 1] == action_of_index(i));
                }
            }
        } else {
            assert(r == rest);
            assert forall|i: int| 0 <= i < b.len() && #[trigger] b[i] implies r.contains(
                action_of_index(i),
            ) by {
                assert(p[i] == b[i]);
            }
        }
    }
}

/// Two increasing sequences of well-formed actions with the same members are
/// the same sequence.
proof fn lemma_increasing_unique(s1: Seq<Action>, s2: Seq<Action>)
    requires
        all_wf(s1),
        all_wf(s2),
        strictly_increasing(s1),
        strictly_increasing(s2),
        forall|x: Action| s1.contains(x) <==> s2.contains(x),
    ensures
        s1 == s2,
    decreases s1.len() + s2.len(),
{
    if s1.len() == 0 {
        if s2.len() > 0 {
            assert(s2.contains(s2[0]));
        }
        assert(s1 =~= s2);
    } else if s2.len() == 0 {
        assert(s1.contains(s1[0]));
    } else {
        let a = s1.last();
        let b = s2.last();
        assert(s1.contains(a));
        assert(s2.contains(b));
        let ka = choose|k: int| 0 <= k < s2.len() && s2[k] == a;
        let kb = choose|k: int| 0 <= k < s1.len() && s1[k] == b;
        assert(a.spec_index() <= b.spec_index());
        assert(b.spec_index() <= a.spec_index());
        lemma_action_index_bijective(a, 0);
        lemma_action_index_bijective(b, 0);
        assert(a == b);
        let t1 = s1.drop_last();
        let t2 = s2.drop_last();
        assert forall|x: Action| t1.contains(x) implies t2.contains(x) by {
            let k = choose|k: int| 0 <= k < t1.len() && t1[k] == x;
            assert(s1[k] == x);
            assert(s1.contains(x));
            let m = choose|m: int| 0 <= m < s2.len() && s2[m] == x;
            if m == s2.len() - 1 {
                assert(s1[k].spec_index() < s1[s1.len() - 1].spec_index());
            }
            assert(t2[m] == x);
        }
        assert forall|x: Action| t2.contains(x) implies t1.contains(x) by {
            let k = choose|k: int| 0 <= k < t2.len() && t2[k] == x;
            assert(s2[k] == x);
            assert(s2.contains(x));
            let m = choose|m: int| 0 <= m < s1.len() && s1[m] == x;
            if m == s1.len() - 1 {
                assert(s2[k].spec_index() < s2[s2.len() - 1].spec_index());
            }
            assert(t1[m] == x);
        }
        lemma_increasing_unique(t1, t2);
        assert(s1 =~= t1.push(a));
        assert(s2 =~= t2.push(b));
    }
}

/// Decoding the bitmap of any list of well-formed actions gives back the
/// same set of actions; where the list is in increasing order of index (the
/// order decoding produces), it gives back the list itself.
pub proof fn lemma_bitmap_round_trip(l: Seq<Action>)
    requires
        all_wf(l),
    ensures
        actions_of_bitmap(bitmap_of(l)).to_set() == l.to_set(),
        strictly_increasing(l) ==> actions_of_bitmap(bitmap_of(l)) == l,
{
    let b = bitmap_of(l);
    let r = actions_of_bitmap(b);
    assert forall|i: int| 0 <= i < b.len() && #[trigger] b[i] implies i < 74 by {}
    lemma_actions_of_bitmap_members(b);
    assert forall|x: Action| r.contains(x) <==> l.contains(x) by {
        if r.contains(x) {
            let j = choose|j: int| 0 <= j < r.len() && r[j] == x;
            let k = r[j].spec_index();
            assert(b[k]);
            let w = choose|w: int| 0 <= w < l.len() && #[trigger] l[w].spec_index() == k;
            lemma_action_index_bijective(x, 0);
            lemma_action_index_bijective(l[w], 0);
            assert(l[w] == x);
        }
        if l.contains(x) {
            let w = choose|w: int| 0 <= w < l.len() && l[w] == x;
            lemma_action_index_bijective(x, 0);
            let k = x.spec_index();
            assert(b[k]);
            assert(r.contains(action_of_index(k)));
        }
    }
    assert(r.to_set() =~= l.to_set());
    if strictly_increasing(l) {
        lemma_increasing_unique(r, l);
    }
}

/// Encoding the decoded actions of a 74-wide bitmap gives back the bitmap.
pub proof fn lemma_bitmap_decode_encode(b: Seq<bool>)
    requires
        b.len() == 74,
    ensures
        all_wf(actions_of_bitmap(b)),
        bitmap_of(actions_of_bitmap(b)) == b,
{
    let r = actions_of_bitmap(b);
    lemma_actions_of_bitmap_members(b);
    assert forall|i: int| 0 <= i < 74 implies bitmap_of(r)[i] == b[i] by {
        if b[i] {
            let j = choose|j: int| 0 <= j < r.len() && r[j] == action_of_index(i);
            assert(r[j].spec_index() == i);
        }
        if bitmap_of(r)[i] {
            let j = choose|j: int| 0 <= j < r.len() && #[trigger] r[j].spec_index() == i;
            assert(b[r[j].spec_index()]);
        }
    }
    assert(bitmap_of(r) =~= b);
}

} // verus!
