use rand::rngs::StdRng;
use vstd::prelude::*;

use crate::card::{Card, Color, Rank};
use crate::random::shuffle_cards;
use vstd::seq_lib::lemma_multiset_commutative;

verus! {

/// `k` copies of one card.
pub open spec fn copies(k: nat, c: Card) -> Seq<Card> {
    Seq::new(k, |_i: int| c)
}

/// Two of each number from 1 up to `k` in one colour.
pub open spec fn numbered(color: Color, k: nat) -> Seq<Card>
    decreases k,
{
    if k == 0 {
        Seq::empty()
    } else {
        numbered(color, (k - 1) as nat) + copies(2, Card { rank: Rank::Number(k as u8), color })
    }
}

/// The cards that come with one chromatic colour: one 0, two of each of 1 to
/// 9, two of each action card, and the two black wild cards.
pub open spec fn color_block(color: Color) -> Seq<Card> {
    seq![Card { rank: Rank::Number(0), color }] + numbered(color, 9) + copies(
        2,
        Card { rank: Rank::DrawTwo, color },
    ) + copies(2, Card { rank: Rank::Reverse, color }) + copies(
        2,
        Card { rank: Rank::Skip, color },
    ) + seq![
        Card { rank: Rank::WildDrawFour, color: Color::Black },
        Card { rank: Rank::Wild, color: Color::Black },
    ]
}

/// A freshly built deck, in the order in which it is built.
pub open spec fn standard_deck() -> Seq<Card> {
    color_block(Color::Red) + color_block(Color::Blue) + color_block(Color::Yellow) + color_block(
        Color::Green,
    )
}

/// How many copies of a card a standard deck holds.
pub open spec fn standard_count(c: Card) -> nat {
    match c.rank {
        Rank::Number(n) => if c.color == Color::Black || n > 9 {
            0
        } else if n == 0 {
            1
        } else {
            2
        },
        Rank::DrawTwo | Rank::Reverse | Rank::Skip => if c.color == Color::Black {
            0
        } else {
            2
        },
        Rank::Wild | Rank::WildDrawFour => if c.color == Color::Black {
            4
        } else {
            0
        },
    }
}

/// An ordered pile of cards, used as a stack: cards are drawn from its end.
pub struct Deck {
    pub cards: Vec<Card>,
}

fn push_copies(cards: &mut Vec<Card>, card: Card, k: usize)
    ensures
        final(cards)@ == old(cards)@ + copies(k as nat, card),
{
    let mut i: usize = 0;
    while i < k
        invariant
            i <= k,
            cards@ == old(cards)@ + copies(i as nat, card),
        decreases k - i,
    {
        cards.push(card);
        i = i + 1;
        assert(cards@ =~= old(cards)@ + copies(i as nat, card));
    }
}

fn push_color_block(cards: &mut Vec<Card>, color: Color)
    ensures
        final(cards)@ == old(cards)@ + color_block(color),
{
    cards.push(Card { rank: Rank::Number(0), color });
    let ghost start = cards@;
    let mut num: u8 = 1;
    while num <= 9
        invariant
            1 <= num <= 10,
            cards@ == start + numbered(color, (num - 1) as nat),
        decreases 10 - num,
    {
        push_copies(cards, Card { rank: Rank::Number(num), color }, 2);
        assert(numbered(color, num as nat) == numbered(color, (num - 1) as nat) + copies(
            2,
            Card { rank: Rank::Number(num), color },
        ));
        num = num + 1;
        assert(cards@ =~= start + numbered(color, (num - 1) as nat));
    }
    push_copies(cards, Card { rank: Rank::DrawTwo, color }, 2);
    push_copies(cards, Card { rank: Rank::Reverse, color }, 2);
    push_copies(cards, Card { rank: Rank::Skip, color }, 2);
    cards.push(Card { rank: Rank::WildDrawFour, color: Color::Black });
    cards.push(Card { rank: Rank::Wild, color: Color::Black });
    assert(cards@ =~= old(cards)@ + color_block(color));
}

impl Deck {
    /// A full standard deck, shuffled.
    pub fn new(rng: &mut StdRng) -> (d: Deck)
        ensures
            d.cards@.len() == 108,
            d.cards@.to_multiset() == standard_deck().to_multiset(),
    {
        let mut deck = Deck { cards: Vec::new() };
        deck.initialize();
        deck.shuffle(rng);
        proof {
            lemma_standard_deck_len();
        }
        deck
    }

    /// Replaces the contents with a standard deck, in building order.
    pub fn initialize(&mut self)
        ensures
            final(self).cards@ == standard_deck(),
    {
        self.cards.clear();
        push_color_block(&mut self.cards, Color::Red);
        push_color_block(&mut self.cards, Color::Blue);
        push_color_block(&mut self.cards, Color::Yellow);
        push_color_block(&mut self.cards, Color::Green);
        assert(self.cards@ =~= standard_deck());
    }

    /// Reorders the cards at random.
    pub fn shuffle(&mut self, rng: &mut StdRng)
        ensures
            final(self).cards@.len() == old(self).cards@.len(),
            final(self).cards@.to_multiset() == old(self).cards@.to_multiset(),
            exists|pi: Seq<int>| is_permutation_map(old(self).cards@, final(self).cards@, pi),
    {
        shuffle_cards(&mut self.cards, rng);
        proof {
            lemma_same_cards_is_permutation(old(self).cards@, self.cards@);
        }
    }

    /// Removes the first `n` cards and returns them in order.
    pub fn deal(&mut self, n: usize) -> (r: Vec<Card>)
        requires
            n <= old(self).cards@.len(),
        ensures
            r@ == old(self).cards@.subrange(0, n as int),
            final(self).cards@ == old(self).cards@.subrange(n as int, old(self).cards@.len() as int),
    {
        let mut front = self.cards.split_off(0);
        let back = front.split_off(n);
        self.cards = back;
        front
    }

    /// Removes the card at the end, or returns `None` on an empty deck.
    pub fn draw_one(&mut self) -> (r: Option<Card>)
        ensures
            old(self).cards@.len() == 0 ==> r.is_none() && final(self).cards@ == old(self).cards@,
            old(self).cards@.len() > 0 ==> r == Some(old(self).cards@.last())
                && final(self).cards@ == old(self).cards@.drop_last(),
    {
        self.cards.pop()
    }
}

/// `pi` lists, for each position of `b`, a distinct position of `a` that holds
/// the same card.
pub open spec fn is_permutation_map(a: Seq<Card>, b: Seq<Card>, pi: Seq<int>) -> bool {
    &&& a.len() == b.len()
    &&& pi.len() == b.len()
    &&& forall|i: int| 0 <= i < b.len() ==> 0 <= #[trigger] pi[i] < a.len() && b[i] == a[pi[i]]
    &&& forall|i: int, k: int| 0 <= i < k < b.len() ==> #[trigger] pi[i] != #[trigger] pi[k]
}

proof fn permutation_witness(a: Seq<Card>, b: Seq<Card>) -> (pi: Seq<int>)
    requires
        a.to_multiset() == b.to_multiset(),
    ensures
        is_permutation_map(a, b, pi),
    decreases b.len(),
{
    broadcast use vstd::seq_lib::group_to_multiset_ensures;

    if b.len() == 0 {
        vstd::seq_lib::to_multiset_len(a);
        vstd::seq_lib::to_multiset_len(b);
        Seq::empty()
    } else {
        let last = b.last();
        let bd = b.drop_last();
        assert(b =~= bd.push(last));
        assert(b.to_multiset().count(last) > 0);
        assert(a.contains(last));
        let j = choose|j: int| 0 <= j < a.len() && a[j] == last;
        let ar = a.remove(j);
        assert(ar.to_multiset() =~= bd.to_multiset());
        let p0 = permutation_witness(ar, bd);
        let pi = Seq::new(b.len(), |i: int| if i == b.len() - 1 {
            j
        } else if p0[i] < j {
            p0[i]
        } else {
            p0[i] + 1
        });
        assert forall|i: int| 0 <= i < b.len() implies 0 <= #[trigger] pi[i] < a.len() && b[i]
            == a[pi[i]] by {
            if i < b.len() - 1 {
                assert(b[i] == bd[i]);
                assert(bd[i] == ar[p0[i]]);
            }
        }
        assert forall|i: int, k: int| 0 <= i < k < b.len() implies #[trigger] pi[i]
            != #[trigger] pi[k] by {
            if k < b.len() - 1 {
                assert(p0[i] != p0[k]);
            }
        }
        pi
    }
}

/// Two sequences with the same multiset of cards are rearrangements of each
/// other: some one-to-one map of positions carries one onto the other.
pub proof fn lemma_same_cards_is_permutation(a: Seq<Card>, b: Seq<Card>)
    requires
        a.to_multiset() == b.to_multiset(),
    ensures
        exists|pi: Seq<int>| is_permutation_map(a, b, pi),
{
    let pi = permutation_witness(a, b);
    assert(is_permutation_map(a, b, pi));
}

proof fn lemma_copies_count(k: nat, card: Card, c: Card)
    ensures
        copies(k, card).to_multiset().count(c) == if c == card {
            k
        } else {
            0
        },
    decreases k,
{
    broadcast use vstd::seq_lib::group_to_multiset_ensures;

    if k > 0 {
        lemma_copies_count((k - 1) as nat, card, c);
        assert(copies(k, card) =~= copies((k - 1) as nat, card).push(card));
    } else {
        assert(copies(k, card) =~= Seq::<Card>::empty());
    }
}

proof fn lemma_single_count(card: Card, c: Card)
    ensures
        seq![card].to_multiset().count(c) == if c == card {
            1nat
        } else {
            0
        },
{
    broadcast use vstd::seq_lib::group_to_multiset_ensures;

    assert(seq![card] =~= Seq::<Card>::empty().push(card));
}

proof fn lemma_numbered_count(color: Color, k: nat, c: Card)
    requires
        k <= 9,
    ensures
        numbered(color, k).to_multiset().count(c) == match c.rank {
            Rank::Number(n) => if c.color == color && 1 <= n <= k {
                2nat
            } else {
                0
            },
            _ => 0,
        },
    decreases k,
{
    broadcast use vstd::seq_lib::group_to_multiset_ensures;

    if k > 0 {
        let card = Card { rank: Rank::Number(k as u8), color };
        lemma_numbered_count(color, (k - 1) as nat, c);
        lemma_copies_count(2, card, c);
        lemma_multiset_commutative(numbered(color, (k - 1) as nat), copies(2, card));
    } else {
        assert(numbered(color, k) =~= Seq::<Card>::empty());
    }
}

proof fn lemma_color_block_count(color: Color, c: Card)
    requires
        color != Color::Black,
    ensures
        color_block(color).to_multiset().count(c) == if c.color == Color::Black {
            match c.rank {
                Rank::Wild | Rank::WildDrawFour => 1nat,
                _ => 0,
            }
        } else if c.color == color {
            standard_count(c)
        } else {
            0
        },
{
    let zero = Card { rank: Rank::Number(0), color };
    let d2 = Card { rank: Rank::DrawTwo, color };
    let rev = Card { rank: Rank::Reverse, color };
    let skip = Card { rank: Rank::Skip, color };
    let w4 = Card { rank: Rank::WildDrawFour, color: Color::Black };
    let w = Card { rank: Rank::Wild, color: Color::Black };
    let s1 = seq![zero];
    let s2 = s1 + numbered(color, 9);
    let s3 = s2 + copies(2, d2);
    let s4 = s3 + copies(2, rev);
    let s5 = s4 + copies(2, skip);
    let wilds = seq![w4, w];
    assert(wilds =~= seq![w4] + seq![w]);
    lemma_single_count(zero, c);
    lemma_single_count(w4, c);
    lemma_single_count(w, c);
    lemma_numbered_count(color, 9, c);
    lemma_copies_count(2, d2, c);
    lemma_copies_count(2, rev, c);
    lemma_copies_count(2, skip, c);
    lemma_multiset_commutative(s1, numbered(color, 9));
    lemma_multiset_commutative(s2, copies(2, d2));
    lemma_multiset_commutative(s3, copies(2, rev));
    lemma_multiset_commutative(s4, copies(2, skip));
    lemma_multiset_commutative(seq![w4], seq![w]);
    lemma_multiset_commutative(s5, wilds);
    assert(color_block(color) == s5 + wilds);
}

/// A freshly built deck holds 108 cards: per chromatic colour one 0, two of
/// each of 1 to 9 and two of each action card, and four of each wild card.
pub proof fn lemma_standard_deck_counts(c: Card)
    ensures
        standard_deck().len() == 108,
        standard_deck().to_multiset().count(c) == standard_count(c),
{
    lemma_standard_deck_len();
    let r = color_block(Color::Red);
    let b = color_block(Color::Blue);
    let y = color_block(Color::Yellow);
    let g = color_block(Color::Green);
    lemma_color_block_count(Color::Red, c);
    lemma_color_block_count(Color::Blue, c);
    lemma_color_block_count(Color::Yellow, c);
    lemma_color_block_count(Color::Green, c);
    lemma_multiset_commutative(r, b);
    lemma_multiset_commutative(r + b, y);
    lemma_multiset_commutative(r + b + y, g);
}

proof fn lemma_numbered_len(color: Color, k: nat)
    ensures
        numbered(color, k).len() == 2 * k,
    decreases k,
{
    if k > 0 {
        lemma_numbered_len(color, (k - 1) as nat);
    }
}

proof fn lemma_standard_deck_len()
    ensures
        standard_deck().len() == 108,
{
    lemma_numbered_len(Color::Red, 9);
    lemma_numbered_len(Color::Blue, 9);
    lemma_numbered_len(Color::Yellow, 9);
    lemma_numbered_len(Color::Green, 9);
}

} // verus!
