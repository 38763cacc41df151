//! Decks and hands: ordered piles of cards that are shuffled and drawn from.

use vstd::prelude::*;
use vstd::seq_lib::to_multiset_len;
use crate::card::{Card, Suit};

verus! {

/// The number of cards of one suit.
pub const SUIT_SIZE: usize = 13;

/// The number of cards of a standard deck.
pub const DECK_SIZE: usize = 52;

/// The suit of the cards in block `i` of a new deck.
pub open spec fn deck_suit(i: int) -> Suit {
    if i == 0 {
        Suit::Spades
    } else if i == 1 {
        Suit::Hearts
    } else if i == 2 {
        Suit::Diamonds
    } else {
        Suit::Clubs
    }
}

/// Whether `cards` are a standard deck in its first order: the spades, the
/// hearts, the diamonds and the clubs, each suit from ace to king.
pub open spec fn is_new_deck(cards: Seq<Card>) -> bool {
    &&& cards.len() == 52
    &&& forall|i: int|
        0 <= i < 52 ==> (#[trigger] cards[i]).is_standard(deck_suit(i / 13), i % 13 + 1)
}

/// Whether `cards` are two new decks, one after the other.
pub open spec fn is_double_deck(cards: Seq<Card>) -> bool {
    &&& cards.len() == 104
    &&& is_new_deck(cards.subrange(0, 52))
    &&& is_new_deck(cards.subrange(52, 104))
}

/// A standard deck of 52 cards, without jokers, in its first order.
pub fn new_deck() -> (deck: Vec<Card>)
    ensures
        is_new_deck(deck@),
{
    let suits: [Suit; 4] = [Suit::Spades, Suit::Hearts, Suit::Diamonds, Suit::Clubs];
    let mut deck: Vec<Card> = Vec::new();
    let mut i: usize = 0;
    while i < DECK_SIZE
        invariant
            i <= 52,
            deck@.len() == i,
            suits@.len() == 4,
            forall|k: int| 0 <= k < 4 ==> suits@[k] == deck_suit(k),
            forall|k: int|
                0 <= k < i ==> (#[trigger] deck@[k]).is_standard(deck_suit(k / 13), k % 13 + 1),
        decreases 52 - i,
    {
        let suit: Suit = suits[i / SUIT_SIZE];
        let rank: u8 = (i % SUIT_SIZE) as u8 + 1;
        let card = Card::new(suit, rank).unwrap();
        deck.push(card);
        i += 1;
    }
    deck
}

/// A pile of cards, the first of which is on top.
#[derive(Debug)]
pub struct Cards(pub Vec<Card>);

impl View for Cards {
    type V = Seq<Card>;

    open spec fn view(&self) -> Seq<Card> {
        self.0@
    }
}

/// The generator that `rand::rng` hands out. Nothing is known of what
/// is inside it.
#[verifier::external_type_specification]
#[verifier::external_body]
pub struct ExThreadRng(rand::rngs::ThreadRng);

/// `rand::rng` gives a handle to the generator of the running thread, which
/// the operating system seeds. Nothing is claimed of the handle.
pub assume_specification[ rand::rng ]() -> (generator: rand::rngs::ThreadRng)
;

/// Shuffles the cards in place by `rand::seq::SliceRandom::shuffle`. The
/// shuffle does nothing but swap elements of the slice, at places that the
/// generator picks within it, so afterwards the pile holds the cards that it
/// held before, each as often as before. Their order is left open.
#[verifier::external_body]
fn shuffle_with(cards: &mut Vec<Card>, generator: &mut rand::rngs::ThreadRng)
    ensures
        final(cards)@.to_multiset() == old(cards)@.to_multiset(),
{
    rand::seq::SliceRandom::shuffle(cards.as_mut_slice(), generator);
}

impl Cards {
    /// Two new decks in one pile, not yet shuffled.
    pub fn double_deck() -> (pile: Cards)
        ensures
            is_double_deck(pile@),
            pile@.len() == 104,
    {
        let mut first = new_deck();
        let mut second = new_deck();
        let ghost a = first@;
        let ghost b = second@;
        first.append(&mut second);
        assert(first@.subrange(0, 52) =~= a);
        assert(first@.subrange(52, 104) =~= b);
        Cards(first)
    }

    /// Puts the cards in a random order. No card is lost and none is added.
    pub fn shuffle(&mut self)
        ensures
            final(self)@.to_multiset() == old(self)@.to_multiset(),
            final(self)@.len() == old(self)@.len(),
    {
        let ghost before = self.0@;
        let mut generator = rand::rng();
        shuffle_with(&mut self.0, &mut generator);
        proof {
            to_multiset_len(before);
            to_multiset_len(self.0@);
        }
    }

    /// Takes the first `n` cards off the pile, exactly `n`, and hands them
    /// out in their order.
    pub fn draw_n(&mut self, n: usize) -> (drawn: Cards)
        requires
            n <= old(self)@.len(),
        ensures
            drawn@ == old(self)@.subrange(0, n as int),
            final(self)@ == old(self)@.subrange(n as int, old(self)@.len() as int),
    {
        let mut rest = self.0.split_off(n);
        core::mem::swap(&mut self.0, &mut rest);
        Cards(rest)
    }
}

/// A new deck is fixed card by card: two piles that are both new decks are
/// equal.
pub proof fn lemma_new_deck_is_unique(a: Seq<Card>, b: Seq<Card>)
    requires
        is_new_deck(a),
        is_new_deck(b),
    ensures
        a == b,
{
    assert forall|i: int| 0 <= i < 52 implies a[i] == b[i] by {
        assert(a[i].is_standard(deck_suit(i / 13), i % 13 + 1));
        assert(b[i].is_standard(deck_suit(i / 13), i % 13 + 1));
        match (a[i], b[i]) {
            (Card::Card(x), Card::Card(y)) => {
                x.rank.lemma_value_injective(y.rank);
            },
            _ => {},
        }
    }
    assert(a =~= b);
}

} // verus!
