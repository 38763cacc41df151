//! Cards, and the rules by which two cards may lie side by side in a run.

use vstd::prelude::*;
use crate::rank::NumericalRank;

verus! {

#[derive(Debug, PartialEq, Eq, Structural, Clone, Copy)]
pub enum Suit {
    Hearts,
    Spades,
    Clubs,
    Diamonds,
}

/// The three court cards.
#[derive(Debug, PartialEq, Eq, Structural, Clone, Copy)]
pub enum Face {
    Jack,
    Queen,
    King,
}

/// What a standard card shows.
#[derive(Debug, PartialEq, Eq, Structural, Clone, Copy)]
pub struct CardData {
    pub suit: Suit,
    pub rank: NumericalRank,
}

/// A standard card, or a joker, which stands in for any standard card.
#[derive(Debug, PartialEq, Eq, Structural, Clone, Copy)]
pub enum Card {
    Card(CardData),
    Joker,
}

/// Why two cards may not lie side by side.
#[derive(Debug, PartialEq, Eq, Structural, Clone, Copy)]
pub enum OrderError {
    Suit,
    Rank,
}

/// The way a run is walked: towards the king, or towards the ace.
#[derive(Debug, PartialEq, Eq, Structural, Clone, Copy)]
pub enum Direction {
    Increasing,
    Decreasing,
}

/// The rank that a court card has.
pub open spec fn face_value(face: Face) -> int {
    match face {
        Face::Jack => 11,
        Face::Queen => 12,
        Face::King => 13,
    }
}

/// Whether the signed difference `diff` between the rank of a card and the
/// rank of the next one is a single step in `direction`. Walking down, the
/// card is one above the next, or it is the ace and the next is the king;
/// walking up, it is one below the next, or it is the king and the next is
/// the ace.
pub open spec fn is_step(diff: int, direction: Direction) -> bool {
    match direction {
        Direction::Decreasing => diff == 1 || diff == -12,
        Direction::Increasing => diff == -1 || diff == 12,
    }
}

/// The outcome of comparing the suits of `a` and `b`. Two jokers give each
/// other no suit; one joker takes the suit of the other card.
pub open spec fn suit_result(a: Card, b: Card) -> Result<(), OrderError> {
    match (a, b) {
        (Card::Joker, Card::Joker) => Err(OrderError::Suit),
        (Card::Card(x), Card::Card(y)) => if x.suit == y.suit {
            Ok(())
        } else {
            Err(OrderError::Suit)
        },
        _ => Ok(()),
    }
}

/// The outcome of comparing the ranks of `a` and `b`, where `b` comes after
/// `a` on a walk in `direction`. Two jokers give each other no rank; one
/// joker takes the rank that the other card needs.
pub open spec fn rank_result(a: Card, b: Card, direction: Direction) -> Result<(), OrderError> {
    match (a, b) {
        (Card::Joker, Card::Joker) => Err(OrderError::Rank),
        (Card::Card(x), Card::Card(y)) => if is_step(
            x.rank.value() - y.rank.value(),
            direction,
        ) {
            Ok(())
        } else {
            Err(OrderError::Rank)
        },
        _ => Ok(()),
    }
}

/// The outcome of comparing `a` with the card `b` that comes after it on a
/// walk in `direction`: the suits are compared first, then the ranks.
pub open spec fn neighbour_result(a: Card, b: Card, direction: Direction) -> Result<
    (),
    OrderError,
> {
    match suit_result(a, b) {
        Err(e) => Err(e),
        Ok(_) => rank_result(a, b, direction),
    }
}

impl Card {
    /// Whether this is the standard card of `suit` whose rank has `value`.
    pub open spec fn is_standard(self, suit: Suit, value: int) -> bool {
        match self {
            Card::Card(data) => data.suit == suit && data.rank.value() == value,
            Card::Joker => false,
        }
    }

    /// The standard card of `suit` with the given rank, if the rank exists.
    pub fn new(suit: Suit, rank: u8) -> (card: Option<Self>)
        ensures
            card.is_some() <==> 1 <= rank <= 13,
            card matches Some(c) ==> c.is_standard(suit, rank as int),
    {
        match NumericalRank::new(rank) {
            Some(rank) => Some(Card::Card(CardData { suit, rank })),
            None => None,
        }
    }

    /// The jack, queen or king of `suit`.
    pub fn new_face(suit: Suit, face: Face) -> (card: Self)
        ensures
            card.is_standard(suit, face_value(face)),
    {
        let number: u8 = match face {
            Face::Jack => 11,
            Face::Queen => 12,
            Face::King => 13,
        };
        let rank = NumericalRank::new(number).unwrap();
        Card::Card(CardData { suit, rank })
    }

    /// The ace of `suit`.
    pub fn new_ace(suit: Suit) -> (card: Self)
        ensures
            card.is_standard(suit, 1),
    {
        Card::Card(CardData { suit, rank: NumericalRank::new(1).unwrap() })
    }

    pub fn new_joker() -> (card: Self)
        ensures
            card == Card::Joker,
    {
        Card::Joker
    }

    /// Whether `card` may come after `self` on a walk in `direction`.
    pub fn check_neighbour(&self, card: &Card, direction: &Direction) -> (outcome: Result<
        (),
        OrderError,
    >)
        ensures
            outcome == neighbour_result(*self, *card, *direction),
    {
        match self.check_suit(card) {
            Err(e) => Err(e),
            Ok(_) => self.check_rank(card, direction),
        }
    }

    /// Whether the suits of the two cards agree.
    pub fn check_suit(&self, card: &Card) -> (outcome: Result<(), OrderError>)
        ensures
            outcome == suit_result(*self, *card),
    {
        match (self, card) {
            (Card::Joker, Card::Joker) => Err(OrderError::Suit),
            (Card::Joker, _) => Ok(()),
            (_, Card::Joker) => Ok(()),
            (Card::Card(a), Card::Card(b)) => {
                if a.suit == b.suit {
                    Ok(())
                } else {
                    Err(OrderError::Suit)
                }
            },
        }
    }

    /// Whether the rank of `card` is the one that follows the rank of `self`
    /// on a walk in `direction`.
    pub fn check_rank(&self, card: &Card, direction: &Direction) -> (outcome: Result<
        (),
        OrderError,
    >)
        ensures
            outcome == rank_result(*self, *card, *direction),
    {
        match (self, card) {
            (Card::Joker, Card::Joker) => Err(OrderError::Rank),
            (Card::Joker, _) => Ok(()),
            (_, Card::Joker) => Ok(()),
            (Card::Card(a), Card::Card(b)) => {
                let high = a.rank;
                let low = b.rank;
                proof {
                    use_type_invariant(high);
                    use_type_invariant(low);
                    high.lemma_value_bounds();
                    low.lemma_value_bounds();
                }
                let diff: i8 = u8::from(high) as i8 - u8::from(low) as i8;
                let step = match direction {
                    Direction::Decreasing => diff == 1 || diff == -12,
                    Direction::Increasing => diff == -1 || diff == 12,
                };
                if step {
                    Ok(())
                } else {
                    Err(OrderError::Rank)
                }
            },
        }
    }
}

/// A joker agrees in suit with every standard card, on either side.
pub proof fn lemma_joker_takes_any_suit(a: Card)
    requires
        a != Card::Joker,
    ensures
        suit_result(Card::Joker, a) == Ok::<(), OrderError>(()),
        suit_result(a, Card::Joker) == Ok::<(), OrderError>(()),
{
}

/// A joker agrees in rank with every standard card, on either side and in
/// either direction.
pub proof fn lemma_joker_takes_any_rank(a: Card, direction: Direction)
    requires
        a != Card::Joker,
    ensures
        rank_result(Card::Joker, a, direction) == Ok::<(), OrderError>(()),
        rank_result(a, Card::Joker, direction) == Ok::<(), OrderError>(()),
{
}

/// Two jokers never lie side by side: they agree neither in suit nor in rank,
/// and as neighbours they fail on the suit.
pub proof fn lemma_two_jokers_clash(direction: Direction)
    ensures
        suit_result(Card::Joker, Card::Joker) == Err::<(), OrderError>(OrderError::Suit),
        rank_result(Card::Joker, Card::Joker, direction) == Err::<(), OrderError>(
            OrderError::Rank,
        ),
        neighbour_result(Card::Joker, Card::Joker, direction) == Err::<(), OrderError>(
            OrderError::Suit,
        ),
{
}

/// Where `a` is one rank above `b`, `b` follows `a` on the way down and `a`
/// follows `b` on the way up; with equal suits they are neighbours both ways.
pub proof fn lemma_single_step(a: CardData, b: CardData)
    requires
        a.suit == b.suit,
        a.rank.value() == b.rank.value() + 1,
    ensures
        rank_result(Card::Card(a), Card::Card(b), Direction::Decreasing) == Ok::<(), OrderError>(
            (),
        ),
        rank_result(Card::Card(b), Card::Card(a), Direction::Increasing) == Ok::<(), OrderError>(
            (),
        ),
        neighbour_result(Card::Card(a), Card::Card(b), Direction::Decreasing) == Ok::<
            (),
            OrderError,
        >(()),
        neighbour_result(Card::Card(b), Card::Card(a), Direction::Increasing) == Ok::<
            (),
            OrderError,
        >(()),
{
}

/// The cycle of ranks closes between king and ace: the ace follows the king
/// on the way up, and the king follows the ace on the way down. No other
/// order of the two is a step.
pub proof fn lemma_king_meets_ace(king: CardData, ace: CardData)
    requires
        king.suit == ace.suit,
        king.rank.value() == 13,
        ace.rank.value() == 1,
    ensures
        rank_result(Card::Card(king), Card::Card(ace), Direction::Increasing) == Ok::<
            (),
            OrderError,
        >(()),
        rank_result(Card::Card(ace), Card::Card(king), Direction::Decreasing) == Ok::<
            (),
            OrderError,
        >(()),
        neighbour_result(Card::Card(king), Card::Card(ace), Direction::Increasing) == Ok::<
            (),
            OrderError,
        >(()),
        neighbour_result(Card::Card(ace), Card::Card(king), Direction::Decreasing) == Ok::<
            (),
            OrderError,
        >(()),
        rank_result(Card::Card(ace), Card::Card(king), Direction::Increasing) == Err::<
            (),
            OrderError,
        >(OrderError::Rank),
        rank_result(Card::Card(king), Card::Card(ace), Direction::Decreasing) == Err::<
            (),
            OrderError,
        >(OrderError::Rank),
{
}

/// To walk up from `a` to `b` is to walk down from `b` to `a`.
pub proof fn lemma_directions_mirror(a: Card, b: Card)
    ensures
        neighbour_result(a, b, Direction::Increasing) == neighbour_result(
            b,
            a,
            Direction::Decreasing,
        ),
{
}

} // verus!
