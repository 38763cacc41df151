//! Melds: runs of at least three cards of one suit in rising rank, which may
//! pass from king to ace, with jokers standing in for missing cards.

use vstd::prelude::*;
use vstd::slice::slice_subrange;
use crate::card::{neighbour_result, Card, Direction, OrderError};

verus! {

/// The fewest cards that make a meld.
pub const MIN_MELD_SIZE: usize = 3;

/// Why a sequence of cards is no meld.
#[derive(Debug, PartialEq, Eq, Structural, Clone, Copy)]
pub enum MeldError {
    /// There are too few cards; the number is how many there were.
    Size(usize),
    /// Two cards that lie side by side do not belong together.
    Order(OrderError),
}

impl From<OrderError> for MeldError {
    fn from(value: OrderError) -> (error: MeldError) {
        MeldError::Order(value)
    }
}

impl vstd::std_specs::convert::FromSpecImpl<OrderError> for MeldError {
    open spec fn obeys_from_spec() -> bool {
        true
    }

    open spec fn from_spec(value: OrderError) -> MeldError {
        MeldError::Order(value)
    }
}

/// The outcome of step `k` of a walk that starts at `current` and goes
/// through `rest` in `direction`: the card at `k` is held against the card
/// before it, which for the first step is `current`.
pub open spec fn step_result(current: Card, rest: Seq<Card>, direction: Direction, k: int) -> Result<
    (),
    OrderError,
> {
    neighbour_result(
        if k == 0 {
            current
        } else {
            rest[k - 1]
        },
        rest[k],
        direction,
    )
}

/// Whether the walk from `current` through `rest` fails with `error` at step
/// `k`, every step before it having passed.
pub open spec fn walk_stops_at(
    current: Card,
    rest: Seq<Card>,
    direction: Direction,
    k: int,
    error: OrderError,
) -> bool {
    &&& 0 <= k < rest.len()
    &&& step_result(current, rest, direction, k) == Err::<(), OrderError>(error)
    &&& forall|j: int| 0 <= j < k ==> step_result(current, rest, direction, j) is Ok
}

/// Whether every step of the walk from `current` through `rest` passes.
pub open spec fn walk_passes(current: Card, rest: Seq<Card>, direction: Direction) -> bool {
    forall|k: int| 0 <= k < rest.len() ==> step_result(current, rest, direction, k) is Ok
}

/// Walks from `current` through `rest` in `direction`, holding each card
/// against the one before it, and stops at the first pair that fails.
pub fn check_neighbours(current: &Card, rest: &[Card], direction: &Direction) -> (outcome: Result<
    (),
    OrderError,
>)
    ensures
        outcome is Ok <==> walk_passes(*current, rest@, *direction),
        outcome matches Err(e) ==> exists|k: int|
            walk_stops_at(*current, rest@, *direction, k, e),
{
    let mut previous: Card = *current;
    let mut i: usize = 0;
    while i < rest.len()
        invariant
            i <= rest@.len(),
            previous == (if i == 0 {
                *current
            } else {
                rest@[i - 1]
            }),
            forall|j: int| 0 <= j < i ==> step_result(*current, rest@, *direction, j) is Ok,
        decreases rest@.len() - i,
    {
        let next: Card = rest[i];
        match previous.check_neighbour(&next, direction) {
            Err(e) => {
                assert(walk_stops_at(*current, rest@, *direction, i as int, e));
                return Err(e);
            },
            Ok(_) => {},
        }
        previous = next;
        i += 1;
    }
    Ok(())
}

/// The outcome of the check between the cards at `i` and `i + 1`. Below the
/// pivot, the middle position, the pair is read on the way down from the
/// pivot; from the pivot on, on the way up.
pub open spec fn link_result(cards: Seq<Card>, i: int) -> Result<(), OrderError> {
    if i < cards.len() / 2 {
        neighbour_result(cards[i + 1], cards[i], Direction::Decreasing)
    } else {
        neighbour_result(cards[i], cards[i + 1], Direction::Increasing)
    }
}

/// Whether the pair at `j` is checked before the pair at `k`, in a sequence
/// of `len` cards. The pairs below the pivot come first, from the pivot
/// towards the start; then those above it, from the pivot towards the end.
pub open spec fn checked_before(len: int, j: int, k: int) -> bool {
    let pivot = len / 2;
    if k < pivot {
        k < j < pivot
    } else {
        0 <= j < k
    }
}

/// Whether the pair at `k` is the first one to fail, and fails with `error`.
pub open spec fn first_failure(cards: Seq<Card>, k: int, error: OrderError) -> bool {
    &&& 0 <= k < cards.len() - 1
    &&& link_result(cards, k) == Err::<(), OrderError>(error)
    &&& forall|j: int| checked_before(cards.len() as int, j, k) ==> link_result(cards, j) is Ok
}

/// Whether `cards` form a meld: there are at least three, and each card is
/// followed by a card that may come after it on the way up.
pub open spec fn is_run(cards: Seq<Card>) -> bool {
    &&& cards.len() >= 3
    &&& forall|i: int|
        0 <= i < cards.len() - 1 ==> neighbour_result(
            cards[i],
            #[trigger] cards[i + 1],
            Direction::Increasing,
        ) is Ok
}

/// A validated run of cards.
#[derive(Debug, PartialEq)]
pub struct Meld(Vec<Card>);

impl View for Meld {
    type V = Seq<Card>;

    closed spec fn view(&self) -> Seq<Card> {
        self.0@
    }
}

impl Meld {
    /// Every meld is a run.
    #[verifier::type_invariant]
    pub closed spec fn valid(self) -> bool {
        is_run(self.0@)
    }

    /// Makes a meld of `initial`, which is kept in its order, or says why it
    /// is none. The pairs are checked outwards from the middle card, first
    /// towards the start and then towards the end, and the first pair that
    /// fails gives the error.
    pub fn new(initial: Vec<Card>) -> (outcome: Result<Meld, MeldError>)
        ensures
            outcome is Ok <==> is_run(initial@),
            outcome matches Ok(meld) ==> meld@ == initial@ && meld.valid(),
            initial@.len() < 3 ==> outcome == Err::<Meld, MeldError>(
                MeldError::Size(initial@.len() as usize),
            ),
            initial@.len() >= 3 ==> (outcome matches Err(error) ==> error matches MeldError::Order(
                e,
            ) && exists|k: int| first_failure(initial@, k, e)),
    {
        let len = initial.len();
        if len < MIN_MELD_SIZE {
            return Err(MeldError::Size(len));
        }
        let middle_index: usize = len / 2;
        let middle_card: Card = initial[middle_index];
        let ghost cards = initial@;

        let mut first_half: Vec<Card> = Vec::new();
        let mut i: usize = middle_index;
        while i > 0
            invariant
                cards == initial@,
                i <= middle_index < cards.len(),
                first_half@.len() == middle_index - i,
                forall|k: int|
                    0 <= k < first_half@.len() ==> first_half@[k] == cards[middle_index - 1 - k],
            decreases i,
        {
            i -= 1;
            first_half.push(initial[i]);
        }
        let second_half = slice_subrange(initial.as_slice(), middle_index + 1, len);

        assert forall|k: int| 0 <= k < first_half@.len() implies step_result(
            middle_card,
            first_half@,
            Direction::Decreasing,
            k,
        ) == link_result(cards, middle_index - 1 - k) by {}
        assert forall|k: int| 0 <= k < second_half@.len() implies step_result(
            middle_card,
            second_half@,
            Direction::Increasing,
            k,
        ) == link_result(cards, middle_index + k) by {}

        match check_neighbours(&middle_card, first_half.as_slice(), &Direction::Decreasing) {
            Err(e) => {
                proof {
                    let k = choose|k: int|
                        walk_stops_at(middle_card, first_half@, Direction::Decreasing, k, e);
                    let at = middle_index - 1 - k;
                    assert forall|j: int| checked_before(cards.len() as int, j, at) implies link_result(
                        cards,
                        j,
                    ) is Ok by {
                        assert(step_result(
                            middle_card,
                            first_half@,
                            Direction::Decreasing,
                            middle_index - 1 - j,
                        ) is Ok);
                    }
                    assert(first_failure(cards, at, e));
                    lemma_failed_link_breaks_run(cards, at);
                }
                return Err(MeldError::from(e));
            },
            Ok(_) => {},
        }
        match check_neighbours(&middle_card, second_half, &Direction::Increasing) {
            Err(e) => {
                proof {
                    let k = choose|k: int|
                        walk_stops_at(middle_card, second_half@, Direction::Increasing, k, e);
                    let at = middle_index + k;
                    assert forall|j: int| checked_before(cards.len() as int, j, at) implies link_result(
                        cards,
                        j,
                    ) is Ok by {
                        if j < middle_index {
                            assert(step_result(
                                middle_card,
                                first_half@,
                                Direction::Decreasing,
                                middle_index - 1 - j,
                            ) is Ok);
                        } else {
                            assert(step_result(
                                middle_card,
                                second_half@,
                                Direction::Increasing,
                                j - middle_index,
                            ) is Ok);
                        }
                    }
                    assert(first_failure(cards, at, e));
                    lemma_failed_link_breaks_run(cards, at);
                }
                return Err(MeldError::from(e));
            },
            Ok(_) => {},
        }
        proof {
            assert forall|i: int| 0 <= i < cards.len() - 1 implies neighbour_result(
                cards[i],
                #[trigger] cards[i + 1],
                Direction::Increasing,
            ) is Ok by {
                lemma_link_reads_upwards(cards, i);
                if i < middle_index {
                    assert(step_result(
                        middle_card,
                        first_half@,
                        Direction::Decreasing,
                        middle_index - 1 - i,
                    ) is Ok);
                } else {
                    assert(step_result(
                        middle_card,
                        second_half@,
                        Direction::Increasing,
                        i - middle_index,
                    ) is Ok);
                }
            }
        }
        Ok(Meld(initial))
    }

    /// The cards of the meld, in their order.
    pub fn cards(&self) -> (cards: &Vec<Card>)
        ensures
            cards@ == self@,
            is_run(cards@),
    {
        proof {
            use_type_invariant(self);
        }
        &self.0
    }
}

/// Whichever side of the pivot a pair lies on, its check comes to the same:
/// the second card may come after the first on the way up.
pub proof fn lemma_link_reads_upwards(cards: Seq<Card>, i: int)
    ensures
        link_result(cards, i) == neighbour_result(cards[i], cards[i + 1], Direction::Increasing),
{
}

/// A sequence with a pair that fails its check is no run.
pub proof fn lemma_failed_link_breaks_run(cards: Seq<Card>, i: int)
    requires
        0 <= i < cards.len() - 1,
        link_result(cards, i) is Err,
    ensures
        !is_run(cards),
{
    lemma_link_reads_upwards(cards, i);
    if is_run(cards) {
        assert(neighbour_result(cards[i], cards[i + 1], Direction::Increasing) is Ok);
    }
}

/// Jokers alone make no meld, however many there are: two jokers side by
/// side give each other neither suit nor rank.
pub proof fn lemma_jokers_alone_are_no_run(cards: Seq<Card>)
    requires
        forall|i: int| 0 <= i < cards.len() ==> cards[i] == Card::Joker,
    ensures
        !is_run(cards),
{
    if is_run(cards) {
        assert(cards[0] == Card::Joker);
        assert(cards[1] == Card::Joker);
        assert(neighbour_result(cards[0], cards[0int + 1], Direction::Increasing) is Ok);
    }
}

} // verus!
