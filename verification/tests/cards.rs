use card_melds::card::{Card, CardData, Direction, Face, OrderError, Suit};
use card_melds::rank::NumericalRank;

fn card(suit: Suit, rank: u8) -> Card {
    Card::new(suit, rank).unwrap()
}

fn rank_of(card: &Card) -> u8 {
    match card {
        Card::Card(data) => u8::from(data.rank),
        Card::Joker => 0,
    }
}

const SUITS: [Suit; 4] = [Suit::Hearts, Suit::Spades, Suit::Clubs, Suit::Diamonds];
const DIRECTIONS: [Direction; 2] = [Direction::Increasing, Direction::Decreasing];

#[test]
fn rank_exists_from_ace_to_king_only() {
    for number in 0..=255u8 {
        assert_eq!(NumericalRank::new(number).is_some(), (1..=13).contains(&number));
    }
}

#[test]
fn rank_gives_its_number_back() {
    for number in 1..=13u8 {
        assert_eq!(u8::from(NumericalRank::new(number).unwrap()), number);
    }
    assert_eq!(NumericalRank::new(0), None);
    assert_eq!(NumericalRank::new(14), None);
}

#[test]
fn card_new_refuses_ranks_out_of_range() {
    assert_eq!(Card::new(Suit::Clubs, 0), None);
    assert_eq!(Card::new(Suit::Clubs, 14), None);
    assert_eq!(Card::new(Suit::Clubs, 255), None);
    let seven = Card::new(Suit::Clubs, 7).unwrap();
    assert_eq!(
        seven,
        Card::Card(CardData { suit: Suit::Clubs, rank: NumericalRank::new(7).unwrap() })
    );
}

#[test]
fn court_cards_and_ace_have_their_ranks() {
    assert_eq!(Card::new_face(Suit::Hearts, Face::Jack), card(Suit::Hearts, 11));
    assert_eq!(Card::new_face(Suit::Hearts, Face::Queen), card(Suit::Hearts, 12));
    assert_eq!(Card::new_face(Suit::Hearts, Face::King), card(Suit::Hearts, 13));
    assert_eq!(Card::new_ace(Suit::Diamonds), card(Suit::Diamonds, 1));
    assert_eq!(rank_of(&Card::new_ace(Suit::Diamonds)), 1);
    assert_eq!(Card::new_joker(), Card::Joker);
}

#[test]
fn joker_takes_any_suit_and_rank() {
    let joker = Card::new_joker();
    for suit in SUITS {
        for rank in 1..=13u8 {
            let other = card(suit, rank);
            assert_eq!(joker.check_suit(&other), Ok(()));
            assert_eq!(other.check_suit(&joker), Ok(()));
            for direction in DIRECTIONS {
                assert_eq!(joker.check_rank(&other, &direction), Ok(()));
                assert_eq!(other.check_rank(&joker, &direction), Ok(()));
                assert_eq!(joker.check_neighbour(&other, &direction), Ok(()));
                assert_eq!(other.check_neighbour(&joker, &direction), Ok(()));
            }
        }
    }
}

#[test]
fn two_jokers_clash() {
    let joker = Card::new_joker();
    assert_eq!(joker.check_suit(&Card::Joker), Err(OrderError::Suit));
    for direction in DIRECTIONS {
        assert_eq!(joker.check_rank(&Card::Joker, &direction), Err(OrderError::Rank));
        assert_eq!(joker.check_neighbour(&Card::Joker, &direction), Err(OrderError::Suit));
    }
}

#[test]
fn suits_agree_only_when_equal() {
    for a in SUITS {
        for b in SUITS {
            let expected = if a == b { Ok(()) } else { Err(OrderError::Suit) };
            assert_eq!(card(a, 4).check_suit(&card(b, 9)), expected);
        }
    }
}

#[test]
fn one_rank_apart_is_a_step_both_ways() {
    for suit in SUITS {
        for low in 1..=12u8 {
            let a = card(suit, low + 1);
            let b = card(suit, low);
            assert_eq!(a.check_rank(&b, &Direction::Decreasing), Ok(()));
            assert_eq!(b.check_rank(&a, &Direction::Increasing), Ok(()));
            assert_eq!(a.check_neighbour(&b, &Direction::Decreasing), Ok(()));
            assert_eq!(b.check_neighbour(&a, &Direction::Increasing), Ok(()));
            assert_eq!(a.check_rank(&b, &Direction::Increasing), Err(OrderError::Rank));
            assert_eq!(b.check_rank(&a, &Direction::Decreasing), Err(OrderError::Rank));
        }
    }
}

#[test]
fn king_and_ace_close_the_cycle() {
    for suit in SUITS {
        let king = Card::new_face(suit, Face::King);
        let ace = Card::new_ace(suit);
        assert_eq!(king.check_rank(&ace, &Direction::Increasing), Ok(()));
        assert_eq!(ace.check_rank(&king, &Direction::Decreasing), Ok(()));
        assert_eq!(king.check_neighbour(&ace, &Direction::Increasing), Ok(()));
        assert_eq!(ace.check_neighbour(&king, &Direction::Decreasing), Ok(()));
        assert_eq!(ace.check_rank(&king, &Direction::Increasing), Err(OrderError::Rank));
        assert_eq!(king.check_rank(&ace, &Direction::Decreasing), Err(OrderError::Rank));
    }
}

#[test]
fn rank_check_follows_the_difference() {
    for a in 1..=13i16 {
        for b in 1..=13i16 {
            let diff = a - b;
            let x = card(Suit::Spades, a as u8);
            let y = card(Suit::Hearts, b as u8);
            let down = if diff == 1 || diff == -12 { Ok(()) } else { Err(OrderError::Rank) };
            let up = if diff == -1 || diff == 12 { Ok(()) } else { Err(OrderError::Rank) };
            assert_eq!(x.check_rank(&y, &Direction::Decreasing), down);
            assert_eq!(x.check_rank(&y, &Direction::Increasing), up);
        }
    }
}

#[test]
fn neighbour_check_looks_at_the_suit_first() {
    let two_hearts = card(Suit::Hearts, 2);
    let five_spades = card(Suit::Spades, 5);
    let three_spades = card(Suit::Spades, 3);
    let five_hearts = card(Suit::Hearts, 5);
    assert_eq!(
        two_hearts.check_neighbour(&five_spades, &Direction::Increasing),
        Err(OrderError::Suit)
    );
    assert_eq!(
        two_hearts.check_neighbour(&three_spades, &Direction::Increasing),
        Err(OrderError::Suit)
    );
    assert_eq!(
        two_hearts.check_neighbour(&five_hearts, &Direction::Increasing),
        Err(OrderError::Rank)
    );
    assert_eq!(
        two_hearts.check_neighbour(&card(Suit::Hearts, 3), &Direction::Increasing),
        Ok(())
    );
}

#[test]
fn walking_up_mirrors_walking_down() {
    let mut cards = vec![Card::Joker];
    for suit in SUITS {
        for rank in 1..=13u8 {
            cards.push(card(suit, rank));
        }
    }
    for a in &cards {
        for b in &cards {
            assert_eq!(
                a.check_neighbour(b, &Direction::Increasing),
                b.check_neighbour(a, &Direction::Decreasing)
            );
        }
    }
}
