use card_melds::card::{Card, Suit};
use card_melds::deck::{new_deck, Cards};
use card_melds::game::{Game, GameError, Player, PlayerCount, Team};

fn key(card: &Card) -> (u8, u8) {
    match card {
        Card::Joker => (0, 0),
        Card::Card(data) => {
            let suit = match data.suit {
                Suit::Spades => 1,
                Suit::Hearts => 2,
                Suit::Diamonds => 3,
                Suit::Clubs => 4,
            };
            (suit, u8::from(data.rank))
        }
    }
}

fn sorted_keys(cards: &[Card]) -> Vec<(u8, u8)> {
    let mut keys: Vec<(u8, u8)> = cards.iter().map(key).collect();
    keys.sort();
    keys
}

fn all_cards(game: &Game) -> Vec<Card> {
    let mut cards = Vec::new();
    for team in &game.teams {
        for player in &team.players {
            cards.extend(player.hand.0.iter().copied());
        }
    }
    cards.extend(game.refills.0.as_ref().unwrap().0.iter().copied());
    cards.extend(game.refills.1.as_ref().unwrap().0.iter().copied());
    cards.extend(game.deck.0.iter().copied());
    cards.extend(game.table.0.iter().copied());
    cards
}

#[test]
fn new_deck_runs_through_the_suits() {
    let deck = new_deck();
    let suits = [Suit::Spades, Suit::Hearts, Suit::Diamonds, Suit::Clubs];
    for (i, card) in deck.iter().enumerate() {
        assert_eq!(*card, Card::new(suits[i / 13], (i % 13) as u8 + 1).unwrap());
    }
    assert_eq!(deck[0], Card::new_ace(Suit::Spades));
    assert_eq!(deck[51], Card::new(Suit::Clubs, 13).unwrap());
}

#[test]
fn double_deck_is_two_new_decks() {
    let pile = Cards::double_deck();
    assert_eq!(pile.0.len(), 104);
    assert_eq!(&pile.0[..52], &new_deck()[..]);
    assert_eq!(&pile.0[52..], &new_deck()[..]);
}

#[test]
fn shuffle_keeps_the_cards_and_changes_their_order() {
    let fresh = Cards::double_deck();
    let mut pile = Cards::double_deck();
    pile.shuffle();
    assert_eq!(pile.0.len(), 104);
    assert_eq!(sorted_keys(&pile.0), sorted_keys(&fresh.0));
    assert_ne!(pile.0, fresh.0);
}

#[test]
fn draw_takes_exactly_the_first_cards() {
    let mut pile = Cards(new_deck());
    let drawn = pile.draw_n(11);
    assert_eq!(drawn.0.len(), 11);
    assert_eq!(pile.0.len(), 41);
    assert_eq!(&drawn.0[..], &new_deck()[..11]);
    assert_eq!(&pile.0[..], &new_deck()[11..]);
    let none = pile.draw_n(0);
    assert_eq!(none.0.len(), 0);
    assert_eq!(pile.0.len(), 41);
    let rest = pile.draw_n(41);
    assert_eq!(rest.0.len(), 41);
    assert!(pile.0.is_empty());
}

#[test]
fn player_gets_eleven_cards() {
    let mut pile = Cards(new_deck());
    let player = Player::new(&mut pile);
    assert!(!player.refill_used);
    assert_eq!(&player.hand.0[..], &new_deck()[..11]);
    assert_eq!(&pile.0[..], &new_deck()[11..]);
}

#[test]
fn team_gets_a_hand_for_each_player() {
    let mut pile = Cards(new_deck());
    let team = Team::new(&mut pile, 3);
    assert_eq!(team.players.len(), 3);
    assert!(team.melds.is_empty());
    for (i, player) in team.players.iter().enumerate() {
        assert!(!player.refill_used);
        assert_eq!(&player.hand.0[..], &new_deck()[11 * i..11 * i + 11]);
    }
    assert_eq!(&pile.0[..], &new_deck()[33..]);
    let empty = Team::new(&mut pile, 0);
    assert!(empty.players.is_empty());
    assert_eq!(pile.0.len(), 19);
}

#[test]
fn dealing_takes_eleven_cards_for_each_player() {
    for (count, players, teams, size) in [
        (PlayerCount::Two, 2usize, 2usize, 1usize),
        (PlayerCount::Three, 3, 3, 1),
        (PlayerCount::Four, 4, 2, 2),
    ] {
        let mut pile = Cards::double_deck();
        let before = pile.0.len();
        assert_eq!(before, 104);
        let dealt = Game::deal_teams(&mut pile, count);
        assert_eq!(pile.0.len(), before - 11 * players);
        assert_eq!(dealt.len(), teams);
        for team in &dealt {
            assert_eq!(team.players.len(), size);
        }
    }
}

#[test]
fn deal_hands_out_the_pile_in_order() {
    let fresh = Cards::double_deck().0;
    let game = Game::deal(Cards::double_deck(), PlayerCount::Four).unwrap();
    assert_eq!(game.teams.len(), 2);
    assert_eq!(&game.teams[0].players[0].hand.0[..], &fresh[0..11]);
    assert_eq!(&game.teams[0].players[1].hand.0[..], &fresh[11..22]);
    assert_eq!(&game.teams[1].players[0].hand.0[..], &fresh[22..33]);
    assert_eq!(&game.teams[1].players[1].hand.0[..], &fresh[33..44]);
    assert_eq!(&game.refills.0.as_ref().unwrap().0[..], &fresh[44..55]);
    assert_eq!(&game.refills.1.as_ref().unwrap().0[..], &fresh[55..66]);
    assert_eq!(&game.deck.0[..], &fresh[66..]);
    assert!(game.table.0.is_empty());
    assert_eq!(all_cards(&game), fresh);
}

#[test]
fn deal_for_three_makes_three_teams_of_one() {
    let fresh = Cards::double_deck().0;
    let game = Game::deal(Cards::double_deck(), PlayerCount::Three).unwrap();
    assert_eq!(game.teams.len(), 3);
    for (t, team) in game.teams.iter().enumerate() {
        assert_eq!(team.players.len(), 1);
        assert!(team.melds.is_empty());
        assert_eq!(&team.players[0].hand.0[..], &fresh[11 * t..11 * t + 11]);
    }
    assert_eq!(game.deck.0.len(), 104 - 55);
}

#[test]
fn deal_refuses_six_players_and_small_piles() {
    assert_eq!(
        Game::deal(Cards::double_deck(), PlayerCount::Six).err(),
        Some(GameError::UnsupportedPlayerCount)
    );
    assert_eq!(
        Game::deal(Cards(vec![]), PlayerCount::Six).err(),
        Some(GameError::UnsupportedPlayerCount)
    );
    assert_eq!(
        Game::deal(Cards(new_deck()), PlayerCount::Four).err(),
        Some(GameError::NotEnoughCards)
    );
    let mut short = Cards(new_deck());
    let _ = short.draw_n(9);
    assert_eq!(short.0.len(), 43);
    assert_eq!(Game::deal(short, PlayerCount::Two).err(), Some(GameError::NotEnoughCards));
    let mut exact = Cards(new_deck());
    let _ = exact.draw_n(8);
    let game = Game::deal(exact, PlayerCount::Two).unwrap();
    assert!(game.deck.0.is_empty());
}

#[test]
fn new_game_holds_every_card_of_two_decks() {
    for (count, players) in
        [(PlayerCount::Two, 2usize), (PlayerCount::Three, 3), (PlayerCount::Four, 4)]
    {
        let game = Game::new(count).unwrap();
        let seated: usize = game.teams.iter().map(|team| team.players.len()).sum();
        assert_eq!(seated, players);
        for team in &game.teams {
            assert!(team.melds.is_empty());
            for player in &team.players {
                assert_eq!(player.hand.0.len(), 11);
                assert!(!player.refill_used);
            }
        }
        assert_eq!(game.refills.0.as_ref().unwrap().0.len(), 11);
        assert_eq!(game.refills.1.as_ref().unwrap().0.len(), 11);
        assert_eq!(game.deck.0.len(), 104 - 11 * (players + 2));
        assert!(game.table.0.is_empty());
        let cards = all_cards(&game);
        assert_eq!(cards.len(), 104);
        assert_eq!(sorted_keys(&cards), sorted_keys(&Cards::double_deck().0));
    }
}

#[test]
fn new_game_is_shuffled() {
    let game = Game::new(PlayerCount::Two).unwrap();
    assert_ne!(all_cards(&game), Cards::double_deck().0);
}

#[test]
fn new_game_refuses_six_players() {
    assert_eq!(Game::new(PlayerCount::Six).err(), Some(GameError::UnsupportedPlayerCount));
}
