//! Setting up a game: teams of players, each with a hand dealt from a
//! shuffled double deck, two refills, the stock and the table.

use vstd::prelude::*;
use crate::card::Card;
use crate::deck::{is_double_deck, Cards};
use crate::meld::Meld;

verus! {

/// The number of cards in a hand, and in a refill.
pub const HAND_SIZE: usize = 11;

/// One player: a hand, and whether the player has picked up a refill.
#[derive(Debug)]
pub struct Player {
    pub refill_used: bool,
    pub hand: Cards,
}

impl Player {
    /// A player whose hand is the first eleven cards of `deck`.
    pub fn new(deck: &mut Cards) -> (player: Player)
        requires
            old(deck)@.len() >= 11,
        ensures
            !player.refill_used,
            player.hand@ == old(deck)@.subrange(0, 11),
            final(deck)@ == old(deck)@.subrange(11, old(deck)@.len() as int),
    {
        Player { refill_used: false, hand: deck.draw_n(HAND_SIZE) }
    }
}

/// The cards in the hands of `players`, player by player.
pub open spec fn hands_of(players: Seq<Player>) -> Seq<Card>
    decreases players.len(),
{
    if players.len() == 0 {
        Seq::empty()
    } else {
        hands_of(players.drop_last()) + players.last().hand@
    }
}

/// The players of one side, and the melds that they have laid down.
#[derive(Debug)]
pub struct Team {
    pub players: Vec<Player>,
    pub melds: Vec<Meld>,
}

impl Team {
    /// Whether this is a fresh team of `num_players` players whose hands
    /// were dealt from the top of `deck`, one after the other.
    pub open spec fn dealt_from(self, deck: Seq<Card>, num_players: int) -> bool {
        &&& self.players@.len() == num_players
        &&& self.melds@.len() == 0
        &&& forall|i: int|
            0 <= i < num_players ==> {
                &&& !(#[trigger] self.players@[i]).refill_used
                &&& self.players@[i].hand@ == deck.subrange(11 * i, 11 * i + 11)
            }
    }

    /// A team of `num_players` players, each with a hand from `deck`.
    pub fn new(deck: &mut Cards, num_players: usize) -> (team: Team)
        requires
            11 * num_players <= old(deck)@.len(),
        ensures
            team.dealt_from(old(deck)@, num_players as int),
            final(deck)@ == old(deck)@.subrange(11 * num_players, old(deck)@.len() as int),
    {
        let ghost pile = deck@;
        let mut players: Vec<Player> = Vec::new();
        let mut i: usize = 0;
        assert(deck@ =~= pile.subrange(0, pile.len() as int));
        while i < num_players
            invariant
                i <= num_players,
                11 * num_players <= pile.len(),
                players@.len() == i,
                deck@ == pile.subrange(11 * i, pile.len() as int),
                forall|k: int|
                    0 <= k < i ==> {
                        &&& !(#[trigger] players@[k]).refill_used
                        &&& players@[k].hand@ == pile.subrange(11 * k, 11 * k + 11)
                    },
            decreases num_players - i,
        {
            let ghost rest = deck@;
            let player = Player::new(deck);
            assert(rest.subrange(0, 11) =~= pile.subrange(11 * i, 11 * i + 11));
            assert(rest.subrange(11, rest.len() as int) =~= pile.subrange(
                11 * (i + 1),
                pile.len() as int,
            ));
            players.push(player);
            i += 1;
        }
        Team { players, melds: Vec::new() }
    }
}

/// How many players sit down to a game.
#[derive(Debug, PartialEq, Eq, Structural, Clone, Copy)]
pub enum PlayerCount {
    Two,
    Three,
    Four,
    Six,
}

/// Why a game cannot be set up.
#[derive(Debug, PartialEq, Eq, Structural, Clone, Copy)]
pub enum GameError {
    /// No rule says how this number of players forms teams.
    UnsupportedPlayerCount,
    /// The pile does not hold a hand for each player and two refills.
    NotEnoughCards,
}

/// Whether a game for this many players can be set up: a game of six cannot.
pub open spec fn is_supported(count: PlayerCount) -> bool {
    count != PlayerCount::Six
}

/// The number of teams: two play one against one, three each for themselves,
/// four two against two.
pub open spec fn team_count(count: PlayerCount) -> int {
    match count {
        PlayerCount::Two => 2,
        PlayerCount::Three => 3,
        PlayerCount::Four => 2,
        PlayerCount::Six => 0,
    }
}

/// The number of players in each team.
pub open spec fn team_size(count: PlayerCount) -> int {
    match count {
        PlayerCount::Two => 1,
        PlayerCount::Three => 1,
        PlayerCount::Four => 2,
        PlayerCount::Six => 0,
    }
}

/// The number of players in all.
pub open spec fn player_total(count: PlayerCount) -> int {
    match count {
        PlayerCount::Two => 2,
        PlayerCount::Three => 3,
        PlayerCount::Four => 4,
        PlayerCount::Six => 0,
    }
}

/// The number of cards that go to the teams before team `t`.
pub open spec fn team_offset(count: PlayerCount, t: int) -> int {
    match count {
        PlayerCount::Four => 22 * t,
        _ => 11 * t,
    }
}

/// Whether `teams` are the fresh teams of a game for `count` players, dealt
/// from the top of `deck` team by team.
pub open spec fn teams_dealt(teams: Seq<Team>, deck: Seq<Card>, count: PlayerCount) -> bool {
    &&& teams.len() == team_count(count)
    &&& forall|t: int|
        0 <= t < team_count(count) ==> (#[trigger] teams[t]).dealt_from(
            deck.subrange(team_offset(count, t), deck.len() as int),
            team_size(count),
        )
}

/// The cards in the hands of the players of `teams`, team by team.
pub open spec fn team_hands(teams: Seq<Team>) -> Seq<Card>
    decreases teams.len(),
{
    if teams.len() == 0 {
        Seq::empty()
    } else {
        team_hands(teams.drop_last()) + hands_of(teams.last().players@)
    }
}

/// The cards of a refill, which are none once it has been picked up.
pub open spec fn refill_cards(refill: Option<Cards>) -> Seq<Card> {
    match refill {
        Some(cards) => cards@,
        None => Seq::empty(),
    }
}

/// Whether `pile` holds a hand for each player of a game for `count` players
/// and two refills.
pub open spec fn enough_cards(pile: Seq<Card>, count: PlayerCount) -> bool {
    pile.len() >= 11 * (player_total(count) + 2)
}

/// The table, the stock, the refills and the teams of a game.
#[derive(Debug)]
pub struct Game {
    pub teams: Vec<Team>,
    pub refills: (Option<Cards>, Option<Cards>),
    pub deck: Cards,
    pub table: Cards,
}

impl Game {
    /// Whether this is the game that dealing `pile` to `count` players gives:
    /// the hands come off the top, then the two refills; what is left is the
    /// stock, and the table is empty.
    pub open spec fn dealt_from(self, pile: Seq<Card>, count: PlayerCount) -> bool {
        let hands = 11 * player_total(count);
        &&& teams_dealt(self.teams@, pile, count)
        &&& self.refills.0 matches Some(first) && first@ == pile.subrange(hands, hands + 11)
        &&& self.refills.1 matches Some(second) && second@ == pile.subrange(
            hands + 11,
            hands + 22,
        )
        &&& self.deck@ == pile.subrange(hands + 22, pile.len() as int)
        &&& self.table@.len() == 0
    }

    /// Every card of the game that lies in a pile or is held in a hand: the
    /// hands, the refills, the stock and the table, in this order.
    pub open spec fn all_cards(self) -> Seq<Card> {
        team_hands(self.teams@) + refill_cards(self.refills.0) + refill_cards(self.refills.1)
            + self.deck@ + self.table@
    }

    /// Deals a hand of eleven cards to each player of a game for `count`
    /// players, team by team, from the top of `deck`. The pile then holds
    /// eleven cards fewer for each player.
    pub fn deal_teams(deck: &mut Cards, count: PlayerCount) -> (teams: Vec<Team>)
        requires
            is_supported(count),
            11 * player_total(count) <= old(deck)@.len(),
        ensures
            teams_dealt(teams@, old(deck)@, count),
            final(deck)@ == old(deck)@.subrange(
                11 * player_total(count),
                old(deck)@.len() as int,
            ),
            final(deck)@.len() == old(deck)@.len() - 11 * player_total(count),
    {
        let ghost pile = deck@;
        let (number, size): (usize, usize) = match count {
            PlayerCount::Two => (2, 1),
            PlayerCount::Three => (3, 1),
            _ => (2, 2),
        };
        let mut teams: Vec<Team> = Vec::new();
        let mut t: usize = 0;
        assert(deck@ =~= pile.subrange(0, pile.len() as int));
        while t < number
            invariant
                is_supported(count),
                number == team_count(count),
                size == team_size(count),
                11 * player_total(count) <= pile.len(),
                t <= number,
                teams@.len() == t,
                deck@ == pile.subrange(team_offset(count, t as int), pile.len() as int),
                forall|k: int|
                    0 <= k < t ==> (#[trigger] teams@[k]).dealt_from(
                        pile.subrange(team_offset(count, k), pile.len() as int),
                        team_size(count),
                    ),
            decreases number - t,
        {
            let ghost rest = deck@;
            let team = Team::new(deck, size);
            assert(rest.subrange(11 * size, rest.len() as int) =~= pile.subrange(
                team_offset(count, t + 1),
                pile.len() as int,
            ));
            teams.push(team);
            t += 1;
        }
        teams
    }

    /// Sets up a game for `count` players from `deck` as it lies: the hands,
    /// then the two refills, are taken off the top in order. A game of six
    /// is refused, and so is a pile that is too small.
    pub fn deal(deck: Cards, count: PlayerCount) -> (outcome: Result<Game, GameError>)
        ensures
            !is_supported(count) ==> outcome == Err::<Game, GameError>(
                GameError::UnsupportedPlayerCount,
            ),
            is_supported(count) && !enough_cards(deck@, count) ==> outcome == Err::<
                Game,
                GameError,
            >(GameError::NotEnoughCards),
            is_supported(count) && enough_cards(deck@, count) ==> (outcome matches Ok(game)
                && game.dealt_from(deck@, count)),
    {
        let players: usize = match count {
            PlayerCount::Two => 2,
            PlayerCount::Three => 3,
            PlayerCount::Four => 4,
            PlayerCount::Six => {
                return Err(GameError::UnsupportedPlayerCount);
            },
        };
        if deck.0.len() < HAND_SIZE * (players + 2) {
            return Err(GameError::NotEnoughCards);
        }
        let ghost pile = deck@;
        let mut deck = deck;
        let teams = Game::deal_teams(&mut deck, count);
        let ghost after_hands = deck@;
        let first = deck.draw_n(HAND_SIZE);
        let ghost after_first = deck@;
        let second = deck.draw_n(HAND_SIZE);
        proof {
            let hands = 11 * player_total(count);
            assert(first@ =~= pile.subrange(hands, hands + 11));
            assert(after_first =~= pile.subrange(hands + 11, pile.len() as int));
            assert(second@ =~= pile.subrange(hands + 11, hands + 22));
            assert(deck@ =~= pile.subrange(hands + 22, pile.len() as int));
        }
        Ok(Game { teams, refills: (Some(first), Some(second)), deck, table: Cards(Vec::new()) })
    }

    /// Sets up a game for `count` players from a shuffled double deck. The
    /// order of the cards is left to chance; whatever it is, the game is the
    /// one that dealing the shuffled pile gives, and it holds the cards of
    /// two decks, each card as often as they do. A game of six is refused.
    pub fn new(count: PlayerCount) -> (outcome: Result<Game, GameError>)
        ensures
            !is_supported(count) ==> outcome == Err::<Game, GameError>(
                GameError::UnsupportedPlayerCount,
            ),
            is_supported(count) ==> (outcome matches Ok(game) && exists|
                fresh: Seq<Card>,
                shuffled: Seq<Card>,
            |
                {
                    &&& is_double_deck(fresh)
                    &&& shuffled.len() == 104
                    &&& shuffled.to_multiset() == fresh.to_multiset()
                    &&& game.dealt_from(shuffled, count)
                    &&& game.all_cards() == shuffled
                }),
            is_supported(count) ==> (outcome matches Ok(game) && game.deck@.len() == 104 - 11 * (
            player_total(count) + 2)),
    {
        let mut deck = Cards::double_deck();
        let ghost fresh = deck@;
        deck.shuffle();
        let ghost shuffled = deck@;
        let outcome = Game::deal(deck, count);
        proof {
            if is_supported(count) {
                let game = outcome->Ok_0;
                lemma_dealing_keeps_every_card(game, shuffled, count);
                assert(is_double_deck(fresh) && shuffled.len() == 104 && shuffled.to_multiset()
                    == fresh.to_multiset() && game.dealt_from(shuffled, count) && game.all_cards()
                    == shuffled);
            }
        }
        outcome
    }
}

/// The hands of the first `n` players, each dealt from `deck` in turn, are
/// together the first `11 * n` cards of `deck`.
proof fn lemma_hands_are_a_prefix(players: Seq<Player>, deck: Seq<Card>, n: int)
    requires
        0 <= n <= players.len(),
        11 * n <= deck.len(),
        forall|i: int|
            0 <= i < n ==> (#[trigger] players[i]).hand@ == deck.subrange(11 * i, 11 * i + 11),
    ensures
        hands_of(players.subrange(0, n)) == deck.subrange(0, 11 * n),
    decreases n,
{
    let first = players.subrange(0, n);
    if n == 0 {
        assert(deck.subrange(0, 0) =~= Seq::<Card>::empty());
    } else {
        lemma_hands_are_a_prefix(players, deck, n - 1);
        assert(first.drop_last() =~= players.subrange(0, n - 1));
        assert(first.last() == players[n - 1]);
        assert(deck.subrange(0, 11 * (n - 1)) + deck.subrange(11 * (n - 1), 11 * (n - 1) + 11)
            =~= deck.subrange(0, 11 * n));
    }
}

/// The hands of a fresh team are the cards that were on top of the pile, in
/// their order.
pub proof fn lemma_team_holds_the_top(team: Team, deck: Seq<Card>, num_players: int)
    requires
        0 <= num_players,
        11 * num_players <= deck.len(),
        team.dealt_from(deck, num_players),
    ensures
        hands_of(team.players@) == deck.subrange(0, 11 * num_players),
{
    lemma_hands_are_a_prefix(team.players@, deck, num_players);
    assert(team.players@.subrange(0, num_players) =~= team.players@);
}

/// The hands of the first `n` teams are together the cards that lay above
/// the hands of team `n`.
proof fn lemma_teams_hold_a_prefix(teams: Seq<Team>, pile: Seq<Card>, count: PlayerCount, n: int)
    requires
        is_supported(count),
        11 * player_total(count) <= pile.len(),
        teams_dealt(teams, pile, count),
        0 <= n <= team_count(count),
    ensures
        team_hands(teams.subrange(0, n)) == pile.subrange(0, team_offset(count, n)),
    decreases n,
{
    let first = teams.subrange(0, n);
    if n == 0 {
        assert(pile.subrange(0, 0) =~= Seq::<Card>::empty());
    } else {
        lemma_teams_hold_a_prefix(teams, pile, count, n - 1);
        let from = team_offset(count, n - 1);
        let rest = pile.subrange(from, pile.len() as int);
        assert(first.drop_last() =~= teams.subrange(0, n - 1));
        assert(first.last() == teams[n - 1]);
        lemma_team_holds_the_top(teams[n - 1], rest, team_size(count));
        assert(rest.subrange(0, 11 * team_size(count)) =~= pile.subrange(
            from,
            team_offset(count, n),
        ));
        assert(pile.subrange(0, from) + pile.subrange(from, team_offset(count, n))
            =~= pile.subrange(0, team_offset(count, n)));
    }
}

/// Dealing loses no card and adds none: the hands, the refills and the stock
/// of a game that was dealt from `pile` are, one after the other, `pile`.
pub proof fn lemma_dealing_keeps_every_card(game: Game, pile: Seq<Card>, count: PlayerCount)
    requires
        is_supported(count),
        enough_cards(pile, count),
        game.dealt_from(pile, count),
    ensures
        game.all_cards() == pile,
        game.deck@.len() == pile.len() - 11 * (player_total(count) + 2),
{
    let hands = 11 * player_total(count);
    lemma_teams_hold_a_prefix(game.teams@, pile, count, team_count(count));
    assert(game.teams@.subrange(0, team_count(count)) =~= game.teams@);
    assert(team_offset(count, team_count(count)) == hands);
    assert(game.all_cards() =~= pile);
}

} // verus!
