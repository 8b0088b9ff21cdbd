use vstd::prelude::*;
use crate::card::Card;

verus! {

/// Most cards a hand holds.
pub const MAX_HAND_SIZE: usize = 5;

/// Most cards a player lays on the table.
pub const MAX_PLAYED_SIZE: usize = 5;

/// Color bet of a player who has not chosen one yet; it counts as a bet on
/// the sum of all cards.
pub const NO_COLOR_BET: i32 = 3;

/// Why a card could not be played.
#[derive(Debug, Clone, Copy, PartialEq, Eq, Structural)]
pub enum PlayError {
    /// No card of the hand stands at the index.
    OutOfRange,
    /// The player already has the most cards on the table.
    TableFull,
}

/// What a player holds: hand, cards on the table, bets, chips and the
/// bookkeeping of the current round.
pub struct PlayerView {
    pub id: usize,
    pub hand: Seq<Card>,
    pub played: Seq<Card>,
    /// Outcome bet: 1 for a win of the team, 0 for a loss.
    pub slate: i32,
    /// Color bet: black, red, or anything else for the sum of all cards.
    pub color_slate: i32,
    pub chips: usize,
    pub played_chips: usize,
    pub score: usize,
    /// 1 when the player's bets came true this round, else 0.
    pub winner: usize,
}

#[derive(Debug, Clone)]
pub struct Player {
    id: usize,
    hand: Vec<Card>,
    played_cards: Vec<Card>,
    slate: i32,
    color_slate: i32,
    chips: usize,
    played_chips: usize,
    score: usize,
    winner: usize,
}

impl View for Player {
    type V = PlayerView;

    closed spec fn view(&self) -> PlayerView {
        PlayerView {
            id: self.id,
            hand: self.hand@,
            played: self.played_cards@,
            slate: self.slate,
            color_slate: self.color_slate,
            chips: self.chips,
            played_chips: self.played_chips,
            score: self.score,
            winner: self.winner,
        }
    }
}

/// A copy of the cards, in the same order.
fn copy_cards(cards: &Vec<Card>) -> (r: Vec<Card>)
    ensures
        r@ == cards@,
{
    let mut r: Vec<Card> = Vec::new();
    let mut i: usize = 0;
    while i < cards.len()
        invariant
            0 <= i <= cards@.len(),
            r@ == cards@.take(i as int),
        decreases cards@.len() - i,
    {
        r.push(cards[i]);
        i = i + 1;
        assert(r@ =~= cards@.take(i as int));
    }
    assert(cards@.take(i as int) =~= cards@);
    r
}

impl Player {
    /// A second player holding exactly what this one holds.
    pub fn duplicate(&self) -> (r: Player)
        ensures
            r@ == self@,
    {
        Player {
            id: self.id,
            hand: copy_cards(&self.hand),
            played_cards: copy_cards(&self.played_cards),
            slate: self.slate,
            color_slate: self.color_slate,
            chips: self.chips,
            played_chips: self.played_chips,
            score: self.score,
            winner: self.winner,
        }
    }

    /// A player with no card, no chip and no bet yet.
    pub fn new(id: usize) -> (p: Player)
        ensures
            p@ == (PlayerView {
                id,
                hand: Seq::empty(),
                played: Seq::empty(),
                slate: 0,
                color_slate: NO_COLOR_BET,
                chips: 0,
                played_chips: 0,
                score: 0,
                winner: 0,
            }),
    {
        Player {
            id,
            hand: Vec::new(),
            played_cards: Vec::new(),
            slate: 0,
            chips: 0,
            played_chips: 0,
            score: 0,
            winner: 0,
            color_slate: NO_COLOR_BET,
        }
    }

    /// Adds a card to the hand unless the hand is full; tells whether it was added.
    pub fn add_card_to_hand(&mut self, card: Card) -> (added: bool)
        ensures
            added == (old(self)@.hand.len() < MAX_HAND_SIZE),
            added ==> final(self)@ == (PlayerView { hand: old(self)@.hand.push(card), ..old(self)@ }),
            !added ==> final(self)@ == old(self)@,
    {
        if self.hand.len() >= MAX_HAND_SIZE {
            return false;
        }
        self.hand.push(card);
        true
    }

    /// Drops the card at `card_index` from the hand; does nothing if there is none.
    pub fn remove_card_from_hand(&mut self, card_index: usize)
        ensures
            card_index < old(self)@.hand.len() ==> final(self)@ == (PlayerView {
                hand: old(self)@.hand.remove(card_index as int),
                ..old(self)@
            }),
            card_index >= old(self)@.hand.len() ==> final(self)@ == old(self)@,
    {
        if card_index < self.hand.len() {
            self.hand.remove(card_index);
        }
    }

    /// Moves the card at `card_index` from the hand to the end of the table.
    pub fn play_card(&mut self, card_index: usize) -> (r: Result<(), PlayError>)
        ensures
            old(self)@.played.len() >= MAX_PLAYED_SIZE ==> r == Err::<(), PlayError>(
                PlayError::TableFull,
            ),
            old(self)@.played.len() < MAX_PLAYED_SIZE && card_index >= old(self)@.hand.len()
                ==> r == Err::<(), PlayError>(PlayError::OutOfRange),
            r is Err ==> final(self)@ == old(self)@,
            r is Ok <==> (old(self)@.played.len() < MAX_PLAYED_SIZE && card_index
                < old(self)@.hand.len()),
            r is Ok ==> final(self)@ == (PlayerView {
                hand: old(self)@.hand.remove(card_index as int),
                played: old(self)@.played.push(old(self)@.hand[card_index as int]),
                ..old(self)@
            }),
    {
        if self.played_cards.len() >= MAX_PLAYED_SIZE {
            return Err(PlayError::TableFull);
        }
        if card_index >= self.hand.len() {
            return Err(PlayError::OutOfRange);
        }
        let card = self.hand.remove(card_index);
        self.played_cards.push(card);
        Ok(())
    }

    /// Drops the card at `card_index` from the table; does nothing if there is none.
    pub fn remove_played_card(&mut self, card_index: usize)
        ensures
            card_index < old(self)@.played.len() ==> final(self)@ == (PlayerView {
                played: old(self)@.played.remove(card_index as int),
                ..old(self)@
            }),
            card_index >= old(self)@.played.len() ==> final(self)@ == old(self)@,
    {
        if card_index < self.played_cards.len() {
            self.played_cards.remove(card_index);
        }
    }

    pub fn get_player_id(&self) -> (r: usize)
        ensures
            r == self@.id,
    {
        self.id
    }

    pub fn get_size_of_hand(&self) -> (r: usize)
        ensures
            r == self@.hand.len(),
    {
        self.hand.len()
    }

    pub fn get_card_in_hand(&self, card_index: usize) -> (r: Option<&Card>)
        ensures
            card_index < self@.hand.len() ==> r == Some(&self@.hand[card_index as int]),
            card_index >= self@.hand.len() ==> r is None,
    {
        if card_index < self.hand.len() {
            Some(&self.hand[card_index])
        } else {
            None
        }
    }

    pub fn get_played_size(&self) -> (r: usize)
        ensures
            r == self@.played.len(),
    {
        self.played_cards.len()
    }

    pub fn get_played_card(&self, card_index: usize) -> (r: Option<&Card>)
        ensures
            card_index < self@.played.len() ==> r == Some(&self@.played[card_index as int]),
            card_index >= self@.played.len() ==> r is None,
    {
        if card_index < self.played_cards.len() {
            Some(&self.played_cards[card_index])
        } else {
            None
        }
    }

    pub fn get_slate(&self) -> (r: i32)
        ensures
            r == self@.slate,
    {
        self.slate
    }

    pub fn set_slate(&mut self, pari: i32)
        ensures
            final(self)@ == (PlayerView { slate: pari, ..old(self)@ }),
    {
        self.slate = pari;
    }

    pub fn get_chips(&self) -> (r: usize)
        ensures
            r == self@.chips,
    {
        self.chips
    }

    pub fn set_chips(&mut self, count: usize)
        ensures
            final(self)@ == (PlayerView { chips: count, ..old(self)@ }),
    {
        self.chips = count;
    }

    /// Stakes `count` chips: they leave the balance for the stake, if the
    /// balance holds them. Tells whether the stake was taken.
    pub fn play_chips(&mut self, count: usize) -> (staked: bool)
        requires
            old(self)@.played_chips + count <= usize::MAX,
        ensures
            staked == (count <= old(self)@.chips),
            staked ==> final(self)@ == (PlayerView {
                chips: (old(self)@.chips - count) as usize,
                played_chips: (old(self)@.played_chips + count) as usize,
                ..old(self)@
            }),
            !staked ==> final(self)@ == old(self)@,
    {
        if self.chips >= count {
            self.played_chips += count;
            self.chips -= count;
            true
        } else {
            false
        }
    }

    pub fn set_played_chips(&mut self, count: usize)
        ensures
            final(self)@ == (PlayerView { played_chips: count, ..old(self)@ }),
    {
        self.played_chips = count;
    }

    pub fn get_played_chips(&self) -> (r: usize)
        ensures
            r == self@.played_chips,
    {
        self.played_chips
    }

    pub fn get_score(&self) -> (r: usize)
        ensures
            r == self@.score,
    {
        self.score
    }

    pub fn set_score(&mut self, score: usize)
        ensures
            final(self)@ == (PlayerView { score, ..old(self)@ }),
    {
        self.score = score;
    }

    pub fn get_winner(&self) -> (r: usize)
        ensures
            r == self@.winner,
    {
        self.winner
    }

    pub fn set_winner(&mut self, is_winner: usize)
        ensures
            final(self)@ == (PlayerView { winner: is_winner, ..old(self)@ }),
    {
        self.winner = is_winner;
    }

    pub fn get_color_slate(&self) -> (r: i32)
        ensures
            r == self@.color_slate,
    {
        self.color_slate
    }

    pub fn set_color_slate(&mut self, slate: i32)
        ensures
            final(self)@ == (PlayerView { color_slate: slate, ..old(self)@ }),
    {
        self.color_slate = slate;
    }

    /// Settles the stake of the round: a winner gets twice the stake added to
    /// the balance; the stake is emptied either way.
    pub fn settle_round(&mut self, won: bool)
        requires
            won ==> old(self)@.chips + 2 * old(self)@.played_chips <= usize::MAX,
        ensures
            final(self)@ == (PlayerView {
                chips: if won {
                    (old(self)@.chips + 2 * old(self)@.played_chips) as usize
                } else {
                    old(self)@.chips
                },
                played_chips: 0,
                ..old(self)@
            }),
    {
        if won {
            let chips_won = self.played_chips * 2;
            self.chips = self.chips + chips_won;
        }
        self.played_chips = 0;
    }
}

} // verus!
