use vstd::prelude::*;
use crate::card::Card;
use crate::player::Player;

verus! {

/// What a team holds: its players, in the order they joined, and its score.
pub struct TeamView {
    pub id: usize,
    pub score: usize,
    pub nb_players: usize,
    pub players: Seq<Player>,
}

pub struct Team {
    id: usize,
    score: usize,
    nb_players: usize,
    list_players: Vec<Player>,
}

impl View for Team {
    type V = TeamView;

    closed spec fn view(&self) -> TeamView {
        TeamView {
            id: self.id,
            score: self.score,
            nb_players: self.nb_players,
            players: self.list_players@,
        }
    }
}

impl Team {
    /// The player count of a team is the length of its list of players.
    pub open spec fn wf(&self) -> bool {
        self@.nb_players == self@.players.len()
    }

    pub fn new(id: usize) -> (t: Team)
        ensures
            t@ == (TeamView { id, score: 0, nb_players: 0, players: Seq::empty() }),
            t.wf(),
    {
        Team { id, score: 0, nb_players: 0, list_players: Vec::new() }
    }

    pub fn add_player(&mut self, player: Player)
        ensures
            final(self)@ == (TeamView {
                nb_players: (old(self)@.players.len() + 1) as usize,
                players: old(self)@.players.push(player),
                ..old(self)@
            }),
            final(self).wf(),
    {
        self.list_players.push(player);
        self.nb_players = self.list_players.len();
    }
}

/// What the board holds: the teams, and the cards taken out of the game.
pub struct BoardView {
    pub teams: Seq<Team>,
    pub cards_out: Seq<Card>,
}

pub struct Board {
    list_teams: Vec<Team>,
    list_cards_out: Vec<Card>,
}

impl View for Board {
    type V = BoardView;

    closed spec fn view(&self) -> BoardView {
        BoardView { teams: self.list_teams@, cards_out: self.list_cards_out@ }
    }
}

impl Board {
    /// Every team of the board is well formed.
    pub open spec fn wf(&self) -> bool {
        forall|i: int| 0 <= i < self@.teams.len() ==> #[trigger] self@.teams[i].wf()
    }

    pub fn new() -> (b: Board)
        ensures
            b@.teams.len() == 0,
            b@.cards_out.len() == 0,
            b.wf(),
    {
        Board { list_teams: Vec::new(), list_cards_out: Vec::new() }
    }

    pub fn add_team(&mut self, team: Team)
        ensures
            final(self)@ == (BoardView { teams: old(self)@.teams.push(team), ..old(self)@ }),
            old(self).wf() && team.wf() ==> final(self).wf(),
    {
        self.list_teams.push(team);
        proof {
            assert forall|i: int| 0 <= i < self@.teams.len() && old(self).wf() && team.wf() implies #[trigger] self@.teams[i].wf() by {
                if i < old(self)@.teams.len() {
                    assert(self@.teams[i] == old(self)@.teams[i]);
                }
            }
        }
    }

    pub fn get_number_of_teams(&self) -> (r: usize)
        ensures
            r == self@.teams.len(),
    {
        self.list_teams.len()
    }

    pub fn get_number_of_players_in_team(&self, team_id: usize) -> (r: usize)
        requires
            team_id < self@.teams.len(),
        ensures
            r == self@.teams[team_id as int]@.nb_players,
    {
        self.list_teams[team_id].nb_players
    }

    pub fn get_player(&self, team_id: usize, player_id: usize) -> (r: Option<&Player>)
        requires
            team_id < self@.teams.len(),
        ensures
            player_id < self@.teams[team_id as int]@.players.len() ==> r == Some(
                &self@.teams[team_id as int]@.players[player_id as int],
            ),
            player_id >= self@.teams[team_id as int]@.players.len() ==> r is None,
    {
        let team = &self.list_teams[team_id];
        if player_id < team.list_players.len() {
            Some(&team.list_players[player_id])
        } else {
            None
        }
    }

    pub fn get_score_of_team(&self, team_id: usize) -> (r: usize)
        requires
            team_id < self@.teams.len(),
        ensures
            r == self@.teams[team_id as int]@.score,
    {
        self.list_teams[team_id].score
    }

    pub fn set_score_of_team(&mut self, team_id: usize, score: usize)
        requires
            team_id < old(self)@.teams.len(),
        ensures
            final(self)@.cards_out == old(self)@.cards_out,
            final(self)@.teams.len() == old(self)@.teams.len(),
            final(self)@.teams[team_id as int]@ == (TeamView {
                score,
                ..old(self)@.teams[team_id as int]@
            }),
            forall|i: int|
                0 <= i < old(self)@.teams.len() && i != team_id ==> final(self)@.teams[i]
                    == old(self)@.teams[i],
            old(self).wf() ==> final(self).wf(),
    {
        self.list_teams[team_id].score = score;
        proof {
            assert forall|i: int| 0 <= i < self@.teams.len() && old(self).wf() implies #[trigger] self@.teams[i].wf() by {
                assert(old(self)@.teams[i].wf());
            }
        }
    }

    pub fn add_out_of_game_card(&mut self, card: Card)
        ensures
            final(self)@ == (BoardView { cards_out: old(self)@.cards_out.push(card), ..old(self)@ }),
    {
        self.list_cards_out.push(card);
    }

    pub fn get_number_of_out_of_game_cards(&self) -> (r: usize)
        ensures
            r == self@.cards_out.len(),
    {
        self.list_cards_out.len()
    }

    pub fn get_out_of_game_card(&self, card_index: usize) -> (r: Option<&Card>)
        ensures
            card_index < self@.cards_out.len() ==> r == Some(&self@.cards_out[card_index as int]),
            card_index >= self@.cards_out.len() ==> r is None,
    {
        if card_index < self.list_cards_out.len() {
            Some(&self.list_cards_out[card_index])
        } else {
            None
        }
    }

    /// Adds the player to the team of index `team_id`; does nothing if there is none.
    pub fn add_player_to_team(&mut self, player: Player, team_id: usize)
        ensures
            final(self)@.cards_out == old(self)@.cards_out,
            final(self)@.teams.len() == old(self)@.teams.len(),
            team_id < old(self)@.teams.len() ==> final(self)@.teams[team_id as int]@ == (TeamView {
                nb_players: (old(self)@.teams[team_id as int]@.players.len() + 1) as usize,
                players: old(self)@.teams[team_id as int]@.players.push(player),
                ..old(self)@.teams[team_id as int]@
            }),
            forall|i: int|
                0 <= i < old(self)@.teams.len() && i != team_id ==> final(self)@.teams[i]
                    == old(self)@.teams[i],
            old(self).wf() ==> final(self).wf(),
    {
        if team_id < self.list_teams.len() {
            self.list_teams[team_id].add_player(player);
        }
    }

    /// Drops the out-of-game card at `card_index`; does nothing if there is none.
    pub fn remove_out_of_game_card(&mut self, card_index: usize)
        ensures
            card_index < old(self)@.cards_out.len() ==> final(self)@ == (BoardView {
                cards_out: old(self)@.cards_out.remove(card_index as int),
                ..old(self)@
            }),
            card_index >= old(self)@.cards_out.len() ==> final(self)@ == old(self)@,
    {
        if card_index < self.list_cards_out.len() {
            self.list_cards_out.remove(card_index);
        }
    }
}

} // verus!
