use vstd::prelude::*;
use crate::board::{Board, BoardView, Team, TeamView};
use crate::card::Card;
use crate::player::{PlayError, Player, PlayerView};
use crate::round::{
    attribuer_jetons, definir_gagnant_tour, marked, payout_fits, scores_of, settled, sums_fit,
    TeamScores, NB_JOUEURS,
};

verus! {

/// Chips each player receives at the start of the game.
pub const NB_JETONS: usize = 20;

/// The cards in reverse order.
pub open spec fn reversed(s: Seq<Card>) -> Seq<Card>
    decreases s.len(),
{
    if s.len() == 0 {
        Seq::empty()
    } else {
        reversed(s.drop_first()).push(s[0])
    }
}

/// The cards that leave the table at the end of a round, in the order they
/// reach the board: player by player, each player's cards from the last laid.
pub open spec fn retired(ps: Seq<Player>) -> Seq<Card>
    decreases ps.len(),
{
    if ps.len() == 0 {
        Seq::empty()
    } else {
        retired(ps.drop_last()) + reversed(ps.last()@.played)
    }
}

/// Number of cards the players hold, in hand and on the table.
pub open spec fn held_count(ps: Seq<Player>) -> nat
    decreases ps.len(),
{
    if ps.len() == 0 {
        0
    } else {
        held_count(ps.drop_last()) + ps.last()@.hand.len() + ps.last()@.played.len()
    }
}

/// Number of cards the players have on the table.
pub open spec fn played_count(ps: Seq<Player>) -> nat
    decreases ps.len(),
{
    if ps.len() == 0 {
        0
    } else {
        played_count(ps.drop_last()) + ps.last()@.played.len()
    }
}

/// The cards the players hold, player by player: hand, then table.
pub open spec fn held_cards(ps: Seq<Player>) -> Seq<Card>
    decreases ps.len(),
{
    if ps.len() == 0 {
        Seq::empty()
    } else {
        held_cards(ps.drop_last()) + ps.last()@.hand + ps.last()@.played
    }
}

/// Every card in the game: out of the game, then those the players hold.
pub open spec fn all_cards(b: BoardView, ps: Seq<Player>) -> Seq<Card> {
    b.cards_out + held_cards(ps)
}

/// Number of cards in the game: out of the game, in hand and on the table.
pub open spec fn cards_in_game(b: BoardView, ps: Seq<Player>) -> nat {
    b.cards_out.len() + held_count(ps)
}

/// Chips of a team: the balances of its two players.
pub open spec fn team_chips(ps: Seq<Player>, first: bool) -> nat {
    if first {
        (ps[0]@.chips + ps[2]@.chips) as nat
    } else {
        (ps[1]@.chips + ps[3]@.chips) as nat
    }
}

/// The player at the end of a round: stake settled, table cleared.
pub open spec fn after_round(ps: Seq<Player>, seat: int) -> PlayerView {
    PlayerView { played: Seq::empty(), ..settled(marked(ps, seat)) }
}

/// A round can be concluded within machine integers: sums of cards, and the
/// balances of each team with every stake paid twice.
pub open spec fn round_fits(ps: Seq<Player>) -> bool {
    &&& ps.len() == NB_JOUEURS
    &&& sums_fit(ps)
    &&& ps[0]@.chips + 2 * ps[0]@.played_chips + ps[2]@.chips + 2 * ps[2]@.played_chips
        <= usize::MAX
    &&& ps[1]@.chips + 2 * ps[1]@.played_chips + ps[3]@.chips + 2 * ps[3]@.played_chips
        <= usize::MAX
}

proof fn lemma_reversed_len(s: Seq<Card>)
    ensures
        reversed(s).len() == s.len(),
    decreases s.len(),
{
    if s.len() > 0 {
        lemma_reversed_len(s.drop_first());
    }
}

proof fn lemma_retired_len(ps: Seq<Player>)
    ensures
        retired(ps).len() == played_count(ps),
    decreases ps.len(),
{
    if ps.len() > 0 {
        lemma_retired_len(ps.drop_last());
        lemma_reversed_len(ps.last()@.played);
    }
}

/// Players whose hands have the same sizes: the cards they hold differ by
/// what they have on the table.
proof fn lemma_counts_shift(a: Seq<Player>, b: Seq<Player>)
    requires
        a.len() == b.len(),
        forall|i: int| 0 <= i < a.len() ==> (#[trigger] a[i])@.hand.len() == b[i]@.hand.len(),
    ensures
        held_count(a) + played_count(b) == held_count(b) + played_count(a),
    decreases a.len(),
{
    if a.len() > 0 {
        lemma_counts_shift(a.drop_last(), b.drop_last());
    }
}

proof fn lemma_reversed_multiset(s: Seq<Card>)
    ensures
        reversed(s).to_multiset() =~= s.to_multiset(),
    decreases s.len(),
{
    broadcast use vstd::seq_lib::group_to_multiset_ensures, vstd::multiset::group_multiset_axioms;
    if s.len() > 0 {
        lemma_reversed_multiset(s.drop_first());
        let one = Seq::<Card>::empty().push(s[0]);
        assert(s =~= one + s.drop_first());
        vstd::seq_lib::lemma_multiset_commutative(one, s.drop_first());
        assert(Seq::<Card>::empty().to_multiset().len() == 0);
        assert(Seq::<Card>::empty().to_multiset() =~= vstd::multiset::Multiset::empty());
    }
}

/// Players with the same hands: the cards the first ones hold are those the
/// others hold and those the first ones retire from the table.
proof fn lemma_held_cards_shift(a: Seq<Player>, b: Seq<Player>)
    requires
        a.len() == b.len(),
        forall|i: int| 0 <= i < a.len() ==> (#[trigger] a[i])@.hand == b[i]@.hand,
        forall|i: int| 0 <= i < b.len() ==> (#[trigger] b[i])@.played.len() == 0,
    ensures
        held_cards(a).to_multiset() =~= held_cards(b).to_multiset().add(retired(a).to_multiset()),
    decreases a.len(),
{
    broadcast use vstd::seq_lib::group_to_multiset_ensures, vstd::multiset::group_multiset_axioms;
    if a.len() > 0 {
        let (a1, b1) = (a.drop_last(), b.drop_last());
        lemma_held_cards_shift(a1, b1);
        let h = a.last()@.hand;
        let p = a.last()@.played;
        assert(b.last()@.played =~= Seq::<Card>::empty());
        assert(held_cards(b) =~= held_cards(b1) + h);
        lemma_reversed_multiset(p);
        vstd::seq_lib::lemma_multiset_commutative(held_cards(a1) + h, p);
        vstd::seq_lib::lemma_multiset_commutative(held_cards(a1), h);
        vstd::seq_lib::lemma_multiset_commutative(held_cards(b1), h);
        vstd::seq_lib::lemma_multiset_commutative(retired(a1), reversed(p));
    }
}

/// What leaves the table depends on the cards on the table alone.
proof fn lemma_retired_same_tables(a: Seq<Player>, b: Seq<Player>)
    requires
        a.len() == b.len(),
        forall|i: int| 0 <= i < a.len() ==> (#[trigger] a[i])@.played == b[i]@.played,
    ensures
        retired(a) == retired(b),
    decreases a.len(),
{
    if a.len() > 0 {
        lemma_retired_same_tables(a.drop_last(), b.drop_last());
    }
}

proof fn lemma_played_count_empty(ps: Seq<Player>)
    requires
        forall|i: int| 0 <= i < ps.len() ==> (#[trigger] ps[i])@.played.len() == 0,
    ensures
        played_count(ps) == 0,
    decreases ps.len(),
{
    if ps.len() > 0 {
        lemma_played_count_empty(ps.drop_last());
    }
}

/// Cards are neither lost nor made: replacing one player by another who
/// holds as many cards, in hand and on the table together (as after
/// `placer_carte`), keeps the number of cards in the game.
pub proof fn lemma_seat_update_keeps_count(b: BoardView, ps: Seq<Player>, seat: int, p: Player)
    requires
        0 <= seat < ps.len(),
        p@.hand.len() + p@.played.len() == ps[seat]@.hand.len() + ps[seat]@.played.len(),
    ensures
        cards_in_game(b, ps.update(seat, p)) == cards_in_game(b, ps),
{
    lemma_held_update(ps, seat, p);
}

proof fn lemma_held_update(ps: Seq<Player>, seat: int, p: Player)
    requires
        0 <= seat < ps.len(),
        p@.hand.len() + p@.played.len() == ps[seat]@.hand.len() + ps[seat]@.played.len(),
    ensures
        held_count(ps.update(seat, p)) == held_count(ps),
    decreases ps.len(),
{
    let up = ps.update(seat, p);
    if seat < ps.len() - 1 {
        assert(up.drop_last() =~= ps.drop_last().update(seat, p));
        lemma_held_update(ps.drop_last(), seat, p);
    } else {
        assert(up.drop_last() =~= ps.drop_last());
    }
}

/// Cards are neither lost nor made, nor exchanged for others: replacing one
/// player by another who holds the same cards, in hand and on the table
/// together (as after `placer_carte`), keeps the cards in the game.
pub proof fn lemma_seat_update_keeps_cards(b: BoardView, ps: Seq<Player>, seat: int, p: Player)
    requires
        0 <= seat < ps.len(),
        (p@.hand + p@.played).to_multiset() == (ps[seat]@.hand + ps[seat]@.played).to_multiset(),
    ensures
        all_cards(b, ps.update(seat, p)).to_multiset() == all_cards(b, ps).to_multiset(),
{
    broadcast use vstd::multiset::group_multiset_axioms;
    lemma_held_cards_update(ps, seat, p);
    vstd::seq_lib::lemma_multiset_commutative(b.cards_out, held_cards(ps.update(seat, p)));
    vstd::seq_lib::lemma_multiset_commutative(b.cards_out, held_cards(ps));
}

proof fn lemma_held_cards_update(ps: Seq<Player>, seat: int, p: Player)
    requires
        0 <= seat < ps.len(),
        (p@.hand + p@.played).to_multiset() == (ps[seat]@.hand + ps[seat]@.played).to_multiset(),
    ensures
        held_cards(ps.update(seat, p)).to_multiset() == held_cards(ps).to_multiset(),
    decreases ps.len(),
{
    broadcast use vstd::multiset::group_multiset_axioms;
    let up = ps.update(seat, p);
    let rest = ps.drop_last();
    let q = ps.last();
    if seat < ps.len() - 1 {
        assert(up.drop_last() =~= rest.update(seat, p));
        lemma_held_cards_update(rest, seat, p);
        assert(held_cards(up) =~= held_cards(rest.update(seat, p)) + q@.hand + q@.played);
        assert(held_cards(up) =~= held_cards(rest.update(seat, p)) + (q@.hand + q@.played));
        assert(held_cards(ps) =~= held_cards(rest) + (q@.hand + q@.played));
        vstd::seq_lib::lemma_multiset_commutative(held_cards(rest.update(seat, p)), q@.hand + q@.played);
        vstd::seq_lib::lemma_multiset_commutative(held_cards(rest), q@.hand + q@.played);
    } else {
        assert(up.drop_last() =~= rest);
        assert(held_cards(up) =~= held_cards(rest) + (p@.hand + p@.played));
        assert(held_cards(ps) =~= held_cards(rest) + (q@.hand + q@.played));
        vstd::seq_lib::lemma_multiset_commutative(held_cards(rest), p@.hand + p@.played);
        vstd::seq_lib::lemma_multiset_commutative(held_cards(rest), q@.hand + q@.played);
    }
}

/// Number of cards the four seats hold.
pub proof fn lemma_held_count_seats(ps: Seq<Player>)
    requires
        ps.len() == NB_JOUEURS,
    ensures
        held_count(ps) == ps[0]@.hand.len() + ps[0]@.played.len() + ps[1]@.hand.len()
            + ps[1]@.played.len() + ps[2]@.hand.len() + ps[2]@.played.len() + ps[3]@.hand.len()
            + ps[3]@.played.len(),
{
    reveal_with_fuel(held_count, 5);
    assert(ps.drop_last().drop_last().drop_last().drop_last() =~= Seq::<Player>::empty());
}

/// Forms the two teams on a new board: seats 0 and 2 join the first team,
/// seats 1 and 3 the second. The board receives copies of the players.
pub fn initialiser_jeu(plateau_jeu: &mut Board, players: &Vec<Player>)
    requires
        old(plateau_jeu)@.teams.len() == 0,
        players@.len() == NB_JOUEURS,
    ensures
        final(plateau_jeu)@.cards_out == old(plateau_jeu)@.cards_out,
        final(plateau_jeu)@.teams.len() == 2,
        final(plateau_jeu)@.teams[0]@.id == 0,
        final(plateau_jeu)@.teams[0]@.score == 0,
        final(plateau_jeu)@.teams[0]@.nb_players == 2,
        final(plateau_jeu)@.teams[0]@.players.len() == 2,
        final(plateau_jeu)@.teams[0]@.players[0]@ == players@[0]@,
        final(plateau_jeu)@.teams[0]@.players[1]@ == players@[2]@,
        final(plateau_jeu)@.teams[1]@.id == 1,
        final(plateau_jeu)@.teams[1]@.score == 0,
        final(plateau_jeu)@.teams[1]@.nb_players == 2,
        final(plateau_jeu)@.teams[1]@.players.len() == 2,
        final(plateau_jeu)@.teams[1]@.players[0]@ == players@[1]@,
        final(plateau_jeu)@.teams[1]@.players[1]@ == players@[3]@,
        final(plateau_jeu).wf(),
{
    plateau_jeu.add_team(Team::new(0));
    plateau_jeu.add_team(Team::new(1));
    proof {
        assert(plateau_jeu.wf());
    }
    let p0 = players[0].duplicate();
    let p1 = players[1].duplicate();
    let p2 = players[2].duplicate();
    let p3 = players[3].duplicate();
    plateau_jeu.add_player_to_team(p0, 0);
    plateau_jeu.add_player_to_team(p1, 1);
    plateau_jeu.add_player_to_team(p2, 0);
    plateau_jeu.add_player_to_team(p3, 1);
}

/// Gives each of the four seats the chips of the start of the game; any
/// player past the fourth seat is left as it is.
pub fn distribuer_jetons(players: &mut Vec<Player>)
    requires
        old(players)@.len() >= NB_JOUEURS,
    ensures
        final(players)@.len() == old(players)@.len(),
        forall|i: int|
            0 <= i < NB_JOUEURS ==> #[trigger] final(players)@[i]@ == (PlayerView {
                chips: NB_JETONS,
                ..old(players)@[i]@
            }),
        forall|i: int|
            NB_JOUEURS <= i < old(players)@.len() ==> #[trigger] final(players)@[i] == old(
                players,
            )@[i],
{
    let ghost ps = players@;
    let mut i: usize = 0;
    while i < NB_JOUEURS
        invariant
            players@.len() == ps.len(),
            ps.len() >= NB_JOUEURS,
            0 <= i <= NB_JOUEURS,
            forall|j: int|
                0 <= j < i ==> #[trigger] players@[j]@ == (PlayerView { chips: NB_JETONS, ..ps[j]@ }),
            forall|j: int| i <= j < ps.len() ==> #[trigger] players@[j] == ps[j],
        decreases NB_JOUEURS - i,
    {
        players[i].set_chips(NB_JETONS);
        i = i + 1;
    }
}

/// The team with the highest score at the end of the game, as
/// `(team index, score, tie)`: the first team that reaches the highest score,
/// and whether another team has that score too. `None` on a board without
/// teams.
pub fn equipe_gagnante(b: &Board) -> (r: Option<(usize, usize, bool)>)
    ensures
        r is None <==> b@.teams.len() == 0,
        r matches Some((w, best, tie)) ==> {
            &&& w < b@.teams.len()
            &&& best == b@.teams[w as int]@.score
            &&& forall|i: int| 0 <= i < b@.teams.len() ==> #[trigger] b@.teams[i]@.score <= best
            &&& forall|i: int| 0 <= i < w ==> #[trigger] b@.teams[i]@.score < best
            &&& tie <==> exists|i: int|
                0 <= i < b@.teams.len() && i != w && #[trigger] b@.teams[i]@.score == best
        },
{
    let num_teams = b.get_number_of_teams();
    if num_teams == 0 {
        return None;
    }
    let mut winning_team: usize = 0;
    let mut highest_score = b.get_score_of_team(0);
    let mut tie = false;
    let mut team_id: usize = 1;
    while team_id < num_teams
        invariant
            num_teams == b@.teams.len(),
            1 <= team_id <= num_teams,
            winning_team < team_id,
            highest_score == b@.teams[winning_team as int]@.score,
            forall|i: int| 0 <= i < team_id ==> #[trigger] b@.teams[i]@.score <= highest_score,
            forall|i: int| 0 <= i < winning_team ==> #[trigger] b@.teams[i]@.score < highest_score,
            tie <==> exists|i: int|
                0 <= i < team_id && i != winning_team && #[trigger] b@.teams[i]@.score
                    == highest_score,
        decreases num_teams - team_id,
    {
        let team_score = b.get_score_of_team(team_id);
        if team_score > highest_score {
            highest_score = team_score;
            winning_team = team_id;
            tie = false;
        } else if team_score == highest_score {
            tie = true;
        }
        team_id = team_id + 1;
    }
    Some((winning_team, highest_score, tie))
}

/// Chips of each team, first and second.
pub fn jetons_des_equipes(players: &Vec<Player>) -> (r: (usize, usize))
    requires
        players@.len() == NB_JOUEURS,
        team_chips(players@, true) <= usize::MAX,
        team_chips(players@, false) <= usize::MAX,
    ensures
        r.0 == team_chips(players@, true),
        r.1 == team_chips(players@, false),
{
    let first = players[0].get_chips() + players[2].get_chips();
    let second = players[1].get_chips() + players[3].get_chips();
    (first, second)
}

/// Most cards a player lays on the table in one round.
pub const MAX_CARTES_PAR_TOUR: i32 = 2;

/// Whether a player with `taille_main` cards in hand may choose to lay
/// `nombre` cards this round: one or two, and two only with two in hand.
pub fn nombre_de_cartes_autorise(taille_main: usize, nombre: i32) -> (r: bool)
    ensures
        r == (1 <= nombre <= MAX_CARTES_PAR_TOUR && (nombre < MAX_CARTES_PAR_TOUR || taille_main
            >= MAX_CARTES_PAR_TOUR)),
{
    1 <= nombre && nombre <= MAX_CARTES_PAR_TOUR && (nombre < MAX_CARTES_PAR_TOUR || taille_main
        >= MAX_CARTES_PAR_TOUR as usize)
}

/// Plays the card at `card_index` of the player's hand, and adds its value
/// to the player's round score.
pub fn placer_carte(player: &mut Player, card_index: usize) -> (r: Result<(), PlayError>)
    requires
        card_index < old(player)@.hand.len() ==> old(player)@.score + old(
            player,
        )@.hand[card_index as int]@.value <= usize::MAX,
    ensures
        r is Ok <==> (old(player)@.played.len() < crate::player::MAX_PLAYED_SIZE && card_index
            < old(player)@.hand.len()),
        old(player)@.played.len() >= crate::player::MAX_PLAYED_SIZE ==> r == Err::<(), PlayError>(
            PlayError::TableFull,
        ),
        old(player)@.played.len() < crate::player::MAX_PLAYED_SIZE && card_index >= old(
            player,
        )@.hand.len() ==> r == Err::<(), PlayError>(PlayError::OutOfRange),
        r is Err ==> final(player)@ == old(player)@,
        r is Ok ==> final(player)@ == (PlayerView {
            hand: old(player)@.hand.remove(card_index as int),
            played: old(player)@.played.push(old(player)@.hand[card_index as int]),
            score: (old(player)@.score + old(player)@.hand[card_index as int]@.value) as usize,
            ..old(player)@
        }),
        final(player)@.hand.len() + final(player)@.played.len() == old(player)@.hand.len()
            + old(player)@.played.len(),
        (final(player)@.hand + final(player)@.played).to_multiset() == (old(player)@.hand + old(
            player,
        )@.played).to_multiset(),
{
    let ghost before = player@;
    let r = player.play_card(card_index);
    proof {
        broadcast use vstd::seq_lib::group_to_multiset_ensures, vstd::multiset::group_multiset_axioms;
        let after = player@;
        vstd::seq_lib::lemma_multiset_commutative(after.hand, after.played);
        vstd::seq_lib::lemma_multiset_commutative(before.hand, before.played);
        if r.is_ok() {
            let x = before.hand[card_index as int];
            assert(before.hand.to_multiset().remove(x).insert(x) =~= before.hand.to_multiset());
        }
    }
    if r.is_ok() {
        let last = player.get_played_size() - 1;
        let card_value = player.get_played_card(last).unwrap().get_value();
        player.set_score(player.get_score() + card_value);
    }
    r
}

/// Moves every card on the table to the board, player by player, each
/// player's cards from the last laid to the first.
pub fn retirer_cartes_jouees(board: &mut Board, players: &mut Vec<Player>)
    ensures
        final(board)@ == (BoardView {
            cards_out: old(board)@.cards_out + retired(old(players)@),
            ..old(board)@
        }),
        final(players)@.len() == old(players)@.len(),
        forall|i: int|
            0 <= i < old(players)@.len() ==> #[trigger] final(players)@[i]@ == (PlayerView {
                played: Seq::empty(),
                ..old(players)@[i]@
            }),
{
    let ghost ps = players@;
    let ghost base = board@;
    let n = players.len();
    let mut i: usize = 0;
    while i < n
        invariant
            n == ps.len(),
            players@.len() == n,
            0 <= i <= n,
            board@ == (BoardView { cards_out: base.cards_out + retired(ps.take(i as int)), ..base }),
            forall|j: int|
                0 <= j < i ==> #[trigger] players@[j]@ == (PlayerView {
                    played: Seq::empty(),
                    ..ps[j]@
                }),
            forall|j: int| i <= j < n ==> #[trigger] players@[j] == ps[j],
        decreases n - i,
    {
        let ghost cards = ps[i as int]@.played;
        let ghost out_i = board@.cards_out;
        let nb_card = players[i].get_played_size();
        let mut k: usize = nb_card;
        proof {
            assert(cards.take(nb_card as int) =~= cards);
            assert(cards.subrange(nb_card as int, nb_card as int) =~= Seq::<Card>::empty());
            assert(out_i + reversed(Seq::<Card>::empty()) =~= out_i);
        }
        while k > 0
            invariant
                n == ps.len(),
                players@.len() == n,
                0 <= i < n,
                0 <= k <= nb_card,
                nb_card == cards.len(),
                cards == ps[i as int]@.played,
                players@[i as int]@ == (PlayerView { played: cards.take(k as int), ..ps[i as int]@ }),
                board@ == (BoardView {
                    cards_out: out_i + reversed(cards.subrange(k as int, nb_card as int)),
                    ..base
                }),
                forall|j: int|
                    0 <= j < i ==> #[trigger] players@[j]@ == (PlayerView {
                        played: Seq::empty(),
                        ..ps[j]@
                    }),
                forall|j: int| i < j < n ==> #[trigger] players@[j] == ps[j],
            decreases k,
        {
            let card = *players[i].get_played_card(k - 1).unwrap();
            board.add_out_of_game_card(card);
            players[i].remove_played_card(k - 1);
            proof {
                let tail = cards.subrange(k - 1, nb_card as int);
                assert(tail.drop_first() =~= cards.subrange(k as int, nb_card as int));
                assert(cards.take(k as int).remove(k - 1) =~= cards.take(k - 1));
                assert(board@.cards_out =~= out_i + reversed(tail));
            }
            k = k - 1;
        }
        proof {
            assert(cards.subrange(0, nb_card as int) =~= cards);
            assert(cards.take(0) =~= Seq::<Card>::empty());
            assert(ps.take(i + 1).drop_last() =~= ps.take(i as int));
            assert(board@.cards_out =~= base.cards_out + retired(ps.take(i + 1)));
        }
        i = i + 1;
    }
    proof {
        assert(ps.take(n as int) =~= ps);
    }
}

/// Concludes a round once the cards are on the table: resolves it, settles
/// the stakes, sets each team's score to its chips, and moves the cards on
/// the table to the board. Returns the sums of the round.
pub fn conclure_tour(board: &mut Board, players: &mut Vec<Player>) -> (r: TeamScores)
    requires
        old(board)@.teams.len() >= 2,
        round_fits(old(players)@),
    ensures
        r == scores_of(old(players)@),
        final(players)@.len() == NB_JOUEURS,
        forall|i: int|
            0 <= i < NB_JOUEURS ==> #[trigger] final(players)@[i]@ == after_round(old(players)@, i),
        final(board)@.cards_out == old(board)@.cards_out + retired(old(players)@),
        final(board)@.teams.len() == old(board)@.teams.len(),
        final(board)@.teams[0]@ == (TeamView {
            score: team_chips(final(players)@, true) as usize,
            ..old(board)@.teams[0]@
        }),
        final(board)@.teams[1]@ == (TeamView {
            score: team_chips(final(players)@, false) as usize,
            ..old(board)@.teams[1]@
        }),
        forall|i: int|
            2 <= i < old(board)@.teams.len() ==> #[trigger] final(board)@.teams[i]
                == old(board)@.teams[i],
        cards_in_game(final(board)@, final(players)@) == cards_in_game(old(board)@, old(players)@),
        all_cards(final(board)@, final(players)@).to_multiset() == all_cards(
            old(board)@,
            old(players)@,
        ).to_multiset(),
{
    let ghost ps = players@;
    let scores = definir_gagnant_tour(players);
    let ghost marked_ps = players@;
    assert forall|i: int| 0 <= i < NB_JOUEURS implies payout_fits(#[trigger] marked_ps[i]@) by {
        assert(marked_ps[i]@ == marked(ps, i));
    }
    attribuer_jetons(players);
    let ghost settled_ps = players@;
    assert forall|i: int| 0 <= i < NB_JOUEURS implies #[trigger] settled_ps[i]@ == settled(
        marked(ps, i),
    ) by {
        assert(marked_ps[i]@ == marked(ps, i));
    }
    let (first, second) = jetons_des_equipes(players);
    board.set_score_of_team(0, first);
    board.set_score_of_team(1, second);
    proof {
        assert forall|i: int| 0 <= i < NB_JOUEURS implies (#[trigger] ps[i])@.played
            == settled_ps[i]@.played by {}
        lemma_retired_same_tables(ps, settled_ps);
    }
    retirer_cartes_jouees(board, players);
    proof {
        let fin = players@;
        assert forall|i: int| 0 <= i < NB_JOUEURS implies #[trigger] fin[i]@ == after_round(ps, i) by {
            assert(fin[i]@ == (PlayerView { played: Seq::empty(), ..settled_ps[i]@ }));
        }
        assert(team_chips(fin, true) == team_chips(settled_ps, true));
        assert(team_chips(fin, false) == team_chips(settled_ps, false));
        assert forall|i: int| 0 <= i < NB_JOUEURS implies (#[trigger] ps[i])@.hand.len()
            == fin[i]@.hand.len() by {
            assert(fin[i]@ == after_round(ps, i));
        }
        lemma_counts_shift(ps, fin);
        lemma_played_count_empty(fin);
        lemma_retired_len(ps);
        assert forall|i: int| 0 <= i < NB_JOUEURS implies (#[trigger] ps[i])@.hand == fin[i]@.hand
            by {
            assert(fin[i]@ == after_round(ps, i));
        }
        assert forall|i: int| 0 <= i < NB_JOUEURS implies (#[trigger] fin[i])@.played.len() == 0
            by {
            assert(fin[i]@ == after_round(ps, i));
        }
        lemma_held_cards_shift(ps, fin);
        let out0 = old(board)@.cards_out;
        let rt = retired(ps);
        vstd::seq_lib::lemma_multiset_commutative(out0, held_cards(ps));
        vstd::seq_lib::lemma_multiset_commutative(out0 + rt, held_cards(fin));
        vstd::seq_lib::lemma_multiset_commutative(out0, rt);
        assert(all_cards(board@, fin).to_multiset() =~= all_cards(old(board)@, ps).to_multiset())
            by {
            broadcast use vstd::multiset::group_multiset_axioms;
        }
    }
    scores
}

} // verus!
