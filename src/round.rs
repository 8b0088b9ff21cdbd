use vstd::prelude::*;
use crate::card::{Card, BLACK, RED};
use crate::player::{Player, PlayerView};

verus! {

/// Outcome bet on a win of the player's team.
pub const VICTOIRE: i32 = 1;

/// Outcome bet on a loss of the player's team.
pub const DEFAITE: i32 = 0;

/// Seats in a round: 0 and 2 form the first team, 1 and 3 the second.
pub const NB_JOUEURS: usize = 4;

/// Sum of the values of the cards.
pub open spec fn sum_values(cards: Seq<Card>) -> nat
    decreases cards.len(),
{
    if cards.len() == 0 {
        0
    } else {
        sum_values(cards.drop_last()) + cards.last()@.value as nat
    }
}

/// Sum of the values of the cards of the given color.
pub open spec fn sum_color(cards: Seq<Card>, color: i32) -> nat
    decreases cards.len(),
{
    if cards.len() == 0 {
        0
    } else {
        sum_color(cards.drop_last(), color) + if cards.last()@.color == color {
            cards.last()@.value as nat
        } else {
            0
        }
    }
}

/// Seats 0 and 2 belong to the first team.
pub open spec fn on_first_team(seat: int) -> bool {
    seat == 0 || seat == 2
}

/// Sum of the values of the cards that a team laid on the table.
pub open spec fn team_total(ps: Seq<Player>, first: bool) -> nat {
    if first {
        sum_values(ps[0]@.played) + sum_values(ps[2]@.played)
    } else {
        sum_values(ps[1]@.played) + sum_values(ps[3]@.played)
    }
}

/// Sum of the values of the cards of one color that a team laid on the table.
pub open spec fn team_color_total(ps: Seq<Player>, first: bool, color: i32) -> nat {
    if first {
        sum_color(ps[0]@.played, color) + sum_color(ps[2]@.played, color)
    } else {
        sum_color(ps[1]@.played, color) + sum_color(ps[3]@.played, color)
    }
}

/// Whether the first team wins the category of a color bet: black and red
/// compare the sums of that color, any other bet compares the sums of all
/// cards. Only a strictly greater sum wins.
pub open spec fn first_team_wins(ps: Seq<Player>, color_bet: i32) -> bool {
    if color_bet == BLACK {
        team_color_total(ps, true, BLACK) > team_color_total(ps, false, BLACK)
    } else if color_bet == RED {
        team_color_total(ps, true, RED) > team_color_total(ps, false, RED)
    } else {
        team_total(ps, true) > team_total(ps, false)
    }
}

/// Whether the team of `seat` wins the category that its player bet on; the
/// second team wins exactly where the first one does not.
pub open spec fn seat_team_wins(ps: Seq<Player>, seat: int) -> bool {
    let first = first_team_wins(ps, ps[seat]@.color_slate);
    if on_first_team(seat) {
        first
    } else {
        !first
    }
}

/// A player wins the round when the outcome bet matches what the team did in
/// the chosen category.
pub open spec fn player_wins(ps: Seq<Player>, seat: int) -> bool {
    (ps[seat]@.slate == VICTOIRE) == seat_team_wins(ps, seat)
}

/// The sums of a round fit in machine integers.
pub open spec fn sums_fit(ps: Seq<Player>) -> bool {
    team_total(ps, true) <= usize::MAX && team_total(ps, false) <= usize::MAX
}

/// Per-color and overall sums of the cards each team laid on the table.
#[derive(Debug, Clone, Copy, PartialEq, Eq, Structural)]
pub struct TeamScores {
    pub black_a: usize,
    pub red_a: usize,
    pub total_a: usize,
    pub black_b: usize,
    pub red_b: usize,
    pub total_b: usize,
}

/// The sums of a round, as `TeamScores` holds them.
pub open spec fn scores_of(ps: Seq<Player>) -> TeamScores {
    TeamScores {
        black_a: team_color_total(ps, true, BLACK) as usize,
        red_a: team_color_total(ps, true, RED) as usize,
        total_a: team_total(ps, true) as usize,
        black_b: team_color_total(ps, false, BLACK) as usize,
        red_b: team_color_total(ps, false, RED) as usize,
        total_b: team_total(ps, false) as usize,
    }
}

/// A prefix never sums to more than the whole, and a color never to more
/// than all colors.
pub proof fn lemma_sum_bounds(cards: Seq<Card>, i: int, color: i32)
    requires
        0 <= i <= cards.len(),
    ensures
        sum_values(cards.take(i)) <= sum_values(cards),
        sum_color(cards, color) <= sum_values(cards),
    decreases cards.len(),
{
    if cards.len() > 0 {
        lemma_sum_bounds(cards.drop_last(), if i == cards.len() { 0 } else { i }, color);
        if i < cards.len() {
            assert(cards.take(i) =~= cards.drop_last().take(i));
        } else {
            assert(cards.take(i) =~= cards);
        }
    }
}

/// The color sums of each team are bounded by its overall sum.
proof fn lemma_team_bounds(ps: Seq<Player>)
    requires
        ps.len() == NB_JOUEURS,
    ensures
        team_color_total(ps, true, BLACK) <= team_total(ps, true),
        team_color_total(ps, true, RED) <= team_total(ps, true),
        team_color_total(ps, false, BLACK) <= team_total(ps, false),
        team_color_total(ps, false, RED) <= team_total(ps, false),
{
    lemma_sum_bounds(ps[0]@.played, 0, BLACK);
    lemma_sum_bounds(ps[1]@.played, 0, BLACK);
    lemma_sum_bounds(ps[2]@.played, 0, BLACK);
    lemma_sum_bounds(ps[3]@.played, 0, BLACK);
    lemma_sum_bounds(ps[0]@.played, 0, RED);
    lemma_sum_bounds(ps[1]@.played, 0, RED);
    lemma_sum_bounds(ps[2]@.played, 0, RED);
    lemma_sum_bounds(ps[3]@.played, 0, RED);
}

/// Sums of black cards, red cards and all cards that the player laid on the table.
fn played_sums(player: &Player) -> (r: (usize, usize, usize))
    requires
        sum_values(player@.played) <= usize::MAX,
    ensures
        r.0 == sum_color(player@.played, BLACK),
        r.1 == sum_color(player@.played, RED),
        r.2 == sum_values(player@.played),
{
    let ghost cards = player@.played;
    let n = player.get_played_size();
    let mut black: usize = 0;
    let mut red: usize = 0;
    let mut total: usize = 0;
    let mut i: usize = 0;
    while i < n
        invariant
            n == cards.len(),
            cards == player@.played,
            sum_values(cards) <= usize::MAX,
            0 <= i <= n,
            black == sum_color(cards.take(i as int), BLACK),
            red == sum_color(cards.take(i as int), RED),
            total == sum_values(cards.take(i as int)),
        decreases n - i,
    {
        let card = player.get_played_card(i).unwrap();
        let value = card.get_value();
        let color = card.get_color();
        proof {
            let next = cards.take(i + 1);
            assert(next.drop_last() =~= cards.take(i as int));
            lemma_sum_bounds(cards, i + 1, BLACK);
            lemma_sum_bounds(next, i as int, BLACK);
            lemma_sum_bounds(next, 0, RED);
        }
        total = total + value;
        if color == BLACK {
            black = black + value;
        } else if color == RED {
            red = red + value;
        }
        i = i + 1;
    }
    proof {
        assert(cards.take(n as int) =~= cards);
    }
    (black, red, total)
}

/// Sums, per team, of the cards laid on the table: black, red and all.
pub fn compute_team_scores(players: &Vec<Player>) -> (r: TeamScores)
    requires
        players@.len() == NB_JOUEURS,
        sums_fit(players@),
    ensures
        r == scores_of(players@),
{
    let ghost ps = players@;
    proof {
        lemma_team_bounds(ps);
    }
    let s0 = played_sums(&players[0]);
    let s1 = played_sums(&players[1]);
    let s2 = played_sums(&players[2]);
    let s3 = played_sums(&players[3]);
    TeamScores {
        black_a: s0.0 + s2.0,
        red_a: s0.1 + s2.1,
        total_a: s0.2 + s2.2,
        black_b: s1.0 + s3.0,
        red_b: s1.1 + s3.1,
        total_b: s1.2 + s3.2,
    }
}


/// Resolution is a function of the cards on the table and the bets alone:
/// two rounds that agree on them give the same sums and the same winners.
pub proof fn lemma_resolution_deterministic(a: Seq<Player>, b: Seq<Player>)
    requires
        a.len() == NB_JOUEURS,
        b.len() == NB_JOUEURS,
        forall|i: int|
            0 <= i < NB_JOUEURS ==> (#[trigger] a[i])@.played == b[i]@.played && a[i]@.slate
                == b[i]@.slate && a[i]@.color_slate == b[i]@.color_slate,
    ensures
        scores_of(a) == scores_of(b),
        forall|i: int| 0 <= i < NB_JOUEURS ==> #[trigger] player_wins(a, i) == player_wins(b, i),
{
    assert(a[0]@.played == b[0]@.played);
    assert(a[1]@.played == b[1]@.played);
    assert(a[2]@.played == b[2]@.played);
    assert(a[3]@.played == b[3]@.played);
}

/// A category goes to the first team only on a strictly greater sum; on equal
/// sums the first team does not win it, and the second team's players count
/// it as won.
pub proof fn lemma_category_rule(ps: Seq<Player>, color_bet: i32)
    requires
        ps.len() == NB_JOUEURS,
    ensures
        color_bet == BLACK ==> (first_team_wins(ps, color_bet) <==> team_color_total(ps, true, BLACK)
            > team_color_total(ps, false, BLACK)),
        color_bet == RED ==> (first_team_wins(ps, color_bet) <==> team_color_total(ps, true, RED)
            > team_color_total(ps, false, RED)),
        color_bet != BLACK && color_bet != RED ==> (first_team_wins(ps, color_bet) <==> team_total(
            ps,
            true,
        ) > team_total(ps, false)),
        color_bet == BLACK && team_color_total(ps, true, BLACK) == team_color_total(ps, false, BLACK)
            ==> !first_team_wins(ps, color_bet),
        color_bet == RED && team_color_total(ps, true, RED) == team_color_total(ps, false, RED)
            ==> !first_team_wins(ps, color_bet),
        color_bet != BLACK && color_bet != RED && team_total(ps, true) == team_total(ps, false)
            ==> !first_team_wins(ps, color_bet),
{
}

/// A player who bets on black: on the first team with a strictly greater
/// black sum, the player wins exactly on a bet on a win; on equal black sums
/// the first team's players count the category as lost and the second
/// team's as won.
pub proof fn lemma_black_bet(ps: Seq<Player>, seat: int)
    requires
        ps.len() == NB_JOUEURS,
        0 <= seat < NB_JOUEURS,
        ps[seat]@.color_slate == BLACK,
    ensures
        on_first_team(seat) && team_color_total(ps, true, BLACK) > team_color_total(ps, false, BLACK)
            ==> (player_wins(ps, seat) <==> ps[seat]@.slate == VICTOIRE),
        team_color_total(ps, true, BLACK) == team_color_total(ps, false, BLACK) ==> seat_team_wins(
            ps,
            seat,
        ) == !on_first_team(seat),
{
}

/// A player who bets on a loss in the sum of all cards wins exactly when the
/// own team's sum is not strictly greater than the other team's. On the
/// second team this holds except on equal sums, which count as won by that
/// team.
pub proof fn lemma_loss_on_all_colors(ps: Seq<Player>, seat: int)
    requires
        ps.len() == NB_JOUEURS,
        0 <= seat < NB_JOUEURS,
        ps[seat]@.slate == DEFAITE,
        ps[seat]@.color_slate != BLACK,
        ps[seat]@.color_slate != RED,
        on_first_team(seat) || team_total(ps, true) != team_total(ps, false),
    ensures
        player_wins(ps, seat) <==> !(team_total(ps, on_first_team(seat)) > team_total(
            ps,
            !on_first_team(seat),
        )),
{
}

/// The player after the bookkeeping of a resolved round: round score cleared,
/// winner flag set from the bets.
pub open spec fn marked(ps: Seq<Player>, seat: int) -> PlayerView {
    PlayerView { score: 0, winner: if player_wins(ps, seat) { 1 } else { 0 }, ..ps[seat]@ }
}

/// Resolves a round: computes the sums of each team, clears every round
/// score, and marks as winner each player whose bets came true.
pub fn definir_gagnant_tour(players: &mut Vec<Player>) -> (r: TeamScores)
    requires
        old(players)@.len() == NB_JOUEURS,
        sums_fit(old(players)@),
    ensures
        r == scores_of(old(players)@),
        final(players)@.len() == NB_JOUEURS,
        forall|i: int| 0 <= i < NB_JOUEURS ==> #[trigger] final(players)@[i]@ == marked(old(players)@, i),
{
    let ghost ps = players@;
    let scores = compute_team_scores(players);
    proof {
        lemma_team_bounds(ps);
    }
    let team_1_wins_black = scores.black_a > scores.black_b;
    let team_1_wins_red = scores.red_a > scores.red_b;
    let team_1_wins_multicolor = scores.total_a > scores.total_b;
    let mut i: usize = 0;
    while i < NB_JOUEURS
        invariant
            players@.len() == NB_JOUEURS,
            ps.len() == NB_JOUEURS,
            scores == scores_of(ps),
            team_1_wins_black == first_team_wins(ps, BLACK),
            team_1_wins_red == first_team_wins(ps, RED),
            team_1_wins_multicolor == first_team_wins(ps, crate::card::MULTICOLOR),
            0 <= i <= NB_JOUEURS,
            forall|j: int| 0 <= j < i ==> #[trigger] players@[j]@ == marked(ps, j),
            forall|j: int| i <= j < NB_JOUEURS ==> #[trigger] players@[j] == ps[j],
        decreases NB_JOUEURS - i,
    {
        let is_team_1 = i == 0 || i == 2;
        let predicted_win = players[i].get_slate() == VICTOIRE;
        let color_choice = players[i].get_color_slate();
        let category_won = if color_choice == BLACK {
            team_1_wins_black
        } else if color_choice == RED {
            team_1_wins_red
        } else {
            team_1_wins_multicolor
        };
        let team_wins = if is_team_1 {
            category_won
        } else {
            !category_won
        };
        let player_won = predicted_win == team_wins;
        assert(player_won == player_wins(ps, i as int));
        players[i].set_score(0);
        players[i].set_winner(if player_won { 1 } else { 0 });
        i = i + 1;
    }
    scores
}

/// The player after the stake of the round is settled.
pub open spec fn settled(p: PlayerView) -> PlayerView {
    PlayerView {
        chips: if p.winner == 1 {
            (p.chips + 2 * p.played_chips) as usize
        } else {
            p.chips
        },
        played_chips: 0,
        ..p
    }
}

/// A winner's balance and doubled stake fit in a machine integer.
pub open spec fn payout_fits(p: PlayerView) -> bool {
    p.winner == 1 ==> p.chips + 2 * p.played_chips <= usize::MAX
}

/// Settling twice is settling once: the first settlement empties the stake,
/// so the second pays nothing and changes nothing.
pub proof fn lemma_settlement_idempotent(p: PlayerView)
    requires
        payout_fits(p),
    ensures
        settled(p).played_chips == 0,
        payout_fits(settled(p)),
        settled(settled(p)) == settled(p),
{
}

/// Settles the stakes of all players: each winner gets twice the stake, and
/// every stake is emptied.
pub fn attribuer_jetons(players: &mut Vec<Player>)
    requires
        forall|i: int| 0 <= i < old(players)@.len() ==> payout_fits(#[trigger] old(players)@[i]@),
    ensures
        final(players)@.len() == old(players)@.len(),
        forall|i: int|
            0 <= i < old(players)@.len() ==> #[trigger] final(players)@[i]@ == settled(
                old(players)@[i]@,
            ),
        forall|i: int| 0 <= i < old(players)@.len() ==> #[trigger] final(players)@[i]@.played_chips == 0,
{
    let ghost ps = players@;
    let n = players.len();
    let mut i: usize = 0;
    while i < n
        invariant
            n == ps.len(),
            players@.len() == n,
            forall|j: int| 0 <= j < n ==> payout_fits(#[trigger] ps[j]@),
            0 <= i <= n,
            forall|j: int| 0 <= j < i ==> #[trigger] players@[j]@ == settled(ps[j]@),
            forall|j: int| i <= j < n ==> #[trigger] players@[j] == ps[j],
        decreases n - i,
    {
        let won = players[i].get_winner() == 1;
        players[i].settle_round(won);
        i = i + 1;
    }
    assert forall|j: int| 0 <= j < n implies #[trigger] players@[j]@.played_chips == 0 by {
        assert(players@[j]@ == settled(ps[j]@));
    }
}

} // verus!
