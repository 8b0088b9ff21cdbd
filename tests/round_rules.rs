use poker_universel::board::{Board, Team};
use poker_universel::card::{Card, BLACK, MULTICOLOR, RED};
use poker_universel::deck::{
    distribuer_cartes, distribuer_paquet, melanger_paquet, melanger_selon, nouveau_paquet,
    TAILLE_PAQUET,
};
use poker_universel::game::{
    conclure_tour, distribuer_jetons, initialiser_jeu, jetons_des_equipes, nombre_de_cartes_autorise,
    placer_carte,
    retirer_cartes_jouees,
};
use poker_universel::player::Player;
use poker_universel::round::{
    attribuer_jetons, compute_team_scores, definir_gagnant_tour, TeamScores, DEFAITE, VICTOIRE,
};

fn four_players() -> Vec<Player> {
    (1..5).map(Player::new).collect()
}

/// Gives the player the cards and lays them all on the table.
fn lay(p: &mut Player, cards: &[(usize, usize, i32)]) {
    for &(id, value, color) in cards {
        assert!(p.add_card_to_hand(Card::new(id, value, color)));
        let last = p.get_size_of_hand() - 1;
        p.play_card(last).unwrap();
    }
}

fn bet(p: &mut Player, outcome: i32, color: i32) {
    p.set_slate(outcome);
    p.set_color_slate(color);
}

/// First team: Black 3 and Red 2; second team: Black 1 and Red 4.
fn example_round() -> Vec<Player> {
    let mut ps = four_players();
    lay(&mut ps[0], &[(0, 3, BLACK)]);
    lay(&mut ps[2], &[(1, 2, RED)]);
    lay(&mut ps[1], &[(2, 1, BLACK)]);
    lay(&mut ps[3], &[(3, 4, RED)]);
    ps
}

#[test]
fn example_category_sums() {
    let ps = example_round();
    let s = compute_team_scores(&ps);
    assert_eq!(
        s,
        TeamScores { black_a: 3, red_a: 2, total_a: 5, black_b: 1, red_b: 4, total_b: 5 }
    );
}

#[test]
fn example_winners() {
    let mut ps = example_round();
    bet(&mut ps[0], VICTOIRE, BLACK);
    bet(&mut ps[1], VICTOIRE, MULTICOLOR);
    bet(&mut ps[2], VICTOIRE, RED);
    bet(&mut ps[3], DEFAITE, RED);
    ps[0].set_score(7);
    ps[0].set_winner(1);
    ps[2].set_winner(1);
    let s = definir_gagnant_tour(&mut ps);
    assert_eq!(s.total_a, 5);
    assert_eq!(s.total_b, 5);
    // black goes to the first team
    assert_eq!(ps[0].get_winner(), 1);
    // equal sums count as won by the second team
    assert_eq!(ps[1].get_winner(), 1);
    // red goes to the second team
    assert_eq!(ps[2].get_winner(), 0);
    assert_eq!(ps[3].get_winner(), 0);
    for p in &ps {
        assert_eq!(p.get_score(), 0);
    }
    // the cards stay on the table
    assert_eq!(ps[0].get_played_size(), 1);
}

#[test]
fn resolution_is_deterministic() {
    let mut a = example_round();
    bet(&mut a[0], DEFAITE, RED);
    bet(&mut a[1], VICTOIRE, BLACK);
    bet(&mut a[2], VICTOIRE, MULTICOLOR);
    bet(&mut a[3], DEFAITE, MULTICOLOR);
    let mut b: Vec<Player> = a.iter().map(|p| p.duplicate()).collect();
    let sa = definir_gagnant_tour(&mut a);
    let sb = definir_gagnant_tour(&mut b);
    assert_eq!(sa, sb);
    for i in 0..4 {
        assert_eq!(a[i].get_winner(), b[i].get_winner());
    }
}

#[test]
fn equal_black_sums_not_won_by_first_team() {
    let mut ps = four_players();
    lay(&mut ps[0], &[(0, 2, BLACK)]);
    lay(&mut ps[1], &[(1, 2, BLACK)]);
    bet(&mut ps[0], VICTOIRE, BLACK);
    bet(&mut ps[2], DEFAITE, BLACK);
    bet(&mut ps[1], VICTOIRE, BLACK);
    bet(&mut ps[3], DEFAITE, BLACK);
    definir_gagnant_tour(&mut ps);
    assert_eq!(ps[0].get_winner(), 0);
    assert_eq!(ps[2].get_winner(), 1);
    assert_eq!(ps[1].get_winner(), 1);
    assert_eq!(ps[3].get_winner(), 0);
}

#[test]
fn greater_black_sum_wins() {
    let mut ps = four_players();
    lay(&mut ps[2], &[(0, 5, BLACK), (1, 1, RED)]);
    lay(&mut ps[3], &[(2, 4, BLACK), (3, 5, RED)]);
    bet(&mut ps[0], VICTOIRE, BLACK);
    bet(&mut ps[2], VICTOIRE, MULTICOLOR);
    definir_gagnant_tour(&mut ps);
    assert_eq!(ps[0].get_winner(), 1);
    assert_eq!(ps[2].get_winner(), 0);
}

#[test]
fn loss_on_all_colors_with_equal_sums() {
    let mut ps = four_players();
    lay(&mut ps[0], &[(0, 3, RED)]);
    lay(&mut ps[1], &[(1, 3, BLACK)]);
    bet(&mut ps[0], DEFAITE, MULTICOLOR);
    bet(&mut ps[2], DEFAITE, MULTICOLOR);
    definir_gagnant_tour(&mut ps);
    assert_eq!(ps[0].get_winner(), 1);
    assert_eq!(ps[2].get_winner(), 1);
}

#[test]
fn loss_on_all_colors_with_greater_sum() {
    let mut ps = four_players();
    lay(&mut ps[0], &[(0, 4, RED)]);
    lay(&mut ps[1], &[(1, 3, BLACK)]);
    bet(&mut ps[0], DEFAITE, MULTICOLOR);
    bet(&mut ps[1], DEFAITE, MULTICOLOR);
    definir_gagnant_tour(&mut ps);
    assert_eq!(ps[0].get_winner(), 0);
    assert_eq!(ps[1].get_winner(), 1);
}

#[test]
fn settlement_empties_every_stake() {
    let mut ps = four_players();
    distribuer_jetons(&mut ps);
    for (i, p) in ps.iter_mut().enumerate() {
        assert!(p.play_chips(5 + i));
    }
    ps[0].set_winner(1);
    ps[3].set_winner(1);
    attribuer_jetons(&mut ps);
    for p in &ps {
        assert_eq!(p.get_played_chips(), 0);
    }
    assert_eq!(ps[0].get_chips(), 15 + 10);
    assert_eq!(ps[1].get_chips(), 14);
    assert_eq!(ps[2].get_chips(), 13);
    assert_eq!(ps[3].get_chips(), 12 + 16);
}

#[test]
fn chips_are_dealt() {
    let mut ps = four_players();
    distribuer_jetons(&mut ps);
    for p in &ps {
        assert_eq!(p.get_chips(), 20);
    }
    assert_eq!(jetons_des_equipes(&ps), (40, 40));
}

#[test]
fn teams_are_formed_by_seat() {
    let ps = four_players();
    let mut b = Board::new();
    initialiser_jeu(&mut b, &ps);
    assert_eq!(b.get_number_of_teams(), 2);
    assert_eq!(b.get_number_of_players_in_team(0), 2);
    assert_eq!(b.get_number_of_players_in_team(1), 2);
    assert_eq!(b.get_player(0, 0).unwrap().get_player_id(), 1);
    assert_eq!(b.get_player(0, 1).unwrap().get_player_id(), 3);
    assert_eq!(b.get_player(1, 0).unwrap().get_player_id(), 2);
    assert_eq!(b.get_player(1, 1).unwrap().get_player_id(), 4);
}

#[test]
fn placing_a_card_adds_to_round_score() {
    let mut p = Player::new(1);
    p.add_card_to_hand(Card::new(0, 3, RED));
    p.add_card_to_hand(Card::new(1, 4, BLACK));
    placer_carte(&mut p, 1).unwrap();
    placer_carte(&mut p, 0).unwrap();
    assert_eq!(p.get_score(), 7);
    assert_eq!(p.get_played_size(), 2);
    assert!(placer_carte(&mut p, 0).is_err());
    assert_eq!(p.get_score(), 7);
}

#[test]
fn fresh_deck_composition() {
    let d = nouveau_paquet();
    assert_eq!(d.len(), TAILLE_PAQUET);
    assert_eq!(d[0].get_value(), 1);
    assert_eq!(d[0].get_color(), BLACK);
    assert_eq!(d[3].get_color(), RED);
    assert_eq!(d[29].get_value(), 5);
    assert_eq!(d[29].get_id(), 29);
    let black = d.iter().filter(|c| c.get_color() == BLACK).count();
    assert_eq!(black, 15);
}

fn ids_once(cards: &[Card]) -> bool {
    let mut seen = vec![false; TAILLE_PAQUET];
    for c in cards {
        if c.get_id() >= TAILLE_PAQUET || seen[c.get_id()] {
            return false;
        }
        seen[c.get_id()] = true;
    }
    seen.iter().all(|s| *s)
}

#[test]
fn shuffle_keeps_the_cards() {
    let mut d = nouveau_paquet();
    melanger_paquet(&mut d);
    assert!(ids_once(&d));
    for c in &d {
        let id = c.get_id();
        assert_eq!(c.get_value(), id / 6 + 1);
    }
}

#[test]
fn dealing_from_the_top() {
    let mut ps = four_players();
    let mut d = nouveau_paquet();
    distribuer_paquet(&mut ps, &mut d);
    assert_eq!(d.len(), 10);
    assert_eq!(d[0].get_id(), 20);
    assert_eq!(ps[1].get_card_in_hand(0).unwrap().get_id(), 5);
    assert_eq!(ps[3].get_card_in_hand(4).unwrap().get_id(), 19);
}

#[test]
fn dealt_hands_partition_the_deck() {
    let mut ps = four_players();
    let rest = distribuer_cartes(&mut ps);
    let mut all: Vec<Card> = Vec::new();
    for p in &ps {
        assert_eq!(p.get_size_of_hand(), 5);
        for i in 0..5 {
            all.push(*p.get_card_in_hand(i).unwrap());
        }
    }
    all.extend(rest.iter().copied());
    assert_eq!(all.len(), 30);
    assert!(ids_once(&all));
}

fn cards_in_game(b: &Board, ps: &[Player]) -> usize {
    b.get_number_of_out_of_game_cards()
        + ps.iter().map(|p| p.get_size_of_hand() + p.get_played_size()).sum::<usize>()
}

#[test]
fn round_conclusion_keeps_the_cards() {
    let mut ps = four_players();
    let mut b = Board::new();
    initialiser_jeu(&mut b, &ps);
    distribuer_cartes(&mut ps);
    distribuer_jetons(&mut ps);
    for p in ps.iter_mut() {
        bet(p, VICTOIRE, MULTICOLOR);
        p.play_chips(10);
        placer_carte(p, 0).unwrap();
        placer_carte(p, 0).unwrap();
    }
    assert_eq!(cards_in_game(&b, &ps), 20);
    let s = conclure_tour(&mut b, &mut ps);
    assert_eq!(cards_in_game(&b, &ps), 20);
    assert_eq!(b.get_number_of_out_of_game_cards(), 8);
    for p in &ps {
        assert_eq!(p.get_played_size(), 0);
        assert_eq!(p.get_size_of_hand(), 3);
        assert_eq!(p.get_played_chips(), 0);
    }
    let first_wins = s.total_a > s.total_b;
    assert_eq!(ps[0].get_winner() == 1, first_wins);
    assert_eq!(ps[1].get_winner() == 1, !first_wins);
    assert_eq!(b.get_score_of_team(0), ps[0].get_chips() + ps[2].get_chips());
    assert_eq!(b.get_score_of_team(1), ps[1].get_chips() + ps[3].get_chips());
    assert_eq!(b.get_score_of_team(0) + b.get_score_of_team(1), 80);
}

#[test]
fn cards_leave_the_table_last_first() {
    let mut ps = four_players();
    lay(&mut ps[0], &[(0, 1, RED), (1, 2, RED)]);
    lay(&mut ps[2], &[(2, 3, BLACK)]);
    let mut b = Board::new();
    b.add_team(Team::new(0));
    retirer_cartes_jouees(&mut b, &mut ps);
    let ids: Vec<usize> =
        (0..3).map(|i| b.get_out_of_game_card(i).unwrap().get_id()).collect();
    assert_eq!(ids, vec![1, 0, 2]);
    assert_eq!(ps[0].get_played_size(), 0);
}

#[test]
fn number_of_cards_to_lay() {
    assert!(nombre_de_cartes_autorise(5, 1));
    assert!(nombre_de_cartes_autorise(5, 2));
    assert!(nombre_de_cartes_autorise(2, 2));
    assert!(!nombre_de_cartes_autorise(1, 2));
    assert!(nombre_de_cartes_autorise(1, 1));
    assert!(!nombre_de_cartes_autorise(5, 0));
    assert!(!nombre_de_cartes_autorise(5, 3));
}

#[test]
fn chips_go_to_the_four_seats_only() {
    let mut ps: Vec<Player> = (1..6).map(Player::new).collect();
    ps[4].set_chips(3);
    distribuer_jetons(&mut ps);
    for p in ps.iter().take(4) {
        assert_eq!(p.get_chips(), 20);
    }
    assert_eq!(ps[4].get_chips(), 3);
}

#[test]
fn shuffle_by_given_draws() {
    let mut d = vec![
        Card::new(0, 1, BLACK),
        Card::new(1, 1, BLACK),
        Card::new(2, 1, BLACK),
        Card::new(3, 1, RED),
    ];
    // step 0 trades 0 and 2, step 1 trades 1 and 3, step 2 trades 2 and 0, step 3 keeps 3
    melanger_selon(&mut d, &vec![2, 3, 0, 3]);
    let ids: Vec<usize> = d.iter().map(|c| c.get_id()).collect();
    assert_eq!(ids, vec![0, 3, 2, 1]);
}

#[test]
fn shuffle_by_draws_keeps_a_fresh_deck() {
    let mut d = nouveau_paquet();
    let draws: Vec<usize> = (0..TAILLE_PAQUET).map(|k| (k * 7 + 3) % TAILLE_PAQUET).collect();
    melanger_selon(&mut d, &draws);
    assert!(ids_once(&d));
}

#[test]
fn settling_twice_changes_nothing() {
    let mut ps = four_players();
    distribuer_jetons(&mut ps);
    ps[0].play_chips(6);
    ps[0].set_winner(1);
    attribuer_jetons(&mut ps);
    assert_eq!(ps[0].get_chips(), 26);
    attribuer_jetons(&mut ps);
    assert_eq!(ps[0].get_chips(), 26);
    assert_eq!(ps[0].get_played_chips(), 0);
}

#[test]
fn round_conclusion_keeps_card_identities() {
    let mut ps = four_players();
    let mut b = Board::new();
    initialiser_jeu(&mut b, &ps);
    distribuer_cartes(&mut ps);
    distribuer_jetons(&mut ps);
    for p in ps.iter_mut() {
        placer_carte(p, 1).unwrap();
    }
    conclure_tour(&mut b, &mut ps);
    let mut all: Vec<Card> = Vec::new();
    for i in 0..b.get_number_of_out_of_game_cards() {
        all.push(*b.get_out_of_game_card(i).unwrap());
    }
    for p in &ps {
        for i in 0..p.get_size_of_hand() {
            all.push(*p.get_card_in_hand(i).unwrap());
        }
    }
    assert_eq!(all.len(), 20);
    let mut ids: Vec<usize> = all.iter().map(|c| c.get_id()).collect();
    ids.sort();
    ids.dedup();
    assert_eq!(ids.len(), 20);
}
