use vstd::prelude::*;
use rand::Rng;
use crate::card::{Card, CardView, BLACK, RED};
use crate::player::{Player, PlayerView, MAX_HAND_SIZE};
use crate::game::{held_count, lemma_held_count_seats};
use crate::round::NB_JOUEURS;

verus! {

/// Cards in a fresh deck: three black and three red of each value from 1 to 5.
pub const TAILLE_PAQUET: usize = 30;

/// Cards dealt to each player.
pub const CARTES_PAR_JOUEUR: usize = 5;

/// Cards dealt to all players together.
pub const TOTAL_CARTE: usize = 20;

/// The card of a fresh deck that has identity `id`: identities run in order
/// of value, and within a value the first three are black.
pub open spec fn standard_card(id: int) -> CardView {
    CardView {
        id: id as usize,
        value: (id / 6 + 1) as usize,
        color: if id % 6 < 3 {
            BLACK
        } else {
            RED
        },
    }
}

/// No identity occurs twice.
pub open spec fn distinct_ids(s: Seq<Card>) -> bool {
    forall|a: int, b: int| 0 <= a < s.len() && 0 <= b < s.len() && a != b ==> s[a]@.id != s[b]@.id
}

/// Every card is a card of a fresh deck.
pub open spec fn standard_cards(s: Seq<Card>) -> bool {
    forall|k: int|
        0 <= k < s.len() ==> (#[trigger] s[k])@.id < TAILLE_PAQUET && s[k]@ == standard_card(
            s[k]@.id as int,
        )
}

/// Some card has identity `id`.
pub open spec fn holds_id(s: Seq<Card>, id: int) -> bool {
    exists|k: int| 0 <= k < s.len() && s[k]@.id == id
}

/// Every identity of a fresh deck occurs.
pub open spec fn all_ids(s: Seq<Card>) -> bool {
    forall|id: int| 0 <= id < TAILLE_PAQUET ==> #[trigger] holds_id(s, id)
}

/// The cards of a fresh deck, each once, in any order.
pub open spec fn complete_deck(s: Seq<Card>) -> bool {
    &&& s.len() == TAILLE_PAQUET
    &&& distinct_ids(s)
    &&& standard_cards(s)
    &&& all_ids(s)
}

/// The hands of the four seats, one after the other.
pub open spec fn dealt(ps: Seq<Player>) -> Seq<Card> {
    ps[0]@.hand + ps[1]@.hand + ps[2]@.hand + ps[3]@.hand
}

/// Relies on rand::rng and Rng::random_range: a value drawn from `0..n`;
/// random_range panics only on an empty range.
#[verifier::external_body]
fn random_index(n: usize) -> (r: usize)
    requires
        n > 0,
    ensures
        r < n,
{
    rand::rng().random_range(0..n)
}

/// A fresh deck, its cards in the order of their identities.
pub fn nouveau_paquet() -> (r: Vec<Card>)
    ensures
        r@.len() == TAILLE_PAQUET,
        forall|k: int| 0 <= k < TAILLE_PAQUET ==> (#[trigger] r@[k])@ == standard_card(k),
        complete_deck(r@),
{
    let mut paquet: Vec<Card> = Vec::new();
    let mut carte_id: usize = 0;
    while carte_id < TAILLE_PAQUET
        invariant
            0 <= carte_id <= TAILLE_PAQUET,
            paquet@.len() == carte_id,
            forall|k: int| 0 <= k < carte_id ==> (#[trigger] paquet@[k])@ == standard_card(k),
        decreases TAILLE_PAQUET - carte_id,
    {
        let color = if carte_id % 6 < 3 {
            BLACK
        } else {
            RED
        };
        paquet.push(Card::new(carte_id, carte_id / 6 + 1, color));
        carte_id = carte_id + 1;
    }
    assert forall|id: int| 0 <= id < TAILLE_PAQUET implies #[trigger] holds_id(paquet@, id) by {
        assert(paquet@[id]@.id == id);
    }
    paquet
}

/// The position whose card lands at `k` when positions `a` and `b` trade cards.
pub open spec fn swap_source(k: int, a: int, b: int) -> int {
    if k == a {
        b
    } else if k == b {
        a
    } else {
        k
    }
}

/// The cards with positions `a` and `b` traded.
pub open spec fn swapped(s: Seq<Card>, a: int, b: int) -> Seq<Card> {
    s.update(a, s[b]).update(b, s[a])
}

/// The deck after the first `k` steps of the shuffle that the draws `t`
/// drive: at step `i`, position `i` trades cards with position `t[i]`.
pub open spec fn shuffled_by(s: Seq<Card>, t: Seq<usize>, k: int) -> Seq<Card>
    decreases k,
{
    if k <= 0 {
        s
    } else {
        swapped(shuffled_by(s, t, k - 1), k - 1, t[k - 1] as int)
    }
}

/// Draws that can drive the shuffle of a deck of `n` cards: one per
/// position, each a position.
pub open spec fn valid_draws(t: Seq<usize>, n: int) -> bool {
    t.len() == n && forall|k: int| 0 <= k < n ==> #[trigger] t[k] < n
}

/// Trading the cards of two positions keeps a complete deck complete.
proof fn lemma_swap_keeps_deck(s: Seq<Card>, a: int, b: int)
    requires
        complete_deck(s),
        0 <= a < s.len(),
        0 <= b < s.len(),
    ensures
        complete_deck(swapped(s, a, b)),
{
    let after = swapped(s, a, b);
    let n = s.len();
    assert forall|k: int| 0 <= k < n implies #[trigger] after[k] == s[swap_source(k, a, b)] by {}
    assert forall|x: int, y: int|
        0 <= x < n && 0 <= y < n && x != y implies after[x]@.id != after[y]@.id by {
        assert(after[x] == s[swap_source(x, a, b)]);
        assert(after[y] == s[swap_source(y, a, b)]);
    }
    assert forall|k: int| 0 <= k < n implies (#[trigger] after[k])@.id < TAILLE_PAQUET
        && after[k]@ == standard_card(after[k]@.id as int) by {
        assert(after[k] == s[swap_source(k, a, b)]);
    }
    assert forall|id: int| 0 <= id < TAILLE_PAQUET implies #[trigger] holds_id(after, id) by {
        assert(holds_id(s, id));
        let m = choose|m: int| 0 <= m < s.len() && s[m]@.id == id;
        let w = swap_source(m, a, b);
        assert(after[w] == s[m]);
    }
}

/// Shuffles the deck by the given draws: each position in turn trades cards
/// with the position that its draw names. A complete deck stays complete.
pub fn melanger_selon(paquet: &mut Vec<Card>, tirages: &Vec<usize>)
    requires
        valid_draws(tirages@, old(paquet)@.len() as int),
    ensures
        final(paquet)@ == shuffled_by(old(paquet)@, tirages@, tirages@.len() as int),
        complete_deck(old(paquet)@) ==> complete_deck(final(paquet)@),
{
    let ghost orig = paquet@;
    let n = paquet.len();
    let mut i: usize = 0;
    while i < n
        invariant
            0 <= i <= n,
            n == paquet@.len(),
            n == orig.len(),
            valid_draws(tirages@, n as int),
            paquet@ == shuffled_by(orig, tirages@, i as int),
            complete_deck(orig) ==> complete_deck(paquet@),
        decreases n - i,
    {
        let j = tirages[i];
        let ghost before = paquet@;
        let a = paquet[i];
        let b = paquet[j];
        paquet[i] = b;
        paquet[j] = a;
        proof {
            assert(paquet@ =~= swapped(before, i as int, j as int));
            if complete_deck(orig) {
                lemma_swap_keeps_deck(before, i as int, j as int);
            }
        }
        i = i + 1;
    }
}

/// Shuffles the deck: draws a position at random for each position, and
/// shuffles by those draws. The deck keeps its cards, whatever is drawn.
pub fn melanger_paquet(paquet: &mut Vec<Card>)
    requires
        complete_deck(old(paquet)@),
    ensures
        complete_deck(final(paquet)@),
        exists|t: Seq<usize>|
            valid_draws(t, old(paquet)@.len() as int) && final(paquet)@ == shuffled_by(
                old(paquet)@,
                t,
                old(paquet)@.len() as int,
            ),
{
    let n = paquet.len();
    let mut tirages: Vec<usize> = Vec::new();
    let mut i: usize = 0;
    while i < n
        invariant
            0 <= i <= n,
            n == paquet@.len(),
            tirages@.len() == i,
            forall|k: int| 0 <= k < i ==> #[trigger] tirages@[k] < n,
        decreases n - i,
    {
        let j = random_index(n);
        tirages.push(j);
        i = i + 1;
    }
    let ghost orig = paquet@;
    melanger_selon(paquet, &tirages);
    assert(valid_draws(tirages@, orig.len() as int) && paquet@ == shuffled_by(
        orig,
        tirages@,
        orig.len() as int,
    ));
}

/// Deals the deck from its top: five cards to each seat in turn, the first
/// seat first. The deck keeps what is left.
pub fn distribuer_paquet(players: &mut Vec<Player>, paquet: &mut Vec<Card>)
    requires
        old(players)@.len() == NB_JOUEURS,
        forall|p: int| 0 <= p < NB_JOUEURS ==> (#[trigger] old(players)@[p])@.hand.len() == 0,
        old(paquet)@.len() >= TOTAL_CARTE,
    ensures
        final(players)@.len() == NB_JOUEURS,
        forall|p: int|
            0 <= p < NB_JOUEURS ==> #[trigger] final(players)@[p]@ == (PlayerView {
                hand: old(paquet)@.subrange(
                    p * CARTES_PAR_JOUEUR,
                    p * CARTES_PAR_JOUEUR + CARTES_PAR_JOUEUR,
                ),
                ..old(players)@[p]@
            }),
        final(paquet)@ == old(paquet)@.skip(TOTAL_CARTE as int),
{
    let ghost ps = players@;
    let ghost orig = paquet@;
    let mut i: usize = 0;
    while i < NB_JOUEURS
        invariant
            players@.len() == NB_JOUEURS,
            ps.len() == NB_JOUEURS,
            orig.len() >= TOTAL_CARTE,
            forall|p: int| 0 <= p < NB_JOUEURS ==> (#[trigger] ps[p])@.hand.len() == 0,
            0 <= i <= NB_JOUEURS,
            paquet@ == orig.skip(i * CARTES_PAR_JOUEUR),
            forall|p: int|
                0 <= p < i ==> #[trigger] players@[p]@ == (PlayerView {
                    hand: orig.subrange(p * CARTES_PAR_JOUEUR, p * CARTES_PAR_JOUEUR + CARTES_PAR_JOUEUR),
                    ..ps[p]@
                }),
            forall|p: int| i <= p < NB_JOUEURS ==> #[trigger] players@[p] == ps[p],
        decreases NB_JOUEURS - i,
    {
        let ghost start = i * CARTES_PAR_JOUEUR;
        let mut j: usize = 0;
        proof {
            assert(orig.subrange(start, start) =~= ps[i as int]@.hand);
        }
        while j < CARTES_PAR_JOUEUR
            invariant
                players@.len() == NB_JOUEURS,
                ps.len() == NB_JOUEURS,
                orig.len() >= TOTAL_CARTE,
                0 <= i < NB_JOUEURS,
                start == i * CARTES_PAR_JOUEUR,
                0 <= j <= CARTES_PAR_JOUEUR,
                paquet@ == orig.skip(start + j),
                players@[i as int]@ == (PlayerView {
                    hand: orig.subrange(start, start + j),
                    ..ps[i as int]@
                }),
                forall|p: int|
                    0 <= p < i ==> #[trigger] players@[p]@ == (PlayerView {
                        hand: orig.subrange(p * CARTES_PAR_JOUEUR, p * CARTES_PAR_JOUEUR + CARTES_PAR_JOUEUR),
                        ..ps[p]@
                    }),
                forall|p: int| i < p < NB_JOUEURS ==> #[trigger] players@[p] == ps[p],
            decreases CARTES_PAR_JOUEUR - j,
        {
            let card = paquet.remove(0);
            players[i].add_card_to_hand(card);
            proof {
                assert(paquet@ =~= orig.skip(start + j + 1));
                assert(orig.subrange(start, start + j).push(card) =~= orig.subrange(start, start + j + 1));
            }
            j = j + 1;
        }
        i = i + 1;
    }
}

/// Makes a fresh deck, shuffles it, and deals five cards to each seat.
/// Returns the cards that were not dealt. The hands and what is left hold
/// each card of a fresh deck exactly once, whatever the shuffle drew.
pub fn distribuer_cartes(players: &mut Vec<Player>) -> (reste: Vec<Card>)
    requires
        old(players)@.len() == NB_JOUEURS,
        forall|p: int| 0 <= p < NB_JOUEURS ==> (#[trigger] old(players)@[p])@.hand.len() == 0,
    ensures
        final(players)@.len() == NB_JOUEURS,
        forall|p: int|
            0 <= p < NB_JOUEURS ==> #[trigger] final(players)@[p]@ == (PlayerView {
                hand: final(players)@[p]@.hand,
                ..old(players)@[p]@
            }),
        forall|p: int|
            0 <= p < NB_JOUEURS ==> (#[trigger] final(players)@[p])@.hand.len() == CARTES_PAR_JOUEUR,
        reste@.len() == TAILLE_PAQUET - TOTAL_CARTE,
        complete_deck(dealt(final(players)@) + reste@),
        held_count(final(players)@) == held_count(old(players)@) + TOTAL_CARTE,
{
    let mut paquet = nouveau_paquet();
    melanger_paquet(&mut paquet);
    let ghost shuffled = paquet@;
    distribuer_paquet(players, &mut paquet);
    proof {
        let fin = players@;
        assert(fin[0]@.hand =~= shuffled.subrange(0, 5));
        assert(fin[1]@.hand =~= shuffled.subrange(5, 10));
        assert(fin[2]@.hand =~= shuffled.subrange(10, 15));
        assert(fin[3]@.hand =~= shuffled.subrange(15, 20));
        assert(dealt(fin) + paquet@ =~= shuffled);
        lemma_held_count_seats(old(players)@);
        lemma_held_count_seats(fin);
    }
    paquet
}

} // verus!
