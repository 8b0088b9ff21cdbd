use vstd::prelude::*;

verus! {

/// Terminal color of the first team.
pub const CYAN: &'static str = "\u{1B}[0;36m";

/// Terminal color of the second team.
pub const GREEN: &'static str = "\u{1B}[0;32m";

/// Terminal code that restores the default color.
pub const RESET: &'static str = "\u{1B}[0m";

/// The terminal color of a player, by identity: players 1 and 3 form the
/// first team, players 2 and 4 the second; any other identity gets the
/// default color.
pub fn get_player_color(player_id: usize) -> (r: &'static str)
    ensures
        (player_id == 1 || player_id == 3) ==> r@ == CYAN@,
        (player_id == 2 || player_id == 4) ==> r@ == GREEN@,
        !(1 <= player_id <= 4) ==> r@ == RESET@,
{
    match player_id {
        1 | 3 => CYAN,
        2 | 4 => GREEN,
        _ => RESET,
    }
}

} // verus!
