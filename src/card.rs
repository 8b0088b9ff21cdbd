use vstd::prelude::*;

verus! {

/// Color code of a black card, and of a bet on the black category.
pub const BLACK: i32 = 0;

/// Color code of a red card, and of a bet on the red category.
pub const RED: i32 = 1;

/// Color code of a bet on the sum of all cards, whatever their color.
pub const MULTICOLOR: i32 = 2;

/// What a card holds: its identity, its value and its color code.
pub struct CardView {
    pub id: usize,
    pub value: usize,
    pub color: i32,
}

/// A playing card. It keeps its identity for the whole game; its value and
/// color may be corrected, which the game itself never does.
#[derive(Debug, Clone, Copy)]
pub struct Card {
    id: usize,
    value: usize,
    color: i32,
}

impl View for Card {
    type V = CardView;

    closed spec fn view(&self) -> CardView {
        CardView { id: self.id, value: self.value, color: self.color }
    }
}

impl Card {
    pub fn new(id: usize, value: usize, color: i32) -> (c: Card)
        ensures
            c@ == (CardView { id, value, color }),
    {
        Card { id, value, color }
    }

    pub fn get_id(&self) -> (r: usize)
        ensures
            r == self@.id,
    {
        self.id
    }

    pub fn get_value(&self) -> (r: usize)
        ensures
            r == self@.value,
    {
        self.value
    }

    pub fn set_value(&mut self, value: usize)
        ensures
            final(self)@ == (CardView { value, ..old(self)@ }),
    {
        self.value = value;
    }

    pub fn get_color(&self) -> (r: i32)
        ensures
            r == self@.color,
    {
        self.color
    }

    pub fn set_color(&mut self, color: i32)
        ensures
            final(self)@ == (CardView { color, ..old(self)@ }),
    {
        self.color = color;
    }
}

} // verus!
