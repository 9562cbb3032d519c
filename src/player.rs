//! A human side of the game. What it proposes comes from outside the library.
use vstd::prelude::*;
use crate::game::Colour;

verus! {

pub struct Person {
    colour: Colour,
}

impl Person {
    /// The side the person plays.
    pub closed spec fn colour_spec(&self) -> Colour {
        self.colour
    }

    pub fn new(colour: Colour) -> (r: Self)
        ensures
            r.colour_spec() == colour,
    {
        Self { colour }
    }

    pub fn get_colour(&self) -> (r: Colour)
        ensures
            r == self.colour_spec(),
    {
        self.colour
    }
}

} // verus!
