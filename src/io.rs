//! How pieces and places are drawn as text.
use vstd::prelude::*;
use crate::game::{Colour, Piece, Place};

verus! {

/// The character drawn for a slot: a blank, a hollow square for White, a
/// filled square for Black.
pub open spec fn piece_text(p: Piece) -> Seq<char> {
    match p {
        Piece::Blank => seq![' '],
        Piece::Piece(Colour::White) => seq!['\u{25a1}'],
        Piece::Piece(Colour::Black) => seq!['\u{25a0}'],
    }
}

/// Text for pieces and places.
pub struct IO();

impl IO {
    pub fn piece_string(piece: &Piece) -> (r: String)
        ensures
            r@ == piece_text(*piece),
    {
        let r = match piece {
            Piece::Blank => " ".to_owned(),
            Piece::Piece(Colour::White) => "\u{25a1}".to_owned(),
            Piece::Piece(Colour::Black) => "\u{25a0}".to_owned(),
        };
        proof {
            reveal_strlit(" ");
            reveal_strlit("\u{25a1}");
            reveal_strlit("\u{25a0}");
        }
        r
    }

    /// The three slots of a place, bottom first.
    pub fn place_string(place: &Place) -> (r: String)
        ensures
            r@ == piece_text(place@[0]) + piece_text(place@[1]) + piece_text(place@[2]),
    {
        let mut r = Self::piece_string(&place.0[0]);
        let middle = Self::piece_string(&place.0[1]);
        let top = Self::piece_string(&place.0[2]);
        r.append(middle.as_str());
        r.append(top.as_str());
        r
    }
}

} // verus!
