//! Pieces, places, the ring board, turns and the rules that decide them.
use vstd::prelude::*;
use crate::bot::Bot;
use crate::search::legal_turns;

verus! {

/// The placing phase lasts while fewer than this many pieces are on the board.
pub const PLACING_LIMIT: usize = 16;

/// The two sides of the game. White always starts.
#[derive(PartialEq, Eq, Structural, Clone, Copy, Debug)]
pub enum Colour {
    White,
    Black,
}

impl Colour {
    /// The other side.
    pub open spec fn other(self) -> Colour {
        match self {
            Colour::White => Colour::Black,
            Colour::Black => Colour::White,
        }
    }

    /// Returns the other side.
    pub fn opposite(&self) -> (r: Colour)
        ensures
            r == self.other(),
    {
        match self {
            Colour::White => Colour::Black,
            Colour::Black => Colour::White,
        }
    }
}

/// One slot of a place: a piece of some colour, or nothing.
#[derive(PartialEq, Eq, Structural, Clone, Copy, Debug)]
pub enum Piece {
    Piece(Colour),
    Blank,
}

/// Whether a slot holds a piece.
pub open spec fn occupied(p: Piece) -> bool {
    p is Piece
}

/// All three slots of a stack hold a piece.
pub open spec fn stack_full(s: Seq<Piece>) -> bool {
    occupied(s[0]) && occupied(s[1]) && occupied(s[2])
}

/// No slot of a stack holds a piece.
pub open spec fn stack_empty(s: Seq<Piece>) -> bool {
    !occupied(s[0]) && !occupied(s[1]) && !occupied(s[2])
}

/// The highest occupied slot of a stack, or `Blank` when there is none.
pub open spec fn stack_top(s: Seq<Piece>) -> Piece {
    if occupied(s[2]) {
        s[2]
    } else if occupied(s[1]) {
        s[1]
    } else {
        s[0]
    }
}

/// The number of occupied slots of a stack.
pub open spec fn stack_height(s: Seq<Piece>) -> nat {
    (if occupied(s[0]) { 1nat } else { 0nat }) + (if occupied(s[1]) { 1nat } else { 0nat }) + (
    if occupied(s[2]) {
        1nat
    } else {
        0nat
    })
}

/// A stack of three slots, filled from the bottom up with no gap.
pub open spec fn stack_wf(s: Seq<Piece>) -> bool {
    &&& s.len() == 3
    &&& !occupied(s[0]) ==> !occupied(s[1])
    &&& !occupied(s[1]) ==> !occupied(s[2])
}

/// The stack with a piece of `c` written into its lowest empty slot.
pub open spec fn stack_push(s: Seq<Piece>, c: Colour) -> Seq<Piece> {
    if !occupied(s[0]) {
        s.update(0, Piece::Piece(c))
    } else if !occupied(s[1]) {
        s.update(1, Piece::Piece(c))
    } else if !occupied(s[2]) {
        s.update(2, Piece::Piece(c))
    } else {
        s
    }
}

/// The stack with its highest occupied slot cleared.
pub open spec fn stack_pop(s: Seq<Piece>) -> Seq<Piece> {
    if occupied(s[2]) {
        s.update(2, Piece::Blank)
    } else if occupied(s[1]) {
        s.update(1, Piece::Blank)
    } else {
        s.update(0, Piece::Blank)
    }
}

/// A stack of three slots, bottom to top.
#[derive(PartialEq, Eq, Clone, Copy, Debug)]
pub struct Place(pub [Piece; 3]);

impl View for Place {
    type V = Seq<Piece>;

    open spec fn view(&self) -> Seq<Piece> {
        self.0@
    }
}

impl Place {
    /// An empty place.
    pub fn new() -> (r: Self)
        ensures
            stack_empty(r@),
            stack_wf(r@),
    {
        Self([Piece::Blank, Piece::Blank, Piece::Blank])
    }

    pub fn is_full(&self) -> (r: bool)
        ensures
            r == stack_full(self@),
    {
        match (&self.0[0], &self.0[1], &self.0[2]) {
            (Piece::Piece(_), Piece::Piece(_), Piece::Piece(_)) => true,
            _ => false,
        }
    }

    pub fn is_empty(&self) -> (r: bool)
        ensures
            r == stack_empty(self@),
    {
        match (&self.0[0], &self.0[1], &self.0[2]) {
            (Piece::Blank, Piece::Blank, Piece::Blank) => true,
            _ => false,
        }
    }

    /// The highest occupied slot, or a blank slot when the place is empty.
    pub fn peek_top(&self) -> (r: &Piece)
        ensures
            *r == stack_top(self@),
    {
        if let Piece::Piece(_) = self.0[2] {
            &self.0[2]
        } else if let Piece::Piece(_) = self.0[1] {
            &self.0[1]
        } else {
            &self.0[0]
        }
    }

    pub fn count_pieces(&self) -> (r: usize)
        ensures
            r == stack_height(self@),
    {
        let mut total: usize = 0;
        for i in 0..3
            invariant
                total as nat == stack_height(self@.take(i as int).add(
                    seq![Piece::Blank, Piece::Blank, Piece::Blank].skip(i as int),
                )),
                total <= i,
        {
            if self.0[i] != Piece::Blank {
                total += 1;
            }
        }
        proof {
            assert(self@.take(3).add(seq![Piece::Blank, Piece::Blank, Piece::Blank].skip(3))
                =~= self@);
        }
        total
    }

    /// Writes a piece of `colour` into the lowest empty slot.
    pub fn add_piece(&mut self, colour: &Colour)
        requires
            !stack_full(old(self)@),
        ensures
            final(self)@ == stack_push(old(self)@, *colour),
    {
        if let Piece::Blank = self.0[0] {
            self.0[0] = Piece::Piece(*colour);
        } else if let Piece::Blank = self.0[1] {
            self.0[1] = Piece::Piece(*colour);
        } else {
            self.0[2] = Piece::Piece(*colour);
        }
    }

    /// Clears the highest occupied slot, which must hold a piece of `colour`.
    pub fn remove_piece(&mut self, colour: &Colour)
        requires
            stack_top(old(self)@) == Piece::Piece(*colour),
        ensures
            final(self)@ == stack_pop(old(self)@),
    {
        if let Piece::Piece(_) = self.0[2] {
            self.0[2] = Piece::Blank;
        } else if let Piece::Piece(_) = self.0[1] {
            self.0[1] = Piece::Blank;
        } else {
            self.0[0] = Piece::Blank;
        }
    }
}


/// How a finished game ended.
#[derive(PartialEq, Eq, Structural, Clone, Copy, Debug)]
pub enum EndState {
    Win(Colour),
    Draw,
}

/// One turn: put a new piece on a place, or move the top piece of one place
/// onto another.
#[derive(PartialEq, Eq, Structural, Clone, Copy, Debug)]
pub enum Turn {
    Place(Colour, usize),
    Move(Colour, usize, usize),
}

impl Turn {
    /// The side that makes the turn.
    pub open spec fn colour_of(self) -> Colour {
        match self {
            Turn::Place(c, _) => c,
            Turn::Move(c, _, _) => c,
        }
    }
}

/// A board as eight stacks, indexed round the ring.
pub type Stacks = Seq<Seq<Piece>>;

/// Every place of the board is a well-formed stack.
pub open spec fn board_wf(b: Stacks) -> bool {
    &&& b.len() == 8
    &&& forall|i: int| 0 <= i < 8 ==> #[trigger] stack_wf(b[i])
}

/// The number of pieces on the first `n` places.
pub open spec fn count_upto(b: Stacks, n: int) -> nat
    decreases n,
{
    if n <= 0 {
        0
    } else {
        count_upto(b, n - 1) + stack_height(b[n - 1])
    }
}

/// The number of pieces on the board.
pub open spec fn board_count(b: Stacks) -> nat {
    count_upto(b, 8)
}

/// The distance between two places going round the ring the short way.
pub open spec fn ring_distance(i: int, j: int) -> int {
    let d = (if i >= j { i - j } else { j - i }) % 8;
    if d <= 8 - d {
        d
    } else {
        8 - d
    }
}

/// Whether `t` may be played on `b`. A placement needs room on its place; a
/// move needs the mover's piece on top of its source, room on its target, and
/// the target one step round the ring or straight across it.
pub open spec fn legal(b: Stacks, t: Turn) -> bool {
    match t {
        Turn::Place(_, i) => i < 8 && !stack_full(b[i as int]),
        Turn::Move(c, i, j) => {
            &&& i < 8
            &&& j < 8
            &&& i != j
            &&& stack_top(b[i as int]) == Piece::Piece(c)
            &&& !stack_full(b[j as int])
            &&& (ring_distance(i as int, j as int) == 1 || ring_distance(i as int, j as int) == 4)
        },
    }
}

/// The board after `t`.
pub open spec fn apply(b: Stacks, t: Turn) -> Stacks {
    match t {
        Turn::Place(c, i) => b.update(i as int, stack_push(b[i as int], c)),
        Turn::Move(c, i, j) => {
            let lifted = b.update(i as int, stack_pop(b[i as int]));
            lifted.update(j as int, stack_push(lifted[j as int], c))
        },
    }
}

/// Three pieces of `c` stacked on one place.
pub open spec fn vertical(s: Seq<Piece>, c: Colour) -> bool {
    s[0] == Piece::Piece(c) && s[1] == Piece::Piece(c) && s[2] == Piece::Piece(c)
}

/// The four places from `i` on round the ring all show `c` on top.
pub open spec fn horizontal(b: Stacks, i: int, c: Colour) -> bool {
    &&& stack_top(b[i % 8]) == Piece::Piece(c)
    &&& stack_top(b[(i + 1) % 8]) == Piece::Piece(c)
    &&& stack_top(b[(i + 2) % 8]) == Piece::Piece(c)
    &&& stack_top(b[(i + 3) % 8]) == Piece::Piece(c)
}

/// A winning alignment of `c` that starts at place `i`.
pub open spec fn mill_at(b: Stacks, i: int, c: Colour) -> bool {
    vertical(b[i], c) || horizontal(b, i, c)
}

/// `c` has a winning alignment somewhere on the board.
pub open spec fn has_mill(b: Stacks, c: Colour) -> bool {
    exists|i: int| 0 <= i < 8 && #[trigger] mill_at(b, i, c)
}

/// The end of the game, if it has come: a win for the side with a mill, a draw
/// when both sides have one.
pub open spec fn outcome(b: Stacks) -> Option<EndState> {
    let black = has_mill(b, Colour::Black);
    let white = has_mill(b, Colour::White);
    if black && white {
        Some(EndState::Draw)
    } else if black {
        Some(EndState::Win(Colour::Black))
    } else if white {
        Some(EndState::Win(Colour::White))
    } else {
        None
    }
}

/// Eight places round a ring; place `i` neighbours `i + 1` and `i - 1` and
/// faces `i + 4` (all modulo eight).
#[derive(Clone, Copy)]
pub struct Board(pub [Place; 8]);

impl View for Board {
    type V = Stacks;

    open spec fn view(&self) -> Stacks {
        Seq::new(8, |i: int| self.0@[i]@)
    }
}

impl Board {
    /// Every place is a well-formed stack.
    pub open spec fn wf(&self) -> bool {
        board_wf(self@)
    }

    /// An empty board.
    pub fn new() -> (r: Self)
        ensures
            r.wf(),
            forall|i: int| 0 <= i < 8 ==> stack_empty(#[trigger] r@[i]),
            board_count(r@) == 0,
    {
        let r = Self(
            [
                Place::new(),
                Place::new(),
                Place::new(),
                Place::new(),
                Place::new(),
                Place::new(),
                Place::new(),
                Place::new(),
            ],
        );
        proof {
            reveal_with_fuel(count_upto, 9);
        }
        r
    }

    /// The number of pieces on the board.
    pub fn count_pieces(&self) -> (r: usize)
        ensures
            r == board_count(self@),
    {
        let mut total: usize = 0;
        for i in 0..8
            invariant
                total == count_upto(self@, i as int),
                total <= 3 * i,
        {
            total += self.0[i].count_pieces();
        }
        total
    }

    /// Whether `colour` has a winning alignment that starts at place `i`.
    fn mill_starts_at(&self, i: usize, colour: Colour) -> (r: bool)
        requires
            i < 8,
        ensures
            r == mill_at(self@, i as int, colour),
    {
        let p = Piece::Piece(colour);
        let column = &self.0[i].0;
        let vertical = column[0] == p && column[1] == p && column[2] == p;
        let horizontal = *self.0[i].peek_top() == p && *self.0[(i + 1) % 8].peek_top() == p
            && *self.0[(i + 2) % 8].peek_top() == p && *self.0[(i + 3) % 8].peek_top() == p;
        vertical || horizontal
    }

    /// The end of the game, if either side has a mill.
    pub fn is_won(&self) -> (r: Option<EndState>)
        ensures
            r == outcome(self@),
    {
        let mut black_win = false;
        let mut white_win = false;
        for i in 0..8
            invariant
                black_win == exists|k: int| 0 <= k < i && #[trigger] mill_at(self@, k, Colour::Black),
                white_win == exists|k: int| 0 <= k < i && #[trigger] mill_at(self@, k, Colour::White),
        {
            if self.mill_starts_at(i, Colour::Black) {
                black_win = true;
            }
            if self.mill_starts_at(i, Colour::White) {
                white_win = true;
            }
        }
        match (black_win, white_win) {
            (true, true) => Some(EndState::Draw),
            (true, false) => Some(EndState::Win(Colour::Black)),
            (false, true) => Some(EndState::Win(Colour::White)),
            (false, false) => None,
        }
    }

    /// Whether `turn` may be played now. Never fails: a turn naming a place
    /// outside the ring is simply not possible.
    pub fn is_possible_turn(&self, turn: &Turn) -> (r: bool)
        ensures
            r == legal(self@, *turn),
    {
        match *turn {
            Turn::Place(_, idx) => idx < 8 && !self.0[idx].is_full(),
            Turn::Move(colour, idx1, idx2) => {
                if idx1 >= 8 || idx2 >= 8 || idx1 == idx2 {
                    false
                } else if let Piece::Piece(c) = *self.0[idx1].peek_top() {
                    let diff = if idx1 > idx2 {
                        idx1 - idx2
                    } else {
                        idx2 - idx1
                    };
                    !self.0[idx2].is_full() && c == colour && (diff % 8 == 1 || diff % 8 == 7
                        || diff % 8 == 4)
                } else {
                    false
                }
            },
        }
    }

    /// Plays `turn`, which must be possible.
    pub fn do_turn(&mut self, turn: &Turn)
        requires
            legal(old(self)@, *turn),
        ensures
            final(self)@ == apply(old(self)@, *turn),
    {
        match *turn {
            Turn::Place(colour, idx) => {
                self.0[idx].add_piece(&colour);
            },
            Turn::Move(colour, idx1, idx2) => {
                self.0[idx1].remove_piece(&colour);
                self.0[idx2].add_piece(&colour);
            },
        }
        assert(self@ =~= apply(old(self)@, *turn));
    }
}


/// Playing a legal turn keeps every place a well-formed stack.
pub proof fn lemma_apply_wf(b: Stacks, t: Turn)
    requires
        board_wf(b),
        legal(b, t),
    ensures
        board_wf(apply(b, t)),
{
    let a = apply(b, t);
    assert forall|i: int| 0 <= i < 8 implies #[trigger] stack_wf(a[i]) by {
        assert(stack_wf(b[i]));
    }
}

/// A game in progress: the board and every turn played so far.
pub struct Game {
    pub board: Board,
    pub turns: Vec<Turn>,
}

impl Game {
    /// The side to move: White after an even number of turns.
    pub open spec fn to_move_spec(&self) -> Colour {
        if self.turns@.len() % 2 == 0 {
            Colour::White
        } else {
            Colour::Black
        }
    }

    /// Whether the game is still in its placing phase.
    pub open spec fn placing_spec(&self) -> bool {
        board_count(self.board@) < PLACING_LIMIT
    }

    /// Whether `turn` may be committed now: it is legal, made by the side to
    /// move, of the kind the phase calls for, and not the turn that a challenge
    /// just refused.
    pub open spec fn accepts_spec(&self, turn: Turn, refused: Option<Turn>) -> bool {
        &&& legal(self.board@, turn)
        &&& turn.colour_of() == self.to_move_spec()
        &&& (self.placing_spec() ==> turn is Place)
        &&& (!self.placing_spec() ==> turn is Move)
        &&& refused != Some(turn)
    }

    /// How the game stands: ended by a mill, or drawn because the side to move
    /// has no turn at all; `None` while it goes on.
    pub open spec fn result_spec(&self) -> Option<EndState> {
        match outcome(self.board@) {
            Some(e) => Some(e),
            None => if legal_turns(self.to_move_spec(), self.board@).len() == 0 {
                Some(EndState::Draw)
            } else {
                None
            },
        }
    }

    /// A game on an empty board.
    pub fn new() -> (r: Self)
        ensures
            r.board.wf(),
            forall|i: int| 0 <= i < 8 ==> stack_empty(#[trigger] r.board@[i]),
            r.turns@.len() == 0,
    {
        Self { board: Board::new(), turns: Vec::new() }
    }

    /// The side to move.
    pub fn to_move(&self) -> (r: Colour)
        ensures
            r == self.to_move_spec(),
    {
        if self.turns.len() % 2 == 0 {
            Colour::White
        } else {
            Colour::Black
        }
    }

    /// Whether the side to move places a new piece rather than moving one.
    pub fn is_placing(&self) -> (r: bool)
        ensures
            r == self.placing_spec(),
    {
        self.board.count_pieces() < PLACING_LIMIT
    }

    /// Whether `turn` may be committed now (see `accepts_spec`).
    pub fn accepts(&self, turn: &Turn, refused: Option<Turn>) -> (r: bool)
        ensures
            r == self.accepts_spec(*turn, refused),
    {
        let kind_fits = match *turn {
            Turn::Place(_, _) => self.is_placing(),
            Turn::Move(_, _, _) => !self.is_placing(),
        };
        let colour = match *turn {
            Turn::Place(c, _) => c,
            Turn::Move(c, _, _) => c,
        };
        let fresh = match refused {
            Some(t) => t != *turn,
            None => true,
        };
        self.board.is_possible_turn(turn) && colour == self.to_move() && kind_fits && fresh
    }

    /// How the game stands (see `result_spec`).
    pub fn result(&self) -> (r: Option<EndState>)
        ensures
            r == self.result_spec(),
    {
        match self.board.is_won() {
            Some(e) => Some(e),
            None => if Bot::legal_turns(self.to_move(), &self.board).len() == 0 {
                Some(EndState::Draw)
            } else {
                None
            },
        }
    }

    /// Whether the side to move has more than one turn, so that a challenged
    /// turn can be replaced by another.
    pub fn can_replay(&self) -> (r: bool)
        ensures
            r == (legal_turns(self.to_move_spec(), self.board@).len() >= 2),
    {
        Bot::legal_turns(self.to_move(), &self.board).len() >= 2
    }

    /// Commits a legal turn: plays it on the board and records it.
    pub fn play(&mut self, turn: &Turn)
        requires
            legal(old(self).board@, *turn),
        ensures
            final(self).board@ == apply(old(self).board@, *turn),
            final(self).turns@ == old(self).turns@.push(*turn),
            old(self).board.wf() ==> final(self).board.wf(),
    {
        proof {
            if self.board.wf() {
                lemma_apply_wf(self.board@, *turn);
            }
        }
        self.board.do_turn(turn);
        self.turns.push(*turn);
    }
}

} // verus!
