//! Properties of the rules and of the engine that hold for every board.
use vstd::prelude::*;
use crate::game::{
    apply, board_wf, has_mill, legal, mill_at, occupied, outcome, stack_full, stack_pop,
    stack_push, stack_top, stack_wf, Colour, EndState, Piece, Stacks, Turn,
};
use crate::search::{
    lemma_legal_turns, lemma_scale_divisible, score, sum_scores, SCALE,
    best_score, lemma_max_below, lemma_seq_max, legal_turns, max_below, scores_of, second_score,
    seq_max,
};

verus! {

/// A placement is legal exactly when its place, one of the eight, is not full.
pub proof fn lemma_place_legality(b: Stacks, c: Colour, i: usize)
    requires
        i < 8,
    ensures
        legal(b, Turn::Place(c, i)) <==> !stack_full(b[i as int]),
{
}

/// A move between two of the eight places is legal exactly when the mover's
/// piece is on top of the source, the target is not full, the two differ, and
/// the short way round the ring between them is one step or four.
pub proof fn lemma_move_legality(b: Stacks, c: Colour, i: usize, j: usize)
    requires
        i < 8,
        j < 8,
    ensures
        legal(b, Turn::Move(c, i, j)) <==> ({
            let d = (if i >= j { i - j } else { j - i }) as int % 8;
            let ring = if d <= 8 - d { d } else { 8 - d };
            &&& stack_top(b[i as int]) == Piece::Piece(c)
            &&& !stack_full(b[j as int])
            &&& i != j
            &&& (ring == 1 || ring == 4)
        }),
{
}

/// The same slot with the other colour.
pub open spec fn swap_piece(p: Piece) -> Piece {
    match p {
        Piece::Piece(c) => Piece::Piece(c.other()),
        Piece::Blank => Piece::Blank,
    }
}

/// The board with every piece changed to the other colour.
pub open spec fn swap_colours(b: Stacks) -> Stacks {
    b.map_values(|s: Seq<Piece>| s.map_values(|p: Piece| swap_piece(p)))
}

/// An end of the game with the winner changed to the other side.
pub open spec fn swap_end(e: Option<EndState>) -> Option<EndState> {
    match e {
        Some(EndState::Win(c)) => Some(EndState::Win(c.other())),
        other => other,
    }
}

proof fn lemma_swap_stack(s: Seq<Piece>, c: Colour)
    requires
        s.len() == 3,
    ensures
        ({
            let w = s.map_values(|p: Piece| swap_piece(p));
            &&& stack_top(w) == swap_piece(stack_top(s))
            &&& forall|k: int| 0 <= k < 3 ==> (w[k] == Piece::Piece(c) <==> s[k] == Piece::Piece(c.other())) 
        }),
{
}

/// Eight places of three slots each: the shape of every board.
pub open spec fn board_shape(b: Stacks) -> bool {
    b.len() == 8 && forall|i: int| 0 <= i < 8 ==> #[trigger] b[i].len() == 3
}

proof fn lemma_mill_swap(b: Stacks, i: int, c: Colour)
    requires
        board_shape(b),
        0 <= i < 8,
    ensures
        mill_at(swap_colours(b), i, c) <==> mill_at(b, i, c.other()),
{
    let w = swap_colours(b);
    assert forall|k: int| 0 <= k < 8 implies {
        &&& #[trigger] stack_top(w[k]) == Piece::Piece(c) <==> stack_top(b[k]) == Piece::Piece(c.other())
        &&& (w[k][0] == Piece::Piece(c) <==> b[k][0] == Piece::Piece(c.other()))
        &&& (w[k][1] == Piece::Piece(c) <==> b[k][1] == Piece::Piece(c.other()))
        &&& (w[k][2] == Piece::Piece(c) <==> b[k][2] == Piece::Piece(c.other()))
    } by {
        assert(b[k].len() == 3);
        lemma_swap_stack(b[k], c);
    }
    assert(0 <= (i + 1) % 8 < 8 && 0 <= (i + 2) % 8 < 8 && 0 <= (i + 3) % 8 < 8);
}

proof fn lemma_has_mill_swap(b: Stacks, c: Colour)
    requires
        board_shape(b),
    ensures
        has_mill(swap_colours(b), c) <==> has_mill(b, c.other()),
{
    if has_mill(swap_colours(b), c) {
        let i = choose|i: int| 0 <= i < 8 && mill_at(swap_colours(b), i, c);
        lemma_mill_swap(b, i, c);
    }
    if has_mill(b, c.other()) {
        let i = choose|i: int| 0 <= i < 8 && mill_at(b, i, c.other());
        lemma_mill_swap(b, i, c);
    }
}

/// Swapping the colour of every piece swaps the winner and keeps a draw a draw.
pub proof fn lemma_outcome_colour_symmetric(b: Stacks)
    requires
        board_shape(b),
    ensures
        outcome(swap_colours(b)) == swap_end(outcome(b)),
{
    lemma_has_mill_swap(b, Colour::White);
    lemma_has_mill_swap(b, Colour::Black);
}

/// The search divides by the number of replies without remainder, so a score
/// is exactly the mean of the reply scores, scaled once more by `SCALE`.
pub proof fn lemma_exact_average(t: Turn, b: Stacks, p: Colour, d: nat)
    requires
        outcome(apply(b, t)) is None,
        d > 0,
        legal_turns(t.colour_of().other(), apply(b, t)).len() > 0,
    ensures
        ({
            let next = apply(b, t);
            let replies = legal_turns(t.colour_of().other(), next);
            score(t, b, p, d) * replies.len() == sum_scores(replies, next, p, (d - 1) as nat)
                * SCALE
        }),
{
    let next = apply(b, t);
    let replies = legal_turns(t.colour_of().other(), next);
    lemma_legal_turns(t.colour_of().other(), next);
    let n = replies.len() as int;
    lemma_scale_divisible(n);
    let q = SCALE as int / n;
    let total = sum_scores(replies, next, p, (d - 1) as nat);
    assert(q * n == SCALE);
    assert(total * q * n == total * SCALE) by (nonlinear_arith)
        requires
            q * n == SCALE,
    ;
}

/// The second score never exceeds the best, and equals it exactly when every
/// turn of the side scores alike.
pub proof fn lemma_second_best_at_most_best(c: Colour, b: Stacks, d: nat)
    requires
        legal_turns(c, b).len() > 0,
    ensures
        second_score(c, b, d) <= best_score(c, b, d),
        second_score(c, b, d) == best_score(c, b, d) <==> ({
            let s = scores_of(legal_turns(c, b), b, c, d);
            forall|i: int, j: int| 0 <= i < s.len() && 0 <= j < s.len() ==> s[i] == s[j]
        }),
{
    let s = scores_of(legal_turns(c, b), b, c, d);
    let m = seq_max(s);
    lemma_seq_max(s);
    lemma_max_below(s, m);
    let top = choose|i: int| 0 <= i < s.len() && s[i] == m;
    if let Some(v) = max_below(s, m) {
        let low = choose|i: int| 0 <= i < s.len() && s[i] == v;
        assert(s[low] != s[top]);
    } else {
        assert forall|i: int, j: int| 0 <= i < s.len() && 0 <= j < s.len() implies s[i] == s[j] by {
            assert(s[i] >= m && s[j] >= m);
        }
    }
}

/// Moving a piece and moving it straight back restores the board.
pub proof fn lemma_move_round_trip(b: Stacks, c: Colour, i: usize, j: usize)
    requires
        board_wf(b),
        legal(b, Turn::Move(c, i, j)),
    ensures
        legal(apply(b, Turn::Move(c, i, j)), Turn::Move(c, j, i)),
        apply(apply(b, Turn::Move(c, i, j)), Turn::Move(c, j, i)) == b,
{
    let a = apply(b, Turn::Move(c, i, j));
    let bi = b[i as int];
    let bj = b[j as int];
    assert(stack_wf(bi) && stack_wf(bj));
    assert(a[i as int] == stack_pop(bi));
    assert(a[j as int] == stack_push(bj, c));
    assert(stack_top(a[j as int]) == Piece::Piece(c));
    assert(!stack_full(a[i as int]));
    assert(stack_pop(stack_push(bj, c)) =~= bj);
    assert(stack_push(stack_pop(bi), c) =~= bi);
    assert(apply(a, Turn::Move(c, j, i)) =~= b);
}

} // verus!
