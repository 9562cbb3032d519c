//! The search the computer opponent performs, stated over board models:
//! candidate turns, exact scores, and the best and second-best buckets.
use vstd::prelude::*;
use crate::game::{
    apply, board_count, count_upto, legal, outcome, stack_full, stack_height, Colour, EndState,
    Stacks, Turn, PLACING_LIMIT,
};

verus! {

/// Scores are kept exact: a score searched `d` levels deep is the average
/// outcome (from -100 to 100) multiplied by `SCALE` to the power `d`. `SCALE`
/// is divisible by every number of candidate turns, 1 to 24, so each average
/// is an exact integer.
pub const SCALE: i128 = 5354228880;

/// The deepest search whose exact scores fit in an `i128`.
pub const MAX_SEARCH_DEPTH: u64 = 3;

/// The placements of `c` on the first `n` places that are legal on `b`, in
/// order of place.
pub open spec fn place_candidates(b: Stacks, c: Colour, n: int) -> Seq<Turn>
    decreases n,
{
    if n <= 0 {
        seq![]
    } else {
        let earlier = place_candidates(b, c, n - 1);
        let t = Turn::Place(c, (n - 1) as usize);
        if legal(b, t) {
            earlier.push(t)
        } else {
            earlier
        }
    }
}

/// The ring offset probed for the `k`-th move candidate: 1, 4, 7, 1, 4, 7, ...
pub open spec fn probe(k: int) -> int {
    if k % 3 == 0 {
        1
    } else if k % 3 == 1 {
        4
    } else {
        7
    }
}

/// The `k`-th move candidate of `c`: from place `k / 3` by the offset `probe(k)`.
pub open spec fn move_candidate(c: Colour, k: int) -> Turn {
    Turn::Move(c, (k / 3) as usize, ((k / 3 + probe(k)) % 8) as usize)
}

/// The first `n` move candidates of `c` that are legal on `b`, in order.
pub open spec fn move_candidates(b: Stacks, c: Colour, n: int) -> Seq<Turn>
    decreases n,
{
    if n <= 0 {
        seq![]
    } else {
        let earlier = move_candidates(b, c, n - 1);
        let t = move_candidate(c, n - 1);
        if legal(b, t) {
            earlier.push(t)
        } else {
            earlier
        }
    }
}

/// The turns `c` may make on `b`: placements while fewer than sixteen pieces
/// stand on the board, moves after that.
pub open spec fn legal_turns(c: Colour, b: Stacks) -> Seq<Turn> {
    if board_count(b) < PLACING_LIMIT {
        place_candidates(b, c, 8)
    } else {
        move_candidates(b, c, 24)
    }
}

/// The scores of the turns `ts` on `b`, in the same order.
pub open spec fn scores_of(ts: Seq<Turn>, b: Stacks, p: Colour, d: nat) -> Seq<int> {
    ts.map_values(|t: Turn| score(t, b, p, d))
}

/// The largest element of `s`, or 0 when `s` is empty.
pub open spec fn seq_max(s: Seq<int>) -> int
    decreases s.len(),
{
    if s.len() == 0 {
        0
    } else if s.len() == 1 {
        s[0]
    } else {
        let m = seq_max(s.drop_last());
        if s.last() > m {
            s.last()
        } else {
            m
        }
    }
}

/// The largest element of `s` below `m`, if there is one.
pub open spec fn max_below(s: Seq<int>, m: int) -> Option<int>
    decreases s.len(),
{
    if s.len() == 0 {
        None
    } else {
        let earlier = max_below(s.drop_last(), m);
        if s.last() < m {
            match earlier {
                Some(v) => if s.last() > v {
                    Some(s.last())
                } else {
                    Some(v)
                },
                None => Some(s.last()),
            }
        } else {
            earlier
        }
    }
}

/// The second-highest distinct element of `s`; the highest when all are equal.
pub open spec fn second_max(s: Seq<int>) -> int {
    match max_below(s, seq_max(s)) {
        Some(v) => v,
        None => seq_max(s),
    }
}

/// The turns whose score on `b` for `p`, searched `d` deeper, is `v`.
pub open spec fn scored(b: Stacks, p: Colour, d: nat, v: int) -> spec_fn(Turn) -> bool {
    |t: Turn| score(t, b, p, d) == v
}

/// The highest score among the turns of `c` on `b`.
pub open spec fn best_score(c: Colour, b: Stacks, d: nat) -> int {
    seq_max(scores_of(legal_turns(c, b), b, c, d))
}

/// The next lower distinct score among the turns of `c` on `b`, or the
/// highest when all turns score alike.
pub open spec fn second_score(c: Colour, b: Stacks, d: nat) -> int {
    second_max(scores_of(legal_turns(c, b), b, c, d))
}

/// The turns of `c` on `b` with the highest score, in candidate order.
pub open spec fn best_bucket(c: Colour, b: Stacks, d: nat) -> Seq<Turn> {
    legal_turns(c, b).filter(scored(b, c, d, best_score(c, b, d)))
}

/// The turns of `c` on `b` with the second score, in candidate order.
pub open spec fn second_bucket(c: Colour, b: Stacks, d: nat) -> Seq<Turn> {
    legal_turns(c, b).filter(scored(b, c, d, second_score(c, b, d)))
}

/// The buckets that the bot chooses from.
pub open spec fn bucket(c: Colour, b: Stacks, d: nat, second_best: bool) -> Seq<Turn> {
    if second_best {
        second_bucket(c, b, d)
    } else {
        best_bucket(c, b, d)
    }
}

/// A non-empty sequence holds its maximum.
pub proof fn lemma_seq_max(s: Seq<int>)
    requires
        s.len() > 0,
    ensures
        exists|i: int| 0 <= i < s.len() && s[i] == seq_max(s),
        forall|i: int| 0 <= i < s.len() ==> s[i] <= seq_max(s),
    decreases s.len(),
{
    if s.len() == 1 {
        assert(s[0] == seq_max(s));
    } else {
        lemma_seq_max(s.drop_last());
        let w = choose|i: int| 0 <= i < s.len() - 1 && s.drop_last()[i] == seq_max(s.drop_last());
        if s.last() <= seq_max(s.drop_last()) {
            assert(s[w] == seq_max(s));
        } else {
            assert(s[s.len() - 1] == seq_max(s));
        }
        assert forall|i: int| 0 <= i < s.len() implies s[i] <= seq_max(s) by {
            if i < s.len() - 1 {
                assert(s[i] == s.drop_last()[i]);
            }
        }
    }
}

/// What `max_below` finds is an element below `m`, and no element below `m`
/// exceeds it; it finds nothing only when no element is below `m`.
pub proof fn lemma_max_below(s: Seq<int>, m: int)
    ensures
        max_below(s, m) is None <==> forall|i: int| 0 <= i < s.len() ==> s[i] >= m,
        max_below(s, m) matches Some(v) ==> {
            &&& v < m
            &&& exists|i: int| 0 <= i < s.len() && s[i] == v
            &&& forall|i: int| 0 <= i < s.len() && s[i] < m ==> s[i] <= v
        },
    decreases s.len(),
{
    if s.len() > 0 {
        let t = s.drop_last();
        lemma_max_below(t, m);
        assert forall|i: int| 0 <= i < s.len() - 1 implies s[i] == t[i] by {}
        if let Some(v) = max_below(s, m) {
            if v != s.last() {
                let w = choose|i: int| 0 <= i < t.len() && t[i] == v;
                assert(s[w] == v);
            }
        }
    }
}

/// `SCALE` to the power `d`.
pub open spec fn scale_pow(d: nat) -> int
    decreases d,
{
    if d == 0 {
        1
    } else {
        SCALE * scale_pow((d - 1) as nat)
    }
}

/// The largest magnitude of a score searched `d` levels deep.
pub open spec fn score_bound(d: nat) -> int {
    100 * scale_pow(d)
}

/// The value of a finished game for `p`: 100 for a win, -100 for a loss, 0 for
/// a draw.
pub open spec fn end_value(e: EndState, p: Colour) -> int {
    match e {
        EndState::Win(c) => if c == p {
            100
        } else {
            -100
        },
        EndState::Draw => 0,
    }
}

/// The score of `t` on `b` for `p`, searched `d` levels deeper, scaled by
/// `SCALE` to the power `d`. A turn that ends the game is worth its end value.
/// Otherwise it is worth nothing at the horizon, and beyond it the average of
/// the scores of every reply of the other side. A side with no reply counts as
/// a draw.
pub open spec fn score(t: Turn, b: Stacks, p: Colour, d: nat) -> int
    decreases d, 0nat,
{
    let next = apply(b, t);
    match outcome(next) {
        Some(e) => end_value(e, p) * scale_pow(d),
        None => if d == 0 {
            0
        } else {
            let replies = legal_turns(t.colour_of().other(), next);
            if replies.len() == 0 {
                0
            } else {
                sum_scores(replies, next, p, (d - 1) as nat) * (SCALE as int / replies.len() as int)
            }
        },
    }
}

/// The sum of the scores of the turns `ts` on `b`.
pub open spec fn sum_scores(ts: Seq<Turn>, b: Stacks, p: Colour, d: nat) -> int
    decreases d, ts.len() + 1,
{
    if ts.len() == 0 {
        0
    } else {
        sum_scores(ts.drop_last(), b, p, d) + score(ts.last(), b, p, d)
    }
}

/// The powers of `SCALE` that the search uses, and how each grows from the last.
pub proof fn lemma_scale_pow_range(d: nat)
    requires
        d <= MAX_SEARCH_DEPTH,
    ensures
        1 <= scale_pow(d) <= SCALE * SCALE * SCALE,
        d > 0 ==> scale_pow(d) == SCALE * scale_pow((d - 1) as nat),
        d > 0 ==> scale_pow((d - 1) as nat) <= SCALE * SCALE,
{
    reveal_with_fuel(scale_pow, 4);
    if d == 0 {
    } else if d == 1 {
    } else if d == 2 {
    } else {
    }
}

/// Every turn kept by a filter comes from the filtered sequence.
pub proof fn lemma_filter_subset(ts: Seq<Turn>, pred: spec_fn(Turn) -> bool)
    ensures
        forall|t: Turn| #[trigger] ts.filter(pred).contains(t) ==> ts.contains(t) && pred(t),
    decreases ts.len(),
{
    reveal(Seq::filter);
    if ts.len() > 0 {
        lemma_filter_subset(ts.drop_last(), pred);
        assert forall|t: Turn| ts.filter(pred).contains(t) implies ts.contains(t) && pred(t) by {
            let f = ts.filter(pred);
            let sub = ts.drop_last().filter(pred);
            if pred(ts.last()) {
                assert(f == sub.push(ts.last()));
            } else {
                assert(f == sub);
            }
            let j = choose|j: int| 0 <= j < f.len() && f[j] == t;
            if pred(ts.last()) && j == f.len() - 1 {
                assert(ts[ts.len() - 1] == t);
            } else {
                assert(sub[j] == t);
                assert(sub.contains(t));
                let i = choose|i: int| 0 <= i < ts.len() - 1 && ts.drop_last()[i] == t;
                assert(ts[i] == t);
            }
        }
    }
}

proof fn lemma_full_board_count(b: Stacks, n: int)
    requires
        0 <= n <= 8,
        forall|i: int| 0 <= i < n ==> #[trigger] stack_full(b[i]),
    ensures
        count_upto(b, n) == 3 * n,
    decreases n,
{
    if n > 0 {
        lemma_full_board_count(b, n - 1);
        assert(stack_full(b[n - 1]));
        assert(stack_height(b[n - 1]) == 3);
    }
}

proof fn lemma_place_candidate_found(b: Stacks, c: Colour, n: int, i: int)
    requires
        0 <= i < n <= 8,
        legal(b, Turn::Place(c, i as usize)),
    ensures
        place_candidates(b, c, n).len() > 0,
    decreases n,
{
    if i < n - 1 {
        lemma_place_candidate_found(b, c, n - 1, i);
    }
}

/// While fewer than sixteen pieces stand on the board, every side has a turn.
pub proof fn lemma_placing_has_turns(c: Colour, b: Stacks)
    requires
        board_count(b) < PLACING_LIMIT,
    ensures
        legal_turns(c, b).len() > 0,
{
    if forall|i: int| 0 <= i < 8 ==> #[trigger] stack_full(b[i]) {
        lemma_full_board_count(b, 8);
    } else {
        let i = choose|i: int| 0 <= i < 8 && !stack_full(b[i]);
        lemma_place_candidate_found(b, c, 8, i);
    }
}

/// A turn of a bucket is a legal turn of its side, of the kind the phase
/// calls for.
pub proof fn lemma_bucket_turn(c: Colour, b: Stacks, d: nat, second_best: bool, t: Turn)
    requires
        bucket(c, b, d, second_best).contains(t),
    ensures
        legal_turns(c, b).contains(t),
        legal(b, t),
        t.colour_of() == c,
        board_count(b) < PLACING_LIMIT ==> t is Place,
        board_count(b) >= PLACING_LIMIT ==> t is Move,
{
    let ts = legal_turns(c, b);
    lemma_legal_turns(c, b);
    lemma_filter_subset(ts, scored(b, c, d, best_score(c, b, d)));
    lemma_filter_subset(ts, scored(b, c, d, second_score(c, b, d)));
    if second_best {
        assert(second_bucket(c, b, d).contains(t));
    } else {
        assert(best_bucket(c, b, d).contains(t));
    }
    assert(ts.contains(t));
    let k = choose|k: int| 0 <= k < ts.len() && ts[k] == t;
    assert(legal(b, ts[k]));
}

/// Every possible number of candidate turns divides `SCALE`.
pub proof fn lemma_scale_divisible(n: int)
    requires
        1 <= n <= 24,
    ensures
        SCALE as int / n * n == SCALE,
{
    if n == 1 {
    } else if n == 2 {
        assert(SCALE as int / 2 * 2 == SCALE);
    } else if n == 3 {
        assert(SCALE as int / 3 * 3 == SCALE);
    } else if n == 4 {
        assert(SCALE as int / 4 * 4 == SCALE);
    } else if n == 5 {
        assert(SCALE as int / 5 * 5 == SCALE);
    } else if n == 6 {
        assert(SCALE as int / 6 * 6 == SCALE);
    } else if n == 7 {
        assert(SCALE as int / 7 * 7 == SCALE);
    } else if n == 8 {
        assert(SCALE as int / 8 * 8 == SCALE);
    } else if n == 9 {
        assert(SCALE as int / 9 * 9 == SCALE);
    } else if n == 10 {
        assert(SCALE as int / 10 * 10 == SCALE);
    } else if n == 11 {
        assert(SCALE as int / 11 * 11 == SCALE);
    } else if n == 12 {
        assert(SCALE as int / 12 * 12 == SCALE);
    } else if n == 13 {
        assert(SCALE as int / 13 * 13 == SCALE);
    } else if n == 14 {
        assert(SCALE as int / 14 * 14 == SCALE);
    } else if n == 15 {
        assert(SCALE as int / 15 * 15 == SCALE);
    } else if n == 16 {
        assert(SCALE as int / 16 * 16 == SCALE);
    } else if n == 17 {
        assert(SCALE as int / 17 * 17 == SCALE);
    } else if n == 18 {
        assert(SCALE as int / 18 * 18 == SCALE);
    } else if n == 19 {
        assert(SCALE as int / 19 * 19 == SCALE);
    } else if n == 20 {
        assert(SCALE as int / 20 * 20 == SCALE);
    } else if n == 21 {
        assert(SCALE as int / 21 * 21 == SCALE);
    } else if n == 22 {
        assert(SCALE as int / 22 * 22 == SCALE);
    } else if n == 23 {
        assert(SCALE as int / 23 * 23 == SCALE);
    } else if n == 24 {
        assert(SCALE as int / 24 * 24 == SCALE);
    }
}

proof fn lemma_place_candidates(b: Stacks, c: Colour, n: int)
    requires
        0 <= n <= 8,
    ensures
        place_candidates(b, c, n).len() <= n,
        forall|k: int|
            0 <= k < place_candidates(b, c, n).len() ==> {
                let t = #[trigger] place_candidates(b, c, n)[k];
                legal(b, t) && t is Place && t.colour_of() == c
            },
    decreases n,
{
    if n > 0 {
        lemma_place_candidates(b, c, n - 1);
    }
}

proof fn lemma_move_candidates(b: Stacks, c: Colour, n: int)
    requires
        0 <= n <= 24,
    ensures
        move_candidates(b, c, n).len() <= n,
        forall|k: int|
            0 <= k < move_candidates(b, c, n).len() ==> {
                let t = #[trigger] move_candidates(b, c, n)[k];
                legal(b, t) && t is Move && t.colour_of() == c
            },
    decreases n,
{
    if n > 0 {
        lemma_move_candidates(b, c, n - 1);
    }
}

/// Every candidate is a legal turn of `c`, placements in the placing phase and
/// moves after it, and there are at most 24 of them.
pub proof fn lemma_legal_turns(c: Colour, b: Stacks)
    ensures
        legal_turns(c, b).len() <= 24,
        forall|k: int|
            0 <= k < legal_turns(c, b).len() ==> {
                let t = #[trigger] legal_turns(c, b)[k];
                &&& legal(b, t)
                &&& t.colour_of() == c
                &&& (board_count(b) < PLACING_LIMIT ==> t is Place)
                &&& (board_count(b) >= PLACING_LIMIT ==> t is Move)
            },
{
    lemma_place_candidates(b, c, 8);
    lemma_move_candidates(b, c, 24);
}

} // verus!
