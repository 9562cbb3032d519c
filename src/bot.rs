//! The computer opponent: its candidate turns, their scores, the best and
//! second-best buckets, and the second-best challenge.
use vstd::prelude::*;
use rand::seq::SliceRandom;
use crate::game::{board_count, legal, Board, Colour, EndState, Turn, PLACING_LIMIT};
use crate::search::{
    best_bucket, best_score, bucket, lemma_bucket_turn, lemma_filter_subset, lemma_legal_turns,
    lemma_max_below, lemma_placing_has_turns, lemma_scale_pow_range, lemma_seq_max, legal_turns,
    max_below, move_candidate, move_candidates, place_candidates, scale_pow, score, score_bound,
    scored, scores_of, second_bucket, seq_max, sum_scores, MAX_SEARCH_DEPTH, SCALE,
};

verus! {

/// Relies on rand's `SliceRandom::choose` for slices, drawn from
/// `rand::thread_rng`: `None` for an empty slice, else one of its elements.
#[verifier::external_body]
fn choose_from(turns: &Vec<Turn>) -> (r: Option<Turn>)
    ensures
        r is None <==> turns@.len() == 0,
        r matches Some(t) ==> turns@.contains(t),
{
    turns.as_slice().choose(&mut rand::thread_rng()).copied()
}

/// Whether `turn` is one of `turns`.
fn contains_turn(turns: &Vec<Turn>, turn: &Turn) -> (r: bool)
    ensures
        r == turns@.contains(*turn),
{
    for k in 0..turns.len()
        invariant
            forall|m: int| 0 <= m < k ==> turns@[m] != *turn,
    {
        if turns[k] == *turn {
            return true;
        }
    }
    false
}

/// `SCALE` to the powers the search needs.
fn scale_power(depth: u64) -> (r: i128)
    requires
        depth <= MAX_SEARCH_DEPTH,
    ensures
        r == scale_pow(depth as nat),
{
    proof {
        reveal_with_fuel(scale_pow, 4);
    }
    if depth == 0 {
        1
    } else if depth == 1 {
        SCALE
    } else if depth == 2 {
        SCALE * SCALE
    } else {
        SCALE * SCALE * SCALE
    }
}

/// A computer player: one side, and how many levels beyond its own turn it
/// searches.
pub struct Bot {
    colour: Colour,
    search_depth: u64,
}

impl Bot {
    /// The side the bot plays.
    pub closed spec fn colour_spec(&self) -> Colour {
        self.colour
    }

    /// How many levels beyond its own turn the bot searches.
    pub closed spec fn depth_spec(&self) -> nat {
        self.search_depth as nat
    }

    /// The search depth is one whose scores fit in an `i128`.
    pub open spec fn wf(&self) -> bool {
        self.depth_spec() <= MAX_SEARCH_DEPTH
    }

    pub fn new(colour: Colour, search_depth: u64) -> (r: Self)
        requires
            search_depth <= MAX_SEARCH_DEPTH,
        ensures
            r.colour_spec() == colour,
            r.depth_spec() == search_depth,
            r.wf(),
    {
        Self { colour, search_depth }
    }

    pub fn get_colour(&self) -> (r: Colour)
        ensures
            r == self.colour_spec(),
    {
        self.colour
    }

    /// The legal placements of `colour`, in order of place.
    pub fn all_possible_place(colour: Colour, board: &Board) -> (r: Vec<Turn>)
        ensures
            r@ == place_candidates(board@, colour, 8),
    {
        let mut turns: Vec<Turn> = Vec::new();
        for i in 0..8
            invariant
                turns@ == place_candidates(board@, colour, i as int),
        {
            let turn = Turn::Place(colour, i);
            if board.is_possible_turn(&turn) {
                turns.push(turn);
            }
        }
        turns
    }

    /// The legal moves of `colour`: from each place in order, to the places
    /// 1, 4 and 7 further round the ring.
    pub fn all_possible_move(colour: Colour, board: &Board) -> (r: Vec<Turn>)
        ensures
            r@ == move_candidates(board@, colour, 24),
    {
        let mut turns: Vec<Turn> = Vec::new();
        let offsets: [usize; 3] = [1, 4, 7];
        for i in 0..8
            invariant
                turns@ == move_candidates(board@, colour, 3 * i as int),
                offsets@ == seq![1usize, 4usize, 7usize],
        {
            for j in 0..3usize
                invariant
                    0 <= i < 8,
                    turns@ == move_candidates(board@, colour, 3 * i as int + j as int),
                    offsets@ == seq![1usize, 4usize, 7usize],
            {
                let turn = Turn::Move(colour, i, (i + offsets[j]) % 8);
                assert(turn == move_candidate(colour, 3 * i as int + j as int));
                if board.is_possible_turn(&turn) {
                    turns.push(turn);
                }
            }
        }
        turns
    }

    /// The exact score of `turn` on `board` for `colour`, searched `depth`
    /// levels deeper: the average outcome over all continuations, scaled as
    /// `score` says.
    pub fn score_turn(turn: &Turn, board: &Board, colour: Colour, depth: u64) -> (r: i128)
        requires
            legal(board@, *turn),
            depth <= MAX_SEARCH_DEPTH,
        ensures
            r == score(*turn, board@, colour, depth as nat),
            -score_bound(depth as nat) <= r <= score_bound(depth as nat),
        decreases depth,
    {
        proof {
            lemma_scale_pow_range(depth as nat);
        }
        let mut next = *board;
        next.do_turn(turn);
        match next.is_won() {
            Some(end) => {
                let unit = scale_power(depth);
                match end {
                    EndState::Win(c) => if c == colour {
                        100 * unit
                    } else {
                        0 - 100 * unit
                    },
                    EndState::Draw => 0,
                }
            },
            None => {
                if depth == 0 {
                    return 0;
                }
                let mover = match *turn {
                    Turn::Place(c, _) => c,
                    Turn::Move(c, _, _) => c,
                }.opposite();
                let replies = Self::legal_turns(mover, &next);
                proof {
                    lemma_legal_turns(mover, next@);
                }
                if replies.len() == 0 {
                    return 0;
                }
                let ghost d1 = (depth - 1) as nat;
                let ghost b1 = score_bound(d1);
                assert(0 < b1 <= 100 * SCALE * SCALE);
                let mut sum: i128 = 0;
                let mut k: usize = 0;
                while k < replies.len()
                    invariant
                        k <= replies@.len() <= 24,
                        1 <= depth <= MAX_SEARCH_DEPTH,
                        d1 == depth - 1,
                        b1 == score_bound(d1),
                        0 < b1 <= 100 * SCALE * SCALE,
                        forall|m: int| 0 <= m < replies@.len() ==> legal(next@, #[trigger] replies@[m]),
                        sum == sum_scores(replies@.take(k as int), next@, colour, d1),
                        -(k as int * b1) <= sum <= k as int * b1,
                    decreases replies.len() - k,
                {
                    let s = Self::score_turn(&replies[k], &next, colour, depth - 1);
                    proof {
                        assert(replies@.take(k + 1).drop_last() =~= replies@.take(k as int));
                        assert((k + 1) as int * b1 == k as int * b1 + b1) by (nonlinear_arith);
                        assert((k + 1) as int * b1 <= 24 * (100 * SCALE * SCALE)) by (nonlinear_arith)
                            requires
                                k + 1 <= 24,
                                0 < b1 <= 100 * SCALE * SCALE,
                        ;
                    }
                    sum = sum + s;
                    k = k + 1;
                }
                assert(replies@.take(k as int) =~= replies@);
                let n = replies.len() as i128;
                let q = SCALE / n;
                proof {
                    let len = replies@.len() as int;
                    assert(q * n <= SCALE) by (nonlinear_arith)
                        requires
                            q == SCALE / n,
                            n > 0,
                    ;
                    assert(score_bound(depth as nat) == SCALE * b1);
                    assert(-(SCALE * b1) <= sum * q <= SCALE * b1) by (nonlinear_arith)
                        requires
                            -(len * b1) <= sum <= len * b1,
                            q * len <= SCALE,
                            q >= 0,
                            b1 > 0,
                    ;
                }
                sum * q
            },
        }
    }

    /// The turns of `colour` with the highest score and those with the next
    /// lower distinct score (the same turns when every turn scores alike).
    /// Both are empty when `colour` has no turn.
    pub fn best_and_second_best(colour: Colour, board: &Board, depth: u64) -> (r: (
        Vec<Turn>,
        Vec<Turn>,
    ))
        requires
            depth <= MAX_SEARCH_DEPTH,
        ensures
            r.0@ == best_bucket(colour, board@, depth as nat),
            r.1@ == second_bucket(colour, board@, depth as nat),
            legal_turns(colour, board@).len() > 0 ==> r.0@.len() > 0 && r.1@.len() > 0,
    {
        let turns = Self::legal_turns(colour, board);
        proof {
            lemma_legal_turns(colour, board@);
        }
        let ghost d = depth as nat;
        let ghost sc = scores_of(turns@, board@, colour, d);
        let mut scores: Vec<i128> = Vec::new();
        for k in 0..turns.len()
            invariant
                depth <= MAX_SEARCH_DEPTH,
                d == depth as nat,
                sc == scores_of(turns@, board@, colour, d),
                turns@ == legal_turns(colour, board@),
                forall|m: int| 0 <= m < turns@.len() ==> legal(board@, #[trigger] turns@[m]),
                scores@.len() == k,
                forall|m: int| 0 <= m < k ==> scores@[m] as int == #[trigger] sc[m],
        {
            let s = Self::score_turn(&turns[k], board, colour, depth);
            assert(sc[k as int] == score(turns@[k as int], board@, colour, d));
            scores.push(s);
        }
        let mut best: i128 = 0;
        for k in 0..scores.len()
            invariant
                scores@.len() == sc.len(),
                forall|m: int| 0 <= m < sc.len() ==> scores@[m] as int == #[trigger] sc[m],
                best as int == seq_max(sc.take(k as int)),
        {
            proof {
                assert(sc.take(k + 1).drop_last() =~= sc.take(k as int));
            }
            if k == 0 || scores[k] > best {
                best = scores[k];
            }
        }
        proof {
            assert(sc.take(sc.len() as int) =~= sc);
        }
        let mut has_second = false;
        let mut second: i128 = 0;
        for k in 0..scores.len()
            invariant
                scores@.len() == sc.len(),
                forall|m: int| 0 <= m < sc.len() ==> scores@[m] as int == #[trigger] sc[m],
                max_below(sc.take(k as int), best as int) == if has_second {
                    Some(second as int)
                } else {
                    None
                },
        {
            proof {
                assert(sc.take(k + 1).drop_last() =~= sc.take(k as int));
            }
            if scores[k] < best && (!has_second || scores[k] > second) {
                has_second = true;
                second = scores[k];
            }
        }
        proof {
            assert(sc.take(sc.len() as int) =~= sc);
        }
        if !has_second {
            second = best;
        }
        let ghost top_pred = scored(board@, colour, d, best as int);
        let ghost next_pred = scored(board@, colour, d, second as int);
        let mut top: Vec<Turn> = Vec::new();
        let mut runner: Vec<Turn> = Vec::new();
        for k in 0..turns.len()
            invariant
                scores@.len() == turns@.len(),
                sc == scores_of(turns@, board@, colour, d),
                forall|m: int| 0 <= m < sc.len() ==> scores@[m] as int == #[trigger] sc[m],
                top_pred == scored(board@, colour, d, best as int),
                next_pred == scored(board@, colour, d, second as int),
                top@ == turns@.take(k as int).filter(top_pred),
                runner@ == turns@.take(k as int).filter(next_pred),
        {
            proof {
                reveal(Seq::filter);
                assert(turns@.take(k + 1).drop_last() =~= turns@.take(k as int));
                assert(sc[k as int] == score(turns@[k as int], board@, colour, d));
            }
            if scores[k] == best {
                top.push(turns[k]);
            }
            if scores[k] == second {
                runner.push(turns[k]);
            }
        }
        proof {
            assert(turns@.take(turns@.len() as int) =~= turns@);
            if turns@.len() > 0 {
                lemma_seq_max(sc);
                lemma_max_below(sc, best as int);
                let i = choose|i: int| 0 <= i < sc.len() && sc[i] == seq_max(sc);
                turns@.lemma_filter_contains(top_pred, i);
                let j = if has_second {
                    choose|j: int| 0 <= j < sc.len() && sc[j] == second
                } else {
                    i
                };
                turns@.lemma_filter_contains(next_pred, j);
            }
        }
        (top, runner)
    }

    /// The turns of `colour` with the best score, or with the second score
    /// when `second_best` is set, searched to the bot's depth.
    pub fn best_turns_for_colour(&self, board: &Board, colour: Colour, second_best: bool) -> (r:
        Vec<Turn>)
        requires
            self.wf(),
        ensures
            r@ == bucket(colour, board@, self.depth_spec(), second_best),
            legal_turns(colour, board@).len() > 0 ==> r@.len() > 0,
    {
        let (top, runner) = Self::best_and_second_best(colour, board, self.search_depth);
        if second_best {
            runner
        } else {
            top
        }
    }

    /// One turn of the bot's bucket, picked at random.
    pub fn best_turn(&self, board: &Board, second_best: bool) -> (r: Turn)
        requires
            self.wf(),
            legal_turns(self.colour_spec(), board@).len() > 0,
        ensures
            bucket(self.colour_spec(), board@, self.depth_spec(), second_best).contains(r),
    {
        let turns = self.best_turns_for_colour(board, self.colour, second_best);
        match choose_from(&turns) {
            Some(t) => t,
            None => {
                proof {
                    assert(false);
                }
                turns[0]
            },
        }
    }

    /// The turn of the bot's bucket at `pick`, counted round the bucket: the
    /// caller draws `pick` from a source of its choosing.
    pub fn choose_turn(&self, board: &Board, second_best: bool, pick: usize) -> (r: Turn)
        requires
            self.wf(),
            legal_turns(self.colour_spec(), board@).len() > 0,
        ensures
            ({
                let bk = bucket(self.colour_spec(), board@, self.depth_spec(), second_best);
                r == bk[pick as int % bk.len() as int]
            }),
    {
        let turns = self.best_turns_for_colour(board, self.colour, second_best);
        turns[pick % turns.len()]
    }

    /// The place of the bot's next placement.
    pub fn ask_put_piece(&self, board: &Board, second_best: bool) -> (r: usize)
        requires
            self.wf(),
            board_count(board@) < PLACING_LIMIT,
        ensures
            bucket(self.colour_spec(), board@, self.depth_spec(), second_best).contains(
                Turn::Place(self.colour_spec(), r),
            ),
    {
        proof {
            lemma_placing_has_turns(self.colour_spec(), board@);
            lemma_legal_turns(self.colour_spec(), board@);
        }
        let t = self.best_turn(board, second_best);
        proof {
            lemma_bucket_turn(self.colour_spec(), board@, self.depth_spec(), second_best, t);
        }
        match t {
            Turn::Place(_, i) => i,
            Turn::Move(_, i, _) => {
                proof {
                    assert(false);
                }
                i
            },
        }
    }

    /// The source and target places of the bot's next move.
    pub fn ask_move_piece(&self, board: &Board, second_best: bool) -> (r: (usize, usize))
        requires
            self.wf(),
            board_count(board@) >= PLACING_LIMIT,
            legal_turns(self.colour_spec(), board@).len() > 0,
        ensures
            bucket(self.colour_spec(), board@, self.depth_spec(), second_best).contains(
                Turn::Move(self.colour_spec(), r.0, r.1),
            ),
    {
        proof {
            lemma_legal_turns(self.colour_spec(), board@);
        }
        let t = self.best_turn(board, second_best);
        proof {
            lemma_bucket_turn(self.colour_spec(), board@, self.depth_spec(), second_best, t);
        }
        match t {
            Turn::Move(_, i, j) => (i, j),
            Turn::Place(_, i) => {
                proof {
                    assert(false);
                }
                (i, i)
            },
        }
    }

    /// Whether the bot challenges `turn`, proposed by its opponent on `board`:
    /// it does exactly when, searching as deep as for itself, it finds `turn`
    /// among the opponent's best turns.
    pub fn ask_second_best(&self, board: &Board, turn: &Turn) -> (r: bool)
        requires
            self.wf(),
        ensures
            r == best_bucket(self.colour_spec().other(), board@, self.depth_spec()).contains(*turn),
            r == (legal_turns(self.colour_spec().other(), board@).contains(*turn) && score(
                *turn,
                board@,
                self.colour_spec().other(),
                self.depth_spec(),
            ) == best_score(self.colour_spec().other(), board@, self.depth_spec())),
    {
        let best = self.best_turns_for_colour(board, self.colour.opposite(), false);
        let r = contains_turn(&best, turn);
        proof {
            let c = self.colour_spec().other();
            let ts = legal_turns(c, board@);
            let pred = scored(board@, c, self.depth_spec(), best_score(c, board@, self.depth_spec()));
            lemma_filter_subset(ts, pred);
            if ts.contains(*turn) && pred(*turn) {
                let k = choose|k: int| 0 <= k < ts.len() && ts[k] == *turn;
                ts.lemma_filter_contains(pred, k);
            }
        }
        r
    }

    /// The turns `colour` may make on `board`.
    pub fn legal_turns(colour: Colour, board: &Board) -> (r: Vec<Turn>)
        ensures
            r@ == legal_turns(colour, board@),
    {
        if board.count_pieces() < PLACING_LIMIT {
            Self::all_possible_place(colour, board)
        } else {
            Self::all_possible_move(colour, board)
        }
    }
}

} // verus!
