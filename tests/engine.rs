use second_best::bot::Bot;
use second_best::search::SCALE;
use second_best::game::{Board, Colour, Piece, Place, Turn};

const W: Piece = Piece::Piece(Colour::White);
const B: Piece = Piece::Piece(Colour::Black);
const E: Piece = Piece::Blank;

fn board_of(places: [[Piece; 3]; 8]) -> Board {
    let mut board = Board::new();
    for i in 0..8 {
        board.0[i] = Place(places[i]);
    }
    board
}

/// Two white pieces on place 0, nothing else.
fn white_threat() -> Board {
    board_of([[W, W, E], [E; 3], [E; 3], [E; 3], [E; 3], [E; 3], [E; 3], [E; 3]])
}

/// Black has two stacks of two, so every white placement leaves it a win.
fn black_double_threat() -> Board {
    board_of([[B, B, E], [W, E, E], [W, E, E], [E; 3], [B, B, E], [E; 3], [W, E, E], [E; 3]])
}

/// Sixteen pieces, two on each place, White on top of the even places.
fn movement_board() -> Board {
    let mut places = [[E; 3]; 8];
    for i in 0..8 {
        places[i] = if i % 2 == 0 { [B, W, E] } else { [W, B, E] };
    }
    board_of(places)
}

fn placements(colour: Colour, places: &[usize]) -> Vec<Turn> {
    places.iter().map(|&i| Turn::Place(colour, i)).collect()
}

fn moves(colour: Colour, pairs: &[(usize, usize)]) -> Vec<Turn> {
    pairs.iter().map(|&(i, j)| Turn::Move(colour, i, j)).collect()
}

#[test]
fn empty_board_offers_eight_placements() {
    let turns = Bot::legal_turns(Colour::White, &Board::new());
    assert_eq!(turns, placements(Colour::White, &[0, 1, 2, 3, 4, 5, 6, 7]));
    assert_eq!(Bot::all_possible_place(Colour::White, &Board::new()).len(), 8);
}

#[test]
fn full_places_are_not_offered() {
    let b = board_of([[W, B, W], [E; 3], [B, B, W], [E; 3], [E; 3], [E; 3], [E; 3], [E; 3]]);
    assert_eq!(Bot::legal_turns(Colour::Black, &b), placements(Colour::Black, &[1, 3, 4, 5, 6, 7]));
}

#[test]
fn moves_are_offered_after_sixteen_pieces() {
    let b = movement_board();
    let expected = moves(
        Colour::White,
        &[(0, 1), (0, 4), (0, 7), (2, 3), (2, 6), (2, 1), (4, 5), (4, 0), (4, 3), (6, 7), (6, 2), (6, 5)],
    );
    assert_eq!(Bot::legal_turns(Colour::White, &b), expected);
    assert_eq!(Bot::all_possible_move(Colour::White, &b), expected);
}

#[test]
fn a_side_with_no_piece_on_top_has_no_move() {
    let b = board_of([[W, W, E], [W, W, E], [B, W, E], [W, B, W], [B, W, E], [B, W, E], [B, W, E], [B, W, E]]);
    assert_eq!(b.count_pieces(), 17);
    assert!(Bot::legal_turns(Colour::Black, &b).is_empty());
}

#[test]
fn immediate_win_scores_full_at_every_depth() {
    let b = white_threat();
    let turn = Turn::Place(Colour::White, 0);
    let mut unit: i128 = 1;
    for depth in 0..4u64 {
        assert_eq!(Bot::score_turn(&turn, &b, Colour::White, depth), 100 * unit);
        assert_eq!(Bot::score_turn(&turn, &b, Colour::Black, depth), -100 * unit);
        unit *= SCALE;
    }
}

#[test]
fn quiet_turn_scores_zero_at_the_horizon() {
    let b = white_threat();
    assert_eq!(Bot::score_turn(&Turn::Place(Colour::White, 3), &b, Colour::White, 0), 0);
}

#[test]
fn score_is_the_mean_of_the_replies() {
    // After White plays on place 1, Black wins with one of its eight replies.
    let b = black_double_threat();
    let s = Bot::score_turn(&Turn::Place(Colour::White, 1), &b, Colour::White, 1);
    assert_eq!(s, -100 * 2 * SCALE / 8);
    assert_eq!(s, -133855722000);
    // Blocking place 0 fills it, leaving seven replies, one of them winning.
    let s = Bot::score_turn(&Turn::Place(Colour::White, 0), &b, Colour::White, 1);
    assert_eq!(s, -100 * SCALE / 7);
}

#[test]
fn unstoppable_threat_makes_every_candidate_negative() {
    let b = black_double_threat();
    let turns = Bot::legal_turns(Colour::White, &b);
    assert_eq!(turns.len(), 8);
    let scores: Vec<i128> = turns.iter().map(|t| Bot::score_turn(t, &b, Colour::White, 1)).collect();
    assert!(scores.iter().all(|&s| s < 0));
    assert_eq!(scores.iter().sum::<i128>(), -956112300000);
}

#[test]
fn deeper_search_scores_exactly() {
    let b = black_double_threat();
    let s = Bot::score_turn(&Turn::Place(Colour::White, 0), &b, Colour::White, 2);
    assert_eq!(s, 117011293467045120000);
    let s = Bot::score_turn(&Turn::Place(Colour::White, 5), &b, Colour::White, 2);
    assert_eq!(s, -716694172485651360000);
}

#[test]
fn best_and_second_best_buckets() {
    let b = black_double_threat();
    let (best, second) = Bot::best_and_second_best(Colour::White, &b, 1);
    assert_eq!(best, placements(Colour::White, &[0, 4]));
    assert_eq!(second, placements(Colour::White, &[1, 2, 3, 5, 6, 7]));
    assert!(!best.is_empty());
}

#[test]
fn buckets_in_the_movement_phase() {
    let (best, second) = Bot::best_and_second_best(Colour::White, &movement_board(), 1);
    assert_eq!(best, moves(Colour::White, &[(0, 1), (0, 7), (2, 3), (2, 1), (4, 5), (4, 3), (6, 7), (6, 5)]));
    assert_eq!(second, moves(Colour::White, &[(0, 4), (2, 6), (4, 0), (6, 2)]));
}

#[test]
fn one_score_makes_both_buckets_equal() {
    let (best, second) = Bot::best_and_second_best(Colour::Black, &Board::new(), 1);
    assert_eq!(best.len(), 8);
    assert_eq!(best, second);
}

#[test]
fn no_turns_give_empty_buckets() {
    let b = board_of([[W, W, E], [W, W, E], [B, W, E], [W, B, W], [B, W, E], [B, W, E], [B, W, E], [B, W, E]]);
    let (best, second) = Bot::best_and_second_best(Colour::Black, &b, 1);
    assert!(best.is_empty() && second.is_empty());
}

#[test]
fn bot_picks_from_the_requested_bucket() {
    let bot = Bot::new(Colour::White, 1);
    assert_eq!(bot.get_colour(), Colour::White);
    let b = black_double_threat();
    assert_eq!(bot.best_turns_for_colour(&b, Colour::White, false), placements(Colour::White, &[0, 4]));
    assert_eq!(bot.choose_turn(&b, false, 0), Turn::Place(Colour::White, 0));
    assert_eq!(bot.choose_turn(&b, false, 3), Turn::Place(Colour::White, 4));
    assert_eq!(bot.choose_turn(&b, true, 2), Turn::Place(Colour::White, 3));
    for _ in 0..20 {
        let t = bot.best_turn(&b, false);
        assert!(t == Turn::Place(Colour::White, 0) || t == Turn::Place(Colour::White, 4));
        let p = bot.ask_put_piece(&b, true);
        assert!([1, 2, 3, 5, 6, 7].contains(&p));
    }
}

#[test]
fn bot_moves_in_the_movement_phase() {
    let bot = Bot::new(Colour::White, 1);
    let b = movement_board();
    for _ in 0..20 {
        let (i, j) = bot.ask_move_piece(&b, true);
        assert!([(0, 4), (2, 6), (4, 0), (6, 2)].contains(&(i, j)));
    }
}

#[test]
fn bot_challenges_exactly_the_best_turns() {
    let bot = Bot::new(Colour::Black, 1);
    let b = white_threat();
    assert!(bot.ask_second_best(&b, &Turn::Place(Colour::White, 0)));
    assert!(!bot.ask_second_best(&b, &Turn::Place(Colour::White, 3)));
    let b = black_double_threat();
    let white = Bot::new(Colour::White, 1);
    assert!(white.ask_second_best(&b, &Turn::Place(Colour::Black, 0)));
    assert!(white.ask_second_best(&b, &Turn::Place(Colour::Black, 4)));
    assert!(!white.ask_second_best(&b, &Turn::Place(Colour::Black, 3)));
    assert!(!white.ask_second_best(&b, &Turn::Move(Colour::Black, 0, 1)));
}
