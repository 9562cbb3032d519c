use second_best::game::{Board, Colour, EndState, Game, Piece, Place, Turn};
use second_best::io::IO;
use second_best::player::Person;

const W: Piece = Piece::Piece(Colour::White);
const B: Piece = Piece::Piece(Colour::Black);
const E: Piece = Piece::Blank;

fn board_of(places: [[Piece; 3]; 8]) -> Board {
    let mut board = Board::new();
    for i in 0..8 {
        board.0[i] = Place(places[i]);
    }
    board
}

fn swapped(board: &Board) -> Board {
    let mut out = board.clone();
    for i in 0..8 {
        for k in 0..3 {
            out.0[i].0[k] = match board.0[i].0[k] {
                Piece::Piece(Colour::White) => B,
                Piece::Piece(Colour::Black) => W,
                Piece::Blank => E,
            };
        }
    }
    out
}

#[test]
fn new_place_is_empty() {
    let p = Place::new();
    assert!(p.is_empty());
    assert!(!p.is_full());
    assert_eq!(p.count_pieces(), 0);
    assert_eq!(*p.peek_top(), E);
}

#[test]
fn place_fills_bottom_up_and_empties_from_top() {
    let mut p = Place::new();
    p.add_piece(&Colour::White);
    assert_eq!(p, Place([W, E, E]));
    p.add_piece(&Colour::Black);
    assert_eq!(p, Place([W, B, E]));
    assert_eq!(*p.peek_top(), B);
    p.add_piece(&Colour::Black);
    assert!(p.is_full());
    assert_eq!(p.count_pieces(), 3);
    p.remove_piece(&Colour::Black);
    assert_eq!(p, Place([W, B, E]));
    p.remove_piece(&Colour::Black);
    p.remove_piece(&Colour::White);
    assert!(p.is_empty());
}

#[test]
fn board_counts_pieces() {
    let b = Board::new();
    assert_eq!(b.count_pieces(), 0);
    let b = board_of([[W, B, W], [B, E, E], [E; 3], [E; 3], [W, W, E], [E; 3], [E; 3], [B, E, E]]);
    assert_eq!(b.count_pieces(), 7);
}

#[test]
fn empty_board_is_not_won() {
    assert_eq!(Board::new().is_won(), None);
}

#[test]
fn vertical_mill_wins() {
    let b = board_of([[E; 3], [E; 3], [B, B, B], [E; 3], [W, W, E], [E; 3], [E; 3], [E; 3]]);
    assert_eq!(b.is_won(), Some(EndState::Win(Colour::Black)));
}

#[test]
fn horizontal_mill_wraps_round_the_ring() {
    let b = board_of([[W, E, E], [B, W, E], [E; 3], [E; 3], [E; 3], [E; 3], [W, E, E], [B, W, E]]);
    assert_eq!(b.is_won(), Some(EndState::Win(Colour::White)));
}

#[test]
fn buried_pieces_do_not_make_a_horizontal_mill() {
    let b = board_of([[W, B, E], [W, B, E], [W, E, E], [W, B, E], [E; 3], [E; 3], [E; 3], [E; 3]]);
    assert_eq!(b.is_won(), None);
}

#[test]
fn mills_of_both_sides_draw() {
    let b = board_of([[W, W, W], [E; 3], [E; 3], [E; 3], [B, B, B], [E; 3], [E; 3], [E; 3]]);
    assert_eq!(b.is_won(), Some(EndState::Draw));
}

#[test]
fn swapping_colours_swaps_the_winner() {
    let b = board_of([[E; 3], [W, E, E], [W, E, E], [B, W, E], [B, W, E], [E; 3], [B, E, E], [E; 3]]);
    assert_eq!(b.is_won(), Some(EndState::Win(Colour::White)));
    assert_eq!(swapped(&b).is_won(), Some(EndState::Win(Colour::Black)));
    let d = board_of([[W, W, W], [E; 3], [E; 3], [E; 3], [B, B, B], [E; 3], [E; 3], [E; 3]]);
    assert_eq!(swapped(&d).is_won(), Some(EndState::Draw));
    assert_eq!(swapped(&Board::new()).is_won(), None);
}

#[test]
fn placement_is_possible_iff_place_not_full() {
    let b = board_of([[W, B, W], [B, E, E], [E; 3], [E; 3], [E; 3], [E; 3], [E; 3], [E; 3]]);
    assert!(!b.is_possible_turn(&Turn::Place(Colour::White, 0)));
    assert!(!b.is_possible_turn(&Turn::Place(Colour::Black, 0)));
    assert!(b.is_possible_turn(&Turn::Place(Colour::White, 1)));
    assert!(b.is_possible_turn(&Turn::Place(Colour::Black, 7)));
    assert!(!b.is_possible_turn(&Turn::Place(Colour::Black, 8)));
}

#[test]
fn moves_go_to_neighbours_or_across() {
    let b = board_of([[W, E, E], [E; 3], [E; 3], [E; 3], [B, B, B], [E; 3], [E; 3], [E; 3]]);
    assert!(b.is_possible_turn(&Turn::Move(Colour::White, 0, 1)));
    assert!(b.is_possible_turn(&Turn::Move(Colour::White, 0, 7)));
    assert!(!b.is_possible_turn(&Turn::Move(Colour::White, 0, 4)));
    assert!(!b.is_possible_turn(&Turn::Move(Colour::White, 0, 2)));
    assert!(!b.is_possible_turn(&Turn::Move(Colour::White, 0, 0)));
    assert!(!b.is_possible_turn(&Turn::Move(Colour::Black, 0, 1)));
    assert!(!b.is_possible_turn(&Turn::Move(Colour::White, 1, 2)));
    assert!(b.is_possible_turn(&Turn::Move(Colour::Black, 4, 0)));
    assert!(b.is_possible_turn(&Turn::Move(Colour::Black, 4, 3)));
    assert!(!b.is_possible_turn(&Turn::Move(Colour::Black, 4, 6)));
    assert!(!b.is_possible_turn(&Turn::Move(Colour::Black, 4, 9)));
}

#[test]
fn do_turn_places_and_moves() {
    let mut b = Board::new();
    b.do_turn(&Turn::Place(Colour::White, 3));
    b.do_turn(&Turn::Place(Colour::Black, 3));
    assert_eq!(b.0[3], Place([W, B, E]));
    b.do_turn(&Turn::Move(Colour::Black, 3, 7));
    assert_eq!(b.0[3], Place([W, E, E]));
    assert_eq!(b.0[7], Place([B, E, E]));
    assert_eq!(b.count_pieces(), 2);
}

#[test]
fn move_and_back_restores_the_board() {
    let b = board_of([[W, B, E], [B, E, E], [W, W, B], [E; 3], [B, W, E], [E; 3], [W, E, E], [B, B, E]]);
    let mut c = b.clone();
    c.do_turn(&Turn::Move(Colour::Black, 0, 4));
    assert!(c.is_possible_turn(&Turn::Move(Colour::Black, 4, 0)));
    c.do_turn(&Turn::Move(Colour::Black, 4, 0));
    assert_eq!(c.0, b.0);
    c.do_turn(&Turn::Move(Colour::Black, 7, 6));
    c.do_turn(&Turn::Move(Colour::Black, 6, 7));
    assert_eq!(c.0, b.0);
}

#[test]
fn game_alternates_sides_and_records_turns() {
    let mut g = Game::new();
    assert_eq!(g.to_move(), Colour::White);
    assert!(g.is_placing());
    let first = Turn::Place(Colour::White, 2);
    assert!(g.accepts(&first, None));
    assert!(!g.accepts(&first, Some(first)));
    assert!(!g.accepts(&Turn::Place(Colour::Black, 2), None));
    assert!(!g.accepts(&Turn::Move(Colour::White, 2, 3), None));
    g.play(&first);
    assert_eq!(g.to_move(), Colour::Black);
    assert_eq!(g.turns, vec![first]);
    assert_eq!(g.board.0[2], Place([W, E, E]));
    assert!(g.accepts(&Turn::Place(Colour::Black, 2), None));
    assert!(!g.accepts(&Turn::Place(Colour::White, 2), None));
}

#[test]
fn game_moves_after_sixteen_pieces() {
    let mut g = Game::new();
    for i in 0..16 {
        let colour = if i % 2 == 0 { Colour::White } else { Colour::Black };
        let t = Turn::Place(colour, i % 8);
        assert!(g.accepts(&t, None));
        g.play(&t);
    }
    assert!(!g.is_placing());
    assert_eq!(g.to_move(), Colour::White);
    assert!(!g.accepts(&Turn::Place(Colour::White, 0), None));
    assert!(g.accepts(&Turn::Move(Colour::White, 0, 1), None));
}

#[test]
fn person_keeps_its_colour() {
    assert_eq!(Person::new(Colour::Black).get_colour(), Colour::Black);
}

#[test]
fn pieces_and_places_as_text() {
    assert_eq!(IO::piece_string(&E), " ");
    assert_eq!(IO::piece_string(&W), "\u{25a1}");
    assert_eq!(IO::piece_string(&B), "\u{25a0}");
    assert_eq!(IO::place_string(&Place([W, B, E])), "\u{25a1}\u{25a0} ");
}

#[test]
fn side_without_a_turn_draws_the_game() {
    let mut g = Game::new();
    let full = [B, B, W];
    g.board = board_of([full, full, full, [E; 3], full, full, full, [E; 3]]);
    g.turns = vec![Turn::Place(Colour::White, 0)];
    assert_eq!(g.board.is_won(), None);
    assert_eq!(g.to_move(), Colour::Black);
    assert_eq!(g.result(), Some(EndState::Draw));
    assert!(!g.can_replay());
    g.turns.clear();
    assert_eq!(g.result(), None);
    assert!(g.can_replay());
}

#[test]
fn game_result_reports_a_mill() {
    let mut g = Game::new();
    g.board = board_of([[W, W, W], [E; 3], [E; 3], [E; 3], [E; 3], [E; 3], [E; 3], [E; 3]]);
    assert_eq!(g.result(), Some(EndState::Win(Colour::White)));
    assert_eq!(Game::new().result(), None);
}
