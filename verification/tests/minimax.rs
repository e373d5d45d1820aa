use chess_engine::computer_player::{determine_best_moves, MAX_SCORE};
use chess_engine::evaluation::{multi_eval, Weights};
use chess_engine::game_state::{Color, EndState, GameState, Piece, PlayerState};
use chess_engine::piece_move::Move;
use chess_engine::piece_type::PieceType;
use chess_engine::position::Position;

fn place(state: &mut GameState, text: &str, color: Color, piece_type: PieceType) {
    let position = Position::from_notation(text).unwrap();
    state.board[position.row as usize * 8 + position.column as usize] =
        Some(Piece { color, piece_type, can_castle: false });
}

fn bare(current_player: Color) -> GameState {
    let mut state = GameState::opening_state();
    state.board = [None; 64];
    state.current_player = current_player;
    state
}

fn offered(state: &GameState) -> Vec<Move> {
    match state.get_player_moves() {
        PlayerState::CanMove(moves) => moves,
        _ => Vec::new(),
    }
}

fn leaf_value(state: &GameState, weights: &Weights, max_ply: u8) -> i32 {
    if state.find_piece(PieceType::King, state.current_player).is_some() {
        multi_eval(state, weights)
    } else if state.current_player == Color::White {
        -(MAX_SCORE - max_ply as i32)
    } else {
        MAX_SCORE - max_ply as i32
    }
}

fn move_value(state: &GameState, m: &Move, weights: &Weights, max_ply: u8, ply: u8) -> i32 {
    let mut next = state.clone();
    next.move_piece(m);
    if ply > 1 {
        let replies = next.get_player_moves_without_check(next.current_player);
        plain_minimax(&next, &replies, weights, max_ply, ply - 1)
    } else {
        leaf_value(&next, weights, max_ply)
    }
}

fn plain_minimax(
    state: &GameState,
    moves: &Vec<Move>,
    weights: &Weights,
    max_ply: u8,
    ply: u8,
) -> i32 {
    match state.get_end_state(moves) {
        EndState::Win(_) => {
            let magnitude = MAX_SCORE - max_ply as i32 + ply as i32;
            if state.current_player == Color::White {
                -magnitude
            } else {
                magnitude
            }
        }
        EndState::Stalemate => 0,
        EndState::NotEnded => {
            let values = moves.iter().map(|m| move_value(state, m, weights, max_ply, ply));
            if state.current_player == Color::White {
                values.max().unwrap()
            } else {
                values.min().unwrap()
            }
        }
    }
}

fn assert_search_is_minimax(state: &GameState, weights: &Weights, depth: u8) {
    assert!(state.is_well_formed());
    assert!(state.keeps_census());
    let moves = offered(state);
    let (ranked, best) =
        determine_best_moves(state, &moves, weights, i32::MIN, i32::MAX, depth, depth);
    assert_eq!(best, plain_minimax(state, &moves, weights, depth, depth));
    let mut listed: Vec<String> = ranked.iter().map(|scored| format!("{:?}", scored.0)).collect();
    let mut given: Vec<String> = moves.iter().map(|m| format!("{:?}", m)).collect();
    listed.sort();
    given.sort();
    assert_eq!(listed, given);
    let first_value = move_value(state, &ranked[0].0, weights, depth, depth);
    assert_eq!(first_value, best);
}

#[test]
fn search_finds_the_minimax_value_from_the_opening() {
    let state = GameState::opening_state();
    for depth in 1..=3u8 {
        assert_search_is_minimax(&state, &Weights::spaces_moves(), depth);
    }
    assert_search_is_minimax(&state, &Weights::piece_score(), 2);
    assert_search_is_minimax(&state, &Weights::max_moves(), 2);
    assert_search_is_minimax(&state, &Weights::max_spaces(), 2);
}

#[test]
fn search_finds_the_minimax_value_in_an_open_game() {
    let mut state = GameState::opening_state();
    let line = ["e2e4", "e7e5", "d1h5", "b8c6", "f1c4", "g8f6"];
    for text in line {
        let moves = offered(&state);
        let entered = Move::from_notation(text).unwrap();
        let chosen = moves
            .iter()
            .find(|m| m.source == entered.source && m.destination == entered.destination)
            .unwrap();
        state.move_piece(chosen);
        assert_search_is_minimax(&state, &Weights::spaces_moves(), 2);
    }
    assert_search_is_minimax(&state, &Weights::piece_score(), 3);
}

#[test]
fn search_finds_the_minimax_value_of_a_mate() {
    let mut state = bare(Color::White);
    place(&mut state, "g6", Color::White, PieceType::King);
    place(&mut state, "a1", Color::White, PieceType::Rook);
    place(&mut state, "h8", Color::Black, PieceType::King);
    for depth in 1..=4u8 {
        assert_search_is_minimax(&state, &Weights::spaces_moves(), depth);
        assert_search_is_minimax(&state, &Weights::piece_score(), depth);
    }
    let moves = offered(&state);
    let mate = Move::from_notation("a1a8").unwrap();
    let value = move_value(&state, &mate, &Weights::piece_score(), 3, 3);
    assert_eq!(value, MAX_SCORE - 3);
    for m in moves.iter() {
        if *m != mate {
            assert!(move_value(&state, m, &Weights::piece_score(), 3, 3) < value);
        }
    }
    let (ranked, best) =
        determine_best_moves(&state, &moves, &Weights::piece_score(), i32::MIN, i32::MAX, 3, 3);
    assert_eq!(ranked[0], (mate, value));
    assert_eq!(best, value);
}

#[test]
fn search_for_black_finds_the_minimax_value() {
    let mut state = bare(Color::Black);
    place(&mut state, "b3", Color::Black, PieceType::King);
    place(&mut state, "h8", Color::Black, PieceType::Rook);
    place(&mut state, "a1", Color::White, PieceType::King);
    place(&mut state, "g2", Color::White, PieceType::Pawn);
    for depth in 1..=4u8 {
        assert_search_is_minimax(&state, &Weights::spaces_moves(), depth);
    }
}
