use chess_engine::game_state::{Color, GameState, Piece, PlayerState};
use chess_engine::human_player::{read_entry, Entry};
use chess_engine::piece_move::{ExtraCastlingMove, Move};
use chess_engine::piece_type::PieceType;
use chess_engine::position::Position;

fn sq(text: &str) -> Position {
    Position::from_notation(text).unwrap()
}

fn index(text: &str) -> usize {
    let position = sq(text);
    position.row as usize * 8 + position.column as usize
}

fn empty_board(current_player: Color) -> GameState {
    let mut state = GameState::opening_state();
    state.board = [None; 64];
    state.current_player = current_player;
    state
}

fn put(state: &mut GameState, text: &str, color: Color, piece_type: PieceType) {
    state.board[index(text)] = Some(Piece { color, piece_type, can_castle: false });
}

fn legal(state: &GameState) -> Vec<Move> {
    match state.get_player_moves() {
        PlayerState::CanMove(moves) => moves,
        _ => Vec::new(),
    }
}

fn play(state: &mut GameState, line: &[&str]) {
    for text in line {
        let moves = legal(state);
        match read_entry(&moves, text) {
            Entry::Chosen(m) => state.move_piece(&m),
            other => panic!("{} is {:?}", text, other),
        }
    }
}

fn from(moves: &[Move], source: &str) -> Vec<Move> {
    moves.iter().filter(|m| m.source == sq(source)).cloned().collect()
}

#[test]
fn opening_position_has_twenty_legal_moves() {
    let state = GameState::opening_state();
    let moves = legal(&state);
    assert_eq!(moves.len(), 20);
    let pawn_moves = moves.iter().filter(|m| m.source.row == 1).count();
    let knight_moves = moves.iter().filter(|m| m.source.row == 0).count();
    assert_eq!(pawn_moves, 16);
    assert_eq!(knight_moves, 4);
    assert_eq!(moves.iter().filter(|m| m.enables_en_passant).count(), 8);
}

#[test]
fn opening_moves_come_square_by_square() {
    let state = GameState::opening_state();
    let moves = legal(&state);
    assert_eq!(moves[0], Move::simple(sq("b1"), sq("a3")));
    assert_eq!(moves[1], Move::simple(sq("b1"), sq("c3")));
    assert_eq!(moves[2], Move::simple(sq("g1"), sq("f3")));
    assert_eq!(moves[3], Move::simple(sq("g1"), sq("h3")));
    assert_eq!(moves[4], Move::simple(sq("a2"), sq("a3")));
    assert_eq!(moves[5], Move::en_passant_enabler(sq("a2"), sq("a4")));
    assert_eq!(moves[18], Move::simple(sq("h2"), sq("h3")));
    assert_eq!(moves[19], Move::en_passant_enabler(sq("h2"), sq("h4")));
    assert_eq!(moves, state.get_player_moves_without_check(Color::White));
}

#[test]
fn black_has_twenty_legal_moves_after_the_first_move() {
    let mut state = GameState::opening_state();
    play(&mut state, &["e2e4"]);
    assert_eq!(state.current_player, Color::Black);
    let moves = legal(&state);
    assert_eq!(moves.len(), 20);
    assert_eq!(moves.iter().filter(|m| m.source.row == 6).count(), 16);
    assert_eq!(moves.iter().filter(|m| m.source.row == 7).count(), 4);
    assert_eq!(moves[0], Move::simple(sq("a7"), sq("a6")));
    assert_eq!(moves[1], Move::en_passant_enabler(sq("a7"), sq("a5")));
}

#[test]
fn pseudo_moves_are_generated_for_either_color() {
    let state = GameState::opening_state();
    let black = state.get_player_moves_without_check(Color::Black);
    assert_eq!(black.len(), 20);
    assert!(black.iter().all(|m| m.source.row >= 6));
}

#[test]
fn rook_slides_until_blocked_and_captures_the_first_enemy() {
    let mut state = empty_board(Color::White);
    put(&mut state, "d4", Color::White, PieceType::Rook);
    put(&mut state, "d6", Color::Black, PieceType::Pawn);
    put(&mut state, "f4", Color::White, PieceType::Pawn);
    put(&mut state, "d7", Color::Black, PieceType::Queen);
    let moves = state.get_moves_for_piece(&sq("d4"));
    let expected: Vec<Move> = ["c4", "b4", "a4", "d3", "d2", "d1", "d5", "d6", "e4"]
        .iter()
        .map(|to| Move::simple(sq("d4"), sq(to)))
        .collect();
    assert_eq!(moves, expected);
}

#[test]
fn bishop_and_queen_follow_their_directions() {
    let mut state = empty_board(Color::Black);
    put(&mut state, "a1", Color::Black, PieceType::Bishop);
    put(&mut state, "d4", Color::White, PieceType::Knight);
    let bishop: Vec<Move> =
        ["b2", "c3", "d4"].iter().map(|to| Move::simple(sq("a1"), sq(to))).collect();
    assert_eq!(state.get_moves_for_piece(&sq("a1")), bishop);

    let mut state = empty_board(Color::White);
    put(&mut state, "a1", Color::White, PieceType::Queen);
    put(&mut state, "a3", Color::White, PieceType::Pawn);
    put(&mut state, "c1", Color::Black, PieceType::Pawn);
    put(&mut state, "c3", Color::Black, PieceType::Pawn);
    let queen: Vec<Move> =
        ["a2", "b1", "c1", "b2", "c3"].iter().map(|to| Move::simple(sq("a1"), sq(to))).collect();
    assert_eq!(state.get_moves_for_piece(&sq("a1")), queen);
}

#[test]
fn knight_and_king_take_one_step_in_each_direction() {
    let mut state = empty_board(Color::White);
    put(&mut state, "b1", Color::White, PieceType::Knight);
    put(&mut state, "d2", Color::White, PieceType::Pawn);
    put(&mut state, "a3", Color::Black, PieceType::Pawn);
    let knight: Vec<Move> = ["a3", "c3"].iter().map(|to| Move::simple(sq("b1"), sq(to))).collect();
    assert_eq!(state.get_moves_for_piece(&sq("b1")), knight);

    let mut state = empty_board(Color::Black);
    put(&mut state, "h8", Color::Black, PieceType::King);
    put(&mut state, "g8", Color::Black, PieceType::Rook);
    put(&mut state, "h7", Color::White, PieceType::Rook);
    let king: Vec<Move> = ["g7", "h7"].iter().map(|to| Move::simple(sq("h8"), sq(to))).collect();
    assert_eq!(state.get_moves_for_piece(&sq("h8")), king);
}

#[test]
fn empty_square_has_no_moves() {
    let state = GameState::opening_state();
    assert_eq!(state.get_moves_for_piece(&sq("e4")), Vec::new());
}

#[test]
fn get_consecutive_moves_respects_the_limit_of_steps() {
    let mut state = empty_board(Color::White);
    put(&mut state, "a1", Color::White, PieceType::Queen);
    let dirs = [(1i8, 0i8), (0i8, 1i8)];
    let two: Vec<Move> =
        ["b1", "c1", "a2", "a3"].iter().map(|to| Move::simple(sq("a1"), sq(to))).collect();
    assert_eq!(state.get_consecutive_moves(&sq("a1"), &dirs, Some(2)), two);
    assert_eq!(state.get_consecutive_moves(&sq("a1"), &dirs, Some(0)), Vec::new());
    assert_eq!(state.get_consecutive_moves(&sq("a1"), &dirs, None).len(), 14);
    let leap = [(3i8, 2i8)];
    let leaps: Vec<Move> = ["d3", "g5"].iter().map(|to| Move::simple(sq("a1"), sq(to))).collect();
    assert_eq!(state.get_consecutive_moves(&sq("a1"), &leap, None), leaps);
}

#[test]
fn are_all_empty_looks_at_each_square() {
    let state = GameState::opening_state();
    assert!(state.are_all_empty(&[(0, 2), (7, 5), (4, 3)]));
    assert!(!state.are_all_empty(&[(0, 2), (0, 1)]));
    assert!(state.are_all_empty(&[]));
}

#[test]
fn pawn_advances_one_or_two_squares() {
    let mut state = empty_board(Color::White);
    put(&mut state, "a2", Color::White, PieceType::Pawn);
    put(&mut state, "b2", Color::White, PieceType::Pawn);
    put(&mut state, "b4", Color::Black, PieceType::Knight);
    put(&mut state, "c2", Color::White, PieceType::Pawn);
    put(&mut state, "c3", Color::Black, PieceType::Knight);
    put(&mut state, "d3", Color::White, PieceType::Pawn);
    assert_eq!(
        state.get_moves_for_piece(&sq("a2")),
        vec![Move::simple(sq("a2"), sq("a3")), Move::en_passant_enabler(sq("a2"), sq("a4"))]
    );
    assert_eq!(
        state.get_moves_for_piece(&sq("b2")),
        vec![Move::simple(sq("b2"), sq("b3")), Move::simple(sq("b2"), sq("c3"))]
    );
    assert_eq!(state.get_moves_for_piece(&sq("c2")), Vec::new());
    assert_eq!(state.get_moves_for_piece(&sq("d3")), vec![Move::simple(sq("d3"), sq("d4"))]);
}

#[test]
fn black_pawn_moves_down_the_board() {
    let mut state = empty_board(Color::Black);
    put(&mut state, "e7", Color::Black, PieceType::Pawn);
    put(&mut state, "d6", Color::White, PieceType::Bishop);
    put(&mut state, "f6", Color::Black, PieceType::Bishop);
    assert_eq!(
        state.get_moves_for_piece(&sq("e7")),
        vec![
            Move::simple(sq("e7"), sq("e6")),
            Move::en_passant_enabler(sq("e7"), sq("e5")),
            Move::simple(sq("e7"), sq("d6")),
        ]
    );
}

#[test]
fn pawn_reaching_the_last_rank_promotes_to_queen() {
    let mut state = empty_board(Color::White);
    put(&mut state, "b7", Color::White, PieceType::Pawn);
    put(&mut state, "a8", Color::Black, PieceType::Rook);
    put(&mut state, "c8", Color::Black, PieceType::Bishop);
    put(&mut state, "e1", Color::White, PieceType::King);
    put(&mut state, "e8", Color::Black, PieceType::King);
    let moves = legal(&state);
    let pawn = from(&moves, "b7");
    assert_eq!(
        pawn,
        vec![
            Move::promotion(sq("b7"), sq("b8"), PieceType::Queen),
            Move::promotion(sq("b7"), sq("a8"), PieceType::Queen),
            Move::promotion(sq("b7"), sq("c8"), PieceType::Queen),
        ]
    );
    for m in moves.iter() {
        let pawn_on_last_rank = m.source == sq("b7") && m.destination.row == 7;
        assert_eq!(m.promotion_piece_type == Some(PieceType::Queen), pawn_on_last_rank);
        assert_eq!(m.promotion_piece_type.is_some(), pawn_on_last_rank);
    }
}

#[test]
fn black_pawn_promotes_on_the_first_rank() {
    let mut state = empty_board(Color::Black);
    put(&mut state, "h2", Color::Black, PieceType::Pawn);
    put(&mut state, "g1", Color::White, PieceType::Knight);
    assert_eq!(
        state.get_moves_for_piece(&sq("h2")),
        vec![
            Move::promotion(sq("h2"), sq("h1"), PieceType::Queen),
            Move::promotion(sq("h2"), sq("g1"), PieceType::Queen),
        ]
    );
}

#[test]
fn promotion_in_play_puts_a_queen_on_the_board() {
    let mut state = GameState::opening_state();
    play(&mut state, &["a2a4", "b7b5", "a4b5", "a7a6", "b5a6", "c8b7", "a6b7", "g8f6", "b7a8"]);
    assert_eq!(
        state.get_piece(&sq("a8")),
        Some(Piece { color: Color::White, piece_type: PieceType::Queen, can_castle: false })
    );
}

#[test]
fn en_passant_is_offered_on_the_next_ply_only() {
    let mut state = GameState::opening_state();
    play(&mut state, &["e2e4", "a7a6", "e4e5", "d7d5"]);
    assert_eq!(state.en_passant_target, Some(sq("d5")));
    let capture = Move::en_passant(sq("e5"), sq("d6"), sq("d5"));
    let moves = legal(&state);
    assert!(moves.contains(&capture));
    assert_eq!(moves.iter().filter(|m| m.en_passant_target.is_some()).count(), 1);

    play(&mut state, &["a2a3", "a6a5"]);
    assert_eq!(state.en_passant_target, None);
    let later = legal(&state);
    assert!(!later.contains(&capture));
    assert!(later.iter().all(|m| m.en_passant_target.is_none()));
    assert!(state
        .get_player_moves_without_check(Color::White)
        .iter()
        .all(|m| m.en_passant_target.is_none()));
}

#[test]
fn en_passant_capture_removes_the_pawn() {
    let mut state = GameState::opening_state();
    play(&mut state, &["e2e4", "a7a6", "e4e5", "f7f5", "e5f6"]);
    assert_eq!(state.get_piece(&sq("f5")), None);
    assert_eq!(state.get_piece(&sq("e5")), None);
    assert_eq!(
        state.get_piece(&sq("f6")),
        Some(Piece { color: Color::White, piece_type: PieceType::Pawn, can_castle: false })
    );
}

#[test]
fn en_passant_is_offered_to_both_neighbours() {
    let mut state = GameState::opening_state();
    play(&mut state, &["c2c4", "a7a6", "c4c5", "h7h6", "e2e4", "h6h5", "e4e5", "d7d5"]);
    let moves = legal(&state);
    assert!(moves.contains(&Move::en_passant(sq("c5"), sq("d6"), sq("d5"))));
    assert!(moves.contains(&Move::en_passant(sq("e5"), sq("d6"), sq("d5"))));
}

#[test]
fn castling_is_offered_while_king_and_rook_have_not_moved() {
    let mut state = GameState::opening_state();
    play(&mut state, &["e2e4", "e7e5", "g1f3", "b8c6", "f1c4", "f8c5"]);
    let short = Move::castle(
        sq("e1"),
        sq("g1"),
        ExtraCastlingMove { source: sq("h1"), destination: sq("f1") },
    );
    let moves = legal(&state);
    assert!(moves.contains(&short));
    assert_eq!(moves.iter().filter(|m| m.extra_castling_move.is_some()).count(), 1);
    let king = from(&moves, "e1");
    assert_eq!(
        king,
        vec![Move::simple(sq("e1"), sq("e2")), Move::simple(sq("e1"), sq("f1")), short]
    );
}

#[test]
fn castling_long_needs_three_empty_squares() {
    let mut state = GameState::opening_state();
    state.board[index("c8")] = None;
    state.board[index("d8")] = None;
    state.current_player = Color::Black;
    assert!(legal(&state).iter().all(|m| m.extra_castling_move.is_none()));
    state.board[index("b8")] = None;
    let long = Move::castle(
        sq("e8"),
        sq("c8"),
        ExtraCastlingMove { source: sq("a8"), destination: sq("d8") },
    );
    let moves = legal(&state);
    assert!(moves.contains(&long));
    state.move_piece(&long);
    assert_eq!(state.get_piece(&sq("c8")).unwrap().piece_type, PieceType::King);
    assert_eq!(state.get_piece(&sq("d8")).unwrap().piece_type, PieceType::Rook);
    assert_eq!(state.get_piece(&sq("a8")), None);
    assert_eq!(state.get_piece(&sq("e8")), None);
}

#[test]
fn castling_is_lost_when_the_king_has_moved_and_returned() {
    let mut state = GameState::opening_state();
    play(
        &mut state,
        &["e2e4", "e7e5", "g1f3", "b8c6", "f1c4", "f8c5", "e1e2", "a7a6", "e2e1", "a6a5"],
    );
    assert_eq!(state.get_piece(&sq("e1")).unwrap().piece_type, PieceType::King);
    assert_eq!(state.get_piece(&sq("h1")).unwrap().piece_type, PieceType::Rook);
    let moves = legal(&state);
    assert!(moves.iter().all(|m| m.extra_castling_move.is_none()));
    assert!(state
        .get_player_moves_without_check(Color::White)
        .iter()
        .all(|m| m.extra_castling_move.is_none()));
}

#[test]
fn castling_is_lost_when_the_rook_has_moved_and_returned() {
    let mut state = GameState::opening_state();
    play(
        &mut state,
        &["e2e4", "e7e5", "g1f3", "b8c6", "f1c4", "f8c5", "h1g1", "a7a6", "g1h1", "a6a5"],
    );
    assert_eq!(state.get_piece(&sq("e1")).unwrap().can_castle, true);
    assert_eq!(state.get_piece(&sq("h1")).unwrap().can_castle, false);
    assert!(legal(&state).iter().all(|m| m.extra_castling_move.is_none()));
}

#[test]
fn is_in_check_sees_an_attack_on_the_king() {
    let mut state = GameState::opening_state();
    assert!(!state.is_in_check(Color::White));
    assert!(!state.is_in_check(Color::Black));
    play(&mut state, &["e2e4", "f7f6", "d1h5"]);
    assert!(state.is_in_check(Color::Black));
    assert!(!state.is_in_check(Color::White));
}

#[test]
fn legal_moves_leave_the_king_out_of_check() {
    let mut state = GameState::opening_state();
    play(&mut state, &["e2e4", "f7f6", "d1h5"]);
    let moves = legal(&state);
    assert_eq!(moves, vec![Move::simple(sq("g7"), sq("g6"))]);
    let pseudo = state.get_player_moves_without_check(Color::Black);
    assert!(pseudo.len() > moves.len());
    for m in pseudo.iter() {
        let mut after = state.clone();
        after.move_piece(m);
        assert_eq!(!after.is_in_check(Color::Black), moves.contains(m));
    }
}

#[test]
fn no_legal_move_leaves_the_own_king_capturable() {
    let mut state = GameState::opening_state();
    let line = ["e2e4", "e7e5", "d1h5", "b8c6", "f1c4", "g8f6", "h5f7"];
    for text in line {
        let mover = state.current_player;
        for m in legal(&state).iter() {
            let mut after = state.clone();
            after.move_piece(m);
            let king = after.find_piece(PieceType::King, mover).unwrap();
            let replies = after.get_player_moves_without_check(mover.opposite());
            assert!(replies.iter().all(|reply| reply.destination != king));
        }
        play(&mut state, &[text]);
    }
}

#[test]
fn pinned_piece_may_not_leave_the_line() {
    let mut state = empty_board(Color::White);
    put(&mut state, "e1", Color::White, PieceType::King);
    put(&mut state, "e2", Color::White, PieceType::Knight);
    put(&mut state, "e8", Color::Black, PieceType::Rook);
    put(&mut state, "a8", Color::Black, PieceType::King);
    let moves = legal(&state);
    assert!(from(&moves, "e2").is_empty());
    assert_eq!(state.get_moves_for_piece(&sq("e2")).len(), 6);
    assert_eq!(from(&moves, "e1").len(), 4);
}

#[test]
fn checkmate_is_told_from_stalemate() {
    let mut state = GameState::opening_state();
    play(&mut state, &["f2f3", "e7e5", "g2g4", "d8h4"]);
    assert!(state.is_in_check(Color::White));
    assert_eq!(state.get_player_moves(), PlayerState::Checkmate);

    let mut state = empty_board(Color::Black);
    put(&mut state, "h8", Color::Black, PieceType::King);
    put(&mut state, "f7", Color::White, PieceType::King);
    put(&mut state, "g6", Color::White, PieceType::Queen);
    assert!(!state.is_in_check(Color::Black));
    assert_eq!(state.get_player_moves(), PlayerState::Stalemate);
}

#[test]
fn play_turn_makes_the_chosen_move() {
    let mut state = GameState::opening_state();
    let last = |_: &GameState, moves: &Vec<Move>, _: u8| moves[moves.len() - 1];
    let outcome = state.play_turn(&last, 1);
    match outcome {
        PlayerState::CanMove(moves) => assert_eq!(moves.len(), 20),
        other => panic!("{:?}", other),
    }
    assert_eq!(state.current_player, Color::Black);
    assert_eq!(state.get_piece(&sq("h2")), None);
    assert_eq!(state.get_piece(&sq("h4")).unwrap().piece_type, PieceType::Pawn);
    assert_eq!(state.en_passant_target, Some(sq("h4")));
}

#[test]
fn play_turn_leaves_a_finished_game_alone() {
    let mut state = GameState::opening_state();
    play(&mut state, &["f2f3", "e7e5", "g2g4", "d8h4"]);
    let board = state.board;
    let first = |_: &GameState, moves: &Vec<Move>, _: u8| moves[0];
    assert_eq!(state.play_turn(&first, 1), PlayerState::Checkmate);
    assert_eq!(state.board, board);
    assert_eq!(state.current_player, Color::White);
}

#[test]
fn play_keeps_the_state_consistent() {
    let mut state = GameState::opening_state();
    assert!(state.is_well_formed());
    let line = [
        "e2e4", "e7e5", "g1f3", "b8c6", "f1c4", "f8c5", "e1g1", "d7d5", "e4d5", "c8g4", "d2d4",
    ];
    for text in line {
        play(&mut state, &[text]);
        assert!(state.is_well_formed());
    }
    assert_eq!(state.en_passant_target, Some(sq("d4")));
}

#[test]
fn is_well_formed_refuses_misplaced_flags_and_targets() {
    let mut state = GameState::opening_state();
    state.board[index("e4")] =
        Some(Piece { color: Color::White, piece_type: PieceType::King, can_castle: true });
    assert!(!state.is_well_formed());
    state.board[index("e4")] =
        Some(Piece { color: Color::White, piece_type: PieceType::Knight, can_castle: true });
    assert!(!state.is_well_formed());
    state.board[index("e4")] =
        Some(Piece { color: Color::White, piece_type: PieceType::Rook, can_castle: true });
    assert!(!state.is_well_formed());
    state.board[index("e4")] =
        Some(Piece { color: Color::White, piece_type: PieceType::Rook, can_castle: false });
    assert!(state.is_well_formed());
    state.board[index("a8")] =
        Some(Piece { color: Color::White, piece_type: PieceType::Rook, can_castle: true });
    assert!(!state.is_well_formed());

    let mut state = GameState::opening_state();
    state.en_passant_target = Some(sq("e4"));
    assert!(!state.is_well_formed());
    state.board[index("e4")] = state.board[index("e7")];
    assert!(!state.is_well_formed());
    state.board[index("e5")] = state.board[index("e7")];
    state.board[index("e4")] = None;
    state.en_passant_target = Some(sq("e5"));
    assert!(state.is_well_formed());
    state.current_player = Color::Black;
    assert!(!state.is_well_formed());
    state.en_passant_target = Some(Position { column: 4, row: 9 });
    assert!(!state.is_well_formed());
}

#[test]
fn kings_stay_on_the_board_in_legal_play() {
    let mut state = GameState::opening_state();
    for turn in 0..40usize {
        let moves = legal(&state);
        if moves.is_empty() {
            break;
        }
        let chosen = moves[(turn * 7 + 3) % moves.len()];
        state.move_piece(&chosen);
        assert!(state.find_piece(PieceType::King, Color::White).is_some());
        assert!(state.find_piece(PieceType::King, Color::Black).is_some());
        assert!(!state.is_in_check(state.current_player.opposite()));
        assert!(state.is_well_formed());
    }
}

#[test]
fn castling_is_not_barred_by_an_attack_on_the_square_passed_over() {
    let mut state = empty_board(Color::White);
    state.board[index("e1")] =
        Some(Piece { color: Color::White, piece_type: PieceType::King, can_castle: true });
    state.board[index("h1")] =
        Some(Piece { color: Color::White, piece_type: PieceType::Rook, can_castle: true });
    put(&mut state, "f8", Color::Black, PieceType::Rook);
    put(&mut state, "a8", Color::Black, PieceType::King);
    assert!(state.is_well_formed());
    let short = Move::castle(
        sq("e1"),
        sq("g1"),
        ExtraCastlingMove { source: sq("h1"), destination: sq("f1") },
    );
    let moves = legal(&state);
    assert!(moves.contains(&short));
    assert!(!moves.contains(&Move::simple(sq("e1"), sq("f1"))));

    put(&mut state, "f8", Color::Black, PieceType::Pawn);
    put(&mut state, "g8", Color::Black, PieceType::Rook);
    assert!(!legal(&state).contains(&short));
}

#[test]
fn castled_rook_has_lost_its_flag() {
    let mut state = GameState::opening_state();
    play(&mut state, &["e2e4", "e7e5", "g1f3", "b8c6", "f1c4", "f8c5", "e1g1"]);
    assert_eq!(
        state.get_piece(&sq("f1")),
        Some(Piece { color: Color::White, piece_type: PieceType::Rook, can_castle: false })
    );
    assert_eq!(
        state.get_piece(&sq("g1")),
        Some(Piece { color: Color::White, piece_type: PieceType::King, can_castle: false })
    );
    assert!(state.is_well_formed());
}

#[test]
fn pawn_does_not_capture_its_own_pawn_in_passing() {
    let mut state = GameState::opening_state();
    state.move_piece(&Move::en_passant_enabler(sq("d2"), sq("d4")));
    state.move_piece(&Move::simple(sq("a7"), sq("a6")));
    state.move_piece(&Move::en_passant_enabler(sq("e2"), sq("e4")));
    assert_eq!(state.en_passant_target, Some(sq("e4")));
    assert_eq!(state.get_moves_for_piece(&sq("d4")), vec![Move::simple(sq("d4"), sq("d5"))]);
    assert!(state
        .get_player_moves_without_check(Color::White)
        .iter()
        .all(|m| m.en_passant_target.is_none()));
}

#[test]
fn pawn_does_not_land_on_its_own_knight_in_passing() {
    let mut state = GameState::opening_state();
    play(&mut state, &["g1f3", "a7a6", "f3e5", "b7b6", "d2d4", "c7c6", "e2e4"]);
    assert_eq!(state.get_moves_for_piece(&sq("d4")), vec![Move::simple(sq("d4"), sq("d5"))]);
}

#[test]
fn capture_in_passing_needs_an_enemy_pawn_and_an_empty_square() {
    let mut state = empty_board(Color::White);
    put(&mut state, "e5", Color::White, PieceType::Pawn);
    put(&mut state, "d5", Color::Black, PieceType::Pawn);
    state.en_passant_target = Some(sq("d5"));
    let capture = Move::en_passant(sq("e5"), sq("d6"), sq("d5"));
    assert_eq!(
        state.get_moves_for_piece(&sq("e5")),
        vec![Move::simple(sq("e5"), sq("e6")), capture]
    );
    put(&mut state, "d6", Color::Black, PieceType::Knight);
    assert_eq!(
        state.get_moves_for_piece(&sq("e5")),
        vec![Move::simple(sq("e5"), sq("e6")), Move::simple(sq("e5"), sq("d6"))]
    );
    state.board[index("d6")] = None;
    put(&mut state, "d5", Color::Black, PieceType::Knight);
    assert_eq!(state.get_moves_for_piece(&sq("e5")), vec![Move::simple(sq("e5"), sq("e6"))]);
    put(&mut state, "d5", Color::White, PieceType::Pawn);
    assert_eq!(state.get_moves_for_piece(&sq("e5")), vec![Move::simple(sq("e5"), sq("e6"))]);
}

#[test]
fn no_generated_move_lands_on_a_piece_of_its_own_color() {
    let mut state = GameState::opening_state();
    let line = [
        "d2d4", "a7a6", "e2e4", "d7d5", "e4e5", "f7f5", "e5f6", "e7f6", "g1f3", "b8c6", "f1b5",
        "c8g4", "e1g1", "d8d7",
    ];
    for text in line {
        play(&mut state, &[text]);
        for color in [Color::White, Color::Black] {
            for m in state.get_player_moves_without_check(color).iter() {
                assert_eq!(state.get_piece(&m.source).unwrap().color, color);
                assert!(m.destination.column >= 0 && m.destination.column < 8);
                assert!(m.destination.row >= 0 && m.destination.row < 8);
                if let Some(other) = state.get_piece(&m.destination) {
                    assert!(other.color != color);
                }
                if let Some(target) = m.en_passant_target {
                    let pawn = state.get_piece(&target).unwrap();
                    assert_eq!(pawn.piece_type, PieceType::Pawn);
                    assert!(pawn.color != color);
                }
            }
        }
        assert!(state.keeps_census());
    }
}

#[test]
fn keeps_census_counts_pieces_and_potential() {
    let mut state = GameState::opening_state();
    assert!(state.keeps_census());
    state.board[index("e4")] =
        Some(Piece { color: Color::White, piece_type: PieceType::Knight, can_castle: false });
    assert!(!state.keeps_census());
    state.board[index("e4")] = None;
    state.board[index("a2")] =
        Some(Piece { color: Color::White, piece_type: PieceType::Queen, can_castle: false });
    assert!(state.keeps_census());
    state.board[index("b1")] =
        Some(Piece { color: Color::White, piece_type: PieceType::Rook, can_castle: false });
    assert!(!state.keeps_census());
    let mut state = empty_board(Color::Black);
    assert!(state.keeps_census());
    put(&mut state, "a1", Color::Black, PieceType::King);
    put(&mut state, "a2", Color::Black, PieceType::King);
    assert!(!state.keeps_census());
}
