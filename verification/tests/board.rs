use chess_engine::game_state::{
    to_piece, Color, EndState, GameResult, GameState, Piece, PlayerState, MAX_TURNS,
};
use chess_engine::piece_move::{ExtraCastlingMove, Move};
use chess_engine::piece_type::PieceType;
use chess_engine::position::Position;
use chess_engine::repetition::RepetitionTable;

fn at(column: i8, row: i8) -> Position {
    Position { column, row }
}

fn sq(text: &str) -> Position {
    Position::from_notation(text).unwrap()
}

fn piece(color: Color, piece_type: PieceType) -> Piece {
    Piece { color, piece_type, can_castle: false }
}

fn empty_board(current_player: Color) -> GameState {
    let mut state = GameState::opening_state();
    state.board = [None; 64];
    state.current_player = current_player;
    state
}

fn put(state: &mut GameState, text: &str, color: Color, piece_type: PieceType) {
    let position = sq(text);
    state.board[position.row as usize * 8 + position.column as usize] =
        Some(piece(color, piece_type));
}

fn opening_signature() -> String {
    let mut text = String::new();
    text.push_str("\u{265C}\u{265E}\u{265D}\u{265B}\u{265A}\u{265D}\u{265E}\u{265C}");
    text.push_str("\u{265F}\u{265F}\u{265F}\u{265F}\u{265F}\u{265F}\u{265F}\u{265F}");
    text.push_str("--------------------------------");
    text.push_str("\u{2659}\u{2659}\u{2659}\u{2659}\u{2659}\u{2659}\u{2659}\u{2659}");
    text.push_str("\u{2656}\u{2658}\u{2657}\u{2655}\u{2654}\u{2657}\u{2658}\u{2656}");
    text
}

#[test]
fn color_opposite_swaps() {
    assert_eq!(Color::White.opposite(), Color::Black);
    assert_eq!(Color::Black.opposite(), Color::White);
}

#[test]
fn piece_to_char_gives_each_piece_its_own_character() {
    assert_eq!(piece(Color::White, PieceType::Pawn).to_char(), '\u{265F}');
    assert_eq!(piece(Color::Black, PieceType::Pawn).to_char(), '\u{2659}');
    assert_eq!(piece(Color::White, PieceType::Knight).to_char(), '\u{265E}');
    assert_eq!(piece(Color::Black, PieceType::Knight).to_char(), '\u{2658}');
    assert_eq!(piece(Color::White, PieceType::Bishop).to_char(), '\u{265D}');
    assert_eq!(piece(Color::Black, PieceType::Bishop).to_char(), '\u{2657}');
    assert_eq!(piece(Color::White, PieceType::Rook).to_char(), '\u{265C}');
    assert_eq!(piece(Color::Black, PieceType::Rook).to_char(), '\u{2656}');
    assert_eq!(piece(Color::White, PieceType::Queen).to_char(), '\u{265B}');
    assert_eq!(piece(Color::Black, PieceType::Queen).to_char(), '\u{2655}');
    assert_eq!(piece(Color::White, PieceType::King).to_char(), '\u{265A}');
    assert_eq!(piece(Color::Black, PieceType::King).to_char(), '\u{2654}');
}

#[test]
fn to_piece_reads_diagram_letters() {
    assert_eq!(to_piece('-', true), None);
    assert_eq!(
        to_piece('K', true),
        Some(Piece { color: Color::White, piece_type: PieceType::King, can_castle: true })
    );
    assert_eq!(
        to_piece('r', true),
        Some(Piece { color: Color::Black, piece_type: PieceType::Rook, can_castle: true })
    );
    assert_eq!(
        to_piece('R', false),
        Some(Piece { color: Color::White, piece_type: PieceType::Rook, can_castle: false })
    );
    assert_eq!(
        to_piece('q', true),
        Some(Piece { color: Color::Black, piece_type: PieceType::Queen, can_castle: false })
    );
    assert_eq!(
        to_piece('P', true),
        Some(Piece { color: Color::White, piece_type: PieceType::Pawn, can_castle: false })
    );
    assert_eq!(
        to_piece('n', true),
        Some(Piece { color: Color::Black, piece_type: PieceType::Knight, can_castle: false })
    );
    assert_eq!(
        to_piece('B', true),
        Some(Piece { color: Color::White, piece_type: PieceType::Bishop, can_castle: false })
    );
}

#[test]
fn opening_state_sets_up_the_board() {
    let state = GameState::opening_state();
    assert_eq!(state.current_player, Color::White);
    assert_eq!(state.en_passant_target, None);
    let back = [
        PieceType::Rook,
        PieceType::Knight,
        PieceType::Bishop,
        PieceType::Queen,
        PieceType::King,
        PieceType::Bishop,
        PieceType::Knight,
        PieceType::Rook,
    ];
    for column in 0..8usize {
        let flag = back[column] == PieceType::Rook || back[column] == PieceType::King;
        assert_eq!(
            state.get_piece(&at(column as i8, 0)),
            Some(Piece { color: Color::White, piece_type: back[column], can_castle: flag })
        );
        assert_eq!(
            state.get_piece(&at(column as i8, 1)),
            Some(Piece { color: Color::White, piece_type: PieceType::Pawn, can_castle: false })
        );
        for row in 2..6i8 {
            assert_eq!(state.get_piece(&at(column as i8, row)), None);
        }
        assert_eq!(
            state.get_piece(&at(column as i8, 6)),
            Some(Piece { color: Color::Black, piece_type: PieceType::Pawn, can_castle: false })
        );
        assert_eq!(
            state.get_piece(&at(column as i8, 7)),
            Some(Piece { color: Color::Black, piece_type: back[column], can_castle: flag })
        );
    }
}

#[test]
fn opening_state_counts_the_opening_position_once() {
    let state = GameState::opening_state();
    assert_eq!(state.previous_state_counts.count(&opening_signature()), 1);
    assert_eq!(state.previous_state_counts.count(&String::from("-")), 0);
    assert!(state.previous_state_counts.any_at_least(1));
    assert!(!state.previous_state_counts.any_at_least(2));
}

#[test]
fn custom_hash_writes_the_squares_from_a1() {
    let state = GameState::opening_state();
    assert_eq!(GameState::custom_hash(&state.board), opening_signature());
    let empty = empty_board(Color::White);
    assert_eq!(GameState::custom_hash(&empty.board), "-".repeat(64));
}

#[test]
fn custom_hash_ignores_castling_flags() {
    let mut state = GameState::opening_state();
    state.board[4] = Some(piece(Color::White, PieceType::King));
    assert_eq!(GameState::custom_hash(&state.board), opening_signature());
}

#[test]
fn format_draws_rank_eight_first() {
    let state = GameState::opening_state();
    let mut expected = String::new();
    expected.push_str(
        "\u{2656} \u{2658} \u{2657} \u{2655} \u{2654} \u{2657} \u{2658} \u{2656} \n",
    );
    expected.push_str(
        "\u{2659} \u{2659} \u{2659} \u{2659} \u{2659} \u{2659} \u{2659} \u{2659} \n",
    );
    for _ in 0..4 {
        expected.push_str("- - - - - - - - \n");
    }
    expected.push_str(
        "\u{265F} \u{265F} \u{265F} \u{265F} \u{265F} \u{265F} \u{265F} \u{265F} \n",
    );
    expected.push_str(
        "\u{265C} \u{265E} \u{265D} \u{265B} \u{265A} \u{265D} \u{265E} \u{265C} \n",
    );
    expected.push_str("White to play\n");
    assert_eq!(state.format(), expected);
}

#[test]
fn format_names_black_when_black_is_to_play() {
    let mut state = empty_board(Color::Black);
    put(&mut state, "a1", Color::White, PieceType::King);
    let mut expected = String::new();
    for _ in 0..7 {
        expected.push_str("- - - - - - - - \n");
    }
    expected.push_str("\u{265A} - - - - - - - \n");
    expected.push_str("Black to play\n");
    assert_eq!(state.format(), expected);
}

#[test]
fn get_all_pieces_goes_file_by_file() {
    let state = GameState::opening_state();
    let pieces = state.get_all_pieces();
    assert_eq!(pieces.len(), 32);
    assert_eq!(
        pieces[0],
        Piece { color: Color::White, piece_type: PieceType::Rook, can_castle: true }
    );
    assert_eq!(pieces[1], piece(Color::White, PieceType::Pawn));
    assert_eq!(pieces[2], piece(Color::Black, PieceType::Pawn));
    assert_eq!(
        pieces[3],
        Piece { color: Color::Black, piece_type: PieceType::Rook, can_castle: true }
    );
    assert_eq!(pieces[4], piece(Color::White, PieceType::Knight));
    assert_eq!(
        pieces[16],
        Piece { color: Color::White, piece_type: PieceType::King, can_castle: true }
    );
}

#[test]
fn to_vec_goes_rank_by_rank_with_squares() {
    let state = GameState::opening_state();
    let placed = state.to_vec();
    assert_eq!(placed.len(), 32);
    assert_eq!(placed[0].1, at(0, 0));
    assert_eq!(placed[0].0.piece_type, PieceType::Rook);
    assert_eq!(placed[1].1, at(1, 0));
    assert_eq!(placed[1].0.piece_type, PieceType::Knight);
    assert_eq!(placed[8].1, at(0, 1));
    assert_eq!(placed[16].1, at(0, 6));
    assert_eq!(placed[16].0, piece(Color::Black, PieceType::Pawn));
    assert_eq!(placed[31].1, at(7, 7));
}

#[test]
fn find_piece_finds_the_first_square() {
    let state = GameState::opening_state();
    assert_eq!(state.find_piece(PieceType::King, Color::White), Some(at(4, 0)));
    assert_eq!(state.find_piece(PieceType::King, Color::Black), Some(at(4, 7)));
    assert_eq!(state.find_piece(PieceType::Rook, Color::Black), Some(at(0, 7)));
    assert_eq!(state.find_piece(PieceType::Knight, Color::White), Some(at(1, 0)));
    let empty = empty_board(Color::White);
    assert_eq!(empty.find_piece(PieceType::King, Color::White), None);
}

#[test]
fn clone_copies_the_whole_state() {
    let mut state = GameState::opening_state();
    state.move_piece(&Move::en_passant_enabler(sq("e2"), sq("e4")));
    let copy = state.clone();
    assert_eq!(copy.board, state.board);
    assert_eq!(copy.current_player, Color::Black);
    assert_eq!(copy.en_passant_target, Some(sq("e4")));
    assert_eq!(copy.previous_state_counts.count(&opening_signature()), 1);
    assert_eq!(copy.previous_state_counts.count(&GameState::custom_hash(&state.board)), 1);
}

#[test]
fn move_piece_moves_and_flips_the_player() {
    let mut state = GameState::opening_state();
    state.move_piece(&Move::simple(sq("g1"), sq("f3")));
    assert_eq!(state.get_piece(&sq("g1")), None);
    assert_eq!(state.get_piece(&sq("f3")), Some(piece(Color::White, PieceType::Knight)));
    assert_eq!(state.current_player, Color::Black);
    assert_eq!(state.en_passant_target, None);
    state.move_piece(&Move::simple(sq("b8"), sq("c6")));
    assert_eq!(state.get_piece(&sq("c6")), Some(piece(Color::Black, PieceType::Knight)));
    assert_eq!(state.current_player, Color::White);
}

#[test]
fn move_piece_sets_and_clears_the_en_passant_target() {
    let mut state = GameState::opening_state();
    state.move_piece(&Move::en_passant_enabler(sq("e2"), sq("e4")));
    assert_eq!(state.en_passant_target, Some(sq("e4")));
    state.move_piece(&Move::simple(sq("g8"), sq("f6")));
    assert_eq!(state.en_passant_target, None);
}

#[test]
fn move_piece_clears_the_castling_flag_of_king_and_rook() {
    let mut state = GameState::opening_state();
    state.board[sq("e2").row as usize * 8 + 4] = None;
    state.move_piece(&Move::simple(sq("e1"), sq("e2")));
    assert_eq!(state.get_piece(&sq("e2")), Some(piece(Color::White, PieceType::King)));
    state.board[sq("a7").row as usize * 8] = None;
    state.move_piece(&Move::simple(sq("a8"), sq("a7")));
    assert_eq!(state.get_piece(&sq("a7")), Some(piece(Color::Black, PieceType::Rook)));
    state.move_piece(&Move::simple(sq("e2"), sq("e1")));
    assert_eq!(state.get_piece(&sq("e1")), Some(piece(Color::White, PieceType::King)));
}

#[test]
fn move_piece_castles_with_the_rook() {
    let mut state = GameState::opening_state();
    state.board[5] = None;
    state.board[6] = None;
    let rook = ExtraCastlingMove { source: sq("h1"), destination: sq("f1") };
    state.move_piece(&Move::castle(sq("e1"), sq("g1"), rook));
    assert_eq!(state.get_piece(&sq("e1")), None);
    assert_eq!(state.get_piece(&sq("h1")), None);
    assert_eq!(state.get_piece(&sq("g1")), Some(piece(Color::White, PieceType::King)));
    assert_eq!(state.get_piece(&sq("f1")), Some(piece(Color::White, PieceType::Rook)));
}

#[test]
fn move_piece_captures_in_passing() {
    let mut state = empty_board(Color::White);
    put(&mut state, "e5", Color::White, PieceType::Pawn);
    put(&mut state, "d5", Color::Black, PieceType::Pawn);
    state.move_piece(&Move::en_passant(sq("e5"), sq("d6"), sq("d5")));
    assert_eq!(state.get_piece(&sq("e5")), None);
    assert_eq!(state.get_piece(&sq("d5")), None);
    assert_eq!(state.get_piece(&sq("d6")), Some(piece(Color::White, PieceType::Pawn)));
}

#[test]
fn move_piece_promotes() {
    let mut state = empty_board(Color::Black);
    put(&mut state, "c2", Color::Black, PieceType::Pawn);
    state.move_piece(&Move::promotion(sq("c2"), sq("c1"), PieceType::Queen));
    assert_eq!(state.get_piece(&sq("c2")), None);
    assert_eq!(state.get_piece(&sq("c1")), Some(piece(Color::Black, PieceType::Queen)));
}

#[test]
fn move_piece_counts_the_resulting_position() {
    let mut state = GameState::opening_state();
    state.move_piece(&Move::simple(sq("g1"), sq("f3")));
    let after_one = GameState::custom_hash(&state.board);
    assert_eq!(state.previous_state_counts.count(&after_one), 1);
    state.move_piece(&Move::simple(sq("g8"), sq("f6")));
    state.move_piece(&Move::simple(sq("f3"), sq("g1")));
    state.move_piece(&Move::simple(sq("f6"), sq("g8")));
    assert_eq!(state.previous_state_counts.count(&opening_signature()), 2);
    assert_eq!(state.previous_state_counts.count(&after_one), 1);
}

#[test]
fn get_end_state_tells_the_four_cases() {
    let state = GameState::opening_state();
    let some_moves = vec![Move::simple(sq("g1"), sq("f3"))];
    assert_eq!(state.get_end_state(&some_moves), EndState::NotEnded);
    assert_eq!(state.get_end_state(&Vec::new()), EndState::Stalemate);

    let mut kingless = GameState::opening_state();
    kingless.board[4] = None;
    assert_eq!(kingless.get_end_state(&some_moves), EndState::Win(Color::Black));
    assert_eq!(kingless.get_end_state(&Vec::new()), EndState::Win(Color::Black));
    kingless.current_player = Color::Black;
    assert_eq!(kingless.get_end_state(&some_moves), EndState::NotEnded);
    kingless.board[60] = None;
    assert_eq!(kingless.get_end_state(&some_moves), EndState::Win(Color::White));
}

#[test]
fn threefold_repetition_is_stalemate_with_moves_left() {
    let mut state = GameState::opening_state();
    for _ in 0..2 {
        state.move_piece(&Move::simple(sq("g1"), sq("f3")));
        state.move_piece(&Move::simple(sq("g8"), sq("f6")));
        state.move_piece(&Move::simple(sq("f3"), sq("g1")));
        assert_eq!(state.get_end_state(&vec![Move::simple(sq("f6"), sq("g8"))]), EndState::NotEnded);
        state.move_piece(&Move::simple(sq("f6"), sq("g8")));
    }
    assert_eq!(state.previous_state_counts.count(&opening_signature()), 3);
    assert!(state.previous_state_counts.any_at_least(3));
    let moves = state.get_player_moves_without_check(Color::White);
    assert_eq!(moves.len(), 20);
    assert_eq!(state.get_end_state(&moves), EndState::Stalemate);
    assert_eq!(state.get_player_moves(), PlayerState::Stalemate);
}

#[test]
fn threefold_repetition_comes_before_a_lost_king() {
    let mut state = GameState::opening_state();
    for _ in 0..2 {
        state.move_piece(&Move::simple(sq("g1"), sq("f3")));
        state.move_piece(&Move::simple(sq("g8"), sq("f6")));
        state.move_piece(&Move::simple(sq("f3"), sq("g1")));
        state.move_piece(&Move::simple(sq("f6"), sq("g8")));
    }
    state.board[4] = None;
    assert_eq!(state.get_end_state(&Vec::new()), EndState::Stalemate);
}

#[test]
fn repetition_table_counts_each_signature() {
    let mut table = RepetitionTable::new();
    let a = String::from("a");
    let b = String::from("b");
    assert_eq!(table.count(&a), 0);
    assert!(!table.any_at_least(1));
    table.record(a.clone());
    table.record(b.clone());
    table.record(a.clone());
    assert_eq!(table.count(&a), 2);
    assert_eq!(table.count(&b), 1);
    assert!(table.any_at_least(2));
    assert!(!table.any_at_least(3));
    table.record(a.clone());
    assert!(table.any_at_least(3));
    let copy = table.clone();
    assert_eq!(copy.count(&a), 3);
    assert_eq!(copy.count(&b), 1);
}

#[test]
fn result_for_names_the_winner() {
    let moving = PlayerState::CanMove(vec![Move::simple(sq("g1"), sq("f3"))]);
    assert_eq!(moving.result_for(Color::White), None);
    assert_eq!(moving.result_for(Color::Black), None);
    assert_eq!(PlayerState::Stalemate.result_for(Color::White), Some(GameResult::Draw));
    assert_eq!(PlayerState::Stalemate.result_for(Color::Black), Some(GameResult::Draw));
    assert_eq!(PlayerState::Checkmate.result_for(Color::White), Some(GameResult::BlackWon));
    assert_eq!(PlayerState::Checkmate.result_for(Color::Black), Some(GameResult::WhiteWon));
    assert_eq!(MAX_TURNS, 200);
}
