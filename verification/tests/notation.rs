use chess_engine::human_player::{find_move, read_entry, Entry};
use chess_engine::piece_move::{ExtraCastlingMove, Move};
use chess_engine::piece_type::PieceType;
use chess_engine::position::Position;

fn at(column: i8, row: i8) -> Position {
    Position { column, row }
}

#[test]
fn position_from_notation_reads_corners() {
    assert_eq!(Position::from_notation("a1"), Some(at(0, 0)));
    assert_eq!(Position::from_notation("h8"), Some(at(7, 7)));
    assert_eq!(Position::from_notation("e4"), Some(at(4, 3)));
    assert_eq!(Position::from_notation("b7"), Some(at(1, 6)));
}

#[test]
fn position_from_notation_rejects_malformed_text() {
    assert_eq!(Position::from_notation(""), None);
    assert_eq!(Position::from_notation("e"), None);
    assert_eq!(Position::from_notation("e44"), None);
    assert_eq!(Position::from_notation("a0"), None);
    assert_eq!(Position::from_notation("a9"), None);
    assert_eq!(Position::from_notation("i1"), None);
    assert_eq!(Position::from_notation("A1"), None);
    assert_eq!(Position::from_notation("1a"), None);
    assert_eq!(Position::from_notation("\u{e9}"), None);
    assert_eq!(Position::from_notation("a\u{e9}"), None);
    assert_eq!(Position::from_notation("a\u{661}"), None);
}

#[test]
fn position_relative_adds_offsets() {
    assert_eq!(at(4, 1).relative(0, 2), at(4, 3));
    assert_eq!(at(0, 0).relative(-1, -2), at(-1, -2));
    assert_eq!(at(7, 7).relative(1, 1), at(8, 8));
    assert_eq!(at(3, 3).relative(0, 0), at(3, 3));
}

#[test]
fn position_format_writes_file_and_rank() {
    assert_eq!(at(0, 0).format(), "a1");
    assert_eq!(at(7, 7).format(), "h8");
    assert_eq!(at(4, 3).format(), "e4");
}

#[test]
fn position_format_writes_ranks_off_the_board_in_decimal() {
    assert_eq!(at(0, 8).format(), "a9");
    assert_eq!(at(1, 9).format(), "b10");
    assert_eq!(at(2, 98).format(), "c99");
    assert_eq!(at(3, 99).format(), "d100");
    assert_eq!(at(4, 126).format(), "e127");
    assert_eq!(at(5, -1).format(), "f0");
    assert_eq!(at(6, -2).format(), "g-1");
    assert_eq!(at(7, -128).format(), "h-127");
}

#[test]
fn position_round_trip_over_the_board() {
    for column in 0..8i8 {
        for row in 0..8i8 {
            let position = at(column, row);
            let text = position.format();
            assert_eq!(text.chars().count(), 2);
            assert_eq!(Position::from_notation(&text), Some(position));
        }
    }
}

#[test]
fn move_constructors_fill_their_fields() {
    let source = at(4, 1);
    let destination = at(4, 3);
    let simple = Move::simple(source, destination);
    assert_eq!(simple.source, source);
    assert_eq!(simple.destination, destination);
    assert!(!simple.enables_en_passant);
    assert_eq!(simple.en_passant_target, None);
    assert_eq!(simple.extra_castling_move, None);
    assert_eq!(simple.promotion_piece_type, None);

    let enabler = Move::en_passant_enabler(source, destination);
    assert!(enabler.enables_en_passant);
    assert_eq!(enabler.en_passant_target, None);
    assert_eq!(enabler.extra_castling_move, None);
    assert_eq!(enabler.promotion_piece_type, None);

    let passing = Move::en_passant(at(4, 4), at(3, 5), at(3, 4));
    assert!(!passing.enables_en_passant);
    assert_eq!(passing.en_passant_target, Some(at(3, 4)));
    assert_eq!(passing.extra_castling_move, None);
    assert_eq!(passing.promotion_piece_type, None);

    let rook = ExtraCastlingMove { source: at(7, 0), destination: at(5, 0) };
    let castle = Move::castle(at(4, 0), at(6, 0), rook);
    assert!(!castle.enables_en_passant);
    assert_eq!(castle.en_passant_target, None);
    assert_eq!(castle.extra_castling_move, Some(rook));
    assert_eq!(castle.promotion_piece_type, None);

    let promotion = Move::promotion(at(0, 6), at(0, 7), PieceType::Queen);
    assert!(!promotion.enables_en_passant);
    assert_eq!(promotion.en_passant_target, None);
    assert_eq!(promotion.extra_castling_move, None);
    assert_eq!(promotion.promotion_piece_type, Some(PieceType::Queen));
}

#[test]
fn move_from_notation_reads_a_plain_move() {
    assert_eq!(Move::from_notation("e2e4"), Some(Move::simple(at(4, 1), at(4, 3))));
    assert_eq!(Move::from_notation("a1h8"), Some(Move::simple(at(0, 0), at(7, 7))));
    assert_eq!(Move::from_notation("g8f6"), Some(Move::simple(at(6, 7), at(5, 5))));
}

#[test]
fn move_from_notation_rejects_malformed_text() {
    assert_eq!(Move::from_notation(""), None);
    assert_eq!(Move::from_notation("e2"), None);
    assert_eq!(Move::from_notation("e2e"), None);
    assert_eq!(Move::from_notation("e2e4q"), None);
    assert_eq!(Move::from_notation("e2e9"), None);
    assert_eq!(Move::from_notation("e0e4"), None);
    assert_eq!(Move::from_notation("i2e4"), None);
    assert_eq!(Move::from_notation("e2-4"), None);
    assert_eq!(Move::from_notation("E2E4"), None);
    assert_eq!(Move::from_notation("a\u{e9}1"), None);
    assert_eq!(Move::from_notation("\u{e9}\u{e9}"), None);
}

#[test]
fn move_simple_format_writes_source_and_destination() {
    assert_eq!(Move::simple(at(4, 1), at(4, 3)).simple_format(), "e2e4");
    assert_eq!(Move::promotion(at(0, 6), at(1, 7), PieceType::Queen).simple_format(), "a7b8");
    let rook = ExtraCastlingMove { source: at(0, 7), destination: at(3, 7) };
    assert_eq!(Move::castle(at(4, 7), at(2, 7), rook).simple_format(), "e8c8");
}

#[test]
fn move_round_trip_reproduces_source_and_destination() {
    for source in 0..64i8 {
        for destination in [0i8, 9, 27, 36, 63] {
            let from = at(source % 8, source / 8);
            let to = at(destination % 8, destination / 8);
            let special = Move::promotion(from, to, PieceType::Queen);
            let text = special.simple_format();
            assert_eq!(Move::from_notation(&text), Some(Move::simple(from, to)));
        }
    }
}

#[test]
fn find_move_takes_the_first_between_the_squares() {
    let plain = Move::simple(at(4, 6), at(4, 7));
    let promotion = Move::promotion(at(4, 6), at(4, 7), PieceType::Queen);
    let other = Move::simple(at(0, 1), at(0, 2));
    let moves = vec![other, promotion, plain];
    assert_eq!(find_move(&moves, &at(4, 6), &at(4, 7)), Some(promotion));
    assert_eq!(find_move(&moves, &at(0, 1), &at(0, 2)), Some(other));
    assert_eq!(find_move(&moves, &at(0, 1), &at(0, 3)), None);
    assert_eq!(find_move(&Vec::new(), &at(0, 1), &at(0, 2)), None);
}

#[test]
fn read_entry_tells_invalid_from_illegal() {
    let enabler = Move::en_passant_enabler(at(4, 1), at(4, 3));
    let moves = vec![Move::simple(at(4, 1), at(4, 2)), enabler];
    assert_eq!(read_entry(&moves, "e2e4\n"), Entry::Chosen(enabler));
    assert_eq!(read_entry(&moves, "e2e4"), Entry::Chosen(enabler));
    assert_eq!(read_entry(&moves, "e2e4\n\n"), Entry::Chosen(enabler));
    assert_eq!(read_entry(&moves, "e2e5\n"), Entry::Illegal);
    assert_eq!(read_entry(&moves, "d2d4\n"), Entry::Illegal);
    assert_eq!(read_entry(&moves, "e2e4 \n"), Entry::Invalid);
    assert_eq!(read_entry(&moves, "castle\n"), Entry::Invalid);
    assert_eq!(read_entry(&moves, "\n"), Entry::Invalid);
    assert_eq!(read_entry(&moves, ""), Entry::Invalid);
    assert_eq!(read_entry(&moves, "\ne2e4"), Entry::Invalid);
}
