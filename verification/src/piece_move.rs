//! Moves: one ply, described completely enough to be applied without
//! consulting the rules again.

use vstd::prelude::*;
use crate::piece_type::PieceType;
use crate::position::{parse_position, lemma_position_notation_round_trip, Position};

verus! {

/// The rook's relocation that accompanies a castling king.
#[derive(Debug, PartialEq, Eq, Clone, Copy, Structural)]
pub struct ExtraCastlingMove {
    pub source: Position,
    pub destination: Position,
}

/// A single ply.
///
/// `enables_en_passant` marks a pawn's two-square advance;
/// `en_passant_target` is the square of the pawn that an en passant capture
/// removes; `extra_castling_move` is the rook's part of castling;
/// `promotion_piece_type` is what a pawn becomes on the last rank.
#[derive(Debug, PartialEq, Eq, Clone, Copy, Structural)]
pub struct Move {
    pub source: Position,
    pub destination: Position,
    pub enables_en_passant: bool,
    pub en_passant_target: Option<Position>,
    pub extra_castling_move: Option<ExtraCastlingMove>,
    pub promotion_piece_type: Option<PieceType>,
}

/// What a text denotes as a move: the notation of the source square followed
/// by that of the destination square, read as a plain move.
pub open spec fn parse_move(text: Seq<char>) -> Option<Move> {
    if text.len() == 4 && parse_position(text.subrange(0, 2)).is_some() && parse_position(
        text.subrange(2, 4),
    ).is_some() {
        Some(
            Move::spec_simple(
                parse_position(text.subrange(0, 2)).unwrap(),
                parse_position(text.subrange(2, 4)).unwrap(),
            ),
        )
    } else {
        None
    }
}

impl Move {
    pub open spec fn spec_simple(source: Position, destination: Position) -> Move {
        Move {
            source,
            destination,
            enables_en_passant: false,
            en_passant_target: None,
            extra_castling_move: None,
            promotion_piece_type: None,
        }
    }

    pub open spec fn spec_en_passant(
        source: Position,
        destination: Position,
        target: Position,
    ) -> Move {
        Move {
            source,
            destination,
            enables_en_passant: false,
            en_passant_target: Some(target),
            extra_castling_move: None,
            promotion_piece_type: None,
        }
    }

    pub open spec fn spec_en_passant_enabler(source: Position, destination: Position) -> Move {
        Move {
            source,
            destination,
            enables_en_passant: true,
            en_passant_target: None,
            extra_castling_move: None,
            promotion_piece_type: None,
        }
    }

    pub open spec fn spec_castle(
        source: Position,
        destination: Position,
        extra_castling_move: ExtraCastlingMove,
    ) -> Move {
        Move {
            source,
            destination,
            enables_en_passant: false,
            en_passant_target: None,
            extra_castling_move: Some(extra_castling_move),
            promotion_piece_type: None,
        }
    }

    pub open spec fn spec_promotion(
        source: Position,
        destination: Position,
        promotion_piece_type: PieceType,
    ) -> Move {
        Move {
            source,
            destination,
            enables_en_passant: false,
            en_passant_target: None,
            extra_castling_move: None,
            promotion_piece_type: Some(promotion_piece_type),
        }
    }

    /// The four-character text of the move: source square, then destination
    /// square. Nothing else about the move is written.
    pub open spec fn notation(self) -> Seq<char> {
        self.source.notation() + self.destination.notation()
    }

    /// A move that only takes a piece from one square to another.
    #[verifier::when_used_as_spec(spec_simple)]
    pub fn simple(source: Position, destination: Position) -> (result: Move)
        ensures
            result == Move::spec_simple(source, destination),
    {
        Move {
            source,
            destination,
            enables_en_passant: false,
            en_passant_target: None,
            extra_castling_move: None,
            promotion_piece_type: None,
        }
    }

    /// A pawn's capture in passing: it lands on `destination` and the pawn on
    /// `target` leaves the board.
    #[verifier::when_used_as_spec(spec_en_passant)]
    pub fn en_passant(source: Position, destination: Position, target: Position) -> (result: Move)
        ensures
            result == Move::spec_en_passant(source, destination, target),
    {
        Move {
            source,
            destination,
            enables_en_passant: false,
            en_passant_target: Some(target),
            extra_castling_move: None,
            promotion_piece_type: None,
        }
    }

    /// A pawn's two-square advance, after which it can be captured in
    /// passing.
    #[verifier::when_used_as_spec(spec_en_passant_enabler)]
    pub fn en_passant_enabler(source: Position, destination: Position) -> (result: Move)
        ensures
            result == Move::spec_en_passant_enabler(source, destination),
    {
        Move {
            source,
            destination,
            enables_en_passant: true,
            en_passant_target: None,
            extra_castling_move: None,
            promotion_piece_type: None,
        }
    }

    /// The king's part of castling together with the rook's relocation.
    #[verifier::when_used_as_spec(spec_castle)]
    pub fn castle(
        source: Position,
        destination: Position,
        extra_castling_move: ExtraCastlingMove,
    ) -> (result: Move)
        ensures
            result == Move::spec_castle(source, destination, extra_castling_move),
    {
        Move {
            source,
            destination,
            enables_en_passant: false,
            en_passant_target: None,
            extra_castling_move: Some(extra_castling_move),
            promotion_piece_type: None,
        }
    }

    /// A pawn's move onto the last rank, where it becomes the given piece.
    #[verifier::when_used_as_spec(spec_promotion)]
    pub fn promotion(
        source: Position,
        destination: Position,
        promotion_piece_type: PieceType,
    ) -> (result: Move)
        ensures
            result == Move::spec_promotion(source, destination, promotion_piece_type),
    {
        Move {
            source,
            destination,
            enables_en_passant: false,
            en_passant_target: None,
            extra_castling_move: None,
            promotion_piece_type: Some(promotion_piece_type),
        }
    }

    /// Reads a move from four-character coordinate notation, such as `e2e4`.
    /// Any other text gives `None`.
    pub fn from_notation(notation: &str) -> (result: Option<Move>)
        ensures
            result == parse_move(notation@),
    {
        if notation.unicode_len() != 4 {
            return None;
        }
        let source = Position::from_notation(notation.substring_char(0, 2));
        let destination = Position::from_notation(notation.substring_char(2, 4));
        match (source, destination) {
            (Some(source), Some(destination)) => Some(Move::simple(source, destination)),
            _ => None,
        }
    }

    /// Writes the move in coordinate notation: source, then destination.
    pub fn simple_format(&self) -> (text: String)
        requires
            0 <= self.source.column < 8,
            self.source.row < i8::MAX,
            0 <= self.destination.column < 8,
            self.destination.row < i8::MAX,
        ensures
            text@ == self.notation(),
    {
        let mut text = self.source.format();
        let destination = self.destination.format();
        text.append(destination.as_str());
        text
    }
}

/// Writing a move whose squares are on the board and reading the text back
/// gives the plain move between the same two squares.
pub proof fn lemma_move_notation_round_trip(m: Move)
    requires
        m.source.in_bounds(),
        m.destination.in_bounds(),
    ensures
        m.notation().len() == 4,
        parse_move(m.notation()) == Some(Move::spec_simple(m.source, m.destination)),
{
    lemma_position_notation_round_trip(m.source);
    lemma_position_notation_round_trip(m.destination);
    assert(m.notation().subrange(0, 2) =~= m.source.notation());
    assert(m.notation().subrange(2, 4) =~= m.destination.notation());
}

} // verus!
