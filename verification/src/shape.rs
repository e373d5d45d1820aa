//! What every pseudo-legal move looks like: the consequences of the rules
//! of movement on which the consistency of play rests.

use vstd::prelude::*;
use crate::game_state::{Color, GameView, OccupationStatus};
use crate::generation::{bishop_dirs, knight_dirs, lands, rook_dirs, royal_dirs};
use crate::piece_move::Move;
use crate::piece_type::PieceType;
use crate::reach::{along, lemma_generated_moves_are_pseudo_legal};

verus! {

impl GameView {
    /// A plain move of a piece of `color`: nothing but source and
    /// destination, the destination a square that holds no piece of the
    /// same color.
    pub open spec fn is_plain(self, color: Color, m: Move) -> bool {
        &&& m == Move::spec_simple(m.source, m.destination)
        &&& m.destination.in_bounds()
        &&& self.occupation(color, m.destination) != OccupationStatus::Friendly
    }

    /// A pawn's move onto the last rank, becoming a queen.
    pub open spec fn is_promoting(self, color: Color, m: Move) -> bool {
        &&& m == Move::spec_promotion(m.source, m.destination, PieceType::Queen)
        &&& m.destination.in_bounds()
        &&& m.destination.row == color.promotion_row()
        &&& self.occupation(color, m.destination) != OccupationStatus::Friendly
    }

    /// A pawn's two-square advance from its starting row over an empty
    /// square onto an empty square.
    pub open spec fn is_double_step(self, color: Color, m: Move) -> bool {
        &&& m == Move::spec_en_passant_enabler(m.source, m.source.shifted(0, 2 * color.direction()))
        &&& m.source.row == color.pawn_row()
        &&& self.piece_at(m.source.shifted(0, color.direction())) is None
        &&& self.piece_at(m.destination) is None
    }

    /// A pawn's capture in passing towards one side: the en passant target
    /// is the square beside the pawn and holds an enemy pawn, and the pawn
    /// lands diagonally forward on an empty square.
    pub open spec fn is_passing_towards(self, color: Color, m: Move, side: int) -> bool {
        &&& self.may_pass(m.source, color, side)
        &&& m == Move::spec_en_passant(
            m.source,
            m.source.shifted(side, color.direction()),
            m.source.shifted(side, 0),
        )
    }

    /// A pawn's capture in passing.
    pub open spec fn is_passing(self, color: Color, m: Move) -> bool {
        self.is_passing_towards(color, m, -1) || self.is_passing_towards(color, m, 1)
    }

    /// What holds of every pseudo-legal move of `color`: its source is a
    /// square with a piece of that color, and it has one of the forms that
    /// the kind of piece allows.
    pub open spec fn has_shape(self, color: Color, m: Move) -> bool {
        &&& m.source.in_bounds()
        &&& self.piece_at(m.source) matches Some(piece)
        &&& piece.color == color
        &&& match piece.piece_type {
            PieceType::Pawn => {
                ||| self.is_plain(color, m) && m.destination.row != color.promotion_row()
                ||| self.is_promoting(color, m)
                ||| self.is_double_step(color, m)
                ||| self.is_passing(color, m)
            },
            PieceType::King => self.is_plain(color, m) || self.is_castling(piece, m),
            _ => self.is_plain(color, m),
        }
    }
}

/// A pseudo-legal move has the shape that the piece on its source square
/// allows.
pub proof fn lemma_pseudo_legal_has_shape(view: GameView, color: Color, m: Move)
    requires
        view.is_pseudo_legal(color, m),
    ensures
        view.has_shape(color, m),
{
    let piece = view.piece_at(m.source).unwrap();
    let dirs = match piece.piece_type {
        PieceType::Knight => knight_dirs(),
        PieceType::Bishop => bishop_dirs(),
        PieceType::Rook => rook_dirs(),
        _ => royal_dirs(),
    };
    let limit = match piece.piece_type {
        PieceType::Knight => Some(1u8),
        PieceType::King => Some(1u8),
        _ => None,
    };
    if piece.piece_type != PieceType::Pawn && view.slides(m.source, color, dirs, limit, m) {
        let i = choose|i: int|
            0 <= i < dirs.len() && #[trigger] view.runs(
                m.source,
                color,
                dirs[i].0 as int,
                dirs[i].1 as int,
                0,
                limit,
                m,
            );
        let steps = choose|steps: int| #[trigger]
            view.gets_to(m.source, color, dirs[i].0 as int, dirs[i].1 as int, 0, steps, limit)
                && m == Move::spec_simple(
                m.source,
                along(m.source, dirs[i].0 as int, dirs[i].1 as int, steps),
            );
        assert(view.is_plain(color, m));
    }
}

/// Every move that is generated for a color has the shape that the piece
/// on its source square allows.
pub proof fn lemma_pseudo_move_shape(view: GameView, color: Color, m: Move)
    requires
        view.board.len() == 64,
        view.pseudo_moves(color).contains(m),
    ensures
        view.has_shape(color, m),
{
    lemma_generated_moves_are_pseudo_legal(view, color, m);
    lemma_pseudo_legal_has_shape(view, color, m);
}

} // verus!
