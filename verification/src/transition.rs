//! Applying a move to a game state.

use vstd::prelude::*;
use crate::game_state::{Color, GameState, GameView, Piece, signature, square_index};
use crate::piece_move::Move;
use crate::piece_type::PieceType;
use crate::repetition::occurrences;

verus! {

/// What stands on a square, without its castling flag.
pub open spec fn unflagged(square: Option<Piece>) -> Option<Piece> {
    match square {
        Some(piece) => Some(
            Piece { color: piece.color, piece_type: piece.piece_type, can_castle: false },
        ),
        None => None,
    }
}

impl GameView {
    /// The piece on the source square of a move as it lands: a king or rook
    /// loses its castling flag, and a promotion changes the kind of piece.
    pub open spec fn landing_piece(self, m: Move) -> Piece {
        let piece = self.piece_at(m.source).unwrap();
        Piece {
            color: piece.color,
            piece_type: match m.promotion_piece_type {
                Some(promoted) => promoted,
                None => piece.piece_type,
            },
            can_castle: piece.can_castle && piece.piece_type != PieceType::King && piece.piece_type
                != PieceType::Rook,
        }
    }

    /// The board after the moving piece has gone from source to
    /// destination.
    pub open spec fn board_after_step(self, m: Move) -> Seq<Option<Piece>> {
        self.board.update(square_index(m.destination), Some(self.landing_piece(m))).update(
            square_index(m.source),
            None,
        )
    }

    /// The board after the moving piece and, in castling, the rook have
    /// been relocated. The relocated rook loses its castling flag.
    pub open spec fn board_after_castling(self, m: Move) -> Seq<Option<Piece>> {
        let stepped = self.board_after_step(m);
        match m.extra_castling_move {
            Some(extra) => stepped.update(
                square_index(extra.destination),
                unflagged(stepped[square_index(extra.source)]),
            ).update(square_index(extra.source), None),
            None => stepped,
        }
    }

    /// The board after a move: the moving piece relocated, then the rook of
    /// a castling, then the pawn captured in passing removed.
    pub open spec fn board_after(self, m: Move) -> Seq<Option<Piece>> {
        let relocated = self.board_after_castling(m);
        match m.en_passant_target {
            Some(target) => relocated.update(square_index(target), None),
            None => relocated,
        }
    }

    /// Whether the squares that a move names are on the board and its
    /// source holds a piece.
    pub open spec fn fits(self, m: Move) -> bool {
        &&& m.source.in_bounds()
        &&& m.destination.in_bounds()
        &&& self.piece_at(m.source) is Some
        &&& m.extra_castling_move matches Some(extra) ==> extra.source.in_bounds()
            && extra.destination.in_bounds()
        &&& m.en_passant_target matches Some(target) ==> target.in_bounds()
    }

    /// Whether a move can be applied: it fits the board, and the count of
    /// the resulting position can still grow.
    pub open spec fn applicable(self, m: Move) -> bool {
        self.fits(m) && occurrences(self.repetitions, signature(self.board_after(m))) < u8::MAX
    }

    /// The state after a move: the board changed, the en passant target set
    /// to the destination of a two-square pawn advance and cleared by any
    /// other move, the resulting position counted once more, and the other
    /// side to move.
    pub open spec fn apply(self, m: Move) -> GameView {
        let board = self.board_after(m);
        GameView {
            board,
            current_player: self.current_player.spec_opposite(),
            en_passant_target: if m.enables_en_passant {
                Some(m.destination)
            } else {
                None
            },
            repetitions: self.repetitions.insert(
                signature(board),
                occurrences(self.repetitions, signature(board)) + 1,
            ),
        }
    }
}

impl GameState {
    /// Applies a move. The move is not checked against the rules: it is for
    /// the caller to hand in a move that the state has generated.
    pub fn move_piece(&mut self, player_move: &Move)
        requires
            old(self)@.applicable(*player_move),
        ensures
            final(self)@ == old(self)@.apply(*player_move),
    {
        self.en_passant_target = None;
        let mut source_piece = self.get_piece(&player_move.source).unwrap();
        if source_piece.piece_type == PieceType::King || source_piece.piece_type
            == PieceType::Rook {
            source_piece.can_castle = false;
        }
        let result_piece = match player_move.promotion_piece_type {
            None => source_piece,
            Some(promotion_piece_type) => Piece {
                piece_type: promotion_piece_type,
                ..source_piece
            },
        };
        self.set_piece(&Some(result_piece), &player_move.destination);
        self.set_piece(&None, &player_move.source);
        if let Some(extra_castling_move) = player_move.extra_castling_move {
            let rook = match self.get_piece(&extra_castling_move.source) {
                Some(piece) => Some(Piece { can_castle: false, ..piece }),
                None => None,
            };
            self.set_piece(&rook, &extra_castling_move.destination);
            self.set_piece(&None, &extra_castling_move.source);
        }
        if let Some(en_passant_target) = player_move.en_passant_target {
            self.set_piece(&None, &en_passant_target);
        }
        if player_move.enables_en_passant {
            self.en_passant_target = Some(player_move.destination);
        }
        let hash = GameState::custom_hash(&self.board);
        self.previous_state_counts.record(hash);
        self.current_player = if self.current_player == Color::White {
            Color::Black
        } else {
            Color::White
        };
    }
}

} // verus!
