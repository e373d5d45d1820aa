//! Check, legal moves, and the consistency of a state that play preserves.

use vstd::prelude::*;
use crate::game_state::{Color, GameState, GameView, Piece, PlayerState, signature, square_index};
use crate::piece_move::Move;
use crate::piece_type::PieceType;
use crate::position::Position;
use crate::repetition::some_count_reaches;
use crate::reach::lemma_square_round_trip;
use crate::transition::unflagged;
use crate::shape::lemma_pseudo_move_shape;

verus! {

impl GameView {
    /// A piece that keeps its castling flag stands where it started: it is
    /// a king on its home square or a rook in a corner of its home row.
    pub open spec fn flag_in_place(self, index: int) -> bool {
        match self.board[index] {
            Some(piece) => piece.can_castle ==> {
                ||| piece.piece_type == PieceType::King && index == piece.color.home_row() * 8
                    + 4
                ||| piece.piece_type == PieceType::Rook && (index == piece.color.home_row() * 8
                    || index == piece.color.home_row() * 8 + 7)
            },
            None => true,
        }
    }

    /// The en passant target, if any, is where a pawn of the side that has
    /// just moved stands after its two-square advance, and the square that
    /// the pawn passed over is empty.
    pub open spec fn passant_in_place(self) -> bool {
        let mover = self.current_player.spec_opposite();
        match self.en_passant_target {
            None => true,
            Some(target) => {
                &&& target.in_bounds()
                &&& target.row == mover.pawn_row() + 2 * mover.direction()
                &&& self.piece_at(target) matches Some(piece)
                &&& piece.piece_type == PieceType::Pawn
                &&& piece.color == mover
                &&& self.piece_at(target.shifted(0, -mover.direction())) is None
            },
        }
    }

    /// The consistency of a state: 64 squares, castling flags only on kings
    /// and rooks that stand where they started, and an en passant target
    /// only where a pawn has just advanced two squares. The opening
    /// state is consistent, and every pseudo-legal move of the side to move
    /// keeps a state consistent.
    pub open spec fn well_formed(self) -> bool {
        &&& self.board.len() == 64
        &&& forall|index: int| 0 <= index < 64 ==> self.flag_in_place(index)
        &&& self.passant_in_place()
    }

    /// What a pseudo-legal move leaves on the square with the given index:
    /// nothing on its source, the moving piece on its destination, nothing
    /// where a pawn is taken in passing, nothing in the corner that a
    /// castling rook leaves, that rook without its flag on the square where
    /// it arrives, and on every other square what was there.
    pub open spec fn square_after(self, m: Move, index: int) -> Option<Piece> {
        if index == square_index(m.source) {
            None
        } else if index == square_index(m.destination) {
            Some(self.landing_piece(m))
        } else if m.en_passant_target is Some && index == square_index(
            m.en_passant_target.unwrap(),
        ) {
            None
        } else if m.extra_castling_move is Some && index == square_index(
            m.extra_castling_move.unwrap().source,
        ) {
            None
        } else if m.extra_castling_move is Some && index == square_index(
            m.extra_castling_move.unwrap().destination,
        ) {
            unflagged(self.piece_at(m.extra_castling_move.unwrap().source))
        } else {
            self.board[index]
        }
    }

    /// Whether some pseudo-legal move of the color `by` ends on the square.
    pub open spec fn attacked(self, by: Color, square: Position) -> bool {
        exists|i: int|
            0 <= i < self.pseudo_moves(by).len() && (#[trigger] self.pseudo_moves(
                by,
            )[i]).destination == square
    }

    /// Whether the color's king could be captured by the other side's next
    /// move. A side without a king is not in check.
    pub open spec fn in_check(self, color: Color) -> bool {
        match self.find(PieceType::King, color) {
            Some(king) => self.attacked(color.spec_opposite(), king),
            None => false,
        }
    }

    /// Whether a move of the side to move leaves its own king out of check.
    pub open spec fn leaves_king_safe(self, m: Move) -> bool {
        !self.apply(m).in_check(self.current_player)
    }

    /// Those of the candidates, in their order, that leave the mover's king
    /// out of check.
    pub open spec fn safe_among(self, candidates: Seq<Move>) -> Seq<Move> {
        candidates.filter(|m: Move| self.leaves_king_safe(m))
    }

    /// The legal moves of the side to move: its pseudo-legal moves, in their
    /// order, without those that leave its king capturable.
    pub open spec fn legal_moves(self) -> Seq<Move> {
        self.safe_among(self.pseudo_moves(self.current_player))
    }

    /// Whether some position has occurred three times.
    pub open spec fn threefold(self) -> bool {
        some_count_reaches(self.repetitions, 3)
    }
}

/// The opening state is consistent.
pub proof fn lemma_opening_well_formed()
    ensures
        GameView::opening().well_formed(),
{
    let view = GameView::opening();
    assert forall|index: int| 0 <= index < 64 implies view.flag_in_place(index) by {
        lemma_square_round_trip(index);
    }
}

/// In a consistent state a pseudo-legal move of the side to move fits the
/// board and changes it square by square as `square_after` says. The piece
/// that lands has no castling flag; a pawn taken in passing is an enemy
/// pawn; the piece that castling relocates is a rook with its castling
/// flag, and it goes from a corner to the empty square beside the king's
/// destination.
pub proof fn lemma_board_after(view: GameView, m: Move)
    requires
        view.well_formed(),
        view.has_shape(view.current_player, m),
    ensures
        view.fits(m),
        view.board_after(m).len() == 64,
        forall|i: int| 0 <= i < 64 ==> #[trigger] view.board_after(m)[i] == view.square_after(m, i),
        !view.owned(square_index(m.destination), view.current_player),
        view.landing_piece(m).can_castle == false,
        view.landing_piece(m).color == view.current_player,
        view.landing_piece(m).piece_type == PieceType::King <==> view.piece_at(
            m.source,
        ).unwrap().piece_type == PieceType::King,
        m.en_passant_target matches Some(target) ==> {
            &&& view.piece_at(target) matches Some(pawn)
            &&& pawn.piece_type == PieceType::Pawn
            &&& pawn.color != view.current_player
        },
        m.extra_castling_move matches Some(extra) ==> {
            &&& view.piece_at(extra.source) matches Some(rook)
            &&& rook.piece_type == PieceType::Rook
            &&& rook.can_castle
            &&& extra.source.column == 0 || extra.source.column == 7
            &&& extra.destination.column == 3 || extra.destination.column == 5
            &&& view.piece_at(extra.destination) is None
        },
        m.enables_en_passant ==> {
            &&& m.destination.row == view.current_player.pawn_row() + 2
                * view.current_player.direction()
            &&& view.landing_piece(m).piece_type == PieceType::Pawn
            &&& view.board_after(m)[square_index(
                m.destination.shifted(0, -view.current_player.direction()),
            )] is None
        },
{
    let color = view.current_player;
    let piece = view.piece_at(m.source).unwrap();
    assert(view.flag_in_place(square_index(m.source)));
    if piece.piece_type == PieceType::King && view.is_castling(piece, m) {
        let row = color.home_row();
        assert(m.source == Position { column: 4, row: row as i8 });
        let corner: int = if m == GameView::long_castle(m.source) {
            0
        } else {
            7
        };
        assert(view.flag_in_place(row * 8 + corner));
    }
}

/// A pseudo-legal move of the side to move can be made on a consistent
/// state and leaves a consistent state, in which the mover still has its
/// king if it had one.
pub proof fn lemma_move_keeps_well_formed(view: GameView, m: Move)
    requires
        view.well_formed(),
        view.pseudo_moves(view.current_player).contains(m),
    ensures
        view.fits(m),
        view.apply(m).well_formed(),
        view.has_king(view.current_player) ==> view.apply(m).has_king(view.current_player),
{
    lemma_pseudo_move_shape(view, view.current_player, m);
    lemma_board_after(view, m);
    let after = view.apply(m);
    assert forall|index: int| 0 <= index < 64 implies after.flag_in_place(index) by {
        assert(view.flag_in_place(index));
    }
    if view.has_king(view.current_player) {
        let k = choose|k: int| 0 <= k < 64 && view.holds(k, PieceType::King, view.current_player);
        if k == square_index(m.source) {
            assert(after.holds(square_index(m.destination), PieceType::King, view.current_player));
        } else {
            assert(view.flag_in_place(k));
            assert(k != square_index(m.destination));
            assert(view.board_after(m)[k] == view.board[k]);
            assert(after.holds(k, PieceType::King, view.current_player));
        }
    }
}

/// Where no position has occurred three times, any move that fits the
/// board can be applied.
pub proof fn lemma_count_can_grow(view: GameView, m: Move)
    requires
        view.fits(m),
        !view.threefold(),
    ensures
        view.applicable(m),
{
    let key = signature(view.board_after(m));
    if view.repetitions.dom().contains(key) {
        assert(view.repetitions[key] < 3);
    }
}

impl GameState {
    /// Whether the state is consistent.
    pub fn is_well_formed(&self) -> (consistent: bool)
        ensures
            consistent == self@.well_formed(),
    {
        let mut index: usize = 0;
        while index < 64
            invariant
                index <= 64,
                forall|k: int| 0 <= k < index ==> self@.flag_in_place(k),
            decreases 64 - index,
        {
            if let Some(piece) = self.board[index] {
                if piece.can_castle {
                    let home: usize = match piece.color {
                        Color::White => 0,
                        Color::Black => 56,
                    };
                    let in_place = match piece.piece_type {
                        PieceType::Rook => index == home || index == home + 7,
                        PieceType::King => index == home + 4,
                        _ => false,
                    };
                    if !in_place {
                        assert(!self@.flag_in_place(index as int));
                        return false;
                    }
                }
            }
            index += 1;
        }
        match self.en_passant_target {
            None => true,
            Some(target) => {
                if !self.is_in_bounds(&target) {
                    return false;
                }
                let (row, behind): (i8, i8) = match self.current_player {
                    Color::White => (4, 5),
                    Color::Black => (3, 2),
                };
                if target.row != row {
                    return false;
                }
                let pawn_in_place = match self.get_piece(&target) {
                    Some(piece) => piece.piece_type == PieceType::Pawn && piece.color
                        != self.current_player,
                    None => false,
                };
                pawn_in_place && self.is_empty(&Position { column: target.column, row: behind })
            },
        }
    }

    /// Plays one turn: if the side to move has legal moves, the player
    /// chooses one of them and it is made. Returns what the side could do.
    pub fn play_turn<F>(&mut self, player_brain: &F, max_ai_depth: u8) -> (state: PlayerState) where
        F: Fn(&GameState, &Vec<Move>, u8) -> Move,

        requires
            old(self)@.well_formed(),
            old(self)@.has_king(old(self).current_player),
            forall|game_state: &GameState, moves: &Vec<Move>|
                game_state@ == old(self)@ && moves@ == old(self)@.legal_moves() && moves@.len() > 0
                    ==> call_requires(player_brain, (game_state, moves, max_ai_depth)),
            forall|game_state: &GameState, moves: &Vec<Move>, chosen: Move|
                call_ensures(player_brain, (game_state, moves, max_ai_depth), chosen)
                    ==> moves@.contains(chosen),
        ensures
            match state {
                PlayerState::CanMove(moves) => !old(self)@.threefold() && moves@ == old(
                    self,
                )@.legal_moves() && exists|game_state: &GameState, offered: &Vec<Move>, chosen: Move|
                    game_state@ == old(self)@ && offered@ == moves@ && moves@.contains(chosen)
                        && call_ensures(player_brain, (game_state, offered, max_ai_depth), chosen)
                        && final(self)@ == old(self)@.apply(chosen),
                PlayerState::Checkmate => !old(self)@.threefold() && old(self)@.legal_moves().len()
                    == 0 && old(self)@.in_check(old(self).current_player) && final(self)@ == old(
                    self,
                )@,
                PlayerState::Stalemate => (old(self)@.threefold() || (old(self)@.legal_moves().len()
                    == 0 && !old(self)@.in_check(old(self).current_player))) && final(self)@
                    == old(self)@,
            },
    {
        let game_state = self.clone();
        let player_state = game_state.get_player_moves();
        match player_state {
            PlayerState::CanMove(moves) => {
                let player_move = player_brain(&game_state, &moves, max_ai_depth);
                proof {
                    crate::laws::lemma_legal_moves(self@, player_move);
                    lemma_move_keeps_well_formed(self@, player_move);
                    lemma_count_can_grow(self@, player_move);
                }
                self.move_piece(&player_move);
                PlayerState::CanMove(moves)
            },
            PlayerState::Checkmate => PlayerState::Checkmate,
            PlayerState::Stalemate => PlayerState::Stalemate,
        }
    }

    /// Whether the player's king could be captured by the other side's next
    /// move.
    pub fn is_in_check(&self, player: Color) -> (check: bool)
        requires
            self@.has_king(player),
        ensures
            check == self@.in_check(player),
    {
        proof {
            crate::game_state::lemma_has_king(self@, player);
        }
        let king_position = self.find_piece(PieceType::King, player).unwrap();
        let moves = self.get_player_moves_without_check(player.opposite());
        let mut i: usize = 0;
        while i < moves.len()
            invariant
                i <= moves@.len(),
                moves@ == self@.pseudo_moves(player.spec_opposite()),
                self@.find(PieceType::King, player) == Some(king_position),
                forall|k: int| 0 <= k < i ==> (#[trigger] moves@[k]).destination != king_position,
            decreases moves@.len() - i,
        {
            if moves[i].destination == king_position {
                assert(self@.pseudo_moves(player.spec_opposite())[i as int].destination
                    == king_position);
                return true;
            }
            i += 1;
        }
        false
    }

    /// What the side to move can do: its legal moves, or why it has none.
    /// A position that has occurred three times is a stalemate whatever the
    /// moves; without a legal move the side is checkmated if in check and
    /// stalemated if not.
    pub fn get_player_moves(&self) -> (state: PlayerState)
        requires
            self@.well_formed(),
            self@.has_king(self.current_player),
        ensures
            match state {
                PlayerState::CanMove(moves) => !self@.threefold() && moves@ == self@.legal_moves()
                    && moves@.len() > 0 && forall|i: int|
                    0 <= i < moves@.len() ==> self@.pseudo_moves(self.current_player).contains(
                        #[trigger] moves@[i],
                    ) && self@.applicable(moves@[i]) && !self@.apply(moves@[i]).in_check(
                        self.current_player,
                    ),
                PlayerState::Checkmate => !self@.threefold() && self@.legal_moves().len() == 0
                    && self@.in_check(self.current_player),
                PlayerState::Stalemate => self@.threefold() || (self@.legal_moves().len() == 0
                    && !self@.in_check(self.current_player)),
            },
    {
        if self.previous_state_counts.any_at_least(3) {
            return PlayerState::Stalemate;
        }
        let candidates = self.get_player_moves_without_check(self.current_player);
        let mut moves: Vec<Move> = Vec::new();
        let mut i: usize = 0;
        proof {
            reveal(Seq::filter);
            assert(candidates@.take(0) =~= Seq::<Move>::empty());
        }
        while i < candidates.len()
            invariant
                i <= candidates@.len(),
                self@.well_formed(),
                self@.has_king(self.current_player),
                !self@.threefold(),
                candidates@ == self@.pseudo_moves(self.current_player),
                moves@ == self@.safe_among(candidates@.take(i as int)),
            decreases candidates@.len() - i,
        {
            let candidate = candidates[i];
            proof {
                assert(candidates@.contains(candidate));
                lemma_move_keeps_well_formed(self@, candidate);
                lemma_count_can_grow(self@, candidate);
            }
            let mut game_state = self.clone();
            game_state.move_piece(&candidate);
            let safe = !game_state.is_in_check(self.current_player);
            if safe {
                moves.push(candidate);
            }
            proof {
                reveal(Seq::filter);
                assert(candidates@.take(i + 1).drop_last() =~= candidates@.take(i as int));
                assert(candidates@.take(i + 1).last() == candidate);
            }
            i += 1;
        }
        assert(candidates@.take(i as int) =~= candidates@);
        proof {
            assert forall|i: int| 0 <= i < moves@.len() implies self@.pseudo_moves(
                self.current_player,
            ).contains(#[trigger] moves@[i]) && self@.applicable(moves@[i]) && !self@.apply(
                moves@[i],
            ).in_check(self.current_player) by {
                assert(moves@.contains(moves@[i]));
                crate::laws::lemma_legal_moves(self@, moves@[i]);
                lemma_move_keeps_well_formed(self@, moves@[i]);
                lemma_count_can_grow(self@, moves@[i]);
            }
        }
        if moves.len() > 0 {
            PlayerState::CanMove(moves)
        } else if self.is_in_check(self.current_player) {
            PlayerState::Checkmate
        } else {
            PlayerState::Stalemate
        }
    }
}

} // verus!
