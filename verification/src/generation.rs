//! Pseudo-legal moves: what each piece may do by the shape of its movement,
//! before asking whether the mover's king is left capturable.

use vstd::prelude::*;
use crate::game_state::{Color, GameState, GameView, OccupationStatus, Piece, square_at};
use crate::piece_move::{ExtraCastlingMove, Move};
use crate::piece_type::PieceType;
use crate::position::Position;

verus! {

/// Whether the position moved by the given offsets is a square.
pub open spec fn lands(position: Position, column_offset: int, row_offset: int) -> bool {
    0 <= position.column + column_offset < 8 && 0 <= position.row + row_offset < 8
}

/// A bound on the steps left on a ray: the distance to the edge that the
/// direction runs towards.
pub open spec fn ray_measure(current: Position, dc: int, dr: int) -> int {
    if dc > 0 {
        8 - current.column
    } else if dc < 0 {
        current.column + 1
    } else if dr > 0 {
        8 - current.row
    } else {
        current.row + 1
    }
}

/// The eight jumps of a knight.
pub open spec fn knight_dirs() -> Seq<(i8, i8)> {
    seq![
        (-2i8, -1i8),
        (-2i8, 1i8),
        (-1i8, -2i8),
        (-1i8, 2i8),
        (1i8, -2i8),
        (1i8, 2i8),
        (2i8, -1i8),
        (2i8, 1i8),
    ]
}

/// The four diagonal directions.
pub open spec fn bishop_dirs() -> Seq<(i8, i8)> {
    seq![(-1i8, -1i8), (-1i8, 1i8), (1i8, -1i8), (1i8, 1i8)]
}

/// The four straight directions.
pub open spec fn rook_dirs() -> Seq<(i8, i8)> {
    seq![(-1i8, 0i8), (0i8, -1i8), (0i8, 1i8), (1i8, 0i8)]
}

/// All eight directions, for queen and king.
pub open spec fn royal_dirs() -> Seq<(i8, i8)> {
    seq![
        (-1i8, -1i8),
        (-1i8, 0i8),
        (-1i8, 1i8),
        (0i8, -1i8),
        (0i8, 1i8),
        (1i8, -1i8),
        (1i8, 0i8),
        (1i8, 1i8),
    ]
}

/// Whether every direction is one that a ray can follow from any square:
/// not the null direction, and small enough that a step from the board stays
/// within the coordinate type.
pub open spec fn usable_dirs(dirs: Seq<(i8, i8)>) -> bool {
    forall|i: int|
        0 <= i < dirs.len() ==> ((#[trigger] dirs[i]).0 != 0 || dirs[i].1 != 0) && dirs[i].0
            <= 120 && dirs[i].1 <= 120
}

impl GameView {
    /// The moves of the piece of `color` on `source` along one direction,
    /// continuing from `current` after `taken` steps: square after square
    /// until the edge of the board, a friendly piece (not reached), an enemy
    /// piece (reached, and the ray ends) or the limit of steps.
    pub open spec fn ray_moves(
        self,
        source: Position,
        color: Color,
        current: Position,
        dc: int,
        dr: int,
        taken: nat,
        limit: Option<u8>,
    ) -> Seq<Move>
        decreases ray_measure(current, dc, dr),
    {
        let next = current.shifted(dc, dr);
        if (dc == 0 && dr == 0) || !current.in_bounds() || !lands(current, dc, dr) || (
        limit is Some && taken >= limit.unwrap()) {
            Seq::empty()
        } else {
            match self.occupation(color, next) {
                OccupationStatus::Friendly => Seq::empty(),
                OccupationStatus::Empty => seq![Move::spec_simple(source, next)]
                    + self.ray_moves(source, color, next, dc, dr, taken + 1, limit),
                OccupationStatus::Enemy => seq![Move::spec_simple(source, next)],
            }
        }
    }

    /// The moves of the piece of `color` on `source` along each of the
    /// directions in turn.
    pub open spec fn directed_moves(
        self,
        source: Position,
        color: Color,
        dirs: Seq<(i8, i8)>,
        limit: Option<u8>,
    ) -> Seq<Move>
        decreases dirs.len(),
    {
        if dirs.len() == 0 {
            Seq::empty()
        } else {
            self.directed_moves(source, color, dirs.drop_last(), limit) + self.ray_moves(
                source,
                color,
                source,
                dirs.last().0 as int,
                dirs.last().1 as int,
                0,
                limit,
            )
        }
    }

    /// A pawn's advances: one step onto an empty square, which promotes to a
    /// queen on the last rank; otherwise also two steps from the pawn's
    /// starting row onto an empty square.
    pub open spec fn pawn_advances(self, source: Position, color: Color) -> Seq<Move> {
        let dir = color.direction();
        let one = source.shifted(0, dir);
        let two = source.shifted(0, 2 * dir);
        if lands(source, 0, dir) && self.piece_at(one) is None {
            if one.row == color.promotion_row() {
                seq![Move::spec_promotion(source, one, PieceType::Queen)]
            } else if lands(source, 0, 2 * dir) && source.row == color.pawn_row() && self.piece_at(
                two,
            ) is None {
                seq![Move::spec_simple(source, one), Move::spec_en_passant_enabler(source, two)]
            } else {
                seq![Move::spec_simple(source, one)]
            }
        } else {
            Seq::empty()
        }
    }

    /// A pawn's capture towards one side (`-1` or `1`): diagonally forward
    /// onto an enemy piece, promoting to a queen on the last rank.
    pub open spec fn pawn_capture(self, source: Position, color: Color, side: int) -> Seq<Move> {
        let target = source.shifted(side, color.direction());
        if lands(source, side, color.direction()) && self.occupation(color, target)
            == OccupationStatus::Enemy {
            if target.row == color.promotion_row() {
                seq![Move::spec_promotion(source, target, PieceType::Queen)]
            } else {
                seq![Move::spec_simple(source, target)]
            }
        } else {
            Seq::empty()
        }
    }

    /// Whether a pawn of `color` on `source` may capture in passing towards
    /// one side: the square beside it is the en passant target and holds a
    /// pawn of the other color, and the square diagonally forward, past
    /// that pawn, is on the board and empty.
    pub open spec fn may_pass(self, source: Position, color: Color, side: int) -> bool {
        let beside = source.shifted(side, 0);
        &&& lands(source, side, 0)
        &&& self.en_passant_target == Some(beside)
        &&& self.piece_at(beside) matches Some(pawn)
        &&& pawn.piece_type == PieceType::Pawn
        &&& pawn.color != color
        &&& lands(source, side, color.direction())
        &&& self.piece_at(source.shifted(side, color.direction())) is None
    }

    /// A pawn's capture in passing towards one side, where it may make
    /// one: it lands diagonally forward, and the pawn beside it is taken.
    pub open spec fn pawn_passing(self, source: Position, color: Color, side: int) -> Seq<Move> {
        if self.may_pass(source, color, side) {
            seq![
                Move::spec_en_passant(
                    source,
                    source.shifted(side, color.direction()),
                    source.shifted(side, 0),
                ),
            ]
        } else {
            Seq::empty()
        }
    }

    /// All moves of a pawn: advances, captures to the left and right,
    /// captures in passing to the left and right.
    pub open spec fn pawn_moves(self, source: Position, color: Color) -> Seq<Move> {
        self.pawn_advances(source, color) + self.pawn_capture(source, color, -1)
            + self.pawn_capture(source, color, 1) + self.pawn_passing(source, color, -1)
            + self.pawn_passing(source, color, 1)
    }

    /// Whether the square in the given column of the row holds a piece that
    /// has not lost its castling flag.
    pub open spec fn flagged(self, column: int, row: int) -> bool {
        match self.piece_at(Position { column: column as i8, row: row as i8 }) {
            Some(piece) => piece.can_castle,
            None => false,
        }
    }

    /// Whether the square in the given column of the row is empty.
    pub open spec fn vacant(self, column: int, row: int) -> bool {
        self.piece_at(Position { column: column as i8, row: row as i8 }) is None
    }

    /// Whether the king `piece` may castle towards the a-file: king and
    /// corner piece keep their flags and the three squares between are
    /// empty.
    pub open spec fn may_castle_long(self, piece: Piece) -> bool {
        let row = piece.color.home_row();
        piece.can_castle && self.flagged(0, row) && self.vacant(1, row) && self.vacant(2, row)
            && self.vacant(3, row)
    }

    /// Whether the king `piece` may castle towards the h-file: king and
    /// corner piece keep their flags and the two squares between are empty.
    pub open spec fn may_castle_short(self, piece: Piece) -> bool {
        let row = piece.color.home_row();
        piece.can_castle && self.flagged(7, row) && self.vacant(5, row) && self.vacant(6, row)
    }

    /// The castling move towards the a-file of a king on `source`.
    pub open spec fn long_castle(source: Position) -> Move {
        Move::spec_castle(
            source,
            source.shifted(-2, 0),
            ExtraCastlingMove { source: source.shifted(-4, 0), destination: source.shifted(-1, 0) },
        )
    }

    /// The castling move towards the h-file of a king on `source`.
    pub open spec fn short_castle(source: Position) -> Move {
        Move::spec_castle(
            source,
            source.shifted(2, 0),
            ExtraCastlingMove { source: source.shifted(3, 0), destination: source.shifted(1, 0) },
        )
    }

    /// The castling moves of the king `piece` on `source`: long, then short.
    pub open spec fn castling_moves(self, source: Position, piece: Piece) -> Seq<Move> {
        (if self.may_castle_long(piece) {
            seq![GameView::long_castle(source)]
        } else {
            Seq::empty()
        }) + (if self.may_castle_short(piece) {
            seq![GameView::short_castle(source)]
        } else {
            Seq::empty()
        })
    }

    /// The pseudo-legal moves of whatever stands on `source`.
    pub open spec fn piece_moves(self, source: Position) -> Seq<Move> {
        match self.piece_at(source) {
            None => Seq::empty(),
            Some(piece) => match piece.piece_type {
                PieceType::Pawn => self.pawn_moves(source, piece.color),
                PieceType::Knight => self.directed_moves(
                    source,
                    piece.color,
                    knight_dirs(),
                    Some(1u8),
                ),
                PieceType::Bishop => self.directed_moves(source, piece.color, bishop_dirs(), None),
                PieceType::Rook => self.directed_moves(source, piece.color, rook_dirs(), None),
                PieceType::Queen => self.directed_moves(source, piece.color, royal_dirs(), None),
                PieceType::King => self.directed_moves(
                    source,
                    piece.color,
                    royal_dirs(),
                    Some(1u8),
                ) + self.castling_moves(source, piece),
            },
        }
    }

    /// Whether the square at an index holds a piece of the color.
    pub open spec fn owned(self, index: int, color: Color) -> bool {
        match self.board[index] {
            Some(piece) => piece.color == color,
            None => false,
        }
    }

    /// The pseudo-legal moves of the color's pieces on the first `n`
    /// squares, rank by rank from a1.
    pub open spec fn moves_upto(self, color: Color, n: nat) -> Seq<Move>
        decreases n,
    {
        if n == 0 {
            Seq::empty()
        } else {
            let before = self.moves_upto(color, (n - 1) as nat);
            if self.owned(n - 1, color) {
                before + self.piece_moves(square_at(n - 1))
            } else {
                before
            }
        }
    }

    /// All pseudo-legal moves of a color, square by square from a1 along the
    /// ranks.
    pub open spec fn pseudo_moves(self, color: Color) -> Seq<Move> {
        self.moves_upto(color, 64)
    }
}

impl GameState {
    /// The moves of the piece on `source` along each of the directions in
    /// turn, each ray ending at the edge of the board, before a friendly
    /// piece, on an enemy piece, or after `max_moves` steps.
    pub fn get_consecutive_moves(
        &self,
        source: &Position,
        dirs: &[(i8, i8)],
        max_moves: Option<u8>,
    ) -> (moves: Vec<Move>)
        requires
            source.in_bounds(),
            self@.piece_at(*source) is Some,
            usable_dirs(dirs@),
        ensures
            moves@ == self@.directed_moves(
                *source,
                self@.piece_at(*source).unwrap().color,
                dirs@,
                max_moves,
            ),
    {
        let source_piece = self.get_piece(source).unwrap();
        let ghost color = source_piece.color;
        let mut moves: Vec<Move> = Vec::new();
        let mut d: usize = 0;
        while d < dirs.len()
            invariant
                d <= dirs@.len(),
                source.in_bounds(),
                usable_dirs(dirs@),
                color == source_piece.color,
                moves@ == self@.directed_moves(*source, color, dirs@.take(d as int), max_moves),
            decreases dirs@.len() - d,
        {
            let (col_dir, row_dir) = dirs[d];
            let ghost whole = self@.ray_moves(
                *source,
                color,
                *source,
                col_dir as int,
                row_dir as int,
                0,
                max_moves,
            );
            let mut current_dir_moves: Vec<Move> = Vec::new();
            let mut dest = *source;
            let mut walking = true;
            while walking
                invariant
                    dest.in_bounds(),
                    col_dir != 0 || row_dir != 0,
                    col_dir <= 120,
                    row_dir <= 120,
                    color == source_piece.color,
                    walking ==> whole == current_dir_moves@ + self@.ray_moves(
                        *source,
                        color,
                        dest,
                        col_dir as int,
                        row_dir as int,
                        current_dir_moves@.len(),
                        max_moves,
                    ),
                    !walking ==> whole == current_dir_moves@,
                decreases
                        if walking {
                            ray_measure(dest, col_dir as int, row_dir as int)
                        } else {
                            0
                        },
            {
                let next = dest.relative(col_dir, row_dir);
                let limit_reached = match max_moves {
                    Some(max) => current_dir_moves.len() >= max as usize,
                    None => false,
                };
                if !self.is_in_bounds(&next) || limit_reached {
                    walking = false;
                } else {
                    match self.get_occupation_status(&source_piece, &next) {
                        OccupationStatus::Friendly => {
                            walking = false;
                        },
                        OccupationStatus::Empty => {
                            current_dir_moves.push(Move::simple(*source, next));
                            dest = next;
                        },
                        OccupationStatus::Enemy => {
                            current_dir_moves.push(Move::simple(*source, next));
                            walking = false;
                        },
                    }
                }
                assert(walking ==> whole =~= current_dir_moves@ + self@.ray_moves(
                    *source,
                    color,
                    dest,
                    col_dir as int,
                    row_dir as int,
                    current_dir_moves@.len(),
                    max_moves,
                ));
                assert(!walking ==> whole =~= current_dir_moves@);
            }
            moves.append(&mut current_dir_moves);
            proof {
                assert(dirs@.take(d + 1).drop_last() =~= dirs@.take(d as int));
            }
            d += 1;
        }
        assert(dirs@.take(d as int) =~= dirs@);
        moves
    }

    /// Whether all of the given squares, each a column and a row, are empty.
    pub fn are_all_empty(&self, positions: &[(i8, i8)]) -> (empty: bool)
        requires
            forall|i: int|
                0 <= i < positions@.len() ==> (Position {
                    column: (#[trigger] positions@[i]).0,
                    row: positions@[i].1,
                }).in_bounds(),
        ensures
            empty == forall|i: int|
                0 <= i < positions@.len() ==> self@.vacant(
                    (#[trigger] positions@[i]).0 as int,
                    positions@[i].1 as int,
                ),
    {
        let mut i: usize = 0;
        while i < positions.len()
            invariant
                i <= positions@.len(),
                forall|k: int|
                    0 <= k < positions@.len() ==> (Position {
                        column: (#[trigger] positions@[k]).0,
                        row: positions@[k].1,
                    }).in_bounds(),
                forall|k: int|
                    0 <= k < i ==> self@.vacant(
                        (#[trigger] positions@[k]).0 as int,
                        positions@[k].1 as int,
                    ),
            decreases positions@.len() - i,
        {
            let position = positions[i];
            if !self.is_empty(&Position { column: position.0, row: position.1 }) {
                return false;
            }
            i += 1;
        }
        true
    }

    fn get_pawn_moves(&self, source: &Position, piece: &Piece) -> (moves: Vec<Move>)
        requires
            source.in_bounds(),
        ensures
            moves@ == self@.pawn_moves(*source, piece.color),
    {
        let mut moves: Vec<Move> = Vec::new();
        let (direction, start_row, promotion_row): (i8, i8, i8) = match piece.color {
            Color::White => (1, 1, 7),
            Color::Black => (-1, 6, 0),
        };
        if let Some(forward_one) = self.relative(source, 0, direction) {
            if self.get_occupation_status(piece, &forward_one) == OccupationStatus::Empty {
                if forward_one.row == promotion_row {
                    moves.push(Move::promotion(*source, forward_one, PieceType::Queen));
                } else {
                    moves.push(Move::simple(*source, forward_one));
                    if let Some(forward_two) = self.relative(source, 0, 2 * direction) {
                        if source.row == start_row && self.get_occupation_status(
                            piece,
                            &forward_two,
                        ) == OccupationStatus::Empty {
                            moves.push(Move::en_passant_enabler(*source, forward_two));
                        }
                    }
                }
            }
        }
        assert(moves@ =~= self@.pawn_advances(*source, piece.color));
        if let Some(left_attack) = self.relative(source, -1, direction) {
            if self.get_occupation_status(piece, &left_attack) == OccupationStatus::Enemy {
                if left_attack.row == promotion_row {
                    moves.push(Move::promotion(*source, left_attack, PieceType::Queen));
                } else {
                    moves.push(Move::simple(*source, left_attack));
                }
            }
        }
        assert(moves@ =~= self@.pawn_advances(*source, piece.color) + self@.pawn_capture(
            *source,
            piece.color,
            -1,
        ));
        if let Some(right_attack) = self.relative(source, 1, direction) {
            if self.get_occupation_status(piece, &right_attack) == OccupationStatus::Enemy {
                if right_attack.row == promotion_row {
                    moves.push(Move::promotion(*source, right_attack, PieceType::Queen));
                } else {
                    moves.push(Move::simple(*source, right_attack));
                }
            }
        }
        assert(moves@ =~= self@.pawn_advances(*source, piece.color) + self@.pawn_capture(
            *source,
            piece.color,
            -1,
        ) + self@.pawn_capture(*source, piece.color, 1));
        let mut left_passing = self.get_passing_moves(source, piece, -1);
        moves.append(&mut left_passing);
        assert(moves@ =~= self@.pawn_advances(*source, piece.color) + self@.pawn_capture(
            *source,
            piece.color,
            -1,
        ) + self@.pawn_capture(*source, piece.color, 1) + self@.pawn_passing(
            *source,
            piece.color,
            -1,
        ));
        let mut right_passing = self.get_passing_moves(source, piece, 1);
        moves.append(&mut right_passing);
        assert(moves@ =~= self@.pawn_moves(*source, piece.color));
        moves
    }

    fn get_passing_moves(&self, source: &Position, piece: &Piece, side: i8) -> (moves: Vec<Move>)
        requires
            source.in_bounds(),
            side == -1 || side == 1,
        ensures
            moves@ == self@.pawn_passing(*source, piece.color, side as int),
    {
        let mut moves: Vec<Move> = Vec::new();
        let direction: i8 = match piece.color {
            Color::White => 1,
            Color::Black => -1,
        };
        if let Some(beside) = self.relative(source, side, 0) {
            if self.en_passant_target == Some(beside) {
                let enemy_pawn = match self.get_piece(&beside) {
                    Some(other) => other.piece_type == PieceType::Pawn && other.color
                        != piece.color,
                    None => false,
                };
                if enemy_pawn {
                    if let Some(landing) = self.relative(source, side, direction) {
                        if self.is_empty(&landing) {
                            moves.push(Move::en_passant(*source, landing, beside));
                        }
                    }
                }
            }
        }
        assert(moves@ =~= self@.pawn_passing(*source, piece.color, side as int));
        moves
    }

    fn corner_flagged(&self, column: i8, row: i8) -> (flagged: bool)
        requires
            0 <= column < 8,
            0 <= row < 8,
        ensures
            flagged == self@.flagged(column as int, row as int),
    {
        match self.get_piece(&Position { column, row }) {
            Some(piece) => piece.can_castle,
            None => false,
        }
    }

    fn get_castling_moves(&self, source: &Position, piece: &Piece) -> (moves: Vec<Move>)
        requires
            source.in_bounds(),
        ensures
            moves@ == self@.castling_moves(*source, *piece),
    {
        let mut moves: Vec<Move> = Vec::new();
        if piece.can_castle {
            let row: i8 = match piece.color {
                Color::White => 0,
                Color::Black => 7,
            };
            let long_squares = [(1i8, row), (2i8, row), (3i8, row)];
            if self.corner_flagged(0, row) && self.are_all_empty(&long_squares) {
                assert(self@.vacant(long_squares@[0].0 as int, long_squares@[0].1 as int));
                assert(self@.vacant(long_squares@[1].0 as int, long_squares@[1].1 as int));
                assert(self@.vacant(long_squares@[2].0 as int, long_squares@[2].1 as int));
                let rook_move = ExtraCastlingMove {
                    source: source.relative(-4, 0),
                    destination: source.relative(-1, 0),
                };
                moves.push(Move::castle(*source, source.relative(-2, 0), rook_move));
            }
            let short_squares = [(5i8, row), (6i8, row)];
            if self.corner_flagged(7, row) && self.are_all_empty(&short_squares) {
                assert(self@.vacant(short_squares@[0].0 as int, short_squares@[0].1 as int));
                assert(self@.vacant(short_squares@[1].0 as int, short_squares@[1].1 as int));
                let rook_move = ExtraCastlingMove {
                    source: source.relative(3, 0),
                    destination: source.relative(1, 0),
                };
                moves.push(Move::castle(*source, source.relative(2, 0), rook_move));
            }
        }
        assert(moves@ =~= self@.castling_moves(*source, *piece));
        moves
    }

    /// The pseudo-legal moves of whatever stands on `source`.
    pub fn get_moves_for_piece(&self, source: &Position) -> (moves: Vec<Move>)
        requires
            source.in_bounds(),
        ensures
            moves@ == self@.piece_moves(*source),
    {
        let piece = match self.get_piece(source) {
            None => {
                return Vec::new();
            },
            Some(piece) => piece,
        };
        match piece.piece_type {
            PieceType::Pawn => self.get_pawn_moves(source, &piece),
            PieceType::Knight => {
                let dirs = [
                    (-2i8, -1i8),
                    (-2i8, 1i8),
                    (-1i8, -2i8),
                    (-1i8, 2i8),
                    (1i8, -2i8),
                    (1i8, 2i8),
                    (2i8, -1i8),
                    (2i8, 1i8),
                ];
                assert(dirs@ =~= knight_dirs());
                self.get_consecutive_moves(source, &dirs, Some(1))
            },
            PieceType::Bishop => {
                let dirs = [(-1i8, -1i8), (-1i8, 1i8), (1i8, -1i8), (1i8, 1i8)];
                assert(dirs@ =~= bishop_dirs());
                self.get_consecutive_moves(source, &dirs, None)
            },
            PieceType::Rook => {
                let dirs = [(-1i8, 0i8), (0i8, -1i8), (0i8, 1i8), (1i8, 0i8)];
                assert(dirs@ =~= rook_dirs());
                self.get_consecutive_moves(source, &dirs, None)
            },
            PieceType::Queen => {
                let dirs = [
                    (-1i8, -1i8),
                    (-1i8, 0i8),
                    (-1i8, 1i8),
                    (0i8, -1i8),
                    (0i8, 1i8),
                    (1i8, -1i8),
                    (1i8, 0i8),
                    (1i8, 1i8),
                ];
                assert(dirs@ =~= royal_dirs());
                self.get_consecutive_moves(source, &dirs, None)
            },
            PieceType::King => {
                let dirs = [
                    (-1i8, -1i8),
                    (-1i8, 0i8),
                    (-1i8, 1i8),
                    (0i8, -1i8),
                    (0i8, 1i8),
                    (1i8, -1i8),
                    (1i8, 0i8),
                    (1i8, 1i8),
                ];
                assert(dirs@ =~= royal_dirs());
                let mut moves = self.get_consecutive_moves(source, &dirs, Some(1));
                let mut castling = self.get_castling_moves(source, &piece);
                moves.append(&mut castling);
                moves
            },
        }
    }

    fn get_player_moves_base(&self, color: Color) -> (moves: Vec<Move>)
        ensures
            moves@ == self@.pseudo_moves(color),
    {
        let mut moves: Vec<Move> = Vec::new();
        let mut row: i8 = 0;
        while row < 8
            invariant
                0 <= row <= 8,
                moves@ == self@.moves_upto(color, (row * 8) as nat),
            decreases 8 - row,
        {
            let mut column: i8 = 0;
            while column < 8
                invariant
                    0 <= row < 8,
                    0 <= column <= 8,
                    moves@ == self@.moves_upto(color, (row * 8 + column) as nat),
                decreases 8 - column,
            {
                let position = Position { column, row };
                let owned = match self.get_piece(&position) {
                    Some(piece) => piece.color == color,
                    None => false,
                };
                if owned {
                    let mut piece_moves = self.get_moves_for_piece(&position);
                    moves.append(&mut piece_moves);
                }
                column += 1;
            }
            row += 1;
        }
        moves
    }

    /// All pseudo-legal moves of a color: the moves that its pieces may make
    /// by the shape of their movement, whether or not they leave its king
    /// capturable. They come square by square from a1 along the ranks.
    pub fn get_player_moves_without_check(&self, color: Color) -> (moves: Vec<Move>)
        ensures
            moves@ == self@.pseudo_moves(color),
            forall|m: Move| moves@.contains(m) <==> self@.is_pseudo_legal(color, m),
    {
        let moves = self.get_player_moves_base(color);
        proof {
            assert forall|m: Move| moves@.contains(m) <==> self@.is_pseudo_legal(color, m) by {
                crate::reach::lemma_generated_moves_are_pseudo_legal(self@, color, m);
            }
        }
        moves
    }
}

} // verus!
