//! The pseudo-legal moves said outright: which moves a piece has, told by
//! the squares and not by the order in which they are generated.

use vstd::prelude::*;
use crate::game_state::{Color, GameView, OccupationStatus, Piece, square_at, square_index};
use crate::generation::{bishop_dirs, knight_dirs, lands, ray_measure, rook_dirs, royal_dirs};
use crate::piece_move::Move;
use crate::piece_type::PieceType;
use crate::position::Position;

verus! {

/// Whether the point a number of steps from `source` in a direction is a
/// square.
pub open spec fn on_board_at(source: Position, dc: int, dr: int, steps: int) -> bool {
    0 <= source.column + steps * dc < 8 && 0 <= source.row + steps * dr < 8
}

/// The position a number of steps from `source` in a direction.
pub open spec fn along(source: Position, dc: int, dr: int, steps: int) -> Position {
    Position { column: (source.column + steps * dc) as i8, row: (source.row + steps * dr) as i8 }
}

impl GameView {
    /// Whether the square `steps` steps from `source` is a square of the
    /// board and empty.
    pub open spec fn open_at(self, source: Position, dc: int, dr: int, steps: int) -> bool {
        on_board_at(source, dc, dr, steps) && self.piece_at(along(source, dc, dr, steps)) is None
    }

    /// Whether a piece of `color` that has come `from` steps along a ray
    /// from `source` gets to the square `steps` steps along it: every
    /// square between is empty, the square itself is on the board and holds
    /// no piece of the same color, and the limit of steps, if there is one,
    /// is kept.
    pub open spec fn gets_to(
        self,
        source: Position,
        color: Color,
        dc: int,
        dr: int,
        from: int,
        steps: int,
        limit: Option<u8>,
    ) -> bool {
        &&& from < steps
        &&& limit matches Some(max) ==> steps <= max
        &&& on_board_at(source, dc, dr, steps)
        &&& forall|j: int| from < j < steps ==> #[trigger] self.open_at(source, dc, dr, j)
        &&& self.occupation(color, along(source, dc, dr, steps)) != OccupationStatus::Friendly
    }

    /// Whether a move is the plain move of a piece of `color` from `source`
    /// along a ray to a square that it gets to.
    pub open spec fn runs(
        self,
        source: Position,
        color: Color,
        dc: int,
        dr: int,
        from: int,
        limit: Option<u8>,
        m: Move,
    ) -> bool {
        exists|steps: int| #[trigger]
            self.gets_to(source, color, dc, dr, from, steps, limit) && m == Move::spec_simple(
                source,
                along(source, dc, dr, steps),
            )
    }

    /// Whether a move is the plain move of a piece of `color` from `source`
    /// along one of the directions to a square that it reaches.
    pub open spec fn slides(
        self,
        source: Position,
        color: Color,
        dirs: Seq<(i8, i8)>,
        limit: Option<u8>,
        m: Move,
    ) -> bool {
        exists|i: int|
            0 <= i < dirs.len() && #[trigger] self.runs(
                source,
                color,
                dirs[i].0 as int,
                dirs[i].1 as int,
                0,
                limit,
                m,
            )
    }

    /// Whether a move is a move of a pawn of `color` on `source`: one step
    /// forward onto an empty square; two steps from the starting row over
    /// an empty square onto an empty square; diagonally forward onto an
    /// enemy piece; or diagonally forward onto an empty square past the
    /// enemy pawn beside it that is the en passant target. A step or capture onto the last rank is a
    /// promotion to a queen.
    pub open spec fn is_pawn_move(self, source: Position, color: Color, m: Move) -> bool {
        let dir = color.direction();
        let one = source.shifted(0, dir);
        let two = source.shifted(0, 2 * dir);
        let free = lands(source, 0, dir) && self.piece_at(one) is None;
        ||| free && one.row == color.promotion_row() && m == Move::spec_promotion(
            source,
            one,
            PieceType::Queen,
        )
        ||| free && one.row != color.promotion_row() && m == Move::spec_simple(source, one)
        ||| free && one.row != color.promotion_row() && lands(source, 0, 2 * dir) && source.row
            == color.pawn_row() && self.piece_at(two) is None && m
            == Move::spec_en_passant_enabler(source, two)
        ||| self.is_pawn_capture(source, color, -1, m)
        ||| self.is_pawn_capture(source, color, 1, m)
        ||| self.is_pawn_passing(source, color, -1, m)
        ||| self.is_pawn_passing(source, color, 1, m)
    }

    /// A pawn's capture towards one side.
    pub open spec fn is_pawn_capture(self, source: Position, color: Color, side: int, m: Move)
        -> bool {
        let target = source.shifted(side, color.direction());
        &&& lands(source, side, color.direction())
        &&& self.occupation(color, target) == OccupationStatus::Enemy
        &&& m == if target.row == color.promotion_row() {
            Move::spec_promotion(source, target, PieceType::Queen)
        } else {
            Move::spec_simple(source, target)
        }
    }

    /// A pawn's capture in passing towards one side.
    pub open spec fn is_pawn_passing(self, source: Position, color: Color, side: int, m: Move)
        -> bool {
        &&& self.may_pass(source, color, side)
        &&& m == Move::spec_en_passant(
            source,
            source.shifted(side, color.direction()),
            source.shifted(side, 0),
        )
    }

    /// A castling of the king `piece` that the flags and the empty squares
    /// allow.
    pub open spec fn is_castling(self, piece: Piece, m: Move) -> bool {
        ||| self.may_castle_long(piece) && m == GameView::long_castle(m.source)
        ||| self.may_castle_short(piece) && m == GameView::short_castle(m.source)
    }

    /// Whether a move is a pseudo-legal move of `color`: its source holds a
    /// piece of that color, and the move is one that the kind of piece
    /// makes. A knight leaps once; bishop, rook and queen slide along
    /// their directions; a king steps once or castles.
    pub open spec fn is_pseudo_legal(self, color: Color, m: Move) -> bool {
        &&& m.source.in_bounds()
        &&& self.piece_at(m.source) matches Some(piece)
        &&& piece.color == color
        &&& match piece.piece_type {
            PieceType::Pawn => self.is_pawn_move(m.source, color, m),
            PieceType::Knight => self.slides(m.source, color, knight_dirs(), Some(1u8), m),
            PieceType::Bishop => self.slides(m.source, color, bishop_dirs(), None, m),
            PieceType::Rook => self.slides(m.source, color, rook_dirs(), None, m),
            PieceType::Queen => self.slides(m.source, color, royal_dirs(), None, m),
            PieceType::King => self.slides(m.source, color, royal_dirs(), Some(1u8), m)
                || self.is_castling(piece, m),
        }
    }
}

/// A square's index leads back to the square.
pub proof fn lemma_square_round_trip(index: int)
    requires
        0 <= index < 64,
    ensures
        square_at(index).in_bounds(),
        square_index(square_at(index)) == index,
{
}

/// A move is among those of the first `n` squares exactly if it is among
/// the moves of one of these squares that holds a piece of the color.
pub proof fn lemma_moves_upto_contains(view: GameView, color: Color, n: nat, m: Move)
    ensures
        view.moves_upto(color, n).contains(m) <==> exists|k: int|
            0 <= k < n && view.owned(k, color) && #[trigger] view.piece_moves(
                square_at(k),
            ).contains(m),
    decreases n,
{
    if n > 0 {
        let before = view.moves_upto(color, (n - 1) as nat);
        let here = view.piece_moves(square_at(n - 1));
        lemma_moves_upto_contains(view, color, (n - 1) as nat, m);
        if view.moves_upto(color, n).contains(m) {
            let moves = view.moves_upto(color, n);
            let j = choose|j: int| 0 <= j < moves.len() && moves[j] == m;
            if j < before.len() {
                assert(before[j] == m);
                assert(before.contains(m));
                let k = choose|k: int|
                    0 <= k < n - 1 && view.owned(k, color) && #[trigger] view.piece_moves(
                        square_at(k),
                    ).contains(m);
                assert(0 <= k < n && view.owned(k, color) && view.piece_moves(
                    square_at(k),
                ).contains(m));
            } else {
                assert(here[j - before.len()] == m);
                assert(view.owned(n - 1, color) && view.piece_moves(square_at(n - 1)).contains(m));
            }
        }
        if exists|k: int|
            0 <= k < n && view.owned(k, color) && #[trigger] view.piece_moves(
                square_at(k),
            ).contains(m) {
            let k = choose|k: int|
                0 <= k < n && view.owned(k, color) && #[trigger] view.piece_moves(
                    square_at(k),
                ).contains(m);
            if k < n - 1 {
                assert(before.contains(m));
                let j = choose|j: int| 0 <= j < before.len() && before[j] == m;
                if view.owned(n - 1, color) {
                    assert((before + here)[j] == m);
                }
            } else {
                let j = choose|j: int| 0 <= j < here.len() && here[j] == m;
                assert((before + here)[before.len() + j] == m);
            }
        }
    } else {
        assert(!view.moves_upto(color, 0).contains(m));
    }
}

proof fn lemma_next_along(source: Position, dc: int, dr: int, steps: int)
    requires
        on_board_at(source, dc, dr, steps),
    ensures
        along(source, dc, dr, steps).in_bounds(),
        lands(along(source, dc, dr, steps), dc, dr) <==> on_board_at(source, dc, dr, steps + 1),
        on_board_at(source, dc, dr, steps + 1) ==> along(source, dc, dr, steps).shifted(dc, dr)
            == along(source, dc, dr, steps + 1),
{
    assert((steps + 1) * dc == steps * dc + dc) by (nonlinear_arith);
    assert((steps + 1) * dr == steps * dr + dr) by (nonlinear_arith);
}

/// The moves along a ray are the plain moves to the squares that the piece
/// gets to.
pub proof fn lemma_ray_moves_run(
    view: GameView,
    source: Position,
    color: Color,
    dc: int,
    dr: int,
    taken: nat,
    limit: Option<u8>,
    m: Move,
)
    requires
        on_board_at(source, dc, dr, taken as int),
        dc != 0 || dr != 0,
    ensures
        view.ray_moves(source, color, along(source, dc, dr, taken as int), dc, dr, taken, limit)
            .contains(m) <==> view.runs(source, color, dc, dr, taken as int, limit, m),
    decreases ray_measure(along(source, dc, dr, taken as int), dc, dr),
{
    let t = taken as int;
    let current = along(source, dc, dr, t);
    let next = along(source, dc, dr, t + 1);
    let moves = view.ray_moves(source, color, current, dc, dr, taken, limit);
    let first = Move::spec_simple(source, next);
    lemma_next_along(source, dc, dr, t);
    let stopped = !lands(current, dc, dr) || (limit is Some && taken >= limit.unwrap());
    if stopped {
        assert(moves =~= Seq::empty());
        if view.runs(source, color, dc, dr, t, limit, m) {
            let steps = choose|steps: int| #[trigger]
                view.gets_to(source, color, dc, dr, t, steps, limit) && m
                    == Move::spec_simple(source, along(source, dc, dr, steps));
            if steps > t + 1 {
                assert(view.open_at(source, dc, dr, t + 1));
            }
            assert(false);
        }
    } else {
        lemma_next_along(source, dc, dr, t + 1);
        let status = view.occupation(color, next);
        if view.runs(source, color, dc, dr, t, limit, m) {
            let steps = choose|steps: int| #[trigger]
                view.gets_to(source, color, dc, dr, t, steps, limit) && m
                    == Move::spec_simple(source, along(source, dc, dr, steps));
            if steps == t + 1 {
                assert(status != OccupationStatus::Friendly);
                assert(moves[0] == m);
            } else {
                assert(view.open_at(source, dc, dr, t + 1));
                assert(status == OccupationStatus::Empty);
                assert(view.gets_to(source, color, dc, dr, t + 1, steps, limit)) by {
                    assert forall|j: int| t + 1 < j < steps implies #[trigger] view.open_at(
                        source,
                        dc,
                        dr,
                        j,
                    ) by {}
                }
                assert(view.runs(source, color, dc, dr, t + 1, limit, m));
                lemma_ray_moves_run(view, source, color, dc, dr, taken + 1, limit, m);
                let rest = view.ray_moves(source, color, next, dc, dr, taken + 1, limit);
                let j = choose|j: int| 0 <= j < rest.len() && rest[j] == m;
                assert(moves[j + 1] == m);
            }
        }
        if moves.contains(m) {
            let j = choose|j: int| 0 <= j < moves.len() && moves[j] == m;
            if j == 0 {
                assert(view.gets_to(source, color, dc, dr, t, t + 1, limit));
            } else {
                let rest = view.ray_moves(source, color, next, dc, dr, taken + 1, limit);
                assert(rest[j - 1] == m);
                lemma_ray_moves_run(view, source, color, dc, dr, taken + 1, limit, m);
                let steps = choose|steps: int| #[trigger]
                    view.gets_to(source, color, dc, dr, t + 1, steps, limit) && m
                        == Move::spec_simple(source, along(source, dc, dr, steps));
                assert(view.gets_to(source, color, dc, dr, t, steps, limit)) by {
                    assert forall|j: int| t < j < steps implies #[trigger] view.open_at(
                        source,
                        dc,
                        dr,
                        j,
                    ) by {
                        if j == t + 1 {
                            assert(view.piece_at(next) is None);
                        }
                    }
                }
            }
        }
    }
}

/// The moves along several directions are the plain moves to the squares
/// that the piece reaches along one of them.
pub proof fn lemma_directed_moves_slide(
    view: GameView,
    source: Position,
    color: Color,
    dirs: Seq<(i8, i8)>,
    limit: Option<u8>,
    m: Move,
)
    requires
        source.in_bounds(),
        forall|i: int| 0 <= i < dirs.len() ==> (#[trigger] dirs[i]).0 != 0 || dirs[i].1 != 0,
    ensures
        view.directed_moves(source, color, dirs, limit).contains(m) <==> view.slides(
            source,
            color,
            dirs,
            limit,
            m,
        ),
    decreases dirs.len(),
{
    if dirs.len() > 0 {
        let front = dirs.drop_last();
        let dc = dirs.last().0 as int;
        let dr = dirs.last().1 as int;
        let before = view.directed_moves(source, color, front, limit);
        let ray = view.ray_moves(source, color, source, dc, dr, 0, limit);
        let moves = view.directed_moves(source, color, dirs, limit);
        lemma_directed_moves_slide(view, source, color, front, limit, m);
        assert(along(source, dc, dr, 0) == source);
        lemma_ray_moves_run(view, source, color, dc, dr, 0, limit, m);
        if moves.contains(m) {
            let j = choose|j: int| 0 <= j < moves.len() && moves[j] == m;
            if j < before.len() {
                assert(before[j] == m);
                let i = choose|i: int|
                    0 <= i < front.len() && #[trigger] view.runs(
                        source,
                        color,
                        front[i].0 as int,
                        front[i].1 as int,
                        0,
                        limit,
                        m,
                    );
                assert(view.runs(source, color, dirs[i].0 as int, dirs[i].1 as int, 0, limit, m));
            } else {
                assert(ray[j - before.len()] == m);
                assert(view.runs(
                    source,
                    color,
                    dirs[dirs.len() - 1].0 as int,
                    dirs[dirs.len() - 1].1 as int,
                    0,
                    limit,
                    m,
                ));
            }
        }
        if view.slides(source, color, dirs, limit, m) {
            let i = choose|i: int|
                0 <= i < dirs.len() && #[trigger] view.runs(
                    source,
                    color,
                    dirs[i].0 as int,
                    dirs[i].1 as int,
                    0,
                    limit,
                    m,
                );
            if i < front.len() {
                assert(view.runs(source, color, front[i].0 as int, front[i].1 as int, 0, limit, m));
                let j = choose|j: int| 0 <= j < before.len() && before[j] == m;
                assert(moves[j] == m);
            } else {
                let j = choose|j: int| 0 <= j < ray.len() && ray[j] == m;
                assert(moves[before.len() + j] == m);
            }
        }
    } else {
        assert(!view.directed_moves(source, color, dirs, limit).contains(m));
    }
}

/// The moves generated for a pawn are exactly the moves of a pawn.
pub proof fn lemma_pawn_moves_are_pawn_moves(
    view: GameView,
    source: Position,
    color: Color,
    m: Move,
)
    requires
        source.in_bounds(),
    ensures
        view.pawn_moves(source, color).contains(m) <==> view.is_pawn_move(source, color, m),
{
    let advances = view.pawn_advances(source, color);
    let left = view.pawn_capture(source, color, -1);
    let right = view.pawn_capture(source, color, 1);
    let pass_left = view.pawn_passing(source, color, -1);
    let pass_right = view.pawn_passing(source, color, 1);
    let moves = view.pawn_moves(source, color);
    let a = advances.len() as int;
    let b = a + left.len();
    let c = b + right.len();
    let d = c + pass_left.len();
    if moves.contains(m) {
        let j = choose|j: int| 0 <= j < moves.len() && moves[j] == m;
        if j < a {
            assert(advances[j] == m);
        } else if j < b {
            assert(left[j - a] == m);
        } else if j < c {
            assert(right[j - b] == m);
        } else if j < d {
            assert(pass_left[j - c] == m);
        } else {
            assert(pass_right[j - d] == m);
        }
    }
    if view.is_pawn_move(source, color, m) {
        if advances.len() > 0 && advances[0] == m {
            assert(moves[0] == m);
        } else if advances.len() > 1 && advances[1] == m {
            assert(moves[1] == m);
        } else if view.is_pawn_capture(source, color, -1, m) {
            assert(left[0] == m);
            assert(moves[a] == m);
        } else if view.is_pawn_capture(source, color, 1, m) {
            assert(right[0] == m);
            assert(moves[b] == m);
        } else if view.is_pawn_passing(source, color, -1, m) {
            assert(pass_left[0] == m);
            assert(moves[c] == m);
        } else {
            assert(view.is_pawn_passing(source, color, 1, m));
            assert(pass_right[0] == m);
            assert(moves[d] == m);
        }
    }
}

/// The moves generated for a square are exactly the pseudo-legal moves
/// with that source.
pub proof fn lemma_piece_moves_are_pseudo_legal(view: GameView, source: Position, m: Move)
    requires
        source.in_bounds(),
        view.piece_at(source) is Some,
    ensures
        view.piece_moves(source).contains(m) <==> m.source == source && view.is_pseudo_legal(
            view.piece_at(source).unwrap().color,
            m,
        ),
{
    let piece = view.piece_at(source).unwrap();
    let color = piece.color;
    let moves = view.piece_moves(source);
    let dirs = match piece.piece_type {
        PieceType::Knight => knight_dirs(),
        PieceType::Bishop => bishop_dirs(),
        PieceType::Rook => rook_dirs(),
        _ => royal_dirs(),
    };
    let limit = match piece.piece_type {
        PieceType::Knight => Some(1u8),
        PieceType::King => Some(1u8),
        _ => None,
    };
    if piece.piece_type == PieceType::Pawn {
        lemma_pawn_moves_are_pawn_moves(view, source, color, m);
    } else {
        lemma_directed_moves_slide(view, source, color, dirs, limit, m);
        if view.slides(source, color, dirs, limit, m) {
            let i = choose|i: int|
                0 <= i < dirs.len() && #[trigger] view.runs(
                    source,
                    color,
                    dirs[i].0 as int,
                    dirs[i].1 as int,
                    0,
                    limit,
                    m,
                );
            let steps = choose|steps: int| #[trigger]
                view.gets_to(source, color, dirs[i].0 as int, dirs[i].1 as int, 0, steps, limit)
                    && m == Move::spec_simple(
                    source,
                    along(source, dirs[i].0 as int, dirs[i].1 as int, steps),
                );
            assert(m.source == source);
        }
        if piece.piece_type == PieceType::King {
            let steps = view.directed_moves(source, color, royal_dirs(), Some(1u8));
            let castlings = view.castling_moves(source, piece);
            if moves.contains(m) {
                let j = choose|j: int| 0 <= j < moves.len() && moves[j] == m;
                if j < steps.len() {
                    assert(steps[j] == m);
                } else {
                    assert(castlings[j - steps.len()] == m);
                }
            }
            if m.source == source && view.is_pseudo_legal(color, m) {
                if steps.contains(m) {
                    let j = choose|j: int| 0 <= j < steps.len() && steps[j] == m;
                    assert(moves[j] == m);
                } else {
                    assert(view.is_castling(piece, m));
                    if view.may_castle_long(piece) && m == GameView::long_castle(source) {
                        assert(castlings[0] == m);
                        assert(moves[steps.len() as int] == m);
                    } else {
                        assert(castlings[castlings.len() - 1] == m);
                        assert(moves[steps.len() + castlings.len() - 1] == m);
                    }
                }
            }
        }
    }
}

/// The moves that are generated for a color are exactly its pseudo-legal
/// moves.
pub proof fn lemma_generated_moves_are_pseudo_legal(view: GameView, color: Color, m: Move)
    requires
        view.board.len() == 64,
    ensures
        view.pseudo_moves(color).contains(m) <==> view.is_pseudo_legal(color, m),
{
    lemma_moves_upto_contains(view, color, 64, m);
    if view.pseudo_moves(color).contains(m) {
        let k = choose|k: int|
            0 <= k < 64 && view.owned(k, color) && #[trigger] view.piece_moves(
                square_at(k),
            ).contains(m);
        lemma_square_round_trip(k);
        lemma_piece_moves_are_pseudo_legal(view, square_at(k), m);
    }
    if view.is_pseudo_legal(color, m) {
        let k = square_index(m.source);
        assert(square_at(k) == m.source);
        lemma_piece_moves_are_pseudo_legal(view, m.source, m);
        assert(view.owned(k, color) && view.piece_moves(square_at(k)).contains(m));
    }
}

} // verus!
