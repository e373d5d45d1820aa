//! Scoring a position: material, mobility and control of space, combined
//! with weights. Positive scores favor White.

use vstd::prelude::*;
use crate::game_state::{Color, GameState, GameView, Piece, square_index};
use crate::generation::{lands, ray_measure};
use crate::piece_move::Move;
use crate::piece_type::PieceType;
use crate::position::Position;
use crate::shape::lemma_pseudo_move_shape;

verus! {

/// The weights with which the three heuristics enter a score.
#[derive(Clone, Copy, Debug, PartialEq, Eq, Structural)]
pub struct Weights {
    pub material: i16,
    pub mobility: i16,
    pub space: i16,
}

/// A bound on the number of pseudo-legal moves of one side.
pub const MOVES_BOUND: usize = 4224;

/// The value of a kind of piece.
pub open spec fn value_of(piece_type: PieceType) -> int {
    match piece_type {
        PieceType::Pawn => 1,
        PieceType::Knight => 3,
        PieceType::Bishop => 3,
        PieceType::Rook => 5,
        PieceType::Queen => 9,
        PieceType::King => 127,
    }
}

/// The value of a piece to the score: positive for White, negative for
/// Black.
pub open spec fn signed_value(piece: Piece) -> int {
    match piece.color {
        Color::White => value_of(piece.piece_type),
        Color::Black => -value_of(piece.piece_type),
    }
}

/// The sum of the signed values of the pieces.
pub open spec fn material_of(pieces: Seq<Piece>) -> int
    decreases pieces.len(),
{
    if pieces.len() == 0 {
        0
    } else {
        material_of(pieces.drop_last()) + signed_value(pieces.last())
    }
}

/// The difference in the number of moves.
pub open spec fn mobility_of(white_moves: Seq<Move>, black_moves: Seq<Move>) -> int {
    white_moves.len() - black_moves.len()
}

/// How many of the moves end on the square with the given index.
pub open spec fn landings(moves: Seq<Move>, index: int) -> int
    decreases moves.len(),
{
    if moves.len() == 0 {
        0
    } else {
        landings(moves.drop_last(), index) + if square_index(moves.last().destination) == index {
            1int
        } else {
            0int
        }
    }
}

/// Who controls a square: `1` if more of White's moves end on it than of
/// Black's, `-1` if fewer, `0` if as many.
pub open spec fn control(white_moves: Seq<Move>, black_moves: Seq<Move>, index: int) -> int {
    let balance = landings(white_moves, index) - landings(black_moves, index);
    if balance > 0 {
        1
    } else if balance < 0 {
        -1
    } else {
        0
    }
}

/// The sum of the control of the first `n` squares.
pub open spec fn space_upto(white_moves: Seq<Move>, black_moves: Seq<Move>, n: nat) -> int
    decreases n,
{
    if n == 0 {
        0
    } else {
        space_upto(white_moves, black_moves, (n - 1) as nat) + control(
            white_moves,
            black_moves,
            n - 1,
        )
    }
}

/// The number of squares that White controls less the number that Black
/// controls.
pub open spec fn space_of(white_moves: Seq<Move>, black_moves: Seq<Move>) -> int {
    space_upto(white_moves, black_moves, 64)
}

/// Whether every move ends on the board.
pub open spec fn all_land(moves: Seq<Move>) -> bool {
    forall|i: int| 0 <= i < moves.len() ==> (#[trigger] moves[i]).destination.in_bounds()
}

impl GameView {
    /// The material balance of the position.
    pub open spec fn material(self) -> int {
        material_of(self.all_pieces())
    }

    /// The score of the position: the weighted sum of the material
    /// balance, of the difference in pseudo-legal moves, and of the
    /// difference in squares controlled.
    pub open spec fn evaluate(self, weights: Weights) -> int {
        let white_moves = self.pseudo_moves(Color::White);
        let black_moves = self.pseudo_moves(Color::Black);
        weights.material * self.material() + weights.mobility * mobility_of(
            white_moves,
            black_moves,
        ) + weights.space * space_of(white_moves, black_moves)
    }
}

/// The value of a kind of piece.
pub fn piece_value(piece_type: &PieceType) -> (value: i8)
    ensures
        value == value_of(*piece_type),
{
    match *piece_type {
        PieceType::Pawn => 1,
        PieceType::Knight => 3,
        PieceType::Bishop => 3,
        PieceType::Rook => 5,
        PieceType::Queen => 9,
        PieceType::King => 127,
    }
}

pub proof fn lemma_pieces_upto_len(view: GameView, n: nat)
    ensures
        view.pieces_upto(n).len() <= n,
    decreases n,
{
    if n > 0 {
        lemma_pieces_upto_len(view, (n - 1) as nat);
    }
}

proof fn lemma_material_bound(pieces: Seq<Piece>)
    ensures
        -127 * pieces.len() <= material_of(pieces) <= 127 * pieces.len(),
    decreases pieces.len(),
{
    if pieces.len() > 0 {
        lemma_material_bound(pieces.drop_last());
    }
}

proof fn lemma_landings_bound(moves: Seq<Move>, index: int)
    ensures
        0 <= landings(moves, index) <= moves.len(),
    decreases moves.len(),
{
    if moves.len() > 0 {
        lemma_landings_bound(moves.drop_last(), index);
    }
}

proof fn lemma_space_bound(white_moves: Seq<Move>, black_moves: Seq<Move>, n: nat)
    ensures
        -n <= space_upto(white_moves, black_moves, n) <= n,
    decreases n,
{
    if n > 0 {
        lemma_space_bound(white_moves, black_moves, (n - 1) as nat);
    }
}

/// The material balance is within 127 for each of the 64 squares.
pub proof fn lemma_material_range(view: GameView)
    ensures
        -8128 <= view.material() <= 8128,
{
    lemma_pieces_upto_len(view, 64);
    lemma_material_bound(view.all_pieces());
}

/// The balance of space is within the 64 squares.
pub proof fn lemma_space_range(white_moves: Seq<Move>, black_moves: Seq<Move>)
    ensures
        -64 <= space_of(white_moves, black_moves) <= 64,
{
    lemma_space_bound(white_moves, black_moves, 64);
}

proof fn lemma_ray_moves_len(
    view: GameView,
    source: Position,
    color: Color,
    current: Position,
    dc: int,
    dr: int,
    taken: nat,
    limit: Option<u8>,
)
    requires
        current.in_bounds(),
    ensures
        view.ray_moves(source, color, current, dc, dr, taken, limit).len() < ray_measure(
            current,
            dc,
            dr,
        ),
    decreases ray_measure(current, dc, dr),
{
    if !((dc == 0 && dr == 0) || !lands(current, dc, dr) || (limit is Some && taken
        >= limit.unwrap())) {
        lemma_ray_moves_len(
            view,
            source,
            color,
            current.shifted(dc, dr),
            dc,
            dr,
            taken + 1,
            limit,
        );
    }
}

proof fn lemma_directed_moves_len(
    view: GameView,
    source: Position,
    color: Color,
    dirs: Seq<(i8, i8)>,
    limit: Option<u8>,
)
    requires
        source.in_bounds(),
    ensures
        view.directed_moves(source, color, dirs, limit).len() <= 8 * dirs.len(),
    decreases dirs.len(),
{
    if dirs.len() > 0 {
        lemma_directed_moves_len(view, source, color, dirs.drop_last(), limit);
        lemma_ray_moves_len(
            view,
            source,
            color,
            source,
            dirs.last().0 as int,
            dirs.last().1 as int,
            0,
            limit,
        );
    }
}

pub proof fn lemma_piece_moves_len(view: GameView, source: Position)
    requires
        source.in_bounds(),
    ensures
        view.piece_moves(source).len() <= 66,
{
    match view.piece_at(source) {
        None => {},
        Some(piece) => {
            lemma_directed_moves_len(
                view,
                source,
                piece.color,
                crate::generation::knight_dirs(),
                Some(1u8),
            );
            lemma_directed_moves_len(
                view,
                source,
                piece.color,
                crate::generation::bishop_dirs(),
                None,
            );
            lemma_directed_moves_len(
                view,
                source,
                piece.color,
                crate::generation::rook_dirs(),
                None,
            );
            lemma_directed_moves_len(
                view,
                source,
                piece.color,
                crate::generation::royal_dirs(),
                None,
            );
            lemma_directed_moves_len(
                view,
                source,
                piece.color,
                crate::generation::royal_dirs(),
                Some(1u8),
            );
        },
    }
}

proof fn lemma_moves_upto_len(view: GameView, color: Color, n: nat)
    requires
        n <= 64,
    ensures
        view.moves_upto(color, n).len() <= 66 * n,
    decreases n,
{
    if n > 0 {
        lemma_moves_upto_len(view, color, (n - 1) as nat);
        crate::reach::lemma_square_round_trip(n - 1);
        lemma_piece_moves_len(view, crate::game_state::square_at(n - 1));
    }
}

/// No side has more pseudo-legal moves than the bound.
pub proof fn lemma_pseudo_moves_len(view: GameView, color: Color)
    ensures
        view.pseudo_moves(color).len() <= MOVES_BOUND,
{
    lemma_moves_upto_len(view, color, 64);
}

/// In a consistent state every pseudo-legal move, of either side, ends on
/// the board.
pub proof fn lemma_pseudo_moves_land(view: GameView, color: Color)
    requires
        view.well_formed(),
    ensures
        all_land(view.pseudo_moves(color)),
{
    let moves = view.pseudo_moves(color);
    assert forall|i: int| 0 <= i < moves.len() implies (
    #[trigger] moves[i]).destination.in_bounds() by {
        let m = moves[i];
        assert(moves.contains(m));
        lemma_pseudo_move_shape(view, color, m);
        assert(view.flag_in_place(square_index(m.source)));
    }
}

/// A product of two bounded integers is bounded by the product of the
/// bounds, and is zero where the first factor is.
pub proof fn lemma_product_range(a: int, x: int, a_max: int, x_max: int)
    requires
        -a_max <= a <= a_max,
        -x_max <= x <= x_max,
    ensures
        -(a_max * x_max) <= a * x <= a_max * x_max,
        a == 0 ==> a * x == 0,
{
    assert(-(a_max * x_max) <= a * x <= a_max * x_max) by (nonlinear_arith)
        requires
            -a_max <= a <= a_max,
            -x_max <= x <= x_max,
    ;
    assert(a == 0 ==> a * x == 0) by (nonlinear_arith);
}

/// The score of a position is within bounds that leave room for
/// arithmetic in 32 bits.
pub proof fn lemma_evaluate_range(view: GameView, weights: Weights)
    ensures
        -0x2000_0000 <= view.evaluate(weights) <= 0x2000_0000,
{
    let white_moves = view.pseudo_moves(Color::White);
    let black_moves = view.pseudo_moves(Color::Black);
    lemma_material_range(view);
    lemma_space_range(white_moves, black_moves);
    lemma_pseudo_moves_len(view, Color::White);
    lemma_pseudo_moves_len(view, Color::Black);
    lemma_product_range(weights.material as int, view.material(), 32768, 8128);
    lemma_product_range(
        weights.mobility as int,
        mobility_of(white_moves, black_moves),
        32768,
        4224,
    );
    lemma_product_range(weights.space as int, space_of(white_moves, black_moves), 32768, 64);
}

/// The material balance: the sum of the values of White's pieces less that
/// of Black's.
pub fn piece_scorer(game_state: &GameState) -> (score: i32)
    ensures
        score == game_state@.material(),
{
    let pieces = game_state.get_all_pieces();
    let mut score: i32 = 0;
    let mut i: usize = 0;
    proof {
        lemma_pieces_upto_len(game_state@, 64);
    }
    while i < pieces.len()
        invariant
            i <= pieces@.len(),
            score == material_of(pieces@.take(i as int)),
            -127 * i <= score <= 127 * i,
            pieces@.len() <= 64,
        decreases pieces@.len() - i,
    {
        let piece = pieces[i];
        let value = piece_value(&piece.piece_type) as i32;
        proof {
            assert(pieces@.take(i + 1).drop_last() =~= pieces@.take(i as int));
        }
        if piece.color == Color::White {
            score = score + value;
        } else {
            score = score - value;
        }
        i += 1;
    }
    proof {
        assert(pieces@.take(i as int) =~= pieces@);
    }
    score
}

/// The difference in mobility: the number of White's moves less that of
/// Black's.
pub fn moves_scorer(white_moves: &Vec<Move>, black_moves: &Vec<Move>) -> (score: i32)
    requires
        white_moves@.len() <= i32::MAX,
        black_moves@.len() <= i32::MAX,
    ensures
        score == mobility_of(white_moves@, black_moves@),
{
    white_moves.len() as i32 - black_moves.len() as i32
}

fn count_landings(moves: &Vec<Move>) -> (grid: [i32; 64])
    requires
        moves@.len() <= i32::MAX,
        all_land(moves@),
    ensures
        forall|k: int| 0 <= k < 64 ==> grid@[k] == landings(moves@, k),
{
    let mut grid: [i32; 64] = [0;64];
    let mut i: usize = 0;
    assert(forall|k: int| 0 <= k < 64 ==> landings(moves@.take(0), k) == 0);
    while i < moves.len()
        invariant
            i <= moves@.len(),
            moves@.len() <= i32::MAX,
            all_land(moves@),
            forall|k: int| 0 <= k < 64 ==> grid@[k] == landings(moves@.take(i as int), k),
            forall|k: int| 0 <= k < 64 ==> 0 <= #[trigger] grid@[k] <= i,
        decreases moves@.len() - i,
    {
        let dest = moves[i].destination;
        let index = dest.row as usize * 8 + dest.column as usize;
        proof {
            assert(moves@.take(i + 1).drop_last() =~= moves@.take(i as int));
            assert(moves@.take(i + 1).last() == moves@[i as int]);
        }
        grid[index] = grid[index] + 1;
        i += 1;
    }
    proof {
        assert(moves@.take(i as int) =~= moves@);
    }
    grid
}

/// The balance of space: the number of squares on which more of White's
/// moves end than of Black's, less the number on which fewer do.
pub fn spaces_scorer(white_moves: &Vec<Move>, black_moves: &Vec<Move>) -> (score: i32)
    requires
        white_moves@.len() <= i32::MAX,
        black_moves@.len() <= i32::MAX,
        all_land(white_moves@),
        all_land(black_moves@),
    ensures
        score == space_of(white_moves@, black_moves@),
{
    let white_grid = count_landings(white_moves);
    let black_grid = count_landings(black_moves);
    let mut space_score: i32 = 0;
    let mut index: usize = 0;
    while index < 64
        invariant
            index <= 64,
            forall|k: int| 0 <= k < 64 ==> white_grid@[k] == landings(white_moves@, k),
            forall|k: int| 0 <= k < 64 ==> black_grid@[k] == landings(black_moves@, k),
            space_score == space_upto(white_moves@, black_moves@, index as nat),
            -index <= space_score <= index,
        decreases 64 - index,
    {
        if white_grid[index] > black_grid[index] {
            space_score = space_score + 1;
        } else if white_grid[index] < black_grid[index] {
            space_score = space_score - 1;
        }
        index += 1;
    }
    space_score
}

/// The score of a position: each heuristic with a weight other than zero
/// is computed and enters with its weight. The pseudo-legal moves of both
/// sides must end on the board, as they do in every consistent state.
pub fn multi_eval(game_state: &GameState, weights: &Weights) -> (score: i32)
    requires
        all_land(game_state@.pseudo_moves(Color::White)),
        all_land(game_state@.pseudo_moves(Color::Black)),
    ensures
        score == game_state@.evaluate(*weights),
{
    let white_moves = game_state.get_player_moves_without_check(Color::White);
    let black_moves = game_state.get_player_moves_without_check(Color::Black);
    proof {
        lemma_pseudo_moves_len(game_state@, Color::White);
        lemma_pseudo_moves_len(game_state@, Color::Black);
        lemma_material_range(game_state@);
        lemma_space_range(white_moves@, black_moves@);
    }
    proof {
        lemma_product_range(weights.material as int, game_state@.material(), 32768, 8128);
        lemma_product_range(
            weights.mobility as int,
            mobility_of(white_moves@, black_moves@),
            32768,
            4224,
        );
        lemma_product_range(weights.space as int, space_of(white_moves@, black_moves@), 32768, 64);
    }
    let mut score: i32 = 0;
    if weights.material != 0 {
        score = score + weights.material as i32 * piece_scorer(game_state);
    }
    if weights.mobility != 0 {
        score = score + weights.mobility as i32 * moves_scorer(&white_moves, &black_moves);
    }
    if weights.space != 0 {
        score = score + weights.space as i32 * spaces_scorer(&white_moves, &black_moves);
    }
    score
}

} // verus!
