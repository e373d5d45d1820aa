//! Counting the pieces: what play can never increase, and why the
//! evaluation of a position with both kings stays below every mate score.

use vstd::prelude::*;
use crate::computer_player::{
    max_moves_weights, max_spaces_weights, piece_score_weights, spaces_moves_weights, MAX_SCORE,
};
use crate::evaluation::{
    lemma_piece_moves_len, lemma_product_range, lemma_space_range, material_of, mobility_of,
    space_of, value_of, Weights,
};
use crate::game_state::{
    file_order, opening_board, opening_square, square_at, square_index, Color, GameState,
    GameView, Piece,
};
use crate::legality::{lemma_board_after, lemma_move_keeps_well_formed, lemma_opening_well_formed};
use crate::piece_move::Move;
use crate::piece_type::PieceType;
use crate::position::Position;
use crate::reach::lemma_square_round_trip;
use crate::shape::lemma_pseudo_move_shape;
use crate::transition::unflagged;

verus! {

/// What is counted of a piece: its value, the value that it can reach (a
/// pawn can become a queen), or the piece itself.
pub enum Measure {
    Value,
    Potential,
    Head,
}

/// What a kind of piece counts for.
pub open spec fn measure(kind: Measure, piece_type: PieceType) -> int {
    match kind {
        Measure::Value => value_of(piece_type),
        Measure::Potential => if piece_type == PieceType::Pawn {
            9
        } else {
            value_of(piece_type)
        },
        Measure::Head => 1,
    }
}

/// What a square counts for a color: the measure of its piece, if it holds
/// one of that color.
pub open spec fn share(square: Option<Piece>, color: Color, kind: Measure) -> int {
    match square {
        Some(piece) => if piece.color == color {
            measure(kind, piece.piece_type)
        } else {
            0
        },
        None => 0,
    }
}

/// The sum of the shares of the first `n` squares.
pub open spec fn tally(board: Seq<Option<Piece>>, color: Color, kind: Measure, n: nat) -> int
    decreases n,
{
    if n == 0 {
        0
    } else {
        tally(board, color, kind, (n - 1) as nat) + share(board[n - 1], color, kind)
    }
}

/// The squares of a board file by file, as the pieces are listed for the
/// material balance.
pub open spec fn by_files(board: Seq<Option<Piece>>) -> Seq<Option<Piece>> {
    Seq::new(64, |k: int| board[file_order(k)])
}

/// Whether weights are no heavier than those of any of the named players.
pub open spec fn light(weights: Weights) -> bool {
    &&& 0 <= weights.material <= 70
    &&& 0 <= weights.mobility <= 1
    &&& 0 <= weights.space <= 7
}

impl GameView {
    /// The number of pieces of a color.
    pub open spec fn headcount(self, color: Color) -> int {
        tally(self.board, color, Measure::Head, 64)
    }

    /// The value that the pieces of a color can reach.
    pub open spec fn potential(self, color: Color) -> int {
        tally(by_files(self.board), color, Measure::Potential, 64)
    }

    /// Whether neither side has more than a game starts with: 16 pieces,
    /// and the potential of a king, a queen, two rooks, two bishops, two
    /// knights and eight pawns.
    pub open spec fn census(self) -> bool {
        &&& self.headcount(Color::White) <= 16
        &&& self.headcount(Color::Black) <= 16
        &&& self.potential(Color::White) <= 230
        &&& self.potential(Color::Black) <= 230
    }
}

fn potential_of(piece_type: PieceType) -> (worth: u32)
    ensures
        worth == measure(Measure::Potential, piece_type),
{
    match piece_type {
        PieceType::Pawn => 9,
        PieceType::Knight => 3,
        PieceType::Bishop => 3,
        PieceType::Rook => 5,
        PieceType::Queen => 9,
        PieceType::King => 127,
    }
}

impl GameState {
    /// Whether neither side has more pieces or more potential than a game
    /// starts with.
    pub fn keeps_census(&self) -> (kept: bool)
        ensures
            kept == self@.census(),
    {
        let mut white_heads: u32 = 0;
        let mut black_heads: u32 = 0;
        let mut white_potential: u32 = 0;
        let mut black_potential: u32 = 0;
        let mut k: usize = 0;
        while k < 64
            invariant
                k <= 64,
                white_heads == tally(self.board@, Color::White, Measure::Head, k as nat),
                black_heads == tally(self.board@, Color::Black, Measure::Head, k as nat),
                white_potential == tally(
                    by_files(self.board@),
                    Color::White,
                    Measure::Potential,
                    k as nat,
                ),
                black_potential == tally(
                    by_files(self.board@),
                    Color::Black,
                    Measure::Potential,
                    k as nat,
                ),
                white_heads <= k,
                black_heads <= k,
                white_potential <= 127 * k,
                black_potential <= 127 * k,
            decreases 64 - k,
        {
            if let Some(piece) = self.board[k] {
                match piece.color {
                    Color::White => {
                        white_heads = white_heads + 1;
                    },
                    Color::Black => {
                        black_heads = black_heads + 1;
                    },
                }
            }
            if let Some(piece) = self.board[(k % 8) * 8 + k / 8] {
                match piece.color {
                    Color::White => {
                        white_potential = white_potential + potential_of(piece.piece_type);
                    },
                    Color::Black => {
                        black_potential = black_potential + potential_of(piece.piece_type);
                    },
                }
            }
            k += 1;
        }
        white_heads <= 16 && black_heads <= 16 && white_potential <= 230 && black_potential <= 230
    }
}

/// Changing one square changes the tally by the difference of the shares.
pub proof fn lemma_tally_update(
    board: Seq<Option<Piece>>,
    color: Color,
    kind: Measure,
    index: int,
    square: Option<Piece>,
    n: nat,
)
    requires
        0 <= index < board.len(),
        n <= board.len(),
    ensures
        tally(board.update(index, square), color, kind, n) == tally(board, color, kind, n) + if index
            < n {
            share(square, color, kind) - share(board[index], color, kind)
        } else {
            0
        },
    decreases n,
{
    if n > 0 {
        lemma_tally_update(board, color, kind, index, square, (n - 1) as nat);
    }
}

/// No share is negative, and the tally is at least each share in it.
pub proof fn lemma_tally_bounds(board: Seq<Option<Piece>>, color: Color, kind: Measure, n: nat, k: int)
    ensures
        0 <= tally(board, color, kind, n),
        0 <= k < n ==> share(board[k], color, kind) <= tally(board, color, kind, n),
    decreases n,
{
    if n > 0 {
        lemma_tally_bounds(board, color, kind, (n - 1) as nat, k);
    }
}

/// The value of the pieces is at most their potential.
pub proof fn lemma_value_within_potential(board: Seq<Option<Piece>>, color: Color, n: nat)
    ensures
        tally(board, color, Measure::Value, n) <= tally(board, color, Measure::Potential, n),
    decreases n,
{
    if n > 0 {
        lemma_value_within_potential(board, color, (n - 1) as nat);
    }
}

/// The material balance is the value of White's pieces less that of
/// Black's.
pub proof fn lemma_material_is_tally(view: GameView, n: nat)
    requires
        n <= 64,
    ensures
        material_of(view.pieces_upto(n)) == tally(
            by_files(view.board),
            Color::White,
            Measure::Value,
            n,
        ) - tally(by_files(view.board), Color::Black, Measure::Value, n),
    decreases n,
{
    if n > 0 {
        lemma_material_is_tally(view, (n - 1) as nat);
        let before = view.pieces_upto((n - 1) as nat);
        match view.board[file_order(n - 1)] {
            Some(piece) => {
                assert(before.push(piece).drop_last() =~= before);
            },
            None => {},
        }
    }
}

/// A side has at most 66 pseudo-legal moves for each of its pieces.
pub proof fn lemma_moves_by_head(view: GameView, color: Color, n: nat)
    requires
        n <= 64,
    ensures
        view.moves_upto(color, n).len() <= 66 * tally(view.board, color, Measure::Head, n),
    decreases n,
{
    if n > 0 {
        lemma_moves_by_head(view, color, (n - 1) as nat);
        lemma_square_round_trip(n - 1);
        lemma_piece_moves_len(view, square_at(n - 1));
    }
}

/// The board in one of the two orders in which pieces are counted.
pub open spec fn arranged(board: Seq<Option<Piece>>, files: bool) -> Seq<Option<Piece>> {
    if files {
        by_files(board)
    } else {
        board
    }
}

proof fn lemma_arranged_update(
    board: Seq<Option<Piece>>,
    files: bool,
    index: int,
    square: Option<Piece>,
)
    requires
        board.len() == 64,
        0 <= index < 64,
    ensures
        arranged(board.update(index, square), files) == arranged(board, files).update(
            if files {
                file_order(index)
            } else {
                index
            },
            square,
        ),
        arranged(board, files).len() == 64,
        arranged(board, files)[if files {
            file_order(index)
        } else {
            index
        }] == board[index],
{
    assert(file_order(file_order(index)) == index);
    if files {
        assert forall|k: int| 0 <= k < 64 implies by_files(board.update(index, square))[k]
            == by_files(board).update(file_order(index), square)[k] by {
            assert(file_order(file_order(k)) == k);
        }
        assert(by_files(board.update(index, square)) =~= by_files(board).update(
            file_order(index),
            square,
        ));
    }
}

/// Changing one square of the board changes the tally, in either order, by
/// the difference of the shares.
proof fn lemma_count_update(
    board: Seq<Option<Piece>>,
    files: bool,
    color: Color,
    kind: Measure,
    index: int,
    square: Option<Piece>,
)
    requires
        board.len() == 64,
        0 <= index < 64,
    ensures
        tally(arranged(board.update(index, square), files), color, kind, 64) == tally(
            arranged(board, files),
            color,
            kind,
            64,
        ) + share(square, color, kind) - share(board[index], color, kind),
{
    lemma_arranged_update(board, files, index, square);
    let place = if files {
        file_order(index)
    } else {
        index
    };
    lemma_tally_update(arranged(board, files), color, kind, place, square, 64);
}

/// In a consistent state a pseudo-legal move of the side to move leaves
/// neither side with more pieces or more potential than it had.
pub proof fn lemma_move_adds_nothing(
    view: GameView,
    m: Move,
    color: Color,
    kind: Measure,
    files: bool,
)
    requires
        view.well_formed(),
        view.pseudo_moves(view.current_player).contains(m),
        kind != Measure::Value,
    ensures
        tally(arranged(view.board_after(m), files), color, kind, 64) <= tally(
            arranged(view.board, files),
            color,
            kind,
            64,
        ),
{
    lemma_pseudo_move_shape(view, view.current_player, m);
    lemma_board_after(view, m);
    let source = square_index(m.source);
    let destination = square_index(m.destination);
    let landing = Some(view.landing_piece(m));
    let b0 = view.board;
    let b1 = b0.update(destination, landing);
    let b2 = b1.update(source, None);
    lemma_count_update(b0, files, color, kind, destination, landing);
    lemma_count_update(b1, files, color, kind, source, None);
    assert(b2 == view.board_after_step(m));
    assert(share(landing, color, kind) == share(b0[source], color, kind));
    assert(tally(arranged(b2, files), color, kind, 64) <= tally(
        arranged(b0, files),
        color,
        kind,
        64,
    ));
    let b4 = view.board_after_castling(m);
    match m.extra_castling_move {
        Some(extra) => {
            let from = square_index(extra.source);
            let to = square_index(extra.destination);
            let rook = unflagged(b2[from]);
            let b3 = b2.update(to, rook);
            lemma_count_update(b2, files, color, kind, to, rook);
            lemma_count_update(b3, files, color, kind, from, None);
            assert(b2[from] == b0[from]);
            assert(b2[to] == b0[to]);
            assert(b4 == b3.update(from, None));
        },
        None => {},
    }
    assert(tally(arranged(b4, files), color, kind, 64) <= tally(
        arranged(b0, files),
        color,
        kind,
        64,
    ));
    match m.en_passant_target {
        Some(target) => {
            lemma_count_update(b4, files, color, kind, square_index(target), None);
        },
        None => {},
    }
}

/// In a consistent state a pseudo-legal move of the side to move keeps the
/// census.
pub proof fn lemma_move_keeps_census(view: GameView, m: Move)
    requires
        view.well_formed(),
        view.census(),
        view.pseudo_moves(view.current_player).contains(m),
    ensures
        view.apply(m).census(),
{
    lemma_move_adds_nothing(view, m, Color::White, Measure::Head, false);
    lemma_move_adds_nothing(view, m, Color::Black, Measure::Head, false);
    lemma_move_adds_nothing(view, m, Color::White, Measure::Potential, true);
    lemma_move_adds_nothing(view, m, Color::Black, Measure::Potential, true);
}

/// With both kings on the board and the census kept, the evaluation by
/// light weights is below the magnitude of every mate score of a search of
/// up to 255 plies.
pub proof fn lemma_evaluation_below_mate(view: GameView, weights: Weights, max_ply: int)
    requires
        view.board.len() == 64,
        view.census(),
        view.has_king(Color::White),
        view.has_king(Color::Black),
        light(weights),
        0 <= max_ply <= u8::MAX,
    ensures
        -(MAX_SCORE - max_ply) < view.evaluate(weights) < MAX_SCORE - max_ply,
        -8714 <= view.evaluate(weights) <= 8714,
{
    let files = by_files(view.board);
    lemma_material_is_tally(view, 64);
    lemma_value_within_potential(files, Color::White, 64);
    lemma_value_within_potential(files, Color::Black, 64);
    let white_king = choose|i: int| 0 <= i < 64 && view.holds(i, PieceType::King, Color::White);
    let black_king = choose|i: int| 0 <= i < 64 && view.holds(i, PieceType::King, Color::Black);
    assert(file_order(file_order(white_king)) == white_king);
    assert(file_order(file_order(black_king)) == black_king);
    lemma_tally_bounds(files, Color::White, Measure::Value, 64, file_order(white_king));
    lemma_tally_bounds(files, Color::Black, Measure::Value, 64, file_order(black_king));
    assert(-103 <= view.material() <= 103);
    let white_moves = view.pseudo_moves(Color::White);
    let black_moves = view.pseudo_moves(Color::Black);
    lemma_moves_by_head(view, Color::White, 64);
    lemma_moves_by_head(view, Color::Black, 64);
    lemma_space_range(white_moves, black_moves);
    lemma_product_range(weights.material as int, view.material(), 70, 103);
    lemma_product_range(weights.mobility as int, mobility_of(white_moves, black_moves), 1, 1056);
    lemma_product_range(weights.space as int, space_of(white_moves, black_moves), 7, 64);
}

/// The weights of the four named players are light.
pub proof fn lemma_named_weights_are_light()
    ensures
        light(piece_score_weights()),
        light(max_moves_weights()),
        light(max_spaces_weights()),
        light(spaces_moves_weights()),
{
}

/// Every leaf of a search is scored within the mate scores: where the
/// census is kept and the side to move has its king, a pseudo-legal move
/// leads to a position that keeps the census and whose score as a leaf, by
/// light weights, is an evaluation below the magnitude of every mate score,
/// or the mate score itself once the other king is taken.
pub proof fn lemma_leaf_within_mate(view: GameView, m: Move, weights: Weights, max_ply: int)
    requires
        view.well_formed(),
        view.census(),
        view.has_king(view.current_player),
        view.pseudo_moves(view.current_player).contains(m),
        light(weights),
        0 <= max_ply <= u8::MAX,
    ensures
        view.apply(m).well_formed(),
        view.apply(m).census(),
        view.apply(m).has_king(view.current_player),
        view.apply(m).has_king(view.apply(m).current_player) ==> -(MAX_SCORE - max_ply)
            < view.apply(m).evaluate(weights) < MAX_SCORE - max_ply,
        -(MAX_SCORE - max_ply) <= view.apply(m).leaf_score(weights, max_ply) <= MAX_SCORE
            - max_ply,
{
    lemma_move_keeps_well_formed(view, m);
    lemma_move_keeps_census(view, m);
    let next = view.apply(m);
    if next.has_king(next.current_player) {
        lemma_evaluation_below_mate(next, weights, max_ply);
    }
}

proof fn lemma_opening_rank(color: Color, row: int)
    requires
        0 <= row < 8,
    ensures
        tally(opening_board(), color, Measure::Head, (8 * row + 8) as nat) == tally(
            opening_board(),
            color,
            Measure::Head,
            (8 * row) as nat,
        ) + if (color == Color::White && row <= 1) || (color == Color::Black && row >= 6) {
            8int
        } else {
            0int
        },
{
    reveal_with_fuel(tally, 9);
    let board = opening_board();
    assert forall|c: int| 0 <= c < 8 implies #[trigger] board[8 * row + c] == opening_square(
        Position { column: c as i8, row: row as i8 },
    ) by {
        assert(square_at(8 * row + c) == Position { column: c as i8, row: row as i8 });
    }
    assert(board[8 * row + 0] == opening_square(Position { column: 0, row: row as i8 }));
    assert(board[8 * row + 1] == opening_square(Position { column: 1, row: row as i8 }));
    assert(board[8 * row + 2] == opening_square(Position { column: 2, row: row as i8 }));
    assert(board[8 * row + 3] == opening_square(Position { column: 3, row: row as i8 }));
    assert(board[8 * row + 4] == opening_square(Position { column: 4, row: row as i8 }));
    assert(board[8 * row + 5] == opening_square(Position { column: 5, row: row as i8 }));
    assert(board[8 * row + 6] == opening_square(Position { column: 6, row: row as i8 }));
    assert(board[8 * row + 7] == opening_square(Position { column: 7, row: row as i8 }));
}

proof fn lemma_opening_file(color: Color, column: int)
    requires
        0 <= column < 8,
    ensures
        tally(by_files(opening_board()), color, Measure::Potential, (8 * column + 8) as nat)
            == tally(by_files(opening_board()), color, Measure::Potential, (8 * column) as nat) + 9
            + value_of(crate::game_state::back_rank_type(column)),
{
    reveal_with_fuel(tally, 9);
    let files = by_files(opening_board());
    assert forall|r: int| 0 <= r < 8 implies #[trigger] files[8 * column + r] == opening_square(
        Position { column: column as i8, row: r as i8 },
    ) by {
        assert(file_order(8 * column + r) == r * 8 + column);
        assert(square_at(r * 8 + column) == Position { column: column as i8, row: r as i8 });
    }
    assert(files[8 * column + 0] == opening_square(Position { column: column as i8, row: 0 }));
    assert(files[8 * column + 1] == opening_square(Position { column: column as i8, row: 1 }));
    assert(files[8 * column + 2] == opening_square(Position { column: column as i8, row: 2 }));
    assert(files[8 * column + 3] == opening_square(Position { column: column as i8, row: 3 }));
    assert(files[8 * column + 4] == opening_square(Position { column: column as i8, row: 4 }));
    assert(files[8 * column + 5] == opening_square(Position { column: column as i8, row: 5 }));
    assert(files[8 * column + 6] == opening_square(Position { column: column as i8, row: 6 }));
    assert(files[8 * column + 7] == opening_square(Position { column: column as i8, row: 7 }));
}

/// The opening state keeps the census, with equality: each side has 16
/// pieces and a potential of 230.
pub proof fn lemma_opening_census()
    ensures
        GameView::opening().census(),
        GameView::opening().well_formed(),
        GameView::opening().headcount(Color::White) == 16,
        GameView::opening().headcount(Color::Black) == 16,
        GameView::opening().potential(Color::White) == 230,
        GameView::opening().potential(Color::Black) == 230,
{
    lemma_opening_well_formed();
    lemma_opening_rank(Color::White, 0);
    lemma_opening_rank(Color::White, 1);
    lemma_opening_rank(Color::White, 2);
    lemma_opening_rank(Color::White, 3);
    lemma_opening_rank(Color::White, 4);
    lemma_opening_rank(Color::White, 5);
    lemma_opening_rank(Color::White, 6);
    lemma_opening_rank(Color::White, 7);
    lemma_opening_rank(Color::Black, 0);
    lemma_opening_rank(Color::Black, 1);
    lemma_opening_rank(Color::Black, 2);
    lemma_opening_rank(Color::Black, 3);
    lemma_opening_rank(Color::Black, 4);
    lemma_opening_rank(Color::Black, 5);
    lemma_opening_rank(Color::Black, 6);
    lemma_opening_rank(Color::Black, 7);
    lemma_opening_file(Color::White, 0);
    lemma_opening_file(Color::White, 1);
    lemma_opening_file(Color::White, 2);
    lemma_opening_file(Color::White, 3);
    lemma_opening_file(Color::White, 4);
    lemma_opening_file(Color::White, 5);
    lemma_opening_file(Color::White, 6);
    lemma_opening_file(Color::White, 7);
    lemma_opening_file(Color::Black, 0);
    lemma_opening_file(Color::Black, 1);
    lemma_opening_file(Color::Black, 2);
    lemma_opening_file(Color::Black, 3);
    lemma_opening_file(Color::Black, 4);
    lemma_opening_file(Color::Black, 5);
    lemma_opening_file(Color::Black, 6);
    lemma_opening_file(Color::Black, 7);
}

} // verus!
