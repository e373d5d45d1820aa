//! What the rules guarantee, stated over the model of the game and proved
//! from the definitions.

use vstd::prelude::*;
use crate::game_state::{
    lemma_find_upto, opening_square, signature, square_at, square_index, Color, EndState, GameView,
    Piece,
};
use crate::generation::{bishop_dirs, knight_dirs, rook_dirs, royal_dirs};
use crate::legality::{lemma_board_after, lemma_move_keeps_well_formed, lemma_opening_well_formed};
use crate::reach::{along, lemma_generated_moves_are_pseudo_legal};
use crate::piece_move::Move;
use crate::piece_type::PieceType;
use crate::position::Position;
use crate::repetition::occurrences;
use crate::shape::lemma_pseudo_move_shape;

verus! {

impl GameView {
    /// The state after the moves of a line have been made one after
    /// another.
    pub open spec fn play(self, line: Seq<Move>) -> GameView
        decreases line.len(),
    {
        if line.len() == 0 {
            self
        } else {
            self.play(line.drop_last()).apply(line.last())
        }
    }

    /// Whether each move of a line is a pseudo-legal move of the side to
    /// move in the state in which it is made.
    pub open spec fn follows_rules(self, line: Seq<Move>) -> bool
        decreases line.len(),
    {
        line.len() == 0 || {
            let before = self.play(line.drop_last());
            self.follows_rules(line.drop_last()) && before.pseudo_moves(
                before.current_player,
            ).contains(line.last())
        }
    }

    /// How often the board has had the given signature after a move of the
    /// line.
    pub open spec fn visits(self, line: Seq<Move>, key: Seq<char>) -> nat
        decreases line.len(),
    {
        if line.len() == 0 {
            0
        } else {
            self.visits(line.drop_last(), key) + if signature(self.play(line).board) == key {
                1nat
            } else {
                0nat
            }
        }
    }

    /// Whether the color still has the right to castle with the piece in
    /// the corner of the given column: its king stands on its home square
    /// with its castling flag, and the piece in the corner has its castling
    /// flag. Neither has moved yet.
    pub open spec fn keeps_right(self, color: Color, corner: int) -> bool {
        let row = color.home_row();
        &&& self.piece_at(Position { column: 4, row: row as i8 }) matches Some(king)
        &&& king.piece_type == PieceType::King
        &&& king.color == color
        &&& king.can_castle
        &&& self.flagged(corner, row)
    }
}

impl GameView {
    /// Whether each move of a line is a legal move in the state in which
    /// it is made.
    pub open spec fn plays_legally(self, line: Seq<Move>) -> bool
        decreases line.len(),
    {
        line.len() == 0 || (self.plays_legally(line.drop_last()) && self.play(
            line.drop_last(),
        ).legal_moves().contains(line.last()))
    }

    /// What legal play keeps: the state is consistent, each side has a
    /// king, and the side that has just moved is not in check, so that the
    /// side to move cannot capture a king.
    pub open spec fn kings_stand(self) -> bool {
        &&& self.well_formed()
        &&& self.has_king(Color::White)
        &&& self.has_king(Color::Black)
        &&& !self.in_check(self.current_player.spec_opposite())
    }
}

/// Every legal move is a pseudo-legal move of the side to move that leaves
/// its king out of check.
pub proof fn lemma_legal_moves(view: GameView, m: Move)
    ensures
        view.legal_moves().contains(m) <==> view.pseudo_moves(view.current_player).contains(m)
            && view.leaves_king_safe(m),
{
    let candidates = view.pseudo_moves(view.current_player);
    let safe = |m: Move| view.leaves_king_safe(m);
    if view.legal_moves().contains(m) {
        candidates.lemma_filter_contains_rev(safe, m);
        let i = choose|i: int| 0 <= i < view.legal_moves().len() && view.legal_moves()[i] == m;
        candidates.lemma_filter_pred(safe, i);
    }
    if candidates.contains(m) && view.leaves_king_safe(m) {
        let i = choose|i: int| 0 <= i < candidates.len() && candidates[i] == m;
        candidates.lemma_filter_contains(safe, i);
    }
}

/// In a consistent state in which no position has occurred three times,
/// every legal move can be applied, and it leaves a consistent state.
pub proof fn lemma_legal_move_applies(view: GameView, m: Move)
    requires
        view.well_formed(),
        !view.threefold(),
        view.legal_moves().contains(m),
    ensures
        view.applicable(m),
        view.apply(m).well_formed(),
{
    lemma_legal_moves(view, m);
    lemma_move_keeps_well_formed(view, m);
    crate::legality::lemma_count_can_grow(view, m);
}

/// After a legal move no pseudo-legal move of the other side ends on the
/// square of the mover's king: the king cannot be captured on the next
/// ply. In a consistent state the mover, if it had a king, still has it.
pub proof fn lemma_legal_move_keeps_king_safe(view: GameView, m: Move, reply: Move)
    requires
        view.legal_moves().contains(m),
        view.apply(m).pseudo_moves(view.current_player.spec_opposite()).contains(reply),
    ensures
        view.apply(m).find(PieceType::King, view.current_player) != Some(reply.destination),
        view.well_formed() && view.has_king(view.current_player) ==> view.apply(m).find(
            PieceType::King,
            view.current_player,
        ) is Some,
{
    lemma_legal_moves(view, m);
    let after = view.apply(m);
    let replies = after.pseudo_moves(view.current_player.spec_opposite());
    let i = choose|i: int| 0 <= i < replies.len() && replies[i] == reply;
    assert(replies[i].destination == reply.destination);
    if view.well_formed() && view.has_king(view.current_player) {
        lemma_move_keeps_well_formed(view, m);
        crate::game_state::lemma_has_king(after, view.current_player);
    }
}

/// In a consistent state every pseudo-legal move, of either side, ends on
/// a square of the board that holds no piece of the mover's color, and a
/// capture in passing takes a pawn of the other color.
pub proof fn lemma_move_lands_well(view: GameView, color: Color, m: Move)
    requires
        view.well_formed(),
        view.pseudo_moves(color).contains(m),
    ensures
        m.source.in_bounds(),
        m.destination.in_bounds(),
        view.piece_at(m.source) matches Some(piece) && piece.color == color,
        view.piece_at(m.destination) matches Some(other) ==> other.color != color,
        m.en_passant_target matches Some(target) ==> {
            &&& view.piece_at(target) matches Some(pawn)
            &&& pawn.piece_type == PieceType::Pawn
            &&& pawn.color != color
            &&& view.piece_at(m.destination) is None
        },
{
    lemma_pseudo_move_shape(view, color, m);
    assert(view.flag_in_place(square_index(m.source)));
}

/// Whatever the en passant target was, after a move it is the destination
/// of that move if the move is a two-square pawn advance, and there is
/// none otherwise: a target never outlasts the next ply.
pub proof fn lemma_apply_sets_target(view: GameView, m: Move)
    ensures
        view.apply(m).en_passant_target == if m.enables_en_passant {
            Some(m.destination)
        } else {
            None::<Position>
        },
{
}

/// No move gives a castling flag: where only kings and rooks have flags,
/// a piece that has its flag after a move that fits the board stood on the
/// same square with its flag before, and the move has not started there.
/// What the move has brought to its destination has no flag.
pub proof fn lemma_flags_never_return(view: GameView, m: Move, index: int)
    requires
        view.board.len() == 64,
        view.fits(m),
        forall|i: int|
            0 <= i < 64 ==> ((#[trigger] view.board[i]) matches Some(piece) ==> (piece.can_castle
                ==> piece.piece_type == PieceType::King || piece.piece_type
                == PieceType::Rook)),
        0 <= index < 64,
    ensures
        view.board_after(m)[index] matches Some(piece) ==> (piece.can_castle ==> view.board[index]
            == Some(piece) && index != square_index(m.source) && index != square_index(
            m.destination,
        )),
{
    let source = view.board[square_index(m.source)];
    assert(source is Some);
    assert(!view.landing_piece(m).can_castle);
}

/// In a consistent state a pawn's pseudo-legal move onto its last rank
/// promotes it to a queen; and a move promotes only a pawn, only there, and
/// only to a queen.
pub proof fn lemma_pawn_promotes_to_queen(view: GameView, color: Color, m: Move)
    requires
        view.well_formed(),
        view.pseudo_moves(color).contains(m),
    ensures
        view.piece_at(m.source) is Some,
        view.piece_at(m.source).unwrap().piece_type == PieceType::Pawn && m.destination.row
            == color.promotion_row() ==> m.promotion_piece_type == Some(PieceType::Queen),
        m.promotion_piece_type is Some ==> m.promotion_piece_type == Some(PieceType::Queen)
            && view.piece_at(m.source).unwrap().piece_type == PieceType::Pawn
            && m.destination.row == color.promotion_row(),
{
    lemma_pseudo_move_shape(view, color, m);
}

/// A capture in passing is generated only for the en passant target of the
/// state, and that target is set by a two-square pawn advance alone: after
/// any other move no capture in passing is generated, and after such an
/// advance only the pawn that has made it can be captured in passing.
pub proof fn lemma_en_passant_follows_double_step(
    view: GameView,
    m: Move,
    color: Color,
    capture: Move,
)
    requires
        view.board.len() == 64,
        view.fits(m),
        view.apply(m).pseudo_moves(color).contains(capture),
        capture.en_passant_target is Some,
    ensures
        m.enables_en_passant,
        capture.en_passant_target == Some(m.destination),
{
    lemma_pseudo_move_shape(view.apply(m), color, capture);
}

/// The pawn that has advanced two squares can be captured in passing on
/// the next ply only: whatever the reply, no capture in passing of that
/// pawn is generated after it.
pub proof fn lemma_en_passant_lasts_one_ply(
    view: GameView,
    advance: Move,
    reply: Move,
    color: Color,
    capture: Move,
)
    requires
        view.well_formed(),
        view.pseudo_moves(view.current_player).contains(advance),
        advance.enables_en_passant,
        view.apply(advance).pseudo_moves(view.current_player.spec_opposite()).contains(reply),
        view.apply(advance).apply(reply).pseudo_moves(color).contains(capture),
    ensures
        capture.en_passant_target != Some(advance.destination),
{
    let first = view.apply(advance);
    lemma_move_keeps_well_formed(view, advance);
    lemma_move_keeps_well_formed(first, reply);
    lemma_pseudo_move_shape(first, first.current_player, reply);
    lemma_pseudo_move_shape(first.apply(reply), color, capture);
}

/// A castling move is generated only for a king and a corner piece that
/// have their castling flags: in a consistent state, only from the king's
/// home square and only while the color keeps its right to castle with
/// that corner.
pub proof fn lemma_castling_needs_right(view: GameView, color: Color, m: Move)
    requires
        view.well_formed(),
        view.pseudo_moves(color).contains(m),
        m.extra_castling_move is Some,
    ensures
        m.source == (Position { column: 4, row: color.home_row() as i8 }),
        m.extra_castling_move.unwrap().source.row == color.home_row(),
        m.extra_castling_move.unwrap().source.column == 0
            || m.extra_castling_move.unwrap().source.column == 7,
        view.keeps_right(color, m.extra_castling_move.unwrap().source.column as int),
{
    lemma_pseudo_move_shape(view, color, m);
    assert(view.flag_in_place(crate::game_state::square_index(m.source)));
}

/// A right to castle that a color has after a move it had before the
/// move, and the move has not touched the king's home square or the
/// corner.
pub proof fn lemma_right_never_returns(view: GameView, m: Move, color: Color, corner: int)
    requires
        view.well_formed(),
        view.pseudo_moves(view.current_player).contains(m),
        corner == 0 || corner == 7,
        view.apply(m).keeps_right(color, corner),
    ensures
        view.keeps_right(color, corner),
        m.source != (Position { column: 4, row: color.home_row() as i8 }),
        m.source != (Position { column: corner as i8, row: color.home_row() as i8 }),
        m.destination != (Position { column: 4, row: color.home_row() as i8 }),
        m.destination != (Position { column: corner as i8, row: color.home_row() as i8 }),
{
    lemma_pseudo_move_shape(view, view.current_player, m);
    lemma_move_keeps_well_formed(view, m);
    let row = color.home_row();
    let mover = view.piece_at(m.source).unwrap();
    assert(view.flag_in_place(crate::game_state::square_index(m.source)));
    assert(view.flag_in_place(row * 8 + 4));
    assert(view.flag_in_place(row * 8 + corner));
    if mover.piece_type == PieceType::King && view.is_castling(mover, m) {
        assert(view.flag_in_place(view.current_player.home_row() * 8));
        assert(view.flag_in_place(view.current_player.home_row() * 8 + 7));
    }
}

/// A line of pseudo-legal moves keeps a consistent state consistent.
pub proof fn lemma_play_keeps_well_formed(view: GameView, line: Seq<Move>)
    requires
        view.well_formed(),
        view.follows_rules(line),
    ensures
        view.play(line).well_formed(),
    decreases line.len(),
{
    if line.len() > 0 {
        lemma_play_keeps_well_formed(view, line.drop_last());
        lemma_move_keeps_well_formed(view.play(line.drop_last()), line.last());
    }
}

/// A line of pseudo-legal moves from a consistent state adds no piece and
/// no potential to either side.
pub proof fn lemma_play_keeps_census(view: GameView, line: Seq<Move>)
    requires
        view.well_formed(),
        view.census(),
        view.follows_rules(line),
    ensures
        view.play(line).census(),
    decreases line.len(),
{
    if line.len() > 0 {
        lemma_play_keeps_census(view, line.drop_last());
        lemma_play_keeps_well_formed(view, line.drop_last());
        crate::census::lemma_move_keeps_census(view.play(line.drop_last()), line.last());
    }
}

/// Once a move has left the king's home square or a corner of the home
/// row, the right to castle with that corner is lost for good: no later
/// state of the line has it, whatever returns to those squares.
pub proof fn lemma_right_lost_for_good(
    view: GameView,
    line: Seq<Move>,
    color: Color,
    corner: int,
    i: int,
)
    requires
        view.well_formed(),
        view.follows_rules(line),
        corner == 0 || corner == 7,
        0 <= i < line.len(),
        line[i].source == (Position { column: 4, row: color.home_row() as i8 })
            || line[i].source == (Position { column: corner as i8, row: color.home_row() as i8 }),
    ensures
        !view.play(line).keeps_right(color, corner),
    decreases line.len(),
{
    let front = line.drop_last();
    lemma_play_keeps_well_formed(view, front);
    if view.play(line).keeps_right(color, corner) {
        lemma_right_never_returns(view.play(front), line.last(), color, corner);
        if i < line.len() - 1 {
            assert(front[i] == line[i]);
            lemma_right_lost_for_good(view, front, color, corner, i);
        }
    }
}

/// Castling disappears once the king or the rook has moved: after a line
/// in which a move has left the king's home square or the corner, no
/// castling with that corner is among the color's pseudo-legal moves, and
/// so none is among its legal moves.
pub proof fn lemma_no_castling_after_moving(
    view: GameView,
    line: Seq<Move>,
    color: Color,
    corner: int,
    i: int,
    m: Move,
)
    requires
        view.well_formed(),
        view.follows_rules(line),
        corner == 0 || corner == 7,
        0 <= i < line.len(),
        line[i].source == (Position { column: 4, row: color.home_row() as i8 })
            || line[i].source == (Position { column: corner as i8, row: color.home_row() as i8 }),
        view.play(line).pseudo_moves(color).contains(m),
    ensures
        m.extra_castling_move matches Some(extra) ==> extra.source.column != corner,
{
    lemma_play_keeps_well_formed(view, line);
    lemma_right_lost_for_good(view, line, color, corner, i);
    if m.extra_castling_move is Some {
        lemma_castling_needs_right(view.play(line), color, m);
    }
}

/// What a signature tells of a square: whether it is empty, and if not the
/// color and the kind of its piece.
pub open spec fn occupant(square: Option<Piece>) -> Option<(Color, PieceType)> {
    match square {
        Some(piece) => Some((piece.color, piece.piece_type)),
        None => None,
    }
}

/// Two boards have the same signature exactly if every square holds a
/// piece of the same color and kind on both, or is empty on both. Castling
/// flags do not enter the signature.
pub proof fn lemma_signature_tells_occupants(a: Seq<Option<Piece>>, b: Seq<Option<Piece>>)
    ensures
        signature(a) == signature(b) <==> forall|i: int|
            0 <= i < 64 ==> occupant(#[trigger] a[i]) == occupant(b[i]),
{
    if signature(a) == signature(b) {
        assert forall|i: int| 0 <= i < 64 implies occupant(#[trigger] a[i]) == occupant(b[i]) by {
            assert(signature(a)[i] == signature(b)[i]);
        }
    }
    if forall|i: int| 0 <= i < 64 ==> occupant(#[trigger] a[i]) == occupant(b[i]) {
        assert forall|i: int| 0 <= i < 64 implies signature(a)[i] == signature(b)[i] by {
            assert(occupant(a[i]) == occupant(b[i]));
        }
        assert(signature(a) =~= signature(b));
    }
}

/// A move counts the position that it leads to once more and leaves the
/// other counts as they are.
pub proof fn lemma_apply_counts(view: GameView, m: Move, key: Seq<char>)
    ensures
        occurrences(view.apply(m).repetitions, key) == occurrences(view.repetitions, key) + if key
            == signature(view.apply(m).board) {
            1nat
        } else {
            0nat
        },
{
}

/// After a line the count of a signature is its count before the line
/// plus the number of times that the line has led to it.
pub proof fn lemma_play_counts(view: GameView, line: Seq<Move>, key: Seq<char>)
    ensures
        occurrences(view.play(line).repetitions, key) == occurrences(view.repetitions, key)
            + view.visits(line, key),
    decreases line.len(),
{
    if line.len() > 0 {
        lemma_play_counts(view, line.drop_last(), key);
        lemma_apply_counts(view.play(line.drop_last()), line.last(), key);
    }
}

/// A position that has occurred three times is a stalemate, whatever moves
/// the side to move has.
pub proof fn lemma_threefold_is_stalemate(view: GameView, key: Seq<char>, moves: Seq<Move>)
    requires
        occurrences(view.repetitions, key) >= 3,
    ensures
        view.threefold(),
        view.end_state(moves) == EndState::Stalemate,
{
    assert(view.repetitions.dom().contains(key) && view.repetitions[key] >= 3);
}

/// Threefold repetition: once a line has brought the count of a board
/// signature to three, the game is a stalemate, whatever moves remain.
pub proof fn lemma_third_visit_is_stalemate(
    view: GameView,
    line: Seq<Move>,
    key: Seq<char>,
    moves: Seq<Move>,
)
    requires
        occurrences(view.repetitions, key) + view.visits(line, key) >= 3,
    ensures
        view.play(line).end_state(moves) == EndState::Stalemate,
{
    lemma_play_counts(view, line, key);
    lemma_threefold_is_stalemate(view.play(line), key, moves);
}

proof fn lemma_opening_squares(position: Position)
    requires
        position.in_bounds(),
    ensures
        GameView::opening().piece_at(position) == opening_square(position),
{
    assert(square_at(square_index(position)) == position);
}

proof fn lemma_opening_move_stays_near(m: Move)
    requires
        GameView::opening().is_pseudo_legal(Color::White, m),
    ensures
        m.destination.row <= 3,
{
    let view = GameView::opening();
    let source = m.source;
    lemma_opening_squares(source);
    let piece = view.piece_at(source).unwrap();
    let dirs = match piece.piece_type {
        PieceType::Knight => knight_dirs(),
        PieceType::Bishop => bishop_dirs(),
        PieceType::Rook => rook_dirs(),
        _ => royal_dirs(),
    };
    let limit = match piece.piece_type {
        PieceType::Knight => Some(1u8),
        PieceType::King => Some(1u8),
        _ => None,
    };
    if piece.piece_type == PieceType::Pawn {
    } else if view.slides(source, Color::White, dirs, limit, m) {
        let i = choose|i: int|
            0 <= i < dirs.len() && #[trigger] view.runs(
                source,
                Color::White,
                dirs[i].0 as int,
                dirs[i].1 as int,
                0,
                limit,
                m,
            );
        let dc = dirs[i].0 as int;
        let dr = dirs[i].1 as int;
        assert(-2 <= dc <= 2 && -2 <= dr <= 2);
        assert(piece.piece_type != PieceType::Knight ==> -1 <= dr <= 1);
        let steps = choose|steps: int| #[trigger]
            view.gets_to(source, Color::White, dc, dr, 0, steps, limit) && m == Move::spec_simple(
                source,
                along(source, dc, dr, steps),
            );
        if steps > 1 {
            assert(view.open_at(source, dc, dr, 1));
            lemma_opening_squares(along(source, dc, dr, 1));
            assert(false);
        }
    } else {
        lemma_opening_squares(Position { column: 1, row: 0 });
        lemma_opening_squares(Position { column: 5, row: 0 });
    }
}

/// At the start of a game the kings stand: each side has its king, and
/// White, who moves first, cannot capture Black's.
pub proof fn lemma_opening_kings_stand()
    ensures
        GameView::opening().kings_stand(),
{
    let view = GameView::opening();
    lemma_opening_well_formed();
    lemma_opening_squares(Position { column: 4, row: 0 });
    lemma_opening_squares(Position { column: 4, row: 7 });
    assert(view.holds(4, PieceType::King, Color::White));
    assert(view.holds(60, PieceType::King, Color::Black));
    lemma_find_upto(view, PieceType::King, Color::Black, 64);
    let king = view.find(PieceType::King, Color::Black).unwrap();
    lemma_opening_squares(king);
    let attacks = view.pseudo_moves(Color::White);
    assert forall|i: int| 0 <= i < attacks.len() implies (#[trigger] attacks[i]).destination
        != king by {
        assert(attacks.contains(attacks[i]));
        lemma_generated_moves_are_pseudo_legal(view, Color::White, attacks[i]);
        lemma_opening_move_stays_near(attacks[i]);
    }
}

/// A legal move keeps both kings on the board and leaves the mover out of
/// check.
pub proof fn lemma_legal_move_keeps_kings(view: GameView, m: Move)
    requires
        view.kings_stand(),
        view.legal_moves().contains(m),
    ensures
        view.apply(m).kings_stand(),
{
    let mover = view.current_player;
    let other = mover.spec_opposite();
    lemma_legal_moves(view, m);
    lemma_move_keeps_well_formed(view, m);
    lemma_pseudo_move_shape(view, mover, m);
    lemma_board_after(view, m);
    lemma_find_upto(view, PieceType::King, other, 64);
    crate::game_state::lemma_has_king(view, other);
    let king = view.find(PieceType::King, other).unwrap();
    let k = square_index(king);
    let moves = view.pseudo_moves(mover);
    let i = choose|i: int| 0 <= i < moves.len() && moves[i] == m;
    assert(moves[i].destination != king);
    assert(view.board_after(m)[k] == view.square_after(m, k));
    assert(view.flag_in_place(k));
    assert(view.apply(m).holds(k, PieceType::King, other));
}

/// Legal play never captures a king: after any line of legal moves from a
/// state in which the kings stand, they still stand.
pub proof fn lemma_legal_play_keeps_kings(view: GameView, line: Seq<Move>)
    requires
        view.kings_stand(),
        view.plays_legally(line),
    ensures
        view.play(line).kings_stand(),
    decreases line.len(),
{
    if line.len() > 0 {
        lemma_legal_play_keeps_kings(view, line.drop_last());
        lemma_legal_move_keeps_kings(view.play(line.drop_last()), line.last());
    }
}

} // verus!
