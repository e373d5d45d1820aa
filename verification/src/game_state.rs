//! The game state: the board, the side to move, the en passant target and the
//! record of earlier positions, together with the mathematical model over
//! which the rules are stated.

use vstd::prelude::*;
use crate::piece_move::Move;
use crate::piece_type::PieceType;
use crate::position::Position;
use crate::repetition::{some_count_reaches, RepetitionTable};

verus! {

#[derive(PartialEq, Eq, Clone, Copy, Debug, Hash, Structural)]
pub enum Color {
    White,
    Black,
}

impl Color {
    pub open spec fn spec_opposite(&self) -> Color {
        match *self {
            Color::White => Color::Black,
            Color::Black => Color::White,
        }
    }

    /// The row offset of one pawn step: up the board for White, down for
    /// Black.
    pub open spec fn direction(self) -> int {
        match self {
            Color::White => 1,
            Color::Black => -1,
        }
    }

    /// The row on which the color's pawns start.
    pub open spec fn pawn_row(self) -> int {
        match self {
            Color::White => 1,
            Color::Black => 6,
        }
    }

    /// The row on which the color's pawns are promoted.
    pub open spec fn promotion_row(self) -> int {
        match self {
            Color::White => 7,
            Color::Black => 0,
        }
    }

    /// The row on which the color's king and rooks start.
    pub open spec fn home_row(self) -> int {
        match self {
            Color::White => 0,
            Color::Black => 7,
        }
    }

    /// The other color.
    #[verifier::when_used_as_spec(spec_opposite)]
    pub fn opposite(&self) -> (other: Color)
        ensures
            other == self.spec_opposite(),
    {
        match *self {
            Color::White => Color::Black,
            Color::Black => Color::White,
        }
    }
}

/// A piece on the board. `can_castle` is meaningful for kings and rooks: it
/// is set until the piece first moves.
#[derive(Copy, Clone, Debug, PartialEq, Eq, Hash, Structural)]
pub struct Piece {
    pub color: Color,
    pub piece_type: PieceType,
    pub can_castle: bool,
}

/// How a game stands for the side to move.
#[derive(PartialEq, Eq, Clone, Copy, Debug, Structural)]
pub enum EndState {
    NotEnded,
    Win(Color),
    Stalemate,
}

/// What the side to move can do.
#[derive(Clone, Debug, PartialEq, Eq)]
pub enum PlayerState {
    CanMove(Vec<Move>),
    Checkmate,
    Stalemate,
}

/// How a game has ended.
#[derive(PartialEq, Eq, Clone, Copy, Debug, Structural)]
pub enum GameResult {
    WhiteWon,
    BlackWon,
    Draw,
}

/// The number of turns, each a move of White and a move of Black, after
/// which a game is given up as drawn.
pub const MAX_TURNS: u32 = 200;

impl PlayerState {
    /// What the state of the side to move means for the game: a stalemate
    /// is a draw, a checkmate is won by the other side, and while the side
    /// can move the game goes on.
    pub open spec fn spec_result_for(&self, mover: Color) -> Option<GameResult> {
        match *self {
            PlayerState::CanMove(_) => None,
            PlayerState::Stalemate => Some(GameResult::Draw),
            PlayerState::Checkmate => Some(
                match mover {
                    Color::White => GameResult::BlackWon,
                    Color::Black => GameResult::WhiteWon,
                },
            ),
        }
    }

    /// The result of the game when the side `mover` is in this state, or
    /// `None` while the game goes on.
    #[verifier::when_used_as_spec(spec_result_for)]
    pub fn result_for(&self, mover: Color) -> (result: Option<GameResult>)
        ensures
            result == self.spec_result_for(mover),
    {
        match self {
            PlayerState::CanMove(_) => None,
            PlayerState::Stalemate => Some(GameResult::Draw),
            PlayerState::Checkmate => match mover {
                Color::White => Some(GameResult::BlackWon),
                Color::Black => Some(GameResult::WhiteWon),
            },
        }
    }
}

/// What a square holds, seen from one side.
#[derive(PartialEq, Eq, Clone, Copy, Debug, Structural)]
pub enum OccupationStatus {
    Empty,
    Friendly,
    Enemy,
}

/// The character that stands for a piece in board text and signatures.
pub open spec fn piece_char(piece: Piece) -> char {
    match (piece.piece_type, piece.color) {
        (PieceType::Pawn, Color::White) => '\u{265F}',
        (PieceType::Pawn, Color::Black) => '\u{2659}',
        (PieceType::Knight, Color::White) => '\u{265E}',
        (PieceType::Knight, Color::Black) => '\u{2658}',
        (PieceType::Bishop, Color::White) => '\u{265D}',
        (PieceType::Bishop, Color::Black) => '\u{2657}',
        (PieceType::Rook, Color::White) => '\u{265C}',
        (PieceType::Rook, Color::Black) => '\u{2656}',
        (PieceType::Queen, Color::White) => '\u{265B}',
        (PieceType::Queen, Color::Black) => '\u{2655}',
        (PieceType::King, Color::White) => '\u{265A}',
        (PieceType::King, Color::Black) => '\u{2654}',
    }
}

/// The character that stands for a square: that of its piece, or `-`.
pub open spec fn square_char(square: Option<Piece>) -> char {
    match square {
        Some(piece) => piece_char(piece),
        None => '-',
    }
}

/// The signature of a board: the characters of its 64 squares, row by row
/// from rank 1. It tells color and kind of every piece and nothing else.
pub open spec fn signature(board: Seq<Option<Piece>>) -> Seq<char> {
    Seq::new(64, |i: int| square_char(board[i]))
}

/// The piece that a letter of a board diagram denotes: upper case for White,
/// lower case for Black, `-` for an empty square. Only kings and rooks keep
/// the castling flag.
pub open spec fn piece_of_letter(letter: char, can_castle: bool) -> Option<Piece> {
    if letter == 'P' {
        Some(Piece { color: Color::White, piece_type: PieceType::Pawn, can_castle: false })
    } else if letter == 'N' {
        Some(Piece { color: Color::White, piece_type: PieceType::Knight, can_castle: false })
    } else if letter == 'B' {
        Some(Piece { color: Color::White, piece_type: PieceType::Bishop, can_castle: false })
    } else if letter == 'R' {
        Some(Piece { color: Color::White, piece_type: PieceType::Rook, can_castle })
    } else if letter == 'Q' {
        Some(Piece { color: Color::White, piece_type: PieceType::Queen, can_castle: false })
    } else if letter == 'K' {
        Some(Piece { color: Color::White, piece_type: PieceType::King, can_castle })
    } else if letter == 'p' {
        Some(Piece { color: Color::Black, piece_type: PieceType::Pawn, can_castle: false })
    } else if letter == 'n' {
        Some(Piece { color: Color::Black, piece_type: PieceType::Knight, can_castle: false })
    } else if letter == 'b' {
        Some(Piece { color: Color::Black, piece_type: PieceType::Bishop, can_castle: false })
    } else if letter == 'r' {
        Some(Piece { color: Color::Black, piece_type: PieceType::Rook, can_castle })
    } else if letter == 'q' {
        Some(Piece { color: Color::Black, piece_type: PieceType::Queen, can_castle: false })
    } else if letter == 'k' {
        Some(Piece { color: Color::Black, piece_type: PieceType::King, can_castle })
    } else {
        None
    }
}

/// Whether a character is a letter of a board diagram.
pub open spec fn is_diagram_letter(letter: char) -> bool {
    letter == '-' || piece_of_letter(letter, false).is_some()
}

/// The index of a square in the board sequence: row by row from rank 1.
pub open spec fn square_index(position: Position) -> int {
    position.row * 8 + position.column
}

/// The square at an index of the board sequence.
pub open spec fn square_at(index: int) -> Position {
    Position { column: (index % 8) as i8, row: (index / 8) as i8 }
}

/// The kind of piece that starts in a column of the back rank.
pub open spec fn back_rank_type(column: int) -> PieceType {
    if column == 0 || column == 7 {
        PieceType::Rook
    } else if column == 1 || column == 6 {
        PieceType::Knight
    } else if column == 2 || column == 5 {
        PieceType::Bishop
    } else if column == 3 {
        PieceType::Queen
    } else {
        PieceType::King
    }
}

/// What stands on a square at the start of a game.
pub open spec fn opening_square(position: Position) -> Option<Piece> {
    let back = back_rank_type(position.column as int);
    let flag = back == PieceType::Rook || back == PieceType::King;
    if position.row == 0 {
        Some(Piece { color: Color::White, piece_type: back, can_castle: flag })
    } else if position.row == 1 {
        Some(Piece { color: Color::White, piece_type: PieceType::Pawn, can_castle: false })
    } else if position.row == 6 {
        Some(Piece { color: Color::Black, piece_type: PieceType::Pawn, can_castle: false })
    } else if position.row == 7 {
        Some(Piece { color: Color::Black, piece_type: back, can_castle: flag })
    } else {
        None
    }
}

/// The board at the start of a game.
pub open spec fn opening_board() -> Seq<Option<Piece>> {
    Seq::new(64, |i: int| opening_square(square_at(i)))
}

/// The mathematical model of a game state.
///
/// `board` holds the 64 squares row by row from rank 1; `en_passant_target`
/// is the square of the pawn that has just advanced two squares;
/// `repetitions` tells how often each board signature has occurred.
pub ghost struct GameView {
    pub board: Seq<Option<Piece>>,
    pub current_player: Color,
    pub en_passant_target: Option<Position>,
    pub repetitions: Map<Seq<char>, nat>,
}

impl GameView {
    /// What stands on a square; nothing stands outside the board.
    pub open spec fn piece_at(self, position: Position) -> Option<Piece> {
        if position.in_bounds() {
            self.board[square_index(position)]
        } else {
            None
        }
    }

    /// What a square holds, seen from the side of the given color.
    pub open spec fn occupation(self, color: Color, position: Position) -> OccupationStatus {
        match self.piece_at(position) {
            None => OccupationStatus::Empty,
            Some(piece) => if piece.color == color {
                OccupationStatus::Friendly
            } else {
                OccupationStatus::Enemy
            },
        }
    }

    /// The state at the start of a game: the opening board, White to move,
    /// and the opening board counted once.
    pub open spec fn opening() -> GameView {
        GameView {
            board: opening_board(),
            current_player: Color::White,
            en_passant_target: None,
            repetitions: Map::<Seq<char>, nat>::empty().insert(signature(opening_board()), 1),
        }
    }

    /// The pieces on the first `n` squares in column-major order (file a
    /// from rank 1 to rank 8, then file b, and so on).
    pub open spec fn pieces_upto(self, n: nat) -> Seq<Piece>
        decreases n,
    {
        if n == 0 {
            Seq::empty()
        } else {
            let k = (n - 1) as int;
            let before = self.pieces_upto((n - 1) as nat);
            match self.board[(k % 8) * 8 + k / 8] {
                Some(piece) => before.push(piece),
                None => before,
            }
        }
    }

    /// All pieces on the board, file by file.
    pub open spec fn all_pieces(self) -> Seq<Piece> {
        self.pieces_upto(64)
    }

    /// The pieces on the first `n` squares in row-major order, each with its
    /// square.
    pub open spec fn placed_upto(self, n: nat) -> Seq<(Piece, Position)>
        decreases n,
    {
        if n == 0 {
            Seq::empty()
        } else {
            let before = self.placed_upto((n - 1) as nat);
            match self.board[n - 1] {
                Some(piece) => before.push((piece, square_at(n - 1))),
                None => before,
            }
        }
    }

    /// All pieces with their squares, rank by rank.
    pub open spec fn placed_pieces(self) -> Seq<(Piece, Position)> {
        self.placed_upto(64)
    }

    /// Whether the square holds a piece of the given kind and color.
    pub open spec fn holds(self, index: int, piece_type: PieceType, color: Color) -> bool {
        match self.board[index] {
            Some(piece) => piece.piece_type == piece_type && piece.color == color,
            None => false,
        }
    }

    /// The first square, rank by rank, among the first `n` that holds a piece
    /// of the given kind and color.
    pub open spec fn find_upto(self, piece_type: PieceType, color: Color, n: nat) -> Option<
        Position,
    >
        decreases n,
    {
        if n == 0 {
            None
        } else {
            match self.find_upto(piece_type, color, (n - 1) as nat) {
                Some(position) => Some(position),
                None => if self.holds(n - 1, piece_type, color) {
                    Some(square_at(n - 1))
                } else {
                    None
                },
            }
        }
    }

    /// The first square, rank by rank, that holds a piece of the given kind
    /// and color.
    pub open spec fn find(self, piece_type: PieceType, color: Color) -> Option<Position> {
        self.find_upto(piece_type, color, 64)
    }

    /// Whether the color has a king on the board.
    pub open spec fn has_king(self, color: Color) -> bool {
        exists|i: int| 0 <= i < 64 && self.holds(i, PieceType::King, color)
    }

    /// The text of the board: rank 8 first, each square's character followed
    /// by a space, each rank closed by a line feed; then the side to move.
    pub open spec fn text(self) -> Seq<char> {
        Seq::new(136, |i: int| diagram_char(self.board, i)) + to_play_text(self.current_player)
    }

    /// How the game stands for the side to move, given its moves: drawn
    /// once a position has occurred three times, lost once its king is
    /// gone, drawn without a move, and open otherwise, in this order.
    pub open spec fn end_state(self, moves: Seq<Move>) -> EndState {
        if some_count_reaches(self.repetitions, 3) {
            EndState::Stalemate
        } else if !self.has_king(self.current_player) {
            EndState::Win(self.current_player.spec_opposite())
        } else if moves.len() == 0 {
            EndState::Stalemate
        } else {
            EndState::NotEnded
        }
    }
}

/// The character at an index of a board diagram of eight lines of 17
/// characters, rank 8 first: a square's character and a space for each file,
/// then a line feed.
pub open spec fn diagram_char(board: Seq<Option<Piece>>, i: int) -> char {
    let line = i / 17;
    let offset = i % 17;
    if offset == 16 {
        '\n'
    } else if offset % 2 == 1 {
        ' '
    } else {
        square_char(board[(7 - line) * 8 + offset / 2])
    }
}

/// The index of the `k`-th square counted file by file.
pub open spec fn file_order(k: int) -> int {
    (k % 8) * 8 + k / 8
}

/// The pieces counted file by file are those that stand on the squares
/// counted.
pub proof fn lemma_pieces_upto(view: GameView, n: nat)
    ensures
        forall|piece: Piece|
            view.pieces_upto(n).contains(piece) <==> exists|k: int|
                0 <= k < n && view.board[#[trigger] file_order(k)] == Some(piece),
    decreases n,
{
    if n > 0 {
        let before = view.pieces_upto((n - 1) as nat);
        lemma_pieces_upto(view, (n - 1) as nat);
        assert forall|piece: Piece|
            view.pieces_upto(n).contains(piece) <==> exists|k: int|
                0 <= k < n && view.board[#[trigger] file_order(k)] == Some(piece) by {
            if view.pieces_upto(n).contains(piece) {
                if before.contains(piece) {
                    let k = choose|k: int|
                        0 <= k < n - 1 && view.board[#[trigger] file_order(k)] == Some(piece);
                    assert(0 <= k < n && view.board[file_order(k)] == Some(piece));
                } else {
                    let j = choose|j: int|
                        0 <= j < view.pieces_upto(n).len() && view.pieces_upto(n)[j] == piece;
                    if j < before.len() {
                        assert(before[j] == piece);
                    }
                    assert(view.board[file_order(n - 1)] == Some(piece));
                }
            }
            if exists|k: int|
                0 <= k < n && view.board[#[trigger] file_order(k)] == Some(piece) {
                let k = choose|k: int|
                    0 <= k < n && view.board[#[trigger] file_order(k)] == Some(piece);
                if k < n - 1 {
                    assert(before.contains(piece));
                    let j = choose|j: int| 0 <= j < before.len() && before[j] == piece;
                    match view.board[file_order(n - 1)] {
                        Some(last) => {
                            assert(before.push(last)[j] == piece);
                        },
                        None => {},
                    }
                } else {
                    assert(before.push(piece)[before.len() as int] == piece);
                }
            }
        }
    } else {
        assert forall|piece: Piece| !view.pieces_upto(0).contains(piece) by {}
    }
}

/// A color has a king exactly where the list of all pieces holds a king of
/// that color.
pub proof fn lemma_king_among_pieces(view: GameView, color: Color)
    ensures
        view.has_king(color) <==> exists|j: int|
            0 <= j < view.all_pieces().len() && (#[trigger] view.all_pieces()[j]).piece_type
                == PieceType::King && view.all_pieces()[j].color == color,
{
    lemma_pieces_upto(view, 64);
    if view.has_king(color) {
        let i = choose|i: int| 0 <= i < 64 && view.holds(i, PieceType::King, color);
        let k = (i % 8) * 8 + i / 8;
        assert(file_order(k) == i);
        let piece = view.board[i].unwrap();
        assert(view.all_pieces().contains(piece));
        let j = choose|j: int| 0 <= j < view.all_pieces().len() && view.all_pieces()[j] == piece;
        assert(view.all_pieces()[j].piece_type == PieceType::King);
    }
    if exists|j: int|
        0 <= j < view.all_pieces().len() && (#[trigger] view.all_pieces()[j]).piece_type
            == PieceType::King && view.all_pieces()[j].color == color {
        let j = choose|j: int|
            0 <= j < view.all_pieces().len() && (#[trigger] view.all_pieces()[j]).piece_type
                == PieceType::King && view.all_pieces()[j].color == color;
        let piece = view.all_pieces()[j];
        assert(view.all_pieces().contains(piece));
        let k = choose|k: int|
            0 <= k < 64 && view.board[#[trigger] file_order(k)] == Some(piece);
        assert(view.holds(file_order(k), PieceType::King, color));
    }
}

/// The closing line of a board text.
pub open spec fn to_play_text(color: Color) -> Seq<char> {
    match color {
        Color::White => "White to play\n"@,
        Color::Black => "Black to play\n"@,
    }
}

/// It is exactly the squares of the board that `find_upto` reports: a found
/// square holds the piece, and nothing is found only where no square does.
pub proof fn lemma_find_upto(view: GameView, piece_type: PieceType, color: Color, n: nat)
    requires
        n <= 64,
    ensures
        match view.find_upto(piece_type, color, n) {
            Some(position) => position.in_bounds() && square_index(position) < n && view.holds(
                square_index(position),
                piece_type,
                color,
            ) && forall|i: int|
                0 <= i < square_index(position) ==> !view.holds(i, piece_type, color),
            None => forall|i: int| 0 <= i < n ==> !view.holds(i, piece_type, color),
        },
    decreases n,
{
    if n > 0 {
        lemma_find_upto(view, piece_type, color, (n - 1) as nat);
    }
}

/// Once a square is found among the first `n`, it is what is found among
/// any larger number of squares.
pub proof fn lemma_find_extends(
    view: GameView,
    piece_type: PieceType,
    color: Color,
    n: nat,
    m: nat,
)
    requires
        n <= m,
        view.find_upto(piece_type, color, n).is_some(),
    ensures
        view.find_upto(piece_type, color, m) == view.find_upto(piece_type, color, n),
    decreases m,
{
    if n < m {
        lemma_find_extends(view, piece_type, color, n, (m - 1) as nat);
    }
}

/// A color has a king exactly where searching for its king finds a square.
pub proof fn lemma_has_king(view: GameView, color: Color)
    ensures
        view.has_king(color) <==> view.find(PieceType::King, color).is_some(),
{
    lemma_find_upto(view, PieceType::King, color, 64);
}

/// The game state.
///
/// `board` holds the 64 squares row by row from rank 1, so that index 0 is
/// a1, index 7 is h1 and index 63 is h8.
pub struct GameState {
    pub current_player: Color,
    pub board: [Option<Piece>; 64],
    pub en_passant_target: Option<Position>,
    pub previous_state_counts: RepetitionTable,
}

impl View for GameState {
    type V = GameView;

    open spec fn view(&self) -> GameView {
        GameView {
            board: self.board@,
            current_player: self.current_player,
            en_passant_target: self.en_passant_target,
            repetitions: self.previous_state_counts@,
        }
    }
}

/// The piece that a letter of a board diagram denotes.
pub fn to_piece(letter: char, can_castle: bool) -> (piece: Option<Piece>)
    requires
        is_diagram_letter(letter),
    ensures
        piece == piece_of_letter(letter, can_castle),
{
    let (color, piece_type) = match letter {
        'P' => (Color::White, PieceType::Pawn),
        'N' => (Color::White, PieceType::Knight),
        'B' => (Color::White, PieceType::Bishop),
        'R' => (Color::White, PieceType::Rook),
        'Q' => (Color::White, PieceType::Queen),
        'K' => (Color::White, PieceType::King),
        'p' => (Color::Black, PieceType::Pawn),
        'n' => (Color::Black, PieceType::Knight),
        'b' => (Color::Black, PieceType::Bishop),
        'r' => (Color::Black, PieceType::Rook),
        'q' => (Color::Black, PieceType::Queen),
        'k' => (Color::Black, PieceType::King),
        _ => {
            return None;
        },
    };
    let can_castle = match piece_type {
        PieceType::King | PieceType::Rook => can_castle,
        _ => false,
    };
    Some(Piece { color, piece_type, can_castle })
}

impl Piece {
    /// The character that stands for the piece.
    pub fn to_char(&self) -> (c: char)
        ensures
            c == piece_char(*self),
    {
        match (self.piece_type, self.color) {
            (PieceType::Pawn, Color::White) => '\u{265F}',
            (PieceType::Pawn, Color::Black) => '\u{2659}',
            (PieceType::Knight, Color::White) => '\u{265E}',
            (PieceType::Knight, Color::Black) => '\u{2658}',
            (PieceType::Bishop, Color::White) => '\u{265D}',
            (PieceType::Bishop, Color::Black) => '\u{2657}',
            (PieceType::Rook, Color::White) => '\u{265C}',
            (PieceType::Rook, Color::Black) => '\u{2656}',
            (PieceType::Queen, Color::White) => '\u{265B}',
            (PieceType::Queen, Color::Black) => '\u{2655}',
            (PieceType::King, Color::White) => '\u{265A}',
            (PieceType::King, Color::Black) => '\u{2654}',
        }
    }
}

fn square_letter(square: &Option<Piece>) -> (c: char)
    ensures
        c == square_char(*square),
{
    match square {
        Some(piece) => piece.to_char(),
        None => '-',
    }
}

impl GameState {
    /// What stands on a square of the board.
    pub fn get_piece(&self, position: &Position) -> (piece: Option<Piece>)
        requires
            position.in_bounds(),
        ensures
            piece == self@.piece_at(*position),
            self@.board.len() == 64,
    {
        self.board[position.row as usize * 8 + position.column as usize]
    }

    pub(crate) fn set_piece(&mut self, piece: &Option<Piece>, position: &Position)
        requires
            position.in_bounds(),
        ensures
            final(self)@ == (GameView {
                board: old(self)@.board.update(square_index(*position), *piece),
                ..old(self)@
            }),
    {
        self.board[position.row as usize * 8 + position.column as usize] = *piece;
    }

    pub(crate) fn is_in_bounds(&self, position: &Position) -> (inside: bool)
        ensures
            inside == position.in_bounds(),
    {
        position.column >= 0 && position.row >= 0 && position.column < 8 && position.row < 8
    }

    pub(crate) fn get_occupation_status(&self, friendly_piece: &Piece, dest: &Position) -> (status:
        OccupationStatus)
        requires
            dest.in_bounds(),
        ensures
            status == self@.occupation(friendly_piece.color, *dest),
    {
        match self.get_piece(dest) {
            None => OccupationStatus::Empty,
            Some(piece) => if piece.color == friendly_piece.color {
                OccupationStatus::Friendly
            } else {
                OccupationStatus::Enemy
            },
        }
    }

    pub(crate) fn is_empty(&self, position: &Position) -> (empty: bool)
        requires
            position.in_bounds(),
        ensures
            empty == self@.piece_at(*position).is_none(),
    {
        self.get_piece(position).is_none()
    }

    /// The position moved by the given offsets, if that is a square.
    pub(crate) fn relative(&self, source: &Position, col_offset: i8, row_offset: i8) -> (result:
        Option<Position>)
        requires
            i8::MIN <= source.column + col_offset <= i8::MAX,
            i8::MIN <= source.row + row_offset <= i8::MAX,
        ensures
            result == if source.shifted(col_offset as int, row_offset as int).in_bounds() {
                Some(source.shifted(col_offset as int, row_offset as int))
            } else {
                None
            },
    {
        let result = source.relative(col_offset, row_offset);
        if self.is_in_bounds(&result) {
            Some(result)
        } else {
            None
        }
    }

    /// The signature of a board: the characters of its squares, row by row
    /// from rank 1.
    pub fn custom_hash(board: &[Option<Piece>; 64]) -> (text: String)
        ensures
            text@ == signature(board@),
    {
        let mut text = String::new();
        let mut i: usize = 0;
        while i < 64
            invariant
                i <= 64,
                text@.len() == i,
                forall|k: int| 0 <= k < i ==> text@[k] == square_char(board@[k]),
            decreases 64 - i,
        {
            text.push(square_letter(&board[i]));
            i += 1;
        }
        assert(text@ =~= signature(board@));
        text
    }

    /// The text of the board as it is shown: rank 8 at the top, then the
    /// side to move.
    pub fn format(&self) -> (text: String)
        ensures
            text@ == self@.text(),
    {
        let mut text = String::new();
        let mut line: usize = 0;
        while line < 8
            invariant
                line <= 8,
                text@.len() == line * 17,
                forall|k: int| 0 <= k < line * 17 ==> text@[k] == diagram_char(self.board@, k),
            decreases 8 - line,
        {
            let row: usize = 7 - line;
            let mut column: usize = 0;
            while column < 8
                invariant
                    line < 8,
                    row == 7 - line,
                    column <= 8,
                    text@.len() == line * 17 + column * 2,
                    forall|k: int|
                        0 <= k < line * 17 + column * 2 ==> text@[k] == diagram_char(
                            self.board@,
                            k,
                        ),
                decreases 8 - column,
            {
                text.push(square_letter(&self.board[row * 8 + column]));
                text.push(' ');
                column += 1;
            }
            text.push('\n');
            line += 1;
        }
        let ghost diagram = text@;
        match self.current_player {
            Color::White => text.append("White to play\n"),
            Color::Black => text.append("Black to play\n"),
        }
        assert(diagram =~= Seq::new(136, |i: int| diagram_char(self.board@, i)));
        text
    }

    /// All pieces on the board, file by file from a1.
    pub fn get_all_pieces(&self) -> (pieces: Vec<Piece>)
        ensures
            pieces@ == self@.all_pieces(),
    {
        let mut pieces: Vec<Piece> = Vec::new();
        let mut col: i8 = 0;
        while col < 8
            invariant
                0 <= col <= 8,
                pieces@ == self@.pieces_upto((col * 8) as nat),
            decreases 8 - col,
        {
            let mut row: i8 = 0;
            while row < 8
                invariant
                    0 <= col < 8,
                    0 <= row <= 8,
                    pieces@ == self@.pieces_upto((col * 8 + row) as nat),
                decreases 8 - row,
            {
                if let Some(piece) = self.get_piece(&Position { column: col, row }) {
                    pieces.push(piece);
                }
                row += 1;
            }
            col += 1;
        }
        pieces
    }

    /// All pieces with their squares, rank by rank from a1.
    pub fn to_vec(&self) -> (placed: Vec<(Piece, Position)>)
        ensures
            placed@ == self@.placed_pieces(),
    {
        let mut placed: Vec<(Piece, Position)> = Vec::new();
        let mut row: i8 = 0;
        while row < 8
            invariant
                0 <= row <= 8,
                placed@ == self@.placed_upto((row * 8) as nat),
            decreases 8 - row,
        {
            let mut column: i8 = 0;
            while column < 8
                invariant
                    0 <= row < 8,
                    0 <= column <= 8,
                    placed@ == self@.placed_upto((row * 8 + column) as nat),
                decreases 8 - column,
            {
                let position = Position { column, row };
                if let Some(piece) = self.get_piece(&position) {
                    placed.push((piece, position));
                }
                column += 1;
            }
            row += 1;
        }
        placed
    }

    /// The first square, rank by rank from a1, that holds a piece of the
    /// given kind and color.
    pub fn find_piece(&self, piece_type: PieceType, player: Color) -> (found: Option<Position>)
        ensures
            found == self@.find(piece_type, player),
    {
        let mut row: i8 = 0;
        while row < 8
            invariant
                0 <= row <= 8,
                self@.find_upto(piece_type, player, (row * 8) as nat).is_none(),
            decreases 8 - row,
        {
            let mut column: i8 = 0;
            while column < 8
                invariant
                    0 <= row < 8,
                    0 <= column <= 8,
                    self@.find_upto(piece_type, player, (row * 8 + column) as nat).is_none(),
                decreases 8 - column,
            {
                let position = Position { column, row };
                if let Some(piece) = self.get_piece(&position) {
                    if piece.piece_type == piece_type && piece.color == player {
                        proof {
                            lemma_find_extends(
                                self@,
                                piece_type,
                                player,
                                (row * 8 + column + 1) as nat,
                                64,
                            );
                        }
                        return Some(position);
                    }
                }
                column += 1;
            }
            row += 1;
        }
        None
    }

    /// How the game stands for the side to move, whose moves are given.
    pub fn get_end_state(&self, moves: &Vec<Move>) -> (state: EndState)
        ensures
            state == self@.end_state(moves@),
    {
        if self.previous_state_counts.any_at_least(3) {
            return EndState::Stalemate;
        }
        let pieces = self.get_all_pieces();
        let mut king_found = false;
        let mut i: usize = 0;
        while i < pieces.len()
            invariant
                i <= pieces@.len(),
                king_found <==> exists|j: int|
                    0 <= j < i && (#[trigger] pieces@[j]).piece_type == PieceType::King
                        && pieces@[j].color == self.current_player,
            decreases pieces@.len() - i,
        {
            if pieces[i].color == self.current_player && pieces[i].piece_type == PieceType::King {
                king_found = true;
            }
            i += 1;
        }
        proof {
            lemma_king_among_pieces(self@, self.current_player);
        }
        if !king_found {
            return EndState::Win(self.current_player.opposite());
        }
        if moves.len() == 0 {
            return EndState::Stalemate;
        }
        EndState::NotEnded
    }

    /// The standard initial position, White to move.
    pub fn opening_state() -> (state: GameState)
        ensures
            state@ == GameView::opening(),
    {
        let raw_board: [[char; 8]; 8] = [
            ['R', 'N', 'B', 'Q', 'K', 'B', 'N', 'R'],
            ['P', 'P', 'P', 'P', 'P', 'P', 'P', 'P'],
            ['-', '-', '-', '-', '-', '-', '-', '-'],
            ['-', '-', '-', '-', '-', '-', '-', '-'],
            ['-', '-', '-', '-', '-', '-', '-', '-'],
            ['-', '-', '-', '-', '-', '-', '-', '-'],
            ['p', 'p', 'p', 'p', 'p', 'p', 'p', 'p'],
            ['r', 'n', 'b', 'q', 'k', 'b', 'n', 'r'],
        ];
        let mut board: [Option<Piece>; 64] = [None;64];
        let mut row: usize = 0;
        while row < 8
            invariant
                row <= 8,
                forall|r: int, c: int|
                    0 <= r < 8 && 0 <= c < 8 ==> is_diagram_letter(#[trigger] raw_board@[r]@[c])
                        && piece_of_letter(raw_board@[r]@[c], true) == opening_square(
                        Position { column: c as i8, row: r as i8 },
                    ),
                forall|k: int| 0 <= k < row * 8 ==> board@[k] == opening_board()[k],
            decreases 8 - row,
        {
            let mut column: usize = 0;
            while column < 8
                invariant
                    row < 8,
                    column <= 8,
                    forall|r: int, c: int|
                        0 <= r < 8 && 0 <= c < 8 ==> is_diagram_letter(
                            #[trigger] raw_board@[r]@[c],
                        ) && piece_of_letter(raw_board@[r]@[c], true) == opening_square(
                            Position { column: c as i8, row: r as i8 },
                        ),
                    forall|k: int| 0 <= k < row * 8 + column ==> board@[k] == opening_board()[k],
                decreases 8 - column,
            {
                let letter = raw_board[row][column];
                board[row * 8 + column] = to_piece(letter, true);
                column += 1;
            }
            row += 1;
        }
        assert(board@ =~= opening_board());
        let mut previous_state_counts = RepetitionTable::new();
        previous_state_counts.record(GameState::custom_hash(&board));
        GameState {
            board,
            current_player: Color::White,
            en_passant_target: None,
            previous_state_counts,
        }
    }
}

impl Clone for GameState {
    fn clone(&self) -> (copy: GameState)
        ensures
            copy@ == self@,
    {
        GameState {
            current_player: self.current_player,
            board: self.board,
            en_passant_target: self.en_passant_target,
            previous_state_counts: self.previous_state_counts.clone(),
        }
    }
}

} // verus!
