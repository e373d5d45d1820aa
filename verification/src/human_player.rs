//! What a line of text entered by a human player amounts to.

use vstd::prelude::*;
use crate::piece_move::{parse_move, Move};
use crate::position::Position;

verus! {

/// What an entry amounts to: no move at all, a move that is not among the
/// moves on offer, or one of those moves.
#[derive(Debug, PartialEq, Eq, Clone, Copy, Structural)]
pub enum Entry {
    Invalid,
    Illegal,
    Chosen(Move),
}

/// A text without the line feeds at its end.
pub open spec fn without_line_end(text: Seq<char>) -> Seq<char>
    decreases text.len(),
{
    if text.len() > 0 && text.last() == '\n' {
        without_line_end(text.drop_last())
    } else {
        text
    }
}

/// The first of the moves that goes from `source` to `destination`.
pub open spec fn first_between(moves: Seq<Move>, source: Position, destination: Position)
    -> Option<Move>
    decreases moves.len(),
{
    if moves.len() == 0 {
        None
    } else if moves[0].source == source && moves[0].destination == destination {
        Some(moves[0])
    } else {
        first_between(moves.drop_first(), source, destination)
    }
}

/// What an entry amounts to, given the moves on offer: the text without
/// its line end is read as a move in coordinate notation, and the first
/// move on offer between the same squares is chosen.
pub open spec fn entry_of(moves: Seq<Move>, input: Seq<char>) -> Entry {
    match parse_move(without_line_end(input)) {
        None => Entry::Invalid,
        Some(entered) => match first_between(moves, entered.source, entered.destination) {
            None => Entry::Illegal,
            Some(m) => Entry::Chosen(m),
        },
    }
}

/// The first of the moves that goes from `source` to `destination`.
pub fn find_move(moves: &Vec<Move>, source: &Position, destination: &Position) -> (found: Option<
    Move,
>)
    ensures
        found == first_between(moves@, *source, *destination),
        found matches Some(m) ==> moves@.contains(m),
{
    let mut i: usize = 0;
    assert(moves@.skip(0) =~= moves@);
    while i < moves.len()
        invariant
            i <= moves@.len(),
            first_between(moves@, *source, *destination) == first_between(
                moves@.skip(i as int),
                *source,
                *destination,
            ),
        decreases moves@.len() - i,
    {
        proof {
            assert(moves@.skip(i as int)[0] == moves@[i as int]);
            assert(moves@.skip(i as int).drop_first() =~= moves@.skip(i + 1));
        }
        if moves[i].source == *source && moves[i].destination == *destination {
            return Some(moves[i]);
        }
        i += 1;
    }
    None
}

/// Reads an entry of the human player against the moves on offer.
pub fn read_entry(moves: &Vec<Move>, input: &str) -> (entry: Entry)
    ensures
        entry == entry_of(moves@, input@),
        entry matches Entry::Chosen(m) ==> moves@.contains(m),
{
    let mut end: usize = input.unicode_len();
    assert(input@.take(end as int) =~= input@);
    while end > 0 && input.get_char(end - 1) == '\n'
        invariant
            end <= input@.len(),
            without_line_end(input@) == without_line_end(input@.take(end as int)),
        decreases end,
    {
        proof {
            assert(input@.take(end as int).drop_last() =~= input@.take(end - 1));
        }
        end -= 1;
    }
    let text = input.substring_char(0, end);
    assert(text@ =~= input@.take(end as int));
    match Move::from_notation(text) {
        None => Entry::Invalid,
        Some(entered) => match find_move(moves, &entered.source, &entered.destination) {
            None => Entry::Illegal,
            Some(m) => Entry::Chosen(m),
        },
    }
}

} // verus!
