//! The value of a position by plain minimax, and the proof that the search
//! with pruning finds it.

use vstd::prelude::*;
use crate::census::{lemma_leaf_within_mate, lemma_move_keeps_census, light};
use crate::computer_player::{
    better, evaluated, insert_ranked, lemma_rank_keeps_items, lemma_rank_sorts, moves_of, rank,
    MAX_SCORE,
};
use crate::evaluation::Weights;
use crate::game_state::{Color, EndState, GameView};
use crate::legality::lemma_move_keeps_well_formed;
use crate::piece_move::Move;

verus! {

/// The better of two scores for the color; the first where neither is
/// better.
pub open spec fn pick(color: Color, a: int, b: int) -> int {
    if better(color, b, a) {
        b
    } else {
        a
    }
}

/// The best of the scores of a list for the color.
pub open spec fn top(color: Color, scored: Seq<(Move, int)>) -> int
    decreases scored.len(),
{
    if scored.len() <= 1 {
        scored[0].1
    } else {
        pick(color, scored[0].1, top(color, scored.drop_first()))
    }
}

/// What a score found within a window tells of the true value: at or above
/// the window, the value is at least the score; at or below it, at most the
/// score; inside it, the value is the score.
pub open spec fn bounds(score: int, value: int, alpha: int, beta: int) -> bool {
    &&& score >= beta ==> value >= score
    &&& score <= alpha ==> value <= score
    &&& alpha < score < beta ==> value == score
}

impl GameView {
    /// The value of a move with `ply` plies left: with one ply, the score
    /// of the position after the move as a leaf; with more, the value of
    /// that position for the other side, which has its pseudo-legal moves.
    pub open spec fn move_value(self, m: Move, weights: Weights, max_ply: int, ply: nat) -> int
        decreases ply, 0int, 0int,
    {
        let next = self.apply(m);
        if ply > 1 {
            next.minimax(
                next.pseudo_moves(next.current_player),
                weights,
                max_ply,
                (ply - 1) as nat,
            )
        } else {
            next.leaf_score(weights, max_ply)
        }
    }

    /// The best of the values of the moves for the side to move.
    pub open spec fn peak(self, moves: Seq<Move>, weights: Weights, max_ply: int, ply: nat) -> int
        decreases ply, 1int, moves.len(),
    {
        if moves.len() <= 1 {
            self.move_value(moves[0], weights, max_ply, ply)
        } else {
            pick(
                self.current_player,
                self.move_value(moves[0], weights, max_ply, ply),
                self.peak(moves.drop_first(), weights, max_ply, ply),
            )
        }
    }

    /// The value of a position by minimax with `ply` plies left: the mate
    /// score where the side to move has lost its king, 0 where the game is
    /// drawn, and otherwise the best value of its moves, where White takes
    /// the highest and Black the lowest.
    pub open spec fn minimax(self, moves: Seq<Move>, weights: Weights, max_ply: int, ply: nat)
        -> int
        decreases ply, 2int, 0int,
    {
        match self.end_state(moves) {
            EndState::Win(_) => self.mate_score(max_ply, ply as int),
            EndState::Stalemate => 0,
            EndState::NotEnded => self.peak(moves, weights, max_ply, ply),
        }
    }

    /// What the search asks of a state: it is consistent and keeps the
    /// census.
    pub open spec fn searchable(self) -> bool {
        self.well_formed() && self.census()
    }
}

/// The best value of a list of moves is the value of one of them, and none
/// of them has a better one.
pub proof fn lemma_peak(view: GameView, moves: Seq<Move>, weights: Weights, max_ply: int, ply: nat)
    requires
        moves.len() > 0,
    ensures
        exists|i: int|
            0 <= i < moves.len() && view.move_value(#[trigger] moves[i], weights, max_ply, ply)
                == view.peak(moves, weights, max_ply, ply),
        forall|i: int|
            0 <= i < moves.len() ==> !better(
                view.current_player,
                view.move_value(#[trigger] moves[i], weights, max_ply, ply),
                view.peak(moves, weights, max_ply, ply),
            ),
    decreases moves.len(),
{
    let value = view.peak(moves, weights, max_ply, ply);
    if moves.len() > 1 {
        let rest = moves.drop_first();
        lemma_peak(view, rest, weights, max_ply, ply);
        let j = choose|j: int|
            0 <= j < rest.len() && view.move_value(#[trigger] rest[j], weights, max_ply, ply)
                == view.peak(rest, weights, max_ply, ply);
        assert(rest[j] == moves[j + 1]);
        if value == view.move_value(moves[0], weights, max_ply, ply) {
            assert(view.move_value(moves[0], weights, max_ply, ply) == value);
        } else {
            assert(view.move_value(moves[j + 1], weights, max_ply, ply) == value);
        }
        assert forall|i: int| 0 <= i < moves.len() implies !better(
            view.current_player,
            view.move_value(#[trigger] moves[i], weights, max_ply, ply),
            value,
        ) by {
            if i > 0 {
                assert(rest[i - 1] == moves[i]);
            }
        }
    } else {
        assert(view.move_value(moves[0], weights, max_ply, ply) == value);
    }
}

/// Two lists of the same moves, in whatever order, have the same best
/// value.
pub proof fn lemma_peak_of_same_moves(
    view: GameView,
    a: Seq<Move>,
    b: Seq<Move>,
    weights: Weights,
    max_ply: int,
    ply: nat,
)
    requires
        a.len() > 0,
        b.len() > 0,
        forall|m: Move| a.contains(m) <==> b.contains(m),
    ensures
        view.peak(a, weights, max_ply, ply) == view.peak(b, weights, max_ply, ply),
{
    lemma_peak(view, a, weights, max_ply, ply);
    lemma_peak(view, b, weights, max_ply, ply);
    let i = choose|i: int|
        0 <= i < a.len() && view.move_value(#[trigger] a[i], weights, max_ply, ply) == view.peak(
            a,
            weights,
            max_ply,
            ply,
        );
    let j = choose|j: int|
        0 <= j < b.len() && view.move_value(#[trigger] b[j], weights, max_ply, ply) == view.peak(
            b,
            weights,
            max_ply,
            ply,
        );
    assert(a.contains(a[i]));
    assert(b.contains(b[j]));
    let i2 = choose|k: int| 0 <= k < b.len() && b[k] == a[i];
    let j2 = choose|k: int| 0 <= k < a.len() && a[k] == b[j];
    assert(!better(
        view.current_player,
        view.move_value(b[i2], weights, max_ply, ply),
        view.peak(b, weights, max_ply, ply),
    ));
    assert(!better(
        view.current_player,
        view.move_value(a[j2], weights, max_ply, ply),
        view.peak(a, weights, max_ply, ply),
    ));
}

/// The best score of a list is the score of one of its items, and none of
/// them has a better one.
pub proof fn lemma_top(color: Color, scored: Seq<(Move, int)>)
    requires
        scored.len() > 0,
    ensures
        exists|i: int| 0 <= i < scored.len() && (#[trigger] scored[i]).1 == top(color, scored),
        forall|i: int|
            0 <= i < scored.len() ==> !better(color, (#[trigger] scored[i]).1, top(color, scored)),
    decreases scored.len(),
{
    if scored.len() > 1 {
        let rest = scored.drop_first();
        lemma_top(color, rest);
        let j = choose|j: int| 0 <= j < rest.len() && (#[trigger] rest[j]).1 == top(color, rest);
        assert(rest[j] == scored[j + 1]);
        if top(color, scored) == scored[0].1 {
            assert(scored[0].1 == top(color, scored));
        } else {
            assert(scored[j + 1].1 == top(color, scored));
        }
        assert forall|i: int| 0 <= i < scored.len() implies !better(
            color,
            (#[trigger] scored[i]).1,
            top(color, scored),
        ) by {
            if i > 0 {
                assert(rest[i - 1] == scored[i]);
            }
        }
    } else {
        assert(scored[0].1 == top(color, scored));
    }
}

/// The first score of a ranked list is the best score of the list that was
/// ranked.
pub proof fn lemma_first_ranked_is_top(color: Color, scored: Seq<(Move, int)>)
    requires
        scored.len() > 0,
    ensures
        rank(scored, color)[0].1 == top(color, scored),
{
    broadcast use vstd::seq_lib::group_to_multiset_ensures;

    lemma_rank_sorts(scored, color);
    lemma_top(color, scored);
    let ranked = rank(scored, color);
    lemma_rank_keeps_items(scored, color, 0);
    let k = choose|k: int| 0 <= k < scored.len() && scored[k] == ranked[0];
    assert(!better(color, scored[k].1, top(color, scored)));
    let i = choose|i: int| 0 <= i < scored.len() && (#[trigger] scored[i]).1 == top(color, scored);
    assert(scored.to_multiset().count(scored[i]) > 0);
    assert(ranked.to_multiset().count(scored[i]) > 0);
    assert(ranked.contains(scored[i]));
    let j = choose|j: int| 0 <= j < ranked.len() && ranked[j] == scored[i];
    if j > 0 {
        assert(!better(color, ranked[j].1, ranked[0].1));
    }
}

/// Where every score of a leaf lies on the mover's side of the window, a
/// scan of one ply scores every move.
pub proof fn lemma_scan_within_window(
    view: GameView,
    moves: Seq<Move>,
    weights: Weights,
    alpha: int,
    beta: int,
    max_ply: int,
)
    requires
        alpha < beta,
        view.current_player == Color::White ==> forall|i: int|
            0 <= i < moves.len() ==> view.apply(#[trigger] moves[i]).leaf_score(weights, max_ply)
                < beta,
        view.current_player == Color::Black ==> forall|i: int|
            0 <= i < moves.len() ==> view.apply(#[trigger] moves[i]).leaf_score(weights, max_ply)
                > alpha,
    ensures
        view.scan(moves, weights, alpha, beta, max_ply, 1) == evaluated(
            view,
            moves,
            weights,
            max_ply,
        ),
    decreases moves.len(),
{
    if moves.len() > 0 {
        let m = moves[0];
        let score = view.move_score(m, weights, alpha, beta, max_ply, 1);
        assert(score == view.apply(moves[0]).leaf_score(weights, max_ply));
        let raised = if view.current_player == Color::White && score > alpha {
            score
        } else {
            alpha
        };
        let lowered = if view.current_player == Color::Black && score < beta {
            score
        } else {
            beta
        };
        let rest = moves.drop_first();
        assert forall|i: int| 0 <= i < rest.len() implies view.apply(
            #[trigger] rest[i],
        ).leaf_score(weights, max_ply) == view.apply(moves[i + 1]).leaf_score(weights, max_ply) by {
            assert(rest[i] == moves[i + 1]);
        }
        lemma_scan_within_window(view, rest, weights, raised, lowered, max_ply);
    }
    assert(view.scan(moves, weights, alpha, beta, max_ply, 1) =~= evaluated(
        view,
        moves,
        weights,
        max_ply,
    ));
}

/// The order in which the search scores the moves holds the same moves, as
/// many as were given.
pub proof fn lemma_ordering_keeps_moves(
    view: GameView,
    moves: Seq<Move>,
    weights: Weights,
    max_ply: int,
    ply: nat,
)
    requires
        view.searchable(),
        light(weights),
        1 <= max_ply <= u8::MAX,
        view.playable(moves),
        view.end_state(moves) == EndState::NotEnded,
    ensures
        view.ordering(moves, weights, max_ply, ply).len() == moves.len(),
        forall|m: Move| view.ordering(moves, weights, max_ply, ply).contains(m) <==> moves.contains(m),
{
    broadcast use vstd::seq_lib::group_to_multiset_ensures;

    if ply > 1 {
        assert forall|i: int| 0 <= i < moves.len() implies -MAX_SCORE < view.apply(
            #[trigger] moves[i],
        ).leaf_score(weights, max_ply) < MAX_SCORE by {
            lemma_leaf_within_mate(view, moves[i], weights, max_ply);
        }
        lemma_scan_within_window(view, moves, weights, -MAX_SCORE, MAX_SCORE as int, max_ply);
        let scored = evaluated(view, moves, weights, max_ply);
        let ranked = rank(scored, view.current_player);
        lemma_rank_sorts(scored, view.current_player);
        let ordered = view.ordering(moves, weights, max_ply, ply);
        assert(view.ordering(moves, weights, max_ply, 1) == moves);
        assert(view.search(moves, weights, -MAX_SCORE, MAX_SCORE as int, max_ply, 1).0 == rank(
            view.scan(
                view.ordering(moves, weights, max_ply, 1),
                weights,
                -MAX_SCORE,
                MAX_SCORE as int,
                max_ply,
                1,
            ),
            view.current_player,
        ));
        assert(ordered == moves_of(ranked));
        assert forall|m: Move| ordered.contains(m) <==> moves.contains(m) by {
            if ordered.contains(m) {
                let j = choose|j: int| 0 <= j < ordered.len() && ordered[j] == m;
                lemma_rank_keeps_items(scored, view.current_player, j);
                let k = choose|k: int| 0 <= k < scored.len() && scored[k] == ranked[j];
                assert(moves[k] == m);
            }
            if moves.contains(m) {
                let k = choose|k: int| 0 <= k < moves.len() && moves[k] == m;
                assert(scored.to_multiset().count(scored[k]) > 0);
                assert(ranked.to_multiset().count(scored[k]) > 0);
                assert(ranked.contains(scored[k]));
                let j = choose|j: int| 0 <= j < ranked.len() && ranked[j] == scored[k];
                assert(ordered[j] == m);
            }
        }
    }
}

/// A scan with pruning bounds the best value of the moves that it is given:
/// its best score is that value where it lies inside the window, and a
/// bound of it on the side on which it leaves the window.
pub proof fn lemma_scan_bounds(
    view: GameView,
    ordered: Seq<Move>,
    weights: Weights,
    alpha: int,
    beta: int,
    max_ply: int,
    ply: nat,
)
    requires
        view.searchable(),
        light(weights),
        1 <= max_ply <= u8::MAX,
        ply >= 1,
        ordered.len() > 0,
        view.playable(ordered),
        alpha < beta,
    ensures
        view.scan(ordered, weights, alpha, beta, max_ply, ply).len() > 0,
        bounds(
            top(view.current_player, view.scan(ordered, weights, alpha, beta, max_ply, ply)),
            view.peak(ordered, weights, max_ply, ply),
            alpha,
            beta,
        ),
    decreases ply, 1int, ordered.len(),
{
    let color = view.current_player;
    let m = ordered[0];
    let score = view.move_score(m, weights, alpha, beta, max_ply, ply);
    let value = view.move_value(m, weights, max_ply, ply);
    let next = view.apply(m);
    assert(view.pseudo_moves(color).contains(m));
    lemma_move_keeps_well_formed(view, m);
    lemma_move_keeps_census(view, m);
    if ply > 1 {
        lemma_search_bounds(
            next,
            next.pseudo_moves(next.current_player),
            weights,
            alpha,
            beta,
            max_ply,
            (ply - 1) as nat,
        );
    }
    assert(bounds(score, value, alpha, beta));
    let raised = if color == Color::White && score > alpha {
        score
    } else {
        alpha
    };
    let lowered = if color == Color::Black && score < beta {
        score
    } else {
        beta
    };
    let scored = view.scan(ordered, weights, alpha, beta, max_ply, ply);
    let rest = ordered.drop_first();
    lemma_peak(view, ordered, weights, max_ply, ply);
    if lowered <= raised {
        assert(scored =~= seq![(m, score)]);
        assert(!better(color, view.move_value(ordered[0], weights, max_ply, ply), view.peak(
            ordered,
            weights,
            max_ply,
            ply,
        )));
    } else if rest.len() == 0 {
        assert(view.scan(rest, weights, raised, lowered, max_ply, ply) =~= Seq::empty());
        assert(scored =~= seq![(m, score)]);
    } else {
        assert forall|i: int| 0 <= i < rest.len() implies view.pseudo_moves(color).contains(
            #[trigger] rest[i],
        ) by {
            assert(rest[i] == ordered[i + 1]);
        }
        lemma_scan_bounds(view, rest, weights, raised, lowered, max_ply, ply);
        let tail = view.scan(rest, weights, raised, lowered, max_ply, ply);
        assert(scored =~= seq![(m, score)] + tail);
        assert(scored.drop_first() =~= tail);
        assert(scored[0] == (m, score));
        assert(top(color, scored) == pick(color, score, top(color, tail)));
        assert(view.peak(ordered, weights, max_ply, ply) == pick(
            color,
            value,
            view.peak(rest, weights, max_ply, ply),
        ));
    }
}

/// The search with pruning bounds the minimax value: its best score is that
/// value where it lies inside the window, and a bound of it on the side on
/// which it leaves the window.
pub proof fn lemma_search_bounds(
    view: GameView,
    moves: Seq<Move>,
    weights: Weights,
    alpha: int,
    beta: int,
    max_ply: int,
    ply: nat,
)
    requires
        view.searchable(),
        light(weights),
        1 <= max_ply <= u8::MAX,
        ply >= 1,
        view.playable(moves),
        alpha < beta,
    ensures
        bounds(
            view.search(moves, weights, alpha, beta, max_ply, ply).1,
            view.minimax(moves, weights, max_ply, ply),
            alpha,
            beta,
        ),
    decreases ply, 2int, 0int,
{
    if view.end_state(moves) == EndState::NotEnded {
        let ordered = view.ordering(moves, weights, max_ply, ply);
        lemma_ordering_keeps_moves(view, moves, weights, max_ply, ply);
        assert forall|i: int| 0 <= i < ordered.len() implies view.pseudo_moves(
            view.current_player,
        ).contains(#[trigger] ordered[i]) by {
            assert(ordered.contains(ordered[i]));
            assert(moves.contains(ordered[i]));
            let k = choose|k: int| 0 <= k < moves.len() && moves[k] == ordered[i];
            assert(view.pseudo_moves(view.current_player).contains(moves[k]));
        }
        lemma_scan_bounds(view, ordered, weights, alpha, beta, max_ply, ply);
        let scored = view.scan(ordered, weights, alpha, beta, max_ply, ply);
        lemma_first_ranked_is_top(view.current_player, scored);
        lemma_peak_of_same_moves(view, ordered, moves, weights, max_ply, ply);
    }
}

/// The minimax value of a position is within the mate scores of the
/// deepest search.
pub proof fn lemma_minimax_range(
    view: GameView,
    moves: Seq<Move>,
    weights: Weights,
    max_ply: int,
    ply: nat,
)
    requires
        view.searchable(),
        light(weights),
        1 <= max_ply <= u8::MAX,
        1 <= ply <= u8::MAX,
        view.playable(moves),
    ensures
        -(MAX_SCORE + u8::MAX) <= view.minimax(moves, weights, max_ply, ply) <= MAX_SCORE + u8::MAX,
    decreases ply,
{
    if view.end_state(moves) == EndState::NotEnded {
        lemma_peak(view, moves, weights, max_ply, ply);
        let i = choose|i: int|
            0 <= i < moves.len() && view.move_value(#[trigger] moves[i], weights, max_ply, ply)
                == view.peak(moves, weights, max_ply, ply);
        let m = moves[i];
        let next = view.apply(m);
        assert(view.pseudo_moves(view.current_player).contains(m));
        lemma_leaf_within_mate(view, m, weights, max_ply);
        if ply > 1 {
            lemma_minimax_range(
                next,
                next.pseudo_moves(next.current_player),
                weights,
                max_ply,
                (ply - 1) as nat,
            );
        }
    }
}

/// With the full window the search finds the minimax value: from a
/// consistent state that keeps the census, with weights no heavier than
/// those of the named players, the best score of the search is the value of
/// the position by plain minimax over the pseudo-legal moves.
pub proof fn lemma_search_finds_minimax(
    view: GameView,
    moves: Seq<Move>,
    weights: Weights,
    max_ply: int,
    ply: nat,
)
    requires
        view.searchable(),
        light(weights),
        1 <= max_ply <= u8::MAX,
        1 <= ply <= u8::MAX,
        view.playable(moves),
    ensures
        view.search(moves, weights, i32::MIN as int, i32::MAX as int, max_ply, ply).1
            == view.minimax(moves, weights, max_ply, ply),
{
    lemma_search_bounds(view, moves, weights, i32::MIN as int, i32::MAX as int, max_ply, ply);
    lemma_minimax_range(view, moves, weights, max_ply, ply);
}

/// Ranking changes the order of the moves and nothing else: the ranked
/// list holds each move as often as the list that was ranked.
pub proof fn lemma_rank_keeps_moves(scored: Seq<(Move, int)>, color: Color)
    ensures
        moves_of(rank(scored, color)).to_multiset() == moves_of(scored).to_multiset(),
    decreases scored.len(),
{
    broadcast use vstd::seq_lib::group_to_multiset_ensures;

    if scored.len() > 0 {
        let front = scored.drop_last();
        lemma_rank_keeps_moves(front, color);
        lemma_insert_keeps_moves(rank(front, color), scored.last(), color);
        assert(moves_of(scored) =~= moves_of(front).push(scored.last().0));
    } else {
        assert(moves_of(rank(scored, color)) =~= moves_of(scored));
    }
}

proof fn lemma_insert_keeps_moves(ranked: Seq<(Move, int)>, item: (Move, int), color: Color)
    ensures
        moves_of(insert_ranked(ranked, item, color)).to_multiset() == moves_of(
            ranked,
        ).to_multiset().insert(item.0),
    decreases ranked.len(),
{
    broadcast use vstd::seq_lib::group_to_multiset_ensures;

    if ranked.len() == 0 || !better(color, item.1, ranked.last().1) {
        assert(moves_of(ranked.push(item)) =~= moves_of(ranked).push(item.0));
    } else {
        let front = ranked.drop_last();
        lemma_insert_keeps_moves(front, item, color);
        let inner = insert_ranked(front, item, color);
        assert(moves_of(inner.push(ranked.last())) =~= moves_of(inner).push(ranked.last().0));
        assert(moves_of(ranked) =~= moves_of(front).push(ranked.last().0));
        assert(moves_of(insert_ranked(ranked, item, color)).to_multiset() =~= moves_of(
            ranked,
        ).to_multiset().insert(item.0));
    }
}

/// The value of a move is within the mate scores of the deepest search.
pub proof fn lemma_move_value_range(
    view: GameView,
    m: Move,
    weights: Weights,
    max_ply: int,
    ply: nat,
)
    requires
        view.searchable(),
        view.has_king(view.current_player),
        light(weights),
        1 <= max_ply <= u8::MAX,
        1 <= ply <= u8::MAX,
        view.pseudo_moves(view.current_player).contains(m),
    ensures
        -(MAX_SCORE + u8::MAX) <= view.move_value(m, weights, max_ply, ply) <= MAX_SCORE + u8::MAX,
{
    let next = view.apply(m);
    lemma_leaf_within_mate(view, m, weights, max_ply);
    if ply > 1 {
        lemma_minimax_range(
            next,
            next.pseudo_moves(next.current_player),
            weights,
            max_ply,
            (ply - 1) as nat,
        );
    }
}

/// With a window beyond every value on the mover's side, the scan prunes
/// nothing: it scores every move, in the order given.
pub proof fn lemma_wide_scan_scores_every_move(
    view: GameView,
    ordered: Seq<Move>,
    weights: Weights,
    alpha: int,
    beta: int,
    max_ply: int,
    ply: nat,
)
    requires
        view.searchable(),
        view.has_king(view.current_player),
        light(weights),
        1 <= max_ply <= u8::MAX,
        1 <= ply <= u8::MAX,
        view.playable(ordered),
        alpha < beta,
        view.current_player == Color::White ==> beta > MAX_SCORE + u8::MAX,
        view.current_player == Color::Black ==> alpha < -(MAX_SCORE + u8::MAX),
    ensures
        moves_of(view.scan(ordered, weights, alpha, beta, max_ply, ply)) == ordered,
    decreases ordered.len(),
{
    let scored = view.scan(ordered, weights, alpha, beta, max_ply, ply);
    if ordered.len() > 0 {
        let color = view.current_player;
        let m = ordered[0];
        let score = view.move_score(m, weights, alpha, beta, max_ply, ply);
        let value = view.move_value(m, weights, max_ply, ply);
        let next = view.apply(m);
        assert(view.pseudo_moves(color).contains(m));
        lemma_move_keeps_well_formed(view, m);
        lemma_move_keeps_census(view, m);
        lemma_move_value_range(view, m, weights, max_ply, ply);
        if ply > 1 {
            lemma_search_bounds(
                next,
                next.pseudo_moves(next.current_player),
                weights,
                alpha,
                beta,
                max_ply,
                (ply - 1) as nat,
            );
        }
        assert(bounds(score, value, alpha, beta));
        let raised = if color == Color::White && score > alpha {
            score
        } else {
            alpha
        };
        let lowered = if color == Color::Black && score < beta {
            score
        } else {
            beta
        };
        let rest = ordered.drop_first();
        assert forall|i: int| 0 <= i < rest.len() implies view.pseudo_moves(color).contains(
            #[trigger] rest[i],
        ) by {
            assert(rest[i] == ordered[i + 1]);
        }
        lemma_wide_scan_scores_every_move(view, rest, weights, raised, lowered, max_ply, ply);
        let tail = view.scan(rest, weights, raised, lowered, max_ply, ply);
        assert(scored =~= seq![(m, score)] + tail);
        assert(moves_of(scored) =~= seq![m] + moves_of(tail));
        assert(moves_of(scored) =~= ordered);
    } else {
        assert(moves_of(scored) =~= ordered);
    }
}

/// With the full window the search lists every move exactly once: unless
/// the side to move has lost its king, the ranked list holds the moves that
/// were given, each as often as it was given, in another order.
pub proof fn lemma_full_window_lists_every_move(
    view: GameView,
    moves: Seq<Move>,
    weights: Weights,
    max_ply: int,
    ply: nat,
)
    requires
        view.searchable(),
        light(weights),
        1 <= max_ply <= u8::MAX,
        1 <= ply <= u8::MAX,
        view.playable(moves),
        view.threefold() || view.has_king(view.current_player),
    ensures
        moves_of(
            view.search(moves, weights, i32::MIN as int, i32::MAX as int, max_ply, ply).0,
        ).to_multiset() == moves.to_multiset(),
{
    let listed = view.search(moves, weights, i32::MIN as int, i32::MAX as int, max_ply, ply).0;
    if view.end_state(moves) == EndState::NotEnded {
        let color = view.current_player;
        let ordered = view.ordering(moves, weights, max_ply, ply);
        if ply > 1 {
            assert forall|i: int| 0 <= i < moves.len() implies -MAX_SCORE < view.apply(
                #[trigger] moves[i],
            ).leaf_score(weights, max_ply) < MAX_SCORE by {
                lemma_leaf_within_mate(view, moves[i], weights, max_ply);
            }
            lemma_scan_within_window(view, moves, weights, -MAX_SCORE, MAX_SCORE as int, max_ply);
            let first = evaluated(view, moves, weights, max_ply);
            assert(view.ordering(moves, weights, max_ply, 1) == moves);
            assert(view.search(moves, weights, -MAX_SCORE, MAX_SCORE as int, max_ply, 1).0 == rank(
                view.scan(
                    view.ordering(moves, weights, max_ply, 1),
                    weights,
                    -MAX_SCORE,
                    MAX_SCORE as int,
                    max_ply,
                    1,
                ),
                color,
            ));
            lemma_rank_keeps_moves(first, color);
            assert(moves_of(first) =~= moves);
        }
        assert(ordered.to_multiset() == moves.to_multiset());
        lemma_ordering_keeps_moves(view, moves, weights, max_ply, ply);
        assert forall|i: int| 0 <= i < ordered.len() implies view.pseudo_moves(color).contains(
            #[trigger] ordered[i],
        ) by {
            assert(ordered.contains(ordered[i]));
            assert(moves.contains(ordered[i]));
            let k = choose|k: int| 0 <= k < moves.len() && moves[k] == ordered[i];
            assert(view.pseudo_moves(color).contains(moves[k]));
        }
        lemma_wide_scan_scores_every_move(
            view,
            ordered,
            weights,
            i32::MIN as int,
            i32::MAX as int,
            max_ply,
            ply,
        );
        let scored = view.scan(ordered, weights, i32::MIN as int, i32::MAX as int, max_ply, ply);
        lemma_rank_keeps_moves(scored, color);
    } else {
        assert(moves_of(listed) =~= moves);
    }
}

proof fn lemma_insert_behind_first(ranked: Seq<(Move, int)>, item: (Move, int), color: Color)
    requires
        ranked.len() > 0,
        !better(color, item.1, ranked[0].1),
        crate::computer_player::is_ranked(ranked, color),
    ensures
        insert_ranked(ranked, item, color)[0] == ranked[0],
    decreases ranked.len(),
{
    if better(color, item.1, ranked.last().1) {
        if ranked.len() > 1 {
            let front = ranked.drop_last();
            assert(front[0] == ranked[0]);
            assert forall|i: int, j: int| 0 <= i < j < front.len() implies !better(
                color,
                (#[trigger] front[j]).1,
                (#[trigger] front[i]).1,
            ) by {
                assert(front[i] == ranked[i]);
                assert(front[j] == ranked[j]);
            }
            lemma_insert_behind_first(front, item, color);
            crate::computer_player::lemma_insert_ranked(front, item, color);
        }
    }
}

proof fn lemma_insert_before_all(ranked: Seq<(Move, int)>, item: (Move, int), color: Color)
    requires
        forall|i: int| 0 <= i < ranked.len() ==> better(color, item.1, (#[trigger] ranked[i]).1),
    ensures
        insert_ranked(ranked, item, color)[0] == item,
    decreases ranked.len(),
{
    if ranked.len() > 0 {
        let front = ranked.drop_last();
        assert(better(color, item.1, ranked[ranked.len() - 1].1));
        assert forall|i: int| 0 <= i < front.len() implies better(
            color,
            item.1,
            (#[trigger] front[i]).1,
        ) by {
            assert(front[i] == ranked[i]);
        }
        lemma_insert_before_all(front, item, color);
        crate::computer_player::lemma_insert_ranked(front, item, color);
    }
}

/// Ranking puts first the first of the items that have the best score: an
/// item that is strictly better than every item before it and not worse
/// than any item at all.
pub proof fn lemma_rank_puts_first(scored: Seq<(Move, int)>, color: Color, k: int)
    requires
        0 <= k < scored.len(),
        forall|i: int| 0 <= i < k ==> better(color, scored[k].1, (#[trigger] scored[i]).1),
        forall|i: int| 0 <= i < scored.len() ==> !better(color, (#[trigger] scored[i]).1, scored[k].1),
    ensures
        rank(scored, color)[0] == scored[k],
    decreases scored.len(),
{
    let front = scored.drop_last();
    let ranked = rank(front, color);
    lemma_rank_sorts(front, color);
    if k == scored.len() - 1 {
        assert forall|i: int| 0 <= i < ranked.len() implies better(
            color,
            scored[k].1,
            (#[trigger] ranked[i]).1,
        ) by {
            lemma_rank_keeps_items(front, color, i);
            let j = choose|j: int| 0 <= j < front.len() && front[j] == ranked[i];
            assert(front[j] == scored[j]);
        }
        lemma_insert_before_all(ranked, scored.last(), color);
    } else {
        assert(front[k] == scored[k]);
        assert forall|i: int| 0 <= i < k implies better(
            color,
            front[k].1,
            (#[trigger] front[i]).1,
        ) by {
            assert(front[i] == scored[i]);
        }
        assert forall|i: int| 0 <= i < front.len() implies !better(
            color,
            (#[trigger] front[i]).1,
            front[k].1,
        ) by {
            assert(front[i] == scored[i]);
        }
        lemma_rank_puts_first(front, color, k);
        assert(!better(color, scored[scored.len() - 1].1, scored[k].1));
        lemma_insert_behind_first(ranked, scored.last(), color);
    }
}

/// Whether a move is the single best of a list: its value is strictly
/// better for the side to move than that of every other move.
pub open spec fn single_best(
    view: GameView,
    moves: Seq<Move>,
    best: Move,
    weights: Weights,
    max_ply: int,
    ply: nat,
) -> bool {
    &&& moves.contains(best)
    &&& forall|i: int|
        0 <= i < moves.len() && (#[trigger] moves[i]) != best ==> better(
            view.current_player,
            view.move_value(best, weights, max_ply, ply),
            view.move_value(moves[i], weights, max_ply, ply),
        )
}

proof fn lemma_scan_after_best(
    view: GameView,
    ordered: Seq<Move>,
    weights: Weights,
    alpha: int,
    beta: int,
    max_ply: int,
    ply: nat,
    limit: int,
)
    requires
        view.searchable(),
        view.has_king(view.current_player),
        light(weights),
        1 <= max_ply <= u8::MAX,
        1 <= ply <= u8::MAX,
        view.playable(ordered),
        alpha < beta,
        view.current_player == Color::White ==> limit == alpha,
        view.current_player == Color::Black ==> limit == beta,
        forall|i: int|
            0 <= i < ordered.len() ==> !better(
                view.current_player,
                view.move_value(#[trigger] ordered[i], weights, max_ply, ply),
                limit,
            ),
    ensures
        forall|i: int|
            0 <= i < view.scan(ordered, weights, alpha, beta, max_ply, ply).len() ==> !better(
                view.current_player,
                (#[trigger] view.scan(ordered, weights, alpha, beta, max_ply, ply)[i]).1,
                limit,
            ),
    decreases ordered.len(),
{
    let scored = view.scan(ordered, weights, alpha, beta, max_ply, ply);
    if ordered.len() > 0 {
        let color = view.current_player;
        let m = ordered[0];
        let score = view.move_score(m, weights, alpha, beta, max_ply, ply);
        let value = view.move_value(m, weights, max_ply, ply);
        let next = view.apply(m);
        assert(view.pseudo_moves(color).contains(m));
        lemma_move_keeps_well_formed(view, m);
        lemma_move_keeps_census(view, m);
        if ply > 1 {
            lemma_search_bounds(
                next,
                next.pseudo_moves(next.current_player),
                weights,
                alpha,
                beta,
                max_ply,
                (ply - 1) as nat,
            );
        }
        assert(bounds(score, value, alpha, beta));
        assert(!better(color, value, limit));
        assert(!better(color, score, limit));
        let rest = ordered.drop_first();
        let tail = view.scan(rest, weights, alpha, beta, max_ply, ply);
        assert forall|i: int| 0 <= i < rest.len() implies view.pseudo_moves(color).contains(
            #[trigger] rest[i],
        ) && !better(color, view.move_value(rest[i], weights, max_ply, ply), limit) by {
            assert(rest[i] == ordered[i + 1]);
        }
        lemma_scan_after_best(view, rest, weights, alpha, beta, max_ply, ply, limit);
        assert forall|i: int| 0 <= i < scored.len() implies !better(
            color,
            (#[trigger] scored[i]).1,
            limit,
        ) by {
            if i > 0 {
                assert(scored[i] == tail[i - 1]);
            }
        }
    }
}

proof fn lemma_scan_finds_best(
    view: GameView,
    ordered: Seq<Move>,
    best: Move,
    weights: Weights,
    alpha: int,
    beta: int,
    max_ply: int,
    ply: nat,
) -> (k: int)
    requires
        view.searchable(),
        view.has_king(view.current_player),
        light(weights),
        1 <= max_ply <= u8::MAX,
        1 <= ply <= u8::MAX,
        view.playable(ordered),
        alpha < beta,
        view.current_player == Color::White ==> beta > MAX_SCORE + u8::MAX && alpha
            < view.move_value(best, weights, max_ply, ply),
        view.current_player == Color::Black ==> alpha < -(MAX_SCORE + u8::MAX) && beta
            > view.move_value(best, weights, max_ply, ply),
        single_best(view, ordered, best, weights, max_ply, ply),
    ensures
        0 <= k < view.scan(ordered, weights, alpha, beta, max_ply, ply).len(),
        view.scan(ordered, weights, alpha, beta, max_ply, ply)[k] == (
            best,
            view.move_value(best, weights, max_ply, ply),
        ),
        forall|i: int|
            0 <= i < k ==> better(
                view.current_player,
                view.move_value(best, weights, max_ply, ply),
                (#[trigger] view.scan(ordered, weights, alpha, beta, max_ply, ply)[i]).1,
            ),
        forall|i: int|
            0 <= i < view.scan(ordered, weights, alpha, beta, max_ply, ply).len() ==> !better(
                view.current_player,
                (#[trigger] view.scan(ordered, weights, alpha, beta, max_ply, ply)[i]).1,
                view.move_value(best, weights, max_ply, ply),
            ),
    decreases ordered.len(),
{
    let color = view.current_player;
    let goal = view.move_value(best, weights, max_ply, ply);
    let scored = view.scan(ordered, weights, alpha, beta, max_ply, ply);
    let at = choose|i: int| 0 <= i < ordered.len() && ordered[i] == best;
    let m = ordered[0];
    let score = view.move_score(m, weights, alpha, beta, max_ply, ply);
    let value = view.move_value(m, weights, max_ply, ply);
    let next = view.apply(m);
    assert(view.pseudo_moves(color).contains(m));
    assert(view.pseudo_moves(color).contains(ordered[at]));
    lemma_move_keeps_well_formed(view, m);
    lemma_move_keeps_census(view, m);
    lemma_move_value_range(view, best, weights, max_ply, ply);
    lemma_move_value_range(view, m, weights, max_ply, ply);
    if ply > 1 {
        lemma_search_bounds(
            next,
            next.pseudo_moves(next.current_player),
            weights,
            alpha,
            beta,
            max_ply,
            (ply - 1) as nat,
        );
    }
    assert(bounds(score, value, alpha, beta));
    let raised = if color == Color::White && score > alpha {
        score
    } else {
        alpha
    };
    let lowered = if color == Color::Black && score < beta {
        score
    } else {
        beta
    };
    let rest = ordered.drop_first();
    let tail = view.scan(rest, weights, raised, lowered, max_ply, ply);
    assert(scored =~= seq![(m, score)] + tail);
    assert forall|i: int| 0 <= i < rest.len() implies view.pseudo_moves(color).contains(
        #[trigger] rest[i],
    ) by {
        assert(rest[i] == ordered[i + 1]);
    }
    if m == best {
        assert(score == goal);
        let limit = goal;
        assert forall|i: int| 0 <= i < rest.len() implies !better(
            color,
            view.move_value(#[trigger] rest[i], weights, max_ply, ply),
            limit,
        ) by {
            assert(rest[i] == ordered[i + 1]);
        }
        lemma_scan_after_best(view, rest, weights, raised, lowered, max_ply, ply, limit);
        assert forall|i: int| 0 <= i < scored.len() implies !better(
            color,
            (#[trigger] scored[i]).1,
            goal,
        ) by {
            if i > 0 {
                assert(scored[i] == tail[i - 1]);
            }
        }
        0
    } else {
        assert(better(color, goal, value));
        assert(better(color, goal, score));
        assert(rest[at - 1] == best);
        assert forall|i: int| 0 <= i < rest.len() && (#[trigger] rest[i]) != best implies better(
            color,
            goal,
            view.move_value(rest[i], weights, max_ply, ply),
        ) by {
            assert(rest[i] == ordered[i + 1]);
        }
        let inner = lemma_scan_finds_best(
            view,
            rest,
            best,
            weights,
            raised,
            lowered,
            max_ply,
            ply,
        );
        assert(scored[inner + 1] == tail[inner]);
        assert forall|i: int| 0 <= i < inner + 1 implies better(
            color,
            goal,
            (#[trigger] scored[i]).1,
        ) by {
            if i > 0 {
                assert(scored[i] == tail[i - 1]);
            }
        }
        assert forall|i: int| 0 <= i < scored.len() implies !better(
            color,
            (#[trigger] scored[i]).1,
            goal,
        ) by {
            if i > 0 {
                assert(scored[i] == tail[i - 1]);
            }
        }
        inner + 1
    }
}

/// A single best move is ranked first: where one move has a value strictly
/// better than every other, as a single mating move has, the search with
/// the full window ranks it first, with its value as the best score.
pub proof fn lemma_single_best_move_is_ranked_first(
    view: GameView,
    moves: Seq<Move>,
    best: Move,
    weights: Weights,
    max_ply: int,
    ply: nat,
)
    requires
        view.searchable(),
        light(weights),
        1 <= max_ply <= u8::MAX,
        1 <= ply <= u8::MAX,
        view.playable(moves),
        view.end_state(moves) == EndState::NotEnded,
        single_best(view, moves, best, weights, max_ply, ply),
    ensures
        view.search(moves, weights, i32::MIN as int, i32::MAX as int, max_ply, ply).0[0] == (
            best,
            view.move_value(best, weights, max_ply, ply),
        ),
        view.search(moves, weights, i32::MIN as int, i32::MAX as int, max_ply, ply).1
            == view.move_value(best, weights, max_ply, ply),
{
    let color = view.current_player;
    let ordered = view.ordering(moves, weights, max_ply, ply);
    lemma_ordering_keeps_moves(view, moves, weights, max_ply, ply);
    assert(ordered.contains(best));
    assert forall|i: int| 0 <= i < ordered.len() implies view.pseudo_moves(color).contains(
        #[trigger] ordered[i],
    ) && (ordered[i] != best ==> better(
        color,
        view.move_value(best, weights, max_ply, ply),
        view.move_value(ordered[i], weights, max_ply, ply),
    )) by {
        assert(ordered.contains(ordered[i]));
        assert(moves.contains(ordered[i]));
        let k = choose|k: int| 0 <= k < moves.len() && moves[k] == ordered[i];
        assert(view.pseudo_moves(color).contains(moves[k]));
    }
    let at = choose|i: int| 0 <= i < moves.len() && moves[i] == best;
    assert(view.pseudo_moves(color).contains(moves[at]));
    lemma_move_value_range(view, best, weights, max_ply, ply);
    let k = lemma_scan_finds_best(
        view,
        ordered,
        best,
        weights,
        i32::MIN as int,
        i32::MAX as int,
        max_ply,
        ply,
    );
    let scored = view.scan(ordered, weights, i32::MIN as int, i32::MAX as int, max_ply, ply);
    lemma_rank_puts_first(scored, color, k);
}

} // verus!
