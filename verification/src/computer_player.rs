//! The computer player: a search of fixed depth with alpha-beta pruning and
//! move ordering, and the choice among the moves that it ranks best.

use rand::rngs::ThreadRng;
use vstd::prelude::*;
use crate::census::light;
use crate::evaluation::{lemma_evaluate_range, lemma_pseudo_moves_land, multi_eval, Weights};
use crate::minimax::lemma_search_finds_minimax;
use crate::game_state::{Color, EndState, GameState, GameView};
use crate::legality::{lemma_count_can_grow, lemma_move_keeps_well_formed};
use crate::piece_move::Move;
use crate::piece_type::PieceType;
use crate::trusted::random_index;

verus! {

/// The score of a won position before the depth at which it is found is
/// taken into account.
pub const MAX_SCORE: i32 = 10000;

/// Whether a score is strictly better than another for the color: higher
/// for White, lower for Black.
pub open spec fn better(color: Color, a: int, b: int) -> bool {
    match color {
        Color::White => a > b,
        Color::Black => a < b,
    }
}

/// A ranked list with one more item, which goes behind every item that is
/// not worse than it.
pub open spec fn insert_ranked(ranked: Seq<(Move, int)>, item: (Move, int), color: Color) -> Seq<
    (Move, int),
>
    decreases ranked.len(),
{
    if ranked.len() == 0 || !better(color, item.1, ranked.last().1) {
        ranked.push(item)
    } else {
        insert_ranked(ranked.drop_last(), item, color).push(ranked.last())
    }
}

/// The scored moves ranked best first for the color; moves of equal score
/// keep their order.
pub open spec fn rank(scored: Seq<(Move, int)>, color: Color) -> Seq<(Move, int)>
    decreases scored.len(),
{
    if scored.len() == 0 {
        Seq::empty()
    } else {
        insert_ranked(rank(scored.drop_last(), color), scored.last(), color)
    }
}

/// The scores of a list of scored moves as integers.
pub open spec fn scored_view(scored: Seq<(Move, i32)>) -> Seq<(Move, int)> {
    scored.map_values(|pair: (Move, i32)| (pair.0, pair.1 as int))
}

/// The moves of a list of scored moves.
pub open spec fn moves_of(scored: Seq<(Move, int)>) -> Seq<Move> {
    scored.map_values(|pair: (Move, int)| pair.0)
}

/// The moves at the head of a ranked list that share the score of the
/// first.
pub open spec fn tied_best(ranked: Seq<(Move, int)>) -> Seq<Move>
    decreases ranked.len(),
{
    tied_with(ranked, ranked[0].1)
}

/// The moves at the head of a list that have the given score.
pub open spec fn tied_with(ranked: Seq<(Move, int)>, score: int) -> Seq<Move>
    decreases ranked.len(),
{
    if ranked.len() == 0 || ranked[0].1 != score {
        Seq::empty()
    } else {
        seq![ranked[0].0] + tied_with(ranked.drop_first(), score)
    }
}

impl GameView {
    /// Whether every one of the moves is a pseudo-legal move of the side
    /// to move.
    pub open spec fn playable(self, moves: Seq<Move>) -> bool {
        forall|i: int|
            0 <= i < moves.len() ==> self.pseudo_moves(self.current_player).contains(
                #[trigger] moves[i],
            )
    }

    /// The score of a position in which the side to move has lost its
    /// king, found with `ply` of `max_ply` plies left: the nearer to the
    /// root, the larger in magnitude. It is negative when White is to move.
    pub open spec fn mate_score(self, max_ply: int, ply: int) -> int {
        match self.current_player {
            Color::White => -(MAX_SCORE - max_ply + ply),
            Color::Black => MAX_SCORE - max_ply + ply,
        }
    }

    /// The score of a move with `ply` plies left: with one ply, the score
    /// of the position after the move as a leaf; with more, the best score
    /// that the search finds for the other side in that position, among
    /// its pseudo-legal moves.
    pub open spec fn move_score(
        self,
        m: Move,
        weights: Weights,
        alpha: int,
        beta: int,
        max_ply: int,
        ply: nat,
    ) -> int
        decreases ply, 0int, 0int,
    {
        let next = self.apply(m);
        if ply > 1 {
            next.search(
                next.pseudo_moves(next.current_player),
                weights,
                alpha,
                beta,
                max_ply,
                (ply - 1) as nat,
            ).1
        } else {
            next.leaf_score(weights, max_ply)
        }
    }

    /// The score of a position at which the search goes no deeper: the
    /// evaluation while the side to move has its king, and the mate score
    /// with no ply left once its king is taken.
    pub open spec fn leaf_score(self, weights: Weights, max_ply: int) -> int {
        if self.has_king(self.current_player) {
            self.evaluate(weights)
        } else {
            self.mate_score(max_ply, 0)
        }
    }

    /// The moves scored one after another in the given order. White raises
    /// alpha to each score, Black lowers beta; the scan ends with the move
    /// after which beta is no longer above alpha.
    pub open spec fn scan(
        self,
        ordered: Seq<Move>,
        weights: Weights,
        alpha: int,
        beta: int,
        max_ply: int,
        ply: nat,
    ) -> Seq<(Move, int)>
        decreases ply, 1int, ordered.len(),
    {
        if ordered.len() == 0 {
            Seq::empty()
        } else {
            let m = ordered[0];
            let score = self.move_score(m, weights, alpha, beta, max_ply, ply);
            let raised = if self.current_player == Color::White && score > alpha {
                score
            } else {
                alpha
            };
            let lowered = if self.current_player == Color::Black && score < beta {
                score
            } else {
                beta
            };
            if lowered <= raised {
                seq![(m, score)]
            } else {
                seq![(m, score)] + self.scan(
                    ordered.drop_first(),
                    weights,
                    raised,
                    lowered,
                    max_ply,
                    ply,
                )
            }
        }
    }

    /// The order in which the search scores the moves: with more than one
    /// ply left, as a search of one ply ranks them within the window from
    /// `-MAX_SCORE` to `MAX_SCORE`; with one ply, as they are given.
    pub open spec fn ordering(self, moves: Seq<Move>, weights: Weights, max_ply: int, ply: nat)
        -> Seq<Move>
        decreases ply, 2int, 0int,
    {
        if ply > 1 {
            moves_of(self.search(moves, weights, -MAX_SCORE, MAX_SCORE as int, max_ply, 1).0)
        } else {
            moves
        }
    }

    /// The result of the search with `ply` plies left: the moves that were
    /// scored, ranked best first for the side to move, and the best score.
    ///
    /// A position in which the side to move has no king is lost: no move,
    /// and the mate score. A drawn position gives every move the score 0.
    /// Otherwise the moves are put in order, scanned with pruning, and
    /// ranked.
    pub open spec fn search(
        self,
        moves: Seq<Move>,
        weights: Weights,
        alpha: int,
        beta: int,
        max_ply: int,
        ply: nat,
    ) -> (Seq<(Move, int)>, int)
        decreases ply, 3int, 0int,
    {
        match self.end_state(moves) {
            EndState::Win(_) => (Seq::empty(), self.mate_score(max_ply, ply as int)),
            EndState::Stalemate => (moves.map_values(|m: Move| (m, 0int)), 0),
            EndState::NotEnded => {
                let ordered = self.ordering(moves, weights, max_ply, ply);
                let ranked = rank(
                    self.scan(ordered, weights, alpha, beta, max_ply, ply),
                    self.current_player,
                );
                (ranked, ranked[0].1)
            },
        }
    }
}

/// Inserting into a ranked list adds the item and nothing else.
pub proof fn lemma_insert_ranked(ranked: Seq<(Move, int)>, item: (Move, int), color: Color)
    ensures
        insert_ranked(ranked, item, color).len() == ranked.len() + 1,
        insert_ranked(ranked, item, color).to_multiset() == ranked.to_multiset().insert(item),
    decreases ranked.len(),
{
    broadcast use vstd::seq_lib::group_to_multiset_ensures;

    if ranked.len() == 0 || !better(color, item.1, ranked.last().1) {
    } else {
        lemma_insert_ranked(ranked.drop_last(), item, color);
        assert(ranked.drop_last().push(ranked.last()) =~= ranked);
        assert(ranked.to_multiset() == ranked.drop_last().to_multiset().insert(ranked.last()));
        assert(insert_ranked(ranked, item, color).to_multiset() =~= ranked.to_multiset().insert(
            item,
        ));
    }
}

/// Whether no item of the list is strictly better than an item before it.
pub open spec fn is_ranked(ranked: Seq<(Move, int)>, color: Color) -> bool {
    forall|i: int, j: int|
        0 <= i < j < ranked.len() ==> !better(color, (#[trigger] ranked[j]).1, (
        #[trigger] ranked[i]).1)
}

proof fn lemma_insert_keeps_ranked(ranked: Seq<(Move, int)>, item: (Move, int), color: Color)
    requires
        is_ranked(ranked, color),
    ensures
        is_ranked(insert_ranked(ranked, item, color), color),
        forall|i: int|
            0 <= i < ranked.len() + 1 ==> (#[trigger] insert_ranked(ranked, item, color)[i])
                == item || exists|k: int|
                0 <= k < ranked.len() && ranked[k] == insert_ranked(ranked, item, color)[i],
    decreases ranked.len(),
{
    lemma_insert_ranked(ranked, item, color);
    let result = insert_ranked(ranked, item, color);
    if ranked.len() == 0 || !better(color, item.1, ranked.last().1) {
        assert forall|i: int, j: int| 0 <= i < j < result.len() implies !better(
            color,
            (#[trigger] result[j]).1,
            (#[trigger] result[i]).1,
        ) by {
            if j == ranked.len() {
                assert(!better(color, ranked[ranked.len() - 1].1, ranked[i].1) || i
                    == ranked.len() - 1);
            }
        }
        assert forall|i: int| 0 <= i < ranked.len() + 1 implies (#[trigger] result[i]) == item
            || exists|k: int| 0 <= k < ranked.len() && ranked[k] == result[i] by {
            if i < ranked.len() {
                assert(ranked[i] == result[i]);
            }
        }
    } else {
        let front = ranked.drop_last();
        lemma_insert_keeps_ranked(front, item, color);
        lemma_insert_ranked(front, item, color);
        let inner = insert_ranked(front, item, color);
        assert forall|i: int, j: int| 0 <= i < j < result.len() implies !better(
            color,
            (#[trigger] result[j]).1,
            (#[trigger] result[i]).1,
        ) by {
            if j == result.len() - 1 {
                assert(result[i] == inner[i]);
                if inner[i] == item {
                } else {
                    let k = choose|k: int| 0 <= k < front.len() && front[k] == inner[i];
                    assert(ranked[k] == front[k]);
                    assert(!better(color, ranked[ranked.len() - 1].1, ranked[k].1));
                }
            } else {
                assert(result[i] == inner[i]);
                assert(result[j] == inner[j]);
            }
        }
        assert forall|i: int| 0 <= i < ranked.len() + 1 implies (#[trigger] result[i]) == item
            || exists|k: int| 0 <= k < ranked.len() && ranked[k] == result[i] by {
            if i < inner.len() {
                assert(result[i] == inner[i]);
                if inner[i] != item {
                    let k = choose|k: int| 0 <= k < front.len() && front[k] == inner[i];
                    assert(ranked[k] == result[i]);
                }
            } else {
                assert(ranked[ranked.len() - 1] == result[i]);
            }
        }
    }
}

/// Ranking sorts: the ranked list holds the same scored moves, as often,
/// and none of them is strictly better than one before it.
pub proof fn lemma_rank_sorts(scored: Seq<(Move, int)>, color: Color)
    ensures
        rank(scored, color).len() == scored.len(),
        rank(scored, color).to_multiset() == scored.to_multiset(),
        is_ranked(rank(scored, color), color),
    decreases scored.len(),
{
    broadcast use vstd::seq_lib::group_to_multiset_ensures;

    if scored.len() > 0 {
        let front = scored.drop_last();
        lemma_rank_sorts(front, color);
        lemma_insert_ranked(rank(front, color), scored.last(), color);
        lemma_insert_keeps_ranked(rank(front, color), scored.last(), color);
        assert(front.push(scored.last()) =~= scored);
    }
}

/// Every item of a ranked list is an item of the list that was ranked.
pub proof fn lemma_rank_keeps_items(scored: Seq<(Move, int)>, color: Color, j: int)
    requires
        0 <= j < rank(scored, color).len(),
    ensures
        scored.contains(rank(scored, color)[j]),
{
    broadcast use vstd::seq_lib::group_to_multiset_ensures;

    lemma_rank_sorts(scored, color);
    let ranked = rank(scored, color);
    assert(ranked.contains(ranked[j]));
    assert(ranked.to_multiset().count(ranked[j]) > 0);
    assert(scored.to_multiset().count(ranked[j]) > 0);
}

/// Of two lost positions with the same side to move, the one found with
/// more plies left, which is nearer to the root, has the score of larger
/// magnitude, and both are beyond `MAX_SCORE` less the depth of the search.
pub proof fn lemma_nearer_mate_scores_more(
    near: GameView,
    far: GameView,
    max_ply: int,
    near_ply: int,
    far_ply: int,
)
    requires
        near.current_player == far.current_player,
        0 <= far_ply < near_ply <= max_ply <= u8::MAX,
    ensures
        near.current_player == Color::White ==> near.mate_score(max_ply, near_ply)
            < far.mate_score(max_ply, far_ply) <= -(MAX_SCORE - max_ply),
        near.current_player == Color::Black ==> near.mate_score(max_ply, near_ply)
            > far.mate_score(max_ply, far_ply) >= MAX_SCORE - max_ply,
{
}

/// Where the side to move has lost its king and no position has occurred
/// three times, the search gives no move and the mate score, whatever the
/// moves and the window: negative when White is to move, positive when
/// Black is, and larger in magnitude the more plies are left.
pub proof fn lemma_lost_king_scores_mate(
    view: GameView,
    moves: Seq<Move>,
    weights: Weights,
    alpha: int,
    beta: int,
    max_ply: int,
    ply: nat,
)
    requires
        !view.threefold(),
        !view.has_king(view.current_player),
    ensures
        view.search(moves, weights, alpha, beta, max_ply, ply) == (
            Seq::<(Move, int)>::empty(),
            view.mate_score(max_ply, ply as int),
        ),
        view.mate_score(max_ply, ply as int) == match view.current_player {
            Color::White => -(MAX_SCORE - (max_ply - ply)),
            Color::Black => MAX_SCORE - (max_ply - ply),
        },
{
}

/// In an open position the best score of a search is the score of the
/// move that it ranks first, and none of the moves that it has scored is
/// strictly better for the side to move.
pub proof fn lemma_search_best_is_best(
    view: GameView,
    moves: Seq<Move>,
    weights: Weights,
    alpha: int,
    beta: int,
    max_ply: int,
    ply: nat,
    i: int,
)
    requires
        view.end_state(moves) == EndState::NotEnded,
        0 <= i < view.search(moves, weights, alpha, beta, max_ply, ply).0.len(),
    ensures
        view.search(moves, weights, alpha, beta, max_ply, ply).1 == view.search(
            moves,
            weights,
            alpha,
            beta,
            max_ply,
            ply,
        ).0[0].1,
        !better(
            view.current_player,
            view.search(moves, weights, alpha, beta, max_ply, ply).0[i].1,
            view.search(moves, weights, alpha, beta, max_ply, ply).1,
        ),
{
    let scored = view.scan(
        view.ordering(moves, weights, max_ply, ply),
        weights,
        alpha,
        beta,
        max_ply,
        ply,
    );
    lemma_rank_sorts(scored, view.current_player);
    let ranked = rank(scored, view.current_player);
    if i > 0 {
        assert(!better(view.current_player, ranked[i].1, ranked[0].1));
    }
}

/// The moves, each with the score as a leaf of the position that it leads
/// to.
pub open spec fn evaluated(view: GameView, moves: Seq<Move>, weights: Weights, max_ply: int) -> Seq<
    (Move, int),
> {
    moves.map_values(|m: Move| (m, view.apply(m).leaf_score(weights, max_ply)))
}

/// With a window wider than every score, a search of one ply in an open
/// position scores every move by the position that it leads to, taken as a
/// leaf, and ranks the moves by these scores.
pub proof fn lemma_one_ply_search_scores_all(
    view: GameView,
    moves: Seq<Move>,
    weights: Weights,
    alpha: int,
    beta: int,
    max_ply: int,
)
    requires
        view.end_state(moves) == EndState::NotEnded,
        0 <= max_ply <= u8::MAX,
        alpha < -0x2000_0000,
        beta > 0x2000_0000,
    ensures
        view.search(moves, weights, alpha, beta, max_ply, 1).0 == rank(
            evaluated(view, moves, weights, max_ply),
            view.current_player,
        ),
{
    assert forall|i: int| 0 <= i < moves.len() implies alpha < view.apply(
        #[trigger] moves[i],
    ).leaf_score(weights, max_ply) < beta by {
        lemma_evaluate_range(view.apply(moves[i]), weights);
    }
    crate::minimax::lemma_scan_within_window(view, moves, weights, alpha, beta, max_ply);
}

fn is_better(color: Color, a: i32, b: i32) -> (result: bool)
    ensures
        result == better(color, a as int, b as int),
{
    match color {
        Color::White => a > b,
        Color::Black => a < b,
    }
}

/// Ranks the scored moves best first for the color. Moves of equal score
/// keep their order.
pub fn rank_moves(move_scores: &Vec<(Move, i32)>, color: Color) -> (ranked: Vec<(Move, i32)>)
    ensures
        scored_view(ranked@) == rank(scored_view(move_scores@), color),
        is_ranked(scored_view(ranked@), color),
        scored_view(ranked@).to_multiset() == scored_view(move_scores@).to_multiset(),
        ranked@.len() == move_scores@.len(),
{
    let mut ranked: Vec<(Move, i32)> = Vec::new();
    let mut i: usize = 0;
    assert(scored_view(move_scores@.take(0)) =~= Seq::empty());
    assert(scored_view(ranked@) =~= Seq::empty());
    while i < move_scores.len()
        invariant
            i <= move_scores@.len(),
            scored_view(ranked@) == rank(scored_view(move_scores@.take(i as int)), color),
        decreases move_scores@.len() - i,
    {
        let item = move_scores[i];
        let ghost entry = (item.0, item.1 as int);
        let ghost before = scored_view(ranked@);
        let mut p: usize = ranked.len();
        assert(before.take(p as int) =~= before);
        assert(insert_ranked(before.take(p as int), entry, color) + before.skip(p as int)
            =~= insert_ranked(before, entry, color));
        while p > 0 && is_better(color, item.1, ranked[p - 1].1)
            invariant
                p <= ranked@.len(),
                before == scored_view(ranked@),
                entry == (item.0, item.1 as int),
                insert_ranked(before, entry, color) == insert_ranked(
                    before.take(p as int),
                    entry,
                    color,
                ) + before.skip(p as int),
            decreases p,
        {
            proof {
                let head = before.take(p as int);
                assert(head.last() == before[p - 1]);
                assert(head.drop_last() =~= before.take(p - 1));
                assert(insert_ranked(before.take(p - 1), entry, color).push(before[p - 1])
                    + before.skip(p as int) =~= insert_ranked(before.take(p - 1), entry, color)
                    + before.skip(p - 1));
            }
            p -= 1;
        }
        proof {
            let head = before.take(p as int);
            if p > 0 {
                assert(head.last() == before[p - 1]);
            }
            assert(insert_ranked(head, entry, color) == head.push(entry));
            assert(head.push(entry) + before.skip(p as int) =~= before.insert(p as int, entry));
        }
        ranked.insert(p, item);
        proof {
            assert(scored_view(ranked@) =~= before.insert(p as int, entry));
            let prefix = move_scores@.take(i + 1);
            assert(scored_view(prefix).drop_last() =~= scored_view(move_scores@.take(i as int)));
            assert(scored_view(prefix).last() == entry);
        }
        i += 1;
    }
    assert(move_scores@.take(i as int) =~= move_scores@);
    proof {
        lemma_rank_sorts(scored_view(move_scores@), color);
        assert(scored_view(ranked@).len() == ranked@.len());
    }
    ranked
}

/// Searches `ply` plies deep from the state, whose side to move has the
/// given moves, and returns the moves that were scored, ranked best first,
/// with the best score.
///
/// White maximizes and Black minimizes. With more than one ply left the
/// moves are first put in the order in which a search of one ply ranks
/// them. After each move the window between `alpha` and `beta` is narrowed
/// by its score, and the scan of the moves ends once the window is empty.
/// With one ply left a move is scored by the position that it leads to: by
/// the evaluation, or as lost for the side to move once its king is taken.
///
/// With the full window, weights no heavier than those of the named
/// players and a state that keeps the census, the best score is the value
/// of the position by plain minimax.
pub fn determine_best_moves(
    initial_game_state: &GameState,
    moves: &Vec<Move>,
    weights: &Weights,
    alpha: i32,
    beta: i32,
    max_ply: u8,
    ply: u8,
) -> (result: (Vec<(Move, i32)>, i32))
    requires
        ply > 0,
        initial_game_state@.well_formed(),
        initial_game_state@.playable(moves@),
    ensures
        (scored_view(result.0@), result.1 as int) == initial_game_state@.search(
            moves@,
            *weights,
            alpha as int,
            beta as int,
            max_ply as int,
            ply as nat,
        ),
        forall|j: int| 0 <= j < result.0@.len() ==> moves@.contains((#[trigger] result.0@[j]).0),
        is_ranked(scored_view(result.0@), initial_game_state@.current_player),
        result.0@.len() > 0 ==> result.1 == result.0@[0].1,
        initial_game_state@.census() && light(*weights) && max_ply >= 1 && alpha == i32::MIN
            && beta == i32::MAX ==> result.1 == initial_game_state@.minimax(
            moves@,
            *weights,
            max_ply as int,
            ply as nat,
        ),
        initial_game_state@.end_state(moves@) != EndState::Win(
            initial_game_state@.current_player.spec_opposite(),
        ) && moves@.len() > 0 ==> result.0@.len() > 0,
    decreases ply,
{
    let ghost view = initial_game_state@;
    proof {
        if view.census() && light(*weights) && max_ply >= 1 && alpha == i32::MIN && beta
            == i32::MAX {
            lemma_search_finds_minimax(view, moves@, *weights, max_ply as int, ply as nat);
        }
    }
    match initial_game_state.get_end_state(moves) {
        EndState::NotEnded => (),
        EndState::Win(_) => {
            let magnitude = MAX_SCORE - max_ply as i32 + ply as i32;
            let score = if initial_game_state.current_player == Color::White {
                -magnitude
            } else {
                magnitude
            };
            let none: Vec<(Move, i32)> = Vec::new();
            assert(scored_view(none@) =~= Seq::empty());
            return (none, score);
        },
        EndState::Stalemate => {
            let mut drawn: Vec<(Move, i32)> = Vec::new();
            let mut i: usize = 0;
            while i < moves.len()
                invariant
                    i <= moves@.len(),
                    drawn@.len() == i,
                    forall|k: int| 0 <= k < i ==> drawn@[k] == (moves@[k], 0i32),
                decreases moves@.len() - i,
            {
                drawn.push((moves[i], 0));
                i += 1;
            }
            assert(scored_view(drawn@) =~= moves@.map_values(|m: Move| (m, 0int)));
            assert forall|j: int| 0 <= j < drawn@.len() implies moves@.contains(
                (#[trigger] drawn@[j]).0,
            ) by {
                assert(moves@[j] == drawn@[j].0);
            }
            return (drawn, 0);
        },
    }
    let current_player = initial_game_state.current_player;
    let ordered_moves: Vec<Move> = if ply > 1 {
        let shallow = determine_best_moves(
            initial_game_state,
            moves,
            weights,
            -MAX_SCORE,
            MAX_SCORE,
            max_ply,
            1,
        ).0;
        let mut ordered: Vec<Move> = Vec::new();
        let mut i: usize = 0;
        while i < shallow.len()
            invariant
                i <= shallow@.len(),
                ordered@.len() == i,
                forall|k: int| 0 <= k < i ==> ordered@[k] == shallow@[k].0,
            decreases shallow@.len() - i,
        {
            ordered.push(shallow[i].0);
            i += 1;
        }
        assert(ordered@ =~= moves_of(scored_view(shallow@)));
        assert forall|j: int| 0 <= j < ordered@.len() implies moves@.contains(
            #[trigger] ordered@[j],
        ) by {
            assert(moves@.contains(shallow@[j].0));
        }
        ordered
    } else {
        moves.clone()
    };
    assert(ordered_moves@ == view.ordering(moves@, *weights, max_ply as int, ply as nat));
    assert(ordered_moves@.len() > 0);
    let ghost whole = view.scan(
        ordered_moves@,
        *weights,
        alpha as int,
        beta as int,
        max_ply as int,
        ply as nat,
    );
    let mut alpha = alpha;
    let mut beta = beta;
    let mut move_scores: Vec<(Move, i32)> = Vec::new();
    let mut i: usize = 0;
    let mut cut = false;
    assert(ordered_moves@.skip(0) =~= ordered_moves@);
    assert(scored_view(move_scores@) =~= Seq::empty());
    while i < ordered_moves.len() && !cut
        invariant
            ply > 0,
            i <= ordered_moves@.len(),
            view == initial_game_state@,
            view.well_formed(),
            view.end_state(moves@) == EndState::NotEnded,
            current_player == view.current_player,
            forall|j: int|
                0 <= j < ordered_moves@.len() ==> moves@.contains(#[trigger] ordered_moves@[j]),
            view.playable(moves@),
            forall|j: int|
                0 <= j < move_scores@.len() ==> moves@.contains((#[trigger] move_scores@[j]).0),
            move_scores@.len() == 0 ==> i == 0 && !cut,
            cut ==> whole == scored_view(move_scores@),
            !cut ==> whole == scored_view(move_scores@) + view.scan(
                ordered_moves@.skip(i as int),
                *weights,
                alpha as int,
                beta as int,
                max_ply as int,
                ply as nat,
            ),
        decreases ordered_moves@.len() - i, if cut { 0int } else { 1int },
    {
        let piece_move = ordered_moves[i];
        let ghost rest = ordered_moves@.skip(i as int);
        proof {
            assert(rest[0] == piece_move);
            assert(rest.drop_first() =~= ordered_moves@.skip(i + 1));
            assert(moves@.contains(piece_move));
            lemma_move_keeps_well_formed(view, piece_move);
            lemma_count_can_grow(view, piece_move);
        }
        let mut game_state = initial_game_state.clone();
        game_state.move_piece(&piece_move);
        let score = if ply > 1 {
            let next_moves = game_state.get_player_moves_without_check(game_state.current_player);
            determine_best_moves(&game_state, &next_moves, weights, alpha, beta, max_ply, ply - 1).1
        } else {
            proof {
                lemma_pseudo_moves_land(game_state@, Color::White);
                lemma_pseudo_moves_land(game_state@, Color::Black);
                crate::game_state::lemma_has_king(game_state@, game_state.current_player);
            }
            let king = game_state.find_piece(PieceType::King, game_state.current_player);
            if king.is_some() {
                multi_eval(&game_state, weights)
            } else if game_state.current_player == Color::White {
                -(MAX_SCORE - max_ply as i32)
            } else {
                MAX_SCORE - max_ply as i32
            }
        };
        assert(score as int == view.move_score(
            piece_move,
            *weights,
            alpha as int,
            beta as int,
            max_ply as int,
            ply as nat,
        ));
        let ghost scored_before = scored_view(move_scores@);
        if current_player == Color::White {
            if score > alpha {
                alpha = score;
            }
        } else {
            if score < beta {
                beta = score;
            }
        }
        move_scores.push((piece_move, score));
        assert(scored_view(move_scores@) =~= scored_before.push((piece_move, score as int)));
        if beta <= alpha {
            cut = true;
        }
        i += 1;
        assert(cut ==> whole =~= scored_view(move_scores@));
        assert(!cut ==> whole =~= scored_view(move_scores@) + view.scan(
            ordered_moves@.skip(i as int),
            *weights,
            alpha as int,
            beta as int,
            max_ply as int,
            ply as nat,
        ));
    }
    assert(whole =~= scored_view(move_scores@)) by {
        if !cut {
            assert(ordered_moves@.skip(i as int).len() == 0);
        }
    }
    let ranked = rank_moves(&move_scores, current_player);
    proof {
        lemma_rank_sorts(scored_view(move_scores@), current_player);
        assert(scored_view(ranked@).len() == ranked@.len());
        assert forall|j: int| 0 <= j < ranked@.len() implies moves@.contains(
            (#[trigger] ranked@[j]).0,
        ) by {
            lemma_rank_keeps_items(scored_view(move_scores@), current_player, j);
            let item = scored_view(ranked@)[j];
            let k = choose|k: int|
                0 <= k < scored_view(move_scores@).len() && scored_view(move_scores@)[k] == item;
            assert(move_scores@[k].0 == ranked@[j].0);
        }
    }
    let best_score = ranked[0].1;
    (ranked, best_score)
}

/// The moves at the head of a ranked list that share the score of the
/// first.
pub fn best_moves(move_scores: &Vec<(Move, i32)>) -> (best: Vec<Move>)
    ensures
        best@ == tied_best(scored_view(move_scores@)),
{
    let mut best: Vec<Move> = Vec::new();
    if move_scores.len() == 0 {
        return best;
    }
    let best_score = move_scores[0].1;
    let ghost ranked = scored_view(move_scores@);
    let mut i: usize = 0;
    let mut tied = true;
    assert(ranked.skip(0) =~= ranked);
    while i < move_scores.len() && tied
        invariant
            i <= move_scores@.len(),
            ranked == scored_view(move_scores@),
            tied ==> best@ + tied_with(ranked.skip(i as int), best_score as int) == tied_with(
                ranked,
                best_score as int,
            ),
            !tied ==> best@ == tied_with(ranked, best_score as int),
        decreases move_scores@.len() - i, if tied { 1int } else { 0int },
    {
        let ghost rest = ranked.skip(i as int);
        proof {
            assert(rest[0] == ranked[i as int]);
            assert(rest.drop_first() =~= ranked.skip(i + 1));
        }
        if move_scores[i].1 == best_score {
            best.push(move_scores[i].0);
            i += 1;
            assert(best@ + tied_with(ranked.skip(i as int), best_score as int) =~= tied_with(
                ranked,
                best_score as int,
            ));
        } else {
            tied = false;
            assert(best@ =~= tied_with(ranked, best_score as int));
        }
    }
    assert(best@ =~= tied_with(ranked, best_score as int)) by {
        if tied {
            assert(ranked.skip(i as int).len() == 0);
        }
    }
    best
}

/// The move at the place `choice` among the moves that share the best
/// score of a ranked list. It is for the caller to draw the place.
pub fn select_best(best: &Vec<Move>, choice: usize) -> (chosen: Move)
    requires
        choice < best@.len(),
    ensures
        chosen == best@[choice as int],
{
    best[choice]
}

/// Searches `max_depth` plies deep for the side to move and picks, with
/// the given random number generator, one of the moves that share the best
/// score. Returns the move with the ranked list that it was picked from.
pub fn rank_and_choose(
    initial_game_state: &GameState,
    moves: &Vec<Move>,
    max_depth: u8,
    weights: &Weights,
    rng: &mut ThreadRng,
) -> (result: (Move, Vec<(Move, i32)>))
    requires
        moves@.len() > 0,
        max_depth > 0,
        initial_game_state@.well_formed(),
        initial_game_state@.playable(moves@),
        initial_game_state@.threefold() || initial_game_state@.has_king(
            initial_game_state@.current_player,
        ),
    ensures
        scored_view(result.1@) == initial_game_state@.search(
            moves@,
            *weights,
            i32::MIN as int,
            i32::MAX as int,
            max_depth as int,
            max_depth as nat,
        ).0,
        tied_best(scored_view(result.1@)).contains(result.0),
        moves@.contains(result.0),
{
    let move_scores = determine_best_moves(
        initial_game_state,
        moves,
        weights,
        i32::MIN,
        i32::MAX,
        max_depth,
        max_depth,
    ).0;
    let best = best_moves(&move_scores);
    proof {
        let ranked = scored_view(move_scores@);
        assert(ranked.len() > 0);
        assert(best@.len() > 0);
        lemma_tied_are_listed(ranked, ranked[0].1);
    }
    let choice = random_index(rng, best.len());
    proof {
        let ranked = scored_view(move_scores@);
        assert(ranked[choice as int].0 == best@[choice as int]);
        assert(move_scores@[choice as int].0 == best@[choice as int]);
    }
    (select_best(&best, choice), move_scores)
}

/// Chooses a move for the side to move: searches `max_depth` plies deep
/// and picks, with the given random number generator, one of the moves
/// that share the best score.
pub fn computer_player(
    initial_game_state: &GameState,
    moves: &Vec<Move>,
    max_depth: u8,
    weights: &Weights,
    rng: &mut ThreadRng,
) -> (chosen: Move)
    requires
        moves@.len() > 0,
        max_depth > 0,
        initial_game_state@.well_formed(),
        initial_game_state@.playable(moves@),
        initial_game_state@.threefold() || initial_game_state@.has_king(
            initial_game_state@.current_player,
        ),
    ensures
        tied_best(
            initial_game_state@.search(
                moves@,
                *weights,
                i32::MIN as int,
                i32::MAX as int,
                max_depth as int,
                max_depth as nat,
            ).0,
        ).contains(chosen),
        moves@.contains(chosen),
{
    rank_and_choose(initial_game_state, moves, max_depth, weights, rng).0
}

/// Each of the moves at the head of a list with the given score is the move
/// of an item of the list.
pub proof fn lemma_tied_are_listed(ranked: Seq<(Move, int)>, score: int)
    ensures
        tied_with(ranked, score).len() <= ranked.len(),
        forall|i: int|
            0 <= i < tied_with(ranked, score).len() ==> ranked[i].0 == #[trigger] tied_with(
                ranked,
                score,
            )[i] && ranked[i].1 == score,
    decreases ranked.len(),
{
    if ranked.len() > 0 && ranked[0].1 == score {
        lemma_tied_are_listed(ranked.drop_first(), score);
        assert forall|i: int| 0 <= i < tied_with(ranked, score).len() implies ranked[i].0
            == #[trigger] tied_with(ranked, score)[i] && ranked[i].1 == score by {
            if i > 0 {
                assert(ranked.drop_first()[i - 1] == ranked[i]);
                assert(tied_with(ranked.drop_first(), score)[i - 1] == tied_with(ranked, score)[i]);
            }
        }
    }
}

/// The weights of the player that counts material only.
pub open spec fn piece_score_weights() -> Weights {
    Weights { material: 15, mobility: 0, space: 0 }
}

/// The weights of the player that also counts moves.
pub open spec fn max_moves_weights() -> Weights {
    Weights { material: 15, mobility: 1, space: 0 }
}

/// The weights of the player that also counts controlled squares.
pub open spec fn max_spaces_weights() -> Weights {
    Weights { material: 15, mobility: 0, space: 3 }
}

/// The weights of the player that counts material, squares and moves.
pub open spec fn spaces_moves_weights() -> Weights {
    Weights { material: 70, mobility: 1, space: 7 }
}

impl Weights {
    /// The weights of the player that counts material only.
    pub fn piece_score() -> (weights: Weights)
        ensures
            weights == piece_score_weights(),
    {
        Weights { material: 15, mobility: 0, space: 0 }
    }

    /// The weights of the player that also counts moves.
    pub fn max_moves() -> (weights: Weights)
        ensures
            weights == max_moves_weights(),
    {
        Weights { material: 15, mobility: 1, space: 0 }
    }

    /// The weights of the player that also counts controlled squares.
    pub fn max_spaces() -> (weights: Weights)
        ensures
            weights == max_spaces_weights(),
    {
        Weights { material: 15, mobility: 0, space: 3 }
    }

    /// The weights of the player that counts material, squares and moves.
    pub fn spaces_moves() -> (weights: Weights)
        ensures
            weights == spaces_moves_weights(),
    {
        Weights { material: 70, mobility: 1, space: 7 }
    }
}

/// Chooses a move by material alone.
pub fn piece_score_comp(initial_game_state: &GameState, moves: &Vec<Move>, max_depth: u8) -> (chosen:
    Move)
    requires
        moves@.len() > 0,
        max_depth > 0,
        initial_game_state@.well_formed(),
        initial_game_state@.playable(moves@),
        initial_game_state@.threefold() || initial_game_state@.has_king(
            initial_game_state@.current_player,
        ),
    ensures
        tied_best(
            initial_game_state@.search(
                moves@,
                piece_score_weights(),
                i32::MIN as int,
                i32::MAX as int,
                max_depth as int,
                max_depth as nat,
            ).0,
        ).contains(chosen),
        moves@.contains(chosen),
{
    let mut rng = rand::thread_rng();
    let weights = Weights::piece_score();
    computer_player(initial_game_state, moves, max_depth, &weights, &mut rng)
}

/// Chooses a move by material and mobility.
pub fn max_moves_comp(initial_game_state: &GameState, moves: &Vec<Move>, max_depth: u8) -> (chosen:
    Move)
    requires
        moves@.len() > 0,
        max_depth > 0,
        initial_game_state@.well_formed(),
        initial_game_state@.playable(moves@),
        initial_game_state@.threefold() || initial_game_state@.has_king(
            initial_game_state@.current_player,
        ),
    ensures
        tied_best(
            initial_game_state@.search(
                moves@,
                max_moves_weights(),
                i32::MIN as int,
                i32::MAX as int,
                max_depth as int,
                max_depth as nat,
            ).0,
        ).contains(chosen),
        moves@.contains(chosen),
{
    let mut rng = rand::thread_rng();
    let weights = Weights::max_moves();
    computer_player(initial_game_state, moves, max_depth, &weights, &mut rng)
}

/// Chooses a move by material and control of space.
pub fn max_spaces_comp(initial_game_state: &GameState, moves: &Vec<Move>, max_depth: u8) -> (chosen:
    Move)
    requires
        moves@.len() > 0,
        max_depth > 0,
        initial_game_state@.well_formed(),
        initial_game_state@.playable(moves@),
        initial_game_state@.threefold() || initial_game_state@.has_king(
            initial_game_state@.current_player,
        ),
    ensures
        tied_best(
            initial_game_state@.search(
                moves@,
                max_spaces_weights(),
                i32::MIN as int,
                i32::MAX as int,
                max_depth as int,
                max_depth as nat,
            ).0,
        ).contains(chosen),
        moves@.contains(chosen),
{
    let mut rng = rand::thread_rng();
    let weights = Weights::max_spaces();
    computer_player(initial_game_state, moves, max_depth, &weights, &mut rng)
}

/// Chooses a move by material, control of space and mobility.
pub fn spaces_moves_comp(initial_game_state: &GameState, moves: &Vec<Move>, max_depth: u8) -> (chosen:
    Move)
    requires
        moves@.len() > 0,
        max_depth > 0,
        initial_game_state@.well_formed(),
        initial_game_state@.playable(moves@),
        initial_game_state@.threefold() || initial_game_state@.has_king(
            initial_game_state@.current_player,
        ),
    ensures
        tied_best(
            initial_game_state@.search(
                moves@,
                spaces_moves_weights(),
                i32::MIN as int,
                i32::MAX as int,
                max_depth as int,
                max_depth as nat,
            ).0,
        ).contains(chosen),
        moves@.contains(chosen),
{
    let mut rng = rand::thread_rng();
    let weights = Weights::spaces_moves();
    computer_player(initial_game_state, moves, max_depth, &weights, &mut rng)
}

} // verus!
