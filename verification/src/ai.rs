use vstd::prelude::*;

use crate::board::{evaluate, is_terminal, Board};
use crate::player::{
    best_of, better_for, gain, lemma_gain_injective, lemma_gain_range, opponent, opponent_spec,
    outcome_val, worst_for, worst_outcome_for, Outcome, Player,
};

verus! {

/// The search's recursion budget: with at most nine plies in a game, eight
/// is exhaustive for any position the collaborator hands in after a move.
pub const MAX_DEPTH: usize = 8;

/// Larger of two integers.
pub open spec fn imax(a: int, b: int) -> int {
    if a >= b {
        a
    } else {
        b
    }
}

/// Smaller of two integers.
pub open spec fn imin(a: int, b: int) -> int {
    if a <= b {
        a
    } else {
        b
    }
}

/// The guaranteed outcome of the position `s` with `p` to move and `depth`
/// plies of search left: the evaluation when the budget is spent or the game
/// is over, else the best outcome `p` can force among the legal moves.
pub open spec fn game_value(s: Seq<Player>, depth: nat, p: Player) -> Outcome
    decreases depth, 10int,
{
    if depth == 0 || is_terminal(s) {
        evaluate(s)
    } else {
        value_from(s, (depth - 1) as nat, p, 0)
    }
}

/// The best outcome `p` can force playing one of the legal moves at index
/// `i` or above, each followed by a `child_depth` search for the opponent;
/// `p`'s worst outcome when no such move exists.
pub open spec fn value_from(s: Seq<Player>, child_depth: nat, p: Player, i: int) -> Outcome
    decreases child_depth + 1, 9 - i,
{
    if i >= 9 {
        worst_for(p)
    } else {
        let rest = value_from(s, child_depth, p, i + 1);
        if s[i] == Player::Empty {
            best_of(p, game_value(s.update(i, p), child_depth, opponent_spec(p)), rest)
        } else {
            rest
        }
    }
}

/// The outcome `p` is guaranteed after playing `i` on `s`, the opponent
/// searching one ply less deep. Meaningful for depth >= 1.
pub open spec fn move_value(s: Seq<Player>, depth: nat, p: Player, i: int) -> Outcome {
    game_value(s.update(i, p), (depth - 1) as nat, opponent_spec(p))
}

/// The best outcome `p` can force among the legal moves strictly below `i`;
/// `p`'s worst outcome when there is none.
pub open spec fn prefix_value(s: Seq<Player>, child_depth: nat, p: Player, i: int) -> Outcome
    decreases i,
{
    if i <= 0 {
        worst_for(p)
    } else {
        let rest = prefix_value(s, child_depth, p, i - 1);
        if s[i - 1] == Player::Empty {
            best_of(p, game_value(s.update(i - 1, p), child_depth, opponent_spec(p)), rest)
        } else {
            rest
        }
    }
}

/// Splitting the moves at `i` loses nothing: the better of the best move
/// below `i` and the best move from `i` on is the best move overall.
proof fn lemma_value_split(s: Seq<Player>, child_depth: nat, p: Player, i: int)
    requires
        0 <= i <= 9,
    ensures
        best_of(p, prefix_value(s, child_depth, p, i), value_from(s, child_depth, p, i))
            == value_from(s, child_depth, p, 0),
    decreases i,
{
    if i > 0 {
        lemma_value_split(s, child_depth, p, i - 1);
    }
}

/// The hypothetical board explored by the search: consumes a snapshot of
/// the real board and writes `player`'s mark into cell `action`.
pub fn result(board: Board, action: usize, player: Player) -> (r: Board)
    requires
        board.wf(),
        action < 9,
        board@[action as int] == Player::Empty,
    ensures
        r.wf(),
        r@ == board@.update(action as int, player),
{
    let mut next = board;
    let _ = next.place_at(action, player);
    next
}

/// Exhaustive minimax. Returns the index of the earliest move that forces
/// the best outcome for `player`, and that outcome; on a spent budget or a
/// finished board, the board's evaluation with an unused index of 0.
pub fn minimax(board: Board, depth: usize, player: Player) -> (r: (usize, Outcome))
    requires
        board.wf(),
        player != Player::Empty,
    ensures
        r.1 == game_value(board@, depth as nat, player),
        depth > 0 && !is_terminal(board@) ==> r.0 < 9 && board@[r.0 as int] == Player::Empty
            && r.1 == move_value(board@, depth as nat, player, r.0 as int),
        depth > 0 && !is_terminal(board@) ==> (forall|j: int|
            0 <= j < r.0 && board@[j] == Player::Empty ==> gain(
                player,
                #[trigger] move_value(board@, depth as nat, player, j),
            ) < gain(player, r.1)),
    decreases depth,
{
    if depth == 0 || board.finished() {
        return (0, board.score());
    }
    let mut best: Outcome = worst_outcome_for(player);
    let mut idx: usize = 0;
    let mut found: bool = false;
    let mut i: usize = 0;
    while i < 9
        invariant
            board.wf(),
            player != Player::Empty,
            depth >= 1,
            !is_terminal(board@),
            i <= 9,
            best == prefix_value(board@, (depth - 1) as nat, player, i as int),
            found ==> idx < i && board@[idx as int] == Player::Empty && best == move_value(
                board@,
                depth as nat,
                player,
                idx as int,
            ),
            found ==> (forall|j: int|
                0 <= j < idx && board@[j] == Player::Empty ==> gain(
                    player,
                    #[trigger] move_value(board@, depth as nat, player, j),
                ) < gain(player, best)),
            found ==> (forall|j: int|
                idx < j < i && board@[j] == Player::Empty ==> gain(
                    player,
                    #[trigger] move_value(board@, depth as nat, player, j),
                ) <= gain(player, best)),
            !found ==> (forall|j: int| 0 <= j < i ==> board@[j] != Player::Empty) && best
                == worst_for(player),
        decreases 9 - i,
    {
        if board.cell_is_empty(i) {
            let child = result(board.clone(), i, player);
            let sub = minimax(child, depth - 1, opponent(player));
            if !found || better_for(player, sub.1, best) {
                best = sub.1;
                idx = i;
                found = true;
            }
        }
        i += 1;
    }
    proof {
        lemma_value_split(board@, (depth - 1) as nat, player, 9);
        if !found {
            assert(board@[0] != Player::Empty);
            assert(crate::board::is_full(board@));
        }
    }
    (idx, best)
}

/// The bound that `p`'s own step tightens: alpha for the maximizing side
/// (X), beta for the minimizing side.
pub open spec fn own_bound(p: Player, alpha: Outcome, beta: Outcome) -> Outcome {
    if p == Player::X {
        alpha
    } else {
        beta
    }
}

/// The opposing side's bound: running past it makes further moves
/// irrelevant, since the ancestor will never let this branch be chosen.
pub open spec fn opp_bound(p: Player, alpha: Outcome, beta: Outcome) -> Outcome {
    if p == Player::X {
        beta
    } else {
        alpha
    }
}

/// What a pruned search of `s` within the window `alpha..beta` may report:
/// exact where the true value lies inside the window, and landing on the
/// proper side of a bound wherever the true value lies beyond it.
pub open spec fn bounded_score(
    s: Seq<Player>,
    depth: nat,
    p: Player,
    alpha: Outcome,
    beta: Outcome,
    r: Outcome,
) -> bool {
    let g = gain(p, r);
    let v = gain(p, game_value(s, depth, p));
    &&& g <= imax(v, gain(p, own_bound(p, alpha, beta)))
    &&& g >= imin(v, gain(p, opp_bound(p, alpha, beta)))
}

/// Minimax with alpha-beta pruning: same recursion, but subtrees that
/// cannot change the ancestor's choice are skipped. Called with the full
/// window it returns the same score as plain minimax, and a legal move
/// forcing that score.
pub fn alphabeta(
    board: Board,
    alpha: Outcome,
    beta: Outcome,
    depth: usize,
    player: Player,
) -> (r: (usize, Outcome))
    requires
        board.wf(),
        player != Player::Empty,
        outcome_val(alpha) <= outcome_val(beta),
    ensures
        bounded_score(board@, depth as nat, player, alpha, beta, r.1),
        outcome_val(alpha) == -1 && outcome_val(beta) == 1 ==> r.1 == game_value(
            board@,
            depth as nat,
            player,
        ),
        outcome_val(alpha) == -1 && outcome_val(beta) == 1 && depth > 0 && !is_terminal(board@)
            ==> r.0 < 9 && board@[r.0 as int] == Player::Empty && r.1 == move_value(
            board@,
            depth as nat,
            player,
            r.0 as int,
        ),
    decreases depth,
{
    if depth == 0 || board.finished() {
        return (0, board.score());
    }
    let mut own: Outcome = match player {
        Player::X => alpha,
        _ => beta,
    };
    let other: Outcome = match player {
        Player::X => beta,
        _ => alpha,
    };
    let mut best: Outcome = worst_outcome_for(player);
    let mut idx: usize = 0;
    let mut found: bool = false;
    let mut pruned: bool = false;
    let mut i: usize = 0;
    while i < 9 && !pruned
        invariant
            board.wf(),
            player != Player::Empty,
            depth >= 1,
            !is_terminal(board@),
            outcome_val(alpha) <= outcome_val(beta),
            other == opp_bound(player, alpha, beta),
            i <= 9,
            !pruned ==> own == best_of(player, best, own_bound(player, alpha, beta)),
            gain(player, best) <= imax(
                gain(player, prefix_value(board@, (depth - 1) as nat, player, i as int)),
                gain(player, own_bound(player, alpha, beta)),
            ),
            gain(player, best) >= imin(
                gain(player, prefix_value(board@, (depth - 1) as nat, player, i as int)),
                gain(player, opp_bound(player, alpha, beta)),
            ),
            found ==> idx < i && board@[idx as int] == Player::Empty,
            !found ==> best == worst_for(player) && (forall|j: int|
                0 <= j < i ==> board@[j] != Player::Empty),
            pruned ==> found && gain(player, best) > gain(player, opp_bound(player, alpha, beta)),
            !pruned ==> gain(player, best) <= gain(player, opp_bound(player, alpha, beta)),
            outcome_val(alpha) == -1 && outcome_val(beta) == 1 && found ==> best == move_value(
                board@,
                depth as nat,
                player,
                idx as int,
            ),
        decreases 9 - i,
    {
        if board.cell_is_empty(i) {
            let (a2, b2) = match player {
                Player::X => (own, other),
                _ => (other, own),
            };
            proof {
                lemma_gain_range(player, best);
                lemma_gain_range(player, own_bound(player, alpha, beta));
                lemma_gain_range(player, opp_bound(player, alpha, beta));
            }
            let child = result(board.clone(), i, player);
            let sub = alphabeta(child, a2, b2, depth - 1, opponent(player));
            proof {
                let q = opponent_spec(player);
                let w = move_value(board@, depth as nat, player, i as int);
                lemma_gain_range(player, w);
                lemma_gain_range(player, sub.1);
                assert(game_value(child@, (depth - 1) as nat, q) == w);
                assert(own_bound(q, a2, b2) == other);
                assert(opp_bound(q, a2, b2) == own);
                assert(gain(q, sub.1) == -gain(player, sub.1));
                assert(gain(q, w) == -gain(player, w));
                assert(gain(player, sub.1) >= imin(gain(player, w), gain(player, other)));
                assert(gain(player, sub.1) <= imax(gain(player, w), gain(player, own)));
                if outcome_val(alpha) == -1 && outcome_val(beta) == 1 {
                    if !found || gain(player, sub.1) > gain(player, best) {
                        assert(gain(player, sub.1) == gain(player, w));
                        lemma_gain_injective(player, sub.1, w);
                    }
                }
            }
            if !found || better_for(player, sub.1, best) {
                best = sub.1;
                idx = i;
                found = true;
            }
            if better_for(player, best, other) {
                pruned = true;
            } else if !better_for(player, own, best) {
                own = best;
            }
        }
        i += 1;
    }
    proof {
        let cd = (depth - 1) as nat;
        lemma_value_split(board@, cd, player, i as int);
        lemma_gain_range(player, prefix_value(board@, cd, player, i as int));
        lemma_gain_range(player, value_from(board@, cd, player, i as int));
        lemma_gain_range(player, best);
        if !found {
            assert(board@[0] != Player::Empty);
            assert(crate::board::is_full(board@));
        }
        if outcome_val(alpha) == -1 && outcome_val(beta) == 1 {
            lemma_gain_injective(player, best, game_value(board@, depth as nat, player));
        }
    }
    (idx, best)
}

/// Minimax and alpha-beta agree on the score: a score meeting minimax's
/// contract and one meeting alpha-beta's contract at the full starting
/// window are one and the same outcome, on every board.
pub proof fn lemma_search_scores_agree(
    s: Seq<Player>,
    depth: nat,
    p: Player,
    m: Outcome,
    ab: Outcome,
)
    requires
        p != Player::Empty,
        m == game_value(s, depth, p),
        bounded_score(s, depth, p, Outcome::SecondPlayerWins, Outcome::FirstPlayerWins, ab),
    ensures
        m == ab,
{
    lemma_gain_range(p, m);
    lemma_gain_range(p, ab);
    lemma_gain_injective(p, m, ab);
}

/// Chooses and plays the engine's move. On a finished board this is a
/// no-op; otherwise the chosen algorithm searches the current position and
/// the winning-most move is written onto the real board.
pub fn move_ai(board: &mut Board, ai_player: Player, optimized: bool)
    requires
        old(board).wf(),
        ai_player != Player::Empty,
    ensures
        final(board).wf(),
        is_terminal(old(board)@) ==> final(board)@ == old(board)@,
        !is_terminal(old(board)@) ==> (exists|i: int|
            0 <= i < 9 && old(board)@[i] == Player::Empty && final(board)@ == old(board)@.update(
                i,
                ai_player,
            ) && game_value(final(board)@, (MAX_DEPTH - 1) as nat, opponent_spec(ai_player))
                == game_value(old(board)@, MAX_DEPTH as nat, ai_player)),
{
    if !board.finished() {
        let chosen = if !optimized {
            minimax(board.clone(), MAX_DEPTH, ai_player)
        } else {
            alphabeta(
                board.clone(),
                Outcome::SecondPlayerWins,
                Outcome::FirstPlayerWins,
                MAX_DEPTH,
                ai_player,
            )
        };
        let action = chosen.0;
        let ghost pre = board@;
        let _ = board.place_at(action, ai_player);
        proof {
            assert(0 <= action < 9 && pre[action as int] == Player::Empty && board@ == pre.update(
                action as int,
                ai_player,
            ) && game_value(board@, (MAX_DEPTH - 1) as nat, opponent_spec(ai_player))
                == game_value(pre, MAX_DEPTH as nat, ai_player));
        }
    }
}

} // verus!
