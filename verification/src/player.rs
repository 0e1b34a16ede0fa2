use vstd::prelude::*;

verus! {

/// A cell's occupant: the first player's mark, the second player's mark, or
/// nothing.
#[derive(PartialEq, Eq, Structural, Clone, Copy, Debug)]
pub enum Player {
    X,
    O,
    Empty,
}

/// The definitive outcome of a position, totally ordered so that search can
/// compare outcomes directly: SecondPlayerWins < Draw < FirstPlayerWins.
#[derive(PartialEq, Eq, Structural, Clone, Copy, Debug)]
pub enum Outcome {
    SecondPlayerWins,
    Draw,
    FirstPlayerWins,
}

/// Numeric position of an outcome on the axis from SecondPlayerWins (-1)
/// through Draw (0) to FirstPlayerWins (1).
pub open spec fn outcome_val(o: Outcome) -> int {
    match o {
        Outcome::SecondPlayerWins => -1,
        Outcome::Draw => 0,
        Outcome::FirstPlayerWins => 1,
    }
}

/// The outcome a mark stands for when it completes a line.
pub open spec fn mark_outcome(p: Player) -> Outcome {
    match p {
        Player::X => Outcome::FirstPlayerWins,
        Player::O => Outcome::SecondPlayerWins,
        Player::Empty => Outcome::Draw,
    }
}

/// The mark whose turn follows `p`'s. Every non-X mark hands the turn to X,
/// mirroring how the search alternates sides.
pub open spec fn opponent_spec(p: Player) -> Player {
    if p == Player::X {
        Player::O
    } else {
        Player::X
    }
}

/// How good outcome `o` is from `p`'s side: X maximizes `outcome_val`,
/// every other mark minimizes it.
pub open spec fn gain(p: Player, o: Outcome) -> int {
    if p == Player::X {
        outcome_val(o)
    } else {
        -outcome_val(o)
    }
}

/// The least favourable outcome for `p`: the starting accumulator of a
/// search step, which any explored move at least matches.
pub open spec fn worst_for(p: Player) -> Outcome {
    if p == Player::X {
        Outcome::SecondPlayerWins
    } else {
        Outcome::FirstPlayerWins
    }
}

/// Of two outcomes, the one `p` prefers; `x` on ties.
pub open spec fn best_of(p: Player, x: Outcome, y: Outcome) -> Outcome {
    if gain(p, x) >= gain(p, y) {
        x
    } else {
        y
    }
}

/// A gain always lies between losing (-1) and winning (1).
pub proof fn lemma_gain_range(p: Player, o: Outcome)
    ensures
        -1 <= gain(p, o) <= 1,
{
}

/// For a fixed side, equal gains mean equal outcomes.
pub proof fn lemma_gain_injective(p: Player, a: Outcome, b: Outcome)
    requires
        gain(p, a) == gain(p, b),
    ensures
        a == b,
{
}

impl Player {
    /// The outcome credited to this mark when it owns a full line.
    pub fn score(&self) -> (r: Outcome)
        ensures
            r == mark_outcome(*self),
    {
        match self {
            Player::X => Outcome::FirstPlayerWins,
            Player::O => Outcome::SecondPlayerWins,
            Player::Empty => Outcome::Draw,
        }
    }
}

/// Executable form of `opponent_spec`.
pub fn opponent(p: Player) -> (r: Player)
    ensures
        r == opponent_spec(p),
{
    match p {
        Player::X => Player::O,
        _ => Player::X,
    }
}

/// True when `x` is a strictly better outcome than `y` from `p`'s side.
pub fn better_for(p: Player, x: Outcome, y: Outcome) -> (r: bool)
    ensures
        r == (gain(p, x) > gain(p, y)),
{
    match p {
        Player::X => outcome_gt(x, y),
        _ => outcome_gt(y, x),
    }
}

/// Executable strict comparison on the outcome order.
fn outcome_gt(x: Outcome, y: Outcome) -> (r: bool)
    ensures
        r == (outcome_val(x) > outcome_val(y)),
{
    match (x, y) {
        (Outcome::FirstPlayerWins, Outcome::Draw) => true,
        (Outcome::FirstPlayerWins, Outcome::SecondPlayerWins) => true,
        (Outcome::Draw, Outcome::SecondPlayerWins) => true,
        _ => false,
    }
}

/// Executable form of `worst_for`.
pub fn worst_outcome_for(p: Player) -> (r: Outcome)
    ensures
        r == worst_for(p),
{
    match p {
        Player::X => Outcome::SecondPlayerWins,
        _ => Outcome::FirstPlayerWins,
    }
}

} // verus!
