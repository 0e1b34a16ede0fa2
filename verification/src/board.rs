use vstd::prelude::*;

use crate::player::{mark_outcome, Outcome, Player};

verus! {

/// The 3x3 grid: nine cells indexed 0..9, laid out as three rows of three
/// (index = row * 3 + column).
pub struct Board(Vec<Player>);

/// Why a placement was refused.
#[derive(PartialEq, Eq, Structural, Clone, Copy, Debug)]
pub enum PlaceError {
    AlreadyOccupied,
    InvalidPosition,
}

impl View for Board {
    type V = Seq<Player>;

    closed spec fn view(&self) -> Seq<Player> {
        self.0@
    }
}

/// A board's one structural invariant: exactly nine cells.
pub open spec fn board_wf(s: Seq<Player>) -> bool {
    s.len() == 9
}

/// The cells of a fresh board: all empty.
pub open spec fn empty_board() -> Seq<Player> {
    Seq::new(9, |i: int| Player::Empty)
}

/// Cells `a`, `b`, `c` hold three equal marks of one player.
pub open spec fn line_won(s: Seq<Player>, a: int, b: int, c: int) -> bool {
    s[a] != Player::Empty && s[a] == s[b] && s[a] == s[c]
}

/// The scan of the eight winning lines, in the fixed order rows, columns,
/// then the two diagonals {0,4,8} and {2,4,6}: the outcome of the first
/// fully-owned line found, or Draw when no line is owned.
pub open spec fn evaluate(s: Seq<Player>) -> Outcome {
    if line_won(s, 0, 1, 2) {
        mark_outcome(s[0])
    } else if line_won(s, 3, 4, 5) {
        mark_outcome(s[3])
    } else if line_won(s, 6, 7, 8) {
        mark_outcome(s[6])
    } else if line_won(s, 0, 3, 6) {
        mark_outcome(s[0])
    } else if line_won(s, 1, 4, 7) {
        mark_outcome(s[1])
    } else if line_won(s, 2, 5, 8) {
        mark_outcome(s[2])
    } else if line_won(s, 0, 4, 8) {
        mark_outcome(s[0])
    } else if line_won(s, 2, 4, 6) {
        mark_outcome(s[2])
    } else {
        Outcome::Draw
    }
}

/// Mark `m` owns at least one of the eight lines.
pub open spec fn wins(s: Seq<Player>, m: Player) -> bool {
    ||| line_won(s, 0, 1, 2) && s[0] == m
    ||| line_won(s, 3, 4, 5) && s[3] == m
    ||| line_won(s, 6, 7, 8) && s[6] == m
    ||| line_won(s, 0, 3, 6) && s[0] == m
    ||| line_won(s, 1, 4, 7) && s[1] == m
    ||| line_won(s, 2, 5, 8) && s[2] == m
    ||| line_won(s, 0, 4, 8) && s[0] == m
    ||| line_won(s, 2, 4, 6) && s[2] == m
}

/// No cell is empty.
pub open spec fn is_full(s: Seq<Player>) -> bool {
    forall|i: int| 0 <= i < 9 ==> s[i] != Player::Empty
}

/// The game is over: someone owns a line, or the board is full.
pub open spec fn is_terminal(s: Seq<Player>) -> bool {
    evaluate(s) != Outcome::Draw || is_full(s)
}

/// The placeholder digit shown for empty cell `i`: its 1-based position.
pub open spec fn digit_glyph(i: int) -> char {
    if i == 0 {
        '1'
    } else if i == 1 {
        '2'
    } else if i == 2 {
        '3'
    } else if i == 3 {
        '4'
    } else if i == 4 {
        '5'
    } else if i == 5 {
        '6'
    } else if i == 6 {
        '7'
    } else if i == 7 {
        '8'
    } else {
        '9'
    }
}

/// The character shown for cell `i`: the mark's glyph, or the cell's
/// 1-based position while the cell is empty.
pub open spec fn cell_glyph(p: Player, i: int) -> char {
    match p {
        Player::X => 'X',
        Player::O => 'O',
        Player::Empty => digit_glyph(i),
    }
}

/// The text of the first `n` cells: one character per cell, a newline after
/// every third.
pub open spec fn render_up_to(s: Seq<Player>, n: int) -> Seq<char>
    decreases n,
{
    if n <= 0 {
        Seq::empty()
    } else {
        render_up_to(s, n - 1).push(cell_glyph(s[n - 1], n - 1)) + if n % 3 == 0 {
            seq!['\n']
        } else {
            Seq::<char>::empty()
        }
    }
}

/// The full three-line text of a board.
pub open spec fn render_spec(s: Seq<Player>) -> Seq<char> {
    render_up_to(s, 9)
}

/// The one-character text of cell `index`.
fn glyph_str(p: Player, index: usize) -> (r: &'static str)
    requires
        index < 9,
    ensures
        r@ =~= seq![cell_glyph(p, index as int)],
{
    proof {
        reveal_strlit("X");
        reveal_strlit("O");
        reveal_strlit("1");
        reveal_strlit("2");
        reveal_strlit("3");
        reveal_strlit("4");
        reveal_strlit("5");
        reveal_strlit("6");
        reveal_strlit("7");
        reveal_strlit("8");
        reveal_strlit("9");
    }
    match p {
        Player::X => "X",
        Player::O => "O",
        Player::Empty => match index {
            0 => "1",
            1 => "2",
            2 => "3",
            3 => "4",
            4 => "5",
            5 => "6",
            6 => "7",
            7 => "8",
            _ => "9",
        },
    }
}

/// The empty indices below `n`, in ascending order.
pub open spec fn empties_up_to(s: Seq<Player>, n: int) -> Seq<usize>
    decreases n,
{
    if n <= 0 {
        Seq::empty()
    } else if s[n - 1] == Player::Empty {
        empties_up_to(s, n - 1).push((n - 1) as usize)
    } else {
        empties_up_to(s, n - 1)
    }
}

/// Every legal move: the empty indices of the board, ascending.
pub open spec fn legal_moves(s: Seq<Player>) -> Seq<usize> {
    empties_up_to(s, 9)
}

/// How many cells below `n` hold a mark.
pub open spec fn occupied_up_to(s: Seq<Player>, n: int) -> int
    decreases n,
{
    if n <= 0 {
        0
    } else {
        occupied_up_to(s, n - 1) + if s[n - 1] == Player::Empty {
            0int
        } else {
            1int
        }
    }
}

/// How many cells of the board hold a mark.
pub open spec fn occupied_count(s: Seq<Player>) -> int {
    occupied_up_to(s, 9)
}

proof fn lemma_empties_occupied_split(s: Seq<Player>, n: int)
    requires
        0 <= n,
    ensures
        empties_up_to(s, n).len() + occupied_up_to(s, n) == n,
    decreases n,
{
    if n > 0 {
        lemma_empties_occupied_split(s, n - 1);
    }
}

proof fn lemma_empties_up_to_elements(s: Seq<Player>, n: int)
    requires
        0 <= n <= 9,
    ensures
        forall|k: int| 0 <= k < empties_up_to(s, n).len() ==> (#[trigger] empties_up_to(s, n)[k])
            < n,
        forall|k: int|
            0 <= k < empties_up_to(s, n).len() ==> s[(#[trigger] empties_up_to(s, n)[k]) as int]
                == Player::Empty,
        forall|k1: int, k2: int|
            0 <= k1 < k2 < empties_up_to(s, n).len() ==> (#[trigger] empties_up_to(s, n)[k1])
                < (#[trigger] empties_up_to(s, n)[k2]),
        forall|i: int|
            0 <= i < n && s[i] == Player::Empty ==> empties_up_to(s, n).contains(i as usize),
    decreases n,
{
    if n > 0 {
        lemma_empties_up_to_elements(s, n - 1);
        let prev = empties_up_to(s, n - 1);
        let cur = empties_up_to(s, n);
        if s[n - 1] == Player::Empty {
            assert(cur == prev.push((n - 1) as usize));
            assert forall|i: int| 0 <= i < n && s[i] == Player::Empty implies cur.contains(
                i as usize,
            ) by {
                if i < n - 1 {
                    let k = choose|k: int| 0 <= k < prev.len() && prev[k] == i as usize;
                    assert(cur[k] == i as usize);
                } else {
                    assert(cur[cur.len() - 1] == i as usize);
                }
            }
        } else {
            assert(cur == prev);
        }
        assert forall|k: int|
            0 <= k < empties_up_to(s, n).len() implies ((#[trigger] empties_up_to(s, n)[k]) < n
            && s[empties_up_to(s, n)[k] as int] == Player::Empty) by {
            if k < prev.len() {
                assert(cur[k] == prev[k]);
            }
        }
        assert forall|k1: int, k2: int|
            0 <= k1 < k2 < empties_up_to(s, n).len() implies (#[trigger] empties_up_to(s, n)[k1])
            < (#[trigger] empties_up_to(s, n)[k2]) by {
            assert(cur[k1] == prev[k1]);
            if k2 < prev.len() {
                assert(cur[k2] == prev[k2]);
            }
        }
    }
}

/// The legal moves are exactly the board's empty cells, in ascending order.
pub proof fn lemma_legal_moves_characterize(s: Seq<Player>)
    requires
        board_wf(s),
    ensures
        forall|k: int|
            0 <= k < legal_moves(s).len() ==> #[trigger] legal_moves(s)[k] < 9 && s[legal_moves(
                s,
            )[k] as int] == Player::Empty,
        forall|k1: int, k2: int|
            0 <= k1 < k2 < legal_moves(s).len() ==> legal_moves(s)[k1] < legal_moves(s)[k2],
        forall|i: int| 0 <= i < 9 && s[i] == Player::Empty ==> legal_moves(s).contains(i as usize),
{
    lemma_empties_up_to_elements(s, 9);
}

/// A board is full exactly when it offers no legal move.
pub proof fn lemma_full_iff_no_moves(s: Seq<Player>)
    requires
        board_wf(s),
    ensures
        is_full(s) <==> legal_moves(s).len() == 0,
{
    lemma_legal_moves_characterize(s);
    if legal_moves(s).len() > 0 {
        assert(s[legal_moves(s)[0] as int] == Player::Empty);
    }
    if !is_full(s) {
        let i = choose|i: int| 0 <= i < 9 && s[i] == Player::Empty;
        assert(legal_moves(s).contains(i as usize));
    }
}

/// Every cell is either a legal move or occupied: on any board the number
/// of legal moves plus the number of occupied cells is nine.
pub proof fn lemma_legal_moves_partition(s: Seq<Player>)
    requires
        board_wf(s),
    ensures
        legal_moves(s).len() + occupied_count(s) == 9,
{
    lemma_empties_occupied_split(s, 9);
}

/// Evaluation is a pure function of the cells: two evaluations of one board,
/// with no placement in between, return one and the same outcome.
pub proof fn lemma_evaluate_idempotent(s: Seq<Player>, r1: Outcome, r2: Outcome)
    requires
        r1 == evaluate(s),
        r2 == evaluate(s),
    ensures
        r1 == r2,
{
}

/// Terminal detection is a pure function of the cells: two checks of one
/// board, with no placement in between, agree.
pub proof fn lemma_terminal_idempotent(s: Seq<Player>, r1: bool, r2: bool)
    requires
        r1 == is_terminal(s),
        r2 == is_terminal(s),
    ensures
        r1 == r2,
{
}

/// A board evaluates to Draw exactly when no line is fully owned; a non-Draw
/// evaluation names a mark that owns a line.
pub proof fn lemma_draw_iff_no_winner(s: Seq<Player>)
    ensures
        (evaluate(s) == Outcome::Draw) <==> (!wins(s, Player::X) && !wins(s, Player::O)),
        evaluate(s) == Outcome::FirstPlayerWins ==> wins(s, Player::X),
        evaluate(s) == Outcome::SecondPlayerWins ==> wins(s, Player::O),
{
}

/// One placement on a board with no owned line can hand a line only to the
/// mark just placed: both marks can never own lines at once afterwards.
pub proof fn lemma_place_no_double_win(s: Seq<Player>, i: int, m: Player)
    requires
        board_wf(s),
        evaluate(s) == Outcome::Draw,
        0 <= i < 9,
        s[i] == Player::Empty,
        m != Player::Empty,
    ensures
        !(wins(s.update(i, m), Player::X) && wins(s.update(i, m), Player::O)),
{
    lemma_draw_iff_no_winner(s);
}

/// From board `s` with `p` to move, `moves` is a sequence of placements the
/// rules allow: each is made on a running (non-terminal) board, into an
/// empty cell, by the side whose turn it is.
pub open spec fn playable_from(s: Seq<Player>, moves: Seq<int>, p: Player) -> bool
    decreases moves.len(),
{
    moves.len() == 0 || {
        &&& !is_terminal(s)
        &&& 0 <= moves[0] < 9
        &&& s[moves[0]] == Player::Empty
        &&& p != Player::Empty
        &&& playable_from(s.update(moves[0], p), moves.drop_first(), crate::player::opponent_spec(p))
    }
}

/// The board that results from playing `moves` out from `s`, sides
/// alternating starting with `p`.
pub open spec fn play_from(s: Seq<Player>, moves: Seq<int>, p: Player) -> Seq<Player>
    decreases moves.len(),
{
    if moves.len() == 0 {
        s
    } else {
        play_from(s.update(moves[0], p), moves.drop_first(), crate::player::opponent_spec(p))
    }
}

/// No board reachable by alternating legal placements ever has both marks
/// owning lines at once.
pub proof fn lemma_reachable_no_double_win(s: Seq<Player>, moves: Seq<int>, p: Player)
    requires
        board_wf(s),
        playable_from(s, moves, p),
        !(wins(s, Player::X) && wins(s, Player::O)),
    ensures
        !(wins(play_from(s, moves, p), Player::X) && wins(play_from(s, moves, p), Player::O)),
    decreases moves.len(),
{
    if moves.len() > 0 {
        let s1 = s.update(moves[0], p);
        lemma_place_no_double_win(s, moves[0], p);
        lemma_reachable_no_double_win(s1, moves.drop_first(), crate::player::opponent_spec(p));
    }
}

/// A game played out from the empty board never reaches a board where both
/// marks own lines.
pub proof fn lemma_game_no_double_win(moves: Seq<int>)
    requires
        playable_from(empty_board(), moves, Player::X),
    ensures
        !(wins(play_from(empty_board(), moves, Player::X), Player::X) && wins(
            play_from(empty_board(), moves, Player::X),
            Player::O,
        )),
{
    lemma_reachable_no_double_win(empty_board(), moves, Player::X);
}

impl Board {
    /// The structural invariant, phrased on the value itself.
    pub open spec fn wf(&self) -> bool {
        board_wf(self@)
    }

    /// Writes `player` into cell `index`. Refuses an index outside 0..9 and
    /// a cell already holding a mark; on refusal the board is unchanged.
    pub fn place_at(&mut self, index: usize, player: Player) -> (r: Result<(), PlaceError>)
        requires
            old(self).wf(),
        ensures
            final(self).wf(),
            index >= 9 ==> final(self)@ == old(self)@ && (r matches Err(e) && e
                == PlaceError::InvalidPosition),
            index < 9 && old(self)@[index as int] != Player::Empty ==> final(self)@ == old(self)@
                && (r matches Err(e) && e == PlaceError::AlreadyOccupied),
            index < 9 && old(self)@[index as int] == Player::Empty ==> r is Ok && final(self)@
                == old(self)@.update(index as int, player),
    {
        if index >= self.0.len() {
            return Err(PlaceError::InvalidPosition);
        }
        if self.0[index] != Player::Empty {
            return Err(PlaceError::AlreadyOccupied);
        }
        self.0.set(index, player);
        Ok(())
    }

    /// Every legal move of the board at the moment of the call: the empty
    /// indices, in ascending order.
    pub fn empty_positions(&self) -> (r: Vec<usize>)
        requires
            self.wf(),
        ensures
            r@ == legal_moves(self@),
            r@.len() + occupied_count(self@) == 9,
    {
        let mut r: Vec<usize> = Vec::new();
        let mut i: usize = 0;
        while i < 9
            invariant
                self.wf(),
                i <= 9,
                r@ == empties_up_to(self@, i as int),
            decreases 9 - i,
        {
            if self.0[i] == Player::Empty {
                r.push(i);
            }
            i += 1;
        }
        proof {
            lemma_legal_moves_partition(self@);
        }
        r
    }

    /// Scans the eight lines in the fixed order and reports the first fully
    /// owned one's outcome, or Draw. Reads the board only.
    pub fn score(&self) -> (r: Outcome)
        requires
            self.wf(),
        ensures
            r == evaluate(self@),
    {
        let s = &self.0;
        if s[0] != Player::Empty && s[0] == s[1] && s[0] == s[2] {
            s[0].score()
        } else if s[3] != Player::Empty && s[3] == s[4] && s[3] == s[5] {
            s[3].score()
        } else if s[6] != Player::Empty && s[6] == s[7] && s[6] == s[8] {
            s[6].score()
        } else if s[0] != Player::Empty && s[0] == s[3] && s[0] == s[6] {
            s[0].score()
        } else if s[1] != Player::Empty && s[1] == s[4] && s[1] == s[7] {
            s[1].score()
        } else if s[2] != Player::Empty && s[2] == s[5] && s[2] == s[8] {
            s[2].score()
        } else if s[0] != Player::Empty && s[0] == s[4] && s[0] == s[8] {
            s[0].score()
        } else if s[2] != Player::Empty && s[2] == s[4] && s[2] == s[6] {
            s[2].score()
        } else {
            Outcome::Draw
        }
    }

    /// True when cell `index` holds no mark.
    pub fn cell_is_empty(&self, index: usize) -> (r: bool)
        requires
            self.wf(),
            index < 9,
        ensures
            r == (self@[index as int] == Player::Empty),
    {
        self.0[index] == Player::Empty
    }

    /// The human-readable three-line text of the board: occupied cells show
    /// the mark's glyph, empty cells their 1-based position number.
    pub fn render(&self) -> (r: String)
        requires
            self.wf(),
        ensures
            r@ == render_spec(self@),
    {
        let mut r = String::new();
        let mut i: usize = 0;
        while i < 9
            invariant
                self.wf(),
                i <= 9,
                r@ == render_up_to(self@, i as int),
            decreases 9 - i,
        {
            let cell = self.0[i];
            r.append(glyph_str(cell, i));
            if i % 3 == 2 {
                proof {
                    reveal_strlit("\n");
                }
                r.append("\n");
            }
            proof {
                assert(r@ =~= render_up_to(self@, i as int + 1));
            }
            i += 1;
        }
        r
    }

    /// The game is over: a line is owned, or no legal move is left.
    pub fn finished(&self) -> (r: bool)
        requires
            self.wf(),
        ensures
            r == is_terminal(self@),
    {
        if self.score() != Outcome::Draw {
            return true;
        }
        let mut i: usize = 0;
        while i < 9
            invariant
                self.wf(),
                i <= 9,
                evaluate(self@) == Outcome::Draw,
                forall|j: int| 0 <= j < i ==> self@[j] != Player::Empty,
            decreases 9 - i,
        {
            if self.0[i] == Player::Empty {
                return false;
            }
            i += 1;
        }
        true
    }
}

impl Default for Board {
    /// A fresh board: nine empty cells.
    fn default() -> (r: Self)
        ensures
            r@ == empty_board(),
            r.wf(),
    {
        let mut cells: Vec<Player> = Vec::new();
        let mut i: usize = 0;
        while i < 9
            invariant
                i <= 9,
                cells@.len() == i,
                forall|j: int| 0 <= j < i ==> cells@[j] == Player::Empty,
            decreases 9 - i,
        {
            cells.push(Player::Empty);
            i += 1;
        }
        proof {
            assert(cells@ =~= empty_board());
        }
        Board(cells)
    }
}

impl Clone for Board {
    /// A deep copy: the clone holds the same nine cells.
    fn clone(&self) -> (r: Self)
        ensures
            r@ == self@,
    {
        let mut cells: Vec<Player> = Vec::new();
        let mut i: usize = 0;
        while i < self.0.len()
            invariant
                i <= self.0@.len(),
                cells@.len() == i,
                forall|j: int| 0 <= j < i ==> cells@[j] == self.0@[j],
            decreases self.0@.len() - i,
        {
            cells.push(self.0[i]);
            i += 1;
        }
        proof {
            assert(cells@ =~= self@);
        }
        Board(cells)
    }
}

} // verus!
