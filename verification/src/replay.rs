//! Replay protocol: two mirrored procedures over one shared rule set.
//!
//! Producing a game drives the board to completion with one externally
//! supplied move per human turn and one generator draw per opponent turn,
//! recording the seed and the human moves. Verifying replays a transcript
//! deterministically — the opponent's moves are re-derived from the seed —
//! and decides whether the human side won, failing closed on any defect.

use crate::board::Board;
use crate::board::Cell;
use crate::board::empty_board;
use crate::board::empty_cells_spec;
use crate::board::lemma_empties_after_mark;
use crate::board::lemma_empty_board_empties;
use crate::board::lemma_empty_cells_in_range;
use crate::board::winner_spec;
use crate::codec::GameRound;
use crate::codec::deserialize;
use crate::codec::deserialize_spec;
use crate::codec::lemma_round_trip;
use crate::codec::serialize_spec;
use crate::rng::SimpleRNG;
use crate::rng::next_spec;
use vstd::prelude::*;

verus! {

/// Where a game stands: still open, decided for one side, or drawn.
#[derive(Clone, Copy, PartialEq, Eq, Structural, Debug)]
pub enum GameStatus {
    InProgress,
    HumanWon,
    ComputerWon,
    Draw,
}

/// One transcript move replayed on board `b` with generator state `st`: the
/// human marks cell `m`, and if the game stays open the opponent replies
/// with the draw-selected empty cell. `None` means the human move was
/// illegal; otherwise the new board, state and status are returned.
#[verifier::opaque]
pub open spec fn replay_step(b: Seq<Cell>, st: u64, m: usize) -> Option<(Seq<Cell>, u64, GameStatus)> {
    if !(m < 9 && b[m as int] is Empty) {
        None
    } else {
        let b1 = b.update(m as int, Cell::Z);
        match winner_spec(b1) {
            Some(w) => Some(
                (
                    b1,
                    st,
                    if w == Cell::Z {
                        GameStatus::HumanWon
                    } else {
                        GameStatus::ComputerWon
                    },
                ),
            ),
            None => {
                let e = empty_cells_spec(b1);
                if e.len() == 0 {
                    Some((b1, st, GameStatus::Draw))
                } else {
                    let st1 = next_spec(st);
                    let cm = e[st1 as int % e.len() as int];
                    let b2 = b1.update(cm as int, Cell::K);
                    if winner_spec(b2) == Some(Cell::K) {
                        Some((b2, st1, GameStatus::ComputerWon))
                    } else {
                        Some((b2, st1, GameStatus::InProgress))
                    }
                }
            },
        }
    }
}

/// Replay a whole move list from board `b` and state `st`, stopping at the
/// first decisive outcome; leftover moves past it are ignored. `None` means
/// some replayed human move was illegal.
pub open spec fn replay_moves(b: Seq<Cell>, st: u64, moves: Seq<usize>) -> Option<
    (Seq<Cell>, u64, GameStatus),
>
    decreases moves.len(),
{
    if moves.len() == 0 {
        Some((b, st, GameStatus::InProgress))
    } else {
        match replay_step(b, st, moves[0]) {
            None => None,
            Some(t) => if t.2 is InProgress {
                replay_moves(t.0, t.1, moves.drop_first())
            } else {
                Some(t)
            },
        }
    }
}

/// Whether a transcript records a game the human side won: the replay from
/// a fresh board must reach a human win. An illegal move, a draw, an
/// opponent win or an exhausted move list never wins.
pub open spec fn replay_wins(seed: u64, moves: Seq<usize>) -> bool {
    match replay_moves(empty_board(), seed, moves) {
        None => false,
        Some(t) => t.2 is HumanWon,
    }
}

/// The public verdict of a transcript string: parse it, then replay it; any
/// parse failure folds into `false`.
pub open spec fn verify_spec(s: Seq<char>) -> bool {
    match deserialize_spec(s) {
        Err(_) => false,
        Ok(p) => replay_wins(p.0, p.1),
    }
}

/// The opponent's move: one bounded draw indexes the ascending list of
/// empty cells.
pub fn get_computer_move(board: &Board, rng: &mut SimpleRNG) -> (r: usize)
    requires
        empty_cells_spec(board.cells@).len() > 0,
    ensures
        final(rng).state == next_spec(old(rng).state),
        r == empty_cells_spec(board.cells@)[next_spec(old(rng).state) as int % empty_cells_spec(
            board.cells@,
        ).len() as int],
        r < 9,
        board.cells@[r as int] is Empty,
{
    let empty_cells = board.get_empty_cells();
    let random_index = rng.rand_range(0, empty_cells.len() - 1);
    proof {
        lemma_empty_cells_in_range(board.cells@, 9);
    }
    empty_cells[random_index]
}

/// Replay a parsed transcript and decide whether the human side won.
fn replay_round_wins(seed: u64, moves: &Vec<usize>) -> (r: bool)
    ensures
        r == replay_wins(seed, moves@),
{
    let mut rng = SimpleRNG::new(seed);
    let mut board = Board::new();
    let mut i: usize = 0;
    proof {
        assert(moves@.skip(0) =~= moves@);
    }
    while i < moves.len()
        invariant
            i as int <= moves@.len(),
            replay_wins(seed, moves@) == (match replay_moves(
                board.cells@,
                rng.state,
                moves@.skip(i as int),
            ) {
                None => false,
                Some(t) => t.2 is HumanWon,
            }),
        decreases moves@.len() - i,
    {
        let mv = moves[i];
        proof {
            reveal(replay_step);
            assert(moves@.skip(i as int)[0] == moves@[i as int]);
            assert(moves@.skip(i as int).drop_first() =~= moves@.skip(i + 1));
        }
        if !board.make_move(mv, Cell::Z) {
            return false;
        }
        match board.check_winner() {
            Some(w) => {
                return w == Cell::Z;
            },
            None => {},
        }
        let empty_cells = board.get_empty_cells();
        if empty_cells.len() == 0 {
            return false;
        }
        let cm = get_computer_move(&board, &mut rng);
        board.make_move(cm, Cell::K);
        match board.check_winner() {
            Some(Cell::K) => {
                return false;
            },
            _ => {},
        }
        i += 1;
    }
    false
}

/// The public verdict of a transcript string: `true` iff it parses and its
/// replay ends in a human win. Malformed input, an illegal move, a draw, an
/// opponent win and an unfinished game all yield `false`; nothing is ever
/// raised to the caller.
pub fn verify_player_win(input: &str) -> (r: bool)
    ensures
        r == verify_spec(input@),
{
    match deserialize(input) {
        Err(_) => false,
        Ok(g) => replay_round_wins(g.seed, &g.player_moves),
    }
}

/// A game being produced: the board and generator evolve exactly as the
/// replay of the recorded moves prescribes.
pub struct Game {
    pub board: Board,
    pub rng: SimpleRNG,
    pub seed: u64,
    pub player_moves: Vec<usize>,
    pub status: GameStatus,
}

/// Appending one move to an in-progress replay appends one replay step.
pub proof fn lemma_replay_push(
    b: Seq<Cell>,
    st: u64,
    moves: Seq<usize>,
    m: usize,
    b1: Seq<Cell>,
    st1: u64,
)
    requires
        replay_moves(b, st, moves) == Some((b1, st1, GameStatus::InProgress)),
    ensures
        replay_moves(b, st, moves.push(m)) == replay_step(b1, st1, m),
    decreases moves.len(),
{
    if moves.len() == 0 {
        assert(moves.push(m)[0] == m);
        assert(moves.push(m).drop_first() =~= moves);
        match replay_step(b, st, m) {
            None => {},
            Some(t) => {
                assert(t == (t.0, t.1, t.2));
                if t.2 is InProgress {
                    assert(replay_moves(t.0, t.1, moves) == Some(
                        (t.0, t.1, GameStatus::InProgress),
                    ));
                }
            },
        }
    } else {
        assert(moves.push(m)[0] == moves[0]);
        assert(moves.push(m).drop_first() =~= moves.drop_first().push(m));
        match replay_step(b, st, moves[0]) {
            None => {
                assert(false);
            },
            Some(t) => {
                if t.2 is InProgress {
                    lemma_replay_push(t.0, t.1, moves.drop_first(), m, b1, st1);
                } else {
                    assert(false);
                }
            },
        }
    }
}

/// A game still open after its whole move list has consumed two cells per
/// move: the human's mark and the opponent's reply.
proof fn lemma_open_replay_cells(
    b: Seq<Cell>,
    st: u64,
    moves: Seq<usize>,
    b1: Seq<Cell>,
    st1: u64,
)
    requires
        b.len() == 9,
        replay_moves(b, st, moves) == Some((b1, st1, GameStatus::InProgress)),
    ensures
        empty_cells_spec(b1).len() + 2 * moves.len() == empty_cells_spec(b).len(),
    decreases moves.len(),
{
    reveal(replay_step);
    if moves.len() > 0 {
        match replay_step(b, st, moves[0]) {
            None => {
                assert(false);
            },
            Some(t) => {
                let m = moves[0] as int;
                let bh = b.update(m, Cell::Z);
                let e = empty_cells_spec(bh);
                let cm = e[next_spec(st) as int % e.len() as int];
                lemma_empties_after_mark(b, m, Cell::Z, 9);
                lemma_empty_cells_in_range(bh, 9);
                lemma_empties_after_mark(bh, cm as int, Cell::K, 9);
                lemma_open_replay_cells(t.0, t.1, moves.drop_first(), b1, st1);
            },
        }
    }
}

/// Law: a game still open from a fresh board has at most four recorded
/// moves, two cells being consumed per move; a fifth move always ends the
/// game, so a transcript never outgrows the nine-cell board.
pub proof fn lemma_open_game_length(seed: u64, moves: Seq<usize>, b: Seq<Cell>, st: u64)
    requires
        replay_moves(empty_board(), seed, moves) == Some((b, st, GameStatus::InProgress)),
    ensures
        moves.len() <= 4,
        empty_cells_spec(b).len() + 2 * moves.len() == 9,
{
    lemma_empty_board_empties();
    lemma_open_replay_cells(empty_board(), seed, moves, b, st);
}

impl Game {
    /// The produced state is exactly the replay of the recorded transcript,
    /// and every recorded move is a board index.
    pub open spec fn wf(self) -> bool {
        &&& replay_moves(empty_board(), self.seed, self.player_moves@) == Some(
            (self.board.cells@, self.rng.state, self.status),
        )
        &&& forall|i: int|
            0 <= i < self.player_moves@.len() ==> (#[trigger] self.player_moves@[i]) < 9
    }

    /// Start a game: fresh board, generator seeded with `seed`, no moves
    /// recorded.
    pub fn new(seed: u64) -> (g: Game)
        ensures
            g.wf(),
            g.seed == seed,
            g.status is InProgress,
            g.player_moves@ == Seq::<usize>::empty(),
            g.board.cells@ == empty_board(),
            g.rng.state == seed,
    {
        Game {
            board: Board::new(),
            rng: SimpleRNG::new(seed),
            seed,
            player_moves: Vec::new(),
            status: GameStatus::InProgress,
        }
    }

    /// One full turn of the produced game: the human marks `pos`, the move
    /// is recorded, and if the game stays open the opponent replies with a
    /// generator draw. An illegal `pos` changes nothing and reports `false`
    /// so the driver can ask again.
    pub fn play_human_turn(&mut self, pos: usize) -> (legal: bool)
        requires
            old(self).wf(),
            old(self).status is InProgress,
        ensures
            final(self).wf(),
            final(self).seed == old(self).seed,
            legal == (pos < 9 && old(self).board.cells@[pos as int] is Empty),
            legal ==> final(self).player_moves@ == old(self).player_moves@.push(pos),
            final(self).player_moves@.len() <= 5,
            !legal ==> *final(self) == *old(self),
    {
        proof {
            reveal(replay_step);
            lemma_open_game_length(
                self.seed,
                self.player_moves@,
                self.board.cells@,
                self.rng.state,
            );
            lemma_replay_push(
                empty_board(),
                self.seed,
                self.player_moves@,
                pos,
                self.board.cells@,
                self.rng.state,
            );
        }
        if !self.board.make_move(pos, Cell::Z) {
            return false;
        }
        self.player_moves.push(pos);
        match self.board.check_winner() {
            Some(w) => {
                if w == Cell::Z {
                    self.status = GameStatus::HumanWon;
                } else {
                    self.status = GameStatus::ComputerWon;
                }
            },
            None => {
                let empty_cells = self.board.get_empty_cells();
                if empty_cells.len() == 0 {
                    self.status = GameStatus::Draw;
                } else {
                    let cm = get_computer_move(&self.board, &mut self.rng);
                    self.board.make_move(cm, Cell::K);
                    match self.board.check_winner() {
                        Some(Cell::K) => {
                            self.status = GameStatus::ComputerWon;
                        },
                        _ => {},
                    }
                }
            },
        }
        true
    }

    /// The transcript of the game: its seed and the recorded human moves.
    pub fn into_round(self) -> (r: GameRound)
        ensures
            r.seed == self.seed,
            r.player_moves@ == self.player_moves@,
    {
        GameRound { seed: self.seed, player_moves: self.player_moves }
    }
}

/// Law: a transcript string that fails to parse — a bad seed token or a
/// bad move token — never verifies; the verdict is `false` rather than any
/// error.
pub proof fn lemma_malformed_transcript_fails(s: Seq<char>)
    requires
        deserialize_spec(s) matches Err(_),
    ensures
        !verify_spec(s),
{
}

/// Law: a parsed transcript whose replay reaches an illegal human move —
/// out of range, or onto an already-filled cell — never wins.
pub proof fn lemma_illegal_replay_fails(seed: u64, moves: Seq<usize>)
    requires
        replay_moves(empty_board(), seed, moves) is None,
    ensures
        !replay_wins(seed, moves),
{
}

/// Law: a produced game the human side won serialises to a transcript that
/// verifies.
pub proof fn lemma_won_game_verifies(g: Game)
    requires
        g.wf(),
        g.status is HumanWon,
    ensures
        verify_spec(serialize_spec(g.seed, g.player_moves@)),
{
    lemma_round_trip(g.seed, g.player_moves@);
}

/// Law: a produced game the human side did not win — a draw, an opponent
/// win, or a game still open — serialises to a transcript that never
/// verifies.
pub proof fn lemma_unwon_game_fails(g: Game)
    requires
        g.wf(),
        !(g.status is HumanWon),
    ensures
        !verify_spec(serialize_spec(g.seed, g.player_moves@)),
{
    lemma_round_trip(g.seed, g.player_moves@);
}

} // verus!
