use vstd::prelude::*;
use crate::error::{FenError, MoveError};
use crate::fen::spec_parse_fen;
use crate::game::{ChessGameImpl, GameView, TagsView, lookup_tag};
use crate::position::{ChessBoard, ChessPosition, is_initial_position, on_board, index_of, initial_piece, spec_apply};

verus! {

/// Why a game could not be replayed.
#[derive(Debug, Clone, Copy, PartialEq, Eq, Structural)]
pub enum ScanError {
    /// Its `FEN` tag cannot be read.
    Fen(FenError),
    /// The move of this index cannot be applied.
    Move(usize, MoveError),
    /// Before the move of this index a clock is at its largest value.
    ClockLimit(usize),
}

/// Two positions that are both the standard initial position are equal.
pub proof fn lemma_initial_position_unique(p: ChessPosition, q: ChessPosition)
    requires
        is_initial_position(p),
        is_initial_position(q),
    ensures
        p == q,
{
    assert forall|i: int| 0 <= i < 64 implies p.board.pieces@[i] == q.board.pieces@[i] by {
        let f = i % 8 + 1;
        let k = i / 8 + 1;
        assert(on_board(f, k) && index_of(f, k) == i);
        assert(p.board.at(f, k) == initial_piece(f, k));
        assert(q.board.at(f, k) == initial_piece(f, k));
    }
    assert(p.board.pieces =~= q.board.pieces);
}

/// The standard initial position.
pub open spec fn standard_start() -> ChessPosition {
    choose|p: ChessPosition| is_initial_position(p)
}

/// The position a game with these tags starts from.
pub open spec fn start_position(tags: TagsView) -> Result<ChessPosition, FenError> {
    match lookup_tag(tags, seq!['F', 'E', 'N']) {
        Some(t) => spec_parse_fen(t),
        None => Ok(standard_start()),
    }
}

/// Replaying `moves` from index `k` on `p`: true at the first move after
/// which the board is `target`, false if none; an error for the first move
/// that cannot be applied, or that a clock at its largest value would make
/// overflow.
pub open spec fn replay_from(p: ChessPosition, moves: Seq<Seq<char>>, k: int, target: ChessBoard) -> Result<bool, ScanError>
    decreases moves.len() - k,
{
    if k >= moves.len() || k < 0 {
        Ok(false)
    } else if p.half_move_clock >= 0xffff || p.full_move_number >= 0xffff {
        Err(ScanError::ClockLimit(k as usize))
    } else {
        match spec_apply(p, moves[k]) {
            Err(e) => Err(ScanError::Move(k as usize, e)),
            Ok(q) => if q.board.pieces@ == target.pieces@ {
                Ok(true)
            } else {
                replay_from(q, moves, k + 1, target)
            },
        }
    }
}

/// Whether the game passes through a position with the board `target`.
pub open spec fn spec_contains(g: GameView, target: ChessBoard) -> Result<bool, ScanError> {
    match start_position(g.tags) {
        Err(e) => Err(ScanError::Fen(e)),
        Ok(p) => replay_from(p, g.moves, 0, target),
    }
}

/// Replays the game and tells whether its board is ever that of `position`,
/// side to move and clocks aside.
pub fn contains(game: &ChessGameImpl, position: &ChessPosition) -> (r: Result<bool, ScanError>)
    ensures
        r == spec_contains(game.view(), position.board),
{
    let mut p = match game.initial_position() {
        Ok(p) => p,
        Err(e) => {
            return Err(ScanError::Fen(e));
        },
    };
    proof {
        if lookup_tag(game.view().tags, seq!['F', 'E', 'N']) is None {
            let q = standard_start();
            assert(is_initial_position(q));
            lemma_initial_position_unique(p, q);
        }
    }
    let ghost start = p;
    let ghost moves = game.view().moves;
    let mut k: usize = 0;
    while k < game.moves.len()
        invariant
            k <= game.moves@.len(),
            moves == game.view().moves,
            start_position(game.view().tags) == Ok::<ChessPosition, FenError>(start),
            replay_from(p, moves, k as int, position.board) == replay_from(start, moves, 0, position.board),
        decreases game.moves@.len() - k,
    {
        if p.half_move_clock >= 0xffff || p.full_move_number >= 0xffff {
            return Err(ScanError::ClockLimit(k));
        }
        let err = p.apply_move(game.moves[k].as_str());
        if let Some(e) = err {
            return Err(ScanError::Move(k, e));
        }
        if p.board == position.board {
            return Ok(true);
        }
        k = k + 1;
    }
    Ok(false)
}

/// Whether the game counts as a match: every game when there is no target;
/// else one that passes through the target board. A game that cannot be
/// replayed does not match.
pub open spec fn spec_matches(g: GameView, target: Option<ChessPosition>) -> bool {
    match target {
        None => true,
        Some(t) => spec_contains(g, t.board) == Ok::<bool, ScanError>(true),
    }
}

pub fn is_match(game: &ChessGameImpl, target: &Option<ChessPosition>) -> (r: bool)
    ensures
        r == spec_matches(game.view(), *target),
{
    match target {
        None => true,
        Some(t) => match contains(game, t) {
            Ok(b) => b,
            Err(_) => false,
        },
    }
}

/// How many of `games` match.
pub open spec fn count_matching(games: Seq<GameView>, target: Option<ChessPosition>) -> nat
    decreases games.len(),
{
    if games.len() == 0 {
        0
    } else {
        count_matching(games.drop_last(), target) + if spec_matches(games.last(), target) { 1nat } else { 0nat }
    }
}

pub open spec fn views(games: Seq<ChessGameImpl>) -> Seq<GameView> {
    games.map_values(|g: ChessGameImpl| g.view())
}

/// How many of `games` match `target`.
pub fn count_matches(games: &Vec<ChessGameImpl>, target: &Option<ChessPosition>) -> (r: u64)
    ensures
        r == count_matching(views(games@), *target),
{
    let mut count: u64 = 0;
    let mut i: usize = 0;
    while i < games.len()
        invariant
            i <= games@.len(),
            count <= i,
            count == count_matching(views(games@.subrange(0, i as int)), *target),
        decreases games@.len() - i,
    {
        assert(views(games@.subrange(0, i + 1)).drop_last() =~= views(games@.subrange(0, i as int)));
        if is_match(&games[i], target) {
            count = count + 1;
        }
        i = i + 1;
    }
    assert(games@.subrange(0, games@.len() as int) =~= games@);
    count
}

/// How many of the games that `worker` hands to worker `w` match.
pub open spec fn count_for(games: Seq<GameView>, worker: Seq<nat>, w: nat, target: Option<ChessPosition>) -> nat
    decreases games.len(),
{
    if games.len() == 0 || worker.len() != games.len() {
        0
    } else {
        count_for(games.drop_last(), worker.drop_last(), w, target) + if worker.last() == w && spec_matches(
            games.last(),
            target,
        ) {
            1nat
        } else {
            0nat
        }
    }
}

/// The counts of workers `0..n`, added up.
pub open spec fn sum_workers(games: Seq<GameView>, worker: Seq<nat>, n: nat, target: Option<ChessPosition>) -> nat
    decreases n,
{
    if n == 0 {
        0
    } else {
        sum_workers(games, worker, (n - 1) as nat, target) + count_for(games, worker, (n - 1) as nat, target)
    }
}

proof fn lemma_sum_step(games: Seq<GameView>, worker: Seq<nat>, n: nat, target: Option<ChessPosition>)
    requires
        games.len() > 0,
        worker.len() == games.len(),
    ensures
        sum_workers(games, worker, n, target) == sum_workers(games.drop_last(), worker.drop_last(), n, target) + if worker.last()
            < n && spec_matches(games.last(), target) {
            1nat
        } else {
            0nat
        },
    decreases n,
{
    if n > 0 {
        lemma_sum_step(games, worker, (n - 1) as nat, target);
    }
}

/// However the games are handed out to `n` workers, the workers' counts add
/// up to the count of all the games: counting with one thread or with many
/// gives the same number.
pub proof fn lemma_split_count(games: Seq<GameView>, worker: Seq<nat>, n: nat, target: Option<ChessPosition>)
    requires
        worker.len() == games.len(),
        forall|i: int| 0 <= i < worker.len() ==> worker[i] < n,
    ensures
        sum_workers(games, worker, n, target) == count_matching(games, target),
    decreases games.len(),
{
    if games.len() == 0 {
        lemma_sum_zero(games, worker, n, target);
    } else {
        lemma_sum_step(games, worker, n, target);
        lemma_split_count(games.drop_last(), worker.drop_last(), n, target);
    }
}

proof fn lemma_sum_zero(games: Seq<GameView>, worker: Seq<nat>, n: nat, target: Option<ChessPosition>)
    requires
        games.len() == 0,
    ensures
        sum_workers(games, worker, n, target) == 0,
    decreases n,
{
    if n > 0 {
        lemma_sum_zero(games, worker, (n - 1) as nat, target);
    }
}

} // verus!
