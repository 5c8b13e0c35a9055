use vstd::prelude::*;
use crate::game_data::{on_board, Castle, Game, PieceData, Position};
use crate::logic::{apply_move, move_piece_unsafe};

verus! {

/// What a move has changed: for every square whose content changed, the content it had
/// before, and the rights, the side to move, the en-passant target and the clocks from
/// before the move.
#[derive(Debug)]
pub struct UndoLog {
    pub squares: Vec<(Position, PieceData)>,
    pub castle: [Castle; 2],
    pub is_white_to_move: bool,
    pub en_passant_position: Option<Position>,
    pub half_move_clock: u16,
    pub full_move_clock: u16,
}

/// The position `game` after the contents `pairs` have been put back on their squares, the
/// first `n` of them, in order.
pub open spec fn with_squares(game: Game, pairs: Seq<(Position, PieceData)>, n: nat) -> Game
    decreases n,
{
    if n == 0 || n > pairs.len() {
        game
    } else {
        with_squares(game, pairs, (n - 1) as nat).with_piece(pairs[n - 1].0, pairs[n - 1].1)
    }
}

impl UndoLog {
    /// Every square of the log lies on the board.
    pub open spec fn wf(self) -> bool {
        forall|i: int| 0 <= i < self.squares@.len() ==> on_board(#[trigger] self.squares@[i].0)
    }

    /// The position in which the log has put back what the move changed in `game`.
    pub open spec fn restored(self, game: Game) -> Game {
        Game {
            board: with_squares(game, self.squares@, self.squares@.len()).board,
            castle: self.castle,
            is_white_to_move: self.is_white_to_move,
            en_passant_position: self.en_passant_position,
            half_move_clock: self.half_move_clock,
            full_move_clock: self.full_move_clock,
        }
    }
}

/// Whether the squares before `(x, y)`, read file by file, hold in `cur` what they hold in
/// `before`, and the others what they hold in `after`.
spec fn restored_up_to(before: Game, after: Game, cur: Game, x: int, y: int) -> bool {
    forall|p: Position|
        on_board(p) ==> #[trigger] cur.at(p) == if p.x < x || (p.x == x && p.y < y) {
            before.at(p)
        } else {
            after.at(p)
        }
}

/// Carries out the move from `move_start` to `move_end` as `move_piece_unsafe` does, and
/// hands back the log from which `undo_move` restores the position.
pub fn move_piece_undoable(game: &mut Game, move_start: Position, move_end: Position) -> (log:
    UndoLog)
    requires
        old(game).wf(),
        on_board(move_start),
        on_board(move_end),
        old(game).half_move_clock < u16::MAX,
        old(game).full_move_clock < u16::MAX,
    ensures
        *final(game) == if old(game).is_empty_at(move_start) {
            *old(game)
        } else {
            apply_move(*old(game), move_start, move_end)
        },
        final(game).wf(),
        log.wf(),
        log.restored(*final(game)) == *old(game),
{
    let before = *game;
    move_piece_unsafe(game, move_start, move_end);
    let mut squares: Vec<(Position, PieceData)> = Vec::new();
    let ghost after = *game;
    let mut x: usize = 0;
    while x < 8
        invariant
            x <= 8,
            *game == after,
            forall|i: int| 0 <= i < squares@.len() ==> on_board(#[trigger] squares@[i].0),
            restored_up_to(
                before,
                after,
                with_squares(after, squares@, squares@.len()),
                x as int,
                0,
            ),
        decreases 8 - x,
    {
        let mut y: usize = 0;
        while y < 8
            invariant
                x < 8,
                y <= 8,
                *game == after,
                forall|i: int| 0 <= i < squares@.len() ==> on_board(#[trigger] squares@[i].0),
                restored_up_to(
                    before,
                    after,
                    with_squares(after, squares@, squares@.len()),
                    x as int,
                    y as int,
                ),
            decreases 8 - y,
        {
            let was = before.board[x][y];
            let square = Position { x, y };
            let ghost cur = with_squares(after, squares@, squares@.len());
            let ghost listed = squares@;
            if was != game.board[x][y] {
                squares.push((square, was));
                proof {
                    lemma_with_squares_prefix(after, listed, squares@, listed.len());
                    cur.lemma_with_piece(square, was);
                    assert(with_squares(after, squares@, squares@.len()) == cur.with_piece(
                        square,
                        was,
                    ));
                }
            }
            proof {
                let next = with_squares(after, squares@, squares@.len());
                assert forall|p: Position| on_board(p) implies #[trigger] next.at(p) == if p.x < x
                    || (p.x == x && p.y < y + 1) {
                    before.at(p)
                } else {
                    after.at(p)
                } by {
                    assert(cur.at(p) == if p.x < x || (p.x == x && p.y < y) {
                        before.at(p)
                    } else {
                        after.at(p)
                    });
                    if p == square {
                        assert(after.at(p) == game.board[x as int][y as int]);
                        assert(before.at(p) == was);
                    }
                }
            }
            y += 1;
        }
        proof {
            let cur = with_squares(after, squares@, squares@.len());
            assert forall|p: Position| on_board(p) implies #[trigger] cur.at(p) == if p.x < x + 1
                || (p.x == x + 1 && p.y < 0) {
                before.at(p)
            } else {
                after.at(p)
            } by {}
        }
        x += 1;
    }
    let log = UndoLog {
        squares,
        castle: before.castle,
        is_white_to_move: before.is_white_to_move,
        en_passant_position: before.en_passant_position,
        half_move_clock: before.half_move_clock,
        full_move_clock: before.full_move_clock,
    };
    proof {
        let cur = with_squares(after, log.squares@, log.squares@.len());
        assert(cur.board =~= before.board) by {
            assert forall|i: int| 0 <= i < 8 implies cur.board[i] == before.board[i] by {
                assert forall|j: int| 0 <= j < 8 implies cur.board[i][j] == before.board[i][j] by {
                    let p = Position { x: i as usize, y: j as usize };
                    assert(cur.at(p) == before.at(p));
                }
                assert(cur.board[i] =~= before.board[i]);
            }
        }
    }
    log
}

/// Putting back the first squares of a list does not depend on what follows them.
proof fn lemma_with_squares_prefix(
    game: Game,
    short: Seq<(Position, PieceData)>,
    long: Seq<(Position, PieceData)>,
    n: nat,
)
    requires
        n <= short.len() <= long.len(),
        forall|i: int| 0 <= i < short.len() ==> short[i] == long[i],
    ensures
        with_squares(game, short, n) == with_squares(game, long, n),
    decreases n,
{
    if n > 0 {
        lemma_with_squares_prefix(game, short, long, (n - 1) as nat);
    }
}

/// Takes back the move that `log` was written for.
pub fn undo_move(game: &mut Game, log: &UndoLog)
    requires
        log.wf(),
    ensures
        *final(game) == log.restored(*old(game)),
{
    let mut i: usize = 0;
    while i < log.squares.len()
        invariant
            i <= log.squares.len(),
            log.wf(),
            game.board == with_squares(*old(game), log.squares@, i as nat).board,
        decreases log.squares.len() - i,
    {
        let (square, was) = log.squares[i];
        let ghost cur = *game;
        game.put(&square, was);
        proof {
            let step = with_squares(*old(game), log.squares@, i as nat);
            assert(cur.with_piece(square, was).board == step.with_piece(square, was).board);
        }
        i += 1;
    }
    game.castle = log.castle;
    game.is_white_to_move = log.is_white_to_move;
    game.en_passant_position = log.en_passant_position;
    game.half_move_clock = log.half_move_clock;
    game.full_move_clock = log.full_move_clock;
}

} // verus!
