use vstd::prelude::*;
use vstd::array::spec_array_update;
use crate::game_data::{
    on_board, Castle, Game, Gameboard, Piece, PieceData, Position, ThreatMap, ThreatMapView,
    Vector2, WinStatus,
};
use crate::moves::{legal_moves, player_index};
pub use crate::moves::{
    generate_all_moves_and_castle, generate_valid_moves, generate_valid_moves_for_team,
    get_all_valid_moves, get_castle_positions,
};
use crate::parser::{board_fen_text, get_board_fen};
use crate::repetition::{has_repetition, next_count, occurrences};
use crate::threats::{get_position, pawn_direction, shifted, team_threats};
pub use crate::threats::{
    generate_all_moves, generate_all_threats, get_threats, is_square_color, is_square_none,
};

verus! {

/// Whether the move from `start` to `end` passes the first test: both squares lie on the
/// board and differ, a piece of the side to move stands on `start`, and none of its own
/// pieces stands on `end`.
pub open spec fn is_basic_move(game: Game, start: Position, end: Position) -> bool {
    &&& on_board(start)
    &&& on_board(end)
    &&& start != end
    &&& game.is_color_at(start, game.is_white_to_move)
    &&& !game.is_color_at(end, game.is_white_to_move)
}

/// The first test of a move.
pub fn is_valid_move(game: &Game, move_start: &Position, move_end: &Position) -> (r: bool)
    ensures
        r == is_basic_move(*game, *move_start, *move_end),
{
    if move_start.x >= 8 || move_start.y >= 8 || move_end.x >= 8 || move_end.y >= 8 || *move_start
        == *move_end {
        return false;
    }
    let start_piece = game.board[move_start.x][move_start.y];
    if start_piece.is_white != game.is_white_to_move || start_piece.piece == Piece::Empty {
        return false;
    }
    if is_square_color(game, move_end, game.is_white_to_move) {
        return false;
    }
    true
}

/// The first pawn on the rank `y` at or behind the file `x`, if there is one.
pub open spec fn first_pawn_on_rank(game: Game, y: int, x: int) -> Option<Position>
    decreases 8 - x,
{
    if x < 0 || x >= 8 || y < 0 || y >= 8 {
        None
    } else if game.board[x][y].piece == Piece::Pawn {
        Some(Position { x: x as usize, y: y as usize })
    } else {
        first_pawn_on_rank(game, y, x + 1)
    }
}

/// The square of the pawn that waits for its promotion: the first pawn on the rank with
/// index 0 and, where that rank holds none, the first on the rank with index 7.
pub open spec fn promotion_square(game: Game) -> Option<Position> {
    match first_pawn_on_rank(game, 0, 0) {
        Some(p) => Some(p),
        None => first_pawn_on_rank(game, 7, 0),
    }
}

/// The pawn found by `first_pawn_on_rank` stands on the board and is a pawn.
pub proof fn lemma_first_pawn_on_rank(game: Game, y: int, x: int)
    ensures
        match first_pawn_on_rank(game, y, x) {
            Some(p) => on_board(p) && p.y == y && game.at(p).piece == Piece::Pawn,
            None => true,
        },
    decreases 8 - x,
{
    if 0 <= x < 8 && 0 <= y < 8 && game.board[x][y].piece != Piece::Pawn {
        lemma_first_pawn_on_rank(game, y, x + 1);
    }
}

/// The first pawn on the rank `y`, if there is one.
fn pawn_on_rank(game: &Game, y: usize) -> (r: Option<Position>)
    requires
        y < 8,
    ensures
        r == first_pawn_on_rank(*game, y as int, 0),
{
    let mut x: usize = 0;
    while x < 8
        invariant
            x <= 8,
            y < 8,
            first_pawn_on_rank(*game, y as int, 0) == first_pawn_on_rank(*game, y as int, x as int),
        decreases 8 - x,
    {
        if game.board[x][y].piece == Piece::Pawn {
            return Some(Position { x, y });
        }
        x += 1;
    }
    None
}

/// The square of the pawn that waits for its promotion, if there is one.
pub fn get_promotion_pawn(game: &Game) -> (r: Option<Position>)
    ensures
        r == promotion_square(*game),
{
    match pawn_on_rank(game, 0) {
        Some(p) => Some(p),
        None => pawn_on_rank(game, 7),
    }
}

/// Whether a pawn may be promoted to `piece`.
pub open spec fn is_promotion_piece(piece: Piece) -> bool {
    piece == Piece::Bishop || piece == Piece::Knight || piece == Piece::Rook || piece
        == Piece::Queen
}

/// The position after the waiting pawn, if there is one, has become a `promotion` of its
/// colour.
pub open spec fn promoted(game: Game, promotion: Piece) -> Game {
    match promotion_square(game) {
        Some(p) => game.with_piece(
            p,
            PieceData { piece: promotion, is_white: game.at(p).is_white },
        ),
        None => game,
    }
}

/// Promotes the waiting pawn to `promotion`. The result tells whether that was done: it is
/// not where `promotion` is no bishop, knight, rook or queen, or where no pawn waits.
pub fn promote_pawn(game: &mut Game, promotion: Piece) -> (done: bool)
    ensures
        done == (is_promotion_piece(promotion) && promotion_square(*old(game)) is Some),
        done ==> *final(game) == promoted(*old(game), promotion),
        !done ==> *final(game) == *old(game),
{
    if promotion != Piece::Bishop && promotion != Piece::Knight && promotion != Piece::Rook
        && promotion != Piece::Queen {
        return false;
    }
    let position = match get_promotion_pawn(game) {
        Some(pos) => pos,
        None => {
            return false;
        },
    };
    proof {
        lemma_first_pawn_on_rank(*game, 0, 0);
        lemma_first_pawn_on_rank(*game, 7, 0);
    }
    let is_white = game.board[position.x][position.y].is_white;
    game.put(&position, PieceData { piece: promotion, is_white });
    true
}

/// The castling rights `rights` once the rook that started on `pos` has moved or fallen:
/// the right to castle with that rook is gone.
pub open spec fn rights_without_rook(rights: Castle, pos: Position) -> Castle {
    if rights.queen_side_rook == pos {
        Castle { can_castle_queen_side: false, ..rights }
    } else if rights.king_side_rook == pos {
        Castle { can_castle_king_side: false, ..rights }
    } else {
        rights
    }
}

/// The position in which the side `is_white` has the castling rights `rights`.
pub open spec fn with_rights(game: Game, is_white: bool, rights: Castle) -> Game {
    Game { castle: spec_array_update(game.castle, player_index(is_white), rights), ..game }
}

/// The position in which the side `is_white` can no longer castle with the rook that
/// started on `pos`.
pub open spec fn without_castle(game: Game, is_white: bool, pos: Position) -> Game {
    with_rights(game, is_white, rights_without_rook(game.castle[player_index(is_white)], pos))
}

/// Takes from the side `is_white` the right to castle with the rook that started on `pos`.
pub fn remove_castle(game: &mut Game, is_white: bool, pos: Position)
    ensures
        *final(game) == without_castle(*old(game), is_white, pos),
{
    let player_index: usize = if is_white {
        0
    } else {
        1
    };
    let mut castle_status = game.castle[player_index];
    if castle_status.queen_side_rook == pos {
        castle_status.can_castle_queen_side = false;
    } else if castle_status.king_side_rook == pos {
        castle_status.can_castle_king_side = false;
    }
    game.castle[player_index] = castle_status;
    assert(game.castle =~= without_castle(*old(game), is_white, pos).castle);
}

/// The square of the pawn that the pawn going from `start` to `end` takes in passing, if it
/// takes one: `end` is the en-passant target, and a pawn of the other side stands on the
/// square one rank behind `end`, seen from the side that moves.
pub open spec fn en_passant_victim(game: Game, start: Position, end: Position) -> Option<Position> {
    let own = game.at(start).is_white;
    match shifted(end, 0, -pawn_direction(own)) {
        Some(behind) => if game.en_passant_position == Some(end) && game.at(behind).piece
            == Piece::Pawn && game.at(behind).is_white != own {
            Some(behind)
        } else {
            None
        },
        None => None,
    }
}

/// The en-passant target after the piece on `start` has gone to `end`: the square a pawn
/// has passed over where it advanced two ranks on its file, none after any other move.
pub open spec fn next_en_passant(game: Game, start: Position, end: Position) -> Option<Position> {
    let mover = game.at(start);
    let dir = pawn_direction(mover.is_white);
    if mover.piece == Piece::Pawn && end.x == start.x && end.y - start.y == 2 * dir {
        shifted(start, 0, dir)
    } else {
        None
    }
}

/// The rook's home square for the castling in which the king goes from `start` to `end`.
pub open spec fn castling_rook(game: Game, start: Position, end: Position) -> Position {
    let rights = game.castle[player_index(game.at(start).is_white)];
    if end.x - start.x > 1 {
        rights.king_side_rook
    } else {
        rights.queen_side_rook
    }
}

/// The placement after the piece on `start` has gone to `end`.
///
/// A pawn that takes in passing removes its victim. A king that goes two files castles: the
/// rook leaves its home square for the square that the king has passed over. A king that
/// goes more than two files stays where it is. Every other move puts the piece on `end` and
/// empties `start`.
pub open spec fn moved_pieces(game: Game, start: Position, end: Position) -> Game {
    let mover = game.at(start);
    let files = end.x - start.x;
    if mover.piece == Piece::Pawn {
        let cleared = match en_passant_victim(game, start, end) {
            Some(victim) => game.with_piece(victim, PieceData::empty()),
            None => game,
        };
        cleared.with_piece(end, mover).with_piece(start, PieceData::empty())
    } else if mover.piece == Piece::King && (files > 2 || files < -2) {
        game
    } else if mover.piece == Piece::King && (files == 2 || files == -2) {
        let rook_from = castling_rook(game, start, end);
        let rook_to = Position { x: ((start.x + end.x) / 2) as usize, y: end.y };
        game.with_piece(rook_to, game.at(rook_from)).with_piece(end, mover).with_piece(
            rook_from,
            PieceData::empty(),
        ).with_piece(start, PieceData::empty())
    } else {
        game.with_piece(end, mover).with_piece(start, PieceData::empty())
    }
}

/// The castling rights after the piece on `start` has gone to `end`: a king's move ends
/// both rights of its side, a rook's move the right that belongs to its home square, and
/// the capture of a rook the right that the other side had with it.
pub open spec fn moved_rights(game: Game, start: Position, end: Position) -> Game {
    let mover = game.at(start);
    let taken = game.at(end);
    let after_king = if mover.piece == Piece::King {
        with_rights(
            game,
            mover.is_white,
            Castle {
                can_castle_king_side: false,
                can_castle_queen_side: false,
                ..game.castle[player_index(mover.is_white)]
            },
        )
    } else {
        game
    };
    let after_rook = if mover.piece == Piece::Rook {
        without_castle(after_king, mover.is_white, start)
    } else {
        after_king
    };
    if taken.piece == Piece::Rook {
        without_castle(after_rook, taken.is_white, end)
    } else {
        after_rook
    }
}

/// The position after the piece on `start` has gone to `end`, for a move that was found
/// legal before.
///
/// The pieces stand as `moved_pieces` says and the rights are those of `moved_rights`. The
/// half-move clock starts again at 0 after a capture or a pawn's move and counts one up
/// otherwise; the full-move clock counts one up after a move of black. The other side is to
/// move.
pub open spec fn apply_move(game: Game, start: Position, end: Position) -> Game {
    let mover = game.at(start);
    let taken = game.at(end);
    Game {
        board: moved_pieces(game, start, end).board,
        castle: moved_rights(game, start, end).castle,
        is_white_to_move: !mover.is_white,
        en_passant_position: next_en_passant(game, start, end),
        half_move_clock: if taken.piece != Piece::Empty || mover.piece == Piece::Pawn {
            0
        } else {
            (game.half_move_clock + 1) as u16
        },
        full_move_clock: if mover.is_white {
            game.full_move_clock
        } else {
            (game.full_move_clock + 1) as u16
        },
    }
}

/// A position has an en-passant target after a move exactly if a pawn has advanced two
/// ranks on its file with that move; the target is then the square that the pawn has
/// passed over.
pub proof fn lemma_en_passant_only_after_double_advance(game: Game, start: Position, end: Position)
    requires
        on_board(start),
        on_board(end),
    ensures
        apply_move(game, start, end).en_passant_position is Some <==> game.at(start).piece
            == Piece::Pawn && end.x == start.x && end.y - start.y == 2 * pawn_direction(
            game.at(start).is_white,
        ),
        apply_move(game, start, end).en_passant_position is Some ==> apply_move(
            game,
            start,
            end,
        ).en_passant_position == Some(
            Position { x: start.x, y: ((start.y + end.y) / 2) as usize },
        ),
{
}

/// A move leaves the squares that a position names on the board.
pub proof fn lemma_apply_move_wf(game: Game, start: Position, end: Position)
    requires
        game.wf(),
        on_board(start),
        on_board(end),
    ensures
        apply_move(game, start, end).wf(),
{
    let after = apply_move(game, start, end);
    assert forall|i: int| 0 <= i < 2 implies on_board((#[trigger] after.castle[i]).queen_side_rook)
        && on_board(after.castle[i].king_side_rook) by {
        assert(on_board(game.castle[i].queen_side_rook));
        assert(on_board(game.castle[0].queen_side_rook));
        assert(on_board(game.castle[1].queen_side_rook));
    }
}

/// Carries out the move from `move_start` to `move_end` without asking whether it is legal.
/// Nothing happens, and the result is `false`, where `move_start` is empty.
pub fn move_piece_unsafe(game: &mut Game, move_start: Position, move_end: Position) -> (done: bool)
    requires
        old(game).wf(),
        on_board(move_start),
        on_board(move_end),
        old(game).half_move_clock < u16::MAX,
        old(game).full_move_clock < u16::MAX,
    ensures
        done == !old(game).is_empty_at(move_start),
        done ==> *final(game) == apply_move(*old(game), move_start, move_end),
        !done ==> *final(game) == *old(game),
        final(game).wf(),
{
    let start_piece = game.board[move_start.x][move_start.y];
    if start_piece.piece == Piece::Empty {
        return false;
    }
    proof {
        lemma_apply_move_wf(*game, move_start, move_end);
    }
    let is_white = start_piece.is_white;
    let capture_piece = game.board[move_end.x][move_end.y];
    let half_move_clock: u16 = if capture_piece.piece != Piece::Empty || start_piece.piece
        == Piece::Pawn {
        0
    } else {
        game.half_move_clock + 1
    };
    let full_move_clock: u16 = if is_white {
        game.full_move_clock
    } else {
        game.full_move_clock + 1
    };
    let mut en_passant_position: Option<Position> = None;
    let player: usize = if is_white {
        0
    } else {
        1
    };
    let rights = game.castle[player];
    assert(on_board(game.castle[player as int].queen_side_rook));

    if start_piece.piece == Piece::Pawn {
        let move_direction: i8 = if is_white {
            -1
        } else {
            1
        };
        let takes_in_passing = match game.en_passant_position {
            Some(target) => target == move_end,
            None => false,
        };
        if takes_in_passing {
            match get_position(&move_end, &Vector2 { x: 0, y: -move_direction }) {
                Some(real_capture) => {
                    let real_capture_piece_data = game.board[real_capture.x][real_capture.y];
                    if real_capture_piece_data.is_white != is_white && real_capture_piece_data.piece
                        == Piece::Pawn {
                        game.put(&real_capture, PieceData::new_empty());
                    }
                },
                None => {},
            }
        }
        if move_end.x == move_start.x && ((!is_white && move_end.y == move_start.y + 2) || (is_white
            && move_end.y + 2 == move_start.y)) {
            en_passant_position = get_position(&move_start, &Vector2 { x: 0, y: move_direction });
        }
        game.put(&move_end, start_piece);
        game.put(&move_start, PieceData::new_empty());
    } else if start_piece.piece == Piece::King {
        let mut castle_state = rights;
        castle_state.can_castle_king_side = false;
        castle_state.can_castle_queen_side = false;
        game.castle[player] = castle_state;
        let to_king_side = move_end.x > move_start.x;
        let move_distance: usize = if to_king_side {
            move_end.x - move_start.x
        } else {
            move_start.x - move_end.x
        };
        if move_distance <= 1 {
            game.put(&move_end, start_piece);
            game.put(&move_start, PieceData::new_empty());
        } else if move_distance == 2 {
            let new_rook_position = Position { x: (move_start.x + move_end.x) / 2, y: move_end.y };
            let rook_position = if to_king_side {
                rights.king_side_rook
            } else {
                rights.queen_side_rook
            };
            let rook_data = game.board[rook_position.x][rook_position.y];
            game.put(&new_rook_position, rook_data);
            game.put(&move_end, start_piece);
            game.put(&rook_position, PieceData::new_empty());
            game.put(&move_start, PieceData::new_empty());
        }
    } else {
        game.put(&move_end, start_piece);
        game.put(&move_start, PieceData::new_empty());
    }
    assert(game.board == moved_pieces(*old(game), move_start, move_end).board);

    if start_piece.piece == Piece::Rook {
        remove_castle(game, is_white, move_start);
    }
    if capture_piece.piece == Piece::Rook {
        remove_castle(game, capture_piece.is_white, move_end);
    }
    assert(game.castle =~= moved_rights(*old(game), move_start, move_end).castle);

    game.half_move_clock = half_move_clock;
    game.full_move_clock = full_move_clock;
    game.is_white_to_move = !is_white;
    game.en_passant_position = en_passant_position;
    true
}

/// Whether the move from `start` to `end` is accepted in the position `game`, when the
/// other side attacks what `threats` says: no pawn waits for its promotion, the move passes
/// the first test, and `end` is a legal move of the piece on `start`.
pub open spec fn is_accepted_move(
    game: Game,
    threats: ThreatMapView,
    start: Position,
    end: Position,
) -> bool {
    &&& promotion_square(game) is None
    &&& is_basic_move(game, start, end)
    &&& legal_moves(game, threats, start).contains(end)
}

/// The position after the accepted move from `start` to `end`: the move is carried out,
/// and with `auto_promote` a pawn that has moved is promoted to a queen where it now waits
/// for its promotion.
pub open spec fn position_after(
    game: Game,
    start: Position,
    end: Position,
    auto_promote: bool,
) -> Game {
    let moved = apply_move(game, start, end);
    if game.at(start).piece == Piece::Pawn && auto_promote {
        promoted(moved, Piece::Queen)
    } else {
        moved
    }
}

/// Promoting a pawn leaves the squares that a position names on the board.
pub proof fn lemma_promoted_wf(game: Game, promotion: Piece)
    requires
        game.wf(),
    ensures
        promoted(game, promotion).wf(),
{
}

/// Makes the move from `move_start` to `move_end` if it is accepted, and then counts the
/// new position in the table of occurrences. Otherwise nothing changes.
pub fn move_piece(
    game_board: &mut Gameboard,
    move_start: Position,
    move_end: Position,
    other_team_threat_map: &ThreatMap,
    auto_promote: bool,
) -> (moved: bool)
    requires
        old(game_board).wf(),
        old(game_board).game.half_move_clock < u16::MAX,
        old(game_board).game.full_move_clock < u16::MAX,
    ensures
        moved == is_accepted_move(
            old(game_board).game,
            other_team_threat_map@,
            move_start,
            move_end,
        ),
        final(game_board).wf(),
        !moved ==> final(game_board).game == old(game_board).game && final(game_board).same_board@
            == old(game_board).same_board@,
        moved ==> final(game_board).game == position_after(
            old(game_board).game,
            move_start,
            move_end,
            auto_promote,
        ),
        moved ==> final(game_board).same_board@ == old(game_board).same_board@.insert(
            board_fen_text(final(game_board).game),
            next_count(
                occurrences(old(game_board).same_board@, board_fen_text(final(game_board).game)),
            ),
        ),
{
    if get_promotion_pawn(&game_board.game).is_some() {
        return false;
    }
    if !is_valid_move(&game_board.game, &move_start, &move_end) {
        return false;
    }
    if !generate_valid_moves(&game_board.game, other_team_threat_map, &move_start).contains(
        &move_end,
    ) {
        return false;
    }
    let start_piece = game_board.game.board[move_start.x][move_start.y];
    proof {
        lemma_promoted_wf(apply_move(game_board.game, move_start, move_end), Piece::Queen);
    }
    let mut game = game_board.game;
    let done = move_piece_unsafe(&mut game, move_start, move_end);
    assert(done);
    if start_piece.piece == Piece::Pawn && auto_promote {
        promote_pawn(&mut game, Piece::Queen);
    }
    game_board.game = game;
    match get_board_fen(&game_board.game) {
        Some(fen) => {
            game_board.same_board.record(fen);
        },
        None => {},
    }
    true
}

/// Makes the move from `move_start` to `move_end` if it is accepted in view of what the
/// other side attacks, and then counts the new position. Otherwise nothing changes.
pub fn move_piece_no_map(
    game_board: &mut Gameboard,
    move_start: Position,
    move_end: Position,
    auto_promote: bool,
) -> (moved: bool)
    requires
        old(game_board).wf(),
        old(game_board).game.half_move_clock < u16::MAX,
        old(game_board).game.full_move_clock < u16::MAX,
    ensures
        moved == is_accepted_move(
            old(game_board).game,
            team_threats(old(game_board).game, !old(game_board).game.is_white_to_move),
            move_start,
            move_end,
        ),
        final(game_board).wf(),
        !moved ==> final(game_board).game == old(game_board).game && final(game_board).same_board@
            == old(game_board).same_board@,
        moved ==> final(game_board).game == position_after(
            old(game_board).game,
            move_start,
            move_end,
            auto_promote,
        ),
        moved ==> final(game_board).same_board@ == old(game_board).same_board@.insert(
            board_fen_text(final(game_board).game),
            next_count(
                occurrences(old(game_board).same_board@, board_fen_text(final(game_board).game)),
            ),
        ),
{
    let threatmap = generate_all_threats(&game_board.game, !game_board.game.is_white_to_move);
    move_piece(game_board, move_start, move_end, &threatmap, auto_promote)
}

/// Whether the side to move has a legal move, when the other side attacks what `threats`
/// says. Every square counts whose colour flag is that of the side to move.
pub open spec fn can_move_anything(game: Game, threats: ThreatMapView) -> bool {
    exists|p: Position|
        on_board(p) && game.at(p).is_white == game.is_white_to_move && #[trigger] legal_moves(
            game,
            threats,
            p,
        ) != Set::<Position>::empty()
}

/// How the game stands, when the other side attacks what `threats` says and positions have
/// occurred as often as `table` says.
///
/// Without a legal move the side to move has lost if it is in check, and the game is tied
/// if it is not. With a legal move the game is tied once the half-move clock has reached
/// 100, once a position has occurred five times, and, if `force_3_fold_tie` is set, once a
/// position has occurred three times. Otherwise nothing is decided.
pub open spec fn game_state(
    game: Game,
    table: Map<Seq<char>, u8>,
    threats: ThreatMapView,
    force_3_fold_tie: bool,
) -> WinStatus {
    if !can_move_anything(game, threats) {
        if threats.all_king_threats != Set::<Position>::empty() {
            if game.is_white_to_move {
                WinStatus::BlackWon
            } else {
                WinStatus::WhiteWon
            }
        } else {
            WinStatus::Tie
        }
    } else if game.half_move_clock >= 100 {
        WinStatus::Tie
    } else if (force_3_fold_tie && has_repetition(table, 3)) || has_repetition(table, 5) {
        WinStatus::Tie
    } else {
        WinStatus::Nothing
    }
}

/// Whether the side to move has a legal move.
fn has_any_move(game: &Game, other_team_threat_map: &ThreatMap) -> (r: bool)
    ensures
        r == can_move_anything(*game, other_team_threat_map@),
{
    let mut y: usize = 0;
    while y < 8
        invariant
            y <= 8,
            forall|p: Position|
                p.y < y && p.x < 8 && game.at(p).is_white == game.is_white_to_move
                    ==> #[trigger] legal_moves(*game, other_team_threat_map@, p) == Set::<
                    Position,
                >::empty(),
        decreases 8 - y,
    {
        let mut x: usize = 0;
        while x < 8
            invariant
                y < 8,
                x <= 8,
                forall|p: Position|
                    (p.y < y || (p.y == y && p.x < x)) && p.x < 8 && game.at(p).is_white
                        == game.is_white_to_move ==> #[trigger] legal_moves(
                        *game,
                        other_team_threat_map@,
                        p,
                    ) == Set::<Position>::empty(),
            decreases 8 - x,
        {
            let piece_data = game.board[x][y];
            if piece_data.is_white == game.is_white_to_move {
                let moves = generate_valid_moves(game, other_team_threat_map, &Position { x, y });
                if !moves.is_empty() {
                    return true;
                }
            }
            x += 1;
        }
        y += 1;
    }
    false
}

/// How the game stands.
pub fn get_game_state(
    game_board: &Gameboard,
    other_team_threat_map: &ThreatMap,
    force_3_fold_tie: bool,
) -> (status: WinStatus)
    requires
        game_board.same_board.wf(),
    ensures
        status == game_state(
            game_board.game,
            game_board.same_board@,
            other_team_threat_map@,
            force_3_fold_tie,
        ),
{
    if !has_any_move(&game_board.game, other_team_threat_map) {
        if !other_team_threat_map.all_king_threats.is_empty() {
            return if game_board.game.is_white_to_move {
                WinStatus::BlackWon
            } else {
                WinStatus::WhiteWon
            };
        } else {
            return WinStatus::Tie;
        }
    }
    if game_board.game.half_move_clock >= 100 {
        return WinStatus::Tie;
    }
    let max_repetitions = game_board.same_board.max_count();
    if (max_repetitions >= 3 && force_3_fold_tie) || max_repetitions >= 5 {
        return WinStatus::Tie;
    }
    WinStatus::Nothing
}

/// A position that has occurred three times is a tie where three occurrences are made to
/// count, even though the side to move still has a legal move.
pub proof fn lemma_threefold_repetition_is_tie(
    game: Game,
    table: Map<Seq<char>, u8>,
    threats: ThreatMapView,
    position: Seq<char>,
)
    requires
        can_move_anything(game, threats),
        table.contains_key(position),
        table[position] >= 3,
    ensures
        game_state(game, table, threats, true) == WinStatus::Tie,
{
    assert(has_repetition(table, 3));
}

/// A move that brings about a position for the third time ties the game where three
/// occurrences are made to count, whenever the side then to move has a legal move.
pub proof fn lemma_third_occurrence_is_tie(
    before: Map<Seq<char>, u8>,
    game: Game,
    threats: ThreatMapView,
)
    requires
        occurrences(before, board_fen_text(game)) >= 2,
        can_move_anything(game, threats),
    ensures
        game_state(
            game,
            before.insert(
                board_fen_text(game),
                next_count(occurrences(before, board_fen_text(game))),
            ),
            threats,
            true,
        ) == WinStatus::Tie,
{
    let key = board_fen_text(game);
    let after = before.insert(key, next_count(occurrences(before, key)));
    assert(after.contains_key(key) && after[key] >= 3);
    lemma_threefold_repetition_is_tie(game, after, threats, key);
}

} // verus!
