use vstd::prelude::*;
use crate::game_data::{
    on_board, Game, Gameboard, Piece, Position, ThreatMap, ThreatMapView, Vector2,
};
use crate::position_set::PositionSet;
use crate::threats::{
    generate_all_moves, get_position, is_square_color, lemma_piece_moves_on_board, piece_map,
    shifted,
};

verus! {

/// The square `j` files away from `p` on its rank, towards the king side (higher files) or
/// towards the queen side, where that lies on the board.
pub open spec fn toward(p: Position, king_side: bool, j: int) -> Option<Position> {
    shifted(p, if king_side {
        j
    } else {
        -j
    }, 0)
}

/// The index of a side in the castling rights of a position: 0 for white, 1 for black.
pub open spec fn player_index(is_white: bool) -> int {
    if is_white {
        0
    } else {
        1
    }
}

/// Whether the king of the side `is_white` on `p` may castle to the given side, when the
/// other side attacks what `threats` says.
///
/// The king stands on its home rank and is not in check, the side still has the right, its
/// rook stands on the square recorded for it, on the king's rank and on that side, the
/// squares between king and rook are empty, and of the first two squares on the king's way
/// those up to the rook are not attacked.
pub open spec fn can_castle(
    game: Game,
    threats: ThreatMapView,
    p: Position,
    is_white: bool,
    king_side: bool,
) -> bool {
    let rights = game.castle[player_index(is_white)];
    let rook = if king_side {
        rights.king_side_rook
    } else {
        rights.queen_side_rook
    };
    let distance = if king_side {
        rook.x - p.x
    } else {
        p.x - rook.x
    };
    &&& on_board(p)
    &&& game.at(p).piece == Piece::King
    &&& game.at(p).is_white == is_white
    &&& p.y == (if is_white {
        7int
    } else {
        0int
    })
    &&& if king_side {
        rights.can_castle_king_side
    } else {
        rights.can_castle_queen_side
    }
    &&& !threats.all_king_threats.contains(p)
    &&& on_board(rook)
    &&& rook.y == p.y
    &&& distance >= 1
    &&& game.at(rook).piece == Piece::Rook
    &&& game.at(rook).is_white == is_white
    &&& forall|j: int|
        1 <= j < distance ==> game.is_empty_at((#[trigger] toward(p, king_side, j))->0)
    &&& forall|j: int|
        1 <= j <= distance && j <= 2 ==> !threats.all_threats.contains(
            (#[trigger] toward(p, king_side, j))->0,
        )
    &&& toward(p, king_side, 2) is Some
}

/// The squares to which the king of the side `is_white` on `p` may castle: two files
/// towards each rook with which it may.
pub open spec fn castle_moves(
    game: Game,
    threats: ThreatMapView,
    p: Position,
    is_white: bool,
) -> Set<Position> {
    Set::new(
        |t: Position|
            (can_castle(game, threats, p, is_white, true) && toward(p, true, 2) == Some(t)) || (
            can_castle(game, threats, p, is_white, false) && toward(p, false, 2) == Some(t)),
    )
}

/// The squares the piece on `p` can move to before the safety of its king is looked at:
/// its moves and, for a king, its castling moves. None for a position off the board.
pub open spec fn reachable(game: Game, threats: ThreatMapView, p: Position) -> Set<Position> {
    if !on_board(p) {
        Set::empty()
    } else if game.at(p).piece == Piece::King {
        piece_map(game, p).all_moves.union(castle_moves(game, threats, p, game.at(p).is_white))
    } else {
        piece_map(game, p).all_moves
    }
}

/// The first of the lines `pins` from index `i` on that holds `p`.
pub open spec fn first_pin(pins: Seq<Set<Position>>, p: Position, i: int) -> Option<Set<Position>>
    decreases pins.len() - i,
{
    if i < 0 || i >= pins.len() {
        None
    } else if pins[i].contains(p) {
        Some(pins[i])
    } else {
        first_pin(pins, p, i + 1)
    }
}

/// Whether the piece on `p` may go to the square `t` that it can reach, when the other side
/// attacks what `threats` says.
///
/// In check, a king goes to a square that its own side does not hold and that is not
/// attacked, and that either holds a piece of the other side or lies off the full lines of
/// the checks; another piece does not move if it stands on a pin line, and otherwise goes to
/// a square of a check that its own side does not hold. Out of check, a king goes to a
/// square that is not attacked and does not hold a piece of the other side on a pin line;
/// another piece stays on the first pin line it stands on, if any.
pub open spec fn move_allowed(
    game: Game,
    threats: ThreatMapView,
    p: Position,
    t: Position,
) -> bool {
    let own = game.at(p).is_white;
    let is_king = game.at(p).piece == Piece::King;
    let in_check = threats.all_king_threats != Set::<Position>::empty();
    let pin = first_pin(threats.all_pinned, p, 0);
    if in_check {
        if is_king {
            &&& !game.is_color_at(t, own)
            &&& !threats.all_threats.contains(t)
            &&& game.is_color_at(t, !own) || !threats.all_king_threats_full.contains(t)
        } else {
            &&& pin is None
            &&& !game.is_color_at(t, own)
            &&& threats.all_king_threats.contains(t)
        }
    } else {
        if is_king {
            &&& !threats.all_threats.contains(t)
            &&& !(game.is_color_at(t, !own) && first_pin(threats.all_pinned, t, 0) is Some)
        } else {
            match pin {
                Some(line) => line.contains(t),
                None => true,
            }
        }
    }
}

/// The legal moves of the piece on `p`, when the other side attacks what `threats` says.
pub open spec fn legal_moves(game: Game, threats: ThreatMapView, p: Position) -> Set<Position> {
    Set::new(
        |t: Position| reachable(game, threats, p).contains(t) && move_allowed(game, threats, p, t),
    )
}

/// Some line from index `i` on holds `p` exactly if a first such line exists.
pub proof fn lemma_first_pin(pins: Seq<Set<Position>>, p: Position, i: int)
    requires
        0 <= i,
    ensures
        first_pin(pins, p, i) is Some <==> exists|k: int|
            i <= k < pins.len() && #[trigger] pins[k].contains(p),
        first_pin(pins, p, i) is Some ==> first_pin(pins, p, i)->0.contains(p),
    decreases pins.len() - i,
{
    if i < pins.len() {
        if !pins[i].contains(p) {
            lemma_first_pin(pins, p, i + 1);
        }
    }
}

/// A king never goes to a square that the other side attacks.
pub proof fn lemma_king_avoids_attacked_squares(
    game: Game,
    threats: ThreatMapView,
    p: Position,
    t: Position,
)
    requires
        on_board(p),
        game.at(p).piece == Piece::King,
        legal_moves(game, threats, p).contains(t),
    ensures
        !threats.all_threats.contains(t),
{
}

/// Out of check, a piece other than the king that stands on a pin line stays on a pin
/// line on which it stands; in check, it does not move at all.
pub proof fn lemma_pinned_piece_stays_on_line(
    game: Game,
    threats: ThreatMapView,
    p: Position,
    t: Position,
)
    requires
        on_board(p),
        game.at(p).piece != Piece::King,
        exists|i: int|
            0 <= i < threats.all_pinned.len() && #[trigger] threats.all_pinned[i].contains(p),
        legal_moves(game, threats, p).contains(t),
    ensures
        threats.all_king_threats == Set::<Position>::empty(),
        exists|i: int|
            0 <= i < threats.all_pinned.len() && #[trigger] threats.all_pinned[i].contains(p)
                && threats.all_pinned[i].contains(t),
{
    lemma_first_pin(threats.all_pinned, p, 0);
    lemma_first_pin_is_a_line(threats.all_pinned, p, 0);
}

/// In check, a piece other than the king goes only to a square of a check: it takes the
/// piece that gives check or steps between that piece and the king.
pub proof fn lemma_check_is_answered(game: Game, threats: ThreatMapView, p: Position, t: Position)
    requires
        on_board(p),
        game.at(p).piece != Piece::King,
        threats.all_king_threats != Set::<Position>::empty(),
        legal_moves(game, threats, p).contains(t),
    ensures
        threats.all_king_threats.contains(t),
{
}

/// The first line that holds `p` is one of the lines.
proof fn lemma_first_pin_is_a_line(pins: Seq<Set<Position>>, p: Position, i: int)
    requires
        0 <= i,
    ensures
        first_pin(pins, p, i) is Some ==> exists|k: int|
            i <= k < pins.len() && #[trigger] pins[k].contains(p) && pins[k] == first_pin(
                pins,
                p,
                i,
            )->0,
    decreases pins.len() - i,
{
    if i < pins.len() {
        if !pins[i].contains(p) {
            lemma_first_pin_is_a_line(pins, p, i + 1);
        }
    }
}

/// Every square that a piece can reach lies on the board.
pub proof fn lemma_reachable_on_board(game: Game, threats: ThreatMapView, p: Position)
    ensures
        forall|t: Position| reachable(game, threats, p).contains(t) ==> on_board(t),
{
    if on_board(p) {
        lemma_piece_moves_on_board(game, p);
    }
}

/// The square to which the king on `piece_position` may castle on the given side, if it may.
#[verifier::loop_isolation(false)]
fn castle_side(
    game: &Game,
    other_team_threat_map: &ThreatMap,
    piece_position: &Position,
    is_white: bool,
    king_side: bool,
) -> (r: Option<Position>)
    requires
        on_board(*piece_position),
    ensures
        r == if can_castle(*game, other_team_threat_map@, *piece_position, is_white, king_side) {
            toward(*piece_position, king_side, 2)
        } else {
            None::<Position>
        },
{
    let castle_status = if is_white {
        game.castle[0]
    } else {
        game.castle[1]
    };
    let piece_data = game.board[piece_position.x][piece_position.y];
    let allowed = if king_side {
        castle_status.can_castle_king_side
    } else {
        castle_status.can_castle_queen_side
    };
    let spawn_y: usize = if is_white {
        7
    } else {
        0
    };
    if piece_data.is_white != is_white || piece_data.piece != Piece::King || !allowed || spawn_y
        != piece_position.y || other_team_threat_map.all_king_threats.contains(piece_position) {
        return None;
    }
    let rook_pos = if king_side {
        castle_status.king_side_rook
    } else {
        castle_status.queen_side_rook
    };
    let offset: i8 = if king_side {
        1
    } else {
        -1
    };
    let ghost p = *piece_position;
    let ghost distance = if king_side {
        rook_pos.x - p.x
    } else {
        p.x - rook_pos.x
    };
    let mut cur = *piece_position;
    let mut index: usize = 1;
    while index < 8
        invariant
            1 <= index <= 8,
            on_board(p),
            p == *piece_position,
            cur.y == p.y,
            cur.x == (if king_side {
                p.x + (index - 1)
            } else {
                p.x - (index - 1)
            }),
            on_board(cur),
            offset == (if king_side {
                1i8
            } else {
                -1i8
            }),
            distance == (if king_side {
                rook_pos.x - p.x
            } else {
                p.x - rook_pos.x
            }),
            forall|j: int|
                1 <= j < index ==> game.is_empty_at((#[trigger] toward(p, king_side, j))->0),
            forall|j: int|
                1 <= j < index && j <= 2 ==> !other_team_threat_map@.all_threats.contains(
                    (#[trigger] toward(p, king_side, j))->0,
                ),
            can_castle(*game, other_team_threat_map@, p, is_white, king_side) ==> distance >= index,
        decreases 8 - index,
    {
        let t = match get_position(&cur, &Vector2 { x: offset, y: 0 }) {
            Some(t) => t,
            None => {
                proof {
                    if can_castle(*game, other_team_threat_map@, p, is_white, king_side) {
                        assert(toward(p, king_side, distance) == Some(rook_pos));
                    }
                }
                return None;
            },
        };
        assert(toward(p, king_side, index as int) == Some(t));
        if other_team_threat_map.all_threats.contains(&t) && index <= 2 {
            return None;
        }
        let found = game.board[t.x][t.y];
        if found.is_white == is_white && found.piece == Piece::Rook && t == rook_pos {
            assert(distance == index);
            return get_position(piece_position, &Vector2 { x: 2 * offset, y: 0 });
        } else if found.piece != Piece::Empty {
            proof {
                if can_castle(*game, other_team_threat_map@, p, is_white, king_side) {
                    assert(toward(p, king_side, distance) == Some(rook_pos));
                }
            }
            return None;
        }
        proof {
            if can_castle(*game, other_team_threat_map@, p, is_white, king_side) {
                assert(toward(p, king_side, distance) == Some(rook_pos));
            }
        }
        cur = t;
        index += 1;
    }
    proof {
        if can_castle(*game, other_team_threat_map@, p, is_white, king_side) {
            assert(toward(p, king_side, distance) == Some(rook_pos));
        }
    }
    None
}

/// The squares to which the king of the side `is_white` on `piece_position` may castle.
pub fn get_castle_positions(
    game: &Game,
    other_team_threat_map: &ThreatMap,
    piece_position: &Position,
    is_white: bool,
) -> (moves: PositionSet)
    requires
        on_board(*piece_position),
    ensures
        moves@ == castle_moves(*game, other_team_threat_map@, *piece_position, is_white),
{
    let mut moves = PositionSet::new();
    match castle_side(game, other_team_threat_map, piece_position, is_white, false) {
        Some(t) => {
            moves.insert(t);
        },
        None => {},
    }
    match castle_side(game, other_team_threat_map, piece_position, is_white, true) {
        Some(t) => {
            moves.insert(t);
        },
        None => {},
    }
    assert(moves@ =~= castle_moves(*game, other_team_threat_map@, *piece_position, is_white));
    moves
}

/// The squares the piece on `piece_position` can move to before the safety of its king is
/// looked at.
pub fn generate_all_moves_and_castle(
    game: &Game,
    other_team_threat_map: &ThreatMap,
    piece_position: &Position,
) -> (moves: PositionSet)
    ensures
        moves@ == reachable(*game, other_team_threat_map@, *piece_position),
{
    if piece_position.x >= 8 || piece_position.y >= 8 {
        return PositionSet::new();
    }
    let mut moves = generate_all_moves(game, piece_position).all_moves;
    let start_piece = game.board[piece_position.x][piece_position.y];
    if start_piece.piece == Piece::King {
        let castle_moves = get_castle_positions(
            game,
            other_team_threat_map,
            piece_position,
            start_piece.is_white,
        );
        moves.extend(&castle_moves);
    }
    moves
}

/// The first of the lines `pins` that holds `p`, by its index.
fn find_pin(pins: &Vec<PositionSet>, p: &Position) -> (r: Option<usize>)
    ensures
        match r {
            Some(i) => i < pins@.len() && first_pin(pins@.map_values(|s: PositionSet| s@), *p, 0)
                == Some(pins@[i as int]@),
            None => first_pin(pins@.map_values(|s: PositionSet| s@), *p, 0) is None,
        },
{
    let ghost lines = pins@.map_values(|s: PositionSet| s@);
    let mut i: usize = 0;
    while i < pins.len()
        invariant
            i <= pins.len(),
            lines == pins@.map_values(|s: PositionSet| s@),
            first_pin(lines, *p, 0) == first_pin(lines, *p, i as int),
        decreases pins.len() - i,
    {
        if pins[i].contains(p) {
            return Some(i);
        }
        i += 1;
    }
    None
}

/// Whether the piece on `p` may go to the square `t`.
fn is_move_allowed(game: &Game, threats: &ThreatMap, p: &Position, t: &Position) -> (r: bool)
    requires
        on_board(*p),
        on_board(*t),
    ensures
        r == move_allowed(*game, threats@, *p, *t),
{
    let piece_data = game.board[p.x][p.y];
    let is_white = piece_data.is_white;
    let is_king = piece_data.piece == Piece::King;
    if !threats.all_king_threats.is_empty() {
        if is_king {
            !is_square_color(game, t, is_white) && !threats.all_threats.contains(t) && (
            is_square_color(game, t, !is_white) || !threats.all_king_threats_full.contains(t))
        } else {
            find_pin(&threats.all_pinned, p).is_none() && !is_square_color(game, t, is_white)
                && threats.all_king_threats.contains(t)
        }
    } else {
        if is_king {
            !threats.all_threats.contains(t) && !(is_square_color(game, t, !is_white) && find_pin(
                &threats.all_pinned,
                t,
            ).is_some())
        } else {
            match find_pin(&threats.all_pinned, p) {
                Some(i) => threats.all_pinned[i].contains(t),
                None => true,
            }
        }
    }
}

/// The legal moves of the piece on `piece_position`, when the other side attacks what
/// `other_team_threat_map` says.
pub fn generate_valid_moves(
    game: &Game,
    other_team_threat_map: &ThreatMap,
    piece_position: &Position,
) -> (valid_positions: PositionSet)
    ensures
        valid_positions@ == legal_moves(*game, other_team_threat_map@, *piece_position),
{
    let mut valid_positions = PositionSet::new();
    let all_positions = generate_all_moves_and_castle(game, other_team_threat_map, piece_position);
    proof {
        lemma_reachable_on_board(*game, other_team_threat_map@, *piece_position);
    }
    if all_positions.is_empty() {
        assert(valid_positions@ =~= legal_moves(*game, other_team_threat_map@, *piece_position));
        return valid_positions;
    }
    assert(on_board(*piece_position));
    let candidates = all_positions.to_vec();
    let mut i: usize = 0;
    while i < candidates.len()
        invariant
            i <= candidates.len(),
            on_board(*piece_position),
            forall|t: Position| candidates@.contains(t) <==> all_positions@.contains(t),
            forall|t: Position| all_positions@.contains(t) ==> on_board(t),
            forall|t: Position|
                valid_positions@.contains(t) <==> (exists|k: int|
                    0 <= k < i && candidates@[k] == t) && move_allowed(
                    *game,
                    other_team_threat_map@,
                    *piece_position,
                    t,
                ),
        decreases candidates.len() - i,
    {
        let t = candidates[i];
        assert(candidates@.contains(t));
        if is_move_allowed(game, other_team_threat_map, piece_position, &t) {
            valid_positions.insert(t);
        }
        i += 1;
    }
    assert(valid_positions@ =~= legal_moves(*game, other_team_threat_map@, *piece_position)) by {
        assert forall|t: Position|
            valid_positions@.contains(t) == legal_moves(
                *game,
                other_team_threat_map@,
                *piece_position,
            ).contains(t) by {
            if candidates@.contains(t) {
                let k = choose|k: int| 0 <= k < candidates@.len() && candidates@[k] == t;
                assert(candidates@[k] == t);
            }
        }
    }
    valid_positions
}

/// The legal moves of the piece on `piece_position` in the current position of `game_board`.
pub fn get_all_valid_moves(
    game_board: &Gameboard,
    other_team_threat_map: &ThreatMap,
    piece_position: &Position,
) -> (moves: PositionSet)
    ensures
        moves@ == legal_moves(game_board.game, other_team_threat_map@, *piece_position),
{
    generate_valid_moves(&game_board.game, other_team_threat_map, piece_position)
}

/// The squares to which some piece of the side `is_white` has a legal move, when the other
/// side attacks what `threats` says.
pub open spec fn team_legal_moves(game: Game, threats: ThreatMapView, is_white: bool) -> Set<
    Position,
> {
    Set::new(
        |t: Position|
            exists|p: Position|
                on_board(p) && game.is_color_at(p, is_white) && #[trigger] legal_moves(
                    game,
                    threats,
                    p,
                ).contains(t),
    )
}

/// The squares to which some piece of the side `is_white` has a legal move.
pub fn generate_valid_moves_for_team(
    game: &Game,
    other_team_threat_map: &ThreatMap,
    is_white: bool,
) -> (map: PositionSet)
    ensures
        map@ == team_legal_moves(*game, other_team_threat_map@, is_white),
{
    let mut map = PositionSet::new();
    let mut x: usize = 0;
    while x < 8
        invariant
            x <= 8,
            forall|t: Position|
                map@.contains(t) <==> exists|p: Position|
                    p.x < x && p.y < 8 && game.is_color_at(p, is_white) && #[trigger] legal_moves(
                        *game,
                        other_team_threat_map@,
                        p,
                    ).contains(t),
        decreases 8 - x,
    {
        let mut y: usize = 0;
        while y < 8
            invariant
                x < 8,
                y <= 8,
                forall|t: Position|
                    map@.contains(t) <==> exists|p: Position|
                        (p.x < x || (p.x == x && p.y < y)) && p.y < 8 && game.is_color_at(
                            p,
                            is_white,
                        ) && #[trigger] legal_moves(*game, other_team_threat_map@, p).contains(t),
            decreases 8 - y,
        {
            let pos = Position { x, y };
            let ghost before = map@;
            if is_square_color(game, &pos, is_white) {
                let found = generate_valid_moves(game, other_team_threat_map, &pos);
                map.extend(&found);
            }
            proof {
                assert forall|t: Position|
                    map@.contains(t) <==> exists|p: Position|
                        (p.x < x || (p.x == x && p.y < y + 1)) && p.y < 8 && game.is_color_at(
                            p,
                            is_white,
                        ) && #[trigger] legal_moves(*game, other_team_threat_map@, p).contains(
                            t,
                        ) by {
                    if map@.contains(t) {
                        if before.contains(t) {
                            let p = choose|p: Position|
                                (p.x < x || (p.x == x && p.y < y)) && p.y < 8 && game.is_color_at(
                                    p,
                                    is_white,
                                ) && #[trigger] legal_moves(
                                    *game,
                                    other_team_threat_map@,
                                    p,
                                ).contains(t);
                            assert(legal_moves(*game, other_team_threat_map@, p).contains(t));
                        } else {
                            assert(legal_moves(*game, other_team_threat_map@, pos).contains(t));
                        }
                    }
                    if exists|p: Position|
                        (p.x < x || (p.x == x && p.y < y + 1)) && p.y < 8 && game.is_color_at(
                            p,
                            is_white,
                        ) && #[trigger] legal_moves(*game, other_team_threat_map@, p).contains(
                            t,
                        ) {
                        let p = choose|p: Position|
                            (p.x < x || (p.x == x && p.y < y + 1)) && p.y < 8 && game.is_color_at(
                                p,
                                is_white,
                            ) && #[trigger] legal_moves(*game, other_team_threat_map@, p).contains(
                                t,
                            );
                        if p != pos {
                            assert(legal_moves(*game, other_team_threat_map@, p).contains(t));
                            assert(before.contains(t));
                        }
                    }
                }
            }
            y += 1;
        }
        x += 1;
    }
    assert(map@ =~= team_legal_moves(*game, other_team_threat_map@, is_white)) by {
        assert forall|t: Position|
            map@.contains(t) == team_legal_moves(*game, other_team_threat_map@, is_white).contains(
                t,
            ) by {
            if map@.contains(t) {
                let p = choose|p: Position|
                    p.x < 8 && p.y < 8 && game.is_color_at(p, is_white) && #[trigger] legal_moves(
                        *game,
                        other_team_threat_map@,
                        p,
                    ).contains(t);
                assert(legal_moves(*game, other_team_threat_map@, p).contains(t));
            }
            if team_legal_moves(*game, other_team_threat_map@, is_white).contains(t) {
                let p = choose|p: Position|
                    on_board(p) && game.is_color_at(p, is_white) && #[trigger] legal_moves(
                        *game,
                        other_team_threat_map@,
                        p,
                    ).contains(t);
                assert(legal_moves(*game, other_team_threat_map@, p).contains(t));
            }
        }
    }
    map
}

} // verus!
