use vstd::prelude::*;
use crate::game_data::{
    get_moveset, on_board, regular_steps, sliding_steps, Game, Gameboard, Piece, Position,
    ThreatMap, ThreatMapView, Vector2, BLACK_PAWN_Y, WHITE_PAWN_Y,
};
use crate::position_set::PositionSet;

verus! {

/// The square `dx` files and `dy` ranks away from `p`, where that lies on the board.
pub open spec fn shifted(p: Position, dx: int, dy: int) -> Option<Position> {
    if 0 <= p.x + dx < 8 && 0 <= p.y + dy < 8 {
        Some(Position { x: (p.x + dx) as usize, y: (p.y + dy) as usize })
    } else {
        None
    }
}

/// The square one step `d` away from `p`, where that lies on the board.
pub open spec fn stepped(p: Position, d: Vector2) -> Option<Position> {
    shifted(p, d.x as int, d.y as int)
}

/// A step to one of the eight neighbouring squares.
pub open spec fn is_unit_step(d: Vector2) -> bool {
    -1 <= d.x <= 1 && -1 <= d.y <= 1 && (d.x != 0 || d.y != 0)
}

/// The square `k` steps `d` away from `p`, where all squares up to it lie on the board.
pub open spec fn ray_square(p: Position, d: Vector2, k: nat) -> Option<Position>
    decreases k,
{
    if k == 0 {
        Some(p)
    } else {
        match ray_square(p, d, (k - 1) as nat) {
            Some(q) => stepped(q, d),
            None => None,
        }
    }
}

/// The squares one to `n` steps `d` away from `p`.
pub open spec fn ray_prefix(p: Position, d: Vector2, n: nat) -> Set<Position>
    decreases n,
{
    if n == 0 {
        Set::empty()
    } else {
        match ray_square(p, d, n) {
            Some(q) => ray_prefix(p, d, (n - 1) as nat).insert(q),
            None => ray_prefix(p, d, (n - 1) as nat),
        }
    }
}

/// The square `p` and the squares one to `n` steps `d` away from it.
pub open spec fn ray_line(p: Position, d: Vector2, n: nat) -> Set<Position> {
    ray_prefix(p, d, n).insert(p)
}

/// The number of steps `d` from `p` to the first occupied square that is at least `k`
/// steps away, if the ray meets one. A ray has at most seven squares.
pub open spec fn first_blocker(game: Game, p: Position, d: Vector2, k: nat) -> Option<nat>
    decreases 8 - k,
{
    if k >= 8 {
        None
    } else {
        match ray_square(p, d, k) {
            None => None,
            Some(q) => if game.is_empty_at(q) {
                first_blocker(game, p, d, k + 1)
            } else {
                Some(k)
            },
        }
    }
}

/// What the sliding piece on `p` does along the direction `d`.
///
/// It attacks the squares up to the first occupied one, that one included, and can move to
/// them unless its own side holds the last. Where the first occupied square holds the other
/// side's king, the line from `p` to the king is a check, and with the square behind the king
/// it is the full line of the check. Where it holds another piece of the other side and the
/// next occupied square behind it holds that side's king, the line from `p` to the king is a
/// pin.
pub open spec fn ray_map(game: Game, p: Position, d: Vector2) -> ThreatMapView {
    let own = game.at(p).is_white;
    match first_blocker(game, p, d, 1) {
        None => ThreatMapView {
            all_moves: ray_prefix(p, d, 7),
            all_threats: ray_prefix(p, d, 7),
            ..ThreatMapView::empty()
        },
        Some(b) => {
            let target = game.at(ray_square(p, d, b)->0);
            if target.is_white == own {
                ThreatMapView {
                    all_moves: ray_prefix(p, d, (b - 1) as nat),
                    all_threats: ray_prefix(p, d, b),
                    ..ThreatMapView::empty()
                }
            } else if target.piece == Piece::King {
                ThreatMapView {
                    all_moves: ray_prefix(p, d, b),
                    all_threats: ray_prefix(p, d, b),
                    all_pinned: Seq::empty(),
                    all_king_threats: ray_line(p, d, b),
                    all_king_threats_full: ray_line(p, d, b + 1),
                }
            } else {
                ThreatMapView {
                    all_moves: ray_prefix(p, d, b),
                    all_threats: ray_prefix(p, d, b),
                    all_pinned: match first_blocker(game, p, d, b + 1) {
                        Some(c) => {
                            let behind = game.at(ray_square(p, d, c)->0);
                            if behind.is_white != own && behind.piece == Piece::King {
                                seq![ray_line(p, d, c)]
                            } else {
                                Seq::empty()
                            }
                        },
                        None => Seq::empty(),
                    },
                    ..ThreatMapView::empty()
                }
            }
        },
    }
}

/// What the sliding piece on `p` does along the directions `dirs`, taken in order.
pub open spec fn slide_map(game: Game, p: Position, dirs: Seq<Vector2>) -> ThreatMapView
    decreases dirs.len(),
{
    if dirs.len() == 0 {
        ThreatMapView::empty()
    } else {
        slide_map(game, p, dirs.drop_last()).join(ray_map(game, p, dirs.last()))
    }
}

/// What the knight or king on `p` does with the single step `d`.
///
/// It attacks the square it reaches, and can move there unless its own side holds it.
/// Where the other side's king stands there, that square and `p` are a check.
pub open spec fn step_map(game: Game, p: Position, d: Vector2) -> ThreatMapView {
    let own = game.at(p).is_white;
    match stepped(p, d) {
        None => ThreatMapView::empty(),
        Some(t) => ThreatMapView {
            all_moves: if game.is_color_at(t, own) {
                Set::empty()
            } else {
                set![t]
            },
            all_threats: set![t],
            all_pinned: Seq::empty(),
            all_king_threats: if !game.is_color_at(t, own) && game.at(t).piece == Piece::King {
                set![t, p]
            } else {
                Set::empty()
            },
            all_king_threats_full: Set::empty(),
        },
    }
}

/// What the knight or king on `p` does with the steps `steps`, taken in order.
pub open spec fn steps_map(game: Game, p: Position, steps: Seq<Vector2>) -> ThreatMapView
    decreases steps.len(),
{
    if steps.len() == 0 {
        ThreatMapView::empty()
    } else {
        steps_map(game, p, steps.drop_last()).join(step_map(game, p, steps.last()))
    }
}

/// The direction in which the pawns of a side advance: towards rank index 0 for white.
pub open spec fn pawn_direction(is_white: bool) -> int {
    if is_white {
        -1
    } else {
        1
    }
}

/// The rank index on which the pawns of a side start.
pub open spec fn pawn_start_rank(is_white: bool) -> int {
    if is_white {
        6
    } else {
        1
    }
}

/// The squares to which the pawn on `p` can advance: the square ahead where it is empty,
/// and from the start rank the second square ahead where both are empty.
pub open spec fn pawn_advances(game: Game, p: Position) -> Set<Position> {
    let own = game.at(p).is_white;
    let dir = pawn_direction(own);
    match shifted(p, 0, dir) {
        Some(one) => if game.is_empty_at(one) {
            match shifted(p, 0, 2 * dir) {
                Some(two) => if p.y == pawn_start_rank(own) && game.is_empty_at(two) {
                    set![one, two]
                } else {
                    set![one]
                },
                None => set![one],
            }
        } else {
            Set::empty()
        },
        None => Set::empty(),
    }
}

/// What the pawn on `p` does on the square diagonally ahead on the side `dx`.
///
/// It attacks that square. It can move there where a piece of the other side stands on it
/// or where it is the en-passant target. Where the other side's king stands there and the
/// square is not the en-passant target, that square and `p` are a check.
pub open spec fn pawn_capture_map(game: Game, p: Position, dx: int) -> ThreatMapView {
    let own = game.at(p).is_white;
    match shifted(p, dx, pawn_direction(own)) {
        None => ThreatMapView::empty(),
        Some(t) => {
            let en_passant = game.en_passant_position == Some(t);
            ThreatMapView {
                all_moves: if en_passant || game.is_color_at(t, !own) {
                    set![t]
                } else {
                    Set::empty()
                },
                all_threats: set![t],
                all_pinned: Seq::empty(),
                all_king_threats: if !en_passant && !game.is_color_at(t, own) && game.at(t).piece
                    == Piece::King {
                    set![t, p]
                } else {
                    Set::empty()
                },
                all_king_threats_full: Set::empty(),
            }
        },
    }
}

/// What the pawn on `p` does.
pub open spec fn pawn_map(game: Game, p: Position) -> ThreatMapView {
    ThreatMapView { all_moves: pawn_advances(game, p), ..ThreatMapView::empty() }.join(
        pawn_capture_map(game, p, -1),
    ).join(pawn_capture_map(game, p, 1))
}

/// What the piece on `p` does, castling apart; nothing where the square is empty.
pub open spec fn piece_map(game: Game, p: Position) -> ThreatMapView {
    match game.at(p).piece {
        Piece::Empty => ThreatMapView::empty(),
        Piece::Pawn => pawn_map(game, p),
        piece => steps_map(game, p, regular_steps(piece)).join(
            slide_map(game, p, sliding_steps(piece)),
        ),
    }
}

/// The square with the number `i` when the board is read file by file.
pub open spec fn square_of_index(i: nat) -> Position {
    Position { x: (i / 8) as usize, y: (i % 8) as usize }
}

/// What the pieces of the side `is_white` do that stand on the first `n` squares of the
/// board, read file by file.
pub open spec fn team_map(game: Game, is_white: bool, n: nat) -> ThreatMapView
    decreases n,
{
    if n == 0 {
        ThreatMapView::empty()
    } else {
        let before = team_map(game, is_white, (n - 1) as nat);
        let q = square_of_index((n - 1) as nat);
        if game.is_color_at(q, is_white) {
            before.join(piece_map(game, q))
        } else {
            before
        }
    }
}

/// What the side `is_white` does: the moves, attacks, pins and checks of all its pieces.
pub open spec fn team_threats(game: Game, is_white: bool) -> ThreatMapView {
    team_map(game, is_white, 64)
}

impl ThreatMap {
    /// The map that holds nothing.
    pub fn new() -> (m: ThreatMap)
        ensures
            m@ == ThreatMapView::empty(),
    {
        let m = ThreatMap {
            all_moves: PositionSet::new(),
            all_threats: PositionSet::new(),
            all_pinned: Vec::new(),
            all_king_threats: PositionSet::new(),
            all_king_threats_full: PositionSet::new(),
        };
        assert(m@.all_pinned =~= Seq::empty());
        m
    }

    /// Adds to the map what `other` holds; the pins of `other` come last.
    pub fn absorb(&mut self, other: &ThreatMap)
        ensures
            final(self)@ == old(self)@.join(other@),
    {
        self.all_moves.extend(&other.all_moves);
        self.all_threats.extend(&other.all_threats);
        self.all_king_threats.extend(&other.all_king_threats);
        self.all_king_threats_full.extend(&other.all_king_threats_full);
        let mut i: usize = 0;
        while i < other.all_pinned.len()
            invariant
                i <= other.all_pinned.len(),
                self.all_moves@ == old(self).all_moves@.union(other.all_moves@),
                self.all_threats@ == old(self).all_threats@.union(other.all_threats@),
                self.all_king_threats@ == old(self).all_king_threats@.union(
                    other.all_king_threats@,
                ),
                self.all_king_threats_full@ == old(self).all_king_threats_full@.union(
                    other.all_king_threats_full@,
                ),
                self@.all_pinned == old(self)@.all_pinned + other@.all_pinned.take(i as int),
            decreases other.all_pinned.len() - i,
        {
            let ghost before = self@.all_pinned;
            self.all_pinned.push(other.all_pinned[i]);
            assert(self@.all_pinned =~= before.push(other.all_pinned@[i as int]@));
            assert(other@.all_pinned.take(i + 1) =~= other@.all_pinned.take(i as int).push(
                other.all_pinned@[i as int]@,
            ));
            assert(self@.all_pinned =~= old(self)@.all_pinned + other@.all_pinned.take(i + 1));
            i += 1;
        }
        assert(other@.all_pinned.take(other.all_pinned.len() as int) =~= other@.all_pinned);
    }
}

/// The square that lies `offset` away from `pos`, where that is on the board.
pub fn get_position(pos: &Position, offset: &Vector2) -> (r: Option<Position>)
    requires
        on_board(*pos),
    ensures
        r == stepped(*pos, *offset),
{
    let x: i16 = pos.x as i16 + offset.x as i16;
    let y: i16 = pos.y as i16 + offset.y as i16;
    if x < 0 || y < 0 || x >= 8 || y >= 8 {
        return None;
    }
    Some(Position { x: x as usize, y: y as usize })
}

/// Whether no piece stands on `piece_position`.
pub fn is_square_none(game: &Game, piece_position: &Position) -> (r: bool)
    requires
        on_board(*piece_position),
    ensures
        r == game.is_empty_at(*piece_position),
{
    game.board[piece_position.x][piece_position.y].piece == Piece::Empty
}

/// Whether a piece of the colour `is_white` stands on `piece_position`.
pub fn is_square_color(game: &Game, piece_position: &Position, is_white: bool) -> (r: bool)
    requires
        on_board(*piece_position),
    ensures
        r == game.is_color_at(*piece_position, is_white),
{
    let piece_data = game.board[piece_position.x][piece_position.y];
    piece_data.piece != Piece::Empty && piece_data.is_white == is_white
}

/// Every square of a ray lies on the board.
pub proof fn lemma_ray_square_on_board(p: Position, d: Vector2, k: nat)
    requires
        on_board(p),
    ensures
        ray_square(p, d, k) is Some ==> on_board(ray_square(p, d, k)->0),
    decreases k,
{
    if k > 0 {
        lemma_ray_square_on_board(p, d, (k - 1) as nat);
    }
}

/// Every square of a stretch of a ray lies on the board.
pub proof fn lemma_ray_prefix_on_board(p: Position, d: Vector2, n: nat)
    requires
        on_board(p),
    ensures
        forall|q: Position| ray_prefix(p, d, n).contains(q) ==> on_board(q),
    decreases n,
{
    if n > 0 {
        lemma_ray_prefix_on_board(p, d, (n - 1) as nat);
        lemma_ray_square_on_board(p, d, n);
    }
}

/// Every square of a map of single steps lies on the board.
proof fn lemma_steps_moves_on_board(game: Game, p: Position, steps: Seq<Vector2>)
    requires
        on_board(p),
    ensures
        forall|t: Position| steps_map(game, p, steps).all_moves.contains(t) ==> on_board(t),
    decreases steps.len(),
{
    if steps.len() > 0 {
        lemma_steps_moves_on_board(game, p, steps.drop_last());
    }
}

/// Every square of a map of rays lies on the board.
proof fn lemma_slide_moves_on_board(game: Game, p: Position, dirs: Seq<Vector2>)
    requires
        on_board(p),
    ensures
        forall|t: Position| slide_map(game, p, dirs).all_moves.contains(t) ==> on_board(t),
    decreases dirs.len(),
{
    if dirs.len() > 0 {
        lemma_slide_moves_on_board(game, p, dirs.drop_last());
        let d = dirs.last();
        lemma_ray_prefix_on_board(p, d, 7);
        match first_blocker(game, p, d, 1) {
            Some(b) => {
                lemma_ray_prefix_on_board(p, d, b);
                lemma_ray_prefix_on_board(p, d, (b - 1) as nat);
            },
            None => {},
        }
    }
}

/// Every square that a piece can move to lies on the board.
pub proof fn lemma_piece_moves_on_board(game: Game, p: Position)
    requires
        on_board(p),
    ensures
        forall|t: Position| piece_map(game, p).all_moves.contains(t) ==> on_board(t),
{
    let piece = game.at(p).piece;
    lemma_steps_moves_on_board(game, p, regular_steps(piece));
    lemma_slide_moves_on_board(game, p, sliding_steps(piece));
}

/// Looks along the ray from `pos` in direction `d` for the first occupied square behind
/// `start`, which is the square `k` steps away.
fn find_blocker(game: &Game, pos: &Position, d: &Vector2, start: Position, k: usize) -> (r: Option<
    (usize, Position),
>)
    requires
        on_board(*pos),
        k < 8,
        ray_square(*pos, *d, k as nat) == Some(start),
    ensures
        match r {
            Some((b, q)) => k < b < 8 && first_blocker(*game, *pos, *d, (k + 1) as nat) == Some(
                b as nat,
            ) && ray_square(*pos, *d, b as nat) == Some(q) && on_board(q),
            None => first_blocker(*game, *pos, *d, (k + 1) as nat) is None,
        },
{
    let mut cur = start;
    let mut i: usize = k;
    proof {
        lemma_ray_square_on_board(*pos, *d, k as nat);
    }
    while i < 7
        invariant
            k <= i < 8,
            on_board(cur),
            ray_square(*pos, *d, i as nat) == Some(cur),
            first_blocker(*game, *pos, *d, (k + 1) as nat) == first_blocker(
                *game,
                *pos,
                *d,
                (i + 1) as nat,
            ),
        decreases 7 - i,
    {
        match get_position(&cur, d) {
            None => {
                return None;
            },
            Some(t) => {
                assert(ray_square(*pos, *d, (i + 1) as nat) == Some(t));
                if !is_square_none(game, &t) {
                    return Some((i + 1, t));
                }
                cur = t;
                i += 1;
            },
        }
    }
    None
}

/// The squares one to `n` steps `d` away from `pos`.
fn ray_prefix_set(pos: &Position, d: &Vector2, n: usize) -> (s: PositionSet)
    requires
        on_board(*pos),
    ensures
        s@ == ray_prefix(*pos, *d, n as nat),
{
    let mut s = PositionSet::new();
    let mut cur: Option<Position> = Some(*pos);
    let mut i: usize = 0;
    while i < n
        invariant
            i <= n,
            cur == ray_square(*pos, *d, i as nat),
            cur is Some ==> on_board(cur->0),
            s@ == ray_prefix(*pos, *d, i as nat),
        decreases n - i,
    {
        cur =
        match cur {
            Some(q) => get_position(&q, d),
            None => None,
        };
        i += 1;
        match cur {
            Some(q) => {
                s.insert(q);
            },
            None => {},
        }
    }
    s
}

/// Adds to `map` what the sliding piece on `pos` does along the direction `d`.
fn scan_ray(game: &Game, pos: &Position, d: &Vector2, map: &mut ThreatMap)
    requires
        on_board(*pos),
    ensures
        final(map)@ == old(map)@.join(ray_map(*game, *pos, *d)),
{
    let own = game.board[pos.x][pos.y].is_white;
    let mut found = ThreatMap::new();
    match find_blocker(game, pos, d, *pos, 0) {
        None => {
            found.all_moves = ray_prefix_set(pos, d, 7);
            found.all_threats = found.all_moves;
        },
        Some((b, q)) => {
            let target = game.board[q.x][q.y];
            found.all_threats = ray_prefix_set(pos, d, b);
            if target.is_white == own {
                found.all_moves = ray_prefix_set(pos, d, b - 1);
            } else {
                found.all_moves = found.all_threats;
                if target.piece == Piece::King {
                    let mut line = found.all_threats;
                    line.insert(*pos);
                    found.all_king_threats = line;
                    let mut full = ray_prefix_set(pos, d, b + 1);
                    full.insert(*pos);
                    found.all_king_threats_full = full;
                } else {
                    match find_blocker(game, pos, d, q, b) {
                        Some((c, behind_square)) => {
                            let behind = game.board[behind_square.x][behind_square.y];
                            if behind.is_white != own && behind.piece == Piece::King {
                                let mut line = ray_prefix_set(pos, d, c);
                                line.insert(*pos);
                                found.all_pinned.push(line);
                                assert(found@.all_pinned =~= seq![ray_line(*pos, *d, c as nat)]);
                            }
                        },
                        None => {},
                    }
                }
            }
        },
    }
    assert(found@.all_pinned =~= ray_map(*game, *pos, *d).all_pinned);
    assert(found@ == ray_map(*game, *pos, *d));
    map.absorb(&found);
}

/// Adds to `map` what the knight or king on `pos` does with the single step `d`.
fn scan_step(game: &Game, pos: &Position, d: &Vector2, map: &mut ThreatMap)
    requires
        on_board(*pos),
    ensures
        final(map)@ == old(map)@.join(step_map(*game, *pos, *d)),
{
    let own = game.board[pos.x][pos.y].is_white;
    let mut found = ThreatMap::new();
    match get_position(pos, d) {
        None => {},
        Some(t) => {
            if !is_square_color(game, &t, own) {
                if game.board[t.x][t.y].piece == Piece::King {
                    found.all_king_threats.insert(t);
                    found.all_king_threats.insert(*pos);
                }
                found.all_moves.insert(t);
            }
            found.all_threats.insert(t);
        },
    }
    assert(found@.all_moves =~= step_map(*game, *pos, *d).all_moves);
    assert(found@.all_threats =~= step_map(*game, *pos, *d).all_threats);
    assert(found@.all_king_threats =~= step_map(*game, *pos, *d).all_king_threats);
    assert(found@.all_pinned =~= step_map(*game, *pos, *d).all_pinned);
    assert(found@ == step_map(*game, *pos, *d));
    map.absorb(&found);
}

/// Adds to `map` what the pawn on `pos` does on the square diagonally ahead on the side `dx`.
fn scan_pawn_capture(game: &Game, pos: &Position, dx: i8, map: &mut ThreatMap)
    requires
        on_board(*pos),
        -1 <= dx <= 1,
    ensures
        final(map)@ == old(map)@.join(pawn_capture_map(*game, *pos, dx as int)),
{
    let own = game.board[pos.x][pos.y].is_white;
    let move_direction: i8 = if own {
        -1
    } else {
        1
    };
    let mut found = ThreatMap::new();
    match get_position(pos, &Vector2 { x: dx, y: move_direction }) {
        None => {},
        Some(t) => {
            let en_passant = match game.en_passant_position {
                Some(e) => e == t,
                None => false,
            };
            if en_passant {
                found.all_moves.insert(t);
            } else if !is_square_color(game, &t, own) {
                if game.board[t.x][t.y].piece == Piece::King {
                    found.all_king_threats.insert(t);
                    found.all_king_threats.insert(*pos);
                }
                if is_square_color(game, &t, !own) {
                    found.all_moves.insert(t);
                }
            }
            found.all_threats.insert(t);
        },
    }
    let ghost want = pawn_capture_map(*game, *pos, dx as int);
    assert(found@.all_moves =~= want.all_moves);
    assert(found@.all_threats =~= want.all_threats);
    assert(found@.all_king_threats =~= want.all_king_threats);
    assert(found@.all_pinned =~= want.all_pinned);
    assert(found@ == want);
    map.absorb(&found);
}

/// The squares to which the pawn on `pos` can advance.
fn pawn_advance_set(game: &Game, pos: &Position) -> (s: PositionSet)
    requires
        on_board(*pos),
    ensures
        s@ == pawn_advances(*game, *pos),
{
    let own = game.board[pos.x][pos.y].is_white;
    let start_position = if own {
        WHITE_PAWN_Y
    } else {
        BLACK_PAWN_Y
    };
    let move_direction: i8 = if own {
        -1
    } else {
        1
    };
    let mut s = PositionSet::new();
    match get_position(pos, &Vector2 { x: 0, y: move_direction }) {
        None => {},
        Some(one) => {
            if is_square_none(game, &one) {
                s.insert(one);
                if start_position == pos.y {
                    match get_position(pos, &Vector2 { x: 0, y: move_direction * 2 }) {
                        None => {},
                        Some(two) => {
                            if is_square_none(game, &two) {
                                s.insert(two);
                            }
                        },
                    }
                }
            }
        },
    }
    assert(s@ =~= pawn_advances(*game, *pos));
    s
}

/// What the piece on `piece_position` does, castling apart: the squares it can move to,
/// the squares it attacks, the pins it holds and the checks it gives.
pub fn generate_all_moves(game: &Game, piece_position: &Position) -> (map: ThreatMap)
    requires
        on_board(*piece_position),
    ensures
        map@ == piece_map(*game, *piece_position),
{
    let mut map = ThreatMap::new();
    let start_piece = game.board[piece_position.x][piece_position.y];
    if start_piece.piece == Piece::Empty {
        return map;
    }
    if start_piece.piece == Piece::Pawn {
        map.all_moves = pawn_advance_set(game, piece_position);
        scan_pawn_capture(game, piece_position, -1, &mut map);
        scan_pawn_capture(game, piece_position, 1, &mut map);
        return map;
    }
    let moveset = get_moveset(start_piece.piece);
    let mut i: usize = 0;
    while i < moveset.regular_moves.len()
        invariant
            on_board(*piece_position),
            i <= moveset.regular_moves.len(),
            map@ == steps_map(*game, *piece_position, moveset.regular_moves@.take(i as int)),
        decreases moveset.regular_moves.len() - i,
    {
        scan_step(game, piece_position, &moveset.regular_moves[i], &mut map);
        assert(moveset.regular_moves@.take(i + 1).drop_last() =~= moveset.regular_moves@.take(
            i as int,
        ));
        i += 1;
    }
    assert(moveset.regular_moves@.take(i as int) =~= moveset.regular_moves@);
    let ghost stepping = map@;
    let mut j: usize = 0;
    assert(map@ =~= stepping.join(ThreatMapView::empty())) by {
        lemma_join_empty(stepping);
    }
    while j < moveset.inf_moves.len()
        invariant
            on_board(*piece_position),
            j <= moveset.inf_moves.len(),
            map@ == stepping.join(
                slide_map(*game, *piece_position, moveset.inf_moves@.take(j as int)),
            ),
        decreases moveset.inf_moves.len() - j,
    {
        scan_ray(game, piece_position, &moveset.inf_moves[j], &mut map);
        proof {
            assert(moveset.inf_moves@.take(j + 1).drop_last() =~= moveset.inf_moves@.take(
                j as int,
            ));
            lemma_join_assoc(
                stepping,
                slide_map(*game, *piece_position, moveset.inf_moves@.take(j as int)),
                ray_map(*game, *piece_position, moveset.inf_moves@[j as int]),
            );
        }
        j += 1;
    }
    assert(moveset.inf_moves@.take(j as int) =~= moveset.inf_moves@);
    map
}

/// Joining a map with the empty map leaves it as it is.
pub proof fn lemma_join_empty(m: ThreatMapView)
    ensures
        m.join(ThreatMapView::empty()) == m,
        ThreatMapView::empty().join(m) == m,
{
    let e = ThreatMapView::empty();
    assert(m.join(e).all_moves =~= m.all_moves);
    assert(m.join(e).all_threats =~= m.all_threats);
    assert(m.join(e).all_pinned =~= m.all_pinned);
    assert(m.join(e).all_king_threats =~= m.all_king_threats);
    assert(m.join(e).all_king_threats_full =~= m.all_king_threats_full);
    assert(e.join(m).all_moves =~= m.all_moves);
    assert(e.join(m).all_threats =~= m.all_threats);
    assert(e.join(m).all_pinned =~= m.all_pinned);
    assert(e.join(m).all_king_threats =~= m.all_king_threats);
    assert(e.join(m).all_king_threats_full =~= m.all_king_threats_full);
}

/// Joining maps is associative.
pub proof fn lemma_join_assoc(a: ThreatMapView, b: ThreatMapView, c: ThreatMapView)
    ensures
        a.join(b).join(c) == a.join(b.join(c)),
{
    let l = a.join(b).join(c);
    let r = a.join(b.join(c));
    assert(l.all_moves =~= r.all_moves);
    assert(l.all_threats =~= r.all_threats);
    assert(l.all_pinned =~= r.all_pinned);
    assert(l.all_king_threats =~= r.all_king_threats);
    assert(l.all_king_threats_full =~= r.all_king_threats_full);
}

/// What the side `is_white` does: the moves, attacks, pins and checks of all its pieces.
pub fn generate_all_threats(game: &Game, is_white: bool) -> (map: ThreatMap)
    ensures
        map@ == team_threats(*game, is_white),
{
    let mut map = ThreatMap::new();
    let mut x: usize = 0;
    while x < 8
        invariant
            x <= 8,
            map@ == team_map(*game, is_white, (x * 8) as nat),
        decreases 8 - x,
    {
        let mut y: usize = 0;
        while y < 8
            invariant
                x < 8,
                y <= 8,
                map@ == team_map(*game, is_white, (x * 8 + y) as nat),
            decreases 8 - y,
        {
            let position = Position { x, y };
            assert(square_of_index((x * 8 + y) as nat) == position);
            if is_square_color(game, &position, is_white) {
                let piece_threats = generate_all_moves(game, &position);
                map.absorb(&piece_threats);
            }
            y += 1;
        }
        x += 1;
    }
    map
}

/// What the side that is not to move attacks.
pub fn get_threats(game_board: &Gameboard) -> (map: ThreatMap)
    ensures
        map@ == team_threats(game_board.game, !game_board.game.is_white_to_move),
{
    generate_all_threats(&game_board.game, !game_board.game.is_white_to_move)
}

} // verus!
