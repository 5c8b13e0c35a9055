use vstd::prelude::*;
use crate::game_data::{
    on_board, regular_steps, sliding_steps, Game, Piece, Position, ThreatMapView, Vector2,
};
use crate::threats::{
    first_blocker, is_unit_step, lemma_ray_square_on_board, pawn_capture_map, pawn_map, piece_map,
    ray_map, ray_prefix, ray_square, shifted, slide_map, square_of_index, step_map, stepped,
    steps_map, team_map, team_threats,
};

verus! {

/// The square `k` steps `d` away from `p` is the square `k` times `d` away from `p`, and
/// there is none where that lies off the board.
pub proof fn lemma_ray_square_closed_form(p: Position, d: Vector2, k: nat)
    requires
        on_board(p),
    ensures
        ray_square(p, d, k) == shifted(p, k * d.x, k * d.y),
    decreases k,
{
    if k > 0 {
        lemma_ray_square_closed_form(p, d, (k - 1) as nat);
        let j = (k - 1) as int;
        let dx = d.x as int;
        let dy = d.y as int;
        assert(k * dx == j * dx + dx) by (nonlinear_arith)
            requires
                k == j + 1,
        ;
        assert(k * dy == j * dy + dy) by (nonlinear_arith)
            requires
                k == j + 1,
        ;
        // Along each axis the squares of a ray move one way only: once off the board, the
        // ray stays off it.
        assert(dx >= 0 ==> j * dx >= 0) by (nonlinear_arith)
            requires
                j >= 0,
        ;
        assert(dx <= 0 ==> j * dx <= 0) by (nonlinear_arith)
            requires
                j >= 0,
        ;
        assert(dy >= 0 ==> j * dy >= 0) by (nonlinear_arith)
            requires
                j >= 0,
        ;
        assert(dy <= 0 ==> j * dy <= 0) by (nonlinear_arith)
            requires
                j >= 0,
        ;
    }
}

/// A ray of steps to a neighbouring square has at most seven squares.
pub proof fn lemma_ray_has_seven_squares(p: Position, d: Vector2, k: nat)
    requires
        on_board(p),
        is_unit_step(d),
        k >= 8,
    ensures
        ray_square(p, d, k) is None,
{
    lemma_ray_square_closed_form(p, d, k);
    let dx = d.x as int;
    let dy = d.y as int;
    assert(dx == 1 ==> k * dx == k) by (nonlinear_arith);
    assert(dx == -1 ==> k * dx == -k) by (nonlinear_arith);
    assert(dy == 1 ==> k * dy == k) by (nonlinear_arith);
    assert(dy == -1 ==> k * dy == -k) by (nonlinear_arith);
}

/// A stretch of a ray holds exactly the squares that lie one to `n` steps away.
pub proof fn lemma_ray_prefix_members(p: Position, d: Vector2, n: nat, t: Position)
    ensures
        ray_prefix(p, d, n).contains(t) <==> exists|k: nat|
            1 <= k <= n && #[trigger] ray_square(p, d, k) == Some(t),
    decreases n,
{
    if n > 0 {
        lemma_ray_prefix_members(p, d, (n - 1) as nat, t);
        if ray_prefix(p, d, n).contains(t) {
            if ray_square(p, d, n) == Some(t) {
            } else {
                let k = choose|k: nat| 1 <= k <= n - 1 && #[trigger] ray_square(p, d, k) == Some(t);
                assert(1 <= k <= n && ray_square(p, d, k) == Some(t));
            }
        }
        if exists|k: nat| 1 <= k <= n && #[trigger] ray_square(p, d, k) == Some(t) {
            let k = choose|k: nat| 1 <= k <= n && #[trigger] ray_square(p, d, k) == Some(t);
            if k < n {
                assert(1 <= k <= n - 1 && ray_square(p, d, k) == Some(t));
            }
        }
    }
}

/// The first occupied square from step `k` on lies `b` steps away exactly if that square
/// is occupied and the squares of the ray from step `k` up to it are empty.
pub proof fn lemma_first_blocker_is_first(game: Game, p: Position, d: Vector2, k: nat, b: nat)
    ensures
        first_blocker(game, p, d, k) == Some(b) <==> {
            &&& k <= b < 8
            &&& ray_square(p, d, b) is Some
            &&& !game.is_empty_at(ray_square(p, d, b)->0)
            &&& forall|j: nat|
                k <= j < b ==> (#[trigger] ray_square(p, d, j)) is Some && game.is_empty_at(
                    ray_square(p, d, j)->0,
                )
        },
    decreases 8 - k,
{
    if k < 8 {
        match ray_square(p, d, k) {
            None => {
                if k <= b {
                    // A ray that has left the board at step `k` has no square at step `b`.
                    lemma_ray_stays_off_board(p, d, k, b);
                }
            },
            Some(q) => {
                if game.is_empty_at(q) {
                    lemma_first_blocker_is_first(game, p, d, k + 1, b);
                    if first_blocker(game, p, d, k) == Some(b) {
                        assert forall|j: nat| k <= j < b implies (#[trigger] ray_square(p, d, j))
                            is Some && game.is_empty_at(ray_square(p, d, j)->0) by {
                            if j > k {
                                assert(k + 1 <= j);
                            }
                        }
                    }
                } else {
                    if b > k && ray_square(p, d, b) is Some && (forall|j: nat|
                        k <= j < b ==> (#[trigger] ray_square(p, d, j)) is Some && game.is_empty_at(
                            ray_square(p, d, j)->0,
                        )) {
                        assert(ray_square(p, d, k) is Some);
                    }
                }
            },
        }
    }
}

/// A ray that has left the board does not come back.
pub proof fn lemma_ray_stays_off_board(p: Position, d: Vector2, k: nat, b: nat)
    requires
        k <= b,
        ray_square(p, d, k) is None,
    ensures
        ray_square(p, d, b) is None,
    decreases b,
{
    if k < b {
        lemma_ray_stays_off_board(p, d, k, (b - 1) as nat);
    }
}

/// The number of the square `q` when the board is read file by file.
pub open spec fn index_of_square(q: Position) -> nat {
    (q.x * 8 + q.y) as nat
}

/// Whether the piece of the side `is_white` on the square with the number `i` has `t` in
/// the part `part` of what it does.
spec fn piece_has(
    game: Game,
    is_white: bool,
    part: spec_fn(ThreatMapView) -> Set<Position>,
    t: Position,
    i: nat,
) -> bool {
    game.is_color_at(square_of_index(i), is_white) && part(
        piece_map(game, square_of_index(i)),
    ).contains(t)
}

/// A part of a map that joins as the map does.
spec fn is_joined_part(part: spec_fn(ThreatMapView) -> Set<Position>) -> bool {
    &&& part(ThreatMapView::empty()) == Set::<Position>::empty()
    &&& forall|a: ThreatMapView, b: ThreatMapView|
        #[trigger] part(a.join(b)) == part(a).union(part(b))
}

/// A part of what the pieces on the first `n` squares do is that part of what one of them
/// does.
proof fn lemma_team_map_part(
    game: Game,
    is_white: bool,
    part: spec_fn(ThreatMapView) -> Set<Position>,
    n: nat,
    t: Position,
)
    requires
        is_joined_part(part),
    ensures
        part(team_map(game, is_white, n)).contains(t) <==> exists|i: nat|
            i < n && #[trigger] piece_has(game, is_white, part, t, i),
    decreases n,
{
    if n > 0 {
        let m = (n - 1) as nat;
        lemma_team_map_part(game, is_white, part, m, t);
        let before = team_map(game, is_white, m);
        if part(before).contains(t) {
            let i = choose|i: nat| i < m && #[trigger] piece_has(game, is_white, part, t, i);
            assert(i < n && piece_has(game, is_white, part, t, i));
        }
        if exists|i: nat| i < n && #[trigger] piece_has(game, is_white, part, t, i) {
            let i = choose|i: nat| i < n && #[trigger] piece_has(game, is_white, part, t, i);
            if i < m {
                assert(part(before).contains(t));
            }
        }
        if game.is_color_at(square_of_index(m), is_white) {
            assert(part(before.join(piece_map(game, square_of_index(m)))) == part(before).union(
                part(piece_map(game, square_of_index(m))),
            ));
            if part(piece_map(game, square_of_index(m))).contains(t) {
                assert(piece_has(game, is_white, part, t, m));
            }
        }
    }
}

/// A part of what a side does is that part of what one of its pieces does.
proof fn lemma_team_part(
    game: Game,
    is_white: bool,
    part: spec_fn(ThreatMapView) -> Set<Position>,
    t: Position,
)
    requires
        is_joined_part(part),
    ensures
        part(team_threats(game, is_white)).contains(t) <==> exists|q: Position|
            on_board(q) && game.is_color_at(q, is_white) && part(
                #[trigger] piece_map(game, q),
            ).contains(t),
{
    lemma_team_map_part(game, is_white, part, 64, t);
    if part(team_threats(game, is_white)).contains(t) {
        let i = choose|i: nat| i < 64 && #[trigger] piece_has(game, is_white, part, t, i);
        let q = square_of_index(i);
        assert(on_board(q) && game.is_color_at(q, is_white));
        assert(part(piece_map(game, q)).contains(t));
    }
    if exists|q: Position|
        on_board(q) && game.is_color_at(q, is_white) && part(
            #[trigger] piece_map(game, q),
        ).contains(t) {
        let q = choose|q: Position|
            on_board(q) && game.is_color_at(q, is_white) && part(
                #[trigger] piece_map(game, q),
            ).contains(t);
        let i = index_of_square(q);
        assert(square_of_index(i) == q);
        assert(i < 64 && piece_has(game, is_white, part, t, i));
    }
}

/// A side attacks a square exactly if one of its pieces does; likewise for the squares it
/// can move to and for the squares of its checks.
pub proof fn lemma_team_threats_members(game: Game, is_white: bool, t: Position)
    ensures
        team_threats(game, is_white).all_threats.contains(t) <==> exists|q: Position|
            on_board(q) && game.is_color_at(q, is_white) && (#[trigger] piece_map(
                game,
                q,
            )).all_threats.contains(t),
        team_threats(game, is_white).all_moves.contains(t) <==> exists|q: Position|
            on_board(q) && game.is_color_at(q, is_white) && (#[trigger] piece_map(
                game,
                q,
            )).all_moves.contains(t),
        team_threats(game, is_white).all_king_threats.contains(t) <==> exists|q: Position|
            on_board(q) && game.is_color_at(q, is_white) && (#[trigger] piece_map(
                game,
                q,
            )).all_king_threats.contains(t),
        team_threats(game, is_white).all_king_threats_full.contains(t) <==> exists|q: Position|
            on_board(q) && game.is_color_at(q, is_white) && (#[trigger] piece_map(
                game,
                q,
            )).all_king_threats_full.contains(t),
{
    lemma_team_part(game, is_white, |m: ThreatMapView| m.all_threats, t);
    lemma_team_part(game, is_white, |m: ThreatMapView| m.all_moves, t);
    lemma_team_part(game, is_white, |m: ThreatMapView| m.all_king_threats, t);
    lemma_team_part(game, is_white, |m: ThreatMapView| m.all_king_threats_full, t);
}

/// A part of what a piece does with single steps is that part of what it does with one of
/// them.
proof fn lemma_steps_part(
    game: Game,
    p: Position,
    steps: Seq<Vector2>,
    part: spec_fn(ThreatMapView) -> Set<Position>,
    t: Position,
)
    requires
        is_joined_part(part),
    ensures
        part(steps_map(game, p, steps)).contains(t) <==> exists|i: int|
            0 <= i < steps.len() && part(#[trigger] step_map(game, p, steps[i])).contains(t),
    decreases steps.len(),
{
    if steps.len() > 0 {
        let front = steps.drop_last();
        lemma_steps_part(game, p, front, part, t);
        assert(part(steps_map(game, p, front).join(step_map(game, p, steps.last()))) == part(
            steps_map(game, p, front),
        ).union(part(step_map(game, p, steps.last()))));
        if part(steps_map(game, p, front)).contains(t) {
            let i = choose|i: int|
                0 <= i < front.len() && part(#[trigger] step_map(game, p, front[i])).contains(t);
            assert(front[i] == steps[i]);
            assert(part(step_map(game, p, steps[i])).contains(t));
        }
        if exists|i: int|
            0 <= i < steps.len() && part(#[trigger] step_map(game, p, steps[i])).contains(t) {
            let i = choose|i: int|
                0 <= i < steps.len() && part(#[trigger] step_map(game, p, steps[i])).contains(t);
            if i < front.len() {
                assert(front[i] == steps[i]);
                assert(part(step_map(game, p, front[i])).contains(t));
            }
        }
    }
}

/// A part of what a piece does along lines is that part of what it does along one of them.
proof fn lemma_slide_part(
    game: Game,
    p: Position,
    dirs: Seq<Vector2>,
    part: spec_fn(ThreatMapView) -> Set<Position>,
    t: Position,
)
    requires
        is_joined_part(part),
    ensures
        part(slide_map(game, p, dirs)).contains(t) <==> exists|i: int|
            0 <= i < dirs.len() && part(#[trigger] ray_map(game, p, dirs[i])).contains(t),
    decreases dirs.len(),
{
    if dirs.len() > 0 {
        let front = dirs.drop_last();
        lemma_slide_part(game, p, front, part, t);
        assert(part(slide_map(game, p, front).join(ray_map(game, p, dirs.last()))) == part(
            slide_map(game, p, front),
        ).union(part(ray_map(game, p, dirs.last()))));
        if part(slide_map(game, p, front)).contains(t) {
            let i = choose|i: int|
                0 <= i < front.len() && part(#[trigger] ray_map(game, p, front[i])).contains(t);
            assert(front[i] == dirs[i]);
            assert(part(ray_map(game, p, dirs[i])).contains(t));
        }
        if exists|i: int|
            0 <= i < dirs.len() && part(#[trigger] ray_map(game, p, dirs[i])).contains(t) {
            let i = choose|i: int|
                0 <= i < dirs.len() && part(#[trigger] ray_map(game, p, dirs[i])).contains(t);
            if i < front.len() {
                assert(front[i] == dirs[i]);
                assert(part(ray_map(game, p, front[i])).contains(t));
            }
        }
    }
}

/// Whether the ray from `p` along `d` reaches the square `k` steps away over empty squares
/// only.
pub open spec fn ray_is_clear(game: Game, p: Position, d: Vector2, k: nat) -> bool {
    forall|j: nat|
        1 <= j < k ==> (#[trigger] ray_square(p, d, j)) is Some && game.is_empty_at(
            ray_square(p, d, j)->0,
        )
}

/// A sliding piece attacks a square along a line exactly if the square lies on the line
/// and all squares between the piece and it are empty. It can move there exactly if,
/// besides, its own side does not hold the square.
pub proof fn lemma_ray_attacks(game: Game, p: Position, d: Vector2, t: Position)
    requires
        on_board(p),
        game.at(p).piece != Piece::Empty,
    ensures
        ray_map(game, p, d).all_threats.contains(t) <==> exists|k: nat|
            1 <= k < 8 && #[trigger] ray_square(p, d, k) == Some(t) && ray_is_clear(game, p, d, k),
        ray_map(game, p, d).all_moves.contains(t) <==> ray_map(game, p, d).all_threats.contains(t)
            && !game.is_color_at(t, game.at(p).is_white),
{
    let map = ray_map(game, p, d);
    let own = game.at(p).is_white;
    match first_blocker(game, p, d, 1) {
        None => {
            lemma_ray_prefix_members(p, d, 7, t);
            if map.all_threats.contains(t) {
                let k = choose|k: nat| 1 <= k <= 7 && #[trigger] ray_square(p, d, k) == Some(t);
                assert forall|j: nat| 1 <= j < k implies (#[trigger] ray_square(p, d, j)) is Some
                    && game.is_empty_at(ray_square(p, d, j)->0) by {
                    if ray_square(p, d, j) is None {
                        lemma_ray_stays_off_board(p, d, j, k);
                    }
                    lemma_no_blocker(game, p, d, 1, j);
                }
                assert(1 <= k < 8 && ray_square(p, d, k) == Some(t) && ray_is_clear(game, p, d, k));
                lemma_no_blocker(game, p, d, 1, k);
            }
            if exists|k: nat|
                1 <= k < 8 && #[trigger] ray_square(p, d, k) == Some(t) && ray_is_clear(
                    game,
                    p,
                    d,
                    k,
                ) {
                let k = choose|k: nat|
                    1 <= k < 8 && #[trigger] ray_square(p, d, k) == Some(t) && ray_is_clear(
                        game,
                        p,
                        d,
                        k,
                    );
                assert(1 <= k <= 7 && ray_square(p, d, k) == Some(t));
            }
        },
        Some(b) => {
            lemma_first_blocker_is_first(game, p, d, 1, b);
            lemma_ray_prefix_members(p, d, b, t);
            lemma_ray_prefix_members(p, d, (b - 1) as nat, t);
            let blocker = ray_square(p, d, b)->0;
            if map.all_threats.contains(t) {
                let k = choose|k: nat| 1 <= k <= b && #[trigger] ray_square(p, d, k) == Some(t);
                assert forall|j: nat| 1 <= j < k implies (#[trigger] ray_square(p, d, j)) is Some
                    && game.is_empty_at(ray_square(p, d, j)->0) by {}
                assert(1 <= k < 8 && ray_square(p, d, k) == Some(t) && ray_is_clear(game, p, d, k));
                if k < b {
                    assert(ray_square(p, d, k) is Some && game.is_empty_at(ray_square(p, d, k)->0));
                    assert(1 <= k <= b - 1 && ray_square(p, d, k) == Some(t));
                }
            }
            if exists|k: nat|
                1 <= k < 8 && #[trigger] ray_square(p, d, k) == Some(t) && ray_is_clear(
                    game,
                    p,
                    d,
                    k,
                ) {
                let k = choose|k: nat|
                    1 <= k < 8 && #[trigger] ray_square(p, d, k) == Some(t) && ray_is_clear(
                        game,
                        p,
                        d,
                        k,
                    );
                if b < k {
                    assert(ray_square(p, d, b) is Some && game.is_empty_at(ray_square(p, d, b)->0));
                }
                assert(1 <= k <= b && ray_square(p, d, k) == Some(t));
            }
            if map.all_moves.contains(t) {
                if game.at(blocker).is_white == own {
                    let k = choose|k: nat|
                        1 <= k <= b - 1 && #[trigger] ray_square(p, d, k) == Some(t);
                    assert(ray_square(p, d, k) is Some && game.is_empty_at(ray_square(p, d, k)->0));
                    assert(1 <= k <= b && ray_square(p, d, k) == Some(t));
                }
            }
            if map.all_threats.contains(t) && !game.is_color_at(t, own) {
                if game.at(blocker).is_white == own {
                    let k = choose|k: nat| 1 <= k <= b && #[trigger] ray_square(p, d, k) == Some(t);
                    assert(k != b);
                    assert(1 <= k <= b - 1 && ray_square(p, d, k) == Some(t));
                }
            }
        },
    }
}

/// Whether a king of the side that is not `is_white` stands on `k`.
pub open spec fn is_other_king(game: Game, k: Position, is_white: bool) -> bool {
    on_board(k) && game.at(k).piece == Piece::King && game.at(k).is_white != is_white
}

/// No king stands on the en-passant target.
pub open spec fn no_king_on_en_passant_target(game: Game) -> bool {
    match game.en_passant_position {
        Some(e) => on_board(e) ==> game.at(e).piece != Piece::King,
        None => true,
    }
}

/// Where a ray meets no occupied square, every square of it is empty.
proof fn lemma_no_blocker(game: Game, p: Position, d: Vector2, k: nat, j: nat)
    requires
        first_blocker(game, p, d, k) is None,
        k <= j < 8,
        ray_square(p, d, j) is Some,
    ensures
        game.is_empty_at(ray_square(p, d, j)->0),
    decreases 8 - k,
{
    if k < 8 {
        match ray_square(p, d, k) {
            None => {
                lemma_ray_stays_off_board(p, d, k, j);
            },
            Some(q) => {
                if k < j {
                    lemma_no_blocker(game, p, d, k + 1, j);
                }
            },
        }
    }
}

/// An occupied square that a sliding piece attacks along a line is the first occupied
/// square of that line.
proof fn lemma_attacked_piece_is_first_blocker(game: Game, p: Position, d: Vector2, t: Position)
    requires
        on_board(p),
        ray_map(game, p, d).all_threats.contains(t),
        !game.is_empty_at(t),
    ensures
        first_blocker(game, p, d, 1) is Some,
        ray_square(p, d, first_blocker(game, p, d, 1)->0) == Some(t),
{
    match first_blocker(game, p, d, 1) {
        None => {
            lemma_ray_prefix_members(p, d, 7, t);
            let j = choose|j: nat| 1 <= j <= 7 && #[trigger] ray_square(p, d, j) == Some(t);
            lemma_no_blocker(game, p, d, 1, j);
        },
        Some(b) => {
            lemma_first_blocker_is_first(game, p, d, 1, b);
            lemma_ray_prefix_members(p, d, b, t);
            let j = choose|j: nat| 1 <= j <= b && #[trigger] ray_square(p, d, j) == Some(t);
            if j < b {
                assert(ray_square(p, d, j) is Some && game.is_empty_at(ray_square(p, d, j)->0));
            }
        },
    }
}

/// A sliding piece gives check along a line exactly if it attacks, along that line, a
/// square on which a king of the other side stands.
proof fn lemma_ray_check(game: Game, p: Position, d: Vector2)
    requires
        on_board(p),
    ensures
        (exists|t: Position| ray_map(game, p, d).all_king_threats.contains(t)) <==> (exists|
            k: Position,
        |
            is_other_king(game, k, game.at(p).is_white) && #[trigger] ray_map(
                game,
                p,
                d,
            ).all_threats.contains(k)),
{
    let own = game.at(p).is_white;
    let map = ray_map(game, p, d);
    if exists|k: Position| is_other_king(game, k, own) && #[trigger] map.all_threats.contains(k) {
        let k = choose|k: Position|
            is_other_king(game, k, own) && #[trigger] map.all_threats.contains(k);
        lemma_attacked_piece_is_first_blocker(game, p, d, k);
        assert(map.all_king_threats.contains(p));
    }
    if exists|t: Position| map.all_king_threats.contains(t) {
        let b = first_blocker(game, p, d, 1)->0;
        lemma_first_blocker_is_first(game, p, d, 1, b);
        let k = ray_square(p, d, b)->0;
        lemma_ray_square_on_board(p, d, b);
        lemma_ray_prefix_members(p, d, b, k);
        assert(1 <= b <= b && ray_square(p, d, b) == Some(k));
        assert(is_other_king(game, k, own) && map.all_threats.contains(k));
    }
}

/// A knight or a king gives check with a step exactly if it attacks, with that step, a
/// square on which a king of the other side stands.
proof fn lemma_step_check(game: Game, p: Position, d: Vector2)
    requires
        on_board(p),
    ensures
        (exists|t: Position| step_map(game, p, d).all_king_threats.contains(t)) <==> (exists|
            k: Position,
        |
            is_other_king(game, k, game.at(p).is_white) && #[trigger] step_map(
                game,
                p,
                d,
            ).all_threats.contains(k)),
{
    let own = game.at(p).is_white;
    let map = step_map(game, p, d);
    match stepped(p, d) {
        Some(t) => {
            if exists|k: Position|
                is_other_king(game, k, own) && #[trigger] map.all_threats.contains(k) {
                assert(map.all_king_threats.contains(t));
            }
            if exists|t: Position| map.all_king_threats.contains(t) {
                assert(is_other_king(game, t, own) && map.all_threats.contains(t));
            }
        },
        None => {},
    }
}

/// A pawn gives check on a side exactly if it attacks, on that side, a square on which a
/// king of the other side stands.
proof fn lemma_pawn_capture_check(game: Game, p: Position, dx: int)
    requires
        on_board(p),
        no_king_on_en_passant_target(game),
    ensures
        (exists|t: Position| pawn_capture_map(game, p, dx).all_king_threats.contains(t)) <==> (
        exists|k: Position|
            is_other_king(game, k, game.at(p).is_white) && #[trigger] pawn_capture_map(
                game,
                p,
                dx,
            ).all_threats.contains(k)),
{
    let own = game.at(p).is_white;
    let map = pawn_capture_map(game, p, dx);
    match shifted(p, dx, crate::threats::pawn_direction(own)) {
        Some(t) => {
            if exists|k: Position|
                is_other_king(game, k, own) && #[trigger] map.all_threats.contains(k) {
                assert(map.all_king_threats.contains(t));
            }
            if exists|t: Position| map.all_king_threats.contains(t) {
                assert(is_other_king(game, t, own) && map.all_threats.contains(t));
            }
        },
        None => {},
    }
}

/// A piece gives check exactly if it attacks a square on which a king of the other side
/// stands.
proof fn lemma_piece_check(game: Game, p: Position)
    requires
        on_board(p),
        no_king_on_en_passant_target(game),
    ensures
        (exists|t: Position| piece_map(game, p).all_king_threats.contains(t)) <==> (exists|
            k: Position,
        |
            is_other_king(game, k, game.at(p).is_white) && #[trigger] piece_map(
                game,
                p,
            ).all_threats.contains(k)),
{
    let own = game.at(p).is_white;
    let map = piece_map(game, p);
    let checks = |m: ThreatMapView| m.all_king_threats;
    let attacks = |m: ThreatMapView| m.all_threats;
    let piece = game.at(p).piece;
    if piece == Piece::Pawn {
        lemma_pawn_capture_check(game, p, -1);
        lemma_pawn_capture_check(game, p, 1);
        let left = pawn_capture_map(game, p, -1);
        let right = pawn_capture_map(game, p, 1);
        if exists|t: Position| map.all_king_threats.contains(t) {
            let t = choose|t: Position| map.all_king_threats.contains(t);
            if left.all_king_threats.contains(t) {
                let k = choose|k: Position|
                    is_other_king(game, k, own) && #[trigger] left.all_threats.contains(k);
                assert(map.all_threats.contains(k));
            } else {
                assert(right.all_king_threats.contains(t));
                let k = choose|k: Position|
                    is_other_king(game, k, own) && #[trigger] right.all_threats.contains(k);
                assert(map.all_threats.contains(k));
            }
        }
        if exists|k: Position|
            is_other_king(game, k, own) && #[trigger] map.all_threats.contains(k) {
            let k = choose|k: Position|
                is_other_king(game, k, own) && #[trigger] map.all_threats.contains(k);
            if left.all_threats.contains(k) {
                let t = choose|t: Position| left.all_king_threats.contains(t);
                assert(map.all_king_threats.contains(t));
            } else {
                assert(right.all_threats.contains(k));
                let t = choose|t: Position| right.all_king_threats.contains(t);
                assert(map.all_king_threats.contains(t));
            }
        }
    } else if piece != Piece::Empty {
        let steps = regular_steps(piece);
        let dirs = sliding_steps(piece);
        let stepping = steps_map(game, p, steps);
        let sliding = slide_map(game, p, dirs);
        assert(map == stepping.join(sliding));
        if exists|t: Position| map.all_king_threats.contains(t) {
            let t = choose|t: Position| map.all_king_threats.contains(t);
            if stepping.all_king_threats.contains(t) {
                lemma_steps_part(game, p, steps, checks, t);
                let i = choose|i: int|
                    0 <= i < steps.len() && checks(#[trigger] step_map(game, p, steps[i])).contains(
                        t,
                    );
                lemma_step_check(game, p, steps[i]);
                let k = choose|k: Position|
                    is_other_king(game, k, own) && #[trigger] step_map(
                        game,
                        p,
                        steps[i],
                    ).all_threats.contains(k);
                lemma_steps_part(game, p, steps, attacks, k);
                assert(attacks(step_map(game, p, steps[i])).contains(k));
                assert(map.all_threats.contains(k));
            } else {
                assert(sliding.all_king_threats.contains(t));
                lemma_slide_part(game, p, dirs, checks, t);
                let i = choose|i: int|
                    0 <= i < dirs.len() && checks(#[trigger] ray_map(game, p, dirs[i])).contains(t);
                lemma_ray_check(game, p, dirs[i]);
                let k = choose|k: Position|
                    is_other_king(game, k, own) && #[trigger] ray_map(
                        game,
                        p,
                        dirs[i],
                    ).all_threats.contains(k);
                lemma_slide_part(game, p, dirs, attacks, k);
                assert(attacks(ray_map(game, p, dirs[i])).contains(k));
                assert(map.all_threats.contains(k));
            }
        }
        if exists|k: Position|
            is_other_king(game, k, own) && #[trigger] map.all_threats.contains(k) {
            let k = choose|k: Position|
                is_other_king(game, k, own) && #[trigger] map.all_threats.contains(k);
            if stepping.all_threats.contains(k) {
                lemma_steps_part(game, p, steps, attacks, k);
                let i = choose|i: int|
                    0 <= i < steps.len() && attacks(
                        #[trigger] step_map(game, p, steps[i]),
                    ).contains(k);
                lemma_step_check(game, p, steps[i]);
                assert(step_map(game, p, steps[i]).all_threats.contains(k));
                let t = choose|t: Position|
                    step_map(game, p, steps[i]).all_king_threats.contains(t);
                lemma_steps_part(game, p, steps, checks, t);
                assert(checks(step_map(game, p, steps[i])).contains(t));
                assert(map.all_king_threats.contains(t));
            } else {
                assert(sliding.all_threats.contains(k));
                lemma_slide_part(game, p, dirs, attacks, k);
                let i = choose|i: int|
                    0 <= i < dirs.len() && attacks(#[trigger] ray_map(game, p, dirs[i])).contains(
                        k,
                    );
                lemma_ray_check(game, p, dirs[i]);
                assert(ray_map(game, p, dirs[i]).all_threats.contains(k));
                let t = choose|t: Position| ray_map(game, p, dirs[i]).all_king_threats.contains(t);
                lemma_slide_part(game, p, dirs, checks, t);
                assert(checks(ray_map(game, p, dirs[i])).contains(t));
                assert(map.all_king_threats.contains(t));
            }
        }
    }
}

/// A side gives check exactly if it attacks a square on which a king of the other side
/// stands, in a position in which no king stands on the en-passant target.
pub proof fn lemma_check_means_king_attacked(game: Game, is_white: bool)
    requires
        no_king_on_en_passant_target(game),
    ensures
        team_threats(game, is_white).all_king_threats != Set::<Position>::empty() <==> exists|
            k: Position,
        |
            is_other_king(game, k, is_white) && #[trigger] team_threats(
                game,
                is_white,
            ).all_threats.contains(k),
{
    let team = team_threats(game, is_white);
    if team.all_king_threats != Set::<Position>::empty() {
        if forall|t: Position| !team.all_king_threats.contains(t) {
            assert(team.all_king_threats =~= Set::<Position>::empty());
        }
        let t = choose|t: Position| team.all_king_threats.contains(t);
        lemma_team_threats_members(game, is_white, t);
        let q = choose|q: Position|
            on_board(q) && game.is_color_at(q, is_white) && (#[trigger] piece_map(
                game,
                q,
            )).all_king_threats.contains(t);
        lemma_piece_check(game, q);
        let k = choose|k: Position|
            is_other_king(game, k, is_white) && #[trigger] piece_map(game, q).all_threats.contains(
                k,
            );
        lemma_team_threats_members(game, is_white, k);
        assert(piece_map(game, q).all_threats.contains(k));
        assert(team.all_threats.contains(k));
    }
    if exists|k: Position|
        is_other_king(game, k, is_white) && #[trigger] team.all_threats.contains(k) {
        let k = choose|k: Position|
            is_other_king(game, k, is_white) && #[trigger] team.all_threats.contains(k);
        lemma_team_threats_members(game, is_white, k);
        let q = choose|q: Position|
            on_board(q) && game.is_color_at(q, is_white) && (#[trigger] piece_map(
                game,
                q,
            )).all_threats.contains(k);
        lemma_piece_check(game, q);
        assert(piece_map(game, q).all_threats.contains(k));
        let t = choose|t: Position| piece_map(game, q).all_king_threats.contains(t);
        lemma_team_threats_members(game, is_white, t);
        assert(piece_map(game, q).all_king_threats.contains(t));
        assert(team.all_king_threats.contains(t));
    }
}

} // verus!
