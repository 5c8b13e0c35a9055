use vstd::prelude::*;
use vstd::array::spec_array_update;
use crate::position_set::PositionSet;
use crate::repetition::RepetitionTable;

verus! {

/// Number of files and of ranks on the board.
pub const BOARD_SIZE: usize = 8;

/// Rank index on which black's pieces start (the top row of the printed board).
pub const BLACK_SPAWN: usize = 0;

/// Rank index on which white's pieces start (the bottom row of the printed board).
pub const WHITE_SPAWN: usize = 7;

/// Rank index on which white's pawns start.
pub const WHITE_PAWN_Y: usize = 6;

/// Rank index on which black's pawns start.
pub const BLACK_PAWN_Y: usize = 1;

/// The kind of piece standing on a square.
#[derive(Copy, Clone, PartialEq, Eq, Structural, Debug)]
pub enum Piece {
    Empty,
    Pawn,
    Knight,
    Bishop,
    Rook,
    Queen,
    King,
}

/// The content of one square. For `Piece::Empty` the colour flag carries no meaning.
#[derive(Copy, Clone, PartialEq, Eq, Structural, Debug)]
pub struct PieceData {
    pub piece: Piece,
    pub is_white: bool,
}

impl PieceData {
    /// The content of an empty square.
    pub open spec fn empty() -> PieceData {
        PieceData { piece: Piece::Empty, is_white: false }
    }

    /// The content of an empty square.
    pub fn new_empty() -> (r: PieceData)
        ensures
            r == PieceData::empty(),
    {
        PieceData { piece: Piece::Empty, is_white: false }
    }
}

/// A square, by file `x` and rank `y`; (0, 0) is the top-left corner of the printed board.
#[derive(Copy, Clone, PartialEq, Eq, Structural, Debug, Hash)]
pub struct Position {
    pub x: usize,
    pub y: usize,
}

/// A displacement on the board.
#[derive(Copy, Clone, PartialEq, Eq, Structural, Debug, Hash)]
pub struct Vector2 {
    pub x: i8,
    pub y: i8,
}

/// Castling rights of one side, with the home squares of the two rooks.
#[derive(Copy, Clone, PartialEq, Eq, Structural, Debug)]
pub struct Castle {
    pub can_castle_king_side: bool,
    pub can_castle_queen_side: bool,
    pub queen_side_rook: Position,
    pub king_side_rook: Position,
}

/// A position of the game: placement, rights, side to move, en-passant target and clocks.
#[derive(Copy, Clone, Debug)]
pub struct Game {
    /// `board[x][y]` is the content of the square on file `x` and rank `y`.
    pub board: [[PieceData; 8]; 8],
    /// Castling rights: index 0 is white, index 1 is black.
    pub castle: [Castle; 2],
    pub is_white_to_move: bool,
    pub en_passant_position: Option<Position>,
    pub half_move_clock: u16,
    pub full_move_clock: u16,
}

/// Whether `p` lies on the board.
pub open spec fn on_board(p: Position) -> bool {
    p.x < 8 && p.y < 8
}

/// Whether `p` lies on the board.
pub fn on_board_position(p: &Position) -> (r: bool)
    ensures
        r == on_board(*p),
{
    p.x < 8 && p.y < 8
}

impl Game {
    /// The content of square `p`.
    pub open spec fn at(self, p: Position) -> PieceData {
        self.board[p.x as int][p.y as int]
    }

    /// Whether no piece stands on `p`.
    pub open spec fn is_empty_at(self, p: Position) -> bool {
        self.at(p).piece == Piece::Empty
    }

    /// Whether a piece of the colour `is_white` stands on `p`.
    pub open spec fn is_color_at(self, p: Position, is_white: bool) -> bool {
        self.at(p).piece != Piece::Empty && self.at(p).is_white == is_white
    }

    /// The squares that the position names lie on the board: the en-passant target and
    /// the home squares of the four rooks.
    pub open spec fn wf(self) -> bool {
        &&& self.en_passant_position is Some ==> on_board(self.en_passant_position->0)
        &&& forall|i: int|
            0 <= i < 2 ==> on_board((#[trigger] self.castle[i]).queen_side_rook) && on_board(
                self.castle[i].king_side_rook,
            )
    }

    /// The position in which `d` stands on `p` and all else is as in `self`.
    pub open spec fn with_piece(self, p: Position, d: PieceData) -> Game {
        Game {
            board: spec_array_update(
                self.board,
                p.x as int,
                spec_array_update(self.board[p.x as int], p.y as int, d),
            ),
            ..self
        }
    }

    /// Puts `d` on square `p`.
    pub fn put(&mut self, p: &Position, d: PieceData)
        requires
            on_board(*p),
        ensures
            *final(self) == old(self).with_piece(*p, d),
    {
        self.board[p.x][p.y] = d;
        assert(self.board =~= old(self).with_piece(*p, d).board);
    }

    /// What stands where after a piece was put on a square.
    pub proof fn lemma_with_piece(self, p: Position, d: PieceData)
        requires
            on_board(p),
        ensures
            self.with_piece(p, d).at(p) == d,
            forall|q: Position| on_board(q) && q != p ==> self.with_piece(p, d).at(q) == self.at(q),
    {
    }
}

/// A game with its history of positions.
#[derive(Debug)]
pub struct Gameboard {
    /// The current position.
    pub game: Game,
    /// How often each position has occurred, keyed by its text without the clocks.
    pub same_board: RepetitionTable,
}

impl Gameboard {
    /// The position and the table of occurrences are well formed.
    pub open spec fn wf(self) -> bool {
        self.game.wf() && self.same_board.wf()
    }
}

/// What one side attacks: the squares it can move to, the squares it attacks, the lines
/// along which it pins a piece to the other king, and the squares of its checks.
#[derive(Debug)]
pub struct ThreatMap {
    /// Squares some piece of the side can move to (castling apart).
    pub all_moves: PositionSet,
    /// Squares some piece of the side attacks, whoever stands there.
    pub all_threats: PositionSet,
    /// One set for each pin: the attacker's square, the king's square and the squares between.
    pub all_pinned: Vec<PositionSet>,
    /// Each checking piece's square, the king's square and, for a sliding piece, the squares
    /// between.
    pub all_king_threats: PositionSet,
    /// For each check along a line: the squares of the line and the square behind the king.
    pub all_king_threats_full: PositionSet,
}

/// The mathematical content of a `ThreatMap`.
pub struct ThreatMapView {
    pub all_moves: Set<Position>,
    pub all_threats: Set<Position>,
    pub all_pinned: Seq<Set<Position>>,
    pub all_king_threats: Set<Position>,
    pub all_king_threats_full: Set<Position>,
}

impl View for ThreatMap {
    type V = ThreatMapView;

    open spec fn view(&self) -> ThreatMapView {
        ThreatMapView {
            all_moves: self.all_moves@,
            all_threats: self.all_threats@,
            all_pinned: self.all_pinned@.map_values(|s: PositionSet| s@),
            all_king_threats: self.all_king_threats@,
            all_king_threats_full: self.all_king_threats_full@,
        }
    }
}

impl ThreatMapView {
    /// The map that holds nothing.
    pub open spec fn empty() -> ThreatMapView {
        ThreatMapView {
            all_moves: Set::empty(),
            all_threats: Set::empty(),
            all_pinned: Seq::empty(),
            all_king_threats: Set::empty(),
            all_king_threats_full: Set::empty(),
        }
    }

    /// The map that holds what `self` holds and what `other` holds, the pins of `self` first.
    pub open spec fn join(self, other: ThreatMapView) -> ThreatMapView {
        ThreatMapView {
            all_moves: self.all_moves.union(other.all_moves),
            all_threats: self.all_threats.union(other.all_threats),
            all_pinned: self.all_pinned + other.all_pinned,
            all_king_threats: self.all_king_threats.union(other.all_king_threats),
            all_king_threats_full: self.all_king_threats_full.union(other.all_king_threats_full),
        }
    }
}

/// How a game stands.
#[derive(Copy, Clone, PartialEq, Eq, Structural, Debug)]
pub enum WinStatus {
    WhiteWon,
    BlackWon,
    Tie,
    Nothing,
}

/// The steps of a piece: those it takes once, and those it repeats along a line.
#[derive(Debug)]
pub struct Moveset {
    pub regular_moves: Vec<Vector2>,
    pub inf_moves: Vec<Vector2>,
}

/// The four diagonal directions.
pub open spec fn diagonal_steps() -> Seq<Vector2> {
    seq![
        Vector2 { x: 1i8, y: 1i8 },
        Vector2 { x: -1i8, y: -1i8 },
        Vector2 { x: -1i8, y: 1i8 },
        Vector2 { x: 1i8, y: -1i8 },
    ]
}

/// The four directions along files and ranks.
pub open spec fn straight_steps() -> Seq<Vector2> {
    seq![
        Vector2 { x: 0i8, y: 1i8 },
        Vector2 { x: 0i8, y: -1i8 },
        Vector2 { x: -1i8, y: 0i8 },
        Vector2 { x: 1i8, y: 0i8 },
    ]
}

/// The eight directions: the straight ones, then the diagonal ones.
pub open spec fn all_steps() -> Seq<Vector2> {
    straight_steps() + diagonal_steps()
}

/// The eight jumps of a knight.
pub open spec fn knight_steps() -> Seq<Vector2> {
    seq![
        Vector2 { x: 2i8, y: 1i8 },
        Vector2 { x: 1i8, y: 2i8 },
        Vector2 { x: -2i8, y: 1i8 },
        Vector2 { x: -1i8, y: 2i8 },
        Vector2 { x: 2i8, y: -1i8 },
        Vector2 { x: 1i8, y: -2i8 },
        Vector2 { x: -2i8, y: -1i8 },
        Vector2 { x: -1i8, y: -2i8 },
    ]
}

/// The steps that `piece` takes once: those of a knight and of a king.
pub open spec fn regular_steps(piece: Piece) -> Seq<Vector2> {
    match piece {
        Piece::Knight => knight_steps(),
        Piece::King => all_steps(),
        _ => Seq::empty(),
    }
}

/// The directions along which `piece` slides: those of a bishop, a rook and a queen.
pub open spec fn sliding_steps(piece: Piece) -> Seq<Vector2> {
    match piece {
        Piece::Bishop => diagonal_steps(),
        Piece::Rook => straight_steps(),
        Piece::Queen => all_steps(),
        _ => Seq::empty(),
    }
}

/// The four diagonal directions.
fn diagonal_moveset() -> (v: Vec<Vector2>)
    ensures
        v@ == diagonal_steps(),
{
    let v = vec![
        Vector2 { x: 1i8, y: 1i8 },
        Vector2 { x: -1i8, y: -1i8 },
        Vector2 { x: -1i8, y: 1i8 },
        Vector2 { x: 1i8, y: -1i8 },
    ];
    assert(v@ =~= diagonal_steps());
    v
}

/// The four directions along files and ranks.
fn horizontal_moveset() -> (v: Vec<Vector2>)
    ensures
        v@ == straight_steps(),
{
    let v = vec![
        Vector2 { x: 0i8, y: 1i8 },
        Vector2 { x: 0i8, y: -1i8 },
        Vector2 { x: -1i8, y: 0i8 },
        Vector2 { x: 1i8, y: 0i8 },
    ];
    assert(v@ =~= straight_steps());
    v
}

/// The eight directions.
fn both_moveset() -> (v: Vec<Vector2>)
    ensures
        v@ == all_steps(),
{
    let v = vec![
        Vector2 { x: 0i8, y: 1i8 },
        Vector2 { x: 0i8, y: -1i8 },
        Vector2 { x: -1i8, y: 0i8 },
        Vector2 { x: 1i8, y: 0i8 },
        Vector2 { x: 1i8, y: 1i8 },
        Vector2 { x: -1i8, y: -1i8 },
        Vector2 { x: -1i8, y: 1i8 },
        Vector2 { x: 1i8, y: -1i8 },
    ];
    assert(v@ =~= all_steps());
    v
}

/// The eight jumps of a knight.
fn knight_moveset() -> (v: Vec<Vector2>)
    ensures
        v@ == knight_steps(),
{
    let v = vec![
        Vector2 { x: 2i8, y: 1i8 },
        Vector2 { x: 1i8, y: 2i8 },
        Vector2 { x: -2i8, y: 1i8 },
        Vector2 { x: -1i8, y: 2i8 },
        Vector2 { x: 2i8, y: -1i8 },
        Vector2 { x: 1i8, y: -2i8 },
        Vector2 { x: -2i8, y: -1i8 },
        Vector2 { x: -1i8, y: -2i8 },
    ];
    assert(v@ =~= knight_steps());
    v
}

/// The steps of `piece`. A pawn has none here: its moves follow rules of their own.
pub fn get_moveset(piece: Piece) -> (m: Moveset)
    ensures
        m.regular_moves@ == regular_steps(piece),
        m.inf_moves@ == sliding_steps(piece),
{
    match piece {
        Piece::Empty => Moveset { regular_moves: Vec::new(), inf_moves: Vec::new() },
        Piece::Pawn => Moveset { regular_moves: Vec::new(), inf_moves: Vec::new() },
        Piece::Knight => Moveset { regular_moves: knight_moveset(), inf_moves: Vec::new() },
        Piece::Bishop => Moveset { regular_moves: Vec::new(), inf_moves: diagonal_moveset() },
        Piece::Rook => Moveset { regular_moves: Vec::new(), inf_moves: horizontal_moveset() },
        Piece::Queen => Moveset { regular_moves: Vec::new(), inf_moves: both_moveset() },
        Piece::King => Moveset { regular_moves: both_moveset(), inf_moves: Vec::new() },
    }
}

} // verus!
