use vstd::prelude::*;
use crate::game_data::{on_board, Position};

verus! {

/// A set of squares of the board, kept as a board-shaped mask.
#[derive(Clone, Copy, Debug)]
pub struct PositionSet {
    cells: [[bool; 8]; 8],
}

impl View for PositionSet {
    type V = Set<Position>;

    closed spec fn view(&self) -> Set<Position> {
        Set::new(|p: Position| on_board(p) && self.cells[p.x as int][p.y as int])
    }
}

impl PositionSet {
    /// Every member of the set is a square of the board.
    pub proof fn lemma_members_on_board(self)
        ensures
            forall|p: Position| self@.contains(p) ==> on_board(p),
    {
    }

    /// The empty set.
    pub fn new() -> (s: PositionSet)
        ensures
            s@ == Set::<Position>::empty(),
    {
        let s = PositionSet { cells: [[false; 8]; 8] };
        assert(s@ =~= Set::<Position>::empty());
        s
    }

    /// Whether `p` belongs to the set. A position off the board belongs to no set.
    pub fn contains(&self, p: &Position) -> (found: bool)
        ensures
            found == self@.contains(*p),
    {
        p.x < 8 && p.y < 8 && self.cells[p.x][p.y]
    }

    /// Adds the square `p` to the set.
    pub fn insert(&mut self, p: Position)
        requires
            on_board(p),
        ensures
            final(self)@ == old(self)@.insert(p),
    {
        self.cells[p.x][p.y] = true;
        assert(self@ =~= old(self)@.insert(p));
    }

    /// Whether the set holds no square.
    pub fn is_empty(&self) -> (b: bool)
        ensures
            b == (self@ == Set::<Position>::empty()),
    {
        let mut x: usize = 0;
        while x < 8
            invariant
                x <= 8,
                forall|p: Position| p.x < x && p.y < 8 ==> !self.cells[p.x as int][p.y as int],
            decreases 8 - x,
        {
            let mut y: usize = 0;
            while y < 8
                invariant
                    x < 8,
                    y <= 8,
                    forall|p: Position| p.x < x && p.y < 8 ==> !self.cells[p.x as int][p.y as int],
                    forall|p: Position| p.x == x && p.y < y ==> !self.cells[p.x as int][p.y as int],
                decreases 8 - y,
            {
                if self.cells[x][y] {
                    assert(self@.contains(Position { x, y }));
                    return false;
                }
                y += 1;
            }
            x += 1;
        }
        assert(self@ =~= Set::<Position>::empty());
        true
    }

    /// The squares of the set, each once.
    pub fn to_vec(&self) -> (v: Vec<Position>)
        ensures
            v@.no_duplicates(),
            forall|p: Position| v@.contains(p) <==> self@.contains(p),
    {
        let mut v: Vec<Position> = Vec::new();
        let mut x: usize = 0;
        while x < 8
            invariant
                x <= 8,
                v@.no_duplicates(),
                forall|p: Position| v@.contains(p) <==> self@.contains(p) && p.x < x,
            decreases 8 - x,
        {
            let mut y: usize = 0;
            while y < 8
                invariant
                    x < 8,
                    y <= 8,
                    v@.no_duplicates(),
                    forall|p: Position|
                        v@.contains(p) <==> self@.contains(p) && (p.x < x || (p.x == x && p.y < y)),
                decreases 8 - y,
            {
                if self.cells[x][y] {
                    let ghost before = v@;
                    let q = Position { x, y };
                    v.push(q);
                    proof {
                        assert(!before.contains(q));
                        assert forall|p: Position|
                            v@.contains(p) <==> self@.contains(p) && (p.x < x || (p.x == x && p.y
                                < y + 1)) by {
                            if v@.contains(p) {
                                let k = choose|k: int| 0 <= k < v@.len() && v@[k] == p;
                                if k < before.len() {
                                    assert(before[k] == p);
                                    assert(before.contains(p));
                                }
                            }
                            if before.contains(p) {
                                let k = choose|k: int| 0 <= k < before.len() && before[k] == p;
                                assert(v@[k] == p);
                            }
                            if p == q {
                                assert(v@[before.len() as int] == p);
                            }
                        }
                    }
                }
                y += 1;
            }
            x += 1;
        }
        v
    }

    /// Adds every square of `other` to the set.
    pub fn extend(&mut self, other: &PositionSet)
        ensures
            final(self)@ == old(self)@.union(other@),
    {
        let mut x: usize = 0;
        while x < 8
            invariant
                x <= 8,
                forall|p: Position|
                    on_board(p) ==> self.cells[p.x as int][p.y as int] == (old(
                        self,
                    ).cells[p.x as int][p.y as int] || (p.x < x
                        && other.cells[p.x as int][p.y as int])),
            decreases 8 - x,
        {
            let mut y: usize = 0;
            while y < 8
                invariant
                    x < 8,
                    y <= 8,
                    forall|p: Position|
                        on_board(p) ==> self.cells[p.x as int][p.y as int] == (old(
                            self,
                        ).cells[p.x as int][p.y as int] || ((p.x < x || (p.x == x && p.y < y))
                            && other.cells[p.x as int][p.y as int])),
                decreases 8 - y,
            {
                if other.cells[x][y] {
                    self.cells[x][y] = true;
                }
                y += 1;
            }
            x += 1;
        }
        assert(self@ =~= old(self)@.union(other@));
    }
}

} // verus!
