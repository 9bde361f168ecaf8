//! Whether two queens on a chessboard can attack one another: they can
//! when they share a rank, a file, or a diagonal.

use vstd::prelude::*;

verus! {

/// A pair of board coordinates; `new` admits only the squares of the
/// eight-by-eight board, while differences of positions range wider.
#[derive(Debug)]
pub struct ChessPosition(i32, i32);

/// A queen standing on a position.
#[derive(Debug)]
pub struct Queen {
    position: ChessPosition,
}

impl ChessPosition {
    /// The first coordinate.
    pub closed spec fn rank(&self) -> int {
        self.0 as int
    }

    /// The second coordinate.
    pub closed spec fn file(&self) -> int {
        self.1 as int
    }

    /// Admits a position exactly when both coordinates lie on the board.
    pub fn new(rank: i32, file: i32) -> (result: Option<Self>)
        ensures
            if 0 <= rank < 8 && 0 <= file < 8 {
                (result matches Some(p) && p.rank() == rank && p.file() == file)
            } else {
                result is None
            },
    {
        if rank >= 0 && rank < 8 && file >= 0 && file < 8 {
            return Some(ChessPosition(rank, file));
        }
        None
    }

    /// The coordinate-wise difference of two positions.
    pub fn sub(&self, other: &ChessPosition) -> (result: ChessPosition)
        requires
            i32::MIN <= self.rank() - other.rank() <= i32::MAX,
            i32::MIN <= self.file() - other.file() <= i32::MAX,
        ensures
            result.rank() == self.rank() - other.rank(),
            result.file() == self.file() - other.file(),
    {
        ChessPosition(self.0 - other.0, self.1 - other.1)
    }
}

/// The magnitude of `x`; its one overflowing argument is ruled out.
fn abs_i32(x: i32) -> (result: i32)
    requires
        x != i32::MIN,
    ensures
        result == vstd::math::abs(x as int),
{
    if x < 0 {
        -x
    } else {
        x
    }
}

impl Queen {
    /// The rank its position holds.
    pub closed spec fn rank(&self) -> int {
        self.position.rank()
    }

    /// The file its position holds.
    pub closed spec fn file(&self) -> int {
        self.position.file()
    }

    /// Places a queen on `position`.
    pub fn new(position: ChessPosition) -> (result: Self)
        ensures
            result.rank() == position.rank(),
            result.file() == position.file(),
    {
        Queen { position }
    }

    /// True when the two queens share a rank, a file, or a diagonal.
    pub fn can_attack(&self, other: &Queen) -> (result: bool)
        requires
            i32::MIN < self.rank() - other.rank() <= i32::MAX,
            i32::MIN < self.file() - other.file() <= i32::MAX,
        ensures
            result == (self.rank() == other.rank() || self.file() == other.file()
                || vstd::math::abs(self.rank() - other.rank()) == vstd::math::abs(
                self.file() - other.file(),
            )),
    {
        if self.position.0 == other.position.0 {
            return true;
        }
        if self.position.1 == other.position.1 {
            return true;
        }
        let aux: ChessPosition = self.position.sub(&other.position);
        if abs_i32(aux.0) == abs_i32(aux.1) {
            return true;
        }
        false
    }
}

} // verus!
