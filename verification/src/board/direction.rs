use vstd::prelude::*;
use crate::bits::{bit, lemma_bit_ops};
use crate::hashing::bitmask;
use crate::hashing::bitmask::{on_ray, shifted_bit};

verus! {

/// The eight compass points, seen from white's side of the board: north is
/// towards rank 8, east towards the h-file.
#[derive(Debug, Clone, Copy, PartialEq, Eq, Structural)]
pub enum Direction {
    Northwest,
    North,
    Northeast,
    East,
    Southeast,
    South,
    Southwest,
    West,
}

impl Direction {
    pub open spec fn spec_index(self) -> usize {
        match self {
            Direction::Northwest => 0,
            Direction::North => 1,
            Direction::Northeast => 2,
            Direction::East => 3,
            Direction::Southeast => 4,
            Direction::South => 5,
            Direction::Southwest => 6,
            Direction::West => 7,
        }
    }

    #[verifier::when_used_as_spec(spec_index)]
    pub fn index(self) -> (i: usize)
        ensures
            i == self.spec_index(),
            i < 8,
    {
        match self {
            Direction::Northwest => 0,
            Direction::North => 1,
            Direction::Northeast => 2,
            Direction::East => 3,
            Direction::Southeast => 4,
            Direction::South => 5,
            Direction::Southwest => 6,
            Direction::West => 7,
        }
    }

    pub fn from_index(i: usize) -> (direction: Direction)
        requires
            i < 8,
        ensures
            direction.index() == i,
    {
        match i {
            0 => Direction::Northwest,
            1 => Direction::North,
            2 => Direction::Northeast,
            3 => Direction::East,
            4 => Direction::Southeast,
            5 => Direction::South,
            6 => Direction::Southwest,
            _ => Direction::West,
        }
    }

    /// Row change after `n` steps in this direction.
    pub open spec fn rows(self, n: int) -> int {
        match self {
            Direction::Northwest | Direction::North | Direction::Northeast => n,
            Direction::Southwest | Direction::South | Direction::Southeast => -n,
            Direction::East | Direction::West => 0,
        }
    }

    /// Column change after `n` steps in this direction.
    pub open spec fn cols(self, n: int) -> int {
        match self {
            Direction::Northeast | Direction::East | Direction::Southeast => n,
            Direction::Northwest | Direction::West | Direction::Southwest => -n,
            Direction::North | Direction::South => 0,
        }
    }

    /// Moves every square of `mask` by `n` steps in this direction. Squares
    /// that would leave the board are dropped, none wraps around an edge.
    pub fn shift(self, mask: u64, n: usize) -> (shifted: u64)
        ensures
            forall|t: int|
                0 <= t < 64 ==> #[trigger] bit(shifted, t) == shifted_bit(
                    mask,
                    self.rows(n as int),
                    self.cols(n as int),
                    t,
                ),
    {
        match self {
            Direction::North => bitmask::shift_up(mask, n),
            Direction::East => bitmask::shift_right(mask, n),
            Direction::South => bitmask::shift_down(mask, n),
            Direction::West => bitmask::shift_left(mask, n),
            Direction::Northwest => bitmask::shift_up(bitmask::shift_left(mask, n), n),
            Direction::Northeast => bitmask::shift_up(bitmask::shift_right(mask, n), n),
            Direction::Southeast => bitmask::shift_down(bitmask::shift_right(mask, n), n),
            Direction::Southwest => bitmask::shift_down(bitmask::shift_left(mask, n), n),
        }
    }

    /// The ray from square `i` in this direction, `i` itself included.
    pub fn ray(self, i: usize) -> (ray: u64)
        requires
            i < 64,
        ensures
            forall|t: int| 0 <= t < 64 ==> #[trigger] bit(ray, t) == on_ray(self, i as int, t),
    {
        let start = bitmask::square_mask(i);
        let mut ray: u64 = 0;
        let mut k: usize = 0;
        proof {
            lemma_bit_ops();
        }
        while k < 8
            invariant
                k <= 8,
                i < 64,
                forall|t: int| bit(start, t) == (t == i),
                forall|t: int|
                    0 <= t < 64 ==> #[trigger] bit(ray, t) == (on_ray(self, i as int, t)
                        && bitmask::distance(i as int, t) < k),
            decreases 8 - k,
        {
            let step = self.shift(start, k);
            proof {
                lemma_bit_ops();
                assert forall|t: int| 0 <= t < 64 implies #[trigger] bit(ray | step, t) == (on_ray(
                    self,
                    i as int,
                    t,
                ) && bitmask::distance(i as int, t) < k + 1) by {
                    bitmask::lemma_ray_step(self, start, i as int, k as int, t);
                }
            }
            ray = ray | step;
            k += 1;
        }
        ray
    }

    /// The rays in this direction from every square, by square index.
    pub fn rays(self) -> (rays: [u64; 64])
        ensures
            forall|i: int, t: int|
                0 <= i < 64 && 0 <= t < 64 ==> #[trigger] bit(rays[i], t) == on_ray(self, i, t),
    {
        let mut rays: [u64; 64] = [0; 64];
        let mut i: usize = 0;
        while i < 64
            invariant
                i <= 64,
                forall|j: int, t: int|
                    0 <= j < i && 0 <= t < 64 ==> #[trigger] bit(rays[j], t) == on_ray(self, j, t),
            decreases 64 - i,
        {
            rays[i] = self.ray(i);
            i += 1;
        }
        rays
    }
}

} // verus!
