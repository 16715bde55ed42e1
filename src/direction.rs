//! Compass headings and movement on a toroidal grid.
use vstd::prelude::*;

verus! {

/// A heading of the instruction cursor.
#[derive(Clone, Copy, Debug, PartialEq, Eq, Structural)]
pub enum Direction {
    North,
    South,
    East,
    West,
}

impl Direction {
    /// The heading that points the other way along the same axis.
    pub open spec fn spec_opposite(self) -> Direction {
        match self {
            Direction::North => Direction::South,
            Direction::South => Direction::North,
            Direction::East => Direction::West,
            Direction::West => Direction::East,
        }
    }

    pub fn opposite(self) -> (r: Direction)
        ensures
            r == self.spec_opposite(),
    {
        match self {
            Direction::North => Direction::South,
            Direction::South => Direction::North,
            Direction::East => Direction::West,
            Direction::West => Direction::East,
        }
    }

    /// The heading after a `\` mirror.
    pub open spec fn spec_back_mirror(self) -> Direction {
        match self {
            Direction::North => Direction::West,
            Direction::South => Direction::East,
            Direction::East => Direction::South,
            Direction::West => Direction::North,
        }
    }

    pub fn back_mirror(self) -> (r: Direction)
        ensures
            r == self.spec_back_mirror(),
    {
        match self {
            Direction::North => Direction::West,
            Direction::South => Direction::East,
            Direction::East => Direction::South,
            Direction::West => Direction::North,
        }
    }

    /// The heading after a `/` mirror.
    pub open spec fn spec_forward_mirror(self) -> Direction {
        match self {
            Direction::North => Direction::East,
            Direction::South => Direction::West,
            Direction::East => Direction::North,
            Direction::West => Direction::South,
        }
    }

    pub fn forward_mirror(self) -> (r: Direction)
        ensures
            r == self.spec_forward_mirror(),
    {
        match self {
            Direction::North => Direction::East,
            Direction::South => Direction::West,
            Direction::East => Direction::North,
            Direction::West => Direction::South,
        }
    }

    /// Whether one step in `direction` from `location` stays within `usize`.
    pub open spec fn can_step(direction: Direction, location: (usize, usize)) -> bool {
        match direction {
            Direction::North => location.1 > 0,
            Direction::South => location.1 < usize::MAX,
            Direction::East => location.0 < usize::MAX,
            Direction::West => location.0 > 0,
        }
    }

    /// The neighbouring cell in `direction` on an unbounded plane
    /// (`location` is a (column, row) pair, rows growing southward).
    pub open spec fn spec_step_location(direction: Direction, location: (usize, usize)) -> (
        usize,
        usize,
    ) {
        match direction {
            Direction::North => (location.0, (location.1 - 1) as usize),
            Direction::South => (location.0, (location.1 + 1) as usize),
            Direction::East => ((location.0 + 1) as usize, location.1),
            Direction::West => ((location.0 - 1) as usize, location.1),
        }
    }

    pub fn step_location(direction: Self, location: (usize, usize)) -> (r: (usize, usize))
        requires
            Self::can_step(direction, location),
        ensures
            r == Self::spec_step_location(direction, location),
    {
        match direction {
            Direction::North => (location.0, location.1 - 1),
            Direction::South => (location.0, location.1 + 1),
            Direction::East => (location.0 + 1, location.1),
            Direction::West => (location.0 - 1, location.1),
        }
    }
}

/// The next cell from `location` in `direction` on a grid of `width` columns
/// and `height` rows whose opposite edges are joined.
pub open spec fn moved(location: (usize, usize), direction: Direction, width: nat, height: nat) -> (
    usize,
    usize,
) {
    match direction {
        Direction::North => if location.1 == 0 {
            (location.0, (height - 1) as usize)
        } else {
            (location.0, (location.1 - 1) as usize)
        },
        Direction::South => if location.1 + 1 >= height {
            (location.0, 0usize)
        } else {
            (location.0, (location.1 + 1) as usize)
        },
        Direction::West => if location.0 == 0 {
            ((width - 1) as usize, location.1)
        } else {
            ((location.0 - 1) as usize, location.1)
        },
        Direction::East => if location.0 + 1 >= width {
            (0usize, location.1)
        } else {
            ((location.0 + 1) as usize, location.1)
        },
    }
}

/// Moves one cell on a toroidal grid of `width` columns and `height` rows.
pub fn move_on_torus(location: (usize, usize), direction: Direction, width: usize, height: usize) -> (r:
    (usize, usize))
    requires
        width > 0,
        height > 0,
    ensures
        r == moved(location, direction, width as nat, height as nat),
        location.0 < width && location.1 < height ==> r.0 < width && r.1 < height,
{
    match direction {
        Direction::North => if location.1 == 0 {
            (location.0, height - 1)
        } else {
            (location.0, location.1 - 1)
        },
        Direction::South => if location.1 >= height - 1 {
            (location.0, 0)
        } else {
            (location.0, location.1 + 1)
        },
        Direction::West => if location.0 == 0 {
            (width - 1, location.1)
        } else {
            (location.0 - 1, location.1)
        },
        Direction::East => if location.0 >= width - 1 {
            (0, location.1)
        } else {
            (location.0 + 1, location.1)
        },
    }
}

} // verus!
