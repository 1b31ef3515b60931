//! The value stored in one grid cell: what occupies it, the side on which it
//! is attached to its parent, and the directions in which it may grow.

use vstd::prelude::*;

verus! {

/// What occupies a cell.
#[derive(Clone, Copy, PartialEq, Eq, Structural, Debug)]
pub enum CellType {
    Empty,
    Body,
    Axon,
    Dendrite,
}

/// The side of a cell through which growth reached it.
#[derive(Clone, Copy, PartialEq, Eq, Structural, Debug)]
pub enum Gate {
    North,
    South,
    East,
    West,
}

/// A compass direction of growth. North is towards larger `y`, east towards
/// larger `x`.
#[derive(Clone, Copy, PartialEq, Eq, Structural, Debug)]
pub enum Chromosome {
    North,
    South,
    East,
    West,
}

/// The set of directions in which a cell may grow.
#[derive(Clone, Copy, PartialEq, Eq, Structural, Debug)]
pub struct Permissions {
    pub north: bool,
    pub south: bool,
    pub east: bool,
    pub west: bool,
}

/// One grid cell.
#[derive(Clone, Copy, PartialEq, Eq, Structural, Debug)]
pub struct Cell {
    pub cell_type: CellType,
    pub gate: Gate,
    pub permissions: Permissions,
}

impl Chromosome {
    /// The direction that points the other way.
    pub open spec fn reverse(self) -> Chromosome {
        match self {
            Chromosome::North => Chromosome::South,
            Chromosome::South => Chromosome::North,
            Chromosome::East => Chromosome::West,
            Chromosome::West => Chromosome::East,
        }
    }

    /// Which gate a cell has that was grown in this direction: the side facing
    /// back to where the growth came from.
    pub open spec fn opposite_gate(self) -> Gate {
        match self {
            Chromosome::North => Gate::South,
            Chromosome::South => Gate::North,
            Chromosome::East => Gate::West,
            Chromosome::West => Gate::East,
        }
    }

    /// Computes [`Chromosome::opposite_gate`].
    pub fn gate_behind(self) -> (g: Gate)
        ensures
            g == self.opposite_gate(),
    {
        match self {
            Chromosome::North => Gate::South,
            Chromosome::South => Gate::North,
            Chromosome::East => Gate::West,
            Chromosome::West => Gate::East,
        }
    }
}

impl Gate {
    /// Gate number `n % 4`, counting north, south, east, west from 0.
    pub open spec fn numbered(n: u32) -> Gate {
        if n % 4 == 0 {
            Gate::North
        } else if n % 4 == 1 {
            Gate::South
        } else if n % 4 == 2 {
            Gate::East
        } else {
            Gate::West
        }
    }

    /// Computes [`Gate::numbered`].
    pub fn from_number(n: u32) -> (g: Gate)
        ensures
            g == Gate::numbered(n),
    {
        let r: u32 = n % 4;
        if r == 0 {
            Gate::North
        } else if r == 1 {
            Gate::South
        } else if r == 2 {
            Gate::East
        } else {
            Gate::West
        }
    }
}

impl Permissions {
    /// Whether growth in direction `d` is permitted.
    pub open spec fn permits(self, d: Chromosome) -> bool {
        match d {
            Chromosome::North => self.north,
            Chromosome::South => self.south,
            Chromosome::East => self.east,
            Chromosome::West => self.west,
        }
    }

    /// The permissions encoded by the low four bits of `bits`: north is worth
    /// 1, south 2, east 4 and west 8.
    pub open spec fn decoded(bits: u32) -> Permissions {
        Permissions {
            north: bits % 2 == 1,
            south: (bits / 2) % 2 == 1,
            east: (bits / 4) % 2 == 1,
            west: (bits / 8) % 2 == 1,
        }
    }

    /// No direction permitted.
    pub fn none() -> (p: Permissions)
        ensures
            forall|d: Chromosome| !p.permits(d),
            p == Permissions::decoded(0),
    {
        Permissions { north: false, south: false, east: false, west: false }
    }

    /// Every direction permitted.
    pub fn all() -> (p: Permissions)
        ensures
            forall|d: Chromosome| p.permits(d),
            p == Permissions::decoded(15),
    {
        Permissions { north: true, south: true, east: true, west: true }
    }

    /// Computes [`Permissions::decoded`].
    pub fn from_bits(bits: u32) -> (p: Permissions)
        ensures
            p == Permissions::decoded(bits),
    {
        Permissions {
            north: bits % 2 == 1,
            south: (bits / 2) % 2 == 1,
            east: (bits / 4) % 2 == 1,
            west: (bits / 8) % 2 == 1,
        }
    }

    /// Whether growth in direction `d` is permitted.
    pub fn contains(&self, d: Chromosome) -> (b: bool)
        ensures
            b == self.permits(d),
    {
        match d {
            Chromosome::North => self.north,
            Chromosome::South => self.south,
            Chromosome::East => self.east,
            Chromosome::West => self.west,
        }
    }
}

impl Cell {
    /// An empty cell: gate north, no direction permitted.
    pub open spec fn blank() -> Cell {
        Cell { cell_type: CellType::Empty, gate: Gate::North, permissions: Permissions::decoded(0) }
    }

    /// The cell that growth in direction `d` produces: of type `cell_type`,
    /// its gate facing back against `d`, no direction permitted.
    pub open spec fn grown(cell_type: CellType, d: Chromosome) -> Cell {
        Cell { cell_type, gate: d.opposite_gate(), permissions: Permissions::decoded(0) }
    }

    /// This cell after the proposed value `change` is written into it: type
    /// and gate are those of `change`, the permissions stay.
    pub open spec fn merged(self, change: Cell) -> Cell {
        Cell { cell_type: change.cell_type, gate: change.gate, permissions: self.permissions }
    }

    /// Whether nothing occupies the cell.
    pub open spec fn vacant(self) -> bool {
        self.cell_type == CellType::Empty
    }

    /// An empty cell.
    pub fn new() -> (c: Cell)
        ensures
            c == Cell::blank(),
    {
        Cell { cell_type: CellType::Empty, gate: Gate::North, permissions: Permissions::none() }
    }

    pub fn get_cell_type(&self) -> (t: CellType)
        ensures
            t == self.cell_type,
    {
        self.cell_type
    }

    pub fn set_cell_type(&mut self, cell_type: CellType)
        ensures
            *final(self) == (Cell { cell_type, ..*old(self) }),
    {
        self.cell_type = cell_type;
    }

    pub fn get_gate(&self) -> (g: Gate)
        ensures
            g == self.gate,
    {
        self.gate
    }

    pub fn set_gate(&mut self, gate: Gate)
        ensures
            *final(self) == (Cell { gate, ..*old(self) }),
    {
        self.gate = gate;
    }

    pub fn get_chromosome(&self) -> (p: Permissions)
        ensures
            p == self.permissions,
    {
        self.permissions
    }

    pub fn set_chromosome(&mut self, permissions: Permissions)
        ensures
            *final(self) == (Cell { permissions, ..*old(self) }),
    {
        self.permissions = permissions;
    }

    /// Whether the cell may grow in direction `d`.
    pub fn chromosome_contains(&self, d: Chromosome) -> (b: bool)
        ensures
            b == self.permissions.permits(d),
    {
        self.permissions.contains(d)
    }
}

} // verus!
