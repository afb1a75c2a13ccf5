use vstd::prelude::*;

verus! {

/// A point of the integer grid.
#[derive(Debug, Clone, Copy, PartialEq, Eq, Structural)]
pub struct GridPoint {
    pub x: i32,
    pub y: i32,
    pub z: i32,
}

/// An axis-aligned cube on the integer grid, by its lowest and its highest
/// corner.
#[derive(Debug, Clone, Copy, PartialEq, Eq, Structural)]
pub struct GridBox {
    pub vmin: GridPoint,
    pub vmax: GridPoint,
}

/// The cube with the lowest corner `(x, y, z)` and edges of length `size`.
pub open spec fn cube(x: int, y: int, z: int, size: int) -> GridBox {
    GridBox {
        vmin: GridPoint { x: x as i32, y: y as i32, z: z as i32 },
        vmax: GridPoint { x: (x + size) as i32, y: (y + size) as i32, z: (z + size) as i32 },
    }
}

/// Collects cubes, one `add` after another.
pub struct BoxBuilder {
    boxes: Vec<GridBox>,
}

impl View for BoxBuilder {
    type V = Seq<GridBox>;

    closed spec fn view(&self) -> Seq<GridBox> {
        self.boxes@
    }
}

impl BoxBuilder {
    /// A builder that holds no cube yet.
    pub fn new() -> (builder: BoxBuilder)
        ensures
            builder@ == Seq::<GridBox>::empty(),
    {
        BoxBuilder { boxes: Vec::new() }
    }

    /// Adds a cube with the lowest corner `(x, y, z)` and edges of length `size`
    /// behind the cubes that are there.
    pub fn add(self, x: i32, y: i32, z: i32, size: i32) -> (builder: BoxBuilder)
        requires
            size > 0,
            x + size <= i32::MAX,
            y + size <= i32::MAX,
            z + size <= i32::MAX,
        ensures
            builder@ == self@.push(cube(x as int, y as int, z as int, size as int)),
    {
        let mut builder = self;
        builder.boxes.push(
            GridBox {
                vmin: GridPoint { x, y, z },
                vmax: GridPoint { x: x + size, y: y + size, z: z + size },
            },
        );
        builder
    }

    /// The cubes in the order in which they were added.
    pub fn build(self) -> (boxes: Vec<GridBox>)
        ensures
            boxes@ == self@,
    {
        self.boxes
    }
}

} // verus!
