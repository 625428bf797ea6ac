use vstd::prelude::*;

verus! {

/// The smallest per-axis speed that the command line accepts.
pub const MIN_SPEED: i64 = -10;

/// The largest per-axis speed that the command line accepts.
pub const MAX_SPEED: i64 = 10;

/// The solids that can be chosen by name.
#[derive(Clone, Copy, Debug, PartialEq, Eq, Structural)]
pub enum ShapeKind {
    Cube,
    Tetrahedron,
}

/// The solid that a shape name selects: "tetrahedron" selects the tetrahedron;
/// "cube" and every other name select the cube.
pub open spec fn shape_of_name(name: Seq<char>) -> ShapeKind {
    if name == "tetrahedron"@ {
        ShapeKind::Tetrahedron
    } else {
        ShapeKind::Cube
    }
}

impl ShapeKind {
    /// The solid that `name` selects.
    pub fn from_name(name: &str) -> (kind: ShapeKind)
        ensures
            kind == shape_of_name(name@),
    {
        let name: String = name.to_owned();
        let tetrahedron: String = "tetrahedron".to_owned();
        if name.eq(&tetrahedron) {
            ShapeKind::Tetrahedron
        } else {
            ShapeKind::Cube
        }
    }
}

/// The options of a run: the shape to spin, and its speed about each axis in
/// hundredths of a radian per frame.
#[derive(Debug)]
pub struct CliOptions {
    pub shape: String,
    pub x: i64,
    pub y: i64,
    pub z: i64,
}

/// Each speed lies in the range that the command line accepts.
pub open spec fn speeds_in_range(x: i64, y: i64, z: i64) -> bool {
    &&& MIN_SPEED <= x <= MAX_SPEED
    &&& MIN_SPEED <= y <= MAX_SPEED
    &&& MIN_SPEED <= z <= MAX_SPEED
}

impl CliOptions {
    /// The solid that these options select.
    pub fn shape_kind(&self) -> (kind: ShapeKind)
        ensures
            kind == shape_of_name(self.shape@),
    {
        ShapeKind::from_name(self.shape.as_str())
    }

    /// Whether every speed lies in the range that the command line accepts.
    pub fn speeds_valid(&self) -> (ok: bool)
        ensures
            ok == speeds_in_range(self.x, self.y, self.z),
    {
        MIN_SPEED <= self.x && self.x <= MAX_SPEED && MIN_SPEED <= self.y && self.y <= MAX_SPEED
            && MIN_SPEED <= self.z && self.z <= MAX_SPEED
    }
}

} // verus!
