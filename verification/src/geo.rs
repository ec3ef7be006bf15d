//! Geographic input model.
//!
//! Features arrive as multi-polygons of planar points: longitude and latitude
//! in micro-degrees (one degree is one million units), exactly representable
//! in 64-bit integers. The shell converts GeoJSON's decimal degrees to this
//! scale before anything here runs.
use vstd::prelude::*;

verus! {

/// Largest admissible coordinate magnitude: a full turn in micro-degrees.
/// Keeping every coordinate under this limit makes all planar arithmetic in
/// the tessellator provably free of overflow.
pub const COORD_LIMIT: i64 = 360_000_000;

/// A planar point: longitude (`x`) and latitude (`y`) in micro-degrees.
#[derive(Clone, Copy, Debug, PartialEq, Eq, Structural)]
pub struct PlanarPoint {
    pub x: i64,
    pub y: i64,
}

impl PlanarPoint {
    /// Both coordinates within the admissible range.
    pub open spec fn in_range(&self) -> bool {
        -COORD_LIMIT <= self.x <= COORD_LIMIT && -COORD_LIMIT <= self.y <= COORD_LIMIT
    }
}

/// The `NAME` entry of a feature's properties map, as found in the input:
/// the whole map may be missing, the key may be missing, the value may be
/// JSON null, or it may be a string.
pub enum NameProperty {
    /// The feature has no properties map, or no `NAME` key in it.
    Missing,
    /// The `NAME` key is present but null.
    Null,
    /// The `NAME` key holds a string.
    Name(String),
}

impl NameProperty {
    /// A feature takes part in tessellation only when its name is a
    /// present, non-null string.
    pub open spec fn is_accepted(&self) -> bool {
        self is Name
    }

    /// Runtime test matching `is_accepted`.
    pub fn accepted(&self) -> (r: bool)
        ensures
            r == self.is_accepted(),
    {
        match self {
            NameProperty::Name(_) => true,
            _ => false,
        }
    }
}

/// One polygon: the first ring is the outer boundary, the remaining rings
/// are holes.
pub struct Polygon {
    pub rings: Vec<Vec<PlanarPoint>>,
}

impl Polygon {
    /// Every coordinate of every ring within the admissible range.
    pub open spec fn in_range(&self) -> bool {
        forall|i: int, j: int|
            0 <= i < self.rings@.len() && 0 <= j < self.rings@[i]@.len()
                ==> (#[trigger] self.rings@[i]@[j]).in_range()
    }
}

/// One input feature: its `NAME` property and its multi-polygon geometry.
pub struct GeoFeature {
    pub name: NameProperty,
    pub polygons: Vec<Polygon>,
}

impl GeoFeature {
    /// Every polygon within coordinate range.
    pub open spec fn in_range(&self) -> bool {
        forall|i: int| 0 <= i < self.polygons@.len() ==> (#[trigger] self.polygons@[i]).in_range()
    }
}

} // verus!
