use vstd::prelude::*;

verus! {

/// Per-face findings represented as stable ABI-compatible bits.
#[derive(Clone, Copy, Debug, PartialEq, Eq, Structural)]
pub struct MeshFaceFlags(pub u32);

impl MeshFaceFlags {
    /// The face references a vertex outside the position buffer.
    pub fn invalid_index() -> (flags: MeshFaceFlags)
        ensures
            flags.0 == 1,
    {
        MeshFaceFlags(1)
    }
    /// At least one referenced vertex is non-finite.
    pub fn non_finite_vertex() -> (flags: MeshFaceFlags)
        ensures
            flags.0 == 2,
    {
        MeshFaceFlags(2)
    }
    /// The face repeats an index or has negligible area.
    pub fn degenerate() -> (flags: MeshFaceFlags)
        ensures
            flags.0 == 4,
    {
        MeshFaceFlags(4)
    }
    /// The face duplicates an earlier face, independent of winding.
    pub fn duplicate() -> (flags: MeshFaceFlags)
        ensures
            flags.0 == 8,
    {
        MeshFaceFlags(8)
    }

    /// Flags with no finding set.
    pub fn empty() -> (flags: Self)
        ensures
            flags.0 == 0,
    {
        MeshFaceFlags(0)
    }

    /// Returns the raw stable bits.
    pub fn bits(self) -> (bits: u32)
        ensures
            bits == self.0,
    {
        self.0
    }

    /// Returns true when every bit from `other` is present.
    pub fn contains(self, other: Self) -> (present: bool)
        ensures
            present == (self.0 & other.0 == other.0),
    {
        self.0 & other.0 == other.0
    }

    /// Returns true when conservative repair may remove this face.
    pub fn is_repairable(self) -> (repairable: bool)
        ensures
            repairable == (self.0 != 0),
    {
        self.0 != 0
    }

    /// Adds every bit of `other`.
    pub fn insert(&mut self, other: Self)
        ensures
            final(self).0 == old(self).0 | other.0,
    {
        self.0 = self.0 | other.0;
    }
}

impl Default for MeshFaceFlags {
    fn default() -> (flags: Self)
        ensures
            flags.0 == 0,
    {
        MeshFaceFlags(0)
    }
}

/// Per-vertex findings represented as stable ABI-compatible bits.
#[derive(Clone, Copy, Debug, PartialEq, Eq, Structural)]
pub struct MeshVertexFlags(pub u32);

impl MeshVertexFlags {
    /// The vertex contains NaN or infinity.
    pub fn non_finite() -> (flags: MeshVertexFlags)
        ensures
            flags.0 == 1,
    {
        MeshVertexFlags(1)
    }
    /// The vertex is not referenced by an accepted face.
    pub fn isolated() -> (flags: MeshVertexFlags)
        ensures
            flags.0 == 2,
    {
        MeshVertexFlags(2)
    }

    /// Flags with no finding set.
    pub fn empty() -> (flags: Self)
        ensures
            flags.0 == 0,
    {
        MeshVertexFlags(0)
    }

    /// Returns the raw stable bits.
    pub fn bits(self) -> (bits: u32)
        ensures
            bits == self.0,
    {
        self.0
    }

    /// Returns true when every bit from `other` is present.
    pub fn contains(self, other: Self) -> (present: bool)
        ensures
            present == (self.0 & other.0 == other.0),
    {
        self.0 & other.0 == other.0
    }

    /// Adds every bit of `other`.
    pub fn insert(&mut self, other: Self)
        ensures
            final(self).0 == old(self).0 | other.0,
    {
        self.0 = self.0 | other.0;
    }
}

impl Default for MeshVertexFlags {
    fn default() -> (flags: Self)
        ensures
            flags.0 == 0,
    {
        MeshVertexFlags(0)
    }
}

/// Inserting a flag makes it present, keeps every flag already present, and
/// inserting it again changes nothing.
pub proof fn lemma_face_flag_insert(flags: u32, other: u32, kept: u32)
    ensures
        (flags | other) & other == other,
        flags & kept == kept ==> (flags | other) & kept == kept,
        (flags | other) | other == flags | other,
        (flags | other != 0) == (flags != 0 || other != 0),
{
    assert((flags | other) & other == other) by (bit_vector);
    assert(flags & kept == kept ==> (flags | other) & kept == kept) by (bit_vector);
    assert((flags | other) | other == flags | other) by (bit_vector);
    assert((flags | other != 0) == (flags != 0 || other != 0)) by (bit_vector);
}

/// Invalid mesh-audit configuration.
#[derive(Clone, Copy, Debug, PartialEq, Eq, Structural)]
pub enum MeshAuditError {
    /// The absolute tolerance is non-finite or not positive.
    InvalidTolerance,
    /// The floating-point precision budget is non-finite or not positive.
    InvalidPrecisionBudget,
    /// A repaired mesh would exceed the canonical u32 vertex-index range.
    TooManyVertices,
}

/// Validation errors for a ray.
#[derive(Clone, Copy, Debug, PartialEq, Eq, Structural)]
pub enum RayError {
    /// The origin contains NaN or infinity.
    NonFiniteOrigin,
    /// The direction is zero or non-finite.
    InvalidDirection,
    /// The minimum distance is negative or non-finite.
    InvalidMinimumDistance,
    /// The maximum distance is NaN or smaller than the minimum.
    InvalidMaximumDistance,
}

/// A non-mutating mesh validation finding.
#[derive(Clone, Copy, Debug, PartialEq, Eq)]
pub enum MeshIssue {
    /// A vertex contains NaN or infinity.
    NonFiniteVertex {
        /// Index of the invalid vertex.
        vertex_index: usize,
    },
    /// A triangle references a vertex outside the position buffer.
    IndexOutOfBounds {
        /// Index of the invalid triangle.
        triangle_index: usize,
        /// Invalid triangle indices.
        indices: [u32; 3],
        /// Number of available vertices.
        vertex_count: usize,
    },
    /// A triangle has negligible area under the selected tolerance.
    DegenerateTriangle {
        /// Index of the degenerate triangle.
        triangle_index: usize,
    },
}

/// Invalid healing policy or geometry range.
#[derive(Clone, Copy, Debug, PartialEq, Eq, Structural)]
pub enum MeshHealError {
    /// Audit policy is invalid.
    Audit(MeshAuditError),
    /// Weld distance is negative or non-finite.
    InvalidWeldTolerance,
    /// Coordinates cannot be represented by the deterministic spatial grid.
    CoordinateRangeExceeded,
}

impl From<MeshAuditError> for MeshHealError {
    fn from(value: MeshAuditError) -> (error: Self) {
        MeshHealError::Audit(value)
    }
}

impl vstd::std_specs::convert::FromSpecImpl<MeshAuditError> for MeshHealError {
    open spec fn obeys_from_spec() -> bool {
        true
    }

    open spec fn from_spec(value: MeshAuditError) -> Self {
        MeshHealError::Audit(value)
    }
}

/// Invalid region of interest or post-clip healing failure.
#[derive(Clone, Copy, Debug, PartialEq, Eq, Structural)]
pub enum MeshClipError {
    /// Bounds contain non-finite coordinates or have inverted axes.
    InvalidBounds,
    /// Clip tolerance is non-finite or not positive.
    InvalidTolerance,
    /// Post-clip canonicalization failed.
    Heal(MeshHealError),
}

/// Surface-grid validation and resource failures.
#[derive(Clone, Copy, Debug, PartialEq, Eq, Structural)]
pub enum SurfaceGridError {
    /// Target edge length is non-finite or not positive.
    InvalidTargetEdgeLength,
    /// Sensor offset is non-finite or negative.
    InvalidSensorOffset,
    /// Stable sensor identifiers reserve zero as the absent value.
    InvalidFirstSensorId,
    /// Maximum cell count must be positive.
    InvalidMaximumCellCount,
    /// Generated cells would exceed the configured resource ceiling.
    CellLimitExceeded,
    /// Stable sensor identifiers would overflow `u64`.
    SensorIdOverflow,
    /// A source face index cannot be represented by the stable contract.
    SourceFaceIndexOverflow,
    /// Subdivision failed to converge within the defensive depth ceiling.
    SubdivisionDepthExceeded,
}

} // verus!
