//! The ephemeris record data model.
//!
//! One record is an interpolable time series for one body relative to its
//! parent: a display name, a reference epoch, a direction flag, the parent
//! and orientation hashes, an interpolation kind, the units of the payload,
//! and the spline payload itself.  Coefficients are carried as 64-bit wide
//! bit patterns; the engine sizes and stores them but never does arithmetic
//! on them.
use vstd::prelude::*;
use crate::epoch::Epoch;
use crate::HashType;

verus! {

/// How a spline piece's payload is to be evaluated.
#[derive(Copy, Clone, Debug, PartialEq, Eq, Structural)]
pub enum InterpolationKind {
    /// Chebyshev coefficients for position only; velocity comes from the
    /// analytic derivative of the same recurrence.
    ChebyshevPositionOnly,
    /// Sampled position and velocity pairs for divided-difference Hermite
    /// interpolation.
    HermitePositionVelocity,
}

/// The length unit of the stored payload.
#[derive(Copy, Clone, Debug, PartialEq, Eq, Structural)]
pub enum DistanceUnit {
    Micrometer,
    Millimeter,
    Meter,
    Kilometer,
    Megameter,
}

/// The time unit of the stored payload.
#[derive(Copy, Clone, Debug, PartialEq, Eq, Structural)]
pub enum TimeUnit {
    Nanosecond,
    Microsecond,
    Millisecond,
    Second,
    Minute,
    Hour,
    Day,
}

/// Tag byte of each interpolation kind in the binary record format.
pub open spec fn spec_kind_tag(k: InterpolationKind) -> u8 {
    match k {
        InterpolationKind::ChebyshevPositionOnly => 1,
        InterpolationKind::HermitePositionVelocity => 2,
    }
}

/// The interpolation kind a tag byte stands for, if any.
pub open spec fn spec_kind_from_tag(b: u8) -> Option<InterpolationKind> {
    if b == 1 {
        Some(InterpolationKind::ChebyshevPositionOnly)
    } else if b == 2 {
        Some(InterpolationKind::HermitePositionVelocity)
    } else {
        None
    }
}

/// Tag byte of each length unit in the binary record format.
pub open spec fn spec_distance_unit_tag(d: DistanceUnit) -> u8 {
    match d {
        DistanceUnit::Micrometer => 1,
        DistanceUnit::Millimeter => 2,
        DistanceUnit::Meter => 3,
        DistanceUnit::Kilometer => 4,
        DistanceUnit::Megameter => 5,
    }
}

/// The length unit a tag byte stands for, if any.
pub open spec fn spec_distance_unit_from_tag(b: u8) -> Option<DistanceUnit> {
    if b == 1 {
        Some(DistanceUnit::Micrometer)
    } else if b == 2 {
        Some(DistanceUnit::Millimeter)
    } else if b == 3 {
        Some(DistanceUnit::Meter)
    } else if b == 4 {
        Some(DistanceUnit::Kilometer)
    } else if b == 5 {
        Some(DistanceUnit::Megameter)
    } else {
        None
    }
}

/// Tag byte of each time unit in the binary record format.
pub open spec fn spec_time_unit_tag(t: TimeUnit) -> u8 {
    match t {
        TimeUnit::Nanosecond => 1,
        TimeUnit::Microsecond => 2,
        TimeUnit::Millisecond => 3,
        TimeUnit::Second => 4,
        TimeUnit::Minute => 5,
        TimeUnit::Hour => 6,
        TimeUnit::Day => 7,
    }
}

/// The time unit a tag byte stands for, if any.
pub open spec fn spec_time_unit_from_tag(b: u8) -> Option<TimeUnit> {
    if b == 1 {
        Some(TimeUnit::Nanosecond)
    } else if b == 2 {
        Some(TimeUnit::Microsecond)
    } else if b == 3 {
        Some(TimeUnit::Millisecond)
    } else if b == 4 {
        Some(TimeUnit::Second)
    } else if b == 5 {
        Some(TimeUnit::Minute)
    } else if b == 6 {
        Some(TimeUnit::Hour)
    } else if b == 7 {
        Some(TimeUnit::Day)
    } else {
        None
    }
}

/// Writes the tag byte of an interpolation kind.
pub fn kind_tag(k: InterpolationKind) -> (b: u8)
    ensures
        b == spec_kind_tag(k),
{
    match k {
        InterpolationKind::ChebyshevPositionOnly => 1,
        InterpolationKind::HermitePositionVelocity => 2,
    }
}

/// Reads an interpolation kind back from its tag byte.
pub fn kind_from_tag(b: u8) -> (r: Option<InterpolationKind>)
    ensures
        r == spec_kind_from_tag(b),
{
    if b == 1 {
        Some(InterpolationKind::ChebyshevPositionOnly)
    } else if b == 2 {
        Some(InterpolationKind::HermitePositionVelocity)
    } else {
        None
    }
}

/// Writes the tag byte of a length unit.
pub fn distance_unit_tag(d: DistanceUnit) -> (b: u8)
    ensures
        b == spec_distance_unit_tag(d),
{
    match d {
        DistanceUnit::Micrometer => 1,
        DistanceUnit::Millimeter => 2,
        DistanceUnit::Meter => 3,
        DistanceUnit::Kilometer => 4,
        DistanceUnit::Megameter => 5,
    }
}

/// Reads a length unit back from its tag byte.
pub fn distance_unit_from_tag(b: u8) -> (r: Option<DistanceUnit>)
    ensures
        r == spec_distance_unit_from_tag(b),
{
    if b == 1 {
        Some(DistanceUnit::Micrometer)
    } else if b == 2 {
        Some(DistanceUnit::Millimeter)
    } else if b == 3 {
        Some(DistanceUnit::Meter)
    } else if b == 4 {
        Some(DistanceUnit::Kilometer)
    } else if b == 5 {
        Some(DistanceUnit::Megameter)
    } else {
        None
    }
}

/// Writes the tag byte of a time unit.
pub fn time_unit_tag(t: TimeUnit) -> (b: u8)
    ensures
        b == spec_time_unit_tag(t),
{
    match t {
        TimeUnit::Nanosecond => 1,
        TimeUnit::Microsecond => 2,
        TimeUnit::Millisecond => 3,
        TimeUnit::Second => 4,
        TimeUnit::Minute => 5,
        TimeUnit::Hour => 6,
        TimeUnit::Day => 7,
    }
}

/// Reads a time unit back from its tag byte.
pub fn time_unit_from_tag(b: u8) -> (r: Option<TimeUnit>)
    ensures
        r == spec_time_unit_from_tag(b),
{
    if b == 1 {
        Some(TimeUnit::Nanosecond)
    } else if b == 2 {
        Some(TimeUnit::Microsecond)
    } else if b == 3 {
        Some(TimeUnit::Millisecond)
    } else if b == 4 {
        Some(TimeUnit::Second)
    } else if b == 5 {
        Some(TimeUnit::Minute)
    } else if b == 6 {
        Some(TimeUnit::Hour)
    } else if b == 7 {
        Some(TimeUnit::Day)
    } else {
        None
    }
}

/// Nanometers in one unit of stored length.
pub open spec fn spec_nanometers_per_distance_unit(d: DistanceUnit) -> u64 {
    match d {
        DistanceUnit::Micrometer => 1_000,
        DistanceUnit::Millimeter => 1_000_000,
        DistanceUnit::Meter => 1_000_000_000,
        DistanceUnit::Kilometer => 1_000_000_000_000,
        DistanceUnit::Megameter => 1_000_000_000_000_000,
    }
}

/// Nanometers in one unit of stored length, as an exact integer scale.
pub fn nanometers_per_distance_unit(d: DistanceUnit) -> (n: u64)
    ensures
        n == spec_nanometers_per_distance_unit(d),
{
    match d {
        DistanceUnit::Micrometer => 1_000,
        DistanceUnit::Millimeter => 1_000_000,
        DistanceUnit::Meter => 1_000_000_000,
        DistanceUnit::Kilometer => 1_000_000_000_000,
        DistanceUnit::Megameter => 1_000_000_000_000_000,
    }
}

/// Nanoseconds in one unit of stored time.
pub open spec fn spec_nanoseconds_per_time_unit(t: TimeUnit) -> u64 {
    match t {
        TimeUnit::Nanosecond => 1,
        TimeUnit::Microsecond => 1_000,
        TimeUnit::Millisecond => 1_000_000,
        TimeUnit::Second => 1_000_000_000,
        TimeUnit::Minute => 60_000_000_000,
        TimeUnit::Hour => 3_600_000_000_000,
        TimeUnit::Day => 86_400_000_000_000,
    }
}

/// Nanoseconds in one unit of stored time, as an exact integer scale.
pub fn nanoseconds_per_time_unit(t: TimeUnit) -> (n: u64)
    ensures
        n == spec_nanoseconds_per_time_unit(t),
{
    match t {
        TimeUnit::Nanosecond => 1,
        TimeUnit::Microsecond => 1_000,
        TimeUnit::Millisecond => 1_000_000,
        TimeUnit::Second => 1_000_000_000,
        TimeUnit::Minute => 60_000_000_000,
        TimeUnit::Hour => 3_600_000_000_000,
        TimeUnit::Day => 86_400_000_000_000,
    }
}

/// How many coefficients one spline piece carries: three axes of Chebyshev
/// coefficients, or three axes of sampled position and velocity pairs, for
/// one more sample than the polynomial degree.
pub open spec fn spec_coeffs_per_piece(kind: InterpolationKind, degree: u8) -> int {
    match kind {
        InterpolationKind::ChebyshevPositionOnly => 3 * (degree + 1),
        InterpolationKind::HermitePositionVelocity => 6 * (degree + 1),
    }
}

/// How many coefficients one spline piece carries.
pub fn coeffs_per_piece(kind: InterpolationKind, degree: u8) -> (n: u16)
    ensures
        n == spec_coeffs_per_piece(kind, degree),
{
    match kind {
        InterpolationKind::ChebyshevPositionOnly => 3 * (degree as u16 + 1),
        InterpolationKind::HermitePositionVelocity => 6 * (degree as u16 + 1),
    }
}

/// One polynomial piece: a validity window in encoded time units relative
/// to the record's reference epoch, and its coefficient payload.
#[derive(Clone, Debug, PartialEq, Eq)]
pub struct SplinePiece {
    /// Start of the validity window, inclusive.
    pub window_start: i64,
    /// End of the validity window; exclusive, except that the final piece of
    /// a record also answers a query at exactly this offset.
    pub window_end: i64,
    /// Bit patterns of the coefficients or samples, sized by the record's
    /// kind and degree.
    pub coefficients: Vec<u64>,
}

/// The ordered spline payload of one record.
#[derive(Clone, Debug, PartialEq, Eq)]
pub struct Splines {
    /// Polynomial degree; each piece carries one more sample than this.
    pub degree: u8,
    /// Pieces ordered by window start, non-overlapping.
    pub pieces: Vec<SplinePiece>,
}

/// One interpolable ephemeris record.
#[derive(Clone, Debug, PartialEq, Eq)]
pub struct Ephemeris {
    /// Display name; also the identity the body hash is computed from.
    pub name: Vec<u8>,
    /// Origin of the encoded time offsets.
    pub ref_epoch: Epoch,
    /// Whether the payload extends backward from the reference epoch.
    pub backward: bool,
    /// Hash of the parent body this record's states are relative to.
    pub parent_ephemeris_hash: HashType,
    /// Hash of the orientation the states are expressed in.
    pub orientation_hash: HashType,
    pub interpolation_kind: InterpolationKind,
    /// Length unit of the stored positions.
    pub distance_unit: DistanceUnit,
    /// Time unit of the window offsets and stored velocities.
    pub time_unit: TimeUnit,
    pub splines: Splines,
}


/// Mathematical model of one body entry of the store.
pub struct BodyModel {
    pub body_hash: u32,
    pub segments: Seq<SegmentModel>,
}

/// Mathematical model of one spline piece.
pub struct PieceModel {
    pub window_start: i64,
    pub window_end: i64,
    pub coefficients: Seq<u64>,
}

/// Mathematical model of one ephemeris record.
pub struct SegmentModel {
    pub name: Seq<u8>,
    pub ref_epoch: Epoch,
    pub backward: bool,
    pub parent_ephemeris_hash: HashType,
    pub orientation_hash: HashType,
    pub interpolation_kind: InterpolationKind,
    pub distance_unit: DistanceUnit,
    pub time_unit: TimeUnit,
    pub degree: u8,
    pub pieces: Seq<PieceModel>,
}

impl View for SplinePiece {
    type V = PieceModel;

    open spec fn view(&self) -> PieceModel {
        PieceModel {
            window_start: self.window_start,
            window_end: self.window_end,
            coefficients: self.coefficients@,
        }
    }
}

impl View for Ephemeris {
    type V = SegmentModel;

    open spec fn view(&self) -> SegmentModel {
        SegmentModel {
            name: self.name@,
            ref_epoch: self.ref_epoch,
            backward: self.backward,
            parent_ephemeris_hash: self.parent_ephemeris_hash,
            orientation_hash: self.orientation_hash,
            interpolation_kind: self.interpolation_kind,
            distance_unit: self.distance_unit,
            time_unit: self.time_unit,
            degree: self.splines.degree,
            pieces: self.splines.pieces@.map_values(|p: SplinePiece| p@),
        }
    }
}

/// A record the binary format can carry: its lengths fit the length fields,
/// its epoch is well formed, and every piece is sized by kind and degree.
pub open spec fn encodable(m: SegmentModel) -> bool {
    &&& m.name.len() <= 0xFFFF
    &&& m.ref_epoch.valid()
    &&& m.pieces.len() <= 0xFFFF
    &&& forall|k: int|
        0 <= k < m.pieces.len() ==> (#[trigger] m.pieces[k]).coefficients.len()
            == spec_coeffs_per_piece(m.interpolation_kind, m.degree)
}

/// Ordered spline windows: every window is non-empty, and the windows are
/// ordered by start and non-overlapping, so a record's coverage is the
/// union of its pieces' windows.
pub open spec fn pieces_ordered(pieces: Seq<PieceModel>) -> bool {
    &&& forall|k: int|
        0 <= k < pieces.len() ==> (#[trigger] pieces[k]).window_start < pieces[k].window_end
    &&& forall|k: int|
        0 <= k < pieces.len() - 1 ==> (#[trigger] pieces[k]).window_end <= pieces[
            k + 1
        ].window_start
}

/// A record whose payload also makes sense: encodable lengths and ordered,
/// non-overlapping, non-empty windows.
pub open spec fn validated(m: SegmentModel) -> bool {
    &&& encodable(m)
    &&& pieces_ordered(m.pieces)
}

} // verus!
