//! Reference frames: hash-pair identities and geodetic constants.
use vstd::prelude::*;
use crate::HashType;

verus! {

/// A frame uniquely defined by its ephemeris center hash and its
/// orientation hash.  Two frames are equal iff both hashes match; names
/// are metadata only and never take part in equality.
#[derive(Copy, Clone, Debug, PartialEq, Eq, Structural)]
pub struct RefFrame {
    pub ephemeris_hash: HashType,
    pub orientation_hash: HashType,
}

impl RefFrame {
    /// Builds a frame from its two identity hashes.
    pub fn from_ephem_orient(ephemeris_hash: HashType, orientation_hash: HashType) -> (f: Self)
        ensures
            f.ephemeris_hash == ephemeris_hash,
            f.orientation_hash == orientation_hash,
    {
        RefFrame { ephemeris_hash, orientation_hash }
    }

    /// True iff this frame's ephemeris origin is the given hash.
    pub fn ephem_origin_hash_match(&self, other_hash: HashType) -> (r: bool)
        ensures
            r == (self.ephemeris_hash == other_hash),
    {
        self.ephemeris_hash == other_hash
    }

    /// True iff this frame's orientation is the given hash.
    pub fn orient_origin_hash_match(&self, other_hash: HashType) -> (r: bool)
        ensures
            r == (self.orientation_hash == other_hash),
    {
        self.orientation_hash == other_hash
    }

    /// True iff both frames share the same ephemeris origin, whatever their
    /// orientations.
    pub fn ephem_origin_match(&self, other: Self) -> (r: bool)
        ensures
            r == (self.ephemeris_hash == other.ephemeris_hash),
    {
        self.ephemeris_hash == other.ephemeris_hash
    }

    /// True iff both frames share the same orientation, whatever their
    /// origins.
    pub fn orient_origin_match(&self, other: Self) -> (r: bool)
        ensures
            r == (self.orientation_hash == other.orientation_hash),
    {
        self.orientation_hash == other.orientation_hash
    }
}

/// The bit pattern of one physical constant.
///
/// The engine never does arithmetic on these values; it only stores them and
/// tests their presence, so they are carried as their 64-bit wide bit
/// patterns and interpreted by the caller.
#[derive(Copy, Clone, Debug, PartialEq, Eq, Structural)]
pub struct ScalarBits {
    pub bits: u64,
}

/// A frame together with its optional physical constants.
///
/// The gravitational parameter marks the frame as a celestial body.  The
/// three shape constants together mark it as a geoid; the gravitational
/// parameter alone never does.  Values are read-only after construction.
#[derive(Copy, Clone, Debug, PartialEq, Eq)]
pub struct GeodeticRefFrame {
    pub frame: RefFrame,
    pub mu_km3s: ScalarBits,
    pub equatorial_radius: Option<ScalarBits>,
    pub semi_major_radius: Option<ScalarBits>,
    pub flattening: Option<ScalarBits>,
}

impl GeodeticRefFrame {
    /// True iff the frame is a geoid: all three shape constants are present.
    /// Any single missing constant yields false, whatever the others hold.
    pub fn is_geoid(&self) -> (r: bool)
        ensures
            r == (self.equatorial_radius is Some && self.semi_major_radius is Some
                && self.flattening is Some),
    {
        self.equatorial_radius.is_some() && self.semi_major_radius.is_some()
            && self.flattening.is_some()
    }

    /// True iff this frame's ephemeris origin is the given hash.
    pub fn ephem_origin_hash_match(&self, other_hash: HashType) -> (r: bool)
        ensures
            r == (self.frame.ephemeris_hash == other_hash),
    {
        self.frame.ephem_origin_hash_match(other_hash)
    }

    /// True iff this frame's orientation is the given hash.
    pub fn orient_origin_hash_match(&self, other_hash: HashType) -> (r: bool)
        ensures
            r == (self.frame.orientation_hash == other_hash),
    {
        self.frame.orient_origin_hash_match(other_hash)
    }

    /// True iff both frames share the same ephemeris origin.
    pub fn ephem_origin_match(&self, other: Self) -> (r: bool)
        ensures
            r == (self.frame.ephemeris_hash == other.frame.ephemeris_hash),
    {
        self.frame.ephem_origin_match(other.frame)
    }

    /// True iff both frames share the same orientation.
    pub fn orient_origin_match(&self, other: Self) -> (r: bool)
        ensures
            r == (self.frame.orientation_hash == other.frame.orientation_hash),
    {
        self.frame.orient_origin_match(other.frame)
    }
}

impl From<GeodeticRefFrame> for RefFrame {
    /// Lossy narrowing: the physical constants are discarded and cannot be
    /// recovered from the result.
    fn from(g: GeodeticRefFrame) -> (f: RefFrame) {
        g.frame
    }
}

impl vstd::std_specs::convert::FromSpecImpl<GeodeticRefFrame> for RefFrame {
    open spec fn obeys_from_spec() -> bool {
        true
    }

    open spec fn from_spec(g: GeodeticRefFrame) -> RefFrame {
        g.frame
    }
}

} // verus!
