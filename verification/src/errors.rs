use vstd::prelude::*;

verus! {

/// Everything that can make an extraction run fail before any bytes are
/// handed to the caller. Each variant identifies the stage that rejected the
/// input; filesystem failures are the caller's concern and have no variant
/// here.
#[derive(Clone, Copy, Debug, PartialEq, Eq, Structural)]
pub enum UnpackError {
    /// The 16-byte sentinel does not occur in the binary image.
    MissingSentinel,
    /// Fewer than 16 bytes follow the sentinel, so the two size fields
    /// cannot be read.
    TruncatedMetadata,
    /// The declared section sizes exceed the space before the sentinel.
    SectionBounds,
    /// The 32-byte marker token does not occur in the content section.
    MissingMarker,
    /// No complete JSON value follows the marker.
    MalformedJson,
    /// The decoded JSON value does not have the two-level object shape of a
    /// resource dictionary, or an entry's offsets are not non-negative
    /// integers.
    InvalidDictionary,
    /// The dictionary has no "resources" key.
    MissingResources,
    /// An entry's byte range does not lie within the resource section.
    EntryOutOfRange,
}

impl UnpackError {
    /// A short description of the failing stage, for reporting.
    pub fn describe(&self) -> &'static str {
        match self {
            UnpackError::MissingSentinel => "sentinel not found: not a recognized packaged executable",
            UnpackError::TruncatedMetadata => "truncated metadata after sentinel",
            UnpackError::SectionBounds => "declared section sizes exceed the space before the sentinel",
            UnpackError::MissingMarker => "marker token not found in content section",
            UnpackError::MalformedJson => "no complete JSON value after the marker",
            UnpackError::InvalidDictionary => "JSON value is not a valid resource dictionary",
            UnpackError::MissingResources => "resource dictionary has no resources key",
            UnpackError::EntryOutOfRange => "entry byte range lies outside the resource section",
        }
    }
}

} // verus!
