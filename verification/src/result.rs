use vstd::prelude::*;

verus! {

/// Why a load or a decode did not yield a value.
#[derive(Clone, Copy, Debug, PartialEq, Eq, Structural)]
pub enum OgawaError {
    /// An index is not below the count it is held against.
    OutOfBounds,
    /// The bytes break the layout of the archive.
    Corrupt,
    /// The archive declares a format version that is not read here.
    UnsupportedVersion,
    /// The byte source did not deliver the bytes asked for.
    Io,
}

} // verus!
