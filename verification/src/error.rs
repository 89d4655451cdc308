use vstd::prelude::*;

verus! {

/// The recoverable failures of the dataset loaders.
///
/// Dimension violations inside the learning engine itself are programmer
/// defects and abort; everything external data can get wrong while it is
/// being loaded is reported through this type instead.
#[derive(Clone, Copy, Debug, PartialEq, Eq, Structural)]
pub enum LoadError {
    /// A tabular data source held no rows at all, not even a header line.
    EmptyTable,
    /// The class field of a tabular row is not an unsigned decimal number.
    InvalidClass,
    /// A byte stream ended before the requested number of items was read.
    Truncated,
    /// A compressed stream could not be decoded.
    Corrupt,
}

} // verus!
