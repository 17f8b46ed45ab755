//! The error taxonomy of the verification core. Every failure aborts the
//! whole verification and is surfaced verbatim; nothing is persisted on
//! failure.

use vstd::prelude::*;

verus! {

#[derive(Clone, Copy, Debug, PartialEq, Eq, Structural)]
pub enum RedstoneError {
    /// A value-size field asks for a width the container cannot hold.
    SizeNotSupported,
    /// An arithmetic result would not fit its machine type.
    NumberOverflow,
    /// The buffer does not end with the RedStone marker.
    InvalidRedstoneMarker,
    /// Signature recovery failed cryptographically.
    InvalidSignature,
    /// A package's timestamp is older than the freshness window allows.
    TimestampTooOld,
    /// A package's timestamp is further ahead than the window allows.
    TimestampTooFuture,
    /// Fewer than threshold-many distinct recognized signers.
    InsufficientSignerCount,
    /// The buffer's outer framing cannot be decoded.
    PayloadParseError,
    /// A data package's structure implies reading past the buffer's start.
    InvalidDataPackage,
    /// A feed identifier outside the configured allow-list.
    UnsupportedFeedId,
    /// No storage location for the requested feed.
    MissingPriceAccount,
    /// Aggregation was attempted over zero qualifying values.
    MedianCalculationError,
    /// Packages were required to share one timestamp but do not.
    TimestampMismatch,
}

} // verus!
