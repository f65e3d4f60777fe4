//! What can go wrong between a print request and the device.
use crate::command::Font;
use vstd::prelude::*;

verus! {

/// Every failure reaches the caller as one of these; none is retried or
/// replaced by a fallback, because a duplicate print is worse than a clear
/// failure.
#[derive(Debug, PartialEq, Eq)]
pub enum Error {
    /// The template holds this placeholder and the print data has no value
    /// for it.
    MissingSubstitution(String),
    /// The printer profile has no column count for this font.
    UnsupportedFont(Font),
    /// The image is `actual` dots wide and the printer prints `max` at most.
    ImageTooWide { actual: u16, max: u16 },
    /// The connection refused or failed the write; the message is the
    /// transport's own.
    Transport(String),
}

} // verus!
