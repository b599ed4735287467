//! Errors of the renderer.
use vstd::prelude::*;

verus! {

/// What can go wrong while rendering or encoding.
#[derive(Clone, Copy, Debug, PartialEq, Eq, Structural)]
pub enum Error {
    /// The forecast holds too few samples.
    NotEnoughForecasts,
    /// The forecast holds no samples at all.
    EmptyTimeSeries,
    /// A weather condition code that is not known.
    UnknownCondition,
    /// An image could not be decoded.
    Decoding,
    /// Two sprites were given the same name.
    DuplicateSprite,
    /// An image could not be encoded.
    Encoding,
    /// The e-paper buffer could not be set up.
    Display,
}

impl Error {
    /// A short description of the error.
    pub fn message(&self) -> (r: &'static str) {
        match self {
            Error::NotEnoughForecasts => "not enough forecast data",
            Error::EmptyTimeSeries => "empty time series",
            Error::UnknownCondition => "unknown weather condition",
            Error::Decoding => "image could not be decoded",
            Error::DuplicateSprite => "two sprites share a name",
            Error::Encoding => "image could not be encoded",
            Error::Display => "e-paper buffer could not be set up",
        }
    }
}

} // verus!
