//! The size of a picture in pixels, and its textual form `WIDTHxHEIGHT`.

use crate::text::{chars_of, find_char, first_index_of, parse_u32, parsed_u32, trim_bounds, trimmed};
use vstd::prelude::*;

verus! {

/// Why a text was refused as picture dimensions.
#[derive(Debug, Copy, Clone, PartialEq, Eq, Structural)]
pub enum DimensionsError {
    /// The text does not hold exactly one separator `x`.
    InvalidFormat,
    /// What stands before the separator is no 32-bit unsigned number.
    InvalidWidth,
    /// What stands behind the separator is no 32-bit unsigned number.
    InvalidHeight,
    /// The width or the height is zero.
    Zero,
}

impl DimensionsError {
    /// The text of the message for this error.
    pub open spec fn message_text(self) -> Seq<char> {
        match self {
            DimensionsError::InvalidFormat => "invalid dimension format"@,
            DimensionsError::InvalidWidth => "invalid width"@,
            DimensionsError::InvalidHeight => "invalid height"@,
            DimensionsError::Zero => "dimensions cannot be zero"@,
        }
    }

    /// The message shown to the user for this error.
    pub fn message(&self) -> (text: &'static str)
        ensures
            text@ == self.message_text(),
    {
        match self {
            DimensionsError::InvalidFormat => "invalid dimension format",
            DimensionsError::InvalidWidth => "invalid width",
            DimensionsError::InvalidHeight => "invalid height",
            DimensionsError::Zero => "dimensions cannot be zero",
        }
    }
}

/// Width and height of a picture, in pixels.
#[derive(Debug, Copy, Clone)]
pub struct ScreenDimensions(pub u32, pub u32);

/// What a text stands for as picture dimensions. Once trimmed it must hold
/// exactly one `x`; what stands before it is the width and what stands behind
/// it the height, both decimal numbers and neither zero. Of several faults
/// the first in this order is reported: format, width, height, zero.
pub open spec fn parsed_dimensions(s: Seq<char>) -> Result<(u32, u32), DimensionsError> {
    let text = trimmed(s);
    let at = first_index_of(text, 'x') as int;
    let tail = text.subrange(at + 1, text.len() as int);
    if at == text.len() || first_index_of(tail, 'x') < tail.len() {
        Err(DimensionsError::InvalidFormat)
    } else {
        match (parsed_u32(text.subrange(0, at)), parsed_u32(tail)) {
            (None, _) => Err(DimensionsError::InvalidWidth),
            (Some(_), None) => Err(DimensionsError::InvalidHeight),
            (Some(width), Some(height)) => if width == 0 || height == 0 {
                Err(DimensionsError::Zero)
            } else {
                Ok((width, height))
            },
        }
    }
}

impl ScreenDimensions {
    /// Width and height as a pair.
    pub fn as_tuple(&self) -> (pair: (u32, u32))
        ensures
            pair == (self.0, self.1),
    {
        let ScreenDimensions(width, height) = *self;
        (width, height)
    }

    /// Reads dimensions written as `WIDTHxHEIGHT`, white space around them
    /// ignored.
    pub fn parse(s: &str) -> (r: Result<Self, DimensionsError>)
        ensures
            match parsed_dimensions(s@) {
                Ok(pair) => r is Ok && r->Ok_0.0 == pair.0 && r->Ok_0.1 == pair.1,
                Err(e) => r == Err::<Self, DimensionsError>(e),
            },
            r is Ok ==> r->Ok_0.0 > 0 && r->Ok_0.1 > 0,
    {
        let chars: Vec<char> = chars_of(s);
        let (from, to) = trim_bounds(&chars);
        let ghost text = trimmed(s@);
        let at: usize = find_char(&chars, from, to, 'x');
        if at == to {
            return Err(DimensionsError::InvalidFormat);
        }
        let ghost tail = text.subrange(at - from + 1, text.len() as int);
        assert(tail =~= chars@.subrange(at + 1, to as int));
        assert(text.subrange(0, at - from) =~= chars@.subrange(from as int, at as int));
        let second: usize = find_char(&chars, at + 1, to, 'x');
        if second != to {
            return Err(DimensionsError::InvalidFormat);
        }
        let width: u32 = match parse_u32(&chars, from, at) {
            Some(width) => width,
            None => {
                return Err(DimensionsError::InvalidWidth);
            },
        };
        let height: u32 = match parse_u32(&chars, at + 1, to) {
            Some(height) => height,
            None => {
                return Err(DimensionsError::InvalidHeight);
            },
        };
        if width == 0 || height == 0 {
            return Err(DimensionsError::Zero);
        }
        Ok(ScreenDimensions(width, height))
    }
}

impl std::str::FromStr for ScreenDimensions {
    type Err = &'static str;

    /// Reads dimensions as `parse` does, and reports a refusal by its
    /// message.
    fn from_str(s: &str) -> (r: Result<Self, Self::Err>)
        ensures
            match parsed_dimensions(s@) {
                Ok(pair) => r is Ok && r->Ok_0.0 == pair.0 && r->Ok_0.1 == pair.1,
                Err(e) => r is Err && r->Err_0@ == e.message_text(),
            },
    {
        match ScreenDimensions::parse(s) {
            Ok(dimensions) => Ok(dimensions),
            Err(e) => Err(e.message()),
        }
    }
}

} // verus!
