//! The ways in which reading a filter can fail.

use vstd::prelude::*;
use vstd::string::StringExecFns;

verus! {

/// Why a filter text could not be read.
#[derive(Clone, Copy, Debug, PartialEq, Eq, Structural)]
pub enum Error {
    /// The text does not follow the grammar.
    Parsing,
    /// A UUID literal could not be read.
    ParsingUuid,
    /// A number literal could not be read.
    ParsingNumber,
    /// A date literal names no day of the calendar.
    ParsingDate,
    /// A time literal names no time of day.
    ParsingTime,
    /// The instant of a date-time literal could not be found.
    ParsingDateTime,
    /// A time zone offset is out of range.
    ParsingTimeZone,
    /// A time zone name is not known.
    ParsingTimeZoneNamed,
    /// A `\u` escape names no Unicode scalar value.
    ParsingUnicodeCodePoint,
}

impl Error {
    /// The failure is that of a literal whose text writes no value.
    pub open spec fn is_of_literal(self) -> bool {
        self is ParsingDate || self is ParsingTime || self is ParsingDateTime
            || self is ParsingTimeZone || self is ParsingTimeZoneNamed
            || self is ParsingUnicodeCodePoint
    }

    /// The name of the failure.
    pub open spec fn name(self) -> Seq<char> {
        match self {
            Error::Parsing => "Parsing"@,
            Error::ParsingUuid => "ParsingUuid"@,
            Error::ParsingNumber => "ParsingNumber"@,
            Error::ParsingDate => "ParsingDate"@,
            Error::ParsingTime => "ParsingTime"@,
            Error::ParsingDateTime => "ParsingDateTime"@,
            Error::ParsingTimeZone => "ParsingTimeZone"@,
            Error::ParsingTimeZoneNamed => "ParsingTimeZoneNamed"@,
            Error::ParsingUnicodeCodePoint => "ParsingUnicodeCodePoint"@,
        }
    }

    /// The name of the failure, as a message for it.
    pub fn to_string(&self) -> (r: String)
        ensures
            r@ == self.name(),
    {
        let name = match self {
            Error::Parsing => "Parsing",
            Error::ParsingUuid => "ParsingUuid",
            Error::ParsingNumber => "ParsingNumber",
            Error::ParsingDate => "ParsingDate",
            Error::ParsingTime => "ParsingTime",
            Error::ParsingDateTime => "ParsingDateTime",
            Error::ParsingTimeZone => "ParsingTimeZone",
            Error::ParsingTimeZoneNamed => "ParsingTimeZoneNamed",
            Error::ParsingUnicodeCodePoint => "ParsingUnicodeCodePoint",
        };
        String::from_str(name)
    }
}

} // verus!
