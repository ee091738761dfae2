//! `time::` types: dates, durations and spans of time.

use vstd::prelude::*;
use vstd::string::StringExecFns;
use vstd::string::StrSliceExecFns;
use crate::error::{AamlError, ErrorModel};
use crate::text::{chars_of, join3, join5, str_eq};
use crate::types::Type;
use crate::types::grammar::{is_float, is_unsigned, range_is_unsigned, text_is_float};
use crate::types::primitive_type::PrimitiveType;

verus! {

/// A point or a span of time.
#[derive(Clone, Copy, Debug, PartialEq, Eq, Structural)]
pub enum TimeTypes {
    DateTime,
    Duration,
    Year,
    Day,
    Hour,
    Minute,
}

/// The time type that `name` denotes.
pub open spec fn time_named(name: Seq<char>) -> Option<TimeTypes> {
    if name == "datetime"@ {
        Some(TimeTypes::DateTime)
    } else if name == "duration"@ {
        Some(TimeTypes::Duration)
    } else if name == "year"@ {
        Some(TimeTypes::Year)
    } else if name == "day"@ {
        Some(TimeTypes::Day)
    } else if name == "hour"@ {
        Some(TimeTypes::Hour)
    } else if name == "minute"@ {
        Some(TimeTypes::Minute)
    } else {
        None
    }
}

/// `YYYY-MM-DD`: ten characters, `-` at the fifth and eighth place,
/// and a whole number in each of the three parts.
pub open spec fn is_date(d: Seq<char>) -> bool {
    &&& d.len() == 10
    &&& d[4] == '-'
    &&& d[7] == '-'
    &&& is_unsigned(d.subrange(0, 4))
    &&& is_unsigned(d.subrange(5, 7))
    &&& is_unsigned(d.subrange(8, 10))
}

/// A date, with anything or nothing after it.
pub open spec fn is_datetime(value: Seq<char>) -> bool {
    value.len() >= 10 && is_date(value.take(10))
}

/// The name a span of time goes by in its error.
pub open spec fn time_label(t: TimeTypes) -> Seq<char> {
    match t {
        TimeTypes::DateTime => "DateTime"@,
        TimeTypes::Duration => "Duration"@,
        TimeTypes::Year => "Year"@,
        TimeTypes::Day => "Day"@,
        TimeTypes::Hour => "Hour"@,
        TimeTypes::Minute => "Minute"@,
    }
}

/// The error for a value that is no date.
pub open spec fn invalid_datetime(value: Seq<char>) -> ErrorModel {
    ErrorModel::InvalidValue(
        "Invalid DateTime '"@ + value
            + "': expected ISO 8601 format (YYYY-MM-DD or YYYY-MM-DDTHH:MM:SS)"@,
    )
}

/// The error for a value that is no number.
pub open spec fn invalid_numeric(value: Seq<char>, label: Seq<char>) -> ErrorModel {
    ErrorModel::InvalidValue("Invalid "@ + label + " '"@ + value + "': expected a number"@)
}

/// The verdict on a value that must be a number.
pub open spec fn numeric_check(value: Seq<char>, label: Seq<char>) -> Result<(), ErrorModel> {
    if is_float(value) {
        Ok(())
    } else {
        Err(invalid_numeric(value, label))
    }
}

/// The verdict of a time type on `value`.
pub open spec fn time_check(t: TimeTypes, value: Seq<char>) -> Result<(), ErrorModel> {
    match t {
        TimeTypes::DateTime => if is_datetime(value) {
            Ok(())
        } else {
            Err(invalid_datetime(value))
        },
        TimeTypes::Duration => if value.len() > 0 && value[0] == 'P' {
            Ok(())
        } else {
            numeric_check(value, time_label(t))
        },
        _ => numeric_check(value, time_label(t)),
    }
}

/// Whether `date` is a well-formed `YYYY-MM-DD`.
pub fn validate_date_part(date: &str) -> (r: bool)
    ensures
        r == is_date(date@),
{
    let cs = chars_of(date);
    if cs.len() != 10 {
        return false;
    }
    cs[4] == '-' && cs[7] == '-' && range_is_unsigned(cs.as_slice(), 0, 4) && range_is_unsigned(
        cs.as_slice(),
        5,
        7,
    ) && range_is_unsigned(cs.as_slice(), 8, 10)
}

/// Checks a date, or a date followed by a time of day.
pub fn validate_datetime(value: &str) -> (r: Result<(), AamlError>)
    ensures
        r is Ok <==> is_datetime(value@),
        r matches Err(e) ==> e@ == invalid_datetime(value@),
{
    let n = value.unicode_len();
    let ok = if n < 10 {
        false
    } else {
        proof {
            assert(value@.subrange(0, 10) =~= value@.take(10));
        }
        validate_date_part(value.substring_char(0, 10))
    };
    if ok {
        Ok(())
    } else {
        Err(
            AamlError::InvalidValue(
                join3(
                    "Invalid DateTime '",
                    value,
                    "': expected ISO 8601 format (YYYY-MM-DD or YYYY-MM-DDTHH:MM:SS)",
                ),
            ),
        )
    }
}

/// Checks that `value` is a number.
pub fn validate_numeric(value: &str, label: &str) -> (r: Result<(), AamlError>)
    ensures
        crate::error::outcome(r) == numeric_check(value@, label@),
{
    if text_is_float(value) {
        Ok(())
    } else {
        Err(
            AamlError::InvalidValue(
                join5("Invalid ", label, " '", value, "': expected a number"),
            ),
        )
    }
}

impl Type for TimeTypes {
    open spec fn named(name: Seq<char>) -> Result<Self, ErrorModel> {
        match time_named(name) {
            Some(t) => Ok(t),
            None => Err(ErrorModel::NotFound(name)),
        }
    }

    open spec fn base(&self) -> PrimitiveType {
        PrimitiveType::F64
    }

    open spec fn check(&self, value: Seq<char>) -> Result<(), ErrorModel> {
        time_check(*self, value)
    }

    fn from_name(name: &str) -> (r: Result<Self, AamlError>) {
        if str_eq(name, "datetime") {
            Ok(TimeTypes::DateTime)
        } else if str_eq(name, "duration") {
            Ok(TimeTypes::Duration)
        } else if str_eq(name, "year") {
            Ok(TimeTypes::Year)
        } else if str_eq(name, "day") {
            Ok(TimeTypes::Day)
        } else if str_eq(name, "hour") {
            Ok(TimeTypes::Hour)
        } else if str_eq(name, "minute") {
            Ok(TimeTypes::Minute)
        } else {
            Err(AamlError::NotFound(String::from_str(name)))
        }
    }

    fn base_type(&self) -> (r: PrimitiveType) {
        PrimitiveType::F64
    }

    fn validate(&self, value: &str) -> (r: Result<(), AamlError>) {
        match self {
            TimeTypes::DateTime => validate_datetime(value),
            TimeTypes::Duration => {
                let cs = chars_of(value);
                if cs.len() > 0 && cs[0] == 'P' {
                    Ok(())
                } else {
                    validate_numeric(value, "Duration")
                }
            },
            TimeTypes::Year => validate_numeric(value, "Year"),
            TimeTypes::Day => validate_numeric(value, "Day"),
            TimeTypes::Hour => validate_numeric(value, "Hour"),
            TimeTypes::Minute => validate_numeric(value, "Minute"),
        }
    }
}

} // verus!
