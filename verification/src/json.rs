//! The JSON payload of a sensor reading. The library holds the three
//! measurements as bit patterns, so their decimal spelling is handed in by
//! the caller and checked against the grammar of JSON numbers before it is
//! put into the document.

use crate::sensor::SensorReading;
use crate::text::{decimal, push_decimal};
use vstd::prelude::*;
use vstd::string::StringExecFns;
use vstd::string::StringSliceAdditionalSpecFns;

verus! {

/// Whether `b` is the byte of a decimal digit.
pub open spec fn is_digit(b: u8) -> bool {
    0x30 <= b <= 0x39
}

/// The position behind the digits that start at `i`.
pub open spec fn digits_end(s: Seq<u8>, i: int) -> int
    decreases s.len() - i,
{
    if 0 <= i < s.len() && is_digit(s[i]) {
        digits_end(s, i + 1)
    } else {
        i
    }
}

/// Whether the byte at `i` is `b`.
pub open spec fn has_byte(s: Seq<u8>, i: int, b: u8) -> bool {
    0 <= i < s.len() && s[i] == b
}

/// The position behind the integer part that starts at `i`: a lone zero, or
/// digits that do not start with zero. Where there is neither, `i` itself.
pub open spec fn int_end(s: Seq<u8>, i: int) -> int {
    if has_byte(s, i, 0x30) {
        i + 1
    } else {
        digits_end(s, i)
    }
}

/// The position behind the fraction that starts at `i`, if there is one: a
/// point and at least one digit. A point that no digit follows is an error,
/// which `None` says.
pub open spec fn frac_end(s: Seq<u8>, i: int) -> Option<int> {
    if has_byte(s, i, 0x2e) {
        if digits_end(s, i + 1) > i + 1 {
            Some(digits_end(s, i + 1))
        } else {
            None
        }
    } else {
        Some(i)
    }
}

/// The position behind the exponent that starts at `i`, if there is one: the
/// letter e in either case, an optional sign and at least one digit. A
/// letter that no digit follows is an error, which `None` says.
pub open spec fn exp_end(s: Seq<u8>, i: int) -> Option<int> {
    if has_byte(s, i, 0x65) || has_byte(s, i, 0x45) {
        let digits = if has_byte(s, i + 1, 0x2b) || has_byte(s, i + 1, 0x2d) {
            i + 2
        } else {
            i + 1
        };
        if digits_end(s, digits) > digits {
            Some(digits_end(s, digits))
        } else {
            None
        }
    } else {
        Some(i)
    }
}

/// Whether `s` spells a number as JSON writes them: an optional minus sign,
/// an integer part, an optional fraction, an optional exponent, and nothing
/// else.
pub open spec fn is_json_number(s: Seq<u8>) -> bool {
    let start = if has_byte(s, 0, 0x2d) {
        1int
    } else {
        0int
    };
    let int_stop = int_end(s, start);
    &&& int_stop > start
    &&& frac_end(s, int_stop) matches Some(frac_stop)
    &&& exp_end(s, frac_stop) == Some(s.len() as int)
}

/// The position behind the digits that start at `i`.
fn skip_digits(s: &[u8], i: usize) -> (end: usize)
    requires
        i <= s@.len(),
    ensures
        end == digits_end(s@, i as int),
        i <= end <= s@.len(),
{
    let mut end: usize = i;
    while end < s.len() && 0x30 <= s[end] && s[end] <= 0x39
        invariant
            i <= end <= s@.len(),
            digits_end(s@, end as int) == digits_end(s@, i as int),
        decreases s@.len() - end,
    {
        end += 1;
    }
    end
}

/// Whether `s` spells a number as JSON writes them.
pub fn check_json_number(s: &[u8]) -> (ok: bool)
    ensures
        ok == is_json_number(s@),
{
    let len: usize = s.len();
    let start: usize = if len > 0 && s[0] == 0x2d {
        1
    } else {
        0
    };
    let int_stop: usize = if start < len && s[start] == 0x30 {
        start + 1
    } else {
        skip_digits(s, start)
    };
    if int_stop == start {
        return false;
    }
    let frac_stop: usize = if int_stop < len && s[int_stop] == 0x2e {
        let stop: usize = skip_digits(s, int_stop + 1);
        if stop == int_stop + 1 {
            return false;
        }
        stop
    } else {
        int_stop
    };
    if frac_stop < len && (s[frac_stop] == 0x65 || s[frac_stop] == 0x45) {
        let digits: usize = if frac_stop + 1 < len && (s[frac_stop + 1] == 0x2b || s[frac_stop
            + 1] == 0x2d) {
            frac_stop + 2
        } else {
            frac_stop + 1
        };
        let stop: usize = skip_digits(s, digits);
        stop > digits && stop == len
    } else {
        frac_stop == len
    }
}

/// The JSON document of a reading: its five fields in the order of the
/// record, the two integers in decimal, the three measurements as given.
pub open spec fn sensor_json(
    reading: SensorReading,
    temperature: Seq<char>,
    humidity: Seq<char>,
    pressure: Seq<char>,
) -> Seq<char> {
    "{\"timestamp\":"@ + decimal(reading.timestamp as nat) + ",\"sensor_id\":"@ + decimal(
        reading.sensor_id as nat,
    ) + ",\"temperature\":"@ + temperature + ",\"humidity\":"@ + humidity + ",\"pressure\":"@
        + pressure + "}"@
}

/// The JSON document of `reading` with the given spellings of its three
/// measurements, or nothing where one of them is not a JSON number.
pub fn write_sensor_json(
    reading: &SensorReading,
    temperature: &str,
    humidity: &str,
    pressure: &str,
) -> (json: Option<String>)
    ensures
        json is Some <==> is_json_number(temperature.spec_bytes()) && is_json_number(
            humidity.spec_bytes(),
        ) && is_json_number(pressure.spec_bytes()),
        json matches Some(text) ==> text@ == sensor_json(
            *reading,
            temperature@,
            humidity@,
            pressure@,
        ),
{
    if !check_json_number(temperature.as_bytes()) || !check_json_number(humidity.as_bytes())
        || !check_json_number(pressure.as_bytes()) {
        return None;
    }
    let mut text = String::new();
    text.append("{\"timestamp\":");
    push_decimal(&mut text, reading.timestamp);
    text.append(",\"sensor_id\":");
    push_decimal(&mut text, reading.sensor_id as u64);
    text.append(",\"temperature\":");
    text.append(temperature);
    text.append(",\"humidity\":");
    text.append(humidity);
    text.append(",\"pressure\":");
    text.append(pressure);
    text.append("}");
    assert(text@ =~= sensor_json(*reading, temperature@, humidity@, pressure@));
    Some(text)
}

} // verus!
