//! Turning runs of code units into text.

use vstd::prelude::*;
use vstd::utf8::{decode_utf8, valid_utf8};
use crate::Endian;
use crate::byte_order::{decode_u16, le_value};
use crate::error::InterpreterError;

verus! {

/// Whether `unit` is a surrogate: a code unit that stands for no character by
/// itself.
pub open spec fn is_surrogate(unit: u16) -> bool {
    0xD800 <= unit <= 0xDFFF
}

/// Whether `unit` can open a surrogate pair.
pub open spec fn is_high_surrogate(unit: u16) -> bool {
    0xD800 <= unit <= 0xDBFF
}

/// Whether `unit` can close a surrogate pair.
pub open spec fn is_low_surrogate(unit: u16) -> bool {
    0xDC00 <= unit <= 0xDFFF
}

/// The code point that a surrogate pair stands for.
pub open spec fn pair_code_point(high: u16, low: u16) -> u32 {
    (0x1_0000 + (high - 0xD800) * 0x400 + (low - 0xDC00)) as u32
}

/// The text that a run of UTF-16 code units stands for: a unit that is no
/// surrogate is a character, a high surrogate and the low surrogate after it
/// are one character together, and a run with any other surrogate in it
/// stands for no text.
pub open spec fn utf16_text(units: Seq<u16>) -> Option<Seq<char>>
    decreases units.len(),
{
    if units.len() == 0 {
        Some(Seq::empty())
    } else if !is_surrogate(units[0]) {
        match utf16_text(units.drop_first()) {
            Some(rest) => Some(seq![(units[0] as u32) as char] + rest),
            None => None,
        }
    } else if is_high_surrogate(units[0]) && units.len() >= 2 && is_low_surrogate(units[1]) {
        match utf16_text(units.skip(2)) {
            Some(rest) => Some(seq![pair_code_point(units[0], units[1]) as char] + rest),
            None => None,
        }
    } else {
        None
    }
}

/// The two-byte code units that `s` holds, each stored least significant byte
/// first. An odd byte at the end belongs to no unit.
pub open spec fn code_units(s: Seq<u8>) -> Seq<u16> {
    Seq::new((s.len() / 2) as nat, |i: int| le_value(s.subrange(2 * i, 2 * i + 2)) as u16)
}

/// What decoding `bytes` as UTF-8 gives.
pub open spec fn utf8_outcome(bytes: Seq<u8>) -> Result<Seq<char>, InterpreterError> {
    if valid_utf8(bytes) {
        Ok(decode_utf8(bytes))
    } else {
        Err(InterpreterError::Utf8Error)
    }
}

/// What decoding `units` as UTF-16 gives.
pub open spec fn utf16_outcome(units: Seq<u16>) -> Result<Seq<char>, InterpreterError> {
    match utf16_text(units) {
        Some(text) => Ok(text),
        None => Err(InterpreterError::Utf16Error),
    }
}

/// Whether a returned string, or failure, is the given outcome.
pub open spec fn same_text(
    r: Result<String, InterpreterError>,
    outcome: Result<Seq<char>, InterpreterError>,
) -> bool {
    match r {
        Ok(s) => outcome == Ok::<Seq<char>, InterpreterError>(s@),
        Err(e) => outcome == Err::<Seq<char>, InterpreterError>(e),
    }
}

/// Calls `String::from_utf8`, which accepts exactly the byte runs that are
/// valid UTF-8 and then yields the text they encode.
#[verifier::external_body]
fn string_from_utf8(bytes: Vec<u8>) -> (r: Option<String>)
    ensures
        r is Some <==> valid_utf8(bytes@),
        r is Some ==> r->Some_0@ == decode_utf8(bytes@),
{
    match String::from_utf8(bytes) {
        Ok(s) => Some(s),
        Err(_) => None,
    }
}

/// Calls `String::from_utf16`, which yields the text of a well-formed run of
/// code units and fails on a run that holds an unpaired surrogate.
#[verifier::external_body]
fn string_from_utf16(units: &[u16]) -> (r: Option<String>)
    ensures
        match r {
            Some(s) => utf16_text(units@) == Some(s@),
            None => utf16_text(units@) is None,
        },
{
    match String::from_utf16(units) {
        Ok(s) => Some(s),
        Err(_) => None,
    }
}

/// Gathers the two-byte code units of `raw`.
pub fn units_of(raw: &[u8]) -> (units: Vec<u16>)
    ensures
        units@ == code_units(raw@),
{
    let len: usize = raw.len();
    let count: usize = len / 2;
    let mut units: Vec<u16> = Vec::with_capacity(count);
    let mut i: usize = 0;
    while i < count
        invariant
            len == raw@.len(),
            count == len / 2,
            i <= count,
            units@ == code_units(raw@).take(i as int),
        decreases count - i,
    {
        let pair = vstd::slice::slice_subrange(raw, 2 * i, 2 * i + 2);
        units.push(decode_u16(Endian::LittleEndian, pair));
        i += 1;
        assert(units@ =~= code_units(raw@).take(i as int));
    }
    assert(units@ =~= code_units(raw@));
    units
}

/// Decodes single-byte code units as UTF-8.
pub fn decode_narrow(bytes: Vec<u8>) -> (r: Result<String, InterpreterError>)
    ensures
        same_text(r, utf8_outcome(bytes@)),
{
    match string_from_utf8(bytes) {
        Some(s) => Ok(s),
        None => Err(InterpreterError::Utf8Error),
    }
}

/// Decodes two-byte code units as UTF-16.
pub fn decode_wide(units: &[u16]) -> (r: Result<String, InterpreterError>)
    ensures
        same_text(r, utf16_outcome(units@)),
{
    match string_from_utf16(units) {
        Some(s) => Ok(s),
        None => Err(InterpreterError::Utf16Error),
    }
}

} // verus!
