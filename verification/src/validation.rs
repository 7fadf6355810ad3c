//! Range checks for integer-valued override tag parameters.
use vstd::prelude::*;
use crate::error::{message_with_number, decimal_chars, RenderError};

verus! {

/// The result is `Ok(value)` when `ok` holds, and otherwise an `InvalidScript`
/// error whose message is `prefix`, the value in decimal, then `suffix`.
pub open spec fn checked_result<T>(r: Result<T, RenderError>, value: T, ok: bool, n: nat, prefix: Seq<char>, suffix: Seq<char>) -> bool {
    if ok {
        r == Ok::<T, RenderError>(value)
    } else {
        r matches Err(RenderError::InvalidScript(m)) && m@ == prefix + decimal_chars(n) + suffix
    }
}

/// Validate alignment value (1-9 for numpad positions)
pub fn validate_alignment(value: u8) -> (r: Result<u8, RenderError>)
    ensures
        checked_result(r, value, 1 <= value <= 9, value as nat,
            "Invalid alignment value: "@, ". Must be 1-9"@),
{
    if value >= 1 && value <= 9 {
        Ok(value)
    } else {
        Err(RenderError::InvalidScript(message_with_number("Invalid alignment value: ", value as u64, ". Must be 1-9")))
    }
}

/// Validate wrap style (0-3)
pub fn validate_wrap_style(value: u8) -> (r: Result<u8, RenderError>)
    ensures
        checked_result(r, value, value <= 3, value as nat, "Invalid wrap style: "@, ". Must be 0-3"@),
{
    if value <= 3 {
        Ok(value)
    } else {
        Err(RenderError::InvalidScript(message_with_number("Invalid wrap style: ", value as u64, ". Must be 0-3")))
    }
}

/// Validate drawing mode level (0-4)
pub fn validate_drawing_mode(value: u8) -> (r: Result<u8, RenderError>)
    ensures
        checked_result(r, value, value <= 4, value as nat, "Invalid drawing mode: "@, ". Must be 0-4"@),
{
    if value <= 4 {
        Ok(value)
    } else {
        Err(RenderError::InvalidScript(message_with_number("Invalid drawing mode: ", value as u64, ". Must be 0-4")))
    }
}

/// Validate color array (BGRA format); every byte value is accepted.
pub fn validate_color(color: [u8; 4]) -> (r: Result<[u8; 4], RenderError>)
    ensures
        r == Ok::<[u8; 4], RenderError>(color),
{
    Ok(color)
}

/// Validate alpha value (0-255); every byte value is accepted.
pub fn validate_alpha(value: u8) -> (r: Result<u8, RenderError>)
    ensures
        r == Ok::<u8, RenderError>(value),
{
    Ok(value)
}

/// Validate time in milliseconds; every value is accepted.
pub fn validate_time_ms(value: u32) -> (r: Result<u32, RenderError>)
    ensures
        r == Ok::<u32, RenderError>(value),
{
    Ok(value)
}

/// Validate karaoke duration (centiseconds): below 100000.
pub fn validate_karaoke_duration(value: u32) -> (r: Result<u32, RenderError>)
    ensures
        checked_result(r, value, value < 100000, value as nat, "Invalid karaoke duration: "@, " centiseconds"@),
{
    if value < 100000 {
        Ok(value)
    } else {
        Err(RenderError::InvalidScript(message_with_number("Invalid karaoke duration: ", value as u64, " centiseconds")))
    }
}

/// Validate font encoding; every byte value is accepted.
pub fn validate_font_encoding(value: u8) -> (r: Result<u8, RenderError>)
    ensures
        r == Ok::<u8, RenderError>(value),
{
    Ok(value)
}

} // verus!
