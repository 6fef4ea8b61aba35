//! Keyboard layout settings.
use vstd::prelude::*;
use crate::config::ConfigValueError;
use crate::numeric::{parse_i32, parsed_in_range};

verus! {

/// The keyboard settings as they are written in the configuration: every value is
/// optional text.
#[derive(Debug)]
pub struct RawXkb {
    pub layout: Option<String>,
    pub variant: Option<String>,
    pub options: Option<String>,
    pub repeat_rate: Option<String>,
    pub repeat_delay: Option<String>,
}

/// The keyboard settings the compositor applies.
#[derive(Debug)]
pub struct Xkb {
    pub layout: String,
    pub variant: String,
    pub options: Option<String>,
    pub repeat_rate: i32,
    pub repeat_delay: i32,
}

/// The text of an optional setting, or the default when it is absent.
pub open spec fn text_or(value: Option<String>, default: Seq<char>) -> Seq<char> {
    match value {
        Some(s) => s@,
        None => default,
    }
}

/// The value of an `i32` setting, if its text (or the default) parses.
pub open spec fn i32_setting(value: Option<String>, default: Seq<char>) -> Option<int> {
    parsed_in_range(text_or(value, default), i32::MIN as int, i32::MAX as int)
}

/// The repeat rate that a raw keyboard section asks for; absent, it is "200".
pub open spec fn raw_repeat_rate(raw: RawXkb) -> Option<int> {
    i32_setting(raw.repeat_rate, "200"@)
}

/// The repeat delay that a raw keyboard section asks for; absent, it is "50".
pub open spec fn raw_repeat_delay(raw: RawXkb) -> Option<int> {
    i32_setting(raw.repeat_delay, "50"@)
}

/// The text of an optional setting, or the default when it is absent.
fn string_or(value: Option<String>, default: &str) -> (s: String)
    ensures
        s@ == text_or(value, default@),
{
    match value {
        Some(s) => s,
        None => String::from_str(default),
    }
}

/// Parses an optional `i32` setting, or its default when it is absent.
pub fn parse_setting_i32(value: &Option<String>, default: &str) -> (r: Option<i32>)
    ensures
        match r {
            Some(v) => i32_setting(*value, default@) == Some(v as int),
            None => i32_setting(*value, default@) is None,
        },
{
    match value {
        Some(s) => parse_i32(s.as_str()),
        None => parse_i32(default),
    }
}

/// Which value of a raw keyboard section does not parse as an `i32`, the rate checked
/// first; `Ok` when both do.
pub open spec fn xkb_check(raw: RawXkb) -> Result<(), ConfigValueError> {
    if raw_repeat_rate(raw) is None {
        Err(ConfigValueError::InvalidRepeatRate)
    } else if raw_repeat_delay(raw) is None {
        Err(ConfigValueError::InvalidRepeatDelay)
    } else {
        Ok(())
    }
}

impl Xkb {
    /// Tells which value of a raw keyboard section does not parse as an `i32` (the
    /// rate checked first), which `from_raw` does not accept.
    pub fn check_raw(raw: &RawXkb) -> (r: Result<(), ConfigValueError>)
        ensures
            r == xkb_check(*raw),
    {
        if parse_setting_i32(&raw.repeat_rate, "200").is_none() {
            return Err(ConfigValueError::InvalidRepeatRate);
        }
        if parse_setting_i32(&raw.repeat_delay, "50").is_none() {
            return Err(ConfigValueError::InvalidRepeatDelay);
        }
        Ok(())
    }

    /// Resolves the raw keyboard settings: layout "us" and an empty variant when
    /// absent, the options as given, and the repeat rate and delay parsed as `i32`
    /// (defaults "200" and "50"). A rate or delay that is not an `i32` is fatal and is
    /// not accepted.
    pub fn from_raw(raw: RawXkb) -> (x: Xkb)
        requires
            raw_repeat_rate(raw) is Some,
            raw_repeat_delay(raw) is Some,
        ensures
            x.layout@ == text_or(raw.layout, "us"@),
            x.variant@ == text_or(raw.variant, ""@),
            x.options == raw.options,
            raw_repeat_rate(raw) == Some(x.repeat_rate as int),
            raw_repeat_delay(raw) == Some(x.repeat_delay as int),
    {
        let rate = match parse_setting_i32(&raw.repeat_rate, "200") {
            Some(v) => v,
            None => {
                proof {
                    assert(false);
                }
                0
            },
        };
        let delay = match parse_setting_i32(&raw.repeat_delay, "50") {
            Some(v) => v,
            None => {
                proof {
                    assert(false);
                }
                0
            },
        };
        let RawXkb { layout, variant, options, repeat_rate: _, repeat_delay: _ } = raw;
        Xkb {
            layout: string_or(layout, "us"),
            variant: string_or(variant, ""),
            options,
            repeat_rate: rate,
            repeat_delay: delay,
        }
    }
}

} // verus!
