//! Parameters of the plugin that rounds lists of numeric values (`points`,
//! `viewBox`, `stroke-dasharray`, ...) to a fixed precision. The rounding
//! itself works on floating-point numbers and is done outside this library.

use vstd::prelude::*;
use crate::value::{Value, get_bool_param, opt_value, param_bool, value_get, is_decimal, decimal_value};

verus! {

/// The precision found under `floatPrecision`: a number that is a
/// non-negative integer fitting in 64 bits; `None` otherwise.
pub open spec fn param_precision(params: Option<Value>) -> Option<u64> {
    match params {
        Some(p) => match value_get(p, "floatPrecision"@) {
            Some(Value::Number(s)) => if is_decimal(s@) && decimal_value(s@) <= u64::MAX {
                Some(decimal_value(s@) as u64)
            } else {
                None
            },
            _ => None,
        },
        None => None,
    }
}

/// The precision taken from the parameters, or `default`.
pub fn precision_param(value: Option<&Value>, default: usize) -> (r: usize)
    ensures
        r == match param_precision(opt_value(value)) {
            Some(n) => n as usize,
            None => default,
        },
{
    match value {
        Some(p) => match p.get("floatPrecision") {
            Some(v) => match v.as_u64() {
                Some(n) => n as usize,
                None => default,
            },
            None => default,
        },
        None => default,
    }
}

/// Configuration of the list rounding.
#[derive(Debug)]
pub struct CleanupListOfValuesParams {
    /// Number of decimal places to round to (default: 3).
    pub float_precision: usize,
    /// Remove leading zeros from decimals (default: true).
    pub leading_zero: bool,
    /// Remove default "px" units (default: true).
    pub default_px: bool,
    /// Convert absolute units to px when that is shorter (default: true).
    pub convert_to_px: bool,
}

impl Default for CleanupListOfValuesParams {
    fn default() -> (r: CleanupListOfValuesParams)
        ensures
            r.float_precision == 3 && r.leading_zero && r.default_px && r.convert_to_px,
    {
        CleanupListOfValuesParams { float_precision: 3, leading_zero: true, default_px: true, convert_to_px: true }
    }
}

impl CleanupListOfValuesParams {
    /// The parameters found in a JSON object; each missing member, or one
    /// of another kind, keeps its default.
    pub fn from_value(value: Option<&Value>) -> (r: CleanupListOfValuesParams)
        ensures
            r.float_precision == match param_precision(opt_value(value)) {
                Some(n) => n as usize,
                None => 3usize,
            },
            r.leading_zero == param_bool(opt_value(value), "leadingZero"@, true),
            r.default_px == param_bool(opt_value(value), "defaultPx"@, true),
            r.convert_to_px == param_bool(opt_value(value), "convertToPx"@, true),
    {
        CleanupListOfValuesParams {
            float_precision: precision_param(value, 3),
            leading_zero: get_bool_param(value, "leadingZero", true),
            default_px: get_bool_param(value, "defaultPx", true),
            convert_to_px: get_bool_param(value, "convertToPx", true),
        }
    }
}

} // verus!
