//! Parameters of the plugin that rounds numeric attribute values to a fixed
//! precision. The rounding itself works on floating-point numbers and is
//! done outside this library.

use vstd::prelude::*;
use crate::value::{Value, get_bool_param, opt_value, param_bool};
use crate::plugins::cleanup_list_of_values::{param_precision, precision_param};
use crate::strings::{chars_from, has_prefix, owned, str_starts_with, to_chars};

verus! {

/// Configuration of the numeric rounding.
#[derive(Debug)]
pub struct CleanupNumericValuesParams {
    /// Number of decimal places to round to (default: 3).
    pub float_precision: usize,
    /// Remove leading zeros from decimals (default: true).
    pub leading_zero: bool,
    /// Remove default "px" units (default: true).
    pub default_px: bool,
    /// Convert absolute units to px when that is shorter (default: true).
    pub convert_to_px: bool,
}

impl Default for CleanupNumericValuesParams {
    fn default() -> (r: CleanupNumericValuesParams)
        ensures
            r.float_precision == 3 && r.leading_zero && r.default_px && r.convert_to_px,
    {
        CleanupNumericValuesParams { float_precision: 3, leading_zero: true, default_px: true, convert_to_px: true }
    }
}

impl CleanupNumericValuesParams {
    /// The parameters found in a JSON object; each missing member, or one
    /// of another kind, keeps its default.
    pub fn from_value(value: Option<&Value>) -> (r: CleanupNumericValuesParams)
        ensures
            r.float_precision == match param_precision(opt_value(value)) {
                Some(n) => n as usize,
                None => 3usize,
            },
            r.leading_zero == param_bool(opt_value(value), "leadingZero"@, true),
            r.default_px == param_bool(opt_value(value), "defaultPx"@, true),
            r.convert_to_px == param_bool(opt_value(value), "convertToPx"@, true),
    {
        CleanupNumericValuesParams {
            float_precision: precision_param(value, 3),
            leading_zero: get_bool_param(value, "leadingZero", true),
            default_px: get_bool_param(value, "defaultPx", true),
            convert_to_px: get_bool_param(value, "convertToPx", true),
        }
    }
}

/// A number without its leading zero: `0.5` becomes `.5` and `-0.5`
/// becomes `-.5`; any other text stays.
pub open spec fn without_leading_zero(v: Seq<char>) -> Seq<char> {
    if has_prefix(v, "0."@) {
        v.skip(1)
    } else if has_prefix(v, "-0."@) {
        seq!['-'] + v.skip(2)
    } else {
        v
    }
}

/// Removes the leading zero of a decimal number (`0.5` to `.5`, `-0.5` to
/// `-.5`).
pub fn remove_leading_zero(value: &str) -> (r: String)
    ensures
        r@ == without_leading_zero(value@),
{
    let cs = to_chars(value);
    if str_starts_with(value, "0.") {
        proof { reveal_strlit("0."); }
        chars_from(cs.as_slice(), 1)
    } else if str_starts_with(value, "-0.") {
        proof { reveal_strlit("-0."); }
        let mut out = owned("-");
        let rest = chars_from(cs.as_slice(), 2);
        out.append(rest.as_str());
        proof { reveal_strlit("-"); }
        assert(out@ =~= seq!['-'] + value@.skip(2));
        out
    } else {
        owned(value)
    }
}

} // verus!
