//! The part of removing `width` and `height` from `<svg>` elements that needs
//! no arithmetic: an `<svg>` that has a `viewBox` loses both.  Building a
//! `viewBox` from `width` and `height` reads them as floating-point numbers
//! and is done outside this library.

use vstd::prelude::*;
use crate::ast::{Element, attr_entries, entry_index, entry_remove};
use crate::strings::str_eq;

verus! {

/// Whether an element is an `<svg>` with a `viewBox`.
pub open spec fn has_viewbox_svg(name: Seq<char>, attrs: Seq<(Seq<char>, Seq<char>)>) -> bool {
    name == "svg"@ && entry_index(attrs, "viewBox"@) >= 0
}

/// Removes `width` and `height` from an `<svg>` element that has a
/// `viewBox`, and says whether it did; any other element stays as it is.
pub fn drop_dimensions_with_viewbox(e: &mut Element) -> (r: bool)
    ensures
        r == has_viewbox_svg(old(e).name@, attr_entries(old(e).attributes)),
        r ==> attr_entries(final(e).attributes)
            == entry_remove(entry_remove(attr_entries(old(e).attributes), "width"@), "height"@),
        !r ==> attr_entries(final(e).attributes) == attr_entries(old(e).attributes),
        final(e).name == old(e).name,
        final(e).children == old(e).children,
        final(e).namespaces == old(e).namespaces,
{
    if str_eq(e.name.as_str(), "svg") && e.has_attr("viewBox") {
        e.remove_attr("width");
        e.remove_attr("height");
        true
    } else {
        false
    }
}

} // verus!
