//! Which attributes each plugin reads or rewrites: for every attribute of
//! the lists that SVG and the plugins' documentation give, what the plugin
//! makes of its value.

use vstd::prelude::*;
use crate::ast::ElementView;
use crate::plugins::convert_colors::{colored_elem, converted_color};
use crate::plugins::convert_one_stop_gradients::{recolored_elem, url_of};
use crate::ast::entry_lookup;
use crate::ast::lemma_entry_insert_lookup;
use crate::laws::law_set_attr_keeps_others;
use crate::plugins::cleanup_ids::{attr_refs, is_href_name, match_groups, quoted_ref_pattern, refs_in, refs_of,
    renamed_value, url_ref_pattern, url_renamed};
use crate::strings::{has_prefix, has_suffix};
use crate::plugins::convert_style_to_attrs::{decl_text, split_decls};
use crate::ast::{entries_without, entry_index};
use crate::plugins::collapse_groups::{has_animation_child, move_one};
use crate::plugins::remove_editors_ns_data::declares_removed;
use crate::plugins::remove_deprecated_attrs::{is_configured, rda_attrs};
use crate::ast::NodeView;
use crate::plugins::prefix_ids::{AttrRule, apply_rule, apply_rules, attr_rules, pi_elem, prefixed_id};

verus! {

/// Every color property (`color`, `fill`, `flood-color`, `lighting-color`,
/// `stop-color`, `stroke`) of an element has its value converted, with the
/// same conversion whatever the property; an element that is a `<mask>`
/// converts as one inside a mask.
pub proof fn law_color_props_converted(e: ElementView, s: crate::plugins::convert_colors::ColorSettings, in_mask: bool,
    rgb: Seq<(Seq<char>, Seq<char>)>, i: int)
    requires
        0 <= i < e.attrs.len(),
        seq!["color"@, "fill"@, "flood-color"@, "lighting-color"@, "stop-color"@, "stroke"@].contains(e.attrs[i].0),
    ensures
        colored_elem(e, s, in_mask, rgb).attrs[i]
            == (e.attrs[i].0, converted_color(e.attrs[i].1, s, in_mask || e.name == "mask"@, rgb)),
{
    assert(seq!["color"@, "fill"@, "flood-color"@, "lighting-color"@, "stop-color"@, "stroke"@]
        =~= crate::plugins::convert_colors::color_props());
}

/// `url(#id)` names the gradient `id`.
proof fn lemma_gradient_ref_of_url(id: Seq<char>)
    ensures
        crate::plugins::convert_one_stop_gradients::gradient_ref(url_of(id)) == Some(id),
{
    let v = url_of(id);
    reveal_strlit("url(#");
    reveal_strlit(")");
    assert(v.subrange(0, 5) =~= "url(#"@);
    assert(v.subrange(v.len() - 1, v.len() as int) =~= ")"@);
    assert(v.subrange(5, v.len() - 1) =~= id);
}

/// A color property (`color`, `fill`, `flood-color`, `lighting-color`,
/// `stop-color`, `stroke`) that refers by `url(#id)` to a gradient of the
/// table takes that gradient's color, so no such property is left pointing
/// at a gradient that goes.
pub proof fn law_color_props_take_gradient_color(e: ElementView, table: Seq<(Seq<char>, Seq<char>)>,
    ordered: Seq<(Seq<char>, Seq<char>)>, i: int, id: Seq<char>, c: Seq<char>)
    requires
        0 <= i < e.attrs.len(),
        seq!["color"@, "fill"@, "flood-color"@, "lighting-color"@, "stop-color"@, "stroke"@].contains(e.attrs[i].0),
        e.attrs[i].1 == url_of(id),
        entry_lookup(table, id) == Some(c),
    ensures
        recolored_elem(e, table, ordered).attrs[i] == (e.attrs[i].0, c),
{
    assert(seq!["color"@, "fill"@, "flood-color"@, "lighting-color"@, "stop-color"@, "stroke"@]
        =~= crate::plugins::convert_one_stop_gradients::colors_props());
    lemma_gradient_ref_of_url(id);
}

/// Rules that name no attribute `k` leave the value of `k` as it was.
proof fn lemma_rules_keep_other(a: Seq<(Seq<char>, Seq<char>)>, r: Seq<(Seq<char>, AttrRule)>, prefix: Seq<char>, k: Seq<char>)
    requires
        forall|j: int| 0 <= j < r.len() ==> (#[trigger] r[j]).0 != k,
    ensures
        entry_lookup(apply_rules(a, r, prefix), k) == entry_lookup(a, k),
    decreases r.len(),
{
    if r.len() > 0 {
        let pre = apply_rules(a, r.drop_last(), prefix);
        assert(r.last() == r[r.len() - 1]);
        lemma_rules_keep_other(a, r.drop_last(), prefix, k);
        match entry_lookup(pre, r.last().0) {
            Some(v) => {
                if v.len() > 0 {
                    match crate::plugins::prefix_ids::rewritten_value(r.last().1, v, prefix) {
                        Some(w) => { law_set_attr_keeps_others(pre, r.last().0, w, k); },
                        None => {},
                    }
                }
            },
            None => {},
        }
    }
}

/// Applying the rules `r1 + r2` is applying `r1`, then `r2`.
proof fn lemma_rules_concat(a: Seq<(Seq<char>, Seq<char>)>, r1: Seq<(Seq<char>, AttrRule)>, r2: Seq<(Seq<char>, AttrRule)>, prefix: Seq<char>)
    ensures
        apply_rules(a, r1 + r2, prefix) == apply_rules(apply_rules(a, r1, prefix), r2, prefix),
    decreases r2.len(),
{
    if r2.len() == 0 {
        assert(r1 + r2 =~= r1);
    } else {
        lemma_rules_concat(a, r1, r2.drop_last(), prefix);
        assert((r1 + r2).drop_last() =~= r1 + r2.drop_last());
        assert((r1 + r2).last() == r2.last());
    }
}

/// Every local link, in `href` as in `xlink:href`, is rewritten with the
/// same prefix as the ids: `#x` becomes `#` and the prefixed `x`, so the
/// link still reaches the element whose id was prefixed.
pub proof fn law_prefix_ids_rewrite_links(e: ElementView, prefix: Seq<char>, ids: bool, classes: bool,
    k: Seq<char>, x: Seq<char>)
    requires
        k == "href"@ || k == "xlink:href"@,
        entry_lookup(e.attrs, k) == Some(seq!['#'] + x),
    ensures
        entry_lookup(pi_elem(e, prefix, ids, classes).attrs, k) == Some(seq!['#'] + prefixed_id(prefix, x)),
{
    reveal_strlit("href");
    reveal_strlit("xlink:href");
    reveal_strlit("id");
    reveal_strlit("class");
    reveal_strlit("begin");
    reveal_strlit("end");
    reveal_strlit("clip-path");
    reveal_strlit("color-profile");
    reveal_strlit("fill");
    reveal_strlit("filter");
    reveal_strlit("marker-end");
    reveal_strlit("marker-mid");
    reveal_strlit("marker-start");
    reveal_strlit("mask");
    reveal_strlit("stroke");
    reveal_strlit("style");
    let r1: Seq<(Seq<char>, AttrRule)> = (if ids { seq![("id"@, AttrRule::Id)] } else { Seq::empty() })
        + (if classes { seq![("class"@, AttrRule::Class)] } else { Seq::empty() });
    let hr = ("href"@, AttrRule::Href);
    let xr = ("xlink:href"@, AttrRule::Href);
    let r3: Seq<(Seq<char>, AttrRule)> = crate::plugins::prefix_ids::references_props().map_values(|n: Seq<char>| (n, AttrRule::Url))
        + seq![("begin"@, AttrRule::Animation), ("end"@, AttrRule::Animation)];
    let all = attr_rules(ids, classes);
    assert(all =~= ((r1 + seq![hr]) + seq![xr]) + r3);
    assert forall|j: int| 0 <= j < r1.len() implies (#[trigger] r1[j]).0 != k by {
        let n = r1[j].0;
        if ids && j == 0 { assert(n == "id"@); } else { assert(n == "class"@); }
        assert(n[0] != 'h' && n[0] != 'x');
    }
    assert(k[0] == 'h' || k[0] == 'x');
    assert forall|j: int| 0 <= j < r3.len() implies (#[trigger] r3[j]).0 != k by {
        let n = r3[j].0;
        if j < 10 {
            assert(n == crate::plugins::prefix_ids::references_props()[j]);
        }
        if j == 0 { assert(n == "clip-path"@); }
        else if j == 1 { assert(n == "color-profile"@); }
        else if j == 2 { assert(n == "fill"@); }
        else if j == 3 { assert(n == "filter"@); }
        else if j == 4 { assert(n == "marker-end"@); }
        else if j == 5 { assert(n == "marker-mid"@); }
        else if j == 6 { assert(n == "marker-start"@); }
        else if j == 7 { assert(n == "mask"@); }
        else if j == 8 { assert(n == "stroke"@); }
        else if j == 9 { assert(n == "style"@); }
        else if j == 10 { assert(n == "begin"@); }
        else { assert(n == "end"@); }
        assert(n[0] != 'h' && n[0] != 'x');
    }
    let a = e.attrs;
    lemma_rules_concat(a, (r1 + seq![hr]) + seq![xr], r3, prefix);
    lemma_rules_concat(a, r1 + seq![hr], seq![xr], prefix);
    lemma_rules_concat(a, r1, seq![hr], prefix);
    lemma_rules_keep_other(a, r1, prefix, k);
    let a1 = apply_rules(a, r1, prefix);
    assert(apply_rules(a1, seq![hr], prefix) == apply_rule(a1, hr, prefix)) by {
        assert(seq![hr].drop_last() =~= Seq::<(Seq<char>, AttrRule)>::empty());
        assert(seq![hr].last() == hr);
        assert(apply_rules(a1, Seq::<(Seq<char>, AttrRule)>::empty(), prefix) == a1);
    }
    let a2 = apply_rule(a1, hr, prefix);
    assert(apply_rules(a2, seq![xr], prefix) == apply_rule(a2, xr, prefix)) by {
        assert(seq![xr].drop_last() =~= Seq::<(Seq<char>, AttrRule)>::empty());
        assert(seq![xr].last() == xr);
        assert(apply_rules(a2, Seq::<(Seq<char>, AttrRule)>::empty(), prefix) == a2);
    }
    let a3 = apply_rule(a2, xr, prefix);
    let v = seq!['#'] + x;
    assert(v.drop_first() =~= x);
    if k == "href"@ {
        lemma_entry_insert_lookup(a1, k, seq!['#'] + prefixed_id(prefix, x));
        assert(entry_lookup(a2, k) == Some(seq!['#'] + prefixed_id(prefix, x)));
        match entry_lookup(a2, "xlink:href"@) {
            Some(w) => {
                if w.len() > 0 {
                    match crate::plugins::prefix_ids::rewritten_value(AttrRule::Href, w, prefix) {
                        Some(z) => { law_set_attr_keeps_others(a2, "xlink:href"@, z, k); },
                        None => {},
                    }
                }
            },
            None => {},
        }
    } else {
        match entry_lookup(a1, "href"@) {
            Some(w) => {
                if w.len() > 0 {
                    match crate::plugins::prefix_ids::rewritten_value(AttrRule::Href, w, prefix) {
                        Some(z) => { law_set_attr_keeps_others(a1, "href"@, z, k); },
                        None => {},
                    }
                }
            },
            None => {},
        }
        assert(entry_lookup(a2, k) == Some(v));
        lemma_entry_insert_lookup(a2, k, seq!['#'] + prefixed_id(prefix, x));
    }
    assert(entry_lookup(a3, k) == Some(seq!['#'] + prefixed_id(prefix, x)));
    lemma_rules_keep_other(a3, r3, prefix, k);
}

/// A name that is one of the properties that take `url(#id)` is neither
/// a link nor `begin`.
proof fn lemma_reference_prop_plain(name: Seq<char>)
    requires
        seq!["clip-path"@, "color-profile"@, "fill"@, "filter"@, "marker-end"@, "marker-mid"@, "marker-start"@,
            "mask"@, "stroke"@, "style"@].contains(name),
    ensures
        crate::plugins::cleanup_ids::reference_props().contains(name),
        !is_href_name(name),
        name != "begin"@,
{
    let l = seq!["clip-path"@, "color-profile"@, "fill"@, "filter"@, "marker-end"@, "marker-mid"@, "marker-start"@,
        "mask"@, "stroke"@, "style"@];
    assert(l =~= crate::plugins::cleanup_ids::reference_props());
    reveal_strlit("href");
    reveal_strlit(":href");
    reveal_strlit("begin");
    reveal_strlit("clip-path");
    reveal_strlit("color-profile");
    reveal_strlit("fill");
    reveal_strlit("filter");
    reveal_strlit("marker-end");
    reveal_strlit("marker-mid");
    reveal_strlit("marker-start");
    reveal_strlit("mask");
    reveal_strlit("stroke");
    reveal_strlit("style");
    let j = choose|j: int| 0 <= j < l.len() && l[j] == name;
    if j == 0 { assert(name == "clip-path"@); }
    else if j == 1 { assert(name == "color-profile"@); }
    else if j == 2 { assert(name == "fill"@); }
    else if j == 3 { assert(name == "filter"@); }
    else if j == 4 { assert(name == "marker-end"@); }
    else if j == 5 { assert(name == "marker-mid"@); }
    else if j == 6 { assert(name == "marker-start"@); }
    else if j == 7 { assert(name == "mask"@); }
    else if j == 8 { assert(name == "stroke"@); }
    else { assert(name == "style"@); }
    assert(name[0] != 'h' && name[0] != 'b');
    assert(name.len() < 5 || name[name.len() - 5] != ':');
    if has_suffix(name, ":href"@) {
        assert(name.subrange(name.len() - 5, name.len() as int)[0] == ':');
    }
}

/// Each property that takes `url(#id)` (`clip-path`, `color-profile`,
/// `fill`, `filter`, the three markers, `mask`, `stroke`, `style`) refers
/// to the ids of its `url(#id)` and `url('#id')` references, in order,
/// and has those references follow the renamings.
pub proof fn law_reference_props_read_urls(name: Seq<char>, value: Seq<char>, m: Seq<(Seq<char>, Seq<char>, Seq<char>)>)
    requires
        seq!["clip-path"@, "color-profile"@, "fill"@, "filter"@, "marker-end"@, "marker-mid"@, "marker-start"@,
            "mask"@, "stroke"@, "style"@].contains(name),
    ensures
        refs_of(name, value) == match_groups(url_ref_pattern(), value) + match_groups(quoted_ref_pattern(), value),
        renamed_value(name, value, m) == url_renamed(value, m),
{
    lemma_reference_prop_plain(name);
    let u = match_groups(url_ref_pattern(), value) + match_groups(quoted_ref_pattern(), value);
    assert(u + Seq::<Seq<char>>::empty() + Seq::<Seq<char>>::empty() =~= u);
}

/// The ids that one attribute refers to are among those its element's
/// attributes refer to.
proof fn lemma_attr_refs_has(a: Seq<(Seq<char>, Seq<char>)>, i: int, x: Seq<char>)
    requires
        0 <= i < a.len(),
        refs_of(a[i].0, a[i].1).contains(x),
    ensures
        attr_refs(a).contains(x),
    decreases a.len(),
{
    let pre = attr_refs(a.drop_last());
    let last = refs_of(a.last().0, a.last().1);
    if i == a.len() - 1 {
        let k = choose|k: int| 0 <= k < last.len() && last[k] == x;
        assert((pre + last)[pre.len() + k] == x);
    } else {
        assert(a.drop_last()[i] == a[i]);
        lemma_attr_refs_has(a.drop_last(), i, x);
        let k = choose|k: int| 0 <= k < pre.len() && pre[k] == x;
        assert((pre + last)[k] == x);
    }
}

/// An id that an element's property of that list names by `url(#id)` is
/// among the ids the element refers to, so the plugin neither removes it
/// as unreferenced nor leaves the reference behind when it renames it.
pub proof fn law_url_reference_counts(e: ElementView, i: int, x: Seq<char>)
    requires
        0 <= i < e.attrs.len(),
        seq!["clip-path"@, "color-profile"@, "fill"@, "filter"@, "marker-end"@, "marker-mid"@, "marker-start"@,
            "mask"@, "stroke"@, "style"@].contains(e.attrs[i].0),
        match_groups(url_ref_pattern(), e.attrs[i].1).contains(x),
    ensures
        refs_in(e).contains(x),
{
    law_reference_props_read_urls(e.attrs[i].0, e.attrs[i].1, Seq::empty());
    let g = match_groups(url_ref_pattern(), e.attrs[i].1);
    let k = choose|k: int| 0 <= k < g.len() && g[k] == x;
    assert(refs_of(e.attrs[i].0, e.attrs[i].1)[k] == x);
    lemma_attr_refs_has(e.attrs, i, x);
    let ar = attr_refs(e.attrs);
    let j = choose|j: int| 0 <= j < ar.len() && ar[j] == x;
    assert(refs_in(e) == ar + crate::plugins::cleanup_ids::refs_in_children(e.children));
    assert(refs_in(e)[j] == x);
}

/// The presentation attributes of SVG: the properties that an element may
/// carry as attributes as well as in its style.
pub open spec fn svg_presentation_attributes() -> Seq<Seq<char>> {
    seq![
        "alignment-baseline"@,
        "baseline-shift"@,
        "clip-path"@,
        "clip-rule"@,
        "clip"@,
        "color-interpolation-filters"@,
        "color-interpolation"@,
        "color-profile"@,
        "color-rendering"@,
        "color"@,
        "cursor"@,
        "direction"@,
        "display"@,
        "dominant-baseline"@,
        "enable-background"@,
        "fill-opacity"@,
        "fill-rule"@,
        "fill"@,
        "filter"@,
        "flood-color"@,
        "flood-opacity"@,
        "font-family"@,
        "font-size-adjust"@,
        "font-size"@,
        "font-stretch"@,
        "font-style"@,
        "font-variant"@,
        "font-weight"@,
        "glyph-orientation-horizontal"@,
        "glyph-orientation-vertical"@,
        "image-rendering"@,
        "letter-spacing"@,
        "lighting-color"@,
        "marker-end"@,
        "marker-mid"@,
        "marker-start"@,
        "mask"@,
        "opacity"@,
        "overflow"@,
        "paint-order"@,
        "pointer-events"@,
        "shape-rendering"@,
        "stop-color"@,
        "stop-opacity"@,
        "stroke-dasharray"@,
        "stroke-dashoffset"@,
        "stroke-linecap"@,
        "stroke-linejoin"@,
        "stroke-miterlimit"@,
        "stroke-opacity"@,
        "stroke-width"@,
        "stroke"@,
        "text-anchor"@,
        "text-decoration"@,
        "text-overflow"@,
        "text-rendering"@,
        "transform"@,
        "transform-origin"@,
        "unicode-bidi"@,
        "vector-effect"@,
        "visibility"@,
        "word-spacing"@,
        "writing-mode"@
    ]
}

/// Of an element's style declarations, each one whose property is a
/// presentation attribute that the element lacks becomes an attribute, and
/// each one whose property is not a presentation attribute stays in the
/// style.
pub proof fn law_presentation_decls_move(d: Seq<(Seq<char>, Seq<char>)>, a: Seq<(Seq<char>, Seq<char>)>, i: int)
    requires
        0 <= i < d.len(),
    ensures
        svg_presentation_attributes().contains(d[i].0) && entry_index(a, d[i].0) < 0 ==> split_decls(d, a).0.contains(d[i]),
        !svg_presentation_attributes().contains(d[i].0) ==> split_decls(d, a).1.contains(decl_text(d[i].0, d[i].1)),
    decreases d.len(),
{
    assert(svg_presentation_attributes() =~= crate::plugins::convert_style_to_attrs::presentation_attrs());
    let pre = split_decls(d.drop_last(), a);
    if i < d.len() - 1 {
        assert(d.drop_last()[i] == d[i]);
        law_presentation_decls_move(d.drop_last(), a, i);
        if svg_presentation_attributes().contains(d[i].0) && entry_index(a, d[i].0) < 0 {
            let k = choose|k: int| 0 <= k < pre.0.len() && pre.0[k] == d[i];
            assert(split_decls(d, a).0[k] == d[i]);
        }
        if !svg_presentation_attributes().contains(d[i].0) {
            let k = choose|k: int| 0 <= k < pre.1.len() && pre.1[k] == decl_text(d[i].0, d[i].1);
            assert(split_decls(d, a).1[k] == decl_text(d[i].0, d[i].1));
        }
    } else {
        assert(d.last() == d[i]);
        if svg_presentation_attributes().contains(d[i].0) && entry_index(a, d[i].0) < 0 {
            assert(split_decls(d, a).0[pre.0.len() as int] == d[i]);
        }
        if !svg_presentation_attributes().contains(d[i].0) {
            assert(split_decls(d, a).1[pre.1.len() as int] == decl_text(d[i].0, d[i].1));
        }
    }
}

/// What one rule makes of the value `o` of its attribute.
pub open spec fn rule_outcome(o: Option<Seq<char>>, rule: AttrRule, prefix: Seq<char>) -> Option<Seq<char>> {
    match o {
        Some(v) => if v.len() > 0 {
            match crate::plugins::prefix_ids::rewritten_value(rule, v, prefix) {
                Some(w) => Some(w),
                None => o,
            }
        } else {
            o
        },
        None => None,
    }
}

/// When exactly one rule names `k`, the value of `k` after all rules is what
/// that rule makes of its value before them.
proof fn lemma_single_rule(a: Seq<(Seq<char>, Seq<char>)>, r: Seq<(Seq<char>, AttrRule)>, prefix: Seq<char>,
    k: Seq<char>, j: int)
    requires
        0 <= j < r.len(),
        r[j].0 == k,
        forall|i: int| 0 <= i < r.len() && i != j ==> (#[trigger] r[i]).0 != k,
    ensures
        entry_lookup(apply_rules(a, r, prefix), k) == rule_outcome(entry_lookup(a, k), r[j].1, prefix),
    decreases r.len(),
{
    let d = r.drop_last();
    let pre = apply_rules(a, d, prefix);
    assert(r.last() == r[r.len() - 1]);
    if j == r.len() - 1 {
        assert forall|i: int| 0 <= i < d.len() implies (#[trigger] d[i]).0 != k by {
            assert(d[i] == r[i]);
        }
        lemma_rules_keep_other(a, d, prefix, k);
        match entry_lookup(pre, k) {
            Some(v) => {
                if v.len() > 0 {
                    match crate::plugins::prefix_ids::rewritten_value(r[j].1, v, prefix) {
                        Some(w) => { lemma_entry_insert_lookup(pre, k, w); },
                        None => {},
                    }
                }
            },
            None => {},
        }
    } else {
        assert forall|i: int| 0 <= i < d.len() && i != j implies (#[trigger] d[i]).0 != k by {
            assert(d[i] == r[i]);
        }
        assert(d[j] == r[j]);
        lemma_single_rule(a, d, prefix, k, j);
        let last = r.last();
        match entry_lookup(pre, last.0) {
            Some(v) => {
                if v.len() > 0 {
                    match crate::plugins::prefix_ids::rewritten_value(last.1, v, prefix) {
                        Some(w) => { law_set_attr_keeps_others(pre, last.0, w, k); },
                        None => {},
                    }
                }
            },
            None => {},
        }
    }
}

/// The properties whose `url(#id)` references the prefix-ids plugin
/// rewrites.
spec fn prefixed_reference_props() -> Seq<Seq<char>> {
    seq!["clip-path"@, "color-profile"@, "fill"@, "filter"@, "marker-end"@, "marker-mid"@, "marker-start"@,
        "mask"@, "stroke"@, "style"@]
}

proof fn lemma_prefixed_reference_props_shape()
    ensures
        prefixed_reference_props().no_duplicates(),
        forall|j: int| 0 <= j < prefixed_reference_props().len() ==> {
            let n = #[trigger] prefixed_reference_props()[j];
            &&& n.len() >= 4
            &&& (n[0] == 'c' ==> n.len() >= 9)
            &&& n[0] != 'h' && n[0] != 'x' && n[0] != 'b' && n[0] != 'i' && n[0] != 'e'
        },
{
    reveal_strlit("clip-path");
    reveal_strlit("color-profile");
    reveal_strlit("fill");
    reveal_strlit("filter");
    reveal_strlit("marker-end");
    reveal_strlit("marker-mid");
    reveal_strlit("marker-start");
    reveal_strlit("mask");
    reveal_strlit("stroke");
    reveal_strlit("style");
    let l = prefixed_reference_props();
    assert("fill"@[0] != "mask"@[0]);
    assert("filter"@[0] != "stroke"@[0]);
    assert("marker-end"@[7] != "marker-mid"@[7]);
    assert forall|i: int, j: int| 0 <= i < l.len() && 0 <= j < l.len() && i != j implies l[i] != l[j] by {
        if l[i] == l[j] {
            assert(l[i].len() == l[j].len());
            assert(l[i][0] == l[j][0]);
            if l[i].len() == 10 { assert(l[i][7] == l[j][7]); }
        }
    }
}

/// Every property that may hold a `url(#id)` reference (`clip-path`,
/// `color-profile`, `fill`, `filter`, the markers, `mask`, `stroke`,
/// `style`) has its references rewritten with the prefix.
pub proof fn law_prefix_ids_rewrite_references(e: ElementView, prefix: Seq<char>, ids: bool, classes: bool,
    k: Seq<char>, v: Seq<char>)
    requires
        seq!["clip-path"@, "color-profile"@, "fill"@, "filter"@, "marker-end"@, "marker-mid"@, "marker-start"@,
            "mask"@, "stroke"@, "style"@].contains(k),
        entry_lookup(e.attrs, k) == Some(v),
        v.len() > 0,
    ensures
        entry_lookup(pi_elem(e, prefix, ids, classes).attrs, k)
            == Some(crate::plugins::prefix_ids::prefixed_urls(v, prefix)),
{
    let l = prefixed_reference_props();
    assert(l =~= crate::plugins::prefix_ids::references_props());
    lemma_prefixed_reference_props_shape();
    reveal_strlit("id");
    reveal_strlit("class");
    reveal_strlit("href");
    reveal_strlit("xlink:href");
    reveal_strlit("begin");
    reveal_strlit("end");
    let jk = choose|j: int| 0 <= j < l.len() && l[j] == k;
    let r1: Seq<(Seq<char>, AttrRule)> = (if ids { seq![("id"@, AttrRule::Id)] } else { Seq::empty() })
        + (if classes { seq![("class"@, AttrRule::Class)] } else { Seq::empty() });
    let all = attr_rules(ids, classes);
    let off = r1.len() + 2;
    let mid = l.map_values(|n: Seq<char>| (n, AttrRule::Url));
    assert(all =~= r1 + seq![("href"@, AttrRule::Href), ("xlink:href"@, AttrRule::Href)] + mid
        + seq![("begin"@, AttrRule::Animation), ("end"@, AttrRule::Animation)]);
    assert(all[off + jk] == mid[jk]);
    assert(all[off + jk] == (k, AttrRule::Url));
    assert forall|i: int| 0 <= i < all.len() && i != off + jk implies (#[trigger] all[i]).0 != k by {
        let n = all[i].0;
        if i < r1.len() {
            if ids && i == 0 { assert(n == "id"@); } else { assert(n == "class"@); }
        } else if i == r1.len() {
            assert(n == "href"@);
        } else if i == r1.len() + 1 {
            assert(n == "xlink:href"@);
        } else if i < off + l.len() {
            assert(n == l[i - off]);
            assert(l[i - off] != l[jk]);
        } else if i == off + l.len() {
            assert(n == "begin"@);
        } else {
            assert(n == "end"@);
        }
    }
    lemma_single_rule(e.attrs, all, prefix, k, off + jk);
}

/// The presentation attributes that children inherit from their group.
pub open spec fn inherited_attributes() -> Seq<Seq<char>> {
    seq![
        "clip-rule"@,
        "color-interpolation-filters"@,
        "color-interpolation"@,
        "color-profile"@,
        "color-rendering"@,
        "color"@,
        "cursor"@,
        "direction"@,
        "dominant-baseline"@,
        "fill-opacity"@,
        "fill-rule"@,
        "fill"@,
        "font-family"@,
        "font-size-adjust"@,
        "font-size"@,
        "font-stretch"@,
        "font-style"@,
        "font-variant"@,
        "font-weight"@,
        "font"@,
        "glyph-orientation-horizontal"@,
        "glyph-orientation-vertical"@,
        "image-rendering"@,
        "letter-spacing"@,
        "marker-end"@,
        "marker-mid"@,
        "marker-start"@,
        "marker"@,
        "paint-order"@,
        "pointer-events"@,
        "shape-rendering"@,
        "stroke-dasharray"@,
        "stroke-dashoffset"@,
        "stroke-linecap"@,
        "stroke-linejoin"@,
        "stroke-miterlimit"@,
        "stroke-opacity"@,
        "stroke-width"@,
        "stroke"@,
        "text-anchor"@,
        "text-rendering"@,
        "transform"@,
        "visibility"@,
        "word-spacing"@,
        "writing-mode"@
    ]
}

/// An inherited attribute of a group always moves onto its child: it is
/// added, put before the child's transform, replaces `inherit`, or gives
/// way to the child's own value.  Any other attribute that the child
/// already has with another value (not `inherit`) cannot move.
pub proof fn law_inherited_attrs_move(c: Seq<(Seq<char>, Seq<char>)>, name: Seq<char>, value: Seq<char>)
    ensures
        inherited_attributes().contains(name) ==> move_one(c, name, value).1,
        !inherited_attributes().contains(name) && entry_lookup(c, name) is Some
            && entry_lookup(c, name)->0 != "inherit"@ && entry_lookup(c, name)->0 != value ==> !move_one(c, name, value).1,
{
    assert(inherited_attributes() =~= crate::plugins::collapse_groups::inheritable_attrs());
    reveal_strlit("transform");
    if !inherited_attributes().contains(name) {
        assert(name != "transform"@) by {
            if name == "transform"@ {
                assert(inherited_attributes()[41] == "transform"@);
            }
        }
    }
}

/// A group one of whose children is an animation element (`animate`,
/// `animateColor`, `animateMotion`, `animateTransform`, `set`) has an
/// animation child, so it is never replaced by its children.
pub proof fn law_animation_children_counted(s: Seq<NodeView>, i: int)
    requires
        0 <= i < s.len(),
        s[i] matches NodeView::Element(c) && seq!["animate"@, "animateColor"@, "animateMotion"@,
            "animateTransform"@, "set"@].contains(c.name),
    ensures
        has_animation_child(s),
{
    assert(seq!["animate"@, "animateColor"@, "animateMotion"@, "animateTransform"@, "set"@]
        =~= crate::plugins::collapse_groups::animation_elems());
}

/// The namespaces of the known editors.
pub open spec fn known_editor_namespaces() -> Seq<Seq<char>> {
    seq![
        "http://creativecommons.org/ns#"@,
        "http://inkscape.sourceforge.net/DTD/sodipodi-0.dtd"@,
        "http://ns.adobe.com/AdobeIllustrator/10.0/"@,
        "http://ns.adobe.com/AdobeSVGViewerExtensions/3.0/"@,
        "http://ns.adobe.com/Extensibility/1.0/"@,
        "http://ns.adobe.com/Flows/1.0/"@,
        "http://ns.adobe.com/GenericCustomNamespace/1.0/"@,
        "http://ns.adobe.com/Graphs/1.0/"@,
        "http://ns.adobe.com/ImageReplacement/1.0/"@,
        "http://ns.adobe.com/SaveForWeb/1.0/"@,
        "http://ns.adobe.com/Variables/1.0/"@,
        "http://ns.adobe.com/XPath/1.0/"@,
        "http://purl.org/dc/elements/1.1/"@,
        "http://schemas.microsoft.com/visio/2003/SVGExtensions/"@,
        "http://sodipodi.sourceforge.net/DTD/sodipodi-0.dtd"@,
        "http://taptrix.com/vectorillustrator/svg_extensions"@,
        "http://www.bohemiancoding.com/sketch/ns"@,
        "http://www.figma.com/figma/ns"@,
        "http://www.inkscape.org/namespaces/inkscape"@,
        "http://www.serif.com/"@,
        "http://www.vector.evaxdesign.com/myNamespace"@,
        "http://www.w3.org/1999/02/22-rdf-syntax-ns#"@
    ]
}

/// A declaration `xmlns:p` of a known editor's namespace is removed, and a
/// declaration of any other namespace that is not listed in the
/// parameters stays.
pub proof fn law_editor_namespaces_removed(entry: (Seq<char>, Seq<char>), extra: Seq<Seq<char>>)
    ensures
        has_prefix(entry.0, "xmlns:"@) && known_editor_namespaces().contains(entry.1) ==> declares_removed(entry, extra),
        !known_editor_namespaces().contains(entry.1) && !extra.contains(entry.1) ==> !declares_removed(entry, extra),
{
    assert(known_editor_namespaces() =~= crate::plugins::remove_editors_ns_data::editor_namespaces());
}

/// No kept entry has a name of the removed ones.
proof fn lemma_entries_without_names(e: Seq<(Seq<char>, Seq<char>)>, names: Seq<Seq<char>>, j: int)
    requires
        0 <= j < entries_without(e, names).len(),
    ensures
        !names.contains(entries_without(e, names)[j].0),
    decreases e.len(),
{
    if e.len() > 0 {
        let pre = entries_without(e.drop_last(), names);
        if j < pre.len() {
            lemma_entries_without_names(e.drop_last(), names, j);
        }
    }
}

/// With `removeUnsafe`, an element that the plugin knows keeps none of the
/// deprecated attributes that may change rendering: `requiredFeatures`,
/// `xml:base`, `xml:lang`, `xml:space`, and, but on `animateTransform`,
/// `clip`, `color-profile`, `enable-background`, the two glyph
/// orientations and `kerning`.
pub proof fn law_unsafe_deprecated_attrs_removed(name: Seq<char>, a: Seq<(Seq<char>, Seq<char>)>, j: int)
    requires
        is_configured(name),
        0 <= j < rda_attrs(name, a, true).len(),
    ensures
        !seq!["requiredFeatures"@, "xml:base"@, "xml:lang"@, "xml:space"@].contains(rda_attrs(name, a, true)[j].0),
        name != "animateTransform"@ ==> !seq!["clip"@, "color-profile"@, "enable-background"@,
            "glyph-orientation-horizontal"@, "glyph-orientation-vertical"@, "kerning"@].contains(rda_attrs(name, a, true)[j].0),
{
    let core = seq!["requiredFeatures"@, "xml:base"@, "xml:lang"@, "xml:space"@];
    let pres = seq!["clip"@, "color-profile"@, "enable-background"@, "glyph-orientation-horizontal"@,
        "glyph-orientation-vertical"@, "kerning"@];
    assert(core =~= crate::plugins::remove_deprecated_attrs::core_unsafe());
    assert(pres =~= crate::plugins::remove_deprecated_attrs::presentation_unsafe());
    let a1 = if entry_index(a, "xml:lang"@) >= 0 && entry_index(a, "lang"@) >= 0 {
        crate::ast::entry_remove(a, "xml:lang"@)
    } else {
        a
    };
    let u = crate::plugins::remove_deprecated_attrs::unsafe_attrs(name);
    lemma_entries_without_names(a1, u, j);
    let n = rda_attrs(name, a, true)[j].0;
    if core.contains(n) {
        let k = choose|k: int| 0 <= k < core.len() && core[k] == n;
        assert(u[k] == n);
    }
    if name != "animateTransform"@ && pres.contains(n) {
        let k = choose|k: int| 0 <= k < pres.len() && pres[k] == n;
        assert(u[core.len() + k] == n);
    }
}

/// The `--precision` override reaches exactly the plugins that take a
/// `floatPrecision` parameter (`cleanupNumericValues`,
/// `cleanupListOfValues`, `convertPathData`, `convertTransform`): such a
/// plugin without parameters gets an object of them, and every other
/// plugin is left as it was.
pub proof fn law_precision_reaches_float_plugins(old: crate::plugin::PluginConfig, new: crate::plugin::PluginConfig, p: u8)
    requires
        crate::cli::precision_applied(old, new, p),
    ensures
        seq!["cleanupNumericValues"@, "cleanupListOfValues"@, "convertPathData"@, "convertTransform"@].contains(old.name@)
            && old.params is None ==> new.params matches Some(crate::value::Value::Object(_)),
        !seq!["cleanupNumericValues"@, "cleanupListOfValues"@, "convertPathData"@, "convertTransform"@].contains(old.name@)
            ==> new == old,
{
    assert(seq!["cleanupNumericValues"@, "cleanupListOfValues"@, "convertPathData"@, "convertTransform"@]
        =~= crate::cli::precision_plugins());
}

} // verus!
