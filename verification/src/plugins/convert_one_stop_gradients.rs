//! Replaces gradients that have a single stop by the color of that stop,
//! removing the gradients and the `<defs>` they leave empty.

use vstd::prelude::*;
use crate::ast::{Document, Element, ElementView, Node, NodeView, attr_entries, attr_pairs, elem_view,
    entry_index, entry_insert, entry_lookup, entry_remove, keys_distinct, lemma_entry_index, lemma_nodes_view,
    lemma_nodes_view_push, node_view, nodes_view, ns_remove, pair_views};
use crate::plugin::{Plugin, PluginInfo, PluginResult};
use crate::plugins::cleanup_ids::{hash_walk_order, is_order, reordered};
use crate::strings::{char_index, contains_string, find_char, find_seq, has_prefix, has_suffix, leading_ws_len,
    owned, replace_all, replace_str, seq_index, str_ends_with, str_eq, str_seq, str_starts_with, to_chars,
    trim, trim_start, trim_str};
use crate::value::Value;

verus! {

/// The plugin that turns one-stop gradients into plain colors.
pub struct ConvertOneStopGradientsPlugin;

/// Whether an element name is that of a gradient.
pub open spec fn is_gradient(n: Seq<char>) -> bool {
    n == "linearGradient"@ || n == "radialGradient"@
}

/// The `<stop>` children of a gradient, in order.
pub open spec fn stop_elems(s: Seq<NodeView>) -> Seq<ElementView>
    decreases s.len(),
{
    if s.len() == 0 {
        Seq::empty()
    } else {
        let pre = stop_elems(s.drop_last());
        match s.last() {
            NodeView::Element(c) => if c.name == "stop"@ { pre.push(c) } else { pre },
            _ => pre,
        }
    }
}

/// The gradient that a gradient refers to, by `xlink:href` or `href`.
pub open spec fn gradient_href(a: Seq<(Seq<char>, Seq<char>)>) -> Option<Seq<char>> {
    match entry_lookup(a, "xlink:href"@) {
        Some(h) => Some(h),
        None => entry_lookup(a, "href"@),
    }
}

/// The stop color that a `style` value sets: the text after the first
/// `stop-color:`, up to the next `;`, trimmed.
pub open spec fn style_stop_color(st: Seq<char>) -> Option<Seq<char>> {
    let i = seq_index(st, "stop-color:"@);
    if i < 0 {
        None
    } else {
        let rest = trim_start(st.skip(i + 11));
        let end = char_index(rest, ';');
        Some(trim(if end < 0 { rest } else { rest.take(end) }))
    }
}

/// The color of a stop: its `stop-color`, else the one its style sets,
/// else black.
pub open spec fn stop_color(stop: ElementView) -> Seq<char> {
    match entry_lookup(stop.attrs, "stop-color"@) {
        Some(c) => c,
        None => match entry_lookup(stop.attrs, "style"@) {
            Some(st) => match style_stop_color(st) {
                Some(c) => c,
                None => "black"@,
            },
            None => "black"@,
        },
    }
}

/// The gradients with an id and a single stop in an element and its
/// descendants, each with the color of its stop, in document order.  A
/// gradient without stops that refers to another is not looked into.
pub open spec fn found_gradients(e: ElementView) -> Seq<(Seq<char>, Seq<char>)>
    decreases e,
{
    if is_gradient(e.name) && entry_lookup(e.attrs, "id"@) is Some {
        let stops = stop_elems(e.children);
        if stops.len() == 0 && gradient_href(e.attrs) is Some {
            Seq::empty()
        } else if stops.len() == 1 {
            seq![(entry_lookup(e.attrs, "id"@)->0, stop_color(stops[0]))] + found_in_children(e.children)
        } else {
            found_in_children(e.children)
        }
    } else {
        found_in_children(e.children)
    }
}

pub open spec fn found_in_children(s: Seq<NodeView>) -> Seq<(Seq<char>, Seq<char>)>
    decreases s,
{
    if s.len() == 0 {
        Seq::empty()
    } else {
        found_in_children(s.drop_last()) + match s.last() {
            NodeView::Element(c) => found_gradients(c),
            _ => Seq::empty(),
        }
    }
}

/// The table of gradients: each id once, in the order of its first
/// occurrence, with the color found last for it.
pub open spec fn table_of(list: Seq<(Seq<char>, Seq<char>)>) -> Seq<(Seq<char>, Seq<char>)>
    decreases list.len(),
{
    if list.len() == 0 {
        Seq::empty()
    } else {
        entry_insert(table_of(list.drop_last()), list.last().0, list.last().1)
    }
}

/// The properties whose value may be a gradient.
pub open spec fn colors_props() -> Seq<Seq<char>> {
    seq!["color"@, "fill"@, "flood-color"@, "lighting-color"@, "stop-color"@, "stroke"@]
}

/// The id in a value of the form `url(#id)`.
pub open spec fn gradient_ref(v: Seq<char>) -> Option<Seq<char>> {
    if has_prefix(v, "url(#"@) && has_suffix(v, ")"@) {
        Some(v.subrange(5, v.len() - 1))
    } else {
        None
    }
}

/// `url(#id)`.
pub open spec fn url_of(id: Seq<char>) -> Seq<char> {
    seq!['u', 'r', 'l', '(', '#'] + id + seq![')']
}

/// A style with every `url(#id)` of the gradients replaced by their color,
/// the gradients taken in the order `t`.
pub open spec fn style_recolored(st: Seq<char>, t: Seq<(Seq<char>, Seq<char>)>) -> Seq<char>
    decreases t.len(),
{
    if t.len() == 0 {
        st
    } else {
        replace_all(style_recolored(st, t.drop_last()), url_of(t.last().0), t.last().1)
    }
}

/// An attribute with references to the gradients replaced by their color.
pub open spec fn recolored_attr(p: (Seq<char>, Seq<char>), table: Seq<(Seq<char>, Seq<char>)>,
    ordered: Seq<(Seq<char>, Seq<char>)>) -> (Seq<char>, Seq<char>)
{
    if colors_props().contains(p.0) {
        match gradient_ref(p.1) {
            Some(id) => match entry_lookup(table, id) {
                Some(c) => (p.0, c),
                None => p,
            },
            None => p,
        }
    } else if p.0 == "style"@ {
        (p.0, style_recolored(p.1, ordered))
    } else {
        p
    }
}

pub open spec fn recolored_attrs(a: Seq<(Seq<char>, Seq<char>)>, table: Seq<(Seq<char>, Seq<char>)>,
    ordered: Seq<(Seq<char>, Seq<char>)>) -> Seq<(Seq<char>, Seq<char>)>
{
    a.map_values(|p: (Seq<char>, Seq<char>)| recolored_attr(p, table, ordered))
}

/// An element and its descendants with references to the gradients
/// replaced by their color.
pub open spec fn recolored_elem(e: ElementView, table: Seq<(Seq<char>, Seq<char>)>,
    ordered: Seq<(Seq<char>, Seq<char>)>) -> ElementView
    decreases e,
{
    ElementView {
        name: e.name,
        attrs: recolored_attrs(e.attrs, table, ordered),
        children: recolored_children(e.children, table, ordered),
        ns: e.ns,
    }
}

pub open spec fn recolored_children(s: Seq<NodeView>, table: Seq<(Seq<char>, Seq<char>)>,
    ordered: Seq<(Seq<char>, Seq<char>)>) -> Seq<NodeView>
    decreases s,
{
    if s.len() == 0 {
        Seq::empty()
    } else {
        recolored_children(s.drop_last(), table, ordered).push(match s.last() {
            NodeView::Element(c) => NodeView::Element(recolored_elem(c, table, ordered)),
            other => other,
        })
    }
}

/// Whether a node is a gradient whose id is in the table.
pub open spec fn is_listed_gradient(n: NodeView, table: Seq<(Seq<char>, Seq<char>)>) -> bool {
    match n {
        NodeView::Element(c) => is_gradient(c.name) && match entry_lookup(c.attrs, "id"@) {
            Some(id) => entry_index(table, id) >= 0,
            None => false,
        },
        _ => false,
    }
}

/// An element and its descendants without the gradients of the table.
pub open spec fn degradient_elem(e: ElementView, table: Seq<(Seq<char>, Seq<char>)>) -> ElementView
    decreases e,
{
    ElementView { name: e.name, attrs: e.attrs, children: degradient_children(e.children, table), ns: e.ns }
}

pub open spec fn degradient_children(s: Seq<NodeView>, table: Seq<(Seq<char>, Seq<char>)>) -> Seq<NodeView>
    decreases s,
{
    if s.len() == 0 {
        Seq::empty()
    } else {
        let pre = degradient_children(s.drop_last(), table);
        if is_listed_gradient(s.last(), table) {
            pre
        } else {
            pre.push(match s.last() {
                NodeView::Element(c) => NodeView::Element(degradient_elem(c, table)),
                other => other,
            })
        }
    }
}

/// Whether a node is a `<defs>` without children.
pub open spec fn is_empty_defs(n: NodeView) -> bool {
    match n {
        NodeView::Element(c) => c.name == "defs"@ && c.children.len() == 0,
        _ => false,
    }
}

/// An element and its descendants without the `<defs>` children that are
/// empty when their parent is looked at.
pub open spec fn undefs_elem(e: ElementView) -> ElementView
    decreases e,
{
    ElementView { name: e.name, attrs: e.attrs, children: undefs_children(e.children), ns: e.ns }
}

pub open spec fn undefs_children(s: Seq<NodeView>) -> Seq<NodeView>
    decreases s,
{
    if s.len() == 0 {
        Seq::empty()
    } else {
        let pre = undefs_children(s.drop_last());
        if is_empty_defs(s.last()) {
            pre
        } else {
            pre.push(match s.last() {
                NodeView::Element(c) => NodeView::Element(undefs_elem(c)),
                other => other,
            })
        }
    }
}

/// Whether an element or one of its descendants has `xlink:href`.
pub open spec fn has_xlink_href(e: ElementView) -> bool
    decreases e,
{
    entry_index(e.attrs, "xlink:href"@) >= 0 || xlink_in_children(e.children)
}

pub open spec fn xlink_in_children(s: Seq<NodeView>) -> bool
    decreases s,
{
    if s.len() == 0 {
        false
    } else {
        xlink_in_children(s.drop_last()) || match s.last() {
            NodeView::Element(c) => has_xlink_href(c),
            _ => false,
        }
    }
}

/// The root after the plugin, with the gradients' style replacements taken
/// in the order `o`: nothing changes when no gradient has a single stop;
/// otherwise references become colors, the gradients go, then the empty
/// `<defs>`, and `xmlns:xlink` goes when no `xlink:href` is left.
pub open spec fn one_stop_result(root: ElementView, o: Seq<usize>) -> ElementView {
    let table = table_of(found_gradients(root));
    if table.len() == 0 {
        root
    } else {
        let r3 = undefs_elem(degradient_elem(recolored_elem(root, table, reordered(table, o)), table));
        if has_xlink_href(r3) {
            r3
        } else {
            ElementView {
                name: r3.name,
                attrs: entry_remove(r3.attrs, "xmlns:xlink"@),
                children: r3.children,
                ns: r3.ns.remove("xlink"@),
            }
        }
    }
}

/// Where the name `k` stands in a table, as `entry_index` says.
fn table_index(t: &Vec<(String, String)>, k: &str) -> (r: Option<usize>)
    ensures
        match r {
            Some(i) => i as int == entry_index(pair_views(t@), k@) && i < t@.len(),
            None => entry_index(pair_views(t@), k@) < 0,
        },
{
    let ghost tv = pair_views(t@);
    proof { lemma_entry_index(tv, k@); }
    let mut i: usize = 0;
    while i < t.len()
        invariant
            i <= t@.len(), tv == pair_views(t@),
            forall|j: int| 0 <= j < i ==> tv[j].0 != k@,
        decreases t.len() - i,
    {
        if str_eq(t[i].0.as_str(), k) {
            proof {
                lemma_entry_index(tv, k@);
                let x = entry_index(tv, k@);
                if x < 0 { assert(tv[i as int].0 != k@); }
                else if x < i { assert(tv[x].0 != k@); }
                else if x > i { assert(tv[i as int].0 != k@); }
            }
            return Some(i);
        }
        i = i + 1;
    }
    proof {
        lemma_entry_index(tv, k@);
        let x = entry_index(tv, k@);
        if x >= 0 { assert(tv[x].0 == k@); }
    }
    None
}

/// The value stored under `k` in a table.
fn table_value(t: &Vec<(String, String)>, k: &str) -> (r: Option<String>)
    ensures
        match r {
            Some(v) => entry_lookup(pair_views(t@), k@) == Some(v@),
            None => entry_lookup(pair_views(t@), k@) is None,
        },
{
    match table_index(t, k) {
        Some(i) => Some(t[i].1.clone()),
        None => None,
    }
}

/// Stores `v` under `k`: an existing entry takes the new value in its
/// place, a new one goes last.
fn table_insert(t: &mut Vec<(String, String)>, k: String, v: String)
    ensures
        pair_views(final(t)@) == entry_insert(pair_views(old(t)@), k@, v@),
{
    match table_index(t, k.as_str()) {
        Some(i) => {
            let ghost before = t@;
            t.set(i, (k, v));
            assert(pair_views(t@) =~= pair_views(before).update(i as int, (k@, v@)));
        },
        None => {
            let ghost before = t@;
            t.push((k, v));
            assert(pair_views(t@) =~= pair_views(before).push((k@, v@)));
        },
    }
}

/// The table of the found gradients, as `table_of` says.
pub fn gradient_table(list: &Vec<(String, String)>) -> (r: Vec<(String, String)>)
    ensures
        pair_views(r@) == table_of(pair_views(list@)),
{
    let ghost lv = pair_views(list@);
    let mut t: Vec<(String, String)> = Vec::new();
    let mut i: usize = 0;
    assert(lv.take(0) =~= Seq::<(Seq<char>, Seq<char>)>::empty());
    assert(pair_views(t@) =~= Seq::<(Seq<char>, Seq<char>)>::empty());
    while i < list.len()
        invariant
            i <= list@.len(), lv == pair_views(list@),
            pair_views(t@) == table_of(lv.take(i as int)),
        decreases list.len() - i,
    {
        assert(lv.take(i + 1).drop_last() =~= lv.take(i as int));
        assert(lv.take(i + 1).last() == (list@[i as int].0@, list@[i as int].1@));
        table_insert(&mut t, list[i].0.clone(), list[i].1.clone());
        i = i + 1;
    }
    assert(lv.take(lv.len() as int) =~= lv);
    t
}

/// The keys of a table with distinct names.
proof fn lemma_table_distinct(list: Seq<(Seq<char>, Seq<char>)>)
    ensures
        keys_distinct(table_of(list)),
    decreases list.len(),
{
    if list.len() > 0 {
        lemma_table_distinct(list.drop_last());
        let t = table_of(list.drop_last());
        let k = list.last().0;
        lemma_entry_index(t, k);
        let t2 = table_of(list);
        if entry_index(t, k) < 0 {
            assert forall|i: int, j: int| 0 <= i < j < t2.len() implies (#[trigger] t2[i]).0 != (#[trigger] t2[j]).0 by {
                if j == t.len() { assert(t[i].0 != k); } else { assert(t[i].0 != t[j].0); }
            }
        } else {
            let x = entry_index(t, k);
            assert forall|i: int, j: int| 0 <= i < j < t2.len() implies (#[trigger] t2[i]).0 != (#[trigger] t2[j]).0 by {
                assert(t2[i].0 == t[i].0 && t2[j].0 == t[j].0);
                assert(t[i].0 != t[j].0);
            }
        }
    }
}

/// The `<stop>` children of an element, in order.
fn stop_children(children: &Vec<Node>) -> (r: Vec<&Element>)
    ensures
        r@.len() == stop_elems(nodes_view(children@)).len(),
        forall|i: int| 0 <= i < r@.len() ==> elem_view(*(#[trigger] r@[i])) == stop_elems(nodes_view(children@))[i],
{
    let ghost cv = nodes_view(children@);
    proof { lemma_nodes_view(children@); }
    let mut out: Vec<&Element> = Vec::new();
    let mut i: usize = 0;
    assert(cv.take(0) =~= Seq::<NodeView>::empty());
    while i < children.len()
        invariant
            i <= children@.len(), cv == nodes_view(children@), cv.len() == children@.len(),
            forall|k: int| 0 <= k < children@.len() ==> #[trigger] cv[k] == node_view(children@[k]),
            out@.len() == stop_elems(cv.take(i as int)).len(),
            forall|k: int| 0 <= k < out@.len() ==> elem_view(*(#[trigger] out@[k])) == stop_elems(cv.take(i as int))[k],
        decreases children.len() - i,
    {
        assert(cv.take(i + 1).drop_last() =~= cv.take(i as int));
        if let Node::Element(c) = &children[i] {
            if str_eq(c.name.as_str(), "stop") {
                out.push(c);
            }
        }
        i = i + 1;
    }
    assert(cv.take(cv.len() as int) =~= cv);
    out
}

/// The stop color that a `style` value sets.
pub fn style_stop_color_of(st: &str) -> (r: Option<String>)
    ensures
        match r {
            Some(c) => style_stop_color(st@) == Some(c@),
            None => style_stop_color(st@) is None,
        },
{
    let cs = to_chars(st);
    let key = to_chars("stop-color:");
    proof { reveal_strlit("stop-color:"); }
    assert(key@ =~= "stop-color:"@);
    match find_seq(cs.as_slice(), key.as_slice()) {
        None => None,
        Some(i) => {
            proof { crate::strings::lemma_seq_index(cs@, key@); }
            assert(key@.len() == 11);
            assert(i + 11 <= cs@.len());
            let total = cs.len();
            assert(i + 11 <= total);
            let mut after: Vec<char> = Vec::new();
            let mut k: usize = i + 11;
            while k < cs.len()
                invariant
                    i + 11 <= cs@.len(), i + 11 <= k <= cs@.len(),
                    after@ == cs@.subrange(i + 11, k as int),
                decreases cs.len() - k,
            {
                after.push(cs[k]);
                k = k + 1;
                assert(after@ =~= cs@.subrange(i + 11, k as int));
            }
            assert(after@ =~= cs@.skip(i + 11));
            let w = leading_ws_len(after.as_slice());
            let mut rest: Vec<char> = Vec::new();
            let mut j: usize = w;
            while j < after.len()
                invariant
                    w <= j <= after@.len(),
                    rest@ == after@.subrange(w as int, j as int),
                decreases after.len() - j,
            {
                rest.push(after[j]);
                j = j + 1;
                assert(rest@ =~= after@.subrange(w as int, j as int));
            }
            let taken: Vec<char> = match find_char(rest.as_slice(), ';') {
                Some(e) => {
                    let mut v: Vec<char> = Vec::new();
                    let mut x: usize = 0;
                    while x < e
                        invariant
                            x <= e, e < rest@.len(), v@ == rest@.take(x as int),
                        decreases e - x,
                    {
                        v.push(rest[x]);
                        x = x + 1;
                        assert(v@ =~= rest@.take(x as int));
                    }
                    v
                },
                None => rest,
            };
            let t = crate::strings::trim_chars(taken.as_slice());
            Some(crate::strings::from_chars(t.as_slice()))
        },
    }
}

/// The color of a stop.
pub fn stop_color_of(stop: &Element) -> (r: String)
    ensures
        r@ == stop_color(elem_view(*stop)),
{
    match stop.attr("stop-color") {
        Some(c) => c.clone(),
        None => match stop.attr("style") {
            Some(st) => match style_stop_color_of(st.as_str()) {
                Some(c) => c,
                None => owned("black"),
            },
            None => owned("black"),
        },
    }
}

impl ConvertOneStopGradientsPlugin {
    /// A new plugin.
    pub fn new() -> (r: ConvertOneStopGradientsPlugin) {
        ConvertOneStopGradientsPlugin
    }

    /// Adds the gradients of an element and its descendants that have an
    /// id and a single stop, with the color of the stop, as
    /// `found_gradients` says.
    pub fn process_element(&self, element: &Element, found: &mut Vec<(String, String)>)
        ensures
            pair_views(final(found)@) == pair_views(old(found)@) + found_gradients(elem_view(*element)),
        decreases *element,
    {
        let ghost ev = elem_view(*element);
        let ghost f0 = pair_views(found@);
        let is_grad = str_eq(element.name.as_str(), "linearGradient") || str_eq(element.name.as_str(), "radialGradient");
        if is_grad {
            if let Some(id) = element.attr("id") {
                let stops = stop_children(&element.children);
                let href = match element.attr("xlink:href") {
                    Some(h) => true,
                    None => element.attr("href").is_some(),
                };
                if stops.len() == 0 && href {
                    assert(pair_views(found@) =~= f0 + Seq::<(Seq<char>, Seq<char>)>::empty());
                    return;
                }
                if stops.len() == 1 {
                    let color = stop_color_of(stops[0]);
                    let ghost before = found@;
                    found.push((id.clone(), color));
                    assert(pair_views(found@) =~= f0 + seq![(id@, stop_color(stop_elems(ev.children)[0]))]);
                }
            }
        }
        let ghost f1 = pair_views(found@);
        proof { lemma_nodes_view(element.children@); }
        let mut j: usize = 0;
        assert(ev.children.take(0) =~= Seq::<NodeView>::empty());
        assert(f1 + Seq::<(Seq<char>, Seq<char>)>::empty() =~= f1);
        while j < element.children.len()
            invariant
                j <= element.children@.len(), ev == elem_view(*element),
                ev.children.len() == element.children@.len(),
                forall|k: int| 0 <= k < element.children@.len() ==> #[trigger] ev.children[k] == node_view(element.children@[k]),
                pair_views(found@) == f1 + found_in_children(ev.children.take(j as int)),
            decreases element.children.len() - j,
        {
            assert(ev.children.take(j + 1).drop_last() =~= ev.children.take(j as int));
            let ghost done = found_in_children(ev.children.take(j as int));
            if let Node::Element(c) = &element.children[j] {
                assert(decreases_to!(*element => element.children@[j as int]));
                self.process_element(c, found);
                assert(pair_views(found@) =~= f1 + (done + found_gradients(elem_view(*c))));
            } else {
                assert(done + Seq::<(Seq<char>, Seq<char>)>::empty() =~= done);
            }
            j = j + 1;
        }
        assert(ev.children.take(ev.children.len() as int) =~= ev.children);
    }

    /// The id in a value of the form `url(#id)`.
    pub fn extract_gradient_id(&self, value: &str) -> (r: Option<String>)
        ensures
            match r {
                Some(id) => gradient_ref(value@) == Some(id@),
                None => gradient_ref(value@) is None,
            },
    {
        if str_starts_with(value, "url(#") && str_ends_with(value, ")") {
            let cs = to_chars(value);
            proof {
                reveal_strlit("url(#");
                reveal_strlit(")");
                let n = cs@.len();
                assert(cs@.subrange(n - 1, n as int) == ")"@);
                assert(cs@.subrange(n - 1, n as int)[0] == cs@[n - 1]);
                assert(cs@[n - 1] == ')');
                assert(cs@.subrange(0, 5) == "url(#"@);
                if n < 6 {
                    assert(cs@.subrange(0, 5)[n - 1] == cs@[n - 1]);
                }
            }
            let mut out: Vec<char> = Vec::new();
            let mut i: usize = 5;
            while i < cs.len() - 1
                invariant
                    6 <= cs@.len(), 5 <= i <= cs@.len() - 1,
                    out@ == cs@.subrange(5, i as int),
                decreases cs.len() - 1 - i,
            {
                out.push(cs[i]);
                i = i + 1;
                assert(out@ =~= cs@.subrange(5, i as int));
            }
            Some(crate::strings::from_chars(out.as_slice()))
        } else {
            None
        }
    }
}

fn is_colors_prop(name: &str) -> (r: bool)
    ensures
        r == colors_props().contains(name@),
{
    let mut props: Vec<String> = Vec::new();
    props.push(owned("color"));
    props.push(owned("fill"));
    props.push(owned("flood-color"));
    props.push(owned("lighting-color"));
    props.push(owned("stop-color"));
    props.push(owned("stroke"));
    assert(props@.map_values(|x: String| x@) =~= colors_props());
    contains_string(&props, name)
}

fn url_text(id: &str) -> (r: String)
    ensures
        r@ == url_of(id@),
{
    let mut cs: Vec<char> = Vec::new();
    cs.push('u');
    cs.push('r');
    cs.push('l');
    cs.push('(');
    cs.push('#');
    let xs = to_chars(id);
    let mut i: usize = 0;
    while i < xs.len()
        invariant
            i <= xs@.len(), cs@ == seq!['u', 'r', 'l', '(', '#'] + xs@.take(i as int),
        decreases xs.len() - i,
    {
        cs.push(xs[i]);
        i = i + 1;
        assert(cs@ =~= seq!['u', 'r', 'l', '(', '#'] + xs@.take(i as int));
    }
    cs.push(')');
    assert(xs@.take(xs@.len() as int) =~= xs@);
    assert(cs@ =~= url_of(id@));
    crate::strings::from_chars(cs.as_slice())
}

impl ConvertOneStopGradientsPlugin {
    /// An attribute value with references to the gradients replaced by
    /// their color, as `recolored_attr` says.
    fn recolor_value(&self, name: &str, value: &str, table: &Vec<(String, String)>,
        ordered: &Vec<(String, String)>) -> (r: String)
        ensures
            (name@, r@) == recolored_attr((name@, value@), pair_views(table@), pair_views(ordered@)),
    {
        if is_colors_prop(name) {
            match self.extract_gradient_id(value) {
                Some(id) => match table_value(table, id.as_str()) {
                    Some(c) => c,
                    None => owned(value),
                },
                None => owned(value),
            }
        } else if str_eq(name, "style") {
            let ghost ov = pair_views(ordered@);
            let mut st = owned(value);
            let mut i: usize = 0;
            assert(ov.take(0) =~= Seq::<(Seq<char>, Seq<char>)>::empty());
            while i < ordered.len()
                invariant
                    i <= ordered@.len(), ov == pair_views(ordered@),
                    st@ == style_recolored(value@, ov.take(i as int)),
                decreases ordered.len() - i,
            {
                assert(ov.take(i + 1).drop_last() =~= ov.take(i as int));
                let pattern = url_text(ordered[i].0.as_str());
                st = replace_str(st.as_str(), pattern.as_str(), ordered[i].1.as_str());
                i = i + 1;
            }
            assert(ov.take(ov.len() as int) =~= ov);
            st
        } else {
            owned(value)
        }
    }

    /// Replaces references to the gradients by their color in an element
    /// and its descendants, as `recolored_elem` says.
    pub fn replace_gradient_references(&self, element: &mut Element, table: &Vec<(String, String)>,
        ordered: &Vec<(String, String)>)
        ensures
            elem_view(*final(element)) == recolored_elem(elem_view(*old(element)), pair_views(table@), pair_views(ordered@)),
        decreases *old(element),
    {
        let ghost tv = pair_views(table@);
        let ghost ov = pair_views(ordered@);
        let ghost ev = elem_view(*element);
        let ghost a = attr_entries(element.attributes);
        let pairs = attr_pairs(&element.attributes);
        let mut out: Vec<(String, String)> = Vec::new();
        let mut i: usize = 0;
        while i < pairs.len()
            invariant
                i <= pairs@.len(), pairs@.len() == a.len(), tv == pair_views(table@), ov == pair_views(ordered@),
                forall|k: int| 0 <= k < pairs@.len() ==> (#[trigger] pairs@[k]).0@ == a[k].0 && pairs@[k].1@ == a[k].1,
                pair_views(out@) == recolored_attrs(a.take(i as int), tv, ov),
            decreases pairs.len() - i,
        {
            let v = self.recolor_value(pairs[i].0.as_str(), pairs[i].1.as_str(), table, ordered);
            let ghost before = out@;
            out.push((pairs[i].0.clone(), v));
            proof {
                let item = recolored_attr(a[i as int], tv, ov);
                assert(pairs@[i as int].0@ == a[i as int].0 && pairs@[i as int].1@ == a[i as int].1);
                assert(pair_views(out@) =~= pair_views(before).push(item));
                assert(recolored_attrs(a.take(i + 1), tv, ov) =~= recolored_attrs(a.take(i as int), tv, ov).push(item));
            }
            i = i + 1;
        }
        assert(a.take(a.len() as int) =~= a);
        assert(keys_distinct(pair_views(out@))) by {
            assert forall|x: int, y: int| 0 <= x < y < pair_views(out@).len() implies
                (#[trigger] pair_views(out@)[x]).0 != (#[trigger] pair_views(out@)[y]).0 by {
                assert(a[x].0 != a[y].0);
            }
        }
        element.set_attributes(out);
        let mut kids: Vec<Node> = Vec::new();
        std::mem::swap(&mut kids, &mut element.children);
        let ghost orig = kids@;
        proof { lemma_nodes_view(orig); }
        let n = kids.len();
        let mut res: Vec<Node> = Vec::new();
        let mut j: usize = 0;
        assert(nodes_view(res@) =~= Seq::<NodeView>::empty());
        while j < n
            invariant
                n == orig.len(), j <= n,
                kids@ == orig.subrange(j as int, n as int),
                nodes_view(orig) == ev.children, nodes_view(orig).len() == n,
                forall|k: int| 0 <= k < n ==> #[trigger] nodes_view(orig)[k] == node_view(orig[k]),
                nodes_view(res@) == recolored_children(nodes_view(orig).take(j as int), tv, ov),
                tv == pair_views(table@), ov == pair_views(ordered@),
                forall|k: int| 0 <= k < n ==> decreases_to!(*old(element) => #[trigger] orig[k]),
            decreases n - j,
        {
            let child = kids.remove(0);
            assert(child == orig[j as int]);
            assert(nodes_view(orig).take(j + 1).drop_last() =~= nodes_view(orig).take(j as int));
            match child {
                Node::Element(mut ce) => {
                    self.replace_gradient_references(&mut ce, table, ordered);
                    proof { lemma_nodes_view_push(res@, Node::Element(ce)); }
                    res.push(Node::Element(ce));
                },
                other => {
                    proof { lemma_nodes_view_push(res@, other); }
                    res.push(other);
                },
            }
            j = j + 1;
        }
        assert(nodes_view(orig).take(n as int) =~= nodes_view(orig));
        element.children = res;
    }

    /// Removes the gradients of the table from an element and its
    /// descendants, as `degradient_elem` says.
    pub fn remove_gradients(&self, element: &mut Element, table: &Vec<(String, String)>)
        ensures
            elem_view(*final(element)) == degradient_elem(elem_view(*old(element)), pair_views(table@)),
        decreases *old(element),
    {
        let ghost tv = pair_views(table@);
        let ghost ev = elem_view(*element);
        let mut kids: Vec<Node> = Vec::new();
        std::mem::swap(&mut kids, &mut element.children);
        let ghost orig = kids@;
        proof { lemma_nodes_view(orig); }
        let n = kids.len();
        let mut res: Vec<Node> = Vec::new();
        let mut j: usize = 0;
        assert(nodes_view(res@) =~= Seq::<NodeView>::empty());
        while j < n
            invariant
                n == orig.len(), j <= n,
                kids@ == orig.subrange(j as int, n as int),
                nodes_view(orig) == ev.children, nodes_view(orig).len() == n,
                forall|k: int| 0 <= k < n ==> #[trigger] nodes_view(orig)[k] == node_view(orig[k]),
                nodes_view(res@) == degradient_children(nodes_view(orig).take(j as int), tv),
                tv == pair_views(table@),
                forall|k: int| 0 <= k < n ==> decreases_to!(*old(element) => #[trigger] orig[k]),
            decreases n - j,
        {
            let child = kids.remove(0);
            assert(child == orig[j as int]);
            assert(nodes_view(orig).take(j + 1).drop_last() =~= nodes_view(orig).take(j as int));
            match child {
                Node::Element(mut ce) => {
                    let listed = (str_eq(ce.name.as_str(), "linearGradient") || str_eq(ce.name.as_str(), "radialGradient"))
                        && match ce.attr("id") {
                            Some(id) => table_index(table, id.as_str()).is_some(),
                            None => false,
                        };
                    if !listed {
                        self.remove_gradients(&mut ce, table);
                        proof { lemma_nodes_view_push(res@, Node::Element(ce)); }
                        res.push(Node::Element(ce));
                    }
                },
                other => {
                    proof { lemma_nodes_view_push(res@, other); }
                    res.push(other);
                },
            }
            j = j + 1;
        }
        assert(nodes_view(orig).take(n as int) =~= nodes_view(orig));
        element.children = res;
    }

    /// Removes the `<defs>` children that are empty, then does the same in
    /// the children that stay, as `undefs_elem` says.
    pub fn remove_empty_defs(&self, element: &mut Element)
        ensures
            elem_view(*final(element)) == undefs_elem(elem_view(*old(element))),
        decreases *old(element),
    {
        let ghost ev = elem_view(*element);
        let mut kids: Vec<Node> = Vec::new();
        std::mem::swap(&mut kids, &mut element.children);
        let ghost orig = kids@;
        proof { lemma_nodes_view(orig); }
        let n = kids.len();
        let mut res: Vec<Node> = Vec::new();
        let mut j: usize = 0;
        assert(nodes_view(res@) =~= Seq::<NodeView>::empty());
        while j < n
            invariant
                n == orig.len(), j <= n,
                kids@ == orig.subrange(j as int, n as int),
                nodes_view(orig) == ev.children, nodes_view(orig).len() == n,
                forall|k: int| 0 <= k < n ==> #[trigger] nodes_view(orig)[k] == node_view(orig[k]),
                nodes_view(res@) == undefs_children(nodes_view(orig).take(j as int)),
                forall|k: int| 0 <= k < n ==> decreases_to!(*old(element) => #[trigger] orig[k]),
            decreases n - j,
        {
            let child = kids.remove(0);
            assert(child == orig[j as int]);
            assert(nodes_view(orig).take(j + 1).drop_last() =~= nodes_view(orig).take(j as int));
            match child {
                Node::Element(mut ce) => {
                    if !(str_eq(ce.name.as_str(), "defs") && ce.children.len() == 0) {
                        proof { lemma_nodes_view(ce.children@); }
                        self.remove_empty_defs(&mut ce);
                        proof { lemma_nodes_view_push(res@, Node::Element(ce)); }
                        res.push(Node::Element(ce));
                    } else {
                        proof { lemma_nodes_view(ce.children@); }
                    }
                },
                other => {
                    proof { lemma_nodes_view_push(res@, other); }
                    res.push(other);
                },
            }
            j = j + 1;
        }
        assert(nodes_view(orig).take(n as int) =~= nodes_view(orig));
        element.children = res;
    }

    /// Whether an element or one of its descendants has `xlink:href`.
    pub fn has_xlink(element: &Element) -> (r: bool)
        ensures
            r == has_xlink_href(elem_view(*element)),
        decreases *element,
    {
        let ghost ev = elem_view(*element);
        if element.has_attr("xlink:href") {
            return true;
        }
        proof { lemma_nodes_view(element.children@); }
        let mut j: usize = 0;
        assert(ev.children.take(0) =~= Seq::<NodeView>::empty());
        while j < element.children.len()
            invariant
                j <= element.children@.len(), ev == elem_view(*element),
                ev.children.len() == element.children@.len(),
                forall|k: int| 0 <= k < element.children@.len() ==> #[trigger] ev.children[k] == node_view(element.children@[k]),
                !xlink_in_children(ev.children.take(j as int)),
            decreases element.children.len() - j,
        {
            assert(ev.children.take(j + 1).drop_last() =~= ev.children.take(j as int));
            if let Node::Element(c) = &element.children[j] {
                assert(decreases_to!(*element => element.children@[j as int]));
                if Self::has_xlink(c) {
                    proof { lemma_xlink_prefix(ev.children, j as int + 1); }
                    return true;
                }
            }
            j = j + 1;
        }
        assert(ev.children.take(ev.children.len() as int) =~= ev.children);
        false
    }

    /// Removes the `xmlns:xlink` declaration of the root when no element
    /// uses `xlink:href` any more.
    pub fn remove_unused_xlink_namespace(&self, document: &mut Document)
        ensures
            elem_view(final(document).root) == (if has_xlink_href(elem_view(old(document).root)) {
                elem_view(old(document).root)
            } else {
                ElementView {
                    name: elem_view(old(document).root).name,
                    attrs: entry_remove(elem_view(old(document).root).attrs, "xmlns:xlink"@),
                    children: elem_view(old(document).root).children,
                    ns: elem_view(old(document).root).ns.remove("xlink"@),
                }
            }),
            final(document).prologue == old(document).prologue,
            final(document).epilogue == old(document).epilogue,
            final(document).metadata == old(document).metadata,
    {
        if !Self::has_xlink(&document.root) {
            ns_remove(&mut document.root.namespaces, "xlink");
            document.root.remove_attr("xmlns:xlink");
        }
    }
}

proof fn lemma_xlink_prefix(s: Seq<NodeView>, k: int)
    requires
        0 <= k <= s.len(),
        xlink_in_children(s.take(k)),
    ensures
        xlink_in_children(s),
    decreases s.len() - k,
{
    if k < s.len() {
        assert(s.take(k + 1).drop_last() =~= s.take(k));
        lemma_xlink_prefix(s, k + 1);
    } else {
        assert(s.take(k) =~= s);
    }
}

impl Plugin for ConvertOneStopGradientsPlugin {
    fn name(&self) -> (r: &'static str)
        ensures
            r@ == "convertOneStopGradients"@,
    {
        "convertOneStopGradients"
    }

    fn description(&self) -> (r: &'static str)
        ensures
            r@ == "converts one-stop (single color) gradients to a plain color"@,
    {
        "converts one-stop (single color) gradients to a plain color"
    }

    fn apply(&mut self, document: &mut Document, plugin_info: &PluginInfo, params: Option<&Value>) -> (r: PluginResult<()>)
        ensures
            r is Ok,
            exists|o: Seq<usize>| #[trigger] is_order(o, table_of(found_gradients(elem_view(old(document).root))).len())
                && elem_view(final(document).root) == one_stop_result(elem_view(old(document).root), o),
            final(document).prologue == old(document).prologue,
            final(document).epilogue == old(document).epilogue,
            final(document).metadata == old(document).metadata,
    {
        let ghost root0 = elem_view(document.root);
        let mut found: Vec<(String, String)> = Vec::new();
        assert(pair_views(found@) =~= Seq::<(Seq<char>, Seq<char>)>::empty());
        self.process_element(&document.root, &mut found);
        assert(pair_views(found@) =~= found_gradients(root0));
        let table = gradient_table(&found);
        let mut ids: Vec<String> = Vec::new();
        let mut i: usize = 0;
        while i < table.len()
            invariant
                i <= table@.len(),
                str_seq(ids@) == pair_views(table@).take(i as int).map_values(|p: (Seq<char>, Seq<char>)| p.0),
            decreases table.len() - i,
        {
            let ghost before = ids@;
            ids.push(table[i].0.clone());
            proof {
                let tv = pair_views(table@);
                assert(tv[i as int].0 == table@[i as int].0@);
                assert(str_seq(ids@) =~= str_seq(before).push(tv[i as int].0));
                assert(tv.take(i + 1).map_values(|p: (Seq<char>, Seq<char>)| p.0)
                    =~= tv.take(i as int).map_values(|p: (Seq<char>, Seq<char>)| p.0).push(tv[i as int].0));
            }
            i = i + 1;
        }
        proof {
            lemma_table_distinct(found_gradients(root0));
            let tv = pair_views(table@);
            assert(tv.take(tv.len() as int) =~= tv);
            assert forall|x: int, y: int| 0 <= x < y < str_seq(ids@).len() implies str_seq(ids@)[x] != str_seq(ids@)[y] by {
                assert(tv[x].0 != tv[y].0);
            }
        }
        let order = hash_walk_order(&ids);
        let mut ordered: Vec<(String, String)> = Vec::new();
        let mut k: usize = 0;
        while k < order.len()
            invariant
                k <= order@.len(), is_order(order@, table@.len()), ids@.len() == table@.len(),
                pair_views(ordered@) == reordered(pair_views(table@), order@).take(k as int),
            decreases order.len() - k,
        {
            let ghost before = ordered@;
            let e = &table[order[k]];
            ordered.push((e.0.clone(), e.1.clone()));
            proof {
                let tv = pair_views(table@);
                let rv = reordered(tv, order@);
                let idx = order@[k as int] as int;
                assert(rv[k as int] == tv[idx]);
                assert(tv[idx] == (table@[idx].0@, table@[idx].1@));
                assert(pair_views(ordered@) =~= pair_views(before).push(rv[k as int]));
                assert(rv.take(k + 1) =~= rv.take(k as int).push(rv[k as int]));
            }
            k = k + 1;
        }
        assert(reordered(pair_views(table@), order@).take(order@.len() as int) =~= reordered(pair_views(table@), order@));
        assert(is_order(order@, table_of(found_gradients(root0)).len()));
        if table.len() > 0 {
            self.replace_gradient_references(&mut document.root, &table, &ordered);
            self.remove_gradients(&mut document.root, &table);
            self.remove_empty_defs(&mut document.root);
            self.remove_unused_xlink_namespace(document);
        }
        Ok(())
    }
}

} // verus!
