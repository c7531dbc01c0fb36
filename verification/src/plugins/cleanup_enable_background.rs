//! Removes the `enable-background` attribute where it has no effect: all of
//! them when the document has no filter, and otherwise those that repeat the
//! dimensions of their `<svg>`, `<mask>` or `<pattern>` element (on `<mask>`
//! and `<pattern>` the value shrinks to `new`).

use vstd::prelude::*;
use crate::ast::{Document, Element, ElementView, Node, NodeView, attr_entries, elem_view, entry_index,
    entry_lookup, entry_remove, entry_insert, lemma_nodes_view, lemma_nodes_view_push, node_view,
    nodes_view};
use crate::pattern::{regex_captures, regex_captures_result};
use crate::plugin::{Plugin, PluginInfo, PluginResult};
use crate::strings::{owned, str_eq};
use crate::value::Value;

verus! {

/// The plugin that cleans up `enable-background`.
pub struct CleanupEnableBackgroundPlugin;

/// The form `new 0 0 <width> <height>`.
pub open spec fn enable_background_pattern() -> Seq<char> {
    "^new\\s0\\s0\\s([-+]?\\d*\\.?\\d+(?:[eE][-+]?\\d+)?)\\s([-+]?\\d*\\.?\\d+(?:[eE][-+]?\\d+)?)$"@
}

/// Whether the element or one of its descendants is a `<filter>`.
pub open spec fn has_filter_spec(e: ElementView) -> bool
    decreases e,
{
    e.name == "filter"@ || has_filter_in(e.children)
}

pub open spec fn has_filter_in(s: Seq<NodeView>) -> bool
    decreases s,
{
    if s.len() == 0 {
        false
    } else {
        has_filter_in(s.drop_last()) || match s.last() {
            NodeView::Element(c) => has_filter_spec(c),
            _ => false,
        }
    }
}

/// The new value of `enable-background`, `None` removing it: a value that
/// repeats the element's width and height goes on `<svg>` and becomes `new`
/// elsewhere; any other value stays.
pub open spec fn cleaned_background(value: Seq<char>, name: Seq<char>, width: Seq<char>, height: Seq<char>) -> Option<Seq<char>> {
    match regex_captures_result(enable_background_pattern(), value) {
        Some(Some(g)) => if g.len() > 2 && g[1] == Some(width) && g[2] == Some(height) {
            if name == "svg"@ { None } else { Some("new"@) }
        } else {
            Some(value)
        },
        _ => Some(value),
    }
}

/// Whether the element may carry a meaningful `enable-background`.
pub open spec fn takes_background(name: Seq<char>) -> bool {
    name == "svg"@ || name == "mask"@ || name == "pattern"@
}

/// The attributes of one element after the plugin.
pub open spec fn eb_attrs(e: ElementView, has_filter: bool) -> Seq<(Seq<char>, Seq<char>)> {
    let a = e.attrs;
    if !has_filter {
        entry_remove(a, "enable-background"@)
    } else if takes_background(e.name) && entry_index(a, "width"@) >= 0 && entry_index(a, "height"@) >= 0 {
        match (entry_lookup(a, "enable-background"@), entry_lookup(a, "width"@), entry_lookup(a, "height"@)) {
            (Some(bg), Some(w), Some(h)) => match cleaned_background(bg, e.name, w, h) {
                Some(v) => entry_insert(a, "enable-background"@, v),
                None => entry_remove(a, "enable-background"@),
            },
            _ => a,
        }
    } else {
        a
    }
}

/// The element after the plugin, with every descendant processed too.
pub open spec fn eb_elem(e: ElementView, has_filter: bool) -> ElementView
    decreases e,
{
    ElementView { name: e.name, attrs: eb_attrs(e, has_filter), children: eb_children(e.children, has_filter), ns: e.ns }
}

pub open spec fn eb_children(s: Seq<NodeView>, has_filter: bool) -> Seq<NodeView>
    decreases s,
{
    if s.len() == 0 {
        Seq::empty()
    } else {
        let pre = eb_children(s.drop_last(), has_filter);
        match s.last() {
            NodeView::Element(c) => pre.push(NodeView::Element(eb_elem(c, has_filter))),
            other => pre.push(other),
        }
    }
}

/// Whether the element or one of its descendants is a `<filter>`.
pub fn has_filter_element(e: &Element) -> (r: bool)
    ensures
        r == has_filter_spec(elem_view(*e)),
    decreases *e,
{
    proof { lemma_nodes_view(e.children@); }
    if str_eq(e.name.as_str(), "filter") {
        return true;
    }
    let ghost cv = nodes_view(e.children@);
    let mut i: usize = 0;
    while i < e.children.len()
        invariant
            i <= e.children@.len(),
            cv == nodes_view(e.children@),
            cv.len() == e.children@.len(),
            forall|j: int| 0 <= j < e.children@.len() ==> #[trigger] cv[j] == node_view(e.children@[j]),
            !has_filter_in(cv.take(i as int)),
            forall|j: int| 0 <= j < e.children@.len() ==> decreases_to!(*e => #[trigger] e.children@[j]),
        decreases e.children.len() - i,
    {
        assert(cv.take(i + 1).drop_last() =~= cv.take(i as int));
        if let Node::Element(c) = &e.children[i] {
            if has_filter_element(c) {
                assert(has_filter_in(cv.take(i + 1)));
                proof { lemma_has_filter_prefix(cv, i + 1); }
                return true;
            }
        }
        i = i + 1;
    }
    assert(cv.take(e.children@.len() as int) =~= cv);
    false
}

proof fn lemma_has_filter_prefix(s: Seq<NodeView>, k: int)
    requires
        0 <= k <= s.len(),
        has_filter_in(s.take(k)),
    ensures
        has_filter_in(s),
    decreases s.len() - k,
{
    if k < s.len() {
        assert(s.take(k + 1).drop_last() =~= s.take(k));
        lemma_has_filter_prefix(s, k + 1);
    } else {
        assert(s.take(k) =~= s);
    }
}

/// The new value of `enable-background`; `None` removes it.
pub fn cleanup_value(value: &str, node_name: &str, width: &str, height: &str) -> (r: Option<String>)
    ensures
        match r {
            Some(v) => cleaned_background(value@, node_name@, width@, height@) == Some(v@),
            None => cleaned_background(value@, node_name@, width@, height@) is None,
        },
{
    let pattern = "^new\\s0\\s0\\s([-+]?\\d*\\.?\\d+(?:[eE][-+]?\\d+)?)\\s([-+]?\\d*\\.?\\d+(?:[eE][-+]?\\d+)?)$";
    match regex_captures(pattern, value) {
        Some(Some(g)) => {
            if g.len() > 2 {
                let matches = match (&g[1], &g[2]) {
                    (Some(w), Some(h)) => str_eq(w.as_str(), width) && str_eq(h.as_str(), height),
                    _ => false,
                };
                if matches {
                    if str_eq(node_name, "svg") {
                        return None;
                    } else {
                        return Some(owned("new"));
                    }
                }
            }
            Some(owned(value))
        },
        _ => Some(owned(value)),
    }
}

fn clean_background_attr(e: &mut Element, has_filter: bool)
    ensures
        attr_entries(final(e).attributes) == eb_attrs(elem_view(*old(e)), has_filter),
        final(e).name == old(e).name,
        final(e).children == old(e).children,
        final(e).namespaces == old(e).namespaces,
{
    if !has_filter {
        e.remove_attr("enable-background");
        return;
    }
    let valid = str_eq(e.name.as_str(), "svg") || str_eq(e.name.as_str(), "mask") || str_eq(e.name.as_str(), "pattern");
    if valid && e.has_attr("width") && e.has_attr("height") {
        let cleaned = match (e.attr("enable-background"), e.attr("width"), e.attr("height")) {
            (Some(bg), Some(w), Some(h)) => Some(cleanup_value(bg.as_str(), e.name.as_str(), w.as_str(), h.as_str())),
            _ => None,
        };
        match cleaned {
            Some(Some(v)) => e.set_attr(owned("enable-background"), v),
            Some(None) => { e.remove_attr("enable-background"); },
            None => {},
        }
    }
}

fn cleanup_enable_background(e: &mut Element, has_filter: bool)
    ensures
        elem_view(*final(e)) == eb_elem(elem_view(*old(e)), has_filter),
    decreases *old(e),
{
    clean_background_attr(e, has_filter);
    let mut old_children: Vec<Node> = Vec::new();
    std::mem::swap(&mut old_children, &mut e.children);
    let ghost orig = old_children@;
    let mut out: Vec<Node> = Vec::new();
    let n = old_children.len();
    let mut i: usize = 0;
    proof { lemma_nodes_view(orig); }
    while i < n
        invariant
            n == orig.len(), i <= n,
            orig == old(e).children@,
            old_children@ == orig.subrange(i as int, n as int),
            nodes_view(orig).len() == n,
            forall|j: int| 0 <= j < n ==> #[trigger] nodes_view(orig)[j] == node_view(orig[j]),
            nodes_view(out@) == eb_children(nodes_view(orig).take(i as int), has_filter),
            forall|j: int| 0 <= j < n ==> decreases_to!(*old(e) => #[trigger] orig[j]),
        decreases n - i,
    {
        let child = old_children.remove(0);
        assert(child == orig[i as int]);
        assert(nodes_view(orig).take(i + 1).drop_last() =~= nodes_view(orig).take(i as int));
        match child {
            Node::Element(mut ce) => {
                cleanup_enable_background(&mut ce, has_filter);
                proof { lemma_nodes_view_push(out@, Node::Element(ce)); }
                out.push(Node::Element(ce));
            },
            other => {
                proof { lemma_nodes_view_push(out@, other); }
                out.push(other);
            },
        }
        i = i + 1;
    }
    assert(nodes_view(orig).take(n as int) =~= nodes_view(orig));
    e.children = out;
}

impl Plugin for CleanupEnableBackgroundPlugin {
    fn name(&self) -> (r: &'static str)
        ensures
            r@ == "cleanupEnableBackground"@,
    {
        "cleanupEnableBackground"
    }

    fn description(&self) -> (r: &'static str)
        ensures
            r@ == "Remove or cleanup enable-background attribute when possible"@,
    {
        "Remove or cleanup enable-background attribute when possible"
    }

    fn apply(&mut self, document: &mut Document, plugin_info: &PluginInfo, params: Option<&Value>) -> (r: PluginResult<()>)
        ensures
            r is Ok,
            elem_view(final(document).root) == eb_elem(elem_view(old(document).root),
                has_filter_spec(elem_view(old(document).root))),
            final(document).prologue == old(document).prologue,
            final(document).epilogue == old(document).epilogue,
            final(document).metadata == old(document).metadata,
    {
        let has_filter = has_filter_element(&document.root);
        cleanup_enable_background(&mut document.root, has_filter);
        Ok(())
    }
}

} // verus!
