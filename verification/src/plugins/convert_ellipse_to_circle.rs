//! Converts `<ellipse>` elements whose radii agree into `<circle>` elements.

use vstd::prelude::*;
use crate::ast::{Document, Element, ElementView, Node, NodeView, elem_view, nodes_view, node_view,
    lemma_nodes_view, lemma_nodes_view_push, attr_entries, entry_lookup, entry_insert, entry_remove};
use crate::plugin::{Plugin, PluginInfo, PluginResult};
use crate::strings::{str_eq, owned};
use crate::value::Value;

verus! {

/// The plugin that converts ellipses to circles.
pub struct ConvertEllipseToCirclePlugin;

/// The radius attribute's value, `"0"` when it is missing.
pub open spec fn radius(attrs: Seq<(Seq<char>, Seq<char>)>, name: Seq<char>) -> Seq<char> {
    match entry_lookup(attrs, name) {
        Some(v) => v,
        None => "0"@,
    }
}

/// Whether the element is an ellipse that can be a circle.
pub open spec fn convertible(e: ElementView) -> bool {
    let rx = radius(e.attrs, "rx"@);
    let ry = radius(e.attrs, "ry"@);
    e.name == "ellipse"@ && (rx == ry || rx == "auto"@ || ry == "auto"@)
}

/// The attributes of the circle: `rx` and `ry` give way to `r`.
pub open spec fn circle_attrs(attrs: Seq<(Seq<char>, Seq<char>)>) -> Seq<(Seq<char>, Seq<char>)> {
    let rx = radius(attrs, "rx"@);
    let ry = radius(attrs, "ry"@);
    let r = if rx == "auto"@ { ry } else { rx };
    entry_insert(entry_remove(entry_remove(attrs, "rx"@), "ry"@), "r"@, r)
}

/// The element after the plugin: converted itself, then its descendants.
pub open spec fn ce_elem(e: ElementView) -> ElementView
    decreases e,
{
    ElementView {
        name: if convertible(e) { "circle"@ } else { e.name },
        attrs: if convertible(e) { circle_attrs(e.attrs) } else { e.attrs },
        children: ce_children(e.children),
        ns: e.ns,
    }
}

pub open spec fn ce_children(s: Seq<NodeView>) -> Seq<NodeView>
    decreases s,
{
    if s.len() == 0 {
        Seq::empty()
    } else {
        let pre = ce_children(s.drop_last());
        match s.last() {
            NodeView::Element(c) => pre.push(NodeView::Element(ce_elem(c))),
            other => pre.push(other),
        }
    }
}

fn convert_ellipse(e: &mut Element)
    ensures
        final(e).name@ == (if convertible(elem_view(*old(e))) { "circle"@ } else { old(e).name@ }),
        attr_entries(final(e).attributes) == (if convertible(elem_view(*old(e))) {
            circle_attrs(attr_entries(old(e).attributes))
        } else {
            attr_entries(old(e).attributes)
        }),
        final(e).children == old(e).children,
        final(e).namespaces == old(e).namespaces,
{
    if !str_eq(e.name.as_str(), "ellipse") {
        return;
    }
    let rx: String = match e.attr("rx") {
        Some(v) => v.clone(),
        None => owned("0"),
    };
    let ry: String = match e.attr("ry") {
        Some(v) => v.clone(),
        None => owned("0"),
    };
    if str_eq(rx.as_str(), ry.as_str()) || str_eq(rx.as_str(), "auto") || str_eq(ry.as_str(), "auto") {
        e.name = owned("circle");
        let radius = if str_eq(rx.as_str(), "auto") { ry } else { rx };
        e.remove_attr("rx");
        e.remove_attr("ry");
        e.set_attr(owned("r"), radius);
    }
}

fn process(e: &mut Element)
    ensures
        elem_view(*final(e)) == ce_elem(elem_view(*old(e))),
    decreases *old(e),
{
    convert_ellipse(e);
    let mut old_children: Vec<Node> = Vec::new();
    std::mem::swap(&mut old_children, &mut e.children);
    let ghost orig = old_children@;
    let mut out: Vec<Node> = Vec::new();
    let n = old_children.len();
    let mut i: usize = 0;
    proof { lemma_nodes_view(orig); }
    while i < n
        invariant
            n == orig.len(), i <= n,
            orig == old(e).children@,
            old_children@ == orig.subrange(i as int, n as int),
            nodes_view(orig).len() == n,
            forall|j: int| 0 <= j < n ==> #[trigger] nodes_view(orig)[j] == node_view(orig[j]),
            nodes_view(out@) == ce_children(nodes_view(orig).take(i as int)),
            forall|j: int| 0 <= j < n ==> decreases_to!(*old(e) => #[trigger] orig[j]),
        decreases n - i,
    {
        let child = old_children.remove(0);
        assert(child == orig[i as int]);
        assert(nodes_view(orig).take(i + 1).drop_last() =~= nodes_view(orig).take(i as int));
        match child {
            Node::Element(mut ce) => {
                process(&mut ce);
                proof { lemma_nodes_view_push(out@, Node::Element(ce)); }
                out.push(Node::Element(ce));
            },
            other => {
                proof { lemma_nodes_view_push(out@, other); }
                out.push(other);
            },
        }
        i = i + 1;
    }
    assert(nodes_view(orig).take(n as int) =~= nodes_view(orig));
    e.children = out;
}

impl Plugin for ConvertEllipseToCirclePlugin {
    fn name(&self) -> (r: &'static str)
        ensures
            r@ == "convertEllipseToCircle"@,
    {
        "convertEllipseToCircle"
    }

    fn description(&self) -> (r: &'static str)
        ensures
            r@ == "converts non-eccentric <ellipse>s to <circle>s"@,
    {
        "converts non-eccentric <ellipse>s to <circle>s"
    }

    fn apply(&mut self, document: &mut Document, plugin_info: &PluginInfo, params: Option<&Value>) -> (r: PluginResult<()>)
        ensures
            r is Ok,
            elem_view(final(document).root) == ce_elem(elem_view(old(document).root)),
            final(document).prologue == old(document).prologue,
            final(document).epilogue == old(document).epilogue,
            final(document).metadata == old(document).metadata,
    {
        process(&mut document.root);
        Ok(())
    }
}

} // verus!
