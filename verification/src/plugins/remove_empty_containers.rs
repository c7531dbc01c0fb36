//! Removes container elements that are left without children.

use vstd::prelude::*;
use crate::ast::{Document, Element, ElementView, Node, NodeView, entry_index, elem_view, nodes_view,
    node_view, lemma_nodes_view, lemma_nodes_view_push, attr_entries};
use crate::plugin::{Plugin, PluginInfo, PluginResult};
use crate::strings::str_eq;
use crate::value::Value;

verus! {

/// The plugin that removes empty containers.
pub struct RemoveEmptyContainersPlugin;

/// Whether `n` names an SVG container element.
pub open spec fn is_container_spec(n: Seq<char>) -> bool {
    n == "a"@ || n == "defs"@ || n == "foreignObject"@ || n == "g"@ || n == "marker"@ || n == "mask"@
        || n == "missing-glyph"@ || n == "pattern"@ || n == "svg"@ || n == "switch"@ || n == "symbol"@
}

/// Whether the (already processed) element `e`, a child of an element named
/// `parent`, is removed.
pub open spec fn should_remove_spec(e: ElementView, parent: Seq<char>) -> bool {
    &&& is_container_spec(e.name)
    &&& e.children.len() == 0
    &&& e.name != "svg"@
    &&& !(e.name == "pattern"@ && e.attrs.len() > 0)
    &&& !(e.name == "mask"@ && entry_index(e.attrs, "id"@) >= 0)
    &&& parent != "switch"@
    &&& !(e.name == "g"@ && entry_index(e.attrs, "filter"@) >= 0)
}

/// The element after the plugin: children first, then this element's
/// removable children.
pub open spec fn rec_elem(e: ElementView) -> ElementView
    decreases e,
{
    ElementView { name: e.name, attrs: e.attrs, children: rec_children(e.children, e.name), ns: e.ns }
}

pub open spec fn rec_children(s: Seq<NodeView>, parent: Seq<char>) -> Seq<NodeView>
    decreases s,
{
    if s.len() == 0 {
        Seq::empty()
    } else {
        let pre = rec_children(s.drop_last(), parent);
        match s.last() {
            NodeView::Element(c) => {
                let d = rec_elem(c);
                if should_remove_spec(d, parent) { pre } else { pre.push(NodeView::Element(d)) }
            },
            other => pre.push(other),
        }
    }
}

/// Whether `name` is a container element's name.
pub fn is_container(name: &str) -> (r: bool)
    ensures
        r == is_container_spec(name@),
{
    str_eq(name, "a") || str_eq(name, "defs") || str_eq(name, "foreignObject") || str_eq(name, "g")
        || str_eq(name, "marker") || str_eq(name, "mask") || str_eq(name, "missing-glyph")
        || str_eq(name, "pattern") || str_eq(name, "svg") || str_eq(name, "switch") || str_eq(name, "symbol")
}

fn should_remove_empty_container(e: &Element, parent: &str) -> (r: bool)
    ensures
        r == should_remove_spec(elem_view(*e), parent@),
{
    proof { lemma_nodes_view(e.children@); }
    if !is_container(e.name.as_str()) {
        return false;
    }
    if e.children.len() != 0 {
        return false;
    }
    if str_eq(e.name.as_str(), "svg") {
        return false;
    }
    if str_eq(e.name.as_str(), "pattern") && crate::ast::attrs_count(&e.attributes) > 0 {
        return false;
    }
    if str_eq(e.name.as_str(), "mask") && e.has_attr("id") {
        return false;
    }
    if str_eq(parent, "switch") {
        return false;
    }
    if str_eq(e.name.as_str(), "g") && e.has_attr("filter") {
        return false;
    }
    true
}

fn remove_empty_containers(e: &mut Element)
    ensures
        elem_view(*final(e)) == rec_elem(elem_view(*old(e))),
    decreases *old(e),
{
    let mut old_children: Vec<Node> = Vec::new();
    std::mem::swap(&mut old_children, &mut e.children);
    let ghost orig = old_children@;
    let mut out: Vec<Node> = Vec::new();
    let n = old_children.len();
    let mut i: usize = 0;
    proof { lemma_nodes_view(orig); }
    while i < n
        invariant
            n == orig.len(), i <= n,
            old_children@ == orig.subrange(i as int, n as int),
            nodes_view(orig).len() == n,
            forall|j: int| 0 <= j < n ==> #[trigger] nodes_view(orig)[j] == node_view(orig[j]),
            nodes_view(out@) == rec_children(nodes_view(orig).take(i as int), e.name@),
            forall|j: int| 0 <= j < n ==> decreases_to!(*old(e) => #[trigger] orig[j]),
            e.name == old(e).name,
            e.attributes == old(e).attributes,
            e.namespaces == old(e).namespaces,
        decreases n - i,
    {
        let child = old_children.remove(0);
        assert(child == orig[i as int]);
        assert(nodes_view(orig).take(i + 1).drop_last() =~= nodes_view(orig).take(i as int));
        match child {
            Node::Element(mut ce) => {
                remove_empty_containers(&mut ce);
                if !should_remove_empty_container(&ce, e.name.as_str()) {
                    proof { lemma_nodes_view_push(out@, Node::Element(ce)); }
                    out.push(Node::Element(ce));
                }
            },
            other => {
                proof { lemma_nodes_view_push(out@, other); }
                out.push(other);
            },
        }
        i = i + 1;
    }
    assert(nodes_view(orig).take(n as int) =~= nodes_view(orig));
    e.children = out;
}

impl Plugin for RemoveEmptyContainersPlugin {
    fn name(&self) -> (r: &'static str)
        ensures
            r@ == "removeEmptyContainers"@,
    {
        "removeEmptyContainers"
    }

    fn description(&self) -> (r: &'static str)
        ensures
            r@ == "removes empty container elements"@,
    {
        "removes empty container elements"
    }

    fn apply(&mut self, document: &mut Document, plugin_info: &PluginInfo, params: Option<&Value>) -> (r: PluginResult<()>)
        ensures
            r is Ok,
            elem_view(final(document).root) == rec_elem(elem_view(old(document).root)),
            final(document).prologue == old(document).prologue,
            final(document).epilogue == old(document).epilogue,
            final(document).metadata == old(document).metadata,
    {
        remove_empty_containers(&mut document.root);
        Ok(())
    }
}

} // verus!
