//! Removes empty `<text>` and `<tspan>` elements, and `<tref>` elements
//! without a reference.

use vstd::prelude::*;
use crate::ast::{Document, Element, ElementView, Node, NodeView, entry_index, elem_view, nodes_view,
    node_view, lemma_nodes_view, lemma_nodes_view_push};
use crate::plugin::{Plugin, PluginInfo, PluginResult};
use crate::strings::str_eq;
use crate::value::{Value, opt_value, param_bool, get_bool_param};

verus! {

/// The plugin that removes empty text elements.
pub struct RemoveEmptyTextPlugin;

/// Which kinds of element the plugin removes.
#[derive(Debug)]
pub struct RemoveEmptyTextParams {
    /// Remove empty `<text>` elements.
    pub text: bool,
    /// Remove empty `<tspan>` elements.
    pub tspan: bool,
    /// Remove `<tref>` elements without `xlink:href`.
    pub tref: bool,
}

impl Default for RemoveEmptyTextParams {
    fn default() -> (r: RemoveEmptyTextParams)
        ensures
            r.text && r.tspan && r.tref,
    {
        RemoveEmptyTextParams { text: true, tspan: true, tref: true }
    }
}

impl RemoveEmptyTextParams {
    /// The parameters found in a JSON object; each missing or non-boolean
    /// member keeps its default, `true`.
    pub fn from_value(value: Option<&Value>) -> (r: RemoveEmptyTextParams)
        ensures
            r.text == param_bool(opt_value(value), "text"@, true),
            r.tspan == param_bool(opt_value(value), "tspan"@, true),
            r.tref == param_bool(opt_value(value), "tref"@, true),
    {
        RemoveEmptyTextParams {
            text: get_bool_param(value, "text", true),
            tspan: get_bool_param(value, "tspan", true),
            tref: get_bool_param(value, "tref", true),
        }
    }
}

/// Whether the (already processed) element is removed.
pub open spec fn should_remove_spec(e: ElementView, p: RemoveEmptyTextParams) -> bool {
    if e.name == "text"@ {
        p.text && e.children.len() == 0
    } else if e.name == "tspan"@ {
        p.tspan && e.children.len() == 0
    } else if e.name == "tref"@ {
        p.tref && entry_index(e.attrs, "xlink:href"@) < 0
    } else {
        false
    }
}

/// The element after the plugin: children are processed first, then the
/// removable ones are dropped.
pub open spec fn ret_elem(e: ElementView, p: RemoveEmptyTextParams) -> ElementView
    decreases e,
{
    ElementView { name: e.name, attrs: e.attrs, children: ret_children(e.children, p), ns: e.ns }
}

pub open spec fn ret_children(s: Seq<NodeView>, p: RemoveEmptyTextParams) -> Seq<NodeView>
    decreases s,
{
    if s.len() == 0 {
        Seq::empty()
    } else {
        let pre = ret_children(s.drop_last(), p);
        match s.last() {
            NodeView::Element(c) => {
                let d = ret_elem(c, p);
                if should_remove_spec(d, p) { pre } else { pre.push(NodeView::Element(d)) }
            },
            other => pre.push(other),
        }
    }
}

fn should_remove(e: &Element, p: &RemoveEmptyTextParams) -> (r: bool)
    ensures
        r == should_remove_spec(elem_view(*e), *p),
{
    proof { lemma_nodes_view(e.children@); }
    if str_eq(e.name.as_str(), "text") {
        p.text && e.children.len() == 0
    } else if str_eq(e.name.as_str(), "tspan") {
        p.tspan && e.children.len() == 0
    } else if str_eq(e.name.as_str(), "tref") {
        p.tref && !e.has_attr("xlink:href")
    } else {
        false
    }
}

fn remove_empty_text(e: &mut Element, p: &RemoveEmptyTextParams)
    ensures
        elem_view(*final(e)) == ret_elem(elem_view(*old(e)), *p),
    decreases *old(e),
{
    let mut old_children: Vec<Node> = Vec::new();
    std::mem::swap(&mut old_children, &mut e.children);
    let ghost orig = old_children@;
    let mut out: Vec<Node> = Vec::new();
    let n = old_children.len();
    let mut i: usize = 0;
    proof { lemma_nodes_view(orig); }
    while i < n
        invariant
            n == orig.len(), i <= n,
            old_children@ == orig.subrange(i as int, n as int),
            nodes_view(orig).len() == n,
            forall|j: int| 0 <= j < n ==> #[trigger] nodes_view(orig)[j] == node_view(orig[j]),
            nodes_view(out@) == ret_children(nodes_view(orig).take(i as int), *p),
            forall|j: int| 0 <= j < n ==> decreases_to!(*old(e) => #[trigger] orig[j]),
        decreases n - i,
    {
        let child = old_children.remove(0);
        assert(child == orig[i as int]);
        assert(nodes_view(orig).take(i + 1).drop_last() =~= nodes_view(orig).take(i as int));
        match child {
            Node::Element(mut ce) => {
                remove_empty_text(&mut ce, p);
                if !should_remove(&ce, p) {
                    proof { lemma_nodes_view_push(out@, Node::Element(ce)); }
                    out.push(Node::Element(ce));
                }
            },
            other => {
                proof { lemma_nodes_view_push(out@, other); }
                out.push(other);
            },
        }
        i = i + 1;
    }
    assert(nodes_view(orig).take(n as int) =~= nodes_view(orig));
    e.children = out;
}

impl Plugin for RemoveEmptyTextPlugin {
    fn name(&self) -> (r: &'static str)
        ensures
            r@ == "removeEmptyText"@,
    {
        "removeEmptyText"
    }

    fn description(&self) -> (r: &'static str)
        ensures
            r@ == "removes empty <text> elements"@,
    {
        "removes empty <text> elements"
    }

    fn apply(&mut self, document: &mut Document, plugin_info: &PluginInfo, params: Option<&Value>) -> (r: PluginResult<()>)
        ensures
            r is Ok,
            elem_view(final(document).root) == ret_elem(elem_view(old(document).root),
                RemoveEmptyTextParams {
                    text: param_bool(opt_value(params), "text"@, true),
                    tspan: param_bool(opt_value(params), "tspan"@, true),
                    tref: param_bool(opt_value(params), "tref"@, true),
                }),
            final(document).prologue == old(document).prologue,
            final(document).epilogue == old(document).epilogue,
            final(document).metadata == old(document).metadata,
    {
        let config = RemoveEmptyTextParams::from_value(params);
        remove_empty_text(&mut document.root, &config);
        Ok(())
    }
}

} // verus!
