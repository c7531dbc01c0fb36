//! Removes `<desc>` elements: by default the empty ones and those holding
//! an editor's standard text, or all of them when asked.

use vstd::prelude::*;
use crate::ast::{Document, Element, ElementView, Node, NodeView, elem_view, nodes_view, node_view,
    lemma_nodes_view, lemma_nodes_view_push};
use crate::pattern::{regex_is_match, regex_match_result};
use crate::plugin::{Plugin, PluginInfo, PluginResult};
use crate::strings::str_eq;
use crate::value::{Value, opt_value, param_bool, get_bool_param};

verus! {

/// The plugin that removes `<desc>` elements.
pub struct RemoveDescPlugin;

/// The pattern of an editor's standard description.
pub open spec fn standard_desc_pattern() -> Seq<char> {
    "^(Created with|Created using)"@
}

/// Whether a `<desc>` element is removed.
pub open spec fn should_remove_desc_spec(d: ElementView, remove_any: bool) -> bool {
    ||| remove_any
    ||| d.children.len() == 0
    ||| (d.children.len() == 1 && match d.children[0] {
        NodeView::Text(t) => regex_match_result(standard_desc_pattern(), t) == Some(true),
        _ => false,
    })
}

/// The element after the plugin: removable `<desc>` children are dropped,
/// the other children are processed.
pub open spec fn rd_elem(e: ElementView, remove_any: bool) -> ElementView
    decreases e,
{
    ElementView { name: e.name, attrs: e.attrs, children: rd_children(e.children, remove_any), ns: e.ns }
}

pub open spec fn rd_children(s: Seq<NodeView>, remove_any: bool) -> Seq<NodeView>
    decreases s,
{
    if s.len() == 0 {
        Seq::empty()
    } else {
        let pre = rd_children(s.drop_last(), remove_any);
        match s.last() {
            NodeView::Element(c) => {
                if c.name == "desc"@ && should_remove_desc_spec(c, remove_any) {
                    pre
                } else {
                    pre.push(NodeView::Element(rd_elem(c, remove_any)))
                }
            },
            other => pre.push(other),
        }
    }
}

/// Whether a `<desc>` element is removed.
pub fn should_remove_desc(d: &Element, remove_any: bool) -> (r: bool)
    ensures
        r == should_remove_desc_spec(elem_view(*d), remove_any),
{
    proof { lemma_nodes_view(d.children@); }
    if remove_any {
        return true;
    }
    if d.children.len() == 0 {
        return true;
    }
    if d.children.len() == 1 {
        if let Node::Text(t) = &d.children[0] {
            if let Some(true) = regex_is_match("^(Created with|Created using)", t.as_str()) {
                return true;
            }
        }
    }
    false
}

fn remove_desc_from_element(e: &mut Element, remove_any: bool)
    ensures
        elem_view(*final(e)) == rd_elem(elem_view(*old(e)), remove_any),
    decreases *old(e),
{
    let mut old_children: Vec<Node> = Vec::new();
    std::mem::swap(&mut old_children, &mut e.children);
    let ghost orig = old_children@;
    let mut out: Vec<Node> = Vec::new();
    let n = old_children.len();
    let mut i: usize = 0;
    proof { lemma_nodes_view(orig); }
    while i < n
        invariant
            n == orig.len(), i <= n,
            old_children@ == orig.subrange(i as int, n as int),
            nodes_view(orig).len() == n,
            forall|j: int| 0 <= j < n ==> #[trigger] nodes_view(orig)[j] == node_view(orig[j]),
            nodes_view(out@) == rd_children(nodes_view(orig).take(i as int), remove_any),
            forall|j: int| 0 <= j < n ==> decreases_to!(*old(e) => #[trigger] orig[j]),
        decreases n - i,
    {
        let child = old_children.remove(0);
        assert(child == orig[i as int]);
        assert(nodes_view(orig).take(i + 1).drop_last() =~= nodes_view(orig).take(i as int));
        match child {
            Node::Element(mut ce) => {
                if !(str_eq(ce.name.as_str(), "desc") && should_remove_desc(&ce, remove_any)) {
                    remove_desc_from_element(&mut ce, remove_any);
                    proof { lemma_nodes_view_push(out@, Node::Element(ce)); }
                    out.push(Node::Element(ce));
                }
            },
            other => {
                proof { lemma_nodes_view_push(out@, other); }
                out.push(other);
            },
        }
        i = i + 1;
    }
    assert(nodes_view(orig).take(n as int) =~= nodes_view(orig));
    e.children = out;
}

impl Plugin for RemoveDescPlugin {
    fn name(&self) -> (r: &'static str)
        ensures
            r@ == "removeDesc"@,
    {
        "removeDesc"
    }

    fn description(&self) -> (r: &'static str)
        ensures
            r@ == "Remove <desc> elements"@,
    {
        "Remove <desc> elements"
    }

    fn apply(&mut self, document: &mut Document, plugin_info: &PluginInfo, params: Option<&Value>) -> (r: PluginResult<()>)
        ensures
            r is Ok,
            elem_view(final(document).root) == rd_elem(elem_view(old(document).root),
                param_bool(opt_value(params), "removeAny"@, false)),
            final(document).prologue == old(document).prologue,
            final(document).epilogue == old(document).epilogue,
            final(document).metadata == old(document).metadata,
    {
        let remove_any = get_bool_param(params, "removeAny", false);
        remove_desc_from_element(&mut document.root, remove_any);
        Ok(())
    }
}

} // verus!
