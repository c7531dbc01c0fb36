//! Removes attributes whose value is empty, except the conditional
//! processing attributes, for which an empty value has a meaning.

use vstd::prelude::*;
use crate::ast::{Document, Element, ElementView, Node, NodeView, elem_view, nodes_view, node_view,
    lemma_nodes_view, lemma_nodes_view_push, attr_entries, attr_pairs, entries_without};
use crate::plugin::{Plugin, PluginInfo, PluginResult};
use crate::strings::str_eq;
use crate::value::Value;

verus! {

/// The plugin that removes empty attributes.
pub struct RemoveEmptyAttrsPlugin;

/// Whether `n` is a conditional processing attribute.
pub open spec fn is_conditional_spec(n: Seq<char>) -> bool {
    n == "requiredExtensions"@ || n == "requiredFeatures"@ || n == "systemLanguage"@
}

/// The names of the entries that the plugin removes: empty value, not a
/// conditional processing attribute.
pub open spec fn empty_attr_names(e: Seq<(Seq<char>, Seq<char>)>) -> Seq<Seq<char>>
    decreases e.len(),
{
    if e.len() == 0 {
        Seq::empty()
    } else if e.last().1.len() == 0 && !is_conditional_spec(e.last().0) {
        empty_attr_names(e.drop_last()).push(e.last().0)
    } else {
        empty_attr_names(e.drop_last())
    }
}

/// The element after the plugin, with every descendant processed too.
pub open spec fn rea_elem(e: ElementView) -> ElementView
    decreases e,
{
    ElementView {
        name: e.name,
        attrs: entries_without(e.attrs, empty_attr_names(e.attrs)),
        children: rea_children(e.children),
        ns: e.ns,
    }
}

pub open spec fn rea_children(s: Seq<NodeView>) -> Seq<NodeView>
    decreases s,
{
    if s.len() == 0 {
        Seq::empty()
    } else {
        let pre = rea_children(s.drop_last());
        match s.last() {
            NodeView::Element(c) => pre.push(NodeView::Element(rea_elem(c))),
            other => pre.push(other),
        }
    }
}

/// Whether `n` is a conditional processing attribute.
pub fn is_conditional(n: &str) -> (r: bool)
    ensures
        r == is_conditional_spec(n@),
{
    str_eq(n, "requiredExtensions") || str_eq(n, "requiredFeatures") || str_eq(n, "systemLanguage")
}

fn remove_empty_attrs(e: &mut Element)
    ensures
        attr_entries(final(e).attributes) == entries_without(attr_entries(old(e).attributes),
            empty_attr_names(attr_entries(old(e).attributes))),
        final(e).name == old(e).name,
        final(e).children == old(e).children,
        final(e).namespaces == old(e).namespaces,
{
    let pairs = attr_pairs(&e.attributes);
    let ghost orig = attr_entries(e.attributes);
    let mut names: Vec<String> = Vec::new();
    let mut i: usize = 0;
    while i < pairs.len()
        invariant
            i <= pairs@.len(), pairs@.len() == orig.len(),
            forall|k: int| 0 <= k < pairs@.len() ==> (#[trigger] pairs@[k]).0@ == orig[k].0 && pairs@[k].1@ == orig[k].1,
            names@.map_values(|n: String| n@) == empty_attr_names(orig.take(i as int)),
        decreases pairs.len() - i,
    {
        assert(orig.take(i + 1).drop_last() =~= orig.take(i as int));
        if pairs[i].1.as_str().unicode_len() == 0 && !is_conditional(pairs[i].0.as_str()) {
            let ghost before = names@;
            names.push(pairs[i].0.clone());
            assert(names@.map_values(|n: String| n@) =~= before.map_values(|n: String| n@).push(orig[i as int].0));
        }
        i = i + 1;
    }
    assert(orig.take(orig.len() as int) =~= orig);
    e.remove_attrs_named(&names);
}

fn visit(e: &mut Element)
    ensures
        elem_view(*final(e)) == rea_elem(elem_view(*old(e))),
    decreases *old(e),
{
    remove_empty_attrs(e);
    let mut old_children: Vec<Node> = Vec::new();
    std::mem::swap(&mut old_children, &mut e.children);
    let ghost orig = old_children@;
    let mut out: Vec<Node> = Vec::new();
    let n = old_children.len();
    let mut i: usize = 0;
    proof { lemma_nodes_view(orig); }
    while i < n
        invariant
            n == orig.len(), i <= n,
            orig == old(e).children@,
            old_children@ == orig.subrange(i as int, n as int),
            nodes_view(orig).len() == n,
            forall|j: int| 0 <= j < n ==> #[trigger] nodes_view(orig)[j] == node_view(orig[j]),
            nodes_view(out@) == rea_children(nodes_view(orig).take(i as int)),
            forall|j: int| 0 <= j < n ==> decreases_to!(*old(e) => #[trigger] orig[j]),
        decreases n - i,
    {
        let child = old_children.remove(0);
        assert(child == orig[i as int]);
        assert(nodes_view(orig).take(i + 1).drop_last() =~= nodes_view(orig).take(i as int));
        match child {
            Node::Element(mut ce) => {
                visit(&mut ce);
                proof { lemma_nodes_view_push(out@, Node::Element(ce)); }
                out.push(Node::Element(ce));
            },
            other => {
                proof { lemma_nodes_view_push(out@, other); }
                out.push(other);
            },
        }
        i = i + 1;
    }
    assert(nodes_view(orig).take(n as int) =~= nodes_view(orig));
    e.children = out;
}

impl Plugin for RemoveEmptyAttrsPlugin {
    fn name(&self) -> (r: &'static str)
        ensures
            r@ == "removeEmptyAttrs"@,
    {
        "removeEmptyAttrs"
    }

    fn description(&self) -> (r: &'static str)
        ensures
            r@ == "removes empty attributes"@,
    {
        "removes empty attributes"
    }

    fn apply(&mut self, document: &mut Document, plugin_info: &PluginInfo, params: Option<&Value>) -> (r: PluginResult<()>)
        ensures
            r is Ok,
            elem_view(final(document).root) == rea_elem(elem_view(old(document).root)),
            final(document).prologue == old(document).prologue,
            final(document).epilogue == old(document).epilogue,
            final(document).metadata == old(document).metadata,
    {
        visit(&mut document.root);
        Ok(())
    }
}

} // verus!
