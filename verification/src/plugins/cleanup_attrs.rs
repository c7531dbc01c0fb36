//! Cleans attribute values of newlines, leading and trailing white space,
//! and runs of white space.

use vstd::prelude::*;
use crate::ast::{Document, Element, ElementView, Node, NodeView, attr_entries, attr_pairs, elem_view,
    keys_distinct, lemma_nodes_view, lemma_nodes_view_push, node_view, nodes_view, pair_views};
use crate::pattern::{replace_or_keep, replaced_or_same};
use crate::plugin::{Plugin, PluginInfo, PluginResult};
use crate::strings::{owned, trim, trim_str};
use crate::value::{Value, get_bool_param, opt_value, param_bool};

verus! {

/// The plugin that cleans attribute values.
pub struct CleanupAttrsPlugin;

/// A newline between two characters that are not white space.
pub open spec fn newline_need_space_pattern() -> Seq<char> {
    "(\\S)\\r?\\n(\\S)"@
}

/// A newline.
pub open spec fn newline_pattern() -> Seq<char> {
    "\\r?\\n"@
}

/// Two or more white-space characters.
pub open spec fn spaces_pattern() -> Seq<char> {
    "\\s{2,}"@
}

/// A value after cleaning: newlines between words become spaces and other
/// newlines go; then the value is trimmed; then runs of white space become
/// one space.  Each step only when asked.
pub open spec fn cleaned_value(v: Seq<char>, newlines: bool, trim_it: bool, spaces: bool) -> Seq<char> {
    let a = if newlines {
        replaced_or_same(newline_pattern(), replaced_or_same(newline_need_space_pattern(), v, "$1 $2"@), ""@)
    } else {
        v
    };
    let b = if trim_it { trim(a) } else { a };
    if spaces { replaced_or_same(spaces_pattern(), b, " "@) } else { b }
}

/// The table with every value cleaned, names and order kept.
pub open spec fn cleaned_entries(a: Seq<(Seq<char>, Seq<char>)>, nl: bool, tr: bool, sp: bool) -> Seq<(Seq<char>, Seq<char>)> {
    a.map_values(|x: (Seq<char>, Seq<char>)| (x.0, cleaned_value(x.1, nl, tr, sp)))
}

/// The element after the plugin, with every descendant processed too.
pub open spec fn ca_elem(e: ElementView, nl: bool, tr: bool, sp: bool) -> ElementView
    decreases e,
{
    ElementView { name: e.name, attrs: cleaned_entries(e.attrs, nl, tr, sp), children: ca_children(e.children, nl, tr, sp), ns: e.ns }
}

pub open spec fn ca_children(s: Seq<NodeView>, nl: bool, tr: bool, sp: bool) -> Seq<NodeView>
    decreases s,
{
    if s.len() == 0 {
        Seq::empty()
    } else {
        let pre = ca_children(s.drop_last(), nl, tr, sp);
        match s.last() {
            NodeView::Element(c) => pre.push(NodeView::Element(ca_elem(c, nl, tr, sp))),
            other => pre.push(other),
        }
    }
}

/// Cleans one value.
pub fn clean_value(v: &str, newlines: bool, trim_it: bool, spaces: bool) -> (r: String)
    ensures
        r@ == cleaned_value(v@, newlines, trim_it, spaces),
{
    let a = if newlines {
        let x = replace_or_keep("(\\S)\\r?\\n(\\S)", v, "$1 $2");
        replace_or_keep("\\r?\\n", x.as_str(), "")
    } else {
        owned(v)
    };
    let b = if trim_it { trim_str(a.as_str()) } else { a };
    if spaces { replace_or_keep("\\s{2,}", b.as_str(), " ") } else { b }
}

fn clean_attributes(e: &mut Element, nl: bool, tr: bool, sp: bool)
    ensures
        attr_entries(final(e).attributes) == cleaned_entries(attr_entries(old(e).attributes), nl, tr, sp),
        final(e).name == old(e).name,
        final(e).children == old(e).children,
        final(e).namespaces == old(e).namespaces,
{
    let pairs = attr_pairs(&e.attributes);
    let ghost orig = attr_entries(e.attributes);
    let ghost want = cleaned_entries(orig, nl, tr, sp);
    let mut out: Vec<(String, String)> = Vec::new();
    let mut i: usize = 0;
    while i < pairs.len()
        invariant
            i <= pairs@.len(), pairs@.len() == orig.len(),
            forall|k: int| 0 <= k < pairs@.len() ==> (#[trigger] pairs@[k]).0@ == orig[k].0 && pairs@[k].1@ == orig[k].1,
            want == cleaned_entries(orig, nl, tr, sp),
            pair_views(out@) == want.take(i as int),
        decreases pairs.len() - i,
    {
        let c = clean_value(pairs[i].1.as_str(), nl, tr, sp);
        let ghost before = out@;
        let ghost cv = c@;
        out.push((pairs[i].0.clone(), c));
        assert(pair_views(out@) =~= pair_views(before).push((orig[i as int].0, cv)));
        assert(want[i as int] == (orig[i as int].0, cleaned_value(orig[i as int].1, nl, tr, sp)));
        assert(want.take(i + 1) =~= want.take(i as int).push(want[i as int]));
        i = i + 1;
    }
    assert(want.take(orig.len() as int) =~= want);
    assert(keys_distinct(pair_views(out@))) by {
        assert forall|x: int, y: int| 0 <= x < y < want.len() implies
            (#[trigger] want[x]).0 != (#[trigger] want[y]).0 by {
            assert(orig[x].0 != orig[y].0);
        }
    }
    e.set_attributes(out);
}

fn cleanup_element_attrs(e: &mut Element, nl: bool, tr: bool, sp: bool)
    ensures
        elem_view(*final(e)) == ca_elem(elem_view(*old(e)), nl, tr, sp),
    decreases *old(e),
{
    clean_attributes(e, nl, tr, sp);
    let mut old_children: Vec<Node> = Vec::new();
    std::mem::swap(&mut old_children, &mut e.children);
    let ghost orig = old_children@;
    let mut out: Vec<Node> = Vec::new();
    let n = old_children.len();
    let mut i: usize = 0;
    proof { lemma_nodes_view(orig); }
    while i < n
        invariant
            n == orig.len(), i <= n,
            orig == old(e).children@,
            old_children@ == orig.subrange(i as int, n as int),
            nodes_view(orig).len() == n,
            forall|j: int| 0 <= j < n ==> #[trigger] nodes_view(orig)[j] == node_view(orig[j]),
            nodes_view(out@) == ca_children(nodes_view(orig).take(i as int), nl, tr, sp),
            forall|j: int| 0 <= j < n ==> decreases_to!(*old(e) => #[trigger] orig[j]),
        decreases n - i,
    {
        let child = old_children.remove(0);
        assert(child == orig[i as int]);
        assert(nodes_view(orig).take(i + 1).drop_last() =~= nodes_view(orig).take(i as int));
        match child {
            Node::Element(mut ce) => {
                cleanup_element_attrs(&mut ce, nl, tr, sp);
                proof { lemma_nodes_view_push(out@, Node::Element(ce)); }
                out.push(Node::Element(ce));
            },
            other => {
                proof { lemma_nodes_view_push(out@, other); }
                out.push(other);
            },
        }
        i = i + 1;
    }
    assert(nodes_view(orig).take(n as int) =~= nodes_view(orig));
    e.children = out;
}

impl Plugin for CleanupAttrsPlugin {
    fn name(&self) -> (r: &'static str)
        ensures
            r@ == "cleanupAttrs"@,
    {
        "cleanupAttrs"
    }

    fn description(&self) -> (r: &'static str)
        ensures
            r@ == "Cleanup attributes from newlines, trailing and repeating spaces"@,
    {
        "Cleanup attributes from newlines, trailing and repeating spaces"
    }

    fn apply(&mut self, document: &mut Document, plugin_info: &PluginInfo, params: Option<&Value>) -> (r: PluginResult<()>)
        ensures
            r is Ok,
            elem_view(final(document).root) == ca_elem(elem_view(old(document).root),
                param_bool(opt_value(params), "newlines"@, true),
                param_bool(opt_value(params), "trim"@, true),
                param_bool(opt_value(params), "spaces"@, true)),
            final(document).prologue == old(document).prologue,
            final(document).epilogue == old(document).epilogue,
            final(document).metadata == old(document).metadata,
    {
        let newlines = get_bool_param(params, "newlines", true);
        let trim_it = get_bool_param(params, "trim", true);
        let spaces = get_bool_param(params, "spaces", true);
        cleanup_element_attrs(&mut document.root, newlines, trim_it, spaces);
        Ok(())
    }
}

} // verus!
