//! Merges the `<style>` elements of a document into one, in place of the
//! first, and drops `<style>` elements that hold no CSS.

use vstd::prelude::*;
use crate::ast::{Document, Element, ElementView, Node, NodeView, attr_entries, elem_view, empty_elem_view,
    entry_lookup, lemma_nodes_view, lemma_nodes_view_push, no_namespaces, node_view, nodes_view};
use crate::plugin::{Plugin, PluginInfo, PluginResult};
use crate::strings::{owned, str_eq, to_chars, trim, trim_chars};
use crate::value::Value;

verus! {

/// The plugin that merges `<style>` elements.
pub struct MergeStylesPlugin;

/// The CSS of a `<style>` element: its text and CDATA children, joined.
pub open spec fn style_text(s: Seq<NodeView>) -> Seq<char>
    decreases s.len(),
{
    if s.len() == 0 {
        Seq::empty()
    } else {
        style_text(s.drop_last()) + match s.last() {
            NodeView::Text(t) => t,
            NodeView::CData(t) => t,
            _ => Seq::empty(),
        }
    }
}

/// Whether a node is a `<style>` element.
pub open spec fn is_style_node(n: NodeView) -> bool {
    n matches NodeView::Element(c) && c.name == "style"@
}

/// The `<style>` elements of the trees of a list of nodes that hold CSS, in
/// document order, each with its `media` and its CSS.  A `<style>` element
/// is not entered.
pub open spec fn tree_entries(s: Seq<NodeView>) -> Seq<(Option<Seq<char>>, Seq<char>)>
    decreases s,
{
    if s.len() == 0 {
        Seq::empty()
    } else {
        let pre = tree_entries(s.drop_last());
        match s.last() {
            NodeView::Element(c) => if c.name == "style"@ {
                if trim(style_text(c.children)).len() > 0 {
                    pre.push((entry_lookup(c.attrs, "media"@), style_text(c.children)))
                } else {
                    pre
                }
            } else {
                pre + tree_entries(c.children)
            },
            _ => pre,
        }
    }
}

/// The merged CSS: a `media` entry wrapped in `@media`, each entry followed
/// by a newline.
pub open spec fn merged_css(es: Seq<(Option<Seq<char>>, Seq<char>)>) -> Seq<char>
    decreases es.len(),
{
    if es.len() == 0 {
        Seq::empty()
    } else {
        merged_css(es.drop_last()) + match es.last().0 {
            Some(m) => "@media "@ + m + " {\n"@ + trim(es.last().1) + "\n}\n"@,
            None => es.last().1 + "\n"@,
        }
    }
}

/// Whether some CSS holds `<` or `&`, and so goes into CDATA.
pub open spec fn needs_cdata(es: Seq<(Option<Seq<char>>, Seq<char>)>) -> bool {
    exists|i: int| 0 <= i < es.len() && ((#[trigger] es[i]).1.contains('<') || es[i].1.contains('&'))
}

/// The merged `<style>` element.
pub open spec fn merged_style(es: Seq<(Option<Seq<char>>, Seq<char>)>) -> NodeView {
    NodeView::Element(ElementView {
        name: "style"@,
        attrs: Seq::empty(),
        children: seq![if needs_cdata(es) { NodeView::CData(merged_css(es)) } else { NodeView::Text(merged_css(es)) }],
        ns: no_namespaces(),
    })
}

/// Whether a `<style>` element holds some CSS.
pub open spec fn has_css(s: Seq<NodeView>) -> bool {
    exists|i: int| 0 <= i < s.len() && match #[trigger] s[i] {
        NodeView::Text(t) => trim(t).len() > 0,
        NodeView::CData(t) => trim(t).len() > 0,
        _ => false,
    }
}

/// The nodes after the plugin, and whether the merged `<style>` has been
/// put in place.  With `merged` set, the first `<style>` element in
/// document order (after `done` is set, none) becomes it and every other
/// `<style>` goes; without, the `<style>` elements that hold no CSS go.
/// Other elements are entered.
pub open spec fn msw_children(s: Seq<NodeView>, merged: Option<NodeView>, done: bool) -> (Seq<NodeView>, bool)
    decreases s,
{
    if s.len() == 0 {
        (Seq::empty(), done)
    } else {
        let r = msw_children(s.drop_last(), merged, done);
        match s.last() {
            NodeView::Element(c) => if c.name == "style"@ {
                match merged {
                    Some(n) => if !r.1 { (r.0.push(n), true) } else { r },
                    None => if has_css(c.children) { (r.0.push(s.last()), r.1) } else { r },
                }
            } else {
                let k = msw_children(c.children, merged, r.1);
                (r.0.push(NodeView::Element(ElementView { name: c.name, attrs: c.attrs, children: k.0, ns: c.ns })), k.1)
            },
            other => (r.0.push(other), r.1),
        }
    }
}

/// The merged `<style>` element for a tree, when more than one `<style>`
/// element holds CSS.
pub open spec fn merge_target(e: ElementView) -> Option<NodeView> {
    if tree_entries(e.children).len() > 1 { Some(merged_style(tree_entries(e.children))) } else { None }
}

/// The element after the plugin: all the CSS of the tree's `<style>`
/// elements goes into one `<style>` element, in place of the first; the
/// `<style>` elements that hold no CSS go.
pub open spec fn ms_root(e: ElementView) -> ElementView {
    ElementView {
        name: e.name,
        attrs: e.attrs,
        children: msw_children(e.children, merge_target(e), merge_target(e) is None).0,
        ns: e.ns,
    }
}

fn has_char(s: &str, c: char) -> (r: bool)
    ensures
        r == s@.contains(c),
{
    let cs = to_chars(s);
    let mut i: usize = 0;
    while i < cs.len()
        invariant
            i <= cs@.len(), cs@ == s@,
            forall|k: int| 0 <= k < i ==> cs@[k] != c,
        decreases cs.len() - i,
    {
        if cs[i] == c {
            assert(s@[i as int] == c);
            return true;
        }
        i = i + 1;
    }
    false
}

fn is_blank(t: &str) -> (r: bool)
    ensures
        r == (trim(t@).len() == 0),
{
    let cs = to_chars(t);
    trim_chars(cs.as_slice()).len() == 0
}

/// The CSS of a `<style>` element.
fn style_content(e: &Element) -> (r: String)
    ensures
        r@ == style_text(nodes_view(e.children@)),
{
    proof { lemma_nodes_view(e.children@); }
    let ghost cv = nodes_view(e.children@);
    let mut out = String::new();
    let mut i: usize = 0;
    while i < e.children.len()
        invariant
            i <= e.children@.len(),
            cv == nodes_view(e.children@),
            cv.len() == e.children@.len(),
            forall|j: int| 0 <= j < e.children@.len() ==> #[trigger] cv[j] == node_view(e.children@[j]),
            out@ == style_text(cv.take(i as int)),
        decreases e.children.len() - i,
    {
        assert(cv.take(i + 1).drop_last() =~= cv.take(i as int));
        match &e.children[i] {
            Node::Text(t) => out.append(t.as_str()),
            Node::CData(t) => out.append(t.as_str()),
            _ => {},
        }
        i = i + 1;
        assert(out@ =~= style_text(cv.take(i as int)));
    }
    assert(cv.take(e.children@.len() as int) =~= cv);
    out
}

/// Whether a `<style>` element holds some CSS.
fn holds_css(e: &Element) -> (r: bool)
    ensures
        r == has_css(nodes_view(e.children@)),
{
    proof { lemma_nodes_view(e.children@); }
    let ghost cv = nodes_view(e.children@);
    let mut i: usize = 0;
    while i < e.children.len()
        invariant
            i <= e.children@.len(),
            cv == nodes_view(e.children@),
            cv.len() == e.children@.len(),
            forall|j: int| 0 <= j < e.children@.len() ==> #[trigger] cv[j] == node_view(e.children@[j]),
            forall|k: int| 0 <= k < i ==> !match #[trigger] cv[k] {
                NodeView::Text(t) => trim(t).len() > 0,
                NodeView::CData(t) => trim(t).len() > 0,
                _ => false,
            },
        decreases e.children.len() - i,
    {
        let found = match &e.children[i] {
            Node::Text(t) => !is_blank(t.as_str()),
            Node::CData(t) => !is_blank(t.as_str()),
            _ => false,
        };
        if found {
            assert(match cv[i as int] {
                NodeView::Text(t) => trim(t).len() > 0,
                NodeView::CData(t) => trim(t).len() > 0,
                _ => false,
            });
            return true;
        }
        i = i + 1;
    }
    false
}

pub open spec fn entry_views(v: Seq<(Option<String>, String)>) -> Seq<(Option<Seq<char>>, Seq<char>)> {
    v.map_values(|x: (Option<String>, String)| (match x.0 { Some(m) => Some(m@), None => None }, x.1@))
}

/// The merged `<style>` element for the given CSS entries.
fn merged_style_element(entries: &Vec<(Option<String>, String)>) -> (r: Element)
    ensures
        node_view(Node::Element(r)) == merged_style(entry_views(entries@)),
{
    let ghost es = entry_views(entries@);
    let mut merged = String::new();
    let mut cdata = false;
    let mut k: usize = 0;
    while k < entries.len()
        invariant
            k <= entries@.len(),
            entry_views(entries@) == es,
            merged@ == merged_css(es.take(k as int)),
            cdata == exists|j: int| 0 <= j < k && ((#[trigger] es[j]).1.contains('<') || es[j].1.contains('&')),
        decreases entries.len() - k,
    {
        assert(es.take(k + 1).drop_last() =~= es.take(k as int));
        assert(es[k as int].1 == entries@[k as int].1@);
        if has_char(entries[k].1.as_str(), '<') || has_char(entries[k].1.as_str(), '&') {
            cdata = true;
        }
        match &entries[k].0 {
            Some(m) => {
                let cs = to_chars(entries[k].1.as_str());
                let t = crate::strings::from_chars(trim_chars(cs.as_slice()).as_slice());
                merged.append("@media ");
                merged.append(m.as_str());
                merged.append(" {\n");
                merged.append(t.as_str());
                merged.append("\n}\n");
            },
            None => {
                merged.append(entries[k].1.as_str());
                merged.append("\n");
            },
        }
        k = k + 1;
        assert(merged@ =~= merged_css(es.take(k as int)));
    }
    assert(es.take(es.len() as int) =~= es);
    let mut style = Element::new("style");
    let node = if cdata { Node::CData(merged) } else { Node::Text(merged) };
    let ghost s0 = style;
    style.add_child(node);
    proof {
        lemma_nodes_view_push(s0.children@, node);
        assert(nodes_view(s0.children@) =~= Seq::<NodeView>::empty());
    }
    style
}

/// Adds the CSS entries of the trees below an element, in document order.
fn collect_entries(e: &Element, out: &mut Vec<(Option<String>, String)>)
    ensures
        entry_views(final(out)@) == entry_views(old(out)@) + tree_entries(nodes_view(e.children@)),
    decreases *e,
{
    let ghost cv = nodes_view(e.children@);
    let ghost start = entry_views(out@);
    proof { lemma_nodes_view(e.children@); }
    let mut i: usize = 0;
    assert(cv.take(0) =~= Seq::<NodeView>::empty());
    assert(start + Seq::<(Option<Seq<char>>, Seq<char>)>::empty() =~= start);
    while i < e.children.len()
        invariant
            i <= e.children@.len(),
            cv == nodes_view(e.children@),
            cv.len() == e.children@.len(),
            forall|j: int| 0 <= j < e.children@.len() ==> #[trigger] cv[j] == node_view(e.children@[j]),
            forall|j: int| 0 <= j < e.children@.len() ==> decreases_to!(*e => #[trigger] e.children@[j]),
            entry_views(out@) == start + tree_entries(cv.take(i as int)),
        decreases e.children.len() - i,
    {
        assert(cv.take(i + 1).drop_last() =~= cv.take(i as int));
        assert(cv.take(i + 1).last() == cv[i as int]);
        let ghost before = entry_views(out@);
        if let Node::Element(c) = &e.children[i] {
            assert(decreases_to!(*e => e.children@[i as int]));
            if str_eq(c.name.as_str(), "style") {
                let content = style_content(c);
                if !is_blank(content.as_str()) {
                    let media = match c.attr("media") {
                        Some(m) => Some(m.clone()),
                        None => None,
                    };
                    out.push((media, content));
                    assert(entry_views(out@) =~= before.push(entry_views(out@).last()));
                }
            } else {
                collect_entries(c, out);
            }
        }
        i = i + 1;
        assert(entry_views(out@) =~= start + tree_entries(cv.take(i as int)));
    }
    assert(cv.take(cv.len() as int) =~= cv);
}

/// Rewrites the `<style>` elements below an element as `msw_children` says:
/// `slot` holds the merged `<style>` until it is put in place.
fn rewrite_children(e: &mut Element, merging: bool, slot: &mut Option<Element>, Ghost(m): Ghost<Option<NodeView>>)
    requires
        merging == m is Some,
        !merging ==> *old(slot) is None,
        *old(slot) matches Some(x) ==> m == Some(NodeView::Element(elem_view(x))),
        m matches Some(n) ==> n matches NodeView::Element(x) && x.name == "style"@,
    ensures
        nodes_view(final(e).children@) == msw_children(nodes_view(old(e).children@), m, *old(slot) is None).0,
        (*final(slot) is None) == msw_children(nodes_view(old(e).children@), m, *old(slot) is None).1,
        *final(slot) matches Some(x) ==> m == Some(NodeView::Element(elem_view(x))),
        !merging ==> *final(slot) is None,
        final(e).name == old(e).name,
        final(e).attributes == old(e).attributes,
        final(e).namespaces == old(e).namespaces,
    decreases *old(e),
{
    let mut old_children: Vec<Node> = Vec::new();
    std::mem::swap(&mut old_children, &mut e.children);
    let ghost orig = old_children@;
    let ghost cv = nodes_view(orig);
    let ghost done0 = slot.is_none();
    let mut out: Vec<Node> = Vec::new();
    let n = old_children.len();
    let mut i: usize = 0;
    proof { lemma_nodes_view(orig); }
    assert(cv.take(0) =~= Seq::<NodeView>::empty());
    while i < n
        invariant
            n == orig.len(), i <= n,
            orig == old(e).children@,
            cv == nodes_view(orig),
            old_children@ == orig.subrange(i as int, n as int),
            cv.len() == n,
            forall|j: int| 0 <= j < n ==> #[trigger] cv[j] == node_view(orig[j]),
            forall|j: int| 0 <= j < n ==> decreases_to!(*old(e) => #[trigger] orig[j]),
            nodes_view(out@) == msw_children(cv.take(i as int), m, done0).0,
            (*slot is None) == msw_children(cv.take(i as int), m, done0).1,
            *slot matches Some(x) ==> m == Some(NodeView::Element(elem_view(x))),
            !merging ==> *slot is None,
            merging == m is Some,
            m matches Some(nn) ==> nn matches NodeView::Element(x) && x.name == "style"@,
            e.name == old(e).name,
            e.attributes == old(e).attributes,
            e.namespaces == old(e).namespaces,
        decreases n - i,
    {
        let child = old_children.remove(0);
        assert(child == orig[i as int]);
        assert(cv.take(i + 1).drop_last() =~= cv.take(i as int));
        assert(cv.take(i + 1).last() == cv[i as int]);
        match child {
            Node::Element(mut ce) => {
                if str_eq(ce.name.as_str(), "style") {
                    if merging {
                        match slot.take() {
                            Some(x) => {
                                proof { lemma_nodes_view_push(out@, Node::Element(x)); }
                                out.push(Node::Element(x));
                            },
                            None => {},
                        }
                    } else {
                        if holds_css(&ce) {
                            proof { lemma_nodes_view_push(out@, Node::Element(ce)); }
                            out.push(Node::Element(ce));
                        }
                    }
                } else {
                    rewrite_children(&mut ce, merging, slot, Ghost(m));
                    proof { lemma_nodes_view_push(out@, Node::Element(ce)); }
                    out.push(Node::Element(ce));
                }
            },
            other => {
                proof { lemma_nodes_view_push(out@, other); }
                out.push(other);
            },
        }
        i = i + 1;
    }
    assert(cv.take(n as int) =~= cv);
    e.children = out;
}

/// Merges the CSS of all the `<style>` elements of the tree into one
/// `<style>` element, in place of the first, and drops the `<style>`
/// elements that hold no CSS.
pub fn merge_styles(e: &mut Element)
    ensures
        elem_view(*final(e)) == ms_root(elem_view(*old(e))),
{
    let ghost e0 = elem_view(*e);
    let mut entries: Vec<(Option<String>, String)> = Vec::new();
    assert(entry_views(entries@) =~= Seq::<(Option<Seq<char>>, Seq<char>)>::empty());
    collect_entries(e, &mut entries);
    assert(entry_views(entries@) =~= tree_entries(nodes_view(e.children@)));
    assert(entry_views(entries@).len() == entries@.len());
    if entries.len() > 1 {
        let style = merged_style_element(&entries);
        let ghost m = Some(merged_style(entry_views(entries@)));
        assert(merge_target(e0) == m);
        let mut slot = Some(style);
        rewrite_children(e, true, &mut slot, Ghost(m));
    } else {
        assert(merge_target(e0) is None);
        let mut slot: Option<Element> = None;
        rewrite_children(e, false, &mut slot, Ghost(None));
    }
    assert(elem_view(*e) =~= ms_root(e0));
}

impl Plugin for MergeStylesPlugin {
    fn name(&self) -> (r: &'static str)
        ensures
            r@ == "mergeStyles"@,
    {
        "mergeStyles"
    }

    fn description(&self) -> (r: &'static str)
        ensures
            r@ == "Merge multiple <style> elements into one"@,
    {
        "Merge multiple <style> elements into one"
    }

    fn apply(&mut self, document: &mut Document, plugin_info: &PluginInfo, params: Option<&Value>) -> (r: PluginResult<()>)
        ensures
            r is Ok,
            elem_view(final(document).root) == ms_root(elem_view(old(document).root)),
            final(document).prologue == old(document).prologue,
            final(document).epilogue == old(document).epilogue,
            final(document).metadata == old(document).metadata,
    {
        merge_styles(&mut document.root);
        Ok(())
    }
}

} // verus!
