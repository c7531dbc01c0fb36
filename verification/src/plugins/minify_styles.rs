//! Minifies CSS in `<style>` elements and `style` attributes: comments go
//! (unless kept), white space shrinks, and no semicolon stays before a
//! closing brace or at the end.

use vstd::prelude::*;
use crate::ast::{Document, Element, ElementView, Node, NodeView, attr_entries, elem_view, entry_insert,
    entry_lookup, lemma_nodes_view, lemma_nodes_view_push, node_view, nodes_view};
use crate::pattern::{replace_or_keep, replaced_or_same};
use crate::plugin::{Plugin, PluginInfo, PluginResult};
use crate::strings::{chars_until, owned, str_eq, to_chars, trim, trim_chars, trim_str};
use crate::value::{Value, get_bool_param, opt_value, param_bool};

verus! {

/// The plugin that minifies CSS.
pub struct MinifyStylesPlugin;

/// A CSS comment.
pub open spec fn css_comment_pattern() -> Seq<char> {
    "/\\*[^*]*\\*+(?:[^/*][^*]*\\*+)*/"@
}

/// A run of white space.
pub open spec fn css_whitespace_pattern() -> Seq<char> {
    "\\s+"@
}

/// A semicolon before a closing brace.
pub open spec fn css_semicolon_pattern() -> Seq<char> {
    ";\\s*}"@
}

/// A semicolon at the end.
pub open spec fn css_trailing_semicolon_pattern() -> Seq<char> {
    ";\\s*$"@
}

/// White space after a colon.
pub open spec fn css_colon_space_pattern() -> Seq<char> {
    ":\\s+"@
}

/// White space around a punctuation character of CSS.
pub open spec fn css_bracket_space_pattern() -> Seq<char> {
    "\\s*([{}:;,>+~])\\s*"@
}

/// The minified CSS: each replacement in turn, then trimmed.
pub open spec fn minified_css(css: Seq<char>, remove_comments: bool) -> Seq<char> {
    let s0 = if remove_comments { replaced_or_same(css_comment_pattern(), css, ""@) } else { css };
    let s1 = replaced_or_same(css_whitespace_pattern(), s0, " "@);
    let s2 = replaced_or_same(css_bracket_space_pattern(), s1, "$1"@);
    let s3 = replaced_or_same(css_colon_space_pattern(), s2, ":"@);
    let s4 = replaced_or_same(css_semicolon_pattern(), s3, "}"@);
    let s5 = replaced_or_same(css_trailing_semicolon_pattern(), s4, ""@);
    trim(s5)
}

/// The minified CSS of a `style` attribute: no semicolon at the end.
pub open spec fn minified_css_block(css: Seq<char>, remove_comments: bool) -> Seq<char> {
    let m = minified_css(css, remove_comments);
    if m.len() > 0 && m.last() == ';' { m.drop_last() } else { m }
}

/// Performs basic CSS minification.
pub fn minify_css(css: &str, remove_comments: bool) -> (r: String)
    ensures
        r@ == minified_css(css@, remove_comments),
{
    let s0 = if remove_comments {
        replace_or_keep("/\\*[^*]*\\*+(?:[^/*][^*]*\\*+)*/", css, "")
    } else {
        owned(css)
    };
    let s1 = replace_or_keep("\\s+", s0.as_str(), " ");
    let s2 = replace_or_keep("\\s*([{}:;,>+~])\\s*", s1.as_str(), "$1");
    let s3 = replace_or_keep(":\\s+", s2.as_str(), ":");
    let s4 = replace_or_keep(";\\s*}", s3.as_str(), "}");
    let s5 = replace_or_keep(";\\s*$", s4.as_str(), "");
    trim_str(s5.as_str())
}

/// Minifies the CSS of a `style` attribute.
pub fn minify_css_block(css: &str, remove_comments: bool) -> (r: String)
    ensures
        r@ == minified_css_block(css@, remove_comments),
{
    let m = minify_css(css, remove_comments);
    let cs = to_chars(m.as_str());
    let n = cs.len();
    if n > 0 && cs[n - 1] == ';' {
        chars_until(cs.as_slice(), n - 1)
    } else {
        m
    }
}

/// A text or CDATA child with its CSS minified; other nodes stay.
pub open spec fn minified_node(n: NodeView, rc: bool) -> NodeView {
    match n {
        NodeView::Text(t) => NodeView::Text(minified_css(t, rc)),
        NodeView::CData(t) => NodeView::CData(minified_css(t, rc)),
        other => other,
    }
}

pub open spec fn minified_nodes(s: Seq<NodeView>, rc: bool) -> Seq<NodeView>
    decreases s.len(),
{
    if s.len() == 0 {
        Seq::empty()
    } else {
        minified_nodes(s.drop_last(), rc).push(minified_node(s.last(), rc))
    }
}

/// Whether minifying changes some child.
pub open spec fn any_changed(s: Seq<NodeView>, rc: bool) -> bool
    decreases s.len(),
{
    if s.len() == 0 {
        false
    } else {
        any_changed(s.drop_last(), rc) || minified_node(s.last(), rc) != s.last()
    }
}

/// Whether a child holds no CSS: white-space text or CDATA, or another kind
/// of node.
pub open spec fn css_blank(n: NodeView) -> bool {
    match n {
        NodeView::Text(t) => trim(t).len() == 0,
        NodeView::CData(t) => trim(t).len() == 0,
        _ => true,
    }
}

pub open spec fn all_css_blank(s: Seq<NodeView>) -> bool
    decreases s.len(),
{
    if s.len() == 0 { true } else { all_css_blank(s.drop_last()) && css_blank(s.last()) }
}

/// The children of a `<style>` element after minifying: none when some
/// changed and all are then blank.
pub open spec fn style_children(s: Seq<NodeView>, rc: bool) -> Seq<NodeView> {
    let m = minified_nodes(s, rc);
    if any_changed(s, rc) && all_css_blank(m) { Seq::empty() } else { m }
}

/// The element after the plugin: descendants first, then the contents of a
/// `<style>` element, then a `style` attribute.
pub open spec fn ms_elem(e: ElementView, rc: bool) -> ElementView
    decreases e,
{
    let c = ms_children(e.children, rc);
    ElementView {
        name: e.name,
        attrs: match entry_lookup(e.attrs, "style"@) {
            Some(v) => entry_insert(e.attrs, "style"@, minified_css_block(v, rc)),
            None => e.attrs,
        },
        children: if e.name == "style"@ { style_children(c, rc) } else { c },
        ns: e.ns,
    }
}

pub open spec fn ms_children(s: Seq<NodeView>, rc: bool) -> Seq<NodeView>
    decreases s,
{
    if s.len() == 0 {
        Seq::empty()
    } else {
        let pre = ms_children(s.drop_last(), rc);
        match s.last() {
            NodeView::Element(c) => pre.push(NodeView::Element(ms_elem(c, rc))),
            other => pre.push(other),
        }
    }
}

fn is_blank_css(t: &str) -> (r: bool)
    ensures
        r == (trim(t@).len() == 0),
{
    let cs = to_chars(t);
    trim_chars(cs.as_slice()).len() == 0
}

/// Minifies the CSS held by the children of a `<style>` element.
pub fn minify_style_element_content(element: &mut Element, rc: bool)
    ensures
        nodes_view(final(element).children@) == style_children(nodes_view(old(element).children@), rc),
        final(element).name == old(element).name,
        final(element).attributes == old(element).attributes,
        final(element).namespaces == old(element).namespaces,
{
    let mut old_children: Vec<Node> = Vec::new();
    std::mem::swap(&mut old_children, &mut element.children);
    let ghost orig = old_children@;
    let ghost ov = nodes_view(orig);
    let mut out: Vec<Node> = Vec::new();
    let mut changed = false;
    let mut blank = true;
    let n = old_children.len();
    let mut i: usize = 0;
    proof { lemma_nodes_view(orig); }
    while i < n
        invariant
            n == orig.len(), i <= n,
            ov == nodes_view(orig),
            orig == old(element).children@,
            old_children@ == orig.subrange(i as int, n as int),
            ov.len() == n,
            forall|j: int| 0 <= j < n ==> #[trigger] ov[j] == node_view(orig[j]),
            nodes_view(out@) == minified_nodes(ov.take(i as int), rc),
            changed == any_changed(ov.take(i as int), rc),
            blank == all_css_blank(minified_nodes(ov.take(i as int), rc)),
            element.name == old(element).name,
            element.attributes == old(element).attributes,
            element.namespaces == old(element).namespaces,
        decreases n - i,
    {
        let child = old_children.remove(0);
        assert(child == orig[i as int]);
        assert(ov.take(i + 1).drop_last() =~= ov.take(i as int));
        assert(ov.take(i + 1).last() == ov[i as int]);
        let next = match child {
            Node::Text(t) => {
                let m = minify_css(t.as_str(), rc);
                if !str_eq(m.as_str(), t.as_str()) {
                    changed = true;
                }
                if !is_blank_css(m.as_str()) {
                    blank = false;
                }
                Node::Text(m)
            },
            Node::CData(t) => {
                let m = minify_css(t.as_str(), rc);
                if !str_eq(m.as_str(), t.as_str()) {
                    changed = true;
                }
                if !is_blank_css(m.as_str()) {
                    blank = false;
                }
                Node::CData(m)
            },
            other => other,
        };
        proof {
            lemma_nodes_view_push(out@, next);
            let mp = minified_nodes(ov.take(i + 1), rc);
            assert(mp.drop_last() =~= minified_nodes(ov.take(i as int), rc));
            assert(mp.last() == minified_node(ov[i as int], rc));
        }
        out.push(next);
        i = i + 1;
    }
    assert(ov.take(n as int) =~= ov);
    if !(changed && blank) {
        element.children = out;
    }
    assert(nodes_view(element.children@) == style_children(ov, rc)) by {
        if changed && blank {
            assert(nodes_view(element.children@) =~= Seq::<NodeView>::empty());
        }
    }
}

/// Minifies the value of a `style` attribute, if there is one.
fn minify_style_attr(element: &mut Element, rc: bool)
    ensures
        attr_entries(final(element).attributes) == (match entry_lookup(attr_entries(old(element).attributes), "style"@) {
            Some(v) => entry_insert(attr_entries(old(element).attributes), "style"@, minified_css_block(v, rc)),
            None => attr_entries(old(element).attributes),
        }),
        final(element).name == old(element).name,
        final(element).children == old(element).children,
        final(element).namespaces == old(element).namespaces,
{
    let minified = match element.attr("style") {
        Some(v) => Some(minify_css_block(v.as_str(), rc)),
        None => None,
    };
    match minified {
        Some(m) => element.set_attr(owned("style"), m),
        None => {},
    }
}

pub fn minify_styles_in_element(e: &mut Element, rc: bool)
    ensures
        elem_view(*final(e)) == ms_elem(elem_view(*old(e)), rc),
    decreases *old(e),
{
    let mut old_children: Vec<Node> = Vec::new();
    std::mem::swap(&mut old_children, &mut e.children);
    let ghost orig = old_children@;
    let mut out: Vec<Node> = Vec::new();
    let n = old_children.len();
    let mut i: usize = 0;
    proof { lemma_nodes_view(orig); }
    while i < n
        invariant
            n == orig.len(), i <= n,
            orig == old(e).children@,
            old_children@ == orig.subrange(i as int, n as int),
            nodes_view(orig).len() == n,
            forall|j: int| 0 <= j < n ==> #[trigger] nodes_view(orig)[j] == node_view(orig[j]),
            nodes_view(out@) == ms_children(nodes_view(orig).take(i as int), rc),
            forall|j: int| 0 <= j < n ==> decreases_to!(*old(e) => #[trigger] orig[j]),
            e.name == old(e).name,
            e.attributes == old(e).attributes,
            e.namespaces == old(e).namespaces,
        decreases n - i,
    {
        let child = old_children.remove(0);
        assert(child == orig[i as int]);
        assert(nodes_view(orig).take(i + 1).drop_last() =~= nodes_view(orig).take(i as int));
        match child {
            Node::Element(mut ce) => {
                minify_styles_in_element(&mut ce, rc);
                proof { lemma_nodes_view_push(out@, Node::Element(ce)); }
                out.push(Node::Element(ce));
            },
            other => {
                proof { lemma_nodes_view_push(out@, other); }
                out.push(other);
            },
        }
        i = i + 1;
    }
    assert(nodes_view(orig).take(n as int) =~= nodes_view(orig));
    e.children = out;
    if str_eq(e.name.as_str(), "style") {
        minify_style_element_content(e, rc);
    }
    minify_style_attr(e, rc);
}

impl Plugin for MinifyStylesPlugin {
    fn name(&self) -> (r: &'static str)
        ensures
            r@ == "minifyStyles"@,
    {
        "minifyStyles"
    }

    fn description(&self) -> (r: &'static str)
        ensures
            r@ == "Minifies CSS in style elements and style attributes"@,
    {
        "Minifies CSS in style elements and style attributes"
    }

    fn apply(&mut self, document: &mut Document, plugin_info: &PluginInfo, params: Option<&Value>) -> (r: PluginResult<()>)
        ensures
            r is Ok,
            elem_view(final(document).root) == ms_elem(elem_view(old(document).root),
                param_bool(opt_value(params), "comments"@, true)),
            final(document).prologue == old(document).prologue,
            final(document).epilogue == old(document).epilogue,
            final(document).metadata == old(document).metadata,
    {
        let rc = get_bool_param(params, "comments", true);
        minify_styles_in_element(&mut document.root, rc);
        Ok(())
    }
}

} // verus!
