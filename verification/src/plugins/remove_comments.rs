//! Removes comments; comments that begin with `!` (legal comments) are kept
//! unless asked otherwise.

use vstd::prelude::*;
use crate::ast::{Document, Element, ElementView, Node, NodeView, elem_view, nodes_view, node_view,
    lemma_nodes_view, lemma_nodes_view_push};
use crate::plugin::{Plugin, PluginInfo, PluginResult};
use crate::strings::{trim, trim_start, to_chars, trim_chars, is_whitespace};
use crate::value::{Value, opt_value, param_bool, get_bool_param};

verus! {

/// The plugin that removes comments.
pub struct RemoveCommentsPlugin;

/// Whether a comment is a legal comment: its first non-blank character is
/// `!`.
pub open spec fn is_legal_spec(c: Seq<char>) -> bool {
    trim_start(c).len() > 0 && trim_start(c)[0] == '!'
}

/// Whether the node is kept: every node but a comment, and a legal comment
/// when legal comments are preserved.
pub open spec fn keep_spec(n: NodeView, preserve: bool) -> bool {
    match n {
        NodeView::Comment(c) => preserve && is_legal_spec(c),
        _ => true,
    }
}

pub open spec fn drop_comments(s: Seq<NodeView>, preserve: bool) -> Seq<NodeView>
    decreases s.len(),
{
    if s.len() == 0 {
        s
    } else if keep_spec(s.last(), preserve) {
        drop_comments(s.drop_last(), preserve).push(s.last())
    } else {
        drop_comments(s.drop_last(), preserve)
    }
}

/// Whether the node is white-space text.
pub open spec fn is_blank_text(n: NodeView) -> bool {
    match n {
        NodeView::Text(t) => trim(t).len() == 0,
        _ => false,
    }
}

/// Whether the node is text with something besides white space.
pub open spec fn is_meaningful_text(n: NodeView) -> bool {
    match n {
        NodeView::Text(t) => trim(t).len() != 0,
        _ => false,
    }
}

pub open spec fn drop_blank(s: Seq<NodeView>) -> Seq<NodeView>
    decreases s.len(),
{
    if s.len() == 0 {
        s
    } else if is_blank_text(s.last()) {
        drop_blank(s.drop_last())
    } else {
        drop_blank(s.drop_last()).push(s.last())
    }
}

/// The children after the comments are gone: white-space text is dropped
/// too when element children remain and no text with content does.
pub open spec fn tidy(s: Seq<NodeView>) -> Seq<NodeView> {
    if (exists|i: int| 0 <= i < s.len() && s[i] is Element)
        && !(exists|i: int| 0 <= i < s.len() && is_meaningful_text(#[trigger] s[i])) {
        drop_blank(s)
    } else {
        s
    }
}

/// The element after the plugin.
pub open spec fn rc_elem(e: ElementView, preserve: bool) -> ElementView
    decreases e,
{
    ElementView {
        name: e.name,
        attrs: e.attrs,
        children: tidy(drop_comments(rc_children(e.children, preserve), preserve)),
        ns: e.ns,
    }
}

pub open spec fn rc_children(s: Seq<NodeView>, preserve: bool) -> Seq<NodeView>
    decreases s,
{
    if s.len() == 0 {
        Seq::empty()
    } else {
        let pre = rc_children(s.drop_last(), preserve);
        match s.last() {
            NodeView::Element(c) => pre.push(NodeView::Element(rc_elem(c, preserve))),
            other => pre.push(other),
        }
    }
}

/// Whether a comment is a legal comment.
pub fn is_legal_comment(comment: &str) -> (r: bool)
    ensures
        r == is_legal_spec(comment@),
{
    let cs = to_chars(comment);
    let n = cs.len();
    let mut i: usize = 0;
    assert(cs@.subrange(0, n as int) =~= cs@);
    while i < n && is_whitespace(cs[i])
        invariant
            n == cs@.len(), i <= n, cs@ == comment@,
            trim_start(cs@) == trim_start(cs@.subrange(i as int, n as int)),
        decreases n - i,
    {
        proof { crate::strings::lemma_trim_start_sub(cs@, i as int); }
        i = i + 1;
    }
    proof {
        assert(cs@.subrange(0, n as int) =~= cs@);
    }
    if i < n {
        assert(trim_start(cs@.subrange(i as int, n as int)) == cs@.subrange(i as int, n as int));
        cs[i] == '!'
    } else {
        assert(cs@.subrange(i as int, n as int).len() == 0);
        false
    }
}

fn keep_node(n: &Node, preserve: bool) -> (r: bool)
    ensures
        r == keep_spec(node_view(*n), preserve),
{
    match n {
        Node::Comment(c) => preserve && is_legal_comment(c.as_str()),
        _ => true,
    }
}

fn text_len_trimmed(t: &String) -> (r: usize)
    ensures
        r == trim(t@).len(),
{
    let cs = to_chars(t.as_str());
    let tr = trim_chars(cs.as_slice());
    tr.len()
}

/// Drops the comments that are not kept.
pub fn filter_comments(v: &mut Vec<Node>, preserve: bool)
    ensures
        nodes_view(final(v)@) == drop_comments(nodes_view(old(v)@), preserve),
{
    let mut old_v: Vec<Node> = Vec::new();
    std::mem::swap(&mut old_v, v);
    let ghost orig = old_v@;
    let n = old_v.len();
    let mut i: usize = 0;
    proof { lemma_nodes_view(orig); }
    while i < n
        invariant
            n == orig.len(), i <= n,
            old_v@ == orig.subrange(i as int, n as int),
            nodes_view(orig).len() == n,
            forall|j: int| 0 <= j < n ==> #[trigger] nodes_view(orig)[j] == node_view(orig[j]),
            nodes_view(v@) == drop_comments(nodes_view(orig).take(i as int), preserve),
        decreases n - i,
    {
        let child = old_v.remove(0);
        assert(child == orig[i as int]);
        assert(nodes_view(orig).take(i + 1).drop_last() =~= nodes_view(orig).take(i as int));
        if keep_node(&child, preserve) {
            proof { lemma_nodes_view_push(v@, child); }
            v.push(child);
        }
        i = i + 1;
    }
    assert(nodes_view(orig).take(n as int) =~= nodes_view(orig));
}

fn tidy_children(v: &mut Vec<Node>)
    ensures
        nodes_view(final(v)@) == tidy(nodes_view(old(v)@)),
{
    let ghost s = nodes_view(v@);
    proof { lemma_nodes_view(v@); }
    let mut has_el = false;
    let mut has_text = false;
    let mut i: usize = 0;
    while i < v.len()
        invariant
            i <= v@.len(), s == nodes_view(v@), s.len() == v@.len(),
            forall|j: int| 0 <= j < v@.len() ==> #[trigger] s[j] == node_view(v@[j]),
            has_el == exists|j: int| 0 <= j < i && s[j] is Element,
            has_text == exists|j: int| 0 <= j < i && is_meaningful_text(#[trigger] s[j]),
        decreases v.len() - i,
    {
        match &v[i] {
            Node::Element(_) => {
                has_el = true;
            },
            Node::Text(t) => {
                if text_len_trimmed(t) != 0 {
                    has_text = true;
                }
            },
            _ => {},
        }
        assert(s[i as int] == node_view(v@[i as int]));
        i = i + 1;
    }
    if has_el && !has_text {
        let mut old_v: Vec<Node> = Vec::new();
        std::mem::swap(&mut old_v, v);
        let ghost orig = old_v@;
        let n = old_v.len();
        let mut k: usize = 0;
        while k < n
            invariant
                n == orig.len(), k <= n, s == nodes_view(orig), s.len() == n,
                old_v@ == orig.subrange(k as int, n as int),
                forall|j: int| 0 <= j < n ==> #[trigger] s[j] == node_view(orig[j]),
                nodes_view(v@) == drop_blank(s.take(k as int)),
            decreases n - k,
        {
            let child = old_v.remove(0);
            assert(child == orig[k as int]);
            assert(s.take(k + 1).drop_last() =~= s.take(k as int));
            let blank = match &child {
                Node::Text(t) => text_len_trimmed(t) == 0,
                _ => false,
            };
            assert(blank == is_blank_text(s[k as int]));
            if !blank {
                proof { lemma_nodes_view_push(v@, child); }
                v.push(child);
            }
            k = k + 1;
        }
        assert(s.take(n as int) =~= s);
    }
}

fn remove_comments_from_node(e: &mut Element, preserve: bool)
    ensures
        elem_view(*final(e)) == rc_elem(elem_view(*old(e)), preserve),
    decreases *old(e),
{
    let mut old_children: Vec<Node> = Vec::new();
    std::mem::swap(&mut old_children, &mut e.children);
    let ghost orig = old_children@;
    let mut out: Vec<Node> = Vec::new();
    let n = old_children.len();
    let mut i: usize = 0;
    proof { lemma_nodes_view(orig); }
    while i < n
        invariant
            n == orig.len(), i <= n,
            old_children@ == orig.subrange(i as int, n as int),
            nodes_view(orig).len() == n,
            forall|j: int| 0 <= j < n ==> #[trigger] nodes_view(orig)[j] == node_view(orig[j]),
            nodes_view(out@) == rc_children(nodes_view(orig).take(i as int), preserve),
            forall|j: int| 0 <= j < n ==> decreases_to!(*old(e) => #[trigger] orig[j]),
        decreases n - i,
    {
        let child = old_children.remove(0);
        assert(child == orig[i as int]);
        assert(nodes_view(orig).take(i + 1).drop_last() =~= nodes_view(orig).take(i as int));
        match child {
            Node::Element(mut ce) => {
                remove_comments_from_node(&mut ce, preserve);
                proof { lemma_nodes_view_push(out@, Node::Element(ce)); }
                out.push(Node::Element(ce));
            },
            other => {
                proof { lemma_nodes_view_push(out@, other); }
                out.push(other);
            },
        }
        i = i + 1;
    }
    assert(nodes_view(orig).take(n as int) =~= nodes_view(orig));
    filter_comments(&mut out, preserve);
    tidy_children(&mut out);
    e.children = out;
}

impl Plugin for RemoveCommentsPlugin {
    fn name(&self) -> (r: &'static str)
        ensures
            r@ == "removeComments"@,
    {
        "removeComments"
    }

    fn description(&self) -> (r: &'static str)
        ensures
            r@ == "Remove comments from SVG document"@,
    {
        "Remove comments from SVG document"
    }

    fn apply(&mut self, document: &mut Document, plugin_info: &PluginInfo, params: Option<&Value>) -> (r: PluginResult<()>)
        ensures
            r is Ok,
            nodes_view(final(document).prologue@) == drop_comments(nodes_view(old(document).prologue@),
                param_bool(opt_value(params), "preservePatterns"@, true)),
            elem_view(final(document).root) == rc_elem(elem_view(old(document).root),
                param_bool(opt_value(params), "preservePatterns"@, true)),
            nodes_view(final(document).epilogue@) == drop_comments(nodes_view(old(document).epilogue@),
                param_bool(opt_value(params), "preservePatterns"@, true)),
            final(document).metadata == old(document).metadata,
    {
        let preserve = get_bool_param(params, "preservePatterns", true);
        filter_comments(&mut document.prologue, preserve);
        remove_comments_from_node(&mut document.root, preserve);
        filter_comments(&mut document.epilogue, preserve);
        Ok(())
    }
}

} // verus!
