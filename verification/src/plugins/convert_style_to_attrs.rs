//! Moves the declarations of a `style` attribute that are presentation
//! attributes onto the element as attributes.

use vstd::prelude::*;
use crate::ast::{Document, Element, ElementView, Node, NodeView, attr_entries, elem_view, entry_index,
    entry_insert, entry_lookup, entry_remove, lemma_nodes_view, lemma_nodes_view_push, node_view, nodes_view};
use crate::pattern::{opt_pair_views, regex_group_pairs, regex_group_pairs_result};
use crate::plugin::{Plugin, PluginInfo, PluginResult};
use crate::strings::{contains_string, join, join_strings, owned, str_seq, trim, trim_str};
use crate::value::Value;

verus! {

/// The plugin that turns style declarations into presentation attributes.
pub struct ConvertStyleToAttrsPlugin;

/// The presentation attributes.
pub open spec fn presentation_attrs() -> Seq<Seq<char>> {
    seq![
        "alignment-baseline"@,
        "baseline-shift"@,
        "clip-path"@,
        "clip-rule"@,
        "clip"@,
        "color-interpolation-filters"@,
        "color-interpolation"@,
        "color-profile"@,
        "color-rendering"@,
        "color"@,
        "cursor"@,
        "direction"@,
        "display"@,
        "dominant-baseline"@,
        "enable-background"@,
        "fill-opacity"@,
        "fill-rule"@,
        "fill"@,
        "filter"@,
        "flood-color"@,
        "flood-opacity"@,
        "font-family"@,
        "font-size-adjust"@,
        "font-size"@,
        "font-stretch"@,
        "font-style"@,
        "font-variant"@,
        "font-weight"@,
        "glyph-orientation-horizontal"@,
        "glyph-orientation-vertical"@,
        "image-rendering"@,
        "letter-spacing"@,
        "lighting-color"@,
        "marker-end"@,
        "marker-mid"@,
        "marker-start"@,
        "mask"@,
        "opacity"@,
        "overflow"@,
        "paint-order"@,
        "pointer-events"@,
        "shape-rendering"@,
        "stop-color"@,
        "stop-opacity"@,
        "stroke-dasharray"@,
        "stroke-dashoffset"@,
        "stroke-linecap"@,
        "stroke-linejoin"@,
        "stroke-miterlimit"@,
        "stroke-opacity"@,
        "stroke-width"@,
        "stroke"@,
        "text-anchor"@,
        "text-decoration"@,
        "text-overflow"@,
        "text-rendering"@,
        "transform"@,
        "transform-origin"@,
        "unicode-bidi"@,
        "vector-effect"@,
        "visibility"@,
        "word-spacing"@,
        "writing-mode"@
    ]
}

/// The pattern of one declaration of a `style` value (or of a comment).
pub open spec fn declaration_pattern() -> Seq<char> {
    r#"(?x)
        (?:
            /\*[\s\S]*?\*/  # CSS comments
            |
            (?:
                ([-\w]+)  # property name
                \s*:\s*
                (
                    (?:
                        /\*[\s\S]*?\*/  # inline comments
                        |
                        '(?:[^'\\]|\\.)*'  # single-quoted strings
                        |
                        "(?:[^"\\]|\\.)*"  # double-quoted strings
                        |
                        [^;'"/]  # any other character
                    )+
                )
            )
            \s*(?:;|$)  # declaration end
        )
        "#@
}

/// The declarations of a `style` value, as trimmed property and value, in
/// order: each match of `declaration_pattern` in which both groups took
/// part.
pub open spec fn style_decls(style: Seq<char>) -> Seq<(Seq<char>, Seq<char>)> {
    match regex_group_pairs_result(declaration_pattern(), style) {
        Some(m) => decls_of(m),
        None => Seq::empty(),
    }
}

pub open spec fn decls_of(m: Seq<(Option<Seq<char>>, Option<Seq<char>>)>) -> Seq<(Seq<char>, Seq<char>)>
    decreases m.len(),
{
    if m.len() == 0 {
        Seq::empty()
    } else {
        match m.last() {
            (Some(p), Some(v)) => decls_of(m.drop_last()).push((trim(p), trim(v))),
            _ => decls_of(m.drop_last()),
        }
    }
}

/// A declaration written back as `property: value`.
pub open spec fn decl_text(p: Seq<char>, v: Seq<char>) -> Seq<char> {
    p + seq![':', ' '] + v
}

/// The declarations split into the attributes to add (presentation
/// attributes that the element lacks) and the declarations that stay in
/// the style, both in order.
pub open spec fn split_decls(d: Seq<(Seq<char>, Seq<char>)>, a: Seq<(Seq<char>, Seq<char>)>)
    -> (Seq<(Seq<char>, Seq<char>)>, Seq<Seq<char>>)
    decreases d.len(),
{
    if d.len() == 0 {
        (Seq::empty(), Seq::empty())
    } else {
        let pre = split_decls(d.drop_last(), a);
        let (p, v) = d.last();
        if presentation_attrs().contains(p) && entry_index(a, p) < 0 {
            (pre.0.push((p, v)), pre.1)
        } else {
            (pre.0, pre.1.push(decl_text(p, v)))
        }
    }
}

/// The attributes after the pairs are stored one by one.
pub open spec fn insert_all(a: Seq<(Seq<char>, Seq<char>)>, n: Seq<(Seq<char>, Seq<char>)>) -> Seq<(Seq<char>, Seq<char>)>
    decreases n.len(),
{
    if n.len() == 0 {
        a
    } else {
        entry_insert(insert_all(a, n.drop_last()), n.last().0, n.last().1)
    }
}

/// An element's attributes after the plugin: the presentation attributes
/// of its style that it lacks are added; the other declarations stay in
/// the style, joined with `; `, and an empty style goes.
pub open spec fn styled_attrs(a: Seq<(Seq<char>, Seq<char>)>) -> Seq<(Seq<char>, Seq<char>)> {
    match entry_lookup(a, "style"@) {
        None => a,
        Some(st) => {
            let parts = split_decls(style_decls(st), a);
            let a1 = insert_all(a, parts.0);
            if parts.1.len() == 0 {
                entry_remove(a1, "style"@)
            } else {
                entry_insert(a1, "style"@, join(parts.1, seq![';', ' ']))
            }
        },
    }
}

/// An element and its descendants after the plugin.
pub open spec fn converted_elem(e: ElementView) -> ElementView
    decreases e,
{
    ElementView { name: e.name, attrs: styled_attrs(e.attrs), children: converted_children(e.children), ns: e.ns }
}

pub open spec fn converted_children(s: Seq<NodeView>) -> Seq<NodeView>
    decreases s,
{
    if s.len() == 0 {
        Seq::empty()
    } else {
        converted_children(s.drop_last()).push(match s.last() {
            NodeView::Element(c) => NodeView::Element(converted_elem(c)),
            other => other,
        })
    }
}

fn is_presentation_attr(n: &str) -> (r: bool)
    ensures
        r == presentation_attrs().contains(n@),
{
    let mut names: Vec<String> = Vec::new();
    names.push(owned("alignment-baseline"));
    names.push(owned("baseline-shift"));
    names.push(owned("clip-path"));
    names.push(owned("clip-rule"));
    names.push(owned("clip"));
    names.push(owned("color-interpolation-filters"));
    names.push(owned("color-interpolation"));
    names.push(owned("color-profile"));
    names.push(owned("color-rendering"));
    names.push(owned("color"));
    names.push(owned("cursor"));
    names.push(owned("direction"));
    names.push(owned("display"));
    names.push(owned("dominant-baseline"));
    names.push(owned("enable-background"));
    names.push(owned("fill-opacity"));
    names.push(owned("fill-rule"));
    names.push(owned("fill"));
    names.push(owned("filter"));
    names.push(owned("flood-color"));
    names.push(owned("flood-opacity"));
    names.push(owned("font-family"));
    names.push(owned("font-size-adjust"));
    names.push(owned("font-size"));
    names.push(owned("font-stretch"));
    names.push(owned("font-style"));
    names.push(owned("font-variant"));
    names.push(owned("font-weight"));
    names.push(owned("glyph-orientation-horizontal"));
    names.push(owned("glyph-orientation-vertical"));
    names.push(owned("image-rendering"));
    names.push(owned("letter-spacing"));
    names.push(owned("lighting-color"));
    names.push(owned("marker-end"));
    names.push(owned("marker-mid"));
    names.push(owned("marker-start"));
    names.push(owned("mask"));
    names.push(owned("opacity"));
    names.push(owned("overflow"));
    names.push(owned("paint-order"));
    names.push(owned("pointer-events"));
    names.push(owned("shape-rendering"));
    names.push(owned("stop-color"));
    names.push(owned("stop-opacity"));
    names.push(owned("stroke-dasharray"));
    names.push(owned("stroke-dashoffset"));
    names.push(owned("stroke-linecap"));
    names.push(owned("stroke-linejoin"));
    names.push(owned("stroke-miterlimit"));
    names.push(owned("stroke-opacity"));
    names.push(owned("stroke-width"));
    names.push(owned("stroke"));
    names.push(owned("text-anchor"));
    names.push(owned("text-decoration"));
    names.push(owned("text-overflow"));
    names.push(owned("text-rendering"));
    names.push(owned("transform"));
    names.push(owned("transform-origin"));
    names.push(owned("unicode-bidi"));
    names.push(owned("vector-effect"));
    names.push(owned("visibility"));
    names.push(owned("word-spacing"));
    names.push(owned("writing-mode"));
    assert(names@.map_values(|s: String| s@) =~= presentation_attrs());
    contains_string(&names, n)
}

/// The declarations of a `style` value.
pub fn parse_declarations(style: &str) -> (r: Vec<(String, String)>)
    ensures
        crate::ast::pair_views(r@) == style_decls(style@),
{
    let mut out: Vec<(String, String)> = Vec::new();
    match regex_group_pairs(r#"(?x)
        (?:
            /\*[\s\S]*?\*/  # CSS comments
            |
            (?:
                ([-\w]+)  # property name
                \s*:\s*
                (
                    (?:
                        /\*[\s\S]*?\*/  # inline comments
                        |
                        '(?:[^'\\]|\\.)*'  # single-quoted strings
                        |
                        "(?:[^"\\]|\\.)*"  # double-quoted strings
                        |
                        [^;'"/]  # any other character
                    )+
                )
            )
            \s*(?:;|$)  # declaration end
        )
        "#, style) {
        Some(m) => {
            let ghost mv = opt_pair_views(m@);
            let mut i: usize = 0;
            assert(mv.take(0) =~= Seq::<(Option<Seq<char>>, Option<Seq<char>>)>::empty());
            assert(crate::ast::pair_views(out@) =~= Seq::<(Seq<char>, Seq<char>)>::empty());
            while i < m.len()
                invariant
                    i <= m@.len(), mv == opt_pair_views(m@),
                    crate::ast::pair_views(out@) == decls_of(mv.take(i as int)),
                decreases m.len() - i,
            {
                assert(mv.take(i + 1).drop_last() =~= mv.take(i as int));
                assert(mv.take(i + 1).last() == mv[i as int]);
                match (&m[i].0, &m[i].1) {
                    (Some(p), Some(v)) => {
                        let ghost before = out@;
                        out.push((trim_str(p.as_str()), trim_str(v.as_str())));
                        assert(crate::ast::pair_views(out@) =~= crate::ast::pair_views(before).push((trim(p@), trim(v@))));
                    },
                    _ => {},
                }
                i = i + 1;
            }
            assert(mv.take(m@.len() as int) =~= mv);
        },
        None => {
            assert(crate::ast::pair_views(out@) =~= Seq::<(Seq<char>, Seq<char>)>::empty());
        },
    }
    out
}

fn decl_text_of(p: &str, v: &str) -> (r: String)
    ensures
        r@ == decl_text(p@, v@),
{
    let mut s = owned(p);
    s.append(": ");
    s.append(v);
    proof {
        reveal_strlit(": ");
        assert(s@ =~= decl_text(p@, v@));
    }
    s
}

/// Moves the presentation attributes of the element's style onto it, as
/// `styled_attrs` says.
pub fn convert_style(element: &mut Element)
    ensures
        attr_entries(final(element).attributes) == styled_attrs(attr_entries(old(element).attributes)),
        final(element).name == old(element).name,
        final(element).children == old(element).children,
        final(element).namespaces == old(element).namespaces,
{
    let ghost a = attr_entries(element.attributes);
    let style_value: Option<String> = match element.attr("style") {
        Some(s) => Some(s.clone()),
        None => None,
    };
    match style_value {
        None => {},
        Some(st) => {
            let decls = parse_declarations(st.as_str());
            let ghost d = crate::ast::pair_views(decls@);
            let mut new_attrs: Vec<(String, String)> = Vec::new();
            let mut remaining: Vec<String> = Vec::new();
            let mut i: usize = 0;
            assert(d.take(0) =~= Seq::<(Seq<char>, Seq<char>)>::empty());
            assert(crate::ast::pair_views(new_attrs@) =~= Seq::<(Seq<char>, Seq<char>)>::empty());
            assert(str_seq(remaining@) =~= Seq::<Seq<char>>::empty());
            while i < decls.len()
                invariant
                    i <= decls@.len(), d == crate::ast::pair_views(decls@),
                    a == attr_entries(element.attributes),
                    (crate::ast::pair_views(new_attrs@), str_seq(remaining@)) == split_decls(d.take(i as int), a),
                decreases decls.len() - i,
            {
                assert(d.take(i + 1).drop_last() =~= d.take(i as int));
                assert(d.take(i + 1).last() == d[i as int]);
                let p = decls[i].0.as_str();
                let v = decls[i].1.as_str();
                if is_presentation_attr(p) && !element.has_attr(p) {
                    let ghost before = new_attrs@;
                    new_attrs.push((decls[i].0.clone(), decls[i].1.clone()));
                    assert(crate::ast::pair_views(new_attrs@) =~= crate::ast::pair_views(before).push(d[i as int]));
                } else {
                    let ghost before = remaining@;
                    remaining.push(decl_text_of(p, v));
                    assert(str_seq(remaining@) =~= str_seq(before).push(decl_text(d[i as int].0, d[i as int].1)));
                }
                i = i + 1;
            }
            assert(d.take(d.len() as int) =~= d);
            let ghost n = crate::ast::pair_views(new_attrs@);
            let mut k: usize = 0;
            assert(n.take(0) =~= Seq::<(Seq<char>, Seq<char>)>::empty());
            while k < new_attrs.len()
                invariant
                    k <= new_attrs@.len(), n == crate::ast::pair_views(new_attrs@),
                    attr_entries(element.attributes) == insert_all(a, n.take(k as int)),
                    element.name == old(element).name, element.children == old(element).children,
                    element.namespaces == old(element).namespaces,
                decreases new_attrs.len() - k,
            {
                assert(n.take(k + 1).drop_last() =~= n.take(k as int));
                element.set_attr(new_attrs[k].0.clone(), new_attrs[k].1.clone());
                k = k + 1;
            }
            assert(n.take(n.len() as int) =~= n);
            if remaining.len() == 0 {
                element.remove_attr("style");
            } else {
                let joined = join_strings(&remaining, "; ");
                proof { reveal_strlit("; "); }
                assert("; "@ =~= seq![';', ' ']);
                element.set_attr(owned("style"), joined);
            }
        },
    }
}

/// Moves style declarations onto an element and its descendants, as
/// `converted_elem` says.
pub fn convert_styles(element: &mut Element)
    ensures
        elem_view(*final(element)) == converted_elem(elem_view(*old(element))),
    decreases *old(element),
{
    let ghost ev = elem_view(*element);
    convert_style(element);
    let mut kids: Vec<Node> = Vec::new();
    std::mem::swap(&mut kids, &mut element.children);
    let ghost orig = kids@;
    proof { lemma_nodes_view(orig); }
    let n = kids.len();
    let mut out: Vec<Node> = Vec::new();
    let mut i: usize = 0;
    assert(nodes_view(out@) =~= Seq::<NodeView>::empty());
    while i < n
        invariant
            n == orig.len(), i <= n,
            kids@ == orig.subrange(i as int, n as int),
            nodes_view(orig) == ev.children, nodes_view(orig).len() == n,
            forall|k: int| 0 <= k < n ==> #[trigger] nodes_view(orig)[k] == node_view(orig[k]),
            nodes_view(out@) == converted_children(nodes_view(orig).take(i as int)),
            forall|k: int| 0 <= k < n ==> decreases_to!(*old(element) => #[trigger] orig[k]),
        decreases n - i,
    {
        let child = kids.remove(0);
        assert(child == orig[i as int]);
        assert(nodes_view(orig).take(i + 1).drop_last() =~= nodes_view(orig).take(i as int));
        match child {
            Node::Element(mut ce) => {
                convert_styles(&mut ce);
                proof { lemma_nodes_view_push(out@, Node::Element(ce)); }
                out.push(Node::Element(ce));
            },
            other => {
                proof { lemma_nodes_view_push(out@, other); }
                out.push(other);
            },
        }
        i = i + 1;
    }
    assert(nodes_view(orig).take(n as int) =~= nodes_view(orig));
    element.children = out;
}

impl Plugin for ConvertStyleToAttrsPlugin {
    fn name(&self) -> (r: &'static str)
        ensures
            r@ == "convertStyleToAttrs"@,
    {
        "convertStyleToAttrs"
    }

    fn description(&self) -> (r: &'static str)
        ensures
            r@ == "Convert inline styles to SVG presentation attributes"@,
    {
        "Convert inline styles to SVG presentation attributes"
    }

    fn apply(&mut self, document: &mut Document, plugin_info: &PluginInfo, params: Option<&Value>) -> (r: PluginResult<()>)
        ensures
            r is Ok,
            elem_view(final(document).root) == converted_elem(elem_view(old(document).root)),
            final(document).prologue == old(document).prologue,
            final(document).epilogue == old(document).epilogue,
            final(document).metadata == old(document).metadata,
    {
        convert_styles(&mut document.root);
        Ok(())
    }
}

} // verus!
