//! Removes the namespaces of editors (Inkscape, Sodipodi, Illustrator, ...)
//! with the elements and attributes that use them.

use vstd::prelude::*;
use crate::ast::{Document, Element, ElementView, Node, NodeView, attr_entries, attr_pairs, elem_view,
    entries_without, lemma_nodes_view, lemma_nodes_view_push, node_view, nodes_view};
use crate::plugin::{Plugin, PluginInfo, PluginResult};
use crate::plugins::remove_elements_by_attr::{object_member, strings_in};
use crate::strings::{char_index, chars_from, chars_until, contains_string, find_char, has_prefix, owned,
    str_eq, str_starts_with, to_chars};
use crate::value::{Value, opt_value};

verus! {

/// Which namespaces are removed besides those of the known editors.
#[derive(Debug)]
pub struct RemoveEditorsNSDataConfig {
    /// Additional namespaces to remove besides the default editor namespaces.
    pub additional_namespaces: Vec<String>,
}

impl Default for RemoveEditorsNSDataConfig {
    fn default() -> (r: RemoveEditorsNSDataConfig)
        ensures
            r.additional_namespaces@.len() == 0,
    {
        RemoveEditorsNSDataConfig { additional_namespaces: Vec::new() }
    }
}

/// The plugin that removes editors' namespaces.
pub struct RemoveEditorsNSDataPlugin;

/// The namespaces of known editors.
pub open spec fn editor_namespaces() -> Seq<Seq<char>> {
    seq![
        "http://creativecommons.org/ns#"@,
        "http://inkscape.sourceforge.net/DTD/sodipodi-0.dtd"@,
        "http://ns.adobe.com/AdobeIllustrator/10.0/"@,
        "http://ns.adobe.com/AdobeSVGViewerExtensions/3.0/"@,
        "http://ns.adobe.com/Extensibility/1.0/"@,
        "http://ns.adobe.com/Flows/1.0/"@,
        "http://ns.adobe.com/GenericCustomNamespace/1.0/"@,
        "http://ns.adobe.com/Graphs/1.0/"@,
        "http://ns.adobe.com/ImageReplacement/1.0/"@,
        "http://ns.adobe.com/SaveForWeb/1.0/"@,
        "http://ns.adobe.com/Variables/1.0/"@,
        "http://ns.adobe.com/XPath/1.0/"@,
        "http://purl.org/dc/elements/1.1/"@,
        "http://schemas.microsoft.com/visio/2003/SVGExtensions/"@,
        "http://sodipodi.sourceforge.net/DTD/sodipodi-0.dtd"@,
        "http://taptrix.com/vectorillustrator/svg_extensions"@,
        "http://www.bohemiancoding.com/sketch/ns"@,
        "http://www.figma.com/figma/ns"@,
        "http://www.inkscape.org/namespaces/inkscape"@,
        "http://www.serif.com/"@,
        "http://www.vector.evaxdesign.com/myNamespace"@,
        "http://www.w3.org/1999/02/22-rdf-syntax-ns#"@
    ]
}

/// Whether an attribute declares a namespace that is removed.
pub open spec fn declares_removed(entry: (Seq<char>, Seq<char>), extra: Seq<Seq<char>>) -> bool {
    has_prefix(entry.0, "xmlns:"@) && (editor_namespaces().contains(entry.1) || extra.contains(entry.1))
}

/// The names of the declarations of removed namespaces, in order.
pub open spec fn removed_declarations(a: Seq<(Seq<char>, Seq<char>)>, extra: Seq<Seq<char>>) -> Seq<Seq<char>>
    decreases a.len(),
{
    if a.len() == 0 {
        Seq::empty()
    } else if declares_removed(a.last(), extra) {
        removed_declarations(a.drop_last(), extra).push(a.last().0)
    } else {
        removed_declarations(a.drop_last(), extra)
    }
}

/// The prefixes those declarations bind, in order.
pub open spec fn declared_prefixes(a: Seq<(Seq<char>, Seq<char>)>, extra: Seq<Seq<char>>) -> Seq<Seq<char>> {
    removed_declarations(a, extra).map_values(|n: Seq<char>| n.skip(6))
}

/// The prefix of a qualified name: the text before its first colon.
pub open spec fn name_prefix(n: Seq<char>) -> Option<Seq<char>> {
    let i = char_index(n, ':');
    if i < 0 { None } else { Some(n.take(i)) }
}

/// Whether a name has one of the prefixes.
pub open spec fn has_editor_prefix(n: Seq<char>, prefixes: Seq<Seq<char>>) -> bool {
    match name_prefix(n) {
        Some(p) => prefixes.contains(p),
        None => false,
    }
}

/// The names of the attributes that have one of the prefixes, in order.
pub open spec fn prefixed_names(a: Seq<(Seq<char>, Seq<char>)>, prefixes: Seq<Seq<char>>) -> Seq<Seq<char>>
    decreases a.len(),
{
    if a.len() == 0 {
        Seq::empty()
    } else if has_editor_prefix(a.last().0, prefixes) {
        prefixed_names(a.drop_last(), prefixes).push(a.last().0)
    } else {
        prefixed_names(a.drop_last(), prefixes)
    }
}

/// The element after the plugin, and the prefixes in use after it: the
/// first `<svg>` met while none are known gives them (and loses the
/// declarations); attributes and child elements with a prefix go.
pub open spec fn red_elem(e: ElementView, p: Seq<Seq<char>>, extra: Seq<Seq<char>>) -> (ElementView, Seq<Seq<char>>)
    decreases e,
{
    let collect = e.name == "svg"@ && p.len() == 0;
    let a1 = if collect { entries_without(e.attrs, removed_declarations(e.attrs, extra)) } else { e.attrs };
    let p1 = if collect { declared_prefixes(e.attrs, extra) } else { p };
    let a2 = entries_without(a1, prefixed_names(a1, p1));
    let r = red_children(e.children, p1, extra);
    (ElementView { name: e.name, attrs: a2, children: r.0, ns: e.ns }, r.1)
}

pub open spec fn red_children(s: Seq<NodeView>, p: Seq<Seq<char>>, extra: Seq<Seq<char>>) -> (Seq<NodeView>, Seq<Seq<char>>)
    decreases s,
{
    if s.len() == 0 {
        (Seq::empty(), p)
    } else {
        let pre = red_children(s.drop_last(), p, extra);
        match s.last() {
            NodeView::Element(c) => if has_editor_prefix(c.name, pre.1) {
                pre
            } else {
                let r = red_elem(c, pre.1, extra);
                (pre.0.push(NodeView::Element(r.0)), r.1)
            },
            other => (pre.0.push(other), pre.1),
        }
    }
}

pub open spec fn str_views(v: Seq<String>) -> Seq<Seq<char>> {
    v.map_values(|s: String| s@)
}

/// The prefix of a name, before its first colon.
fn prefix_of(n: &str) -> (r: Option<String>)
    ensures
        match r {
            Some(p) => name_prefix(n@) == Some(p@),
            None => name_prefix(n@) is None,
        },
{
    let cs = to_chars(n);
    match find_char(cs.as_slice(), ':') {
        Some(i) => Some(chars_until(cs.as_slice(), i)),
        None => None,
    }
}

impl RemoveEditorsNSDataPlugin {
    /// A new plugin.
    pub fn new() -> (r: RemoveEditorsNSDataPlugin) {
        RemoveEditorsNSDataPlugin
    }

    /// The configuration: the string items of `additionalNamespaces`.
    pub fn parse_config(&self, params: Option<&Value>) -> (r: RemoveEditorsNSDataConfig)
        ensures
            str_views(r.additional_namespaces@) == (match object_member(opt_value(params), "additionalNamespaces"@) {
                Some(Value::Array(items)) => strings_in(items@),
                _ => Seq::empty(),
            }),
    {
        let mut config = RemoveEditorsNSDataConfig::default();
        assert(str_views(config.additional_namespaces@) =~= Seq::<Seq<char>>::empty());
        if let Some(Value::Object(_)) = params {
            if let Some(Value::Array(items)) = params.unwrap().get("additionalNamespaces") {
                let mut i: usize = 0;
                while i < items.len()
                    invariant
                        i <= items@.len(),
                        str_views(config.additional_namespaces@) == strings_in(items@.take(i as int)),
                    decreases items.len() - i,
                {
                    assert(items@.take(i + 1).drop_last() =~= items@.take(i as int));
                    if let Value::String(s) = &items[i] {
                        let ghost before = config.additional_namespaces@;
                        config.additional_namespaces.push(s.clone());
                        assert(str_views(config.additional_namespaces@) =~= str_views(before).push(s@));
                    }
                    i = i + 1;
                }
                assert(items@.take(items@.len() as int) =~= items@);
            }
        }
        config
    }

    /// On an `<svg>` element: removes the declarations of editors'
    /// namespaces and gives the prefixes they bound; elsewhere nothing.
    pub fn collect_editor_prefixes(&self, element: &mut Element, config: &RemoveEditorsNSDataConfig) -> (r: Vec<String>)
        ensures
            final(element).name == old(element).name,
            final(element).children == old(element).children,
            final(element).namespaces == old(element).namespaces,
            old(element).name@ == "svg"@ ==> attr_entries(final(element).attributes) == entries_without(
                attr_entries(old(element).attributes),
                removed_declarations(attr_entries(old(element).attributes), str_views(config.additional_namespaces@))),
            old(element).name@ == "svg"@ ==> str_views(r@) == declared_prefixes(
                attr_entries(old(element).attributes), str_views(config.additional_namespaces@)),
            old(element).name@ != "svg"@ ==> final(element).attributes == old(element).attributes && r@.len() == 0,
    {
        let mut prefixes: Vec<String> = Vec::new();
        if !str_eq(element.name.as_str(), "svg") {
            return prefixes;
        }
        let ghost extra = str_views(config.additional_namespaces@);
        let mut namespaces: Vec<String> = Vec::new();
        namespaces.push(owned("http://creativecommons.org/ns#"));
        namespaces.push(owned("http://inkscape.sourceforge.net/DTD/sodipodi-0.dtd"));
        namespaces.push(owned("http://ns.adobe.com/AdobeIllustrator/10.0/"));
        namespaces.push(owned("http://ns.adobe.com/AdobeSVGViewerExtensions/3.0/"));
        namespaces.push(owned("http://ns.adobe.com/Extensibility/1.0/"));
        namespaces.push(owned("http://ns.adobe.com/Flows/1.0/"));
        namespaces.push(owned("http://ns.adobe.com/GenericCustomNamespace/1.0/"));
        namespaces.push(owned("http://ns.adobe.com/Graphs/1.0/"));
        namespaces.push(owned("http://ns.adobe.com/ImageReplacement/1.0/"));
        namespaces.push(owned("http://ns.adobe.com/SaveForWeb/1.0/"));
        namespaces.push(owned("http://ns.adobe.com/Variables/1.0/"));
        namespaces.push(owned("http://ns.adobe.com/XPath/1.0/"));
        namespaces.push(owned("http://purl.org/dc/elements/1.1/"));
        namespaces.push(owned("http://schemas.microsoft.com/visio/2003/SVGExtensions/"));
        namespaces.push(owned("http://sodipodi.sourceforge.net/DTD/sodipodi-0.dtd"));
        namespaces.push(owned("http://taptrix.com/vectorillustrator/svg_extensions"));
        namespaces.push(owned("http://www.bohemiancoding.com/sketch/ns"));
        namespaces.push(owned("http://www.figma.com/figma/ns"));
        namespaces.push(owned("http://www.inkscape.org/namespaces/inkscape"));
        namespaces.push(owned("http://www.serif.com/"));
        namespaces.push(owned("http://www.vector.evaxdesign.com/myNamespace"));
        namespaces.push(owned("http://www.w3.org/1999/02/22-rdf-syntax-ns#"));
        assert(str_views(namespaces@) =~= editor_namespaces());
        let pairs = attr_pairs(&element.attributes);
        let ghost orig = attr_entries(element.attributes);
        let mut names: Vec<String> = Vec::new();
        let mut i: usize = 0;
        while i < pairs.len()
            invariant
                i <= pairs@.len(), pairs@.len() == orig.len(),
                forall|k: int| 0 <= k < pairs@.len() ==> (#[trigger] pairs@[k]).0@ == orig[k].0 && pairs@[k].1@ == orig[k].1,
                str_views(namespaces@) == editor_namespaces(),
                extra == str_views(config.additional_namespaces@),
                str_views(names@) == removed_declarations(orig.take(i as int), extra),
                str_views(prefixes@) == removed_declarations(orig.take(i as int), extra).map_values(|n: Seq<char>| n.skip(6)),
            decreases pairs.len() - i,
        {
            assert(orig.take(i + 1).drop_last() =~= orig.take(i as int));
            assert(orig.take(i + 1).last() == orig[i as int]);
            let name = pairs[i].0.as_str();
            let value = pairs[i].1.as_str();
            if str_starts_with(name, "xmlns:")
                && (contains_string(&namespaces, value) || contains_string(&config.additional_namespaces, value)) {
                proof { reveal_strlit("xmlns:"); }
                let cs = to_chars(name);
                let p = chars_from(cs.as_slice(), 6);
                let ghost nb = names@;
                let ghost pb = prefixes@;
                names.push(pairs[i].0.clone());
                prefixes.push(p);
                proof {
                    let rd = removed_declarations(orig.take(i as int), extra);
                    assert(str_views(names@) =~= str_views(nb).push(orig[i as int].0));
                    assert(str_views(prefixes@) =~= str_views(pb).push(orig[i as int].0.skip(6)));
                    assert(rd.push(orig[i as int].0).map_values(|n: Seq<char>| n.skip(6))
                        =~= rd.map_values(|n: Seq<char>| n.skip(6)).push(orig[i as int].0.skip(6)));
                }
            }
            i = i + 1;
        }
        assert(orig.take(orig.len() as int) =~= orig);
        element.remove_attrs_named(&names);
        prefixes
    }

    /// Removes the attributes whose names have one of the prefixes.
    pub fn remove_editor_attributes(&self, element: &mut Element, prefixes: &Vec<String>)
        ensures
            attr_entries(final(element).attributes) == entries_without(attr_entries(old(element).attributes),
                prefixed_names(attr_entries(old(element).attributes), str_views(prefixes@))),
            final(element).name == old(element).name,
            final(element).children == old(element).children,
            final(element).namespaces == old(element).namespaces,
    {
        let ghost pv = str_views(prefixes@);
        let pairs = attr_pairs(&element.attributes);
        let ghost orig = attr_entries(element.attributes);
        let mut names: Vec<String> = Vec::new();
        let mut i: usize = 0;
        while i < pairs.len()
            invariant
                i <= pairs@.len(), pairs@.len() == orig.len(),
                forall|k: int| 0 <= k < pairs@.len() ==> (#[trigger] pairs@[k]).0@ == orig[k].0 && pairs@[k].1@ == orig[k].1,
                pv == str_views(prefixes@),
                str_views(names@) == prefixed_names(orig.take(i as int), pv),
            decreases pairs.len() - i,
        {
            assert(orig.take(i + 1).drop_last() =~= orig.take(i as int));
            assert(orig.take(i + 1).last() == orig[i as int]);
            if self.should_remove_name(pairs[i].0.as_str(), prefixes) {
                let ghost nb = names@;
                names.push(pairs[i].0.clone());
                assert(str_views(names@) =~= str_views(nb).push(orig[i as int].0));
            }
            i = i + 1;
        }
        assert(orig.take(orig.len() as int) =~= orig);
        element.remove_attrs_named(&names);
    }

    fn should_remove_name(&self, name: &str, prefixes: &Vec<String>) -> (r: bool)
        ensures
            r == has_editor_prefix(name@, str_views(prefixes@)),
    {
        match prefix_of(name) {
            Some(p) => contains_string(prefixes, p.as_str()),
            None => false,
        }
    }

    /// Whether an element's name has one of the prefixes.
    pub fn should_remove_element(&self, element: &Element, prefixes: &Vec<String>) -> (r: bool)
        ensures
            r == has_editor_prefix(element.name@, str_views(prefixes@)),
    {
        self.should_remove_name(element.name.as_str(), prefixes)
    }

    /// Processes an element and its descendants, in document order.
    fn process_element(&self, e: &mut Element, prefixes: &mut Vec<String>, config: &RemoveEditorsNSDataConfig)
        ensures
            (elem_view(*final(e)), str_views(final(prefixes)@)) == red_elem(elem_view(*old(e)), str_views(old(prefixes)@),
                str_views(config.additional_namespaces@)),
        decreases *old(e),
    {
        let ghost extra = str_views(config.additional_namespaces@);
        let ghost p0 = str_views(prefixes@);
        let ghost a0 = attr_entries(e.attributes);
        if str_eq(e.name.as_str(), "svg") && prefixes.len() == 0 {
            *prefixes = self.collect_editor_prefixes(e, config);
        }
        let ghost p1 = str_views(prefixes@);
        let ghost a1 = attr_entries(e.attributes);
        self.remove_editor_attributes(e, prefixes);
        let mut old_children: Vec<Node> = Vec::new();
        std::mem::swap(&mut old_children, &mut e.children);
        let ghost orig = old_children@;
        let mut out: Vec<Node> = Vec::new();
        let n = old_children.len();
        let mut i: usize = 0;
        proof { lemma_nodes_view(orig); }
        assert(red_children(nodes_view(orig).take(0), p1, extra) == (Seq::<NodeView>::empty(), p1));
        while i < n
            invariant
                n == orig.len(), i <= n,
                orig == old(e).children@,
                old_children@ == orig.subrange(i as int, n as int),
                nodes_view(orig).len() == n,
                forall|j: int| 0 <= j < n ==> #[trigger] nodes_view(orig)[j] == node_view(orig[j]),
                (nodes_view(out@), str_views(prefixes@)) == red_children(nodes_view(orig).take(i as int), p1, extra),
                extra == str_views(config.additional_namespaces@),
                forall|j: int| 0 <= j < n ==> decreases_to!(*old(e) => #[trigger] orig[j]),
                e.name == old(e).name,
            decreases n - i,
        {
            let child = old_children.remove(0);
            assert(child == orig[i as int]);
            assert(nodes_view(orig).take(i + 1).drop_last() =~= nodes_view(orig).take(i as int));
            match child {
                Node::Element(mut ce) => {
                    if !self.should_remove_element(&ce, prefixes) {
                        self.process_element(&mut ce, prefixes, config);
                        proof { lemma_nodes_view_push(out@, Node::Element(ce)); }
                        out.push(Node::Element(ce));
                    }
                },
                other => {
                    proof { lemma_nodes_view_push(out@, other); }
                    out.push(other);
                },
            }
            i = i + 1;
        }
        assert(nodes_view(orig).take(n as int) =~= nodes_view(orig));
        e.children = out;
    }
}

impl Plugin for RemoveEditorsNSDataPlugin {
    fn name(&self) -> (r: &'static str)
        ensures
            r@ == "removeEditorsNSData"@,
    {
        "removeEditorsNSData"
    }

    fn description(&self) -> (r: &'static str)
        ensures
            r@ == "removes editors namespaces, elements and attributes"@,
    {
        "removes editors namespaces, elements and attributes"
    }

    fn apply(&mut self, document: &mut Document, plugin_info: &PluginInfo, params: Option<&Value>) -> (r: PluginResult<()>)
        ensures
            r is Ok,
            elem_view(final(document).root) == red_elem(elem_view(old(document).root), Seq::empty(),
                match object_member(opt_value(params), "additionalNamespaces"@) {
                    Some(Value::Array(items)) => strings_in(items@),
                    _ => Seq::empty(),
                }).0,
            final(document).prologue == old(document).prologue,
            final(document).epilogue == old(document).epilogue,
            final(document).metadata == old(document).metadata,
    {
        let config = self.parse_config(params);
        let mut prefixes: Vec<String> = Vec::new();
        assert(str_views(prefixes@) =~= Seq::<Seq<char>>::empty());
        self.process_element(&mut document.root, &mut prefixes, &config);
        Ok(())
    }
}

} // verus!
