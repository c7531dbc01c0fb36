//! Removes deprecated attributes: `xml:lang` where `lang` is present, and,
//! when asked, the deprecated attributes that may change rendering.

use vstd::prelude::*;
use crate::ast::{Document, Element, ElementView, Node, NodeView, attr_entries, elem_view, entries_without,
    entry_index, entry_remove, lemma_nodes_view, lemma_nodes_view_push, node_view, nodes_view};
use crate::plugin::{Plugin, PluginError, PluginInfo, PluginResult};
use crate::plugins::add_attributes_to_svg_element::is_config_error;
use crate::strings::{owned, str_eq, str_seq};
use crate::value::{Value, opt_value, value_get};

verus! {

/// The plugin that removes deprecated attributes.
pub struct RemoveDeprecatedAttrsPlugin;

/// The parameters of the plugin.
#[derive(Debug)]
pub struct RemoveDeprecatedAttrsParams {
    /// Whether to remove the deprecated attributes that may change rendering.
    pub remove_unsafe: bool,
}

impl Default for RemoveDeprecatedAttrsParams {
    fn default() -> (r: RemoveDeprecatedAttrsParams)
        ensures
            !r.remove_unsafe,
    {
        RemoveDeprecatedAttrsParams { remove_unsafe: false }
    }
}

pub open spec fn msg_remove_unsafe_bool() -> Seq<char> {
    "removeUnsafe must be a boolean"@
}

/// The `removeUnsafe` flag of the parameters, or the message of the error.
pub open spec fn remove_unsafe_from(v: Option<Value>) -> Result<bool, Seq<char>> {
    match v {
        Some(Value::Object(m)) => match value_get(Value::Object(m), "removeUnsafe"@) {
            Some(Value::Bool(b)) => Ok(b),
            Some(_) => Err(msg_remove_unsafe_bool()),
            None => Ok(false),
        },
        _ => Ok(false),
    }
}

impl RemoveDeprecatedAttrsParams {
    /// Parses the parameters.
    pub fn from_value(value: Option<&Value>) -> (r: PluginResult<RemoveDeprecatedAttrsParams>)
        ensures
            match remove_unsafe_from(opt_value(value)) {
                Ok(b) => r matches Ok(p) && p.remove_unsafe == b,
                Err(m) => is_config_error(r, m),
            },
    {
        let mut params = RemoveDeprecatedAttrsParams::default();
        if let Some(Value::Object(_)) = value {
            match value.unwrap().get("removeUnsafe") {
                Some(Value::Bool(b)) => { params.remove_unsafe = *b; },
                Some(_) => { return Err(PluginError::InvalidConfig(owned("removeUnsafe must be a boolean"))); },
                None => {},
            }
        }
        Ok(params)
    }
}

/// Whether the plugin knows the attribute groups of the element.
pub open spec fn is_configured(name: Seq<char>) -> bool {
    name == "a"@ || name == "circle"@ || name == "ellipse"@ || name == "g"@ || name == "image"@
        || name == "line"@ || name == "path"@ || name == "polygon"@ || name == "polyline"@
        || name == "rect"@ || name == "svg"@ || name == "text"@ || name == "use"@
        || name == "animate"@ || name == "animateTransform"@
}

/// The deprecated attributes of the conditional processing and core groups.
pub open spec fn core_unsafe() -> Seq<Seq<char>> {
    seq!["requiredFeatures"@, "xml:base"@, "xml:lang"@, "xml:space"@]
}

/// The deprecated attributes of the presentation group.
pub open spec fn presentation_unsafe() -> Seq<Seq<char>> {
    seq!["clip"@, "color-profile"@, "enable-background"@, "glyph-orientation-horizontal"@,
        "glyph-orientation-vertical"@, "kerning"@]
}

/// The deprecated attributes that may change rendering, for a known
/// element: by its attribute groups.
pub open spec fn unsafe_attrs(name: Seq<char>) -> Seq<Seq<char>> {
    if name == "animate"@ {
        core_unsafe() + presentation_unsafe() + seq!["attributeType"@]
    } else if name == "animateTransform"@ {
        core_unsafe() + seq!["attributeType"@]
    } else {
        core_unsafe() + presentation_unsafe()
    }
}

/// The attributes of an element after the plugin.
pub open spec fn rda_attrs(name: Seq<char>, a: Seq<(Seq<char>, Seq<char>)>, remove_unsafe: bool) -> Seq<(Seq<char>, Seq<char>)> {
    if !is_configured(name) {
        a
    } else {
        let a1 = if entry_index(a, "xml:lang"@) >= 0 && entry_index(a, "lang"@) >= 0 {
            entry_remove(a, "xml:lang"@)
        } else {
            a
        };
        if remove_unsafe { entries_without(a1, unsafe_attrs(name)) } else { a1 }
    }
}

/// The element after the plugin, with every descendant processed too.
pub open spec fn rda_elem(e: ElementView, remove_unsafe: bool) -> ElementView
    decreases e,
{
    ElementView { name: e.name, attrs: rda_attrs(e.name, e.attrs, remove_unsafe), children: rda_children(e.children, remove_unsafe), ns: e.ns }
}

pub open spec fn rda_children(s: Seq<NodeView>, remove_unsafe: bool) -> Seq<NodeView>
    decreases s,
{
    if s.len() == 0 {
        Seq::empty()
    } else {
        let pre = rda_children(s.drop_last(), remove_unsafe);
        match s.last() {
            NodeView::Element(c) => pre.push(NodeView::Element(rda_elem(c, remove_unsafe))),
            other => pre.push(other),
        }
    }
}

fn configured(name: &str) -> (r: bool)
    ensures
        r == is_configured(name@),
{
    str_eq(name, "a") || str_eq(name, "circle") || str_eq(name, "ellipse") || str_eq(name, "g")
        || str_eq(name, "image") || str_eq(name, "line") || str_eq(name, "path") || str_eq(name, "polygon")
        || str_eq(name, "polyline") || str_eq(name, "rect") || str_eq(name, "svg") || str_eq(name, "text")
        || str_eq(name, "use") || str_eq(name, "animate") || str_eq(name, "animateTransform")
}

fn unsafe_list(name: &str) -> (r: Vec<String>)
    ensures
        str_seq(r@) == unsafe_attrs(name@),
{
    let mut v: Vec<String> = Vec::new();
    v.push(owned("requiredFeatures"));
    v.push(owned("xml:base"));
    v.push(owned("xml:lang"));
    v.push(owned("xml:space"));
    let animate_transform = str_eq(name, "animateTransform");
    if !animate_transform {
        v.push(owned("clip"));
        v.push(owned("color-profile"));
        v.push(owned("enable-background"));
        v.push(owned("glyph-orientation-horizontal"));
        v.push(owned("glyph-orientation-vertical"));
        v.push(owned("kerning"));
    }
    if animate_transform || str_eq(name, "animate") {
        v.push(owned("attributeType"));
    }
    proof {
        if name@ == "animate"@ {
            assert(name@ != "animateTransform"@) by {
                reveal_strlit("animate");
                reveal_strlit("animateTransform");
                assert("animate"@.len() != "animateTransform"@.len());
            }
        }
    }
    assert(str_seq(v@) =~= unsafe_attrs(name@));
    v
}

/// Removes the deprecated attributes of one element.
pub fn process_element(e: &mut Element, params: &RemoveDeprecatedAttrsParams)
    ensures
        attr_entries(final(e).attributes) == rda_attrs(old(e).name@, attr_entries(old(e).attributes), params.remove_unsafe),
        final(e).name == old(e).name,
        final(e).children == old(e).children,
        final(e).namespaces == old(e).namespaces,
{
    if !configured(e.name.as_str()) {
        return;
    }
    if e.has_attr("xml:lang") && e.has_attr("lang") {
        e.remove_attr("xml:lang");
    }
    if params.remove_unsafe {
        let list = unsafe_list(e.name.as_str());
        e.remove_attrs_named(&list);
    }
}

fn process_tree(e: &mut Element, params: &RemoveDeprecatedAttrsParams)
    ensures
        elem_view(*final(e)) == rda_elem(elem_view(*old(e)), params.remove_unsafe),
    decreases *old(e),
{
    process_element(e, params);
    let mut old_children: Vec<Node> = Vec::new();
    std::mem::swap(&mut old_children, &mut e.children);
    let ghost orig = old_children@;
    let mut out: Vec<Node> = Vec::new();
    let n = old_children.len();
    let mut i: usize = 0;
    proof { lemma_nodes_view(orig); }
    while i < n
        invariant
            n == orig.len(), i <= n,
            orig == old(e).children@,
            old_children@ == orig.subrange(i as int, n as int),
            nodes_view(orig).len() == n,
            forall|j: int| 0 <= j < n ==> #[trigger] nodes_view(orig)[j] == node_view(orig[j]),
            nodes_view(out@) == rda_children(nodes_view(orig).take(i as int), params.remove_unsafe),
            forall|j: int| 0 <= j < n ==> decreases_to!(*old(e) => #[trigger] orig[j]),
        decreases n - i,
    {
        let child = old_children.remove(0);
        assert(child == orig[i as int]);
        assert(nodes_view(orig).take(i + 1).drop_last() =~= nodes_view(orig).take(i as int));
        match child {
            Node::Element(mut ce) => {
                process_tree(&mut ce, params);
                proof { lemma_nodes_view_push(out@, Node::Element(ce)); }
                out.push(Node::Element(ce));
            },
            other => {
                proof { lemma_nodes_view_push(out@, other); }
                out.push(other);
            },
        }
        i = i + 1;
    }
    assert(nodes_view(orig).take(n as int) =~= nodes_view(orig));
    e.children = out;
}

impl Plugin for RemoveDeprecatedAttrsPlugin {
    fn name(&self) -> (r: &'static str)
        ensures
            r@ == "removeDeprecatedAttrs"@,
    {
        "removeDeprecatedAttrs"
    }

    fn description(&self) -> (r: &'static str)
        ensures
            r@ == "removes deprecated attributes"@,
    {
        "removes deprecated attributes"
    }

    fn apply(&mut self, document: &mut Document, plugin_info: &PluginInfo, params: Option<&Value>) -> (r: PluginResult<()>)
        ensures
            match remove_unsafe_from(opt_value(params)) {
                Err(m) => is_config_error(r, m) && *final(document) == *old(document),
                Ok(b) => r is Ok
                    && elem_view(final(document).root) == rda_elem(elem_view(old(document).root), b)
                    && final(document).prologue == old(document).prologue
                    && final(document).epilogue == old(document).epilogue
                    && final(document).metadata == old(document).metadata,
            },
    {
        let p = RemoveDeprecatedAttrsParams::from_value(params)?;
        process_tree(&mut document.root, &p);
        Ok(())
    }

    fn validate_params(&self, params: Option<&Value>) -> (r: PluginResult<()>)
        ensures
            match remove_unsafe_from(opt_value(params)) {
                Err(m) => is_config_error(r, m),
                Ok(_) => r is Ok,
            },
    {
        RemoveDeprecatedAttrsParams::from_value(params)?;
        Ok(())
    }
}

} // verus!
