//! Removes attributes that match patterns of the form
//! `element:attribute:value`, each part a regular expression.

use vstd::prelude::*;
use crate::ast::{Document, Element, ElementView, Node, NodeView, attr_entries, attr_pairs, elem_view,
    entries_without, lemma_nodes_view, lemma_nodes_view_push, node_view, nodes_view};
use crate::pattern::{regex_error, regex_error_result, regex_is_match, regex_match_result};
use crate::plugin::{Plugin, PluginError, PluginInfo, PluginResult};
use crate::plugins::add_attributes_to_svg_element::is_config_error;
use crate::plugins::remove_elements_by_attr::strings_in;
use crate::strings::{owned, split_str, split_str_spec, str_eq, str_seq, to_lowercase, lower_text};
use crate::value::{Value, opt_value, value_get};

verus! {

/// The plugin that removes attributes by pattern.
pub struct RemoveAttrsPlugin;

/// The parameters of the plugin.
#[derive(Debug)]
pub struct RemoveAttrsParams {
    /// Attribute patterns to remove (element:attribute:value).
    pub attrs: Vec<String>,
    /// Separator between the parts of a pattern.
    pub elem_separator: String,
    /// Whether `fill` and `stroke` keep the value `currentColor`.
    pub preserve_current_color: bool,
}

impl Default for RemoveAttrsParams {
    fn default() -> (r: RemoveAttrsParams)
        ensures
            r.attrs@.len() == 0,
            r.elem_separator@ == ":"@,
            !r.preserve_current_color,
    {
        RemoveAttrsParams { attrs: Vec::new(), elem_separator: owned(":"), preserve_current_color: false }
    }
}

pub open spec fn msg_requires_attrs() -> Seq<char> {
    "removeAttrs plugin requires 'attrs' parameter"@
}

pub open spec fn msg_attrs_kind() -> Seq<char> {
    "attrs parameter must be a string or array of strings"@
}

pub open spec fn msg_params_object() -> Seq<char> {
    "removeAttrs plugin parameters must be an object"@
}

pub open spec fn msg_attrs_empty() -> Seq<char> {
    "removeAttrs plugin requires non-empty 'attrs' parameter"@
}

/// The parameters as plain values: the patterns, the separator and the
/// `currentColor` flag; or the message of the error.
pub open spec fn params_from(v: Option<Value>) -> Result<(Seq<Seq<char>>, Seq<char>, bool), Seq<char>> {
    match v {
        None => Err(msg_requires_attrs()),
        Some(Value::Object(m)) => {
            let p = Value::Object(m);
            let attrs: Result<Seq<Seq<char>>, Seq<char>> = match value_get(p, "attrs"@) {
                None => Err(msg_requires_attrs()),
                Some(Value::String(s)) => Ok(seq![s@]),
                Some(Value::Array(items)) => Ok(strings_in(items@)),
                Some(_) => Err(msg_attrs_kind()),
            };
            match attrs {
                Err(e) => Err(e),
                Ok(a) => Ok((
                    a,
                    match value_get(p, "elemSeparator"@) { Some(Value::String(s)) => s@, _ => ":"@ },
                    match value_get(p, "preserveCurrentColor"@) { Some(Value::Bool(b)) => b, _ => false },
                )),
            }
        },
        Some(_) => Err(msg_params_object()),
    }
}

impl RemoveAttrsParams {
    /// Parses the parameters.
    pub fn from_value(value: Option<&Value>) -> (r: PluginResult<RemoveAttrsParams>)
        ensures
            match params_from(opt_value(value)) {
                Ok(t) => r matches Ok(p) && str_seq(p.attrs@) == t.0 && p.elem_separator@ == t.1
                    && p.preserve_current_color == t.2,
                Err(m) => is_config_error(r, m),
            },
    {
        let mut params = RemoveAttrsParams::default();
        match value {
            Some(Value::Object(_)) => {
                let v = value.unwrap();
                match v.get("attrs") {
                    Some(Value::String(pattern)) => {
                        params.attrs.push(pattern.clone());
                        assert(str_seq(params.attrs@) =~= seq![pattern@]);
                    },
                    Some(Value::Array(patterns)) => {
                        let mut i: usize = 0;
                        assert(str_seq(params.attrs@) =~= Seq::<Seq<char>>::empty());
                        while i < patterns.len()
                            invariant
                                i <= patterns@.len(),
                                str_seq(params.attrs@) == strings_in(patterns@.take(i as int)),
                                params.elem_separator@ == ":"@,
                                !params.preserve_current_color,
                            decreases patterns.len() - i,
                        {
                            assert(patterns@.take(i + 1).drop_last() =~= patterns@.take(i as int));
                            if let Value::String(s) = &patterns[i] {
                                let ghost before = params.attrs@;
                                params.attrs.push(s.clone());
                                assert(str_seq(params.attrs@) =~= str_seq(before).push(s@));
                            }
                            i = i + 1;
                        }
                        assert(patterns@.take(patterns@.len() as int) =~= patterns@);
                    },
                    Some(_) => {
                        return Err(PluginError::InvalidConfig(owned("attrs parameter must be a string or array of strings")));
                    },
                    None => {
                        return Err(PluginError::InvalidConfig(owned("removeAttrs plugin requires 'attrs' parameter")));
                    },
                }
                if let Some(Value::String(separator)) = v.get("elemSeparator") {
                    params.elem_separator = separator.clone();
                }
                if let Some(Value::Bool(preserve)) = v.get("preserveCurrentColor") {
                    params.preserve_current_color = *preserve;
                }
                Ok(params)
            },
            Some(_) => Err(PluginError::InvalidConfig(owned("removeAttrs plugin parameters must be an object"))),
            None => Err(PluginError::InvalidConfig(owned("removeAttrs plugin requires 'attrs' parameter"))),
        }
    }
}

/// A part of a pattern with `*` read as `.*`.
pub open spec fn star_part(p: Seq<char>) -> Seq<char> {
    if p == "*"@ { ".*"@ } else { p }
}

/// A part anchored at both ends.
pub open spec fn anchored(p: Seq<char>) -> Seq<char> {
    "^"@ + star_part(p) + "$"@
}

/// The three parts of a pattern: one part names an attribute of any element
/// with any value, two parts an element and an attribute; more than three
/// is no pattern.
pub open spec fn expanded_parts(parts: Seq<Seq<char>>) -> Option<Seq<Seq<char>>> {
    if parts.len() == 1 {
        Some(seq![".*"@, parts[0], ".*"@])
    } else if parts.len() == 2 {
        Some(seq![parts[0], parts[1], ".*"@])
    } else if parts.len() == 3 {
        Some(parts)
    } else {
        None
    }
}

/// The three anchored expressions of a pattern, or the message of the
/// error.
pub open spec fn compiled_pattern(pattern: Seq<char>, sep: Seq<char>) -> Result<(Seq<char>, Seq<char>, Seq<char>), Seq<char>> {
    match expanded_parts(split_str_spec(pattern, sep)) {
        None => Err("Invalid pattern format: "@ + pattern),
        Some(ps) => {
            let e = anchored(ps[0]);
            let a = anchored(ps[1]);
            let v = anchored(ps[2]);
            match regex_error_result(e) {
                Some(m) => Err("Invalid element regex: "@ + m),
                None => match regex_error_result(a) {
                    Some(m) => Err("Invalid attribute regex: "@ + m),
                    None => match regex_error_result(v) {
                        Some(m) => Err("Invalid value regex: "@ + m),
                        None => Ok((e, a, v)),
                    },
                },
            }
        },
    }
}

/// The expressions of all patterns in order, or the first error.
pub open spec fn compiled_patterns(ps: Seq<Seq<char>>, sep: Seq<char>) -> Result<Seq<(Seq<char>, Seq<char>, Seq<char>)>, Seq<char>>
    decreases ps.len(),
{
    if ps.len() == 0 {
        Ok(Seq::empty())
    } else {
        match compiled_patterns(ps.drop_last(), sep) {
            Err(m) => Err(m),
            Ok(cs) => match compiled_pattern(ps.last(), sep) {
                Ok(c) => Ok(cs.push(c)),
                Err(m) => Err(m),
            },
        }
    }
}

/// Whether an expression matches a text.
pub open spec fn re_matches(re: Seq<char>, text: Seq<char>) -> bool {
    regex_match_result(re, text) == Some(true)
}

/// Whether a compiled pattern matches an attribute of an element.
pub open spec fn pattern_matches(c: (Seq<char>, Seq<char>, Seq<char>), elem: Seq<char>, name: Seq<char>, value: Seq<char>) -> bool {
    re_matches(c.0, elem) && re_matches(c.1, name) && re_matches(c.2, value)
}

/// Whether an attribute is removed: some pattern matches it, and it is not
/// a kept `currentColor` on `fill` or `stroke`.
pub open spec fn attr_removed(cs: Seq<(Seq<char>, Seq<char>, Seq<char>)>, elem: Seq<char>, name: Seq<char>, value: Seq<char>, preserve: bool) -> bool {
    &&& exists|k: int| 0 <= k < cs.len() && pattern_matches(#[trigger] cs[k], elem, name, value)
    &&& !(preserve && (name == "fill"@ || name == "stroke"@) && lower_text(value) == "currentcolor"@)
}

/// The names of the removed attributes, in order.
pub open spec fn removed_names(a: Seq<(Seq<char>, Seq<char>)>, cs: Seq<(Seq<char>, Seq<char>, Seq<char>)>, elem: Seq<char>, preserve: bool) -> Seq<Seq<char>>
    decreases a.len(),
{
    if a.len() == 0 {
        Seq::empty()
    } else if attr_removed(cs, elem, a.last().0, a.last().1, preserve) {
        removed_names(a.drop_last(), cs, elem, preserve).push(a.last().0)
    } else {
        removed_names(a.drop_last(), cs, elem, preserve)
    }
}

/// The element after the plugin, with every descendant processed too.
pub open spec fn ra_elem(e: ElementView, cs: Seq<(Seq<char>, Seq<char>, Seq<char>)>, preserve: bool) -> ElementView
    decreases e,
{
    ElementView {
        name: e.name,
        attrs: entries_without(e.attrs, removed_names(e.attrs, cs, e.name, preserve)),
        children: ra_children(e.children, cs, preserve),
        ns: e.ns,
    }
}

pub open spec fn ra_children(s: Seq<NodeView>, cs: Seq<(Seq<char>, Seq<char>, Seq<char>)>, preserve: bool) -> Seq<NodeView>
    decreases s,
{
    if s.len() == 0 {
        Seq::empty()
    } else {
        let pre = ra_children(s.drop_last(), cs, preserve);
        match s.last() {
            NodeView::Element(c) => pre.push(NodeView::Element(ra_elem(c, cs, preserve))),
            other => pre.push(other),
        }
    }
}

/// A compiled pattern: the anchored expressions of its three parts.
#[derive(Debug)]
pub struct CompiledPattern {
    pub element_regex: String,
    pub attribute_regex: String,
    pub value_regex: String,
}

pub open spec fn compiled_view(c: CompiledPattern) -> (Seq<char>, Seq<char>, Seq<char>) {
    (c.element_regex@, c.attribute_regex@, c.value_regex@)
}

fn concat3(a: &str, b: &str, c: &str) -> (r: String)
    ensures
        r@ == a@ + b@ + c@,
{
    let mut s = owned(a);
    s.append(b);
    s.append(c);
    s
}

fn anchor(p: &str) -> (r: String)
    ensures
        r@ == anchored(p@),
{
    if str_eq(p, "*") {
        concat3("^", ".*", "$")
    } else {
        concat3("^", p, "$")
    }
}

impl CompiledPattern {
    /// Compiles a pattern.
    pub fn compile(pattern: &str, separator: &str) -> (r: PluginResult<CompiledPattern>)
        ensures
            match compiled_pattern(pattern@, separator@) {
                Ok(c) => r matches Ok(p) && compiled_view(p) == c,
                Err(m) => is_config_error(r, m),
            },
    {
        let parts = split_str(pattern, separator);
        let ghost pv = str_seq(parts@);
        proof {
            assert(pv.len() == parts@.len());
            if parts@.len() >= 1 { assert(pv[0] == parts@[0]@); }
            if parts@.len() >= 2 { assert(pv[1] == parts@[1]@); }
            if parts@.len() >= 3 { assert(pv[2] == parts@[2]@); }
        }
        let (e, a, v) = if parts.len() == 1 {
            (anchor(".*"), anchor(parts[0].as_str()), anchor(".*"))
        } else if parts.len() == 2 {
            (anchor(parts[0].as_str()), anchor(parts[1].as_str()), anchor(".*"))
        } else if parts.len() == 3 {
            (anchor(parts[0].as_str()), anchor(parts[1].as_str()), anchor(parts[2].as_str()))
        } else {
            proof {
                reveal_strlit("");
                assert(("Invalid pattern format: "@ + pattern@ + ""@) =~= ("Invalid pattern format: "@ + pattern@));
            }
            return Err(PluginError::InvalidConfig(concat3("Invalid pattern format: ", pattern, "")));
        };
        proof {
            reveal_strlit("");
            assert forall|m: Seq<char>| (#[trigger] (m + ""@)) =~= m by {}
        }
        match regex_error(e.as_str()) {
            Some(m) => return Err(PluginError::InvalidConfig(concat3("Invalid element regex: ", m.as_str(), ""))),
            None => {},
        }
        match regex_error(a.as_str()) {
            Some(m) => return Err(PluginError::InvalidConfig(concat3("Invalid attribute regex: ", m.as_str(), ""))),
            None => {},
        }
        match regex_error(v.as_str()) {
            Some(m) => return Err(PluginError::InvalidConfig(concat3("Invalid value regex: ", m.as_str(), ""))),
            None => {},
        }
        Ok(CompiledPattern { element_regex: e, attribute_regex: a, value_regex: v })
    }

    /// Whether the pattern matches an attribute of an element.
    pub fn matches(&self, element_name: &str, attr_name: &str, attr_value: &str) -> (r: bool)
        ensures
            r == pattern_matches(compiled_view(*self), element_name@, attr_name@, attr_value@),
    {
        regex_is_match(self.element_regex.as_str(), element_name) == Some(true)
            && regex_is_match(self.attribute_regex.as_str(), attr_name) == Some(true)
            && regex_is_match(self.value_regex.as_str(), attr_value) == Some(true)
    }
}

pub open spec fn compiled_views(v: Seq<CompiledPattern>) -> Seq<(Seq<char>, Seq<char>, Seq<char>)> {
    v.map_values(|c: CompiledPattern| compiled_view(c))
}

/// Whether an attribute is removed.
fn is_removed(patterns: &Vec<CompiledPattern>, elem: &str, name: &str, value: &str, preserve: bool) -> (r: bool)
    ensures
        r == attr_removed(compiled_views(patterns@), elem@, name@, value@, preserve),
{
    let ghost cs = compiled_views(patterns@);
    if preserve && (str_eq(name, "fill") || str_eq(name, "stroke")) {
        let low = to_lowercase(value);
        if str_eq(low.as_str(), "currentcolor") {
            return false;
        }
    }
    let mut k: usize = 0;
    while k < patterns.len()
        invariant
            k <= patterns@.len(),
            cs == compiled_views(patterns@),
            !(preserve && (name@ == "fill"@ || name@ == "stroke"@) && lower_text(value@) == "currentcolor"@),
            forall|j: int| 0 <= j < k ==> !pattern_matches(#[trigger] cs[j], elem@, name@, value@),
        decreases patterns.len() - k,
    {
        if patterns[k].matches(elem, name, value) {
            assert(pattern_matches(cs[k as int], elem@, name@, value@));
            return true;
        }
        k = k + 1;
    }
    false
}

/// Removes the attributes of one element that the patterns match.
fn remove_matching_attributes(e: &mut Element, patterns: &Vec<CompiledPattern>, preserve: bool)
    ensures
        attr_entries(final(e).attributes) == entries_without(attr_entries(old(e).attributes),
            removed_names(attr_entries(old(e).attributes), compiled_views(patterns@), old(e).name@, preserve)),
        final(e).name == old(e).name,
        final(e).children == old(e).children,
        final(e).namespaces == old(e).namespaces,
{
    let ghost cs = compiled_views(patterns@);
    let pairs = attr_pairs(&e.attributes);
    let ghost orig = attr_entries(e.attributes);
    let mut names: Vec<String> = Vec::new();
    let mut i: usize = 0;
    while i < pairs.len()
        invariant
            i <= pairs@.len(), pairs@.len() == orig.len(),
            forall|k: int| 0 <= k < pairs@.len() ==> (#[trigger] pairs@[k]).0@ == orig[k].0 && pairs@[k].1@ == orig[k].1,
            cs == compiled_views(patterns@),
            str_seq(names@) == removed_names(orig.take(i as int), cs, e.name@, preserve),
        decreases pairs.len() - i,
    {
        assert(orig.take(i + 1).drop_last() =~= orig.take(i as int));
        assert(orig.take(i + 1).last() == orig[i as int]);
        if is_removed(patterns, e.name.as_str(), pairs[i].0.as_str(), pairs[i].1.as_str(), preserve) {
            let ghost before = names@;
            names.push(pairs[i].0.clone());
            assert(str_seq(names@) =~= str_seq(before).push(orig[i as int].0));
        }
        i = i + 1;
    }
    assert(orig.take(orig.len() as int) =~= orig);
    e.remove_attrs_named(&names);
}

fn visit_elements(e: &mut Element, patterns: &Vec<CompiledPattern>, preserve: bool)
    ensures
        elem_view(*final(e)) == ra_elem(elem_view(*old(e)), compiled_views(patterns@), preserve),
    decreases *old(e),
{
    remove_matching_attributes(e, patterns, preserve);
    let mut old_children: Vec<Node> = Vec::new();
    std::mem::swap(&mut old_children, &mut e.children);
    let ghost orig = old_children@;
    let mut out: Vec<Node> = Vec::new();
    let n = old_children.len();
    let mut i: usize = 0;
    proof { lemma_nodes_view(orig); }
    while i < n
        invariant
            n == orig.len(), i <= n,
            orig == old(e).children@,
            old_children@ == orig.subrange(i as int, n as int),
            nodes_view(orig).len() == n,
            forall|j: int| 0 <= j < n ==> #[trigger] nodes_view(orig)[j] == node_view(orig[j]),
            nodes_view(out@) == ra_children(nodes_view(orig).take(i as int), compiled_views(patterns@), preserve),
            forall|j: int| 0 <= j < n ==> decreases_to!(*old(e) => #[trigger] orig[j]),
        decreases n - i,
    {
        let child = old_children.remove(0);
        assert(child == orig[i as int]);
        assert(nodes_view(orig).take(i + 1).drop_last() =~= nodes_view(orig).take(i as int));
        match child {
            Node::Element(mut ce) => {
                visit_elements(&mut ce, patterns, preserve);
                proof { lemma_nodes_view_push(out@, Node::Element(ce)); }
                out.push(Node::Element(ce));
            },
            other => {
                proof { lemma_nodes_view_push(out@, other); }
                out.push(other);
            },
        }
        i = i + 1;
    }
    assert(nodes_view(orig).take(n as int) =~= nodes_view(orig));
    e.children = out;
}

/// The outcome of the plugin on the parameters: the compiled patterns and
/// the `currentColor` flag, or the message of the error.
pub open spec fn ra_setup(params: Option<Value>) -> Result<(Seq<(Seq<char>, Seq<char>, Seq<char>)>, bool), Seq<char>> {
    match params_from(params) {
        Err(m) => Err(m),
        Ok(t) => if t.0.len() == 0 {
            Err(msg_attrs_empty())
        } else {
            match compiled_patterns(t.0, t.1) {
                Err(m) => Err(m),
                Ok(cs) => Ok((cs, t.2)),
            }
        },
    }
}

impl Plugin for RemoveAttrsPlugin {
    fn name(&self) -> (r: &'static str)
        ensures
            r@ == "removeAttrs"@,
    {
        "removeAttrs"
    }

    fn description(&self) -> (r: &'static str)
        ensures
            r@ == "removes specified attributes"@,
    {
        "removes specified attributes"
    }

    fn apply(&mut self, document: &mut Document, plugin_info: &PluginInfo, params: Option<&Value>) -> (r: PluginResult<()>)
        ensures
            match ra_setup(opt_value(params)) {
                Err(m) => is_config_error(r, m) && *final(document) == *old(document),
                Ok(s) => r is Ok
                    && elem_view(final(document).root) == ra_elem(elem_view(old(document).root), s.0, s.1)
                    && final(document).prologue == old(document).prologue
                    && final(document).epilogue == old(document).epilogue
                    && final(document).metadata == old(document).metadata,
            },
    {
        let config = RemoveAttrsParams::from_value(params)?;
        if config.attrs.len() == 0 {
            return Err(PluginError::InvalidConfig(owned("removeAttrs plugin requires non-empty 'attrs' parameter")));
        }
        let ghost ps = str_seq(config.attrs@);
        let mut compiled: Vec<CompiledPattern> = Vec::new();
        let mut i: usize = 0;
        assert(compiled_views(compiled@) =~= Seq::<(Seq<char>, Seq<char>, Seq<char>)>::empty());
        while i < config.attrs.len()
            invariant
                i <= config.attrs@.len(),
                ps == str_seq(config.attrs@),
                *document == *old(document),
                params_from(opt_value(params)) == Ok::<(Seq<Seq<char>>, Seq<char>, bool), Seq<char>>(
                    (ps, config.elem_separator@, config.preserve_current_color)),
                ps.len() > 0,
                compiled_patterns(ps.take(i as int), config.elem_separator@) is Ok,
                compiled_views(compiled@) == compiled_patterns(ps.take(i as int), config.elem_separator@)->Ok_0,
            decreases config.attrs.len() - i,
        {
            assert(ps.take(i + 1).drop_last() =~= ps.take(i as int));
            assert(ps.take(i + 1).last() == config.attrs@[i as int]@);
            let c = match CompiledPattern::compile(config.attrs[i].as_str(), config.elem_separator.as_str()) {
                Ok(c) => c,
                Err(e) => {
                    proof { lemma_compile_error_persists(ps, config.elem_separator@, i as int, ps.len() as int); }
                    assert(ps.take(ps.len() as int) =~= ps);
                    return Err(e);
                },
            };
            let ghost before = compiled@;
            compiled.push(c);
            assert(compiled_views(compiled@) =~= compiled_views(before).push(compiled_view(c)));
            i = i + 1;
        }
        assert(ps.take(ps.len() as int) =~= ps);
        visit_elements(&mut document.root, &compiled, config.preserve_current_color);
        Ok(())
    }
}

proof fn lemma_compile_error_persists(ps: Seq<Seq<char>>, sep: Seq<char>, i: int, n: int)
    requires
        0 <= i < n <= ps.len(),
        compiled_patterns(ps.take(i), sep) is Ok,
        compiled_pattern(ps[i], sep) is Err,
    ensures
        compiled_patterns(ps.take(n), sep) == Err::<Seq<(Seq<char>, Seq<char>, Seq<char>)>, Seq<char>>(
            compiled_pattern(ps[i], sep)->Err_0),
    decreases n - i,
{
    assert(ps.take(n).drop_last() =~= ps.take(n - 1));
    if n > i + 1 {
        lemma_compile_error_persists(ps, sep, i, n - 1);
    } else {
        assert(ps.take(n).last() == ps[i]);
    }
}

} // verus!
