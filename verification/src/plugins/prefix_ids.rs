//! Prefixes IDs and class names with a prefix taken from the parameters or
//! from the file name, and the references to them with the same prefix.

use vstd::prelude::*;
use crate::ast::{Document, Element, ElementView, Node, NodeView, attr_entries, elem_view, entry_insert,
    entry_lookup, lemma_nodes_view, lemma_nodes_view_push, node_view, nodes_view};
use crate::pattern::{regex_captures, regex_captures_result, regex_segments, regex_segments_result,
    segment_views};
use crate::plugin::{Plugin, PluginInfo, PluginResult};
use crate::plugins::remove_elements_by_attr::object_member;
use crate::strings::{char_index, chars_from, chars_until, find_char, from_chars, has_prefix, has_suffix,
    join, join_strings, owned, split_char, split_on, split_whitespace, str_ends_with, str_eq,
    str_starts_with, to_chars, trim, trim_str, words};
use crate::value::{Value, opt_value};

verus! {

/// How IDs and class names are prefixed.
#[derive(Debug)]
pub struct PrefixIdsConfig {
    /// The prefix; when `None` it comes from the file name.
    pub prefix: Option<String>,
    /// Delimiter between prefix and original ID.
    pub delim: String,
    /// Whether to prefix IDs.
    pub prefix_ids: bool,
    /// Whether to prefix class names.
    pub prefix_class_names: bool,
}

impl Default for PrefixIdsConfig {
    fn default() -> (r: PrefixIdsConfig)
        ensures
            r.prefix is None,
            r.delim@ == "__"@,
            r.prefix_ids,
            r.prefix_class_names,
    {
        PrefixIdsConfig { prefix: None, delim: owned("__"), prefix_ids: true, prefix_class_names: true }
    }
}

/// The plugin that prefixes IDs.
pub struct PrefixIdsPlugin;

impl Default for PrefixIdsPlugin {
    fn default() -> (r: PrefixIdsPlugin) {
        PrefixIdsPlugin
    }
}

/// The attributes whose values may hold `url(#id)` references.
pub open spec fn references_props() -> Seq<Seq<char>> {
    seq![
        "clip-path"@, "color-profile"@, "fill"@, "filter"@, "marker-end"@,
        "marker-mid"@, "marker-start"@, "mask"@, "stroke"@, "style"@
    ]
}

/// `id` with the prefix in front, unless it already starts with it.
pub open spec fn prefixed_id(prefix: Seq<char>, id: Seq<char>) -> Seq<char> {
    if has_prefix(id, prefix) { id } else { prefix + id }
}

/// A reference `#id` with its id prefixed; `None` for anything else.
pub open spec fn prefixed_reference(prefix: Seq<char>, r: Seq<char>) -> Option<Seq<char>> {
    if r.len() > 0 && r[0] == '#' {
        Some(seq!['#'] + prefixed_id(prefix, r.drop_first()))
    } else {
        None
    }
}

/// The file-name pattern: the text after the last slash or backslash.
pub open spec fn basename_pattern() -> Seq<char> {
    "[/\\\\]?([^/\\\\]+)$"@
}

/// The file name of a path: what the pattern's group takes, or nothing.
pub open spec fn basename_of(path: Seq<char>) -> Seq<char> {
    match regex_captures_result(basename_pattern(), path) {
        Some(Some(g)) => if g.len() > 1 && g[1] is Some { g[1]->0 } else { Seq::empty() },
        _ => Seq::empty(),
    }
}

/// `s` with each `.` and space turned into `_`.
pub open spec fn escaped_identifier(s: Seq<char>) -> Seq<char> {
    s.map_values(|c: char| if c == '.' || c == ' ' { '_' } else { c })
}

/// The prefix that the plugin puts in front of IDs.
pub open spec fn prefix_for(prefix: Option<Seq<char>>, delim: Seq<char>, path: Option<Seq<char>>) -> Seq<char> {
    match prefix {
        Some(p) => p + delim,
        None => match path {
            Some(f) => if basename_of(f).len() > 0 {
                escaped_identifier(basename_of(f)) + delim
            } else {
                "prefix"@ + delim
            },
            None => "prefix"@ + delim,
        },
    }
}

/// The ways a matched reference is rewritten.
#[derive(Debug, Clone, Copy, PartialEq, Eq, Structural)]
pub enum RefStyle {
    /// `url("#id")`
    UrlDouble,
    /// `url('#id')`
    UrlSingle,
    /// `url(#id)`
    UrlBare,
    /// `#id` in a style sheet
    IdSelector,
    /// `.class` in a style sheet
    ClassSelector,
}

/// The pattern that finds references of a style; its group is the
/// reference or the name.
pub open spec fn ref_pattern(k: RefStyle) -> Seq<char> {
    match k {
        RefStyle::UrlDouble => "\\burl\\(\"(#[^\"]+)\"\\)"@,
        RefStyle::UrlSingle => "\\burl\\('(#[^']+)'\\)"@,
        RefStyle::UrlBare => "\\burl\\((#[^)]+)\\)"@,
        RefStyle::IdSelector => "#([a-zA-Z][\\w-]*)"@,
        RefStyle::ClassSelector => "\\.([a-zA-Z][\\w-]*)"@,
    }
}

/// What a match becomes.
pub open spec fn rewritten_match(k: RefStyle, whole: Seq<char>, group: Seq<char>, prefix: Seq<char>) -> Seq<char> {
    match k {
        RefStyle::IdSelector => seq!['#'] + prefixed_id(prefix, group),
        RefStyle::ClassSelector => seq!['.'] + prefixed_id(prefix, group),
        _ => match prefixed_reference(prefix, group) {
            Some(p) => match k {
                RefStyle::UrlDouble => "url(\""@ + p + "\")"@,
                RefStyle::UrlSingle => "url('"@ + p + "')"@,
                _ => "url("@ + p + ")"@,
            },
            None => whole,
        },
    }
}

/// The cut text put back together with each match rewritten.
pub open spec fn rebuilt(segs: Seq<(Seq<char>, Seq<char>, Seq<char>)>, k: RefStyle, prefix: Seq<char>) -> Seq<char>
    decreases segs.len(),
{
    if segs.len() == 0 {
        Seq::empty()
    } else {
        rebuilt(segs.drop_last(), k, prefix) + segs.last().0 + rewritten_match(k, segs.last().1, segs.last().2, prefix)
    }
}

/// The text with every reference of the given style rewritten; unchanged
/// when the pattern does not compile.
pub open spec fn rewritten_refs(k: RefStyle, text: Seq<char>, prefix: Seq<char>) -> Seq<char> {
    match regex_segments_result(ref_pattern(k), text) {
        Some((segs, tail)) => rebuilt(segs, k, prefix) + tail,
        None => text,
    }
}

/// The text with its `url(#id)` references prefixed, in the three quotings.
pub open spec fn prefixed_urls(v: Seq<char>, prefix: Seq<char>) -> Seq<char> {
    rewritten_refs(RefStyle::UrlBare, rewritten_refs(RefStyle::UrlSingle,
        rewritten_refs(RefStyle::UrlDouble, v, prefix), prefix), prefix)
}

/// One part of an animation timing: `id.end` and `id.start` get their id
/// prefixed; every part is trimmed.
pub open spec fn animation_part(part: Seq<char>, prefix: Seq<char>) -> Seq<char> {
    let t = trim(part);
    if has_suffix(t, ".end"@) || has_suffix(t, ".start"@) {
        let i = char_index(t, '.');
        prefixed_id(prefix, t.take(i)) + "."@ + t.skip(i + 1)
    } else {
        t
    }
}

pub open spec fn animation_parts(parts: Seq<Seq<char>>, prefix: Seq<char>) -> Seq<Seq<char>> {
    parts.map_values(|p: Seq<char>| animation_part(p, prefix))
}

/// An animation timing with its references prefixed.
pub open spec fn prefixed_animation(v: Seq<char>, prefix: Seq<char>) -> Seq<char> {
    join(animation_parts(split_on(v, ';'), prefix), "; "@)
}

/// The class names with each one prefixed, joined by single spaces.
pub open spec fn prefixed_classes(v: Seq<char>, prefix: Seq<char>) -> Seq<char> {
    join(words(v).map_values(|w: Seq<char>| prefixed_id(prefix, w)), " "@)
}

/// The contents of a `<style>` element with its selectors and references
/// prefixed.
pub open spec fn prefixed_style(t: Seq<char>, prefix: Seq<char>, ids: bool, classes: bool) -> Seq<char> {
    let a = if ids { rewritten_refs(RefStyle::IdSelector, t, prefix) } else { t };
    let b = if classes { rewritten_refs(RefStyle::ClassSelector, a, prefix) } else { a };
    prefixed_urls(b, prefix)
}

/// What is done to the value of an attribute.
#[derive(Debug, Clone, Copy, PartialEq, Eq, Structural)]
pub enum AttrRule {
    Id,
    Class,
    Href,
    Url,
    Animation,
}

/// The new value of an attribute; `None` keeps it.
pub open spec fn rewritten_value(rule: AttrRule, v: Seq<char>, prefix: Seq<char>) -> Option<Seq<char>> {
    match rule {
        AttrRule::Id => Some(prefixed_id(prefix, v)),
        AttrRule::Class => Some(prefixed_classes(v, prefix)),
        AttrRule::Href => prefixed_reference(prefix, v),
        AttrRule::Url => Some(prefixed_urls(v, prefix)),
        AttrRule::Animation => Some(prefixed_animation(v, prefix)),
    }
}

/// The attributes that the plugin looks at, in order, with their rules.
pub open spec fn attr_rules(ids: bool, classes: bool) -> Seq<(Seq<char>, AttrRule)> {
    (if ids { seq![("id"@, AttrRule::Id)] } else { Seq::empty() })
    + (if classes { seq![("class"@, AttrRule::Class)] } else { Seq::empty() })
    + seq![("href"@, AttrRule::Href), ("xlink:href"@, AttrRule::Href)]
    + references_props().map_values(|n: Seq<char>| (n, AttrRule::Url))
    + seq![("begin"@, AttrRule::Animation), ("end"@, AttrRule::Animation)]
}

/// The table after one rule: a non-empty value is rewritten.
pub open spec fn apply_rule(a: Seq<(Seq<char>, Seq<char>)>, r: (Seq<char>, AttrRule), prefix: Seq<char>) -> Seq<(Seq<char>, Seq<char>)> {
    match entry_lookup(a, r.0) {
        Some(v) => if v.len() > 0 {
            match rewritten_value(r.1, v, prefix) {
                Some(w) => entry_insert(a, r.0, w),
                None => a,
            }
        } else {
            a
        },
        None => a,
    }
}

pub open spec fn apply_rules(a: Seq<(Seq<char>, Seq<char>)>, rules: Seq<(Seq<char>, AttrRule)>, prefix: Seq<char>) -> Seq<(Seq<char>, Seq<char>)>
    decreases rules.len(),
{
    if rules.len() == 0 {
        a
    } else {
        apply_rule(apply_rules(a, rules.drop_last(), prefix), rules.last(), prefix)
    }
}

/// The element after the plugin.
pub open spec fn pi_elem(e: ElementView, prefix: Seq<char>, ids: bool, classes: bool) -> ElementView
    decreases e,
{
    ElementView {
        name: e.name,
        attrs: apply_rules(e.attrs, attr_rules(ids, classes), prefix),
        children: pi_children(e.children, e.name == "style"@, prefix, ids, classes),
        ns: e.ns,
    }
}

pub open spec fn pi_children(s: Seq<NodeView>, in_style: bool, prefix: Seq<char>, ids: bool, classes: bool) -> Seq<NodeView>
    decreases s,
{
    if s.len() == 0 {
        Seq::empty()
    } else {
        let pre = pi_children(s.drop_last(), in_style, prefix, ids, classes);
        match s.last() {
            NodeView::Element(c) => pre.push(NodeView::Element(pi_elem(c, prefix, ids, classes))),
            NodeView::Text(t) => if in_style {
                pre.push(NodeView::Text(prefixed_style(t, prefix, ids, classes)))
            } else {
                pre.push(NodeView::Text(t))
            },
            other => pre.push(other),
        }
    }
}

/// The string parameter `key`.
pub open spec fn string_param(params: Option<Value>, key: Seq<char>) -> Option<Seq<char>> {
    match object_member(params, key) {
        Some(Value::String(s)) => Some(s@),
        _ => None,
    }
}

/// The boolean parameter `key`, or `default`.
pub open spec fn bool_param(params: Option<Value>, key: Seq<char>, default: bool) -> bool {
    match object_member(params, key) {
        Some(Value::Bool(b)) => b,
        _ => default,
    }
}

fn get_string_param(params: Option<&Value>, key: &str) -> (r: Option<String>)
    ensures
        opt_str(r) == string_param(opt_value(params), key@),
{
    match params {
        Some(Value::Object(_)) => match params.unwrap().get(key) {
            Some(Value::String(s)) => Some(s.clone()),
            _ => None,
        },
        _ => None,
    }
}

fn get_flag(params: Option<&Value>, key: &str, default: bool) -> (r: bool)
    ensures
        r == bool_param(opt_value(params), key@, default),
{
    match params {
        Some(Value::Object(_)) => match params.unwrap().get(key) {
            Some(Value::Bool(b)) => *b,
            _ => default,
        },
        _ => default,
    }
}

pub open spec fn opt_str(o: Option<String>) -> Option<Seq<char>> {
    match o {
        Some(s) => Some(s@),
        None => None,
    }
}

/// `a` followed by `b`.
fn concat(a: &str, b: &str) -> (r: String)
    ensures
        r@ == a@ + b@,
{
    let mut s = owned(a);
    s.append(b);
    s
}

impl PrefixIdsPlugin {
    /// A new plugin.
    pub fn new() -> (r: PrefixIdsPlugin) {
        PrefixIdsPlugin
    }

    /// The configuration that the parameters give: `prefix`, `delim`,
    /// `prefixIds` and `prefixClassNames`, each of the right kind, override
    /// the defaults.
    pub fn parse_config(&self, params: Option<&Value>) -> (r: PrefixIdsConfig)
        ensures
            opt_str(r.prefix) == string_param(opt_value(params), "prefix"@),
            r.delim@ == (match string_param(opt_value(params), "delim"@) {
                Some(d) => d,
                None => "__"@,
            }),
            r.prefix_ids == bool_param(opt_value(params), "prefixIds"@, true),
            r.prefix_class_names == bool_param(opt_value(params), "prefixClassNames"@, true),
    {
        let mut config = PrefixIdsConfig::default();
        config.prefix = get_string_param(params, "prefix");
        match get_string_param(params, "delim") {
            Some(d) => { config.delim = d; },
            None => {},
        }
        config.prefix_ids = get_flag(params, "prefixIds", true);
        config.prefix_class_names = get_flag(params, "prefixClassNames", true);
        config
    }

    /// The file name at the end of a path, after the last slash or
    /// backslash; empty when there is none.
    pub fn get_basename(path: &str) -> (r: String)
        ensures
            r@ == basename_of(path@),
    {
        match regex_captures("[/\\\\]?([^/\\\\]+)$", path) {
            Some(Some(g)) => {
                if g.len() > 1 {
                    match &g[1] {
                        Some(m) => m.clone(),
                        None => String::new(),
                    }
                } else {
                    String::new()
                }
            },
            _ => String::new(),
        }
    }

    /// `s` with each `.` and space turned into `_`.
    pub fn escape_identifier_name(s: &str) -> (r: String)
        ensures
            r@ == escaped_identifier(s@),
    {
        let cs = to_chars(s);
        let mut out: Vec<char> = Vec::new();
        let mut i: usize = 0;
        while i < cs.len()
            invariant
                i <= cs@.len(),
                cs@ == s@,
                out@ == escaped_identifier(cs@.take(i as int)),
            decreases cs.len() - i,
        {
            let c = cs[i];
            out.push(if c == '.' || c == ' ' { '_' } else { c });
            i = i + 1;
            assert(out@ =~= escaped_identifier(cs@.take(i as int)));
        }
        assert(cs@.take(cs@.len() as int) =~= cs@);
        from_chars(out.as_slice())
    }

    /// The prefix: the configured one, else the escaped file name, else
    /// `prefix`, followed by the delimiter.
    pub fn generate_prefix(&self, config: &PrefixIdsConfig, info: &PluginInfo) -> (r: String)
        ensures
            r@ == prefix_for(opt_str(config.prefix), config.delim@, opt_str(info.path)),
    {
        match &config.prefix {
            Some(p) => concat(p.as_str(), config.delim.as_str()),
            None => {
                match &info.path {
                    Some(path) => {
                        let base = Self::get_basename(path.as_str());
                        if !base.as_str().is_empty() {
                            let e = Self::escape_identifier_name(base.as_str());
                            concat(e.as_str(), config.delim.as_str())
                        } else {
                            concat("prefix", config.delim.as_str())
                        }
                    },
                    None => concat("prefix", config.delim.as_str()),
                }
            },
        }
    }

    /// `id` with the prefix in front, unless it already starts with it.
    pub fn prefix_id(&self, prefix: &str, id: &str) -> (r: String)
        ensures
            r@ == prefixed_id(prefix@, id@),
    {
        if str_starts_with(id, prefix) {
            owned(id)
        } else {
            concat(prefix, id)
        }
    }

    /// A reference `#id` with its id prefixed; `None` when it does not start
    /// with `#`.
    pub fn prefix_reference(&self, prefix: &str, reference: &str) -> (r: Option<String>)
        ensures
            opt_str(r) == prefixed_reference(prefix@, reference@),
    {
        let cs = to_chars(reference);
        if cs.len() > 0 && cs[0] == '#' {
            let rest = chars_from(cs.as_slice(), 1);
            let id = self.prefix_id(prefix, rest.as_str());
            let r = concat("#", id.as_str());
            proof {
                reveal_strlit("#");
                assert(cs@.skip(1) =~= cs@.drop_first());
            }
            Some(r)
        } else {
            None
        }
    }

    /// What a match becomes.
    fn rewrite_match(&self, k: RefStyle, whole: &str, group: &str, prefix: &str) -> (r: String)
        ensures
            r@ == rewritten_match(k, whole@, group@, prefix@),
    {
        match k {
            RefStyle::IdSelector => {
                proof { reveal_strlit("#"); }
                concat("#", self.prefix_id(prefix, group).as_str())
            },
            RefStyle::ClassSelector => {
                proof { reveal_strlit("."); }
                concat(".", self.prefix_id(prefix, group).as_str())
            },
            _ => match self.prefix_reference(prefix, group) {
                Some(p) => {
                    let (open, close): (&str, &str) = match k {
                        RefStyle::UrlDouble => ("url(\"", "\")"),
                        RefStyle::UrlSingle => ("url('", "')"),
                        _ => ("url(", ")"),
                    };
                    let a = concat(open, p.as_str());
                    concat(a.as_str(), close)
                },
                None => owned(whole),
            },
        }
    }

    /// Rewrites every reference of the given style.
    fn rewrite_refs(&self, k: RefStyle, text: &str, prefix: &str) -> (r: String)
        ensures
            r@ == rewritten_refs(k, text@, prefix@),
    {
        let pattern: &str = match k {
            RefStyle::UrlDouble => "\\burl\\(\"(#[^\"]+)\"\\)",
            RefStyle::UrlSingle => "\\burl\\('(#[^']+)'\\)",
            RefStyle::UrlBare => "\\burl\\((#[^)]+)\\)",
            RefStyle::IdSelector => "#([a-zA-Z][\\w-]*)",
            RefStyle::ClassSelector => "\\.([a-zA-Z][\\w-]*)",
        };
        assert(pattern@ == ref_pattern(k));
        match regex_segments(pattern, text) {
            Some((segs, tail)) => {
                let ghost sv = segment_views(segs@);
                let mut out = String::new();
                let mut i: usize = 0;
                while i < segs.len()
                    invariant
                        i <= segs@.len(),
                        sv == segment_views(segs@),
                        out@ == rebuilt(sv.take(i as int), k, prefix@),
                    decreases segs.len() - i,
                {
                    assert(sv.take(i + 1).drop_last() =~= sv.take(i as int));
                    assert(sv[i as int] == (segs@[i as int].0@, segs@[i as int].1@, segs@[i as int].2@));
                    out.append(segs[i].0.as_str());
                    let m = self.rewrite_match(k, segs[i].1.as_str(), segs[i].2.as_str(), prefix);
                    out.append(m.as_str());
                    i = i + 1;
                }
                assert(sv.take(segs@.len() as int) =~= sv);
                out.append(tail.as_str());
                out
            },
            None => owned(text),
        }
    }

    /// The value with its `url(#id)` references prefixed.
    fn process_url_references(&self, value: &str, prefix: &str) -> (r: String)
        ensures
            r@ == prefixed_urls(value@, prefix@),
    {
        let a = self.rewrite_refs(RefStyle::UrlDouble, value, prefix);
        let b = self.rewrite_refs(RefStyle::UrlSingle, a.as_str(), prefix);
        self.rewrite_refs(RefStyle::UrlBare, b.as_str(), prefix)
    }

    /// One part of an animation timing, trimmed, with `id.end` or
    /// `id.start` prefixed.
    fn animation_part(&self, part: &str, prefix: &str) -> (r: String)
        ensures
            r@ == animation_part(part@, prefix@),
    {
        let t = trim_str(part);
        if str_ends_with(t.as_str(), ".end") || str_ends_with(t.as_str(), ".start") {
            let cs = to_chars(t.as_str());
            let n = cs.len();
            match find_char(cs.as_slice(), '.') {
                Some(i) => {
                    let id = chars_until(cs.as_slice(), i);
                    let rest = chars_from(cs.as_slice(), i + 1);
                    let p = self.prefix_id(prefix, id.as_str());
                    let a = concat(p.as_str(), ".");
                    concat(a.as_str(), rest.as_str())
                },
                None => {
                    proof {
                        reveal_strlit(".end");
                        reveal_strlit(".start");
                        if has_suffix(t@, ".end"@) {
                            assert(t@.subrange(t@.len() - 4, t@.len() as int)[0] == '.');
                            crate::strings::lemma_char_index_found(t@, '.', t@.len() - 4);
                        } else {
                            assert(t@.subrange(t@.len() - 6, t@.len() as int)[0] == '.');
                            crate::strings::lemma_char_index_found(t@, '.', t@.len() - 6);
                        }
                    }
                    t
                },
            }
        } else {
            t
        }
    }

    /// An animation timing with its `id.end` and `id.start` references
    /// prefixed; the parts are trimmed and joined by `; `.
    fn process_animation_references(&self, value: &str, prefix: &str) -> (r: String)
        ensures
            r@ == prefixed_animation(value@, prefix@),
    {
        let parts = split_char(value, ';');
        let ghost pv = split_on(value@, ';');
        let mut out: Vec<String> = Vec::new();
        let mut i: usize = 0;
        while i < parts.len()
            invariant
                i <= parts@.len(),
                parts@.len() == pv.len(),
                forall|k: int| 0 <= k < parts@.len() ==> (#[trigger] parts@[k])@ == pv[k],
                out@.map_values(|s: String| s@) == animation_parts(pv.take(i as int), prefix@),
            decreases parts.len() - i,
        {
            let ghost before = out@;
            let p = self.animation_part(parts[i].as_str(), prefix);
            let ghost pval = p@;
            out.push(p);
            assert(out@.map_values(|s: String| s@) =~= before.map_values(|s: String| s@).push(pval));
            assert(animation_parts(pv.take(i + 1), prefix@) =~= animation_parts(pv.take(i as int), prefix@).push(animation_part(pv[i as int], prefix@)));
            i = i + 1;
        }
        assert(pv.take(pv.len() as int) =~= pv);
        join_strings(&out, "; ")
    }

    /// The class names with each one prefixed.
    fn prefix_classes(&self, value: &str, prefix: &str) -> (r: String)
        ensures
            r@ == prefixed_classes(value@, prefix@),
    {
        let names = split_whitespace(value);
        let ghost wv = words(value@);
        let mut out: Vec<String> = Vec::new();
        let mut i: usize = 0;
        while i < names.len()
            invariant
                i <= names@.len(),
                names@.len() == wv.len(),
                forall|k: int| 0 <= k < names@.len() ==> (#[trigger] names@[k])@ == wv[k],
                out@.map_values(|s: String| s@) == wv.take(i as int).map_values(|w: Seq<char>| prefixed_id(prefix@, w)),
            decreases names.len() - i,
        {
            let ghost before = out@;
            let p = self.prefix_id(prefix, names[i].as_str());
            let ghost pval = p@;
            out.push(p);
            assert(out@.map_values(|s: String| s@) =~= before.map_values(|s: String| s@).push(pval));
            assert(wv.take(i + 1).map_values(|w: Seq<char>| prefixed_id(prefix@, w)) =~= wv.take(i as int).map_values(|w: Seq<char>| prefixed_id(prefix@, w)).push(prefixed_id(prefix@, wv[i as int])));
            i = i + 1;
        }
        assert(wv.take(wv.len() as int) =~= wv);
        join_strings(&out, " ")
    }

    /// The contents of a `<style>` element with its selectors and references
    /// prefixed.
    fn process_style_content(&self, content: &str, prefix: &str, config: &PrefixIdsConfig) -> (r: String)
        ensures
            r@ == prefixed_style(content@, prefix@, config.prefix_ids, config.prefix_class_names),
    {
        let a = if config.prefix_ids {
            self.rewrite_refs(RefStyle::IdSelector, content, prefix)
        } else {
            owned(content)
        };
        let b = if config.prefix_class_names {
            self.rewrite_refs(RefStyle::ClassSelector, a.as_str(), prefix)
        } else {
            a
        };
        self.process_url_references(b.as_str(), prefix)
    }

    /// The new value of an attribute under a rule; `None` keeps it.
    fn rewrite_value(&self, rule: AttrRule, v: &str, prefix: &str) -> (r: Option<String>)
        ensures
            opt_str(r) == rewritten_value(rule, v@, prefix@),
    {
        match rule {
            AttrRule::Id => Some(self.prefix_id(prefix, v)),
            AttrRule::Class => Some(self.prefix_classes(v, prefix)),
            AttrRule::Href => self.prefix_reference(prefix, v),
            AttrRule::Url => Some(self.process_url_references(v, prefix)),
            AttrRule::Animation => Some(self.process_animation_references(v, prefix)),
        }
    }

    /// Applies one rule to the attributes of an element.
    fn apply_attr_rule(&self, e: &mut Element, name: &str, rule: AttrRule, prefix: &str)
        ensures
            attr_entries(final(e).attributes) == apply_rule(attr_entries(old(e).attributes), (name@, rule), prefix@),
            final(e).name == old(e).name,
            final(e).children == old(e).children,
            final(e).namespaces == old(e).namespaces,
    {
        let new_value = match e.attr(name) {
            Some(v) => {
                if !v.as_str().is_empty() {
                    self.rewrite_value(rule, v.as_str(), prefix)
                } else {
                    None
                }
            },
            None => None,
        };
        match new_value {
            Some(w) => e.set_attr(owned(name), w),
            None => {},
        }
    }

    /// Prefixes the attributes of an element, the contents of a `<style>`
    /// element, and all descendants.
    fn process_element(&self, e: &mut Element, prefix: &str, config: &PrefixIdsConfig)
        ensures
            elem_view(*final(e)) == pi_elem(elem_view(*old(e)), prefix@, config.prefix_ids, config.prefix_class_names),
        decreases *old(e),
    {
        let ghost rules = attr_rules(config.prefix_ids, config.prefix_class_names);
        let mut names: Vec<&str> = Vec::new();
        let mut kinds: Vec<AttrRule> = Vec::new();
        if config.prefix_ids {
            names.push("id");
            kinds.push(AttrRule::Id);
        }
        if config.prefix_class_names {
            names.push("class");
            kinds.push(AttrRule::Class);
        }
        names.push("href"); kinds.push(AttrRule::Href);
        names.push("xlink:href"); kinds.push(AttrRule::Href);
        names.push("clip-path"); kinds.push(AttrRule::Url);
        names.push("color-profile"); kinds.push(AttrRule::Url);
        names.push("fill"); kinds.push(AttrRule::Url);
        names.push("filter"); kinds.push(AttrRule::Url);
        names.push("marker-end"); kinds.push(AttrRule::Url);
        names.push("marker-mid"); kinds.push(AttrRule::Url);
        names.push("marker-start"); kinds.push(AttrRule::Url);
        names.push("mask"); kinds.push(AttrRule::Url);
        names.push("stroke"); kinds.push(AttrRule::Url);
        names.push("style"); kinds.push(AttrRule::Url);
        names.push("begin"); kinds.push(AttrRule::Animation);
        names.push("end"); kinds.push(AttrRule::Animation);
        assert(names@.len() == rules.len());
        assert forall|k: int| 0 <= k < rules.len() implies
            (#[trigger] rules[k]).0 == names@[k]@ && rules[k].1 == kinds@[k] by {
        }
        let ghost a0 = attr_entries(e.attributes);
        let mut i: usize = 0;
        while i < names.len()
            invariant
                i <= names@.len(),
                names@.len() == kinds@.len(),
                names@.len() == rules.len(),
                forall|k: int| 0 <= k < rules.len() ==> (#[trigger] rules[k]).0 == names@[k]@ && rules[k].1 == kinds@[k],
                attr_entries(e.attributes) == apply_rules(a0, rules.take(i as int), prefix@),
                e.name == old(e).name,
                e.children == old(e).children,
                e.namespaces == old(e).namespaces,
            decreases names.len() - i,
        {
            assert(rules.take(i + 1).drop_last() =~= rules.take(i as int));
            assert(rules.take(i + 1).last() == (names@[i as int]@, kinds@[i as int]));
            self.apply_attr_rule(e, names[i], kinds[i], prefix);
            i = i + 1;
        }
        assert(rules.take(rules.len() as int) =~= rules);
        let in_style = str_eq(e.name.as_str(), "style");
        let mut old_children: Vec<Node> = Vec::new();
        std::mem::swap(&mut old_children, &mut e.children);
        let ghost orig = old_children@;
        let mut out: Vec<Node> = Vec::new();
        let n = old_children.len();
        let mut j: usize = 0;
        proof { lemma_nodes_view(orig); }
        while j < n
            invariant
                n == orig.len(), j <= n,
                orig == old(e).children@,
                old_children@ == orig.subrange(j as int, n as int),
                nodes_view(orig).len() == n,
                forall|k: int| 0 <= k < n ==> #[trigger] nodes_view(orig)[k] == node_view(orig[k]),
                nodes_view(out@) == pi_children(nodes_view(orig).take(j as int), in_style, prefix@,
                    config.prefix_ids, config.prefix_class_names),
                forall|k: int| 0 <= k < n ==> decreases_to!(*old(e) => #[trigger] orig[k]),
            decreases n - j,
        {
            let child = old_children.remove(0);
            assert(child == orig[j as int]);
            assert(nodes_view(orig).take(j + 1).drop_last() =~= nodes_view(orig).take(j as int));
            let next = match child {
                Node::Element(mut ce) => {
                    self.process_element(&mut ce, prefix, config);
                    Node::Element(ce)
                },
                Node::Text(t) => {
                    if in_style {
                        Node::Text(self.process_style_content(t.as_str(), prefix, config))
                    } else {
                        Node::Text(t)
                    }
                },
                other => other,
            };
            proof { lemma_nodes_view_push(out@, next); }
            out.push(next);
            j = j + 1;
        }
        assert(nodes_view(orig).take(n as int) =~= nodes_view(orig));
        e.children = out;
    }
}

impl Plugin for PrefixIdsPlugin {
    fn name(&self) -> (r: &'static str)
        ensures
            r@ == "prefixIds"@,
    {
        "prefixIds"
    }

    fn description(&self) -> (r: &'static str)
        ensures
            r@ == "prefix IDs"@,
    {
        "prefix IDs"
    }

    fn apply(&mut self, document: &mut Document, plugin_info: &PluginInfo, params: Option<&Value>) -> (r: PluginResult<()>)
        ensures
            r is Ok,
            ({
                let p = opt_value(params);
                let prefix = prefix_for(string_param(p, "prefix"@),
                    match string_param(p, "delim"@) { Some(d) => d, None => "__"@ },
                    opt_str(plugin_info.path));
                elem_view(final(document).root) == pi_elem(elem_view(old(document).root), prefix,
                    bool_param(p, "prefixIds"@, true), bool_param(p, "prefixClassNames"@, true))
            }),
            final(document).prologue == old(document).prologue,
            final(document).epilogue == old(document).epilogue,
            final(document).metadata == old(document).metadata,
    {
        let config = self.parse_config(params);
        let prefix = self.generate_prefix(&config, plugin_info);
        self.process_element(&mut document.root, prefix.as_str(), &config);
        Ok(())
    }
}

} // verus!
