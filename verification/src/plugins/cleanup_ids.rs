//! Removes the ids that nothing refers to and gives the others short names,
//! keeping every reference in step with its target.

use vstd::prelude::*;
use std::collections::HashMap;
use crate::ast::{Document, Element, ElementView, Node, NodeView, attr_entries, attr_pairs, elem_view,
    entry_insert, entry_lookup, entry_remove, lemma_nodes_view, lemma_nodes_view_push, node_view,
    keys_distinct, nodes_view, pair_views};
use crate::pattern::{regex_captures, regex_captures_result, regex_segments, regex_segments_result,
    segment_views};
use crate::plugin::{Plugin, PluginError, PluginInfo, PluginResult};
use crate::plugins::remove_elements_by_attr::{object_member, strings_in};
use crate::strings::{utf8_bytes, from_chars, has_prefix, has_suffix, leading_ws_len, matches_at, owned, replace_all,
    replace_str, str_eq, str_ends_with, str_starts_with, str_seq, to_chars, trim_start};
use crate::value::{Value, get_bool_param, opt_value, param_bool};

verus! {

/// The letters that short names are made of, in order.
pub open spec fn name_letters() -> Seq<char> {
    seq!['a', 'b', 'c', 'd', 'e', 'f', 'g', 'h', 'i', 'j', 'k', 'l', 'm', 'n', 'o', 'p', 'q', 'r', 's',
        't', 'u', 'v', 'w', 'x', 'y', 'z', 'A', 'B', 'C', 'D', 'E', 'F', 'G', 'H', 'I', 'J', 'K', 'L',
        'M', 'N', 'O', 'P', 'Q', 'R', 'S', 'T', 'U', 'V', 'W', 'X', 'Y', 'Z']
}

/// The `n`-th short name, counted from 1: `n` written in bijective base 52
/// over `name_letters`, so that the names run a, …, Z, aa, …, aZ, ba, …
pub open spec fn short_name(n: nat) -> Seq<char>
    decreases n,
{
    if n == 0 {
        Seq::empty()
    } else {
        short_name(((n - 1) / 52) as nat).push(name_letters()[(n - 1) % 52])
    }
}

/// Whether an id is kept as it is: it is listed, or begins with a listed
/// prefix.
pub open spec fn is_preserved(id: Seq<char>, preserve: Seq<Seq<char>>, prefixes: Seq<Seq<char>>) -> bool {
    preserve.contains(id) || exists|i: int| 0 <= i < prefixes.len() && has_prefix(id, #[trigger] prefixes[i])
}

/// The settings of the plugin.
#[derive(Debug)]
pub struct CleanupIdsConfig {
    /// Remove the ids that nothing refers to.
    pub remove: bool,
    /// Give the ids that are referred to short names.
    pub minify: bool,
    /// Ids kept as they are.
    pub preserve: Vec<String>,
    /// Ids beginning with one of these are kept as they are.
    pub preserve_prefixes: Vec<String>,
    /// Work even where the document has scripts or styles.
    pub force: bool,
}

/// The string items of the array parameter `key`, or none.
pub open spec fn param_strings(params: Option<Value>, key: Seq<char>) -> Seq<Seq<char>> {
    match object_member(params, key) {
        Some(Value::Array(items)) => strings_in(items@),
        _ => Seq::empty(),
    }
}

/// The settings of the plugin as plain values.
pub struct IdSettings {
    pub remove: bool,
    pub minify: bool,
    pub preserve: Seq<Seq<char>>,
    pub prefixes: Seq<Seq<char>>,
    pub force: bool,
}

impl View for CleanupIdsConfig {
    type V = IdSettings;

    open spec fn view(&self) -> IdSettings {
        IdSettings {
            remove: self.remove,
            minify: self.minify,
            preserve: str_seq(self.preserve@),
            prefixes: str_seq(self.preserve_prefixes@),
            force: self.force,
        }
    }
}

/// The settings that the parameters give: `remove` and `minify` default to
/// true, `force` to false, `preserve` and `preservePrefixes` to none.
pub open spec fn settings_of(params: Option<Value>) -> IdSettings {
    IdSettings {
        remove: param_bool(params, "remove"@, true),
        minify: param_bool(params, "minify"@, true),
        preserve: param_strings(params, "preserve"@),
        prefixes: param_strings(params, "preservePrefixes"@),
        force: param_bool(params, "force"@, false),
    }
}

/// The string items of the array parameter `key`.
fn string_param(params: Option<&Value>, key: &str) -> (r: Vec<String>)
    ensures
        str_seq(r@) == param_strings(opt_value(params), key@),
{
    let mut out: Vec<String> = Vec::new();
    assert(str_seq(out@) =~= Seq::<Seq<char>>::empty());
    if let Some(Value::Object(_)) = params {
        if let Some(Value::Array(items)) = params.unwrap().get(key) {
            let mut i: usize = 0;
            while i < items.len()
                invariant
                    i <= items@.len(),
                    str_seq(out@) == strings_in(items@.take(i as int)),
                decreases items.len() - i,
            {
                assert(items@.take(i + 1).drop_last() =~= items@.take(i as int));
                if let Value::String(s) = &items[i] {
                    let ghost before = out@;
                    out.push(s.clone());
                    assert(str_seq(out@) =~= str_seq(before).push(s@));
                }
                i = i + 1;
            }
            assert(items@.take(items@.len() as int) =~= items@);
        }
    }
    out
}

impl CleanupIdsConfig {
    /// The settings that the parameters give: `remove` and `minify` default
    /// to true, `force` to false, `preserve` and `preservePrefixes` to none.
    pub fn from_params(params: Option<&Value>) -> (r: CleanupIdsConfig)
        ensures
            r@ == settings_of(opt_value(params)),
    {
        CleanupIdsConfig {
            remove: get_bool_param(params, "remove", true),
            minify: get_bool_param(params, "minify", true),
            preserve: string_param(params, "preserve"),
            preserve_prefixes: string_param(params, "preservePrefixes"),
            force: get_bool_param(params, "force", false),
        }
    }

    /// Whether an id is kept as it is.
    pub fn is_id_preserved(&self, id: &str) -> (r: bool)
        ensures
            r == is_preserved(id@, str_seq(self.preserve@), str_seq(self.preserve_prefixes@)),
    {
        let ghost pv = str_seq(self.preserve@);
        let ghost xv = str_seq(self.preserve_prefixes@);
        let mut i: usize = 0;
        while i < self.preserve.len()
            invariant
                i <= self.preserve@.len(), pv == str_seq(self.preserve@),
                forall|k: int| 0 <= k < i ==> pv[k] != id@,
            decreases self.preserve.len() - i,
        {
            if str_eq(self.preserve[i].as_str(), id) {
                assert(pv[i as int] == id@);
                return true;
            }
            i = i + 1;
        }
        let mut j: usize = 0;
        while j < self.preserve_prefixes.len()
            invariant
                j <= self.preserve_prefixes@.len(), xv == str_seq(self.preserve_prefixes@),
                !pv.contains(id@),
                forall|k: int| 0 <= k < j ==> !has_prefix(id@, #[trigger] xv[k]),
            decreases self.preserve_prefixes.len() - j,
        {
            if str_starts_with(id, self.preserve_prefixes[j].as_str()) {
                assert(has_prefix(id@, xv[j as int]));
                return true;
            }
            j = j + 1;
        }
        false
    }
}

/// The letter of a digit of a short name.
fn name_letter(d: u64) -> (c: char)
    requires
        d < 52,
    ensures
        c == name_letters()[d as int],
{
    let letters: Vec<char> = vec!['a', 'b', 'c', 'd', 'e', 'f', 'g', 'h', 'i', 'j', 'k', 'l', 'm', 'n', 'o',
        'p', 'q', 'r', 's', 't', 'u', 'v', 'w', 'x', 'y', 'z', 'A', 'B', 'C', 'D', 'E', 'F', 'G', 'H', 'I',
        'J', 'K', 'L', 'M', 'N', 'O', 'P', 'Q', 'R', 'S', 'T', 'U', 'V', 'W', 'X', 'Y', 'Z'];
    assert(letters@ =~= name_letters());
    letters[d as usize]
}

fn short_name_chars(n: u64) -> (r: Vec<char>)
    ensures
        r@ == short_name(n as nat),
    decreases n,
{
    if n == 0 {
        Vec::new()
    } else {
        let mut r = short_name_chars((n - 1) / 52);
        r.push(name_letter((n - 1) % 52));
        r
    }
}

/// The `n`-th short name.
pub fn short_name_of(n: u64) -> (r: String)
    ensures
        r@ == short_name(n as nat),
{
    let cs = short_name_chars(n);
    from_chars(cs.as_slice())
}

/// Whether `o` lists each index below `n` once.
pub open spec fn is_order(o: Seq<usize>, n: nat) -> bool {
    &&& o.len() == n
    &&& forall|i: int| 0 <= i < o.len() ==> (#[trigger] o[i]) < n
    &&& forall|i: int, j: int| 0 <= i < j < o.len() ==> #[trigger] o[i] != #[trigger] o[j]
}

/// The items of `s` in the order `o`.
pub open spec fn reordered<A>(s: Seq<A>, o: Seq<usize>) -> Seq<A> {
    Seq::new(o.len(), |i: int| s[o[i] as int])
}

/// The order in which a `std::collections::HashMap` keyed by the given
/// distinct strings walks its keys, as indices into `keys`.  The map is
/// seeded anew in each process, so the contract says only that each index
/// comes once.
#[verifier::external_body]
pub(crate) fn hash_walk_order(keys: &Vec<String>) -> (r: Vec<usize>)
    requires
        str_seq(keys@).no_duplicates(),
    ensures
        is_order(r@, keys@.len()),
{
    let map: HashMap<&str, usize> = keys.iter().enumerate().map(|(i, k)| (k.as_str(), i)).collect();
    map.values().copied().collect()
}

/// Whether a byte stands for itself in a percent-encoding: an ASCII letter
/// or digit, or one of `-`, `.`, `_`, `~`.
pub open spec fn url_safe_byte(b: u8) -> bool {
    ||| 0x30 <= b <= 0x39
    ||| 0x41 <= b <= 0x5A
    ||| 0x61 <= b <= 0x7A
    ||| b == 0x2D || b == 0x2E || b == 0x5F || b == 0x7E
}

/// An upper-case hexadecimal digit.
pub open spec fn hex_digit_upper(d: int) -> char {
    if d < 10 { ('0' as int + d) as char } else { ('A' as int + (d - 10)) as char }
}

/// How one byte is written: itself when safe, else `%` and its two
/// upper-case hexadecimal digits.
pub open spec fn url_byte(b: u8) -> Seq<char> {
    if url_safe_byte(b) {
        seq![b as char]
    } else {
        seq!['%', hex_digit_upper(b as int / 16), hex_digit_upper(b as int % 16)]
    }
}

/// The percent-encoding of bytes, byte after byte.
pub open spec fn url_bytes(b: Seq<u8>) -> Seq<char>
    decreases b.len(),
{
    if b.len() == 0 {
        Seq::empty()
    } else {
        url_bytes(b.drop_last()) + url_byte(b.last())
    }
}

/// What `urlencoding::encode` gives for a text: the percent-encoding of its
/// UTF-8 bytes.
pub open spec fn url_encoding(s: Seq<char>) -> Seq<char> {
    url_bytes(utf8_bytes(s))
}

/// Percent-encodes a text with `urlencoding::encode`: every byte of its
/// UTF-8 form but ASCII letters, digits and `-_.~` becomes `%` and two
/// upper-case hexadecimal digits.
#[verifier::external_body]
pub(crate) fn url_encode_id(s: &str) -> (r: String)
    ensures
        r@ == url_encoding(s@),
{
    urlencoding::encode(s).into_owned()
}


/// Whether an attribute name is an event handler (`onclick`, `onload`, ...).
pub open spec fn has_event_attr(a: Seq<(Seq<char>, Seq<char>)>) -> bool {
    exists|i: int| 0 <= i < a.len() && has_prefix(#[trigger] a[i].0, "on"@)
}

/// Whether an element or one of its descendants runs script: a non-empty
/// `<script>`, a link to `javascript:`, or an event attribute.
pub open spec fn scripted(e: ElementView) -> bool
    decreases e,
{
    ||| e.name == "script"@ && e.children.len() > 0
    ||| e.name == "a"@ && match entry_lookup(e.attrs, "href"@) {
        Some(h) => has_prefix(trim_start(h), "javascript:"@),
        None => false,
    }
    ||| has_event_attr(e.attrs)
    ||| scripted_children(e.children)
}

pub open spec fn scripted_children(s: Seq<NodeView>) -> bool
    decreases s,
{
    if s.len() == 0 {
        false
    } else {
        scripted_children(s.drop_last()) || match s.last() {
            NodeView::Element(c) => scripted(c),
            _ => false,
        }
    }
}

/// Whether an element or one of its descendants is a non-empty `<style>`.
pub open spec fn styled(e: ElementView) -> bool
    decreases e,
{
    (e.name == "style"@ && e.children.len() > 0) || styled_children(e.children)
}

pub open spec fn styled_children(s: Seq<NodeView>) -> bool
    decreases s,
{
    if s.len() == 0 {
        false
    } else {
        styled_children(s.drop_last()) || match s.last() {
            NodeView::Element(c) => styled(c),
            _ => false,
        }
    }
}

proof fn lemma_scripted_prefix(s: Seq<NodeView>, k: int)
    requires
        0 <= k <= s.len(),
        scripted_children(s.take(k)),
    ensures
        scripted_children(s),
    decreases s.len() - k,
{
    if k < s.len() {
        assert(s.take(k + 1).drop_last() =~= s.take(k));
        lemma_scripted_prefix(s, k + 1);
    } else {
        assert(s.take(k) =~= s);
    }
}

proof fn lemma_styled_prefix(s: Seq<NodeView>, k: int)
    requires
        0 <= k <= s.len(),
        styled_children(s.take(k)),
    ensures
        styled_children(s),
    decreases s.len() - k,
{
    if k < s.len() {
        assert(s.take(k + 1).drop_last() =~= s.take(k));
        lemma_styled_prefix(s, k + 1);
    } else {
        assert(s.take(k) =~= s);
    }
}

fn links_to_script(e: &Element) -> (r: bool)
    ensures
        r == match entry_lookup(attr_entries(e.attributes), "href"@) {
            Some(h) => has_prefix(trim_start(h), "javascript:"@),
            None => false,
        },
{
    match e.attr("href") {
        Some(h) => {
            let cs = to_chars(h.as_str());
            let i = leading_ws_len(cs.as_slice());
            let p = to_chars("javascript:");
            let m = matches_at(cs.as_slice(), p.as_slice(), i);
            proof {
                let t = cs@.subrange(i as int, cs@.len() as int);
                if m {
                    assert(t.subrange(0, p@.len() as int) =~= cs@.subrange(i as int, i + p@.len()));
                } else if p@.len() <= t.len() {
                    assert(t.subrange(0, p@.len() as int) =~= cs@.subrange(i as int, i + p@.len()));
                }
            }
            m
        },
        None => false,
    }
}

fn has_event_attribute(e: &Element) -> (r: bool)
    ensures
        r == has_event_attr(attr_entries(e.attributes)),
{
    let pairs = attr_pairs(&e.attributes);
    let ghost a = attr_entries(e.attributes);
    let mut i: usize = 0;
    while i < pairs.len()
        invariant
            i <= pairs@.len(), pairs@.len() == a.len(), a == attr_entries(e.attributes),
            forall|k: int| 0 <= k < pairs@.len() ==> (#[trigger] pairs@[k]).0@ == a[k].0 && pairs@[k].1@ == a[k].1,
            forall|k: int| 0 <= k < i ==> !has_prefix(#[trigger] a[k].0, "on"@),
        decreases pairs.len() - i,
    {
        if str_starts_with(pairs[i].0.as_str(), "on") {
            assert(has_prefix(a[i as int].0, "on"@));
            assert(has_event_attr(a));
            return true;
        }
        i = i + 1;
    }
    false
}

/// Whether the element or one of its descendants runs script.
pub fn has_scripts(e: &Element) -> (r: bool)
    ensures
        r == scripted(elem_view(*e)),
    decreases *e,
{
    let ghost v = elem_view(*e);
    proof { lemma_nodes_view(e.children@); }
    if str_eq(e.name.as_str(), "script") && e.children.len() > 0 {
        return true;
    }
    if str_eq(e.name.as_str(), "a") && links_to_script(e) {
        return true;
    }
    if has_event_attribute(e) {
        return true;
    }
    let mut i: usize = 0;
    while i < e.children.len()
        invariant
            i <= e.children@.len(),
            v == elem_view(*e),
            v.children.len() == e.children@.len(),
            forall|j: int| 0 <= j < e.children@.len() ==> #[trigger] v.children[j] == node_view(e.children@[j]),
            !scripted_children(v.children.take(i as int)),
        decreases e.children.len() - i,
    {
        assert(v.children.take(i + 1).drop_last() =~= v.children.take(i as int));
        if let Node::Element(c) = &e.children[i] {
            assert(decreases_to!(*e => e.children@[i as int]));
            if has_scripts(c) {
                proof { lemma_scripted_prefix(v.children, i + 1); }
                return true;
            }
        }
        i = i + 1;
    }
    assert(v.children.take(v.children.len() as int) =~= v.children);
    false
}

/// Whether the element or one of its descendants is a non-empty `<style>`.
pub fn has_styles(e: &Element) -> (r: bool)
    ensures
        r == styled(elem_view(*e)),
    decreases *e,
{
    let ghost v = elem_view(*e);
    proof { lemma_nodes_view(e.children@); }
    if str_eq(e.name.as_str(), "style") && e.children.len() > 0 {
        return true;
    }
    let mut i: usize = 0;
    while i < e.children.len()
        invariant
            i <= e.children@.len(),
            v == elem_view(*e),
            v.children.len() == e.children@.len(),
            forall|j: int| 0 <= j < e.children@.len() ==> #[trigger] v.children[j] == node_view(e.children@[j]),
            !styled_children(v.children.take(i as int)),
        decreases e.children.len() - i,
    {
        assert(v.children.take(i + 1).drop_last() =~= v.children.take(i as int));
        if let Node::Element(c) = &e.children[i] {
            assert(decreases_to!(*e => e.children@[i as int]));
            if has_styles(c) {
                proof { lemma_styled_prefix(v.children, i + 1); }
                return true;
            }
        }
        i = i + 1;
    }
    assert(v.children.take(v.children.len() as int) =~= v.children);
    false
}


/// The properties whose values may hold `url(#id)` references.
pub open spec fn reference_props() -> Seq<Seq<char>> {
    seq!["clip-path"@, "color-profile"@, "fill"@, "filter"@, "marker-end"@, "marker-mid"@, "marker-start"@,
        "mask"@, "stroke"@, "style"@]
}

/// Whether an attribute name is `href` or ends in `:href`.
pub open spec fn is_href_name(n: Seq<char>) -> bool {
    n == "href"@ || has_suffix(n, ":href"@)
}

/// The pattern of an unquoted `url(#id)` reference.
pub open spec fn url_ref_pattern() -> Seq<char> {
    "\\burl\\(#([^)]+)\\)"@
}

/// The pattern of a quoted `url('#id')` reference.
pub open spec fn quoted_ref_pattern() -> Seq<char> {
    "\\burl\\([\"']#([^\"']+)[\"']\\)"@
}

/// The pattern of an `#id` link.
pub open spec fn href_ref_pattern() -> Seq<char> {
    "^#(.+?)$"@
}

/// The pattern of an `id.event` timing reference.
pub open spec fn begin_ref_pattern() -> Seq<char> {
    "(\\w+)\\.[a-zA-Z]"@
}

/// The first group of each match of `pattern` in `text`, in order (in the
/// patterns above the group always takes part in a match).
pub open spec fn match_groups(pattern: Seq<char>, text: Seq<char>) -> Seq<Seq<char>> {
    match regex_segments_result(pattern, text) {
        Some((segs, _)) => segs.map_values(|t: (Seq<char>, Seq<char>, Seq<char>)| t.2),
        None => Seq::empty(),
    }
}

/// The first group of the first match of `pattern` in `text`, if any.
pub open spec fn first_match_group(pattern: Seq<char>, text: Seq<char>) -> Seq<Seq<char>> {
    match regex_captures_result(pattern, text) {
        Some(Some(g)) => if g.len() > 1 && g[1] is Some {
            seq![g[1]->0]
        } else {
            Seq::empty()
        },
        _ => Seq::empty(),
    }
}

/// The ids that one attribute refers to, in order.
pub open spec fn refs_of(name: Seq<char>, value: Seq<char>) -> Seq<Seq<char>> {
    (if reference_props().contains(name) {
        match_groups(url_ref_pattern(), value) + match_groups(quoted_ref_pattern(), value)
    } else {
        Seq::empty()
    }) + (if is_href_name(name) {
        first_match_group(href_ref_pattern(), value)
    } else {
        Seq::empty()
    }) + (if name == "begin"@ {
        first_match_group(begin_ref_pattern(), value)
    } else {
        Seq::empty()
    })
}

/// The ids that the attributes refer to, in order.
pub open spec fn attr_refs(a: Seq<(Seq<char>, Seq<char>)>) -> Seq<Seq<char>>
    decreases a.len(),
{
    if a.len() == 0 {
        Seq::empty()
    } else {
        attr_refs(a.drop_last()) + refs_of(a.last().0, a.last().1)
    }
}

/// The ids that an element and its descendants refer to, in document order.
pub open spec fn refs_in(e: ElementView) -> Seq<Seq<char>>
    decreases e,
{
    attr_refs(e.attrs) + refs_in_children(e.children)
}

pub open spec fn refs_in_children(s: Seq<NodeView>) -> Seq<Seq<char>>
    decreases s,
{
    if s.len() == 0 {
        Seq::empty()
    } else {
        refs_in_children(s.drop_last()) + match s.last() {
            NodeView::Element(c) => refs_in(c),
            _ => Seq::empty(),
        }
    }
}

/// The ids of an element and its descendants, in document order, repeats
/// included.
pub open spec fn ids_in(e: ElementView) -> Seq<Seq<char>>
    decreases e,
{
    (match entry_lookup(e.attrs, "id"@) {
        Some(x) => seq![x],
        None => Seq::empty(),
    }) + ids_in_children(e.children)
}

pub open spec fn ids_in_children(s: Seq<NodeView>) -> Seq<Seq<char>>
    decreases s,
{
    if s.len() == 0 {
        Seq::empty()
    } else {
        ids_in_children(s.drop_last()) + match s.last() {
            NodeView::Element(c) => ids_in(c),
            _ => Seq::empty(),
        }
    }
}

/// `acc` with `x` appended, unless it holds `x` already.
pub open spec fn add_one(acc: Seq<Seq<char>>, x: Seq<char>) -> Seq<Seq<char>> {
    if acc.contains(x) { acc } else { acc.push(x) }
}

/// `acc` with the items of `s` that it lacks appended, each once, in the
/// order of their first occurrence.
pub open spec fn add_new(acc: Seq<Seq<char>>, s: Seq<Seq<char>>) -> Seq<Seq<char>>
    decreases s.len(),
{
    if s.len() == 0 {
        acc
    } else {
        add_one(add_new(acc, s.drop_last()), s.last())
    }
}

pub proof fn lemma_add_new_append(acc: Seq<Seq<char>>, a: Seq<Seq<char>>, b: Seq<Seq<char>>)
    ensures
        add_new(acc, a + b) == add_new(add_new(acc, a), b),
    decreases b.len(),
{
    if b.len() == 0 {
        assert(a + b =~= a);
    } else {
        assert((a + b).drop_last() =~= a + b.drop_last());
        lemma_add_new_append(acc, a, b.drop_last());
    }
}

pub proof fn lemma_add_new_props(acc: Seq<Seq<char>>, s: Seq<Seq<char>>)
    ensures
        acc.no_duplicates() ==> add_new(acc, s).no_duplicates(),
        forall|x: Seq<char>| add_new(acc, s).contains(x) <==> (acc.contains(x) || s.contains(x)),
    decreases s.len(),
{
    if s.len() > 0 {
        lemma_add_new_props(acc, s.drop_last());
        let p = add_new(acc, s.drop_last());
        assert forall|x: Seq<char>| add_new(acc, s).contains(x) <==> (acc.contains(x) || s.contains(x)) by {
            if s.contains(x) && !s.drop_last().contains(x) {
                assert(x == s.last()) by {
                    let k = choose|k: int| 0 <= k < s.len() && s[k] == x;
                    if k < s.len() - 1 { assert(s.drop_last()[k] == x); }
                }
            }
            if s.drop_last().contains(x) {
                let k = choose|k: int| 0 <= k < s.drop_last().len() && s.drop_last()[k] == x;
                assert(s[k] == x);
            }
            if x == s.last() {
                assert(s[s.len() - 1] == x);
            }
            if add_new(acc, s).contains(x) && !p.contains(x) {
                let k = choose|k: int| 0 <= k < add_new(acc, s).len() && add_new(acc, s)[k] == x;
                if k < p.len() { assert(p[k] == x); }
            }
            if p.contains(x) {
                let k = choose|k: int| 0 <= k < p.len() && p[k] == x;
                if !p.contains(s.last()) { assert(p.push(s.last())[k] == x); }
            }
            if x == s.last() && !p.contains(x) {
                assert(p.push(x)[p.len() as int] == x);
            }
        }
        if acc.no_duplicates() && !p.contains(s.last()) {
            assert forall|i: int, j: int| 0 <= i < j < p.push(s.last()).len() implies
                p.push(s.last())[i] != p.push(s.last())[j] by {
                if j == p.len() { assert(p[i] != s.last()); }
            }
        }
    }
}

/// Appends `x` to `v` unless `v` holds it already.
fn push_new(v: &mut Vec<String>, x: String)
    ensures
        str_seq(final(v)@) == add_one(str_seq(old(v)@), x@),
{
    if !contains_text(v, x.as_str()) {
        let ghost before = v@;
        v.push(x);
        assert(str_seq(v@) =~= str_seq(before).push(x@));
    }
}

fn contains_text(v: &Vec<String>, x: &str) -> (r: bool)
    ensures
        r == str_seq(v@).contains(x@),
{
    let ghost sv = str_seq(v@);
    let mut i: usize = 0;
    while i < v.len()
        invariant
            i <= v@.len(), sv == str_seq(v@),
            forall|k: int| 0 <= k < i ==> sv[k] != x@,
        decreases v.len() - i,
    {
        if str_eq(v[i].as_str(), x) {
            assert(sv[i as int] == x@);
            return true;
        }
        i = i + 1;
    }
    false
}

fn is_reference_prop(name: &str) -> (r: bool)
    ensures
        r == reference_props().contains(name@),
{
    let mut props: Vec<String> = Vec::new();
    props.push(owned("clip-path"));
    props.push(owned("color-profile"));
    props.push(owned("fill"));
    props.push(owned("filter"));
    props.push(owned("marker-end"));
    props.push(owned("marker-mid"));
    props.push(owned("marker-start"));
    props.push(owned("mask"));
    props.push(owned("stroke"));
    props.push(owned("style"));
    assert(str_seq(props@) =~= reference_props());
    contains_text(&props, name)
}

fn is_href_attr(name: &str) -> (r: bool)
    ensures
        r == is_href_name(name@),
{
    str_eq(name, "href") || str_ends_with(name, ":href")
}

fn append_all(a: &mut Vec<String>, b: Vec<String>)
    ensures
        str_seq(final(a)@) == str_seq(old(a)@) + str_seq(b@),
{
    let ghost a0 = str_seq(a@);
    let mut rest = b;
    let ghost bv = str_seq(rest@);
    let n = rest.len();
    let mut i: usize = 0;
    while i < n
        invariant
            i <= n, n == bv.len(), str_seq(rest@) == bv.skip(i as int), rest@.len() == n - i,
            str_seq(a@) == a0 + bv.take(i as int),
        decreases n - i,
    {
        let ghost before = rest@;
        assert(str_seq(before)[0] == before[0]@);
        let x = rest.remove(0);
        assert(str_seq(rest@) =~= str_seq(before).drop_first());
        assert(x@ == bv[i as int]);
        let ghost ab = a@;
        a.push(x);
        assert(str_seq(a@) =~= str_seq(ab).push(bv[i as int]));
        i = i + 1;
        assert(a0 + bv.take(i as int) =~= (a0 + bv.take(i - 1)).push(bv[i - 1]));
    }
    assert(bv.take(n as int) =~= bv);
}

/// The first group of each match of `pattern` in `text`.
fn match_groups_of(pattern: &str, text: &str) -> (r: Vec<String>)
    ensures
        str_seq(r@) == match_groups(pattern@, text@),
{
    let mut out: Vec<String> = Vec::new();
    match regex_segments(pattern, text) {
        Some((segs, _)) => {
            let ghost g = match_groups(pattern@, text@);
            assert(g.len() == segs@.len());
            let mut k: usize = 0;
            while k < segs.len()
                invariant
                    k <= segs@.len(), g.len() == segs@.len(),
                    forall|j: int| 0 <= j < segs@.len() ==> #[trigger] g[j] == segs@[j].2@,
                    str_seq(out@) == g.take(k as int),
                decreases segs.len() - k,
            {
                let ghost before = out@;
                out.push(segs[k].2.clone());
                assert(str_seq(out@) =~= str_seq(before).push(g[k as int]));
                k = k + 1;
                assert(str_seq(out@) =~= g.take(k as int));
            }
            assert(g.take(segs@.len() as int) =~= g);
        },
        None => {
            assert(str_seq(out@) =~= Seq::<Seq<char>>::empty());
        },
    }
    out
}

/// The first group of the first match of `pattern` in `text`, if any.
fn first_group_of(pattern: &str, text: &str) -> (r: Vec<String>)
    ensures
        str_seq(r@) == first_match_group(pattern@, text@),
{
    let mut out: Vec<String> = Vec::new();
    match regex_captures(pattern, text) {
        Some(Some(g)) => {
            if g.len() > 1 {
                match &g[1] {
                    Some(x) => {
                        out.push(x.clone());
                    },
                    None => {},
                }
            }
        },
        _ => {},
    }
    assert(str_seq(out@) =~= first_match_group(pattern@, text@));
    out
}

/// The ids that an attribute refers to, in order: `url(#id)` and
/// `url('#id')` in the properties that take references, `#id` in links,
/// `id.event` in `begin`.
pub fn find_references(attribute: &str, value: &str) -> (r: Vec<String>)
    ensures
        str_seq(r@) == refs_of(attribute@, value@),
{
    let mut out: Vec<String> = Vec::new();
    assert(str_seq(out@) =~= Seq::<Seq<char>>::empty());
    if is_reference_prop(attribute) {
        append_all(&mut out, match_groups_of("\\burl\\(#([^)]+)\\)", value));
        append_all(&mut out, match_groups_of("\\burl\\([\"']#([^\"']+)[\"']\\)", value));
    }
    if is_href_attr(attribute) {
        append_all(&mut out, first_group_of("^#(.+?)$", value));
    }
    if str_eq(attribute, "begin") {
        append_all(&mut out, first_group_of("(\\w+)\\.[a-zA-Z]", value));
    }
    assert(str_seq(out@) =~= refs_of(attribute@, value@));
    out
}

/// Adds the ids that one attribute refers to, each once.
fn add_attr_refs(name: &str, value: &str, refs: &mut Vec<String>)
    ensures
        str_seq(final(refs)@) == add_new(str_seq(old(refs)@), refs_of(name@, value@)),
{
    let ghost acc = str_seq(refs@);
    let found = find_references(name, value);
    let ghost fv = str_seq(found@);
    let mut k: usize = 0;
    assert(fv.take(0) =~= Seq::<Seq<char>>::empty());
    while k < found.len()
        invariant
            k <= found@.len(), fv == str_seq(found@),
            str_seq(refs@) == add_new(acc, fv.take(k as int)),
        decreases found.len() - k,
    {
        assert(fv.take(k + 1).drop_last() =~= fv.take(k as int));
        push_new(refs, found[k].clone());
        k = k + 1;
    }
    assert(fv.take(fv.len() as int) =~= fv);
}

/// Gathers the ids of an element and its descendants, in document order,
/// and adds the ids they refer to, each once.
pub fn collect_ids_and_refs(e: &Element, ids: &mut Vec<String>, refs: &mut Vec<String>)
    ensures
        str_seq(final(ids)@) == str_seq(old(ids)@) + ids_in(elem_view(*e)),
        str_seq(final(refs)@) == add_new(str_seq(old(refs)@), refs_in(elem_view(*e))),
    decreases *e,
{
    let ghost v = elem_view(*e);
    let ghost ids0 = str_seq(ids@);
    let ghost refs0 = str_seq(refs@);
    match e.attr("id") {
        Some(x) => {
            let ghost before = ids@;
            ids.push(x.clone());
            assert(str_seq(ids@) =~= str_seq(before) + seq![x@]);
        },
        None => {
            assert(str_seq(ids@) =~= str_seq(ids@) + Seq::<Seq<char>>::empty());
        },
    }
    let ghost ids1 = str_seq(ids@);
    let pairs = attr_pairs(&e.attributes);
    let ghost a = attr_entries(e.attributes);
    let mut i: usize = 0;
    while i < pairs.len()
        invariant
            i <= pairs@.len(), pairs@.len() == a.len(), a == v.attrs, v == elem_view(*e),
            forall|k: int| 0 <= k < pairs@.len() ==> (#[trigger] pairs@[k]).0@ == a[k].0 && pairs@[k].1@ == a[k].1,
            str_seq(refs@) == add_new(refs0, attr_refs(a.take(i as int))),
            str_seq(ids@) == ids1,
        decreases pairs.len() - i,
    {
        assert(a.take(i + 1).drop_last() =~= a.take(i as int));
        assert(a.take(i + 1).last() == a[i as int]);
        add_attr_refs(pairs[i].0.as_str(), pairs[i].1.as_str(), refs);
        proof { lemma_add_new_append(refs0, attr_refs(a.take(i as int)), refs_of(a[i as int].0, a[i as int].1)); }
        i = i + 1;
    }
    assert(a.take(a.len() as int) =~= a);
    let ghost refs1 = str_seq(refs@);
    proof { lemma_nodes_view(e.children@); }
    let mut j: usize = 0;
    while j < e.children.len()
        invariant
            j <= e.children@.len(), v == elem_view(*e),
            v.children.len() == e.children@.len(),
            forall|k: int| 0 <= k < e.children@.len() ==> #[trigger] v.children[k] == node_view(e.children@[k]),
            str_seq(ids@) == ids1 + ids_in_children(v.children.take(j as int)),
            str_seq(refs@) == add_new(refs1, refs_in_children(v.children.take(j as int))),
        decreases e.children.len() - j,
    {
        assert(v.children.take(j + 1).drop_last() =~= v.children.take(j as int));
        let ghost ib = ids_in_children(v.children.take(j as int));
        let ghost rb = refs_in_children(v.children.take(j as int));
        if let Node::Element(c) = &e.children[j] {
            assert(decreases_to!(*e => e.children@[j as int]));
            collect_ids_and_refs(c, ids, refs);
            assert(str_seq(ids@) =~= ids1 + (ib + ids_in(elem_view(*c))));
            proof { lemma_add_new_append(refs1, rb, refs_in(elem_view(*c))); }
        } else {
            assert(ib + Seq::<Seq<char>>::empty() =~= ib);
            assert(rb + Seq::<Seq<char>>::empty() =~= rb);
        }
        j = j + 1;
    }
    assert(v.children.take(v.children.len() as int) =~= v.children);
    assert(str_seq(ids@) =~= ids0 + ids_in(v));
    proof { lemma_add_new_append(refs0, attr_refs(a), refs_in_children(v.children)); }
}


/// The new names given so far.
pub open spec fn given_names(given: Seq<(Seq<char>, Seq<char>)>) -> Seq<Seq<char>> {
    given.map_values(|p: (Seq<char>, Seq<char>)| p.1)
}

/// Whether a name cannot be given: it is kept as it is, it is the id of an
/// element whose id has not been walked past (`done`), or it was given
/// already.
pub open spec fn name_taken(x: Seq<char>, ids: Seq<Seq<char>>, done: Seq<Seq<char>>,
    given: Seq<(Seq<char>, Seq<char>)>, preserve: Seq<Seq<char>>, prefixes: Seq<Seq<char>>) -> bool
{
    ||| is_preserved(x, preserve, prefixes)
    ||| ids.contains(x) && !done.contains(x)
    ||| given_names(given).contains(x)
}

/// The number of the first short name after the `c`-th that can be given,
/// searching no further than the largest 64-bit counter.
pub open spec fn first_free(c: int, ids: Seq<Seq<char>>, done: Seq<Seq<char>>,
    given: Seq<(Seq<char>, Seq<char>)>, preserve: Seq<Seq<char>>, prefixes: Seq<Seq<char>>) -> Option<int>
    decreases u64::MAX - c,
{
    if c < 0 || c >= u64::MAX {
        None
    } else if !name_taken(short_name((c + 1) as nat), ids, done, given, preserve, prefixes) {
        Some(c + 1)
    } else {
        first_free(c + 1, ids, done, given, preserve, prefixes)
    }
}

/// A name found by `first_free` lies after `c`, within the counter, and is
/// not taken.
pub proof fn lemma_first_free(c: int, ids: Seq<Seq<char>>, done: Seq<Seq<char>>,
    given: Seq<(Seq<char>, Seq<char>)>, preserve: Seq<Seq<char>>, prefixes: Seq<Seq<char>>)
    ensures
        first_free(c, ids, done, given, preserve, prefixes) matches Some(n) ==> {
            &&& c < n <= u64::MAX
            &&& !name_taken(short_name(n as nat), ids, done, given, preserve, prefixes)
        },
    decreases u64::MAX - c,
{
    if 0 <= c < u64::MAX && name_taken(short_name((c + 1) as nat), ids, done, given, preserve, prefixes) {
        lemma_first_free(c + 1, ids, done, given, preserve, prefixes);
    }
}

/// The short names given to the referenced ids, walked in the order `keys`,
/// as pairs of old and new id, with the number of the last name tried; `None`
/// when the search for a free name runs past the counter.  An id gets a
/// new name when some element has it, names are minified and it is not
/// kept as it is.
pub open spec fn assign_names(keys: Seq<Seq<char>>, ids: Seq<Seq<char>>, minify: bool,
    preserve: Seq<Seq<char>>, prefixes: Seq<Seq<char>>) -> Option<(Seq<(Seq<char>, Seq<char>)>, int)>
    decreases keys.len(),
{
    if keys.len() == 0 {
        Some((Seq::empty(), 0))
    } else {
        match assign_names(keys.drop_last(), ids, minify, preserve, prefixes) {
            None => None,
            Some((given, c)) => {
                let k = keys.last();
                let done = keys.drop_last();
                if ids.contains(k) && !done.contains(k) && minify && !is_preserved(k, preserve, prefixes) {
                    match first_free(c, ids, done, given, preserve, prefixes) {
                        Some(c2) => Some((given.push((k, short_name(c2 as nat))), c2)),
                        None => None,
                    }
                } else {
                    Some((given, c))
                }
            },
        }
    }
}

fn contains_before(v: &Vec<String>, n: usize, x: &str) -> (r: bool)
    requires
        n <= v@.len(),
    ensures
        r == str_seq(v@).take(n as int).contains(x@),
{
    let ghost sv = str_seq(v@).take(n as int);
    let mut i: usize = 0;
    while i < n
        invariant
            i <= n, n <= v@.len(), sv == str_seq(v@).take(n as int),
            forall|k: int| 0 <= k < i ==> sv[k] != x@,
        decreases n - i,
    {
        if str_eq(v[i].as_str(), x) {
            assert(sv[i as int] == x@);
            return true;
        }
        i = i + 1;
    }
    false
}

fn is_given(given: &Vec<(String, String)>, x: &str) -> (r: bool)
    ensures
        r == given_names(pair_views(given@)).contains(x@),
{
    let ghost gv = given_names(pair_views(given@));
    let mut i: usize = 0;
    while i < given.len()
        invariant
            i <= given@.len(), gv == given_names(pair_views(given@)),
            forall|k: int| 0 <= k < i ==> gv[k] != x@,
        decreases given.len() - i,
    {
        if str_eq(given[i].1.as_str(), x) {
            assert(gv[i as int] == x@);
            return true;
        }
        i = i + 1;
    }
    false
}

fn name_is_taken(x: &str, config: &CleanupIdsConfig, ids: &Vec<String>, keys: &Vec<String>, done: usize,
    given: &Vec<(String, String)>) -> (r: bool)
    requires
        done <= keys@.len(),
    ensures
        r == name_taken(x@, str_seq(ids@), str_seq(keys@).take(done as int), pair_views(given@),
            str_seq(config.preserve@), str_seq(config.preserve_prefixes@)),
{
    config.is_id_preserved(x) || (contains_text(ids, x) && !contains_before(keys, done, x)) || is_given(given, x)
}

fn find_free(c: u64, config: &CleanupIdsConfig, ids: &Vec<String>, keys: &Vec<String>, done: usize,
    given: &Vec<(String, String)>) -> (r: Option<u64>)
    requires
        done <= keys@.len(),
    ensures
        match r {
            Some(n) => first_free(c as int, str_seq(ids@), str_seq(keys@).take(done as int), pair_views(given@),
                str_seq(config.preserve@), str_seq(config.preserve_prefixes@)) == Some(n as int),
            None => first_free(c as int, str_seq(ids@), str_seq(keys@).take(done as int), pair_views(given@),
                str_seq(config.preserve@), str_seq(config.preserve_prefixes@)) is None,
        },
{
    let ghost f = first_free(c as int, str_seq(ids@), str_seq(keys@).take(done as int), pair_views(given@),
        str_seq(config.preserve@), str_seq(config.preserve_prefixes@));
    let mut n: u64 = c;
    while n < u64::MAX
        invariant
            c <= n, done <= keys@.len(),
            f == first_free(c as int, str_seq(ids@), str_seq(keys@).take(done as int), pair_views(given@),
                str_seq(config.preserve@), str_seq(config.preserve_prefixes@)),
            f == first_free(n as int, str_seq(ids@), str_seq(keys@).take(done as int), pair_views(given@),
                str_seq(config.preserve@), str_seq(config.preserve_prefixes@)),
        decreases u64::MAX - n,
    {
        let cand = short_name_of(n + 1);
        if !name_is_taken(cand.as_str(), config, ids, keys, done, given) {
            return Some(n + 1);
        }
        n = n + 1;
    }
    None
}

/// Gives short names to the referenced ids, walked in the order `keys`,
/// as `assign_names` says; `None` when the search for a free name runs past
/// the counter.
pub fn assign_short_names(config: &CleanupIdsConfig, ids: &Vec<String>, keys: &Vec<String>)
    -> (r: Option<Vec<(String, String)>>)
    ensures
        match r {
            Some(g) => assign_names(str_seq(keys@), str_seq(ids@), config.minify, str_seq(config.preserve@),
                str_seq(config.preserve_prefixes@)) matches Some((gv, _)) && gv == pair_views(g@),
            None => assign_names(str_seq(keys@), str_seq(ids@), config.minify, str_seq(config.preserve@),
                str_seq(config.preserve_prefixes@)) is None,
        },
{
    let ghost kv = str_seq(keys@);
    let ghost iv = str_seq(ids@);
    let ghost pv = str_seq(config.preserve@);
    let ghost xv = str_seq(config.preserve_prefixes@);
    let mut given: Vec<(String, String)> = Vec::new();
    let mut counter: u64 = 0;
    let mut j: usize = 0;
    assert(kv.take(0) =~= Seq::<Seq<char>>::empty());
    assert(pair_views(given@) =~= Seq::<(Seq<char>, Seq<char>)>::empty());
    while j < keys.len()
        invariant
            j <= keys@.len(), kv == str_seq(keys@), iv == str_seq(ids@),
            pv == str_seq(config.preserve@), xv == str_seq(config.preserve_prefixes@),
            assign_names(kv.take(j as int), iv, config.minify, pv, xv) == Some((pair_views(given@), counter as int)),
        decreases keys.len() - j,
    {
        assert(kv.take(j + 1).drop_last() =~= kv.take(j as int));
        assert(kv.take(j + 1).last() == kv[j as int]);
        let k = keys[j].as_str();
        if contains_text(ids, k) && !contains_before(keys, j, k) && config.minify && !config.is_id_preserved(k) {
            match find_free(counter, config, ids, keys, j, &given) {
                Some(n) => {
                    let name = short_name_of(n);
                    let ghost before = given@;
                    given.push((keys[j].clone(), name));
                    assert(pair_views(given@) =~= pair_views(before).push((kv[j as int], short_name(n as nat))));
                    counter = n;
                },
                None => {
                    proof { lemma_assign_none(kv, j as int + 1, iv, config.minify, pv, xv); }
                    return None;
                },
            }
        }
        j = j + 1;
    }
    assert(kv.take(kv.len() as int) =~= kv);
    Some(given)
}

proof fn lemma_assign_none(keys: Seq<Seq<char>>, j: int, ids: Seq<Seq<char>>, minify: bool,
    preserve: Seq<Seq<char>>, prefixes: Seq<Seq<char>>)
    requires
        0 <= j <= keys.len(),
        assign_names(keys.take(j), ids, minify, preserve, prefixes) is None,
    ensures
        assign_names(keys, ids, minify, preserve, prefixes) is None,
    decreases keys.len() - j,
{
    if j < keys.len() {
        assert(keys.take(j + 1).drop_last() =~= keys.take(j));
        lemma_assign_none(keys, j + 1, ids, minify, preserve, prefixes);
    } else {
        assert(keys.take(j) =~= keys);
    }
}


/// `#` followed by `x`.
pub open spec fn hash_of(x: Seq<char>) -> Seq<char> {
    seq!['#'] + x
}

/// `#` followed by `x` and `tail`.
pub open spec fn hash_with(x: Seq<char>, tail: char) -> Seq<char> {
    seq!['#'] + x.push(tail)
}

/// A renaming, as old id, new id and old id percent-encoded, applied to a
/// value that may hold `url(#id)` references: the encoded and the plain old
/// id, each before `"`, `'` or `)`, become the new id.
pub open spec fn url_step(v: Seq<char>, t: (Seq<char>, Seq<char>, Seq<char>)) -> Seq<char> {
    let v1 = replace_all(v, hash_with(t.2, '"'), hash_with(t.1, '"'));
    let v2 = replace_all(v1, hash_with(t.2, '\''), hash_with(t.1, '\''));
    let v3 = replace_all(v2, hash_with(t.2, ')'), hash_with(t.1, ')'));
    let v4 = replace_all(v3, hash_with(t.0, '"'), hash_with(t.1, '"'));
    let v5 = replace_all(v4, hash_with(t.0, '\''), hash_with(t.1, '\''));
    replace_all(v5, hash_with(t.0, ')'), hash_with(t.1, ')'))
}

/// The renamings applied in turn to a value that may hold `url(#id)`.
pub open spec fn url_renamed(v: Seq<char>, m: Seq<(Seq<char>, Seq<char>, Seq<char>)>) -> Seq<char>
    decreases m.len(),
{
    if m.len() == 0 { v } else { url_step(url_renamed(v, m.drop_last()), m.last()) }
}

/// The renamings applied in turn to a link: a value that is exactly `#old`
/// becomes `#new`.
pub open spec fn href_renamed(v: Seq<char>, m: Seq<(Seq<char>, Seq<char>, Seq<char>)>) -> Seq<char>
    decreases m.len(),
{
    if m.len() == 0 {
        v
    } else {
        let w = href_renamed(v, m.drop_last());
        if w == hash_of(m.last().0) { hash_of(m.last().1) } else { w }
    }
}

/// The renamings applied in turn to a timing value: `old.` becomes `new.`.
pub open spec fn begin_renamed(v: Seq<char>, m: Seq<(Seq<char>, Seq<char>, Seq<char>)>) -> Seq<char>
    decreases m.len(),
{
    if m.len() == 0 {
        v
    } else {
        replace_all(begin_renamed(v, m.drop_last()), m.last().0.push('.'), m.last().1.push('.'))
    }
}

/// The value of an attribute after the renamings.
pub open spec fn renamed_value(name: Seq<char>, value: Seq<char>, m: Seq<(Seq<char>, Seq<char>, Seq<char>)>) -> Seq<char> {
    let v1 = if reference_props().contains(name) { url_renamed(value, m) } else { value };
    let v2 = if is_href_name(name) { href_renamed(v1, m) } else { v1 };
    if name == "begin"@ { begin_renamed(v2, m) } else { v2 }
}

/// Renamings as character sequences.
pub open spec fn rename_views(v: Seq<(String, String, String)>) -> Seq<(Seq<char>, Seq<char>, Seq<char>)> {
    v.map_values(|t: (String, String, String)| (t.0@, t.1@, t.2@))
}

fn hash_text(x: &str, tail: Option<char>) -> (r: String)
    ensures
        r@ == match tail {
            Some(c) => hash_with(x@, c),
            None => hash_of(x@),
        },
{
    let mut cs: Vec<char> = Vec::new();
    cs.push('#');
    let xs = to_chars(x);
    let mut i: usize = 0;
    while i < xs.len()
        invariant
            i <= xs@.len(), cs@ == seq!['#'] + xs@.take(i as int),
        decreases xs.len() - i,
    {
        cs.push(xs[i]);
        i = i + 1;
        assert(cs@ =~= seq!['#'] + xs@.take(i as int));
    }
    assert(xs@.take(xs@.len() as int) =~= xs@);
    match tail {
        Some(c) => {
            cs.push(c);
            assert(cs@ =~= hash_with(x@, c));
        },
        None => {
            assert(cs@ =~= hash_of(x@));
        },
    }
    from_chars(cs.as_slice())
}

fn with_dot(x: &str) -> (r: String)
    ensures
        r@ == x@.push('.'),
{
    let mut cs = to_chars(x);
    cs.push('.');
    from_chars(cs.as_slice())
}

fn url_step_of(v: &str, t: &(String, String, String)) -> (r: String)
    ensures
        r@ == url_step(v@, (t.0@, t.1@, t.2@)),
{
    let to_q = hash_text(t.1.as_str(), Some('"'));
    let to_a = hash_text(t.1.as_str(), Some('\''));
    let to_p = hash_text(t.1.as_str(), Some(')'));
    let v1 = replace_str(v, hash_text(t.2.as_str(), Some('"')).as_str(), to_q.as_str());
    let v2 = replace_str(v1.as_str(), hash_text(t.2.as_str(), Some('\'')).as_str(), to_a.as_str());
    let v3 = replace_str(v2.as_str(), hash_text(t.2.as_str(), Some(')')).as_str(), to_p.as_str());
    let v4 = replace_str(v3.as_str(), hash_text(t.0.as_str(), Some('"')).as_str(), to_q.as_str());
    let v5 = replace_str(v4.as_str(), hash_text(t.0.as_str(), Some('\'')).as_str(), to_a.as_str());
    replace_str(v5.as_str(), hash_text(t.0.as_str(), Some(')')).as_str(), to_p.as_str())
}

/// The value of an attribute after the renamings, taken in their order.
pub fn renamed_value_of(name: &str, value: &str, m: &Vec<(String, String, String)>) -> (r: String)
    ensures
        r@ == renamed_value(name@, value@, rename_views(m@)),
{
    let ghost mv = rename_views(m@);
    let mut v = owned(value);
    if is_reference_prop(name) {
        let mut i: usize = 0;
        assert(mv.take(0) =~= Seq::<(Seq<char>, Seq<char>, Seq<char>)>::empty());
        while i < m.len()
            invariant
                i <= m@.len(), mv == rename_views(m@),
                v@ == url_renamed(value@, mv.take(i as int)),
            decreases m.len() - i,
        {
            assert(mv.take(i + 1).drop_last() =~= mv.take(i as int));
            v = url_step_of(v.as_str(), &m[i]);
            i = i + 1;
        }
        assert(mv.take(m@.len() as int) =~= mv);
    }
    let ghost v1 = v@;
    if is_href_attr(name) {
        let mut i: usize = 0;
        assert(mv.take(0) =~= Seq::<(Seq<char>, Seq<char>, Seq<char>)>::empty());
        while i < m.len()
            invariant
                i <= m@.len(), mv == rename_views(m@),
                v@ == href_renamed(v1, mv.take(i as int)),
            decreases m.len() - i,
        {
            assert(mv.take(i + 1).drop_last() =~= mv.take(i as int));
            let target = hash_text(m[i].0.as_str(), None);
            if str_eq(v.as_str(), target.as_str()) {
                v = hash_text(m[i].1.as_str(), None);
            }
            i = i + 1;
        }
        assert(mv.take(m@.len() as int) =~= mv);
    }
    let ghost v2 = v@;
    if str_eq(name, "begin") {
        let mut i: usize = 0;
        assert(mv.take(0) =~= Seq::<(Seq<char>, Seq<char>, Seq<char>)>::empty());
        while i < m.len()
            invariant
                i <= m@.len(), mv == rename_views(m@),
                v@ == begin_renamed(v2, mv.take(i as int)),
            decreases m.len() - i,
        {
            assert(mv.take(i + 1).drop_last() =~= mv.take(i as int));
            let from = with_dot(m[i].0.as_str());
            let to = with_dot(m[i].1.as_str());
            v = replace_str(v.as_str(), from.as_str(), to.as_str());
            i = i + 1;
        }
        assert(mv.take(m@.len() as int) =~= mv);
    }
    v
}


/// The new name of `x` among the renamings (the first that has it).
pub open spec fn rename_lookup(m: Seq<(Seq<char>, Seq<char>, Seq<char>)>, x: Seq<char>) -> Option<Seq<char>>
    decreases m.len(),
{
    if m.len() == 0 {
        None
    } else {
        match rename_lookup(m.drop_last(), x) {
            Some(n) => Some(n),
            None => if m.last().0 == x { Some(m.last().1) } else { None },
        }
    }
}

/// The attributes of the element that first has the id `x`, after the
/// plugin: a renamed id takes its new name; an id that nothing refers to
/// goes when removal is on and it is not kept as it is.
pub open spec fn id_fixed(a: Seq<(Seq<char>, Seq<char>)>, x: Seq<char>, m: Seq<(Seq<char>, Seq<char>, Seq<char>)>,
    refs: Seq<Seq<char>>, c: IdSettings) -> Seq<(Seq<char>, Seq<char>)>
{
    match rename_lookup(m, x) {
        Some(n) => entry_insert(a, "id"@, n),
        None => if !refs.contains(x) && c.remove && !is_preserved(x, c.preserve, c.prefixes) {
            entry_remove(a, "id"@)
        } else {
            a
        },
    }
}

/// The attributes with their values renamed.
pub open spec fn renamed_attrs(a: Seq<(Seq<char>, Seq<char>)>, m: Seq<(Seq<char>, Seq<char>, Seq<char>)>) -> Seq<(Seq<char>, Seq<char>)> {
    a.map_values(|p: (Seq<char>, Seq<char>)| (p.0, renamed_value(p.0, p.1, m)))
}

/// An element and its descendants after the plugin, in document order,
/// with the ids already met (`seen`): every reference is renamed, and the
/// first element with a given id has that id renamed or removed.
pub open spec fn fix_elem(e: ElementView, seen: Seq<Seq<char>>, m: Seq<(Seq<char>, Seq<char>, Seq<char>)>,
    refs: Seq<Seq<char>>, c: IdSettings) -> (ElementView, Seq<Seq<char>>)
    decreases e,
{
    let a1 = renamed_attrs(e.attrs, m);
    let own = entry_lookup(e.attrs, "id"@);
    let first = own is Some && !seen.contains(own->0);
    let a2 = if first { id_fixed(a1, own->0, m, refs, c) } else { a1 };
    let seen1 = if first { seen.push(own->0) } else { seen };
    let r = fix_children(e.children, seen1, m, refs, c);
    (ElementView { name: e.name, attrs: a2, children: r.0, ns: e.ns }, r.1)
}

pub open spec fn fix_children(s: Seq<NodeView>, seen: Seq<Seq<char>>, m: Seq<(Seq<char>, Seq<char>, Seq<char>)>,
    refs: Seq<Seq<char>>, c: IdSettings) -> (Seq<NodeView>, Seq<Seq<char>>)
    decreases s,
{
    if s.len() == 0 {
        (Seq::empty(), seen)
    } else {
        let pre = fix_children(s.drop_last(), seen, m, refs, c);
        match s.last() {
            NodeView::Element(ch) => {
                let r = fix_elem(ch, pre.1, m, refs, c);
                (pre.0.push(NodeView::Element(r.0)), r.1)
            },
            other => (pre.0.push(other), pre.1),
        }
    }
}

fn rename_of(m: &Vec<(String, String, String)>, x: &str) -> (r: Option<String>)
    ensures
        match r {
            Some(n) => rename_lookup(rename_views(m@), x@) == Some(n@),
            None => rename_lookup(rename_views(m@), x@) is None,
        },
{
    let ghost mv = rename_views(m@);
    let mut i: usize = 0;
    assert(mv.take(0) =~= Seq::<(Seq<char>, Seq<char>, Seq<char>)>::empty());
    while i < m.len()
        invariant
            i <= m@.len(), mv == rename_views(m@),
            rename_lookup(mv.take(i as int), x@) is None,
        decreases m.len() - i,
    {
        assert(mv.take(i + 1).drop_last() =~= mv.take(i as int));
        if str_eq(m[i].0.as_str(), x) {
            proof { lemma_rename_lookup_prefix(mv, i as int + 1, x@); }
            return Some(m[i].1.clone());
        }
        i = i + 1;
    }
    assert(mv.take(m@.len() as int) =~= mv);
    None
}

proof fn lemma_rename_lookup_prefix(m: Seq<(Seq<char>, Seq<char>, Seq<char>)>, k: int, x: Seq<char>)
    requires
        0 <= k <= m.len(),
        rename_lookup(m.take(k), x) is Some,
    ensures
        rename_lookup(m, x) == rename_lookup(m.take(k), x),
    decreases m.len() - k,
{
    if k < m.len() {
        assert(m.take(k + 1).drop_last() =~= m.take(k));
        lemma_rename_lookup_prefix(m, k + 1, x);
    } else {
        assert(m.take(k) =~= m);
    }
}

/// Applies the plugin to an element and its descendants, in document order,
/// as `fix_elem` says; `seen` gathers the ids met.
pub fn fix_element(e: &mut Element, seen: &mut Vec<String>, m: &Vec<(String, String, String)>,
    refs: &Vec<String>, c: &CleanupIdsConfig)
    ensures
        (elem_view(*final(e)), str_seq(final(seen)@)) == fix_elem(elem_view(*old(e)), str_seq(old(seen)@),
            rename_views(m@), str_seq(refs@), c@),
    decreases *old(e),
{
    let ghost mv = rename_views(m@);
    let ghost rv = str_seq(refs@);
    let ghost a0 = attr_entries(e.attributes);
    let own: Option<String> = match e.attr("id") {
        Some(x) => Some(x.clone()),
        None => None,
    };
    let pairs = attr_pairs(&e.attributes);
    let mut renamed: Vec<(String, String)> = Vec::new();
    let mut i: usize = 0;
    while i < pairs.len()
        invariant
            i <= pairs@.len(), pairs@.len() == a0.len(), mv == rename_views(m@),
            forall|k: int| 0 <= k < pairs@.len() ==> (#[trigger] pairs@[k]).0@ == a0[k].0 && pairs@[k].1@ == a0[k].1,
            pair_views(renamed@) == renamed_attrs(a0.take(i as int), mv),
        decreases pairs.len() - i,
    {
        let v = renamed_value_of(pairs[i].0.as_str(), pairs[i].1.as_str(), m);
        let ghost before = renamed@;
        renamed.push((pairs[i].0.clone(), v));
        proof {
            let item = (a0[i as int].0, renamed_value(a0[i as int].0, a0[i as int].1, mv));
            assert(pairs@[i as int].0@ == a0[i as int].0 && pairs@[i as int].1@ == a0[i as int].1);
            assert(pair_views(renamed@) =~= pair_views(before).push(item));
            assert(renamed_attrs(a0.take(i + 1), mv) =~= renamed_attrs(a0.take(i as int), mv).push(item));
        }
        i = i + 1;
    }
    assert(a0.take(a0.len() as int) =~= a0);
    assert(keys_distinct(pair_views(renamed@))) by {
        assert forall|x: int, y: int| 0 <= x < y < pair_views(renamed@).len() implies
            (#[trigger] pair_views(renamed@)[x]).0 != (#[trigger] pair_views(renamed@)[y]).0 by {
            assert(a0[x].0 != a0[y].0);
        }
    }
    e.set_attributes(renamed);
    let ghost a1 = attr_entries(e.attributes);
    let mut first = false;
    match &own {
        Some(x) => {
            if !contains_text(seen, x.as_str()) {
                first = true;
                match rename_of(m, x.as_str()) {
                    Some(n) => {
                        e.set_attr(owned("id"), n);
                    },
                    None => {
                        if !contains_text(refs, x.as_str()) && c.remove && !c.is_id_preserved(x.as_str()) {
                            e.remove_attr("id");
                        }
                    },
                }
                seen.push(x.clone());
            }
        },
        None => {},
    }
    let ghost seen1 = str_seq(seen@);
    assert(seen1 == (if first { str_seq(old(seen)@).push(own->0@) } else { str_seq(old(seen)@) }));
    let mut old_children: Vec<Node> = Vec::new();
    std::mem::swap(&mut old_children, &mut e.children);
    let ghost orig = old_children@;
    let mut out: Vec<Node> = Vec::new();
    let n = old_children.len();
    let mut j: usize = 0;
    proof { lemma_nodes_view(orig); }
    assert(fix_children(nodes_view(orig).take(0), seen1, mv, rv, c@) == (Seq::<NodeView>::empty(), seen1));
    while j < n
        invariant
            n == orig.len(), j <= n,
            orig == old(e).children@,
            old_children@ == orig.subrange(j as int, n as int),
            nodes_view(orig).len() == n,
            forall|k: int| 0 <= k < n ==> #[trigger] nodes_view(orig)[k] == node_view(orig[k]),
            (nodes_view(out@), str_seq(seen@)) == fix_children(nodes_view(orig).take(j as int), seen1, mv, rv, c@),
            mv == rename_views(m@), rv == str_seq(refs@),
            forall|k: int| 0 <= k < n ==> decreases_to!(*old(e) => #[trigger] orig[k]),
            e.name == old(e).name,
        decreases n - j,
    {
        let child = old_children.remove(0);
        assert(child == orig[j as int]);
        assert(nodes_view(orig).take(j + 1).drop_last() =~= nodes_view(orig).take(j as int));
        match child {
            Node::Element(mut ce) => {
                fix_element(&mut ce, seen, m, refs, c);
                proof { lemma_nodes_view_push(out@, Node::Element(ce)); }
                out.push(Node::Element(ce));
            },
            other => {
                proof { lemma_nodes_view_push(out@, other); }
                out.push(other);
            },
        }
        j = j + 1;
    }
    assert(nodes_view(orig).take(n as int) =~= nodes_view(orig));
    e.children = out;
}


/// The ids that a tree refers to, each once, in the order of their first
/// reference.
pub open spec fn referenced_ids(root: ElementView) -> Seq<Seq<char>> {
    add_new(Seq::empty(), refs_in(root))
}

/// Renamings with the percent-encoded form of each old id.
pub open spec fn with_encodings(g: Seq<(Seq<char>, Seq<char>)>) -> Seq<(Seq<char>, Seq<char>, Seq<char>)> {
    g.map_values(|p: (Seq<char>, Seq<char>)| (p.0, p.1, url_encoding(p.0)))
}

/// What the plugin does to a tree once the referenced ids are walked in the
/// order `o1`: the short names are given as `assign_names` says (or the
/// plugin fails, leaving the tree as it is, when they run out), and the
/// tree is rewritten with the renamings taken in some order.
pub open spec fn result_for_order(root: ElementView, s: IdSettings, o1: Seq<usize>, ok: bool, result: ElementView) -> bool {
    match assign_names(reordered(referenced_ids(root), o1), ids_in(root), s.minify, s.preserve, s.prefixes) {
        None => !ok && result == root,
        Some((given, _)) => ok && exists|o2: Seq<usize>| #[trigger] is_order(o2, given.len())
            && result == fix_elem(root, Seq::empty(), with_encodings(reordered(given, o2)), referenced_ids(root), s).0,
    }
}

/// What the plugin does to a tree: nothing where scripts or styles could
/// refer to ids (unless forced); otherwise what `result_for_order` says for
/// some order of the referenced ids.  The orders are those in which hash
/// maps walk their keys, which each process seeds anew.
pub open spec fn cleanup_result(root: ElementView, s: IdSettings, ok: bool, result: ElementView) -> bool {
    if !s.force && (scripted(root) || styled(root)) {
        ok && result == root
    } else {
        exists|o1: Seq<usize>| #[trigger] is_order(o1, referenced_ids(root).len()) && result_for_order(root, s, o1, ok, result)
    }
}

/// The old ids of the renamings.
pub open spec fn old_ids(g: Seq<(Seq<char>, Seq<char>)>) -> Seq<Seq<char>> {
    g.map_values(|p: (Seq<char>, Seq<char>)| p.0)
}

/// Each id is renamed at most once, and only ids that are walked.
pub proof fn lemma_assign_names_distinct(keys: Seq<Seq<char>>, ids: Seq<Seq<char>>, minify: bool,
    preserve: Seq<Seq<char>>, prefixes: Seq<Seq<char>>)
    ensures
        assign_names(keys, ids, minify, preserve, prefixes) matches Some((g, _)) ==> {
            &&& old_ids(g).no_duplicates()
            &&& forall|i: int| 0 <= i < g.len() ==> keys.contains(#[trigger] g[i].0)
        },
    decreases keys.len(),
{
    if keys.len() > 0 {
        let done = keys.drop_last();
        lemma_assign_names_distinct(done, ids, minify, preserve, prefixes);
        if let Some((g, _)) = assign_names(keys, ids, minify, preserve, prefixes) {
            let (g0, _) = assign_names(done, ids, minify, preserve, prefixes)->0;
            assert forall|i: int| 0 <= i < g0.len() implies keys.contains(#[trigger] g0[i].0) by {
                let k = choose|k: int| 0 <= k < done.len() && done[k] == g0[i].0;
                assert(keys[k] == g0[i].0);
            }
            if g.len() > g0.len() {
                let k = keys.last();
                assert(g == g0.push((k, g[g0.len() as int].1)));
                assert(keys[keys.len() - 1] == k);
                assert forall|i: int, j: int| 0 <= i < j < old_ids(g).len() implies old_ids(g)[i] != old_ids(g)[j] by {
                    if j == g0.len() {
                        assert(done.contains(g0[i].0));
                    } else {
                        assert(old_ids(g0)[i] != old_ids(g0)[j]);
                    }
                }
            } else {
                assert(g == g0);
                assert(old_ids(g) =~= old_ids(g0));
            }
        }
    }
}

fn reorder_strings(v: &Vec<String>, o: &Vec<usize>) -> (r: Vec<String>)
    requires
        is_order(o@, v@.len()),
    ensures
        str_seq(r@) == reordered(str_seq(v@), o@),
{
    let mut out: Vec<String> = Vec::new();
    let mut i: usize = 0;
    while i < o.len()
        invariant
            i <= o@.len(), is_order(o@, v@.len()),
            str_seq(out@) == reordered(str_seq(v@), o@).take(i as int),
        decreases o.len() - i,
    {
        let ghost before = out@;
        out.push(v[o[i]].clone());
        assert(str_seq(out@) =~= str_seq(before).push(v@[o@[i as int] as int]@));
        i = i + 1;
        assert(str_seq(out@) =~= reordered(str_seq(v@), o@).take(i as int));
    }
    assert(reordered(str_seq(v@), o@).take(o@.len() as int) =~= reordered(str_seq(v@), o@));
    out
}

/// The renamings in the order `o`, each with its old id percent-encoded.
fn encoded_renames(g: &Vec<(String, String)>, o: &Vec<usize>) -> (r: Vec<(String, String, String)>)
    requires
        is_order(o@, g@.len()),
    ensures
        rename_views(r@) == with_encodings(reordered(pair_views(g@), o@)),
{
    let ghost w = with_encodings(reordered(pair_views(g@), o@));
    let mut out: Vec<(String, String, String)> = Vec::new();
    let mut i: usize = 0;
    while i < o.len()
        invariant
            i <= o@.len(), is_order(o@, g@.len()),
            w == with_encodings(reordered(pair_views(g@), o@)),
            rename_views(out@) == w.take(i as int),
        decreases o.len() - i,
    {
        let p = &g[o[i]];
        let enc = url_encode_id(p.0.as_str());
        let ghost before = out@;
        out.push((p.0.clone(), p.1.clone(), enc));
        assert(rename_views(out@) =~= rename_views(before).push(w[i as int]));
        i = i + 1;
        assert(rename_views(out@) =~= w.take(i as int));
    }
    assert(w.take(o@.len() as int) =~= w);
    out
}

/// The plugin that removes unused ids and gives used ones short names.
pub struct CleanupIdsPlugin;

impl Plugin for CleanupIdsPlugin {
    fn name(&self) -> (r: &'static str)
        ensures
            r@ == "cleanupIds"@,
    {
        "cleanupIds"
    }

    fn description(&self) -> (r: &'static str)
        ensures
            r@ == "Remove unused IDs and minify used IDs"@,
    {
        "Remove unused IDs and minify used IDs"
    }

    fn apply(&mut self, document: &mut Document, plugin_info: &PluginInfo, params: Option<&Value>) -> (r: PluginResult<()>)
        ensures
            cleanup_result(elem_view(old(document).root), settings_of(opt_value(params)), r is Ok,
                elem_view(final(document).root)),
            r matches Err(e) ==> (e matches PluginError::ProcessingError(m) && m@ == "cleanupIds: no short id is left"@),
            final(document).prologue == old(document).prologue,
            final(document).epilogue == old(document).epilogue,
            final(document).metadata == old(document).metadata,
    {
        let config = CleanupIdsConfig::from_params(params);
        let ghost root0 = elem_view(document.root);
        let ghost s = config@;
        if !config.force && (has_scripts(&document.root) || has_styles(&document.root)) {
            return Ok(());
        }
        let mut ids: Vec<String> = Vec::new();
        let mut refs: Vec<String> = Vec::new();
        assert(str_seq(ids@) =~= Seq::<Seq<char>>::empty());
        assert(str_seq(refs@) =~= Seq::<Seq<char>>::empty());
        collect_ids_and_refs(&document.root, &mut ids, &mut refs);
        assert(str_seq(ids@) =~= ids_in(root0));
        proof { lemma_add_new_props(Seq::empty(), refs_in(root0)); }
        let order = hash_walk_order(&refs);
        let keys = reorder_strings(&refs, &order);
        proof {
            assert(is_order(order@, referenced_ids(root0).len()));
            lemma_assign_names_distinct(str_seq(keys@), str_seq(ids@), s.minify, s.preserve, s.prefixes);
        }
        match assign_short_names(&config, &ids, &keys) {
            None => Err(PluginError::ProcessingError(owned("cleanupIds: no short id is left"))),
            Some(given) => {
                let mut olds: Vec<String> = Vec::new();
                let mut i: usize = 0;
                while i < given.len()
                    invariant
                        i <= given@.len(),
                        str_seq(olds@) == old_ids(pair_views(given@)).take(i as int),
                    decreases given.len() - i,
                {
                    let ghost before = olds@;
                    olds.push(given[i].0.clone());
                    assert(str_seq(olds@) =~= str_seq(before).push(given@[i as int].0@));
                    i = i + 1;
                    assert(str_seq(olds@) =~= old_ids(pair_views(given@)).take(i as int));
                }
                assert(old_ids(pair_views(given@)).take(given@.len() as int) =~= old_ids(pair_views(given@)));
                let order2 = hash_walk_order(&olds);
                let renames = encoded_renames(&given, &order2);
                let mut seen: Vec<String> = Vec::new();
                assert(str_seq(seen@) =~= Seq::<Seq<char>>::empty());
                fix_element(&mut document.root, &mut seen, &renames, &refs, &config);
                assert(is_order(order2@, pair_views(given@).len()));
                Ok(())
            },
        }
    }
}

} // verus!
