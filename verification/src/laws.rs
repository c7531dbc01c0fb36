//! Properties of the library as a whole: what one operation does to what
//! another reads, what an operation keeps, and what applying one twice
//! gives.

use vstd::prelude::*;
use crate::ast::{ElementView, NodeView, entries_without, lemma_entries_without, entry_index, entry_insert, entry_lookup, entry_remove, keys_distinct,
    lemma_entry_index};
use crate::config::{lemma_plugin_index, lemma_plugins_without, plugin_index, plugins_without};
use crate::optimizer::{url_encoded, url_escape};
use crate::parser::{BuildView, XmlEvent, built, elem_clean, initial_view, left_out, nodes_clean, push_child, run_view,
    state_clean, step_view, tag_view};
use crate::plugin::PluginConfig;
use crate::plugins::prefix_ids::{escaped_identifier, prefixed_id};
use crate::plugins::cleanup_attrs::cleaned_entries;
use crate::plugins::cleanup_ids::{assign_names, first_free, given_names, is_preserved, lemma_first_free, name_letters,
    short_name};
use crate::plugins::remove_doctype::without_doctype;
use crate::plugins::remove_empty_attrs::{empty_attr_names, is_conditional_spec, rea_children, rea_elem};
use crate::plugins::remove_empty_text::{RemoveEmptyTextParams, ret_children, ret_elem, should_remove_spec};
use crate::plugins::remove_empty_containers::{rec_children, rec_elem};
use crate::plugins::cleanup_ids::{hash_of, hash_with, href_renamed, rename_lookup, url_renamed, url_step};
use crate::plugins::merge_styles::{has_css, merge_target, ms_root, msw_children, style_text, tree_entries};
use crate::plugins::remove_comments::{drop_blank, drop_comments, keep_spec, rc_children, rc_elem, tidy};
use crate::plugins::remove_elements_by_attr::{rba_children, rba_elem};
use crate::plugins::convert_colors::{color_names, color_short_names};
use crate::plugins::convert_one_stop_gradients::{found_gradients, one_stop_result, table_of};
use crate::strings::{has_prefix, replace_all, trim};

verus! {

/// Setting an attribute leaves the value of every other attribute as it
/// was.
pub proof fn law_set_attr_keeps_others(e: Seq<(Seq<char>, Seq<char>)>, k: Seq<char>, v: Seq<char>, other: Seq<char>)
    requires
        other != k,
    ensures
        entry_lookup(entry_insert(e, k, v), other) == entry_lookup(e, other),
{
    let f = entry_insert(e, k, v);
    lemma_entry_index(e, k);
    lemma_entry_index(e, other);
    lemma_entry_index(f, other);
    let i = entry_index(e, other);
    let j = entry_index(f, other);
    assert forall|x: int| 0 <= x < e.len() implies f[x].0 == e[x].0 by {}
    if i >= 0 {
        assert(f[i].0 == other);
        assert(j >= 0) by { if j < 0 { assert(f[i].0 != other); } }
        if j < i { assert(e[j].0 == f[j].0); }
        if j > i { assert(f[i].0 != other); }
        assert(f[i] == e[i]);
    } else {
        if j >= 0 {
            if j < e.len() { assert(e[j].0 == f[j].0); }
            else { assert(f[j].0 == k); }
        }
    }
}

/// Removing an attribute from a table without repeated names leaves no
/// value under that name.
pub proof fn law_remove_attr_removes(e: Seq<(Seq<char>, Seq<char>)>, k: Seq<char>)
    requires
        keys_distinct(e),
    ensures
        entry_lookup(entry_remove(e, k), k) is None,
{
    lemma_entry_index(e, k);
    let f = entry_remove(e, k);
    lemma_entry_index(f, k);
    let i = entry_index(e, k);
    if i >= 0 {
        let j = entry_index(f, k);
        if j >= 0 {
            if j < i {
                assert(f[j] == e[j]);
            } else {
                assert(f[j] == e[j + 1]);
                assert(e[i].0 != e[j + 1].0);
            }
        }
    }
}

/// Setting an attribute keeps the names of a table pairwise different.
pub proof fn law_set_attr_keeps_names_distinct(e: Seq<(Seq<char>, Seq<char>)>, k: Seq<char>, v: Seq<char>)
    requires
        keys_distinct(e),
    ensures
        keys_distinct(entry_insert(e, k, v)),
{
    lemma_entry_index(e, k);
    let f = entry_insert(e, k, v);
    let i = entry_index(e, k);
    assert forall|x: int, y: int| 0 <= x < y < f.len() implies (#[trigger] f[x]).0 != (#[trigger] f[y]).0 by {
        if i < 0 {
            if y == e.len() {
                assert(e[x].0 != k);
            } else {
                assert(e[x].0 != e[y].0);
            }
        } else {
            if x == i {
                assert(e[i].0 != e[y].0);
            } else if y == i {
                assert(e[x].0 != e[i].0);
            } else {
                assert(e[x].0 != e[y].0);
            }
        }
    }
}

/// After the plugins of a name are removed, no plugin of that name is
/// found.
pub proof fn law_removed_plugin_not_found(p: Seq<PluginConfig>, name: Seq<char>)
    ensures
        plugin_index(plugins_without(p, name), name) < 0,
{
    lemma_plugins_without(p, name);
    lemma_plugin_index(plugins_without(p, name), name);
}

/// A plugin added to a configuration with no plugin of its name is the one
/// found under that name.
pub proof fn law_added_plugin_found(p: Seq<PluginConfig>, c: PluginConfig)
    requires
        plugin_index(p, c.name@) < 0,
    ensures
        plugin_index(p.push(c), c.name@) == p.len(),
{
    lemma_plugin_index(p, c.name@);
    lemma_plugin_index(p.push(c), c.name@);
    let q = p.push(c);
    let j = plugin_index(q, c.name@);
    assert(q[p.len() as int].name@ == c.name@);
    assert(j >= 0) by {
        if j < 0 { assert(q[p.len() as int].name@ != c.name@); }
    }
    if j < p.len() {
        assert(q[j] == p[j]);
    }
}

/// Prefixing an id twice gives what prefixing it once gives.
pub proof fn law_prefix_id_idempotent(prefix: Seq<char>, id: Seq<char>)
    ensures
        prefixed_id(prefix, prefixed_id(prefix, id)) == prefixed_id(prefix, id),
{
    if !has_prefix(id, prefix) {
        assert((prefix + id).subrange(0, prefix.len() as int) =~= prefix);
    }
}

/// An escaped identifier holds no dot and no space.
pub proof fn law_escaped_identifier_clean(s: Seq<char>)
    ensures
        !escaped_identifier(s).contains('.'),
        !escaped_identifier(s).contains(' '),
{
}

/// URL-encoded text holds none of the characters it escapes.
pub proof fn law_url_encoded_clean(s: Seq<char>)
    ensures
        forall|i: int| 0 <= i < url_encoded(s).len() ==> {
            let c = #[trigger] url_encoded(s)[i];
            c != ' ' && c != '<' && c != '>' && c != '"' && c != '#'
        },
    decreases s.len(),
{
    if s.len() > 0 {
        law_url_encoded_clean(s.drop_last());
        let pre = url_encoded(s.drop_last());
        let e = url_escape(s.last());
        assert forall|i: int| 0 <= i < url_encoded(s).len() implies {
            let c = #[trigger] url_encoded(s)[i];
            c != ' ' && c != '<' && c != '>' && c != '"' && c != '#'
        } by {
            if i < pre.len() {
                assert(url_encoded(s)[i] == pre[i]);
            } else {
                assert(url_encoded(s)[i] == e[i - pre.len()]);
            }
        }
    }
}

/// The tree builder stops at the first end-of-file event: what follows it
/// changes nothing.
pub proof fn law_builder_stops_at_eof(s: BuildView, before: Seq<XmlEvent>, after: Seq<XmlEvent>, ws: bool, cm: bool)
    requires
        forall|i: int| 0 <= i < before.len() ==> !(#[trigger] before[i] is Eof),
    ensures
        run_view(s, before + seq![XmlEvent::Eof] + after, ws, cm) == run_view(s, before, ws, cm),
    decreases before.len(),
{
    let all = before + seq![XmlEvent::Eof] + after;
    if before.len() == 0 {
        assert(all[0] is Eof);
    } else {
        assert(all[0] == before[0]);
        assert(all.drop_first() =~= before.drop_first() + seq![XmlEvent::Eof] + after);
        assert forall|i: int| 0 <= i < before.drop_first().len() implies !(#[trigger] before.drop_first()[i] is Eof) by {
            assert(before.drop_first()[i] == before[i + 1]);
        }
        law_builder_stops_at_eof(crate::parser::step_view(s, before[0], ws, cm), before.drop_first(), after, ws, cm);
    }
}

/// Cleaning attribute values keeps the names of the attributes and their
/// order.
pub proof fn law_cleanup_attrs_keeps_names(a: Seq<(Seq<char>, Seq<char>)>, nl: bool, tr: bool, sp: bool)
    ensures
        cleaned_entries(a, nl, tr, sp).len() == a.len(),
        forall|i: int| 0 <= i < a.len() ==> (#[trigger] cleaned_entries(a, nl, tr, sp)[i]).0 == a[i].0,
{
}

/// Removing the doctype twice gives what removing it once gives.
pub proof fn law_remove_doctype_idempotent(s: Seq<NodeView>)
    ensures
        without_doctype(without_doctype(s)) == without_doctype(s),
    decreases s.len(),
{
    if s.len() > 0 {
        law_remove_doctype_idempotent(s.drop_last());
        lemma_without_doctype_has_none(s);
        lemma_no_doctype_fixed(without_doctype(s));
    }
}

proof fn lemma_without_doctype_has_none(s: Seq<NodeView>)
    ensures
        forall|i: int| 0 <= i < without_doctype(s).len() ==> !(#[trigger] without_doctype(s)[i] is DocType),
    decreases s.len(),
{
    if s.len() > 0 {
        lemma_without_doctype_has_none(s.drop_last());
        let pre = without_doctype(s.drop_last());
        assert forall|i: int| 0 <= i < without_doctype(s).len() implies !(#[trigger] without_doctype(s)[i] is DocType) by {
            if i < pre.len() {
                assert(without_doctype(s)[i] == pre[i]);
            }
        }
    }
}

proof fn lemma_no_doctype_fixed(s: Seq<NodeView>)
    requires
        forall|i: int| 0 <= i < s.len() ==> !(#[trigger] s[i] is DocType),
    ensures
        without_doctype(s) == s,
    decreases s.len(),
{
    if s.len() > 0 {
        assert forall|i: int| 0 <= i < s.drop_last().len() implies !(#[trigger] s.drop_last()[i] is DocType) by {
            assert(s.drop_last()[i] == s[i]);
        }
        lemma_no_doctype_fixed(s.drop_last());
        assert(!(s[s.len() - 1] is DocType));
        assert(s.drop_last().push(s.last()) =~= s);
    }
}

/// Short names are all different: different counters give different names.
#[verifier::spinoff_prover]
pub proof fn law_short_names_distinct(n: nat, m: nat)
    requires
        n != m,
    ensures
        short_name(n) != short_name(m),
    decreases n + m,
{
    if n == 0 || m == 0 {
        if n == 0 { assert(short_name(m).len() > 0); } else { assert(short_name(n).len() > 0); }
    } else {
        let pn = ((n - 1) / 52) as nat;
        let pm = ((m - 1) / 52) as nat;
        let dn = (n - 1) % 52;
        let dm = (m - 1) % 52;
        assert(n - 1 == 52 * pn + dn && m - 1 == 52 * pm + dm);
        if short_name(n) == short_name(m) {
            assert(short_name(n) == short_name(pn).push(name_letters()[dn]));
            assert(short_name(m) == short_name(pm).push(name_letters()[dm]));
            assert(short_name(n).last() == name_letters()[dn]);
            assert(short_name(pn) =~= short_name(n).drop_last());
            assert(short_name(pm) =~= short_name(m).drop_last());
            if dn != dm {
                assert(name_letters()[dn] != name_letters()[dm]);
            } else {
                assert(pn != pm);
                law_short_names_distinct(pn, pm);
            }
        }
    }
}

/// The names that the plugin gives are pairwise different, and none of
/// them is one of the ids kept as they are.
pub proof fn law_given_names_fresh(keys: Seq<Seq<char>>, ids: Seq<Seq<char>>, minify: bool,
    preserve: Seq<Seq<char>>, prefixes: Seq<Seq<char>>)
    ensures
        assign_names(keys, ids, minify, preserve, prefixes) matches Some((g, _)) ==> {
            &&& given_names(g).no_duplicates()
            &&& forall|i: int| 0 <= i < g.len() ==> !is_preserved(#[trigger] g[i].1, preserve, prefixes)
        },
    decreases keys.len(),
{
    if keys.len() > 0 {
        let done = keys.drop_last();
        law_given_names_fresh(done, ids, minify, preserve, prefixes);
        if let Some((g, _)) = assign_names(keys, ids, minify, preserve, prefixes) {
            let (g0, c) = assign_names(done, ids, minify, preserve, prefixes)->0;
            if g.len() > g0.len() {
                let n = first_free(c, ids, done, g0, preserve, prefixes)->0;
                lemma_first_free(c, ids, done, g0, preserve, prefixes);
                assert(g == g0.push((keys.last(), short_name(n as nat))));
                assert(given_names(g) =~= given_names(g0).push(short_name(n as nat)));
                assert forall|i: int, j: int| 0 <= i < j < given_names(g).len() implies
                    given_names(g)[i] != given_names(g)[j] by {
                    if j == g0.len() {
                        assert(given_names(g0).contains(given_names(g0)[i]));
                    } else {
                        assert(given_names(g0)[i] != given_names(g0)[j]);
                    }
                }
                assert forall|i: int| 0 <= i < g.len() implies !is_preserved(#[trigger] g[i].1, preserve, prefixes) by {
                    if i < g0.len() { assert(g[i] == g0[i]); }
                }
            } else {
                assert(g == g0);
            }
        }
    }
}

proof fn lemma_without_lacks_names(e: Seq<(Seq<char>, Seq<char>)>, names: Seq<Seq<char>>)
    ensures
        forall|j: int| 0 <= j < entries_without(e, names).len() ==> !names.contains(#[trigger] entries_without(e, names)[j].0),
    decreases e.len(),
{
    if e.len() > 0 {
        lemma_without_lacks_names(e.drop_last(), names);
        let w = entries_without(e.drop_last(), names);
        if !names.contains(e.last().0) {
            assert forall|j: int| 0 <= j < w.push(e.last()).len() implies !names.contains(#[trigger] w.push(e.last())[j].0) by {
                if j < w.len() {
                    assert(w.push(e.last())[j] == w[j]);
                }
            }
        }
    }
}

proof fn lemma_nothing_empty(a: Seq<(Seq<char>, Seq<char>)>)
    requires
        forall|j: int| 0 <= j < a.len() ==> !((#[trigger] a[j]).1.len() == 0 && !is_conditional_spec(a[j].0)),
    ensures
        empty_attr_names(a) == Seq::<Seq<char>>::empty(),
        entries_without(a, Seq::<Seq<char>>::empty()) == a,
    decreases a.len(),
{
    if a.len() > 0 {
        lemma_nothing_empty(a.drop_last());
        assert(a.last() == a[a.len() - 1]);
        assert(a.drop_last().push(a.last()) =~= a);
    }
}

proof fn lemma_removed_names(a: Seq<(Seq<char>, Seq<char>)>, j: int)
    requires
        0 <= j < a.len(),
        a[j].1.len() == 0 && !is_conditional_spec(a[j].0),
    ensures
        empty_attr_names(a).contains(a[j].0),
    decreases a.len(),
{
    if j < a.len() - 1 {
        assert(a.drop_last()[j] == a[j]);
        lemma_removed_names(a.drop_last(), j);
        let k = choose|k: int| 0 <= k < empty_attr_names(a.drop_last()).len() && empty_attr_names(a.drop_last())[k] == a[j].0;
        if empty_attr_names(a) != empty_attr_names(a.drop_last()) {
            assert(empty_attr_names(a)[k] == a[j].0);
        }
    } else {
        assert(empty_attr_names(a).last() == a[j].0);
    }
}

/// Removing empty attributes a second time changes nothing.
pub proof fn law_remove_empty_attrs_idempotent(e: ElementView)
    ensures
        rea_elem(rea_elem(e)) == rea_elem(e),
    decreases e,
{
    let a = e.attrs;
    let names = empty_attr_names(a);
    let a1 = entries_without(a, names);
    lemma_without_lacks_names(a, names);
    lemma_entries_without(a, names);
    assert forall|j: int| 0 <= j < a1.len() implies !((#[trigger] a1[j]).1.len() == 0 && !is_conditional_spec(a1[j].0)) by {
        let k = choose|k: int| 0 <= k < a.len() && a[k] == a1[j];
        if a1[j].1.len() == 0 && !is_conditional_spec(a1[j].0) {
            lemma_removed_names(a, k);
        }
    }
    lemma_nothing_empty(a1);
    law_remove_empty_attrs_idempotent_nodes(e.children);
}

/// Removing empty attributes from a list of nodes a second time changes
/// nothing.
pub proof fn law_remove_empty_attrs_idempotent_nodes(s: Seq<NodeView>)
    ensures
        rea_children(rea_children(s)) == rea_children(s),
    decreases s,
{
    if s.len() > 0 {
        law_remove_empty_attrs_idempotent_nodes(s.drop_last());
        let r = rea_children(s);
        assert(r.drop_last() =~= rea_children(s.drop_last()));
        match s.last() {
            NodeView::Element(c) => {
                law_remove_empty_attrs_idempotent(c);
            },
            _ => {},
        }
    }
}

/// A node added to a clean list keeps it clean when it is itself kept and
/// clean.
proof fn lemma_nodes_clean_push(s: Seq<NodeView>, n: NodeView, ws: bool, cm: bool)
    ensures
        nodes_clean(s.push(n), ws, cm) == (nodes_clean(s, ws, cm) && !left_out(n, ws, cm) && match n {
            NodeView::Element(c) => elem_clean(c, ws, cm),
            _ => true,
        }),
{
    assert(s.push(n).drop_last() =~= s);
    assert(s.push(n).last() == n);
}

proof fn lemma_push_child_clean(e: ElementView, n: NodeView, ws: bool, cm: bool)
    requires
        elem_clean(e, ws, cm),
        !left_out(n, ws, cm),
        n matches NodeView::Element(c) ==> elem_clean(c, ws, cm),
    ensures
        elem_clean(push_child(e, n), ws, cm),
{
    lemma_nodes_clean_push(e.children, n, ws, cm);
}

proof fn lemma_tag_clean(t: crate::parser::StartTag, ws: bool, cm: bool)
    ensures
        elem_clean(tag_view(t), ws, cm),
{
}

/// One step of the builder keeps a clean state clean.
proof fn lemma_step_clean(s: BuildView, ev: XmlEvent, ws: bool, cm: bool)
    requires
        state_clean(s, ws, cm),
    ensures
        state_clean(step_view(s, ev, ws, cm), ws, cm),
{
    let r = step_view(s, ev, ws, cm);
    match ev {
        XmlEvent::Start(t) => {
            lemma_tag_clean(t, ws, cm);
            if let Some(c) = s.current {
                assert forall|i: int| 0 <= i < r.stack.len() implies elem_clean(#[trigger] r.stack[i], ws, cm) by {
                    if i < s.stack.len() { assert(r.stack[i] == s.stack[i]); }
                }
            }
        },
        XmlEvent::End => {
            if let Some(f) = s.current {
                if s.stack.len() > 0 {
                    assert(elem_clean(s.stack[s.stack.len() - 1], ws, cm));
                    lemma_push_child_clean(s.stack.last(), NodeView::Element(f), ws, cm);
                    assert forall|i: int| 0 <= i < r.stack.len() implies elem_clean(#[trigger] r.stack[i], ws, cm) by {
                        assert(r.stack[i] == s.stack[i]);
                    }
                }
            }
        },
        XmlEvent::Empty(t) => {
            lemma_tag_clean(t, ws, cm);
            if let Some(c) = s.current {
                lemma_push_child_clean(c, NodeView::Element(tag_view(t)), ws, cm);
            }
        },
        XmlEvent::Text(t) => {
            if ws || crate::strings::trim(t@).len() > 0 {
                if let Some(c) = s.current {
                    lemma_push_child_clean(c, NodeView::Text(t@), ws, cm);
                }
            }
        },
        XmlEvent::Comment(c) => {
            if cm {
                let n = NodeView::Comment(c@);
                match s.current {
                    Some(e) => lemma_push_child_clean(e, n, ws, cm),
                    None => {
                        lemma_nodes_clean_push(s.prologue, n, ws, cm);
                        lemma_nodes_clean_push(s.epilogue, n, ws, cm);
                    },
                }
            }
        },
        XmlEvent::CData(c) => {
            if let Some(e) = s.current {
                lemma_push_child_clean(e, NodeView::CData(c@), ws, cm);
            }
        },
        XmlEvent::Pi(raw) => {
            let n = NodeView::ProcessingInstruction {
                target: crate::parser::pi_target(raw@),
                data: crate::parser::pi_data(raw@),
            };
            match s.current {
                Some(e) => lemma_push_child_clean(e, n, ws, cm),
                None => {
                    lemma_nodes_clean_push(s.prologue, n, ws, cm);
                    lemma_nodes_clean_push(s.epilogue, n, ws, cm);
                },
            }
        },
        XmlEvent::DocType(d) => {
            lemma_nodes_clean_push(s.prologue, NodeView::DocType(d@), ws, cm);
        },
        _ => {},
    }
}

/// Running the builder from a clean state leaves a clean state.
proof fn lemma_run_clean(s: BuildView, evs: Seq<XmlEvent>, ws: bool, cm: bool)
    requires
        state_clean(s, ws, cm),
    ensures
        state_clean(run_view(s, evs, ws, cm), ws, cm),
    decreases evs.len(),
{
    if evs.len() > 0 && !(evs[0] is Eof) {
        lemma_step_clean(s, evs[0], ws, cm);
        lemma_run_clean(step_view(s, evs[0], ws, cm), evs.drop_first(), ws, cm);
    }
}

/// Whatever events the reader gives, the tree built from them holds no
/// comment when comments are not kept, and no text made only of white
/// space when white space is not kept: not before the root, not in it, not
/// after it.
pub proof fn law_builder_leaves_out_unkept(evs: Seq<XmlEvent>, keep_ws: bool, keep_comments: bool)
    ensures
        state_clean(built(evs, keep_ws, keep_comments), keep_ws, keep_comments),
{
    lemma_run_clean(initial_view(), evs, keep_ws, keep_comments);
}

/// Removing empty text elements a second time changes nothing.
pub proof fn law_remove_empty_text_idempotent(e: ElementView, p: RemoveEmptyTextParams)
    ensures
        ret_elem(ret_elem(e, p), p) == ret_elem(e, p),
    decreases e,
{
    law_remove_empty_text_idempotent_nodes(e.children, p);
}

/// Removing empty text elements from a list of nodes a second time changes
/// nothing.
pub proof fn law_remove_empty_text_idempotent_nodes(s: Seq<NodeView>, p: RemoveEmptyTextParams)
    ensures
        ret_children(ret_children(s, p), p) == ret_children(s, p),
    decreases s,
{
    if s.len() > 0 {
        law_remove_empty_text_idempotent_nodes(s.drop_last(), p);
        let pre = ret_children(s.drop_last(), p);
        match s.last() {
            NodeView::Element(c) => {
                let d = ret_elem(c, p);
                if !should_remove_spec(d, p) {
                    law_remove_empty_text_idempotent(c, p);
                    let r = pre.push(NodeView::Element(d));
                    assert(r.drop_last() =~= pre);
                    assert(r.last() == NodeView::Element(d));
                }
            },
            other => {
                let r = pre.push(other);
                assert(r.drop_last() =~= pre);
                assert(r.last() == other);
            },
        }
    }
}

/// Removing empty containers a second time changes nothing: what the first
/// run keeps holds no container that is still removable.
pub proof fn law_remove_empty_containers_idempotent(e: ElementView)
    ensures
        rec_elem(rec_elem(e)) == rec_elem(e),
    decreases e,
{
    law_remove_empty_containers_idempotent_nodes(e.children, e.name);
}

/// Removing empty containers from the children of an element named
/// `parent` a second time changes nothing.
pub proof fn law_remove_empty_containers_idempotent_nodes(s: Seq<NodeView>, parent: Seq<char>)
    ensures
        rec_children(rec_children(s, parent), parent) == rec_children(s, parent),
    decreases s,
{
    if s.len() > 0 {
        law_remove_empty_containers_idempotent_nodes(s.drop_last(), parent);
        let pre = rec_children(s.drop_last(), parent);
        match s.last() {
            NodeView::Element(c) => {
                let d = rec_elem(c);
                if !crate::plugins::remove_empty_containers::should_remove_spec(d, parent) {
                    law_remove_empty_containers_idempotent(c);
                    let r = pre.push(NodeView::Element(d));
                    assert(r.drop_last() =~= pre);
                    assert(r.last() == NodeView::Element(d));
                }
            },
            other => {
                let r = pre.push(other);
                assert(r.drop_last() =~= pre);
                assert(r.last() == other);
            },
        }
    }
}

proof fn lemma_hash_of_injective(a: Seq<char>, b: Seq<char>)
    ensures
        hash_of(a) == hash_of(b) ==> a == b,
{
    if hash_of(a) == hash_of(b) {
        assert(hash_of(a).skip(1) =~= a);
        assert(hash_of(b).skip(1) =~= b);
    }
}

/// With renamings whose old names are pairwise different and whose new
/// names are none of the old names: an id `x` renamed to `y` is looked up
/// as `y`, and a link `#x` becomes `#y`; a link to an id that is not
/// renamed stays as it is.
pub proof fn law_links_follow_renaming(m: Seq<(Seq<char>, Seq<char>, Seq<char>)>, x: Seq<char>)
    requires
        forall|i: int, j: int| 0 <= i < j < m.len() ==> (#[trigger] m[i]).0 != (#[trigger] m[j]).0,
        forall|i: int, j: int| 0 <= i < m.len() && 0 <= j < m.len() ==> (#[trigger] m[i]).1 != (#[trigger] m[j]).0,
    ensures
        forall|i: int| 0 <= i < m.len() && (#[trigger] m[i]).0 == x ==> {
            &&& rename_lookup(m, x) == Some(m[i].1)
            &&& href_renamed(hash_of(x), m) == hash_of(m[i].1)
        },
        (forall|i: int| 0 <= i < m.len() ==> (#[trigger] m[i]).0 != x) ==> {
            &&& rename_lookup(m, x) is None
            &&& href_renamed(hash_of(x), m) == hash_of(x)
        },
    decreases m.len(),
{
    if m.len() > 0 {
        let p = m.drop_last();
        let n = m.len() - 1;
        assert forall|i: int, j: int| 0 <= i < j < p.len() implies (#[trigger] p[i]).0 != (#[trigger] p[j]).0 by {
            assert(p[i] == m[i] && p[j] == m[j]);
        }
        assert forall|i: int, j: int| 0 <= i < p.len() && 0 <= j < p.len() implies (#[trigger] p[i]).1 != (#[trigger] p[j]).0 by {
            assert(p[i] == m[i] && p[j] == m[j]);
        }
        law_links_follow_renaming(p, x);
        let w = href_renamed(hash_of(x), p);
        assert(m.last() == m[n]);
        if m[n].0 == x {
            assert forall|i: int| 0 <= i < p.len() implies (#[trigger] p[i]).0 != x by {
                assert(p[i] == m[i]);
            }
        } else {
            lemma_hash_of_injective(x, m[n].0);
            if exists|i: int| 0 <= i < p.len() && (#[trigger] p[i]).0 == x {
                let i = choose|i: int| 0 <= i < p.len() && (#[trigger] p[i]).0 == x;
                assert(p[i] == m[i]);
                lemma_hash_of_injective(m[i].1, m[n].0);
                assert forall|k: int| 0 <= k < m.len() && (#[trigger] m[k]).0 == x implies k == i by {
                    if k != i && k < n {
                        if k < i { assert(m[k].0 != m[i].0); } else { assert(m[i].0 != m[k].0); }
                    }
                }
            } else {
                assert forall|k: int| 0 <= k < m.len() implies (#[trigger] m[k]).0 != x by {
                    if k < n { assert(p[k] == m[k]); }
                }
            }
        }
    }
}

/// Whether every comment of the element's tree is one that the plugin
/// keeps (a legal comment, when those are preserved).
pub open spec fn only_kept_comments(e: ElementView, preserve: bool) -> bool
    decreases e,
{
    only_kept_nodes(e.children, preserve)
}

/// Whether every node of a list, and every comment of the trees below it,
/// is one that the plugin keeps.
pub open spec fn only_kept_nodes(s: Seq<NodeView>, preserve: bool) -> bool
    decreases s,
{
    if s.len() == 0 {
        true
    } else {
        &&& only_kept_nodes(s.drop_last(), preserve)
        &&& keep_spec(s.last(), preserve)
        &&& match s.last() {
            NodeView::Element(c) => only_kept_comments(c, preserve),
            _ => true,
        }
    }
}

/// Whether every element of a list keeps only kept comments in its tree.
spec fn elements_kept(s: Seq<NodeView>, preserve: bool) -> bool
    decreases s.len(),
{
    if s.len() == 0 {
        true
    } else {
        elements_kept(s.drop_last(), preserve) && match s.last() {
            NodeView::Element(c) => only_kept_comments(c, preserve),
            _ => true,
        }
    }
}

proof fn lemma_kept_push(s: Seq<NodeView>, n: NodeView, preserve: bool)
    ensures
        only_kept_nodes(s.push(n), preserve) == (only_kept_nodes(s, preserve) && keep_spec(n, preserve) && match n {
            NodeView::Element(c) => only_kept_comments(c, preserve),
            _ => true,
        }),
        elements_kept(s.push(n), preserve) == (elements_kept(s, preserve) && match n {
            NodeView::Element(c) => only_kept_comments(c, preserve),
            _ => true,
        }),
{
    assert(s.push(n).drop_last() =~= s);
    assert(s.push(n).last() == n);
}

proof fn lemma_drop_comments_kept(s: Seq<NodeView>, preserve: bool)
    requires
        elements_kept(s, preserve),
    ensures
        only_kept_nodes(drop_comments(s, preserve), preserve),
    decreases s.len(),
{
    if s.len() > 0 {
        lemma_drop_comments_kept(s.drop_last(), preserve);
        let pre = drop_comments(s.drop_last(), preserve);
        lemma_kept_push(pre, s.last(), preserve);
    }
}

proof fn lemma_drop_blank_kept(s: Seq<NodeView>, preserve: bool)
    requires
        only_kept_nodes(s, preserve),
    ensures
        only_kept_nodes(drop_blank(s), preserve),
    decreases s.len(),
{
    if s.len() > 0 {
        lemma_drop_blank_kept(s.drop_last(), preserve);
        let pre = drop_blank(s.drop_last());
        lemma_kept_push(pre, s.last(), preserve);
    }
}

proof fn lemma_rc_children_kept(s: Seq<NodeView>, preserve: bool)
    ensures
        elements_kept(rc_children(s, preserve), preserve),
    decreases s,
{
    if s.len() > 0 {
        lemma_rc_children_kept(s.drop_last(), preserve);
        let pre = rc_children(s.drop_last(), preserve);
        match s.last() {
            NodeView::Element(c) => {
                law_remove_comments_keeps_only_kept(c, preserve);
                lemma_kept_push(pre, NodeView::Element(rc_elem(c, preserve)), preserve);
            },
            other => {
                lemma_kept_push(pre, other, preserve);
            },
        }
    }
}

/// After comments are removed, every comment left in the tree is a legal
/// comment, and only when legal comments are preserved.
pub proof fn law_remove_comments_keeps_only_kept(e: ElementView, preserve: bool)
    ensures
        only_kept_comments(rc_elem(e, preserve), preserve),
    decreases e,
{
    let t = rc_children(e.children, preserve);
    lemma_rc_children_kept(e.children, preserve);
    lemma_drop_comments_kept(t, preserve);
    let d = drop_comments(t, preserve);
    if tidy(d) != d {
        lemma_drop_blank_kept(d, preserve);
    }
}

/// Before and after the root, every node left after comments are removed
/// is one that the plugin keeps.
pub proof fn law_remove_comments_outside_root(s: Seq<NodeView>, preserve: bool)
    ensures
        forall|i: int| 0 <= i < drop_comments(s, preserve).len() ==> keep_spec(#[trigger] drop_comments(s, preserve)[i], preserve),
    decreases s.len(),
{
    if s.len() > 0 {
        law_remove_comments_outside_root(s.drop_last(), preserve);
        let pre = drop_comments(s.drop_last(), preserve);
        if keep_spec(s.last(), preserve) {
            assert forall|i: int| 0 <= i < pre.push(s.last()).len() implies keep_spec(#[trigger] pre.push(s.last())[i], preserve) by {
                if i < pre.len() {
                    assert(pre.push(s.last())[i] == pre[i]);
                }
            }
        }
    }
}

/// Whether no element of the trees of a list of nodes has one of the ids
/// or class names given.
pub open spec fn none_marked(s: Seq<NodeView>, ids: Seq<Seq<char>>, classes: Seq<Seq<char>>) -> bool
    decreases s,
{
    if s.len() == 0 {
        true
    } else {
        none_marked(s.drop_last(), ids, classes) && match s.last() {
            NodeView::Element(c) => !crate::plugins::remove_elements_by_attr::should_remove_spec(c, ids, classes)
                && none_marked(c.children, ids, classes),
            _ => true,
        }
    }
}

/// Below the root, no element that the plugin leaves has one of the ids or
/// class names that it removes.
pub proof fn law_removed_ids_and_classes_gone(e: ElementView, ids: Seq<Seq<char>>, classes: Seq<Seq<char>>)
    ensures
        none_marked(rba_elem(e, ids, classes).children, ids, classes),
    decreases e,
{
    law_removed_ids_and_classes_gone_nodes(e.children, ids, classes);
}

/// No element of the trees that the plugin leaves of a list of nodes has
/// one of the ids or class names that it removes.
pub proof fn law_removed_ids_and_classes_gone_nodes(s: Seq<NodeView>, ids: Seq<Seq<char>>, classes: Seq<Seq<char>>)
    ensures
        none_marked(rba_children(s, ids, classes), ids, classes),
    decreases s,
{
    if s.len() > 0 {
        law_removed_ids_and_classes_gone_nodes(s.drop_last(), ids, classes);
        let pre = rba_children(s.drop_last(), ids, classes);
        match s.last() {
            NodeView::Element(c) => {
                if !crate::plugins::remove_elements_by_attr::should_remove_spec(c, ids, classes) {
                    law_removed_ids_and_classes_gone(c, ids, classes);
                    let r = pre.push(NodeView::Element(rba_elem(c, ids, classes)));
                    assert(r.drop_last() =~= pre);
                    assert(r.last() == NodeView::Element(rba_elem(c, ids, classes)));
                }
            },
            other => {
                let r = pre.push(other);
                assert(r.drop_last() =~= pre);
                assert(r.last() == other);
            },
        }
    }
}

/// Whether a name holds none of the characters that end or start a
/// reference: `#`, quotes and `)`.
pub open spec fn plain_name(x: Seq<char>) -> bool {
    !x.contains('#') && !x.contains('"') && !x.contains('\'') && !x.contains(')')
}

/// The value `url(#x)`.
pub open spec fn url_ref(x: Seq<char>) -> Seq<char> {
    "url("@ + hash_with(x, ')')
}

proof fn lemma_replace_without_hash(s: Seq<char>, from: Seq<char>, to: Seq<char>)
    requires
        from.len() > 0,
        from[0] == '#',
        !s.contains('#'),
    ensures
        replace_all(s, from, to) == s,
    decreases s.len(),
{
    if s.len() >= from.len() {
        assert(s.subrange(0, from.len() as int)[0] == s[0]);
        assert(s[0] != '#');
        assert(!s.drop_first().contains('#')) by {
            if s.drop_first().contains('#') {
                let i = choose|i: int| 0 <= i < s.drop_first().len() && s.drop_first()[i] == '#';
                assert(s[i + 1] == '#');
            }
        }
        lemma_replace_without_hash(s.drop_first(), from, to);
        assert(seq![s[0]] + s.drop_first() =~= s);
    }
}

proof fn lemma_replace_after_prefix(p: Seq<char>, rest: Seq<char>, from: Seq<char>, to: Seq<char>)
    requires
        from.len() > 0,
        from[0] == '#',
        !p.contains('#'),
    ensures
        replace_all(p + rest, from, to) == p + replace_all(rest, from, to),
    decreases p.len(),
{
    if p.len() > 0 {
        let v = p + rest;
        assert(v[0] == p[0]);
        assert(p[0] != '#');
        assert(!p.drop_first().contains('#')) by {
            if p.drop_first().contains('#') {
                let i = choose|i: int| 0 <= i < p.drop_first().len() && p.drop_first()[i] == '#';
                assert(p[i + 1] == '#');
            }
        }
        lemma_replace_after_prefix(p.drop_first(), rest, from, to);
        assert(v.drop_first() =~= p.drop_first() + rest);
        if v.len() >= from.len() {
            assert(v.subrange(0, from.len() as int)[0] == v[0]);
        } else {
            assert(rest.len() < from.len());
            assert(replace_all(rest, from, to) == rest);
        }
        assert(seq![p[0]] + (p.drop_first() + replace_all(rest, from, to)) =~= p + replace_all(rest, from, to));
    } else {
        assert(p + rest =~= rest);
    }
}

/// Replacing `#p` and a closing character in `#x)`.
proof fn lemma_replace_hash_ref(x: Seq<char>, p: Seq<char>, tail: char, to: Seq<char>)
    requires
        plain_name(x),
        plain_name(p),
        tail == '"' || tail == '\'' || tail == ')',
    ensures
        replace_all(hash_with(x, ')'), hash_with(p, tail), to)
            == (if p == x && tail == ')' { to } else { hash_with(x, ')') }),
{
    let s = hash_with(x, ')');
    let from = hash_with(p, tail);
    assert(s.len() == x.len() + 2);
    assert(from.len() == p.len() + 2);
    assert(s[0] == '#' && from[0] == '#');
    let rest = s.drop_first();
    assert(rest =~= x.push(')'));
    assert(!rest.contains('#')) by {
        if rest.contains('#') {
            let i = choose|i: int| 0 <= i < rest.len() && rest[i] == '#';
            if i < x.len() { assert(x[i] == '#'); assert(x.contains('#')); }
        }
    }
    if p == x && tail == ')' {
        assert(s =~= from);
        assert(s.subrange(0, from.len() as int) =~= from);
        assert(s.subrange(from.len() as int, s.len() as int) =~= Seq::<char>::empty());
        assert(replace_all(Seq::<char>::empty(), from, to) == Seq::<char>::empty());
        assert(replace_all(s, from, to) == to + replace_all(Seq::<char>::empty(), from, to));
        assert(to + Seq::<char>::empty() =~= to);
    } else {
        if s.len() >= from.len() {
            assert(s.subrange(0, from.len() as int) != from) by {
                let k: int = p.len() as int + 1;
                if p.len() < x.len() {
                    assert(s.subrange(0, from.len() as int)[k] == x[p.len() as int]);
                    assert(from[k] == tail);
                    if x[p.len() as int] == tail { assert(x.contains(tail)); }
                } else {
                    assert(p.len() == x.len());
                    if tail != ')' {
                        assert(s.subrange(0, from.len() as int)[k] == ')');
                        assert(from[k] == tail);
                    } else {
                        assert(p != x);
                        if forall|j: int| 0 <= j < p.len() ==> p[j] == x[j] {
                            assert(p =~= x);
                        }
                        let j = choose|j: int| 0 <= j < p.len() && p[j] != x[j];
                        assert(s.subrange(0, from.len() as int)[j + 1] == x[j]);
                        assert(from[j + 1] == p[j]);
                    }
                }
            }
            lemma_replace_without_hash(rest, from, to);
            assert(replace_all(s, from, to) == seq![s[0]] + replace_all(s.drop_first(), from, to));
            assert(seq![s[0]] + rest =~= s);
        }
    }
}

/// What one renaming does to the name in `url(#x)`.
pub open spec fn url_step_name(x: Seq<char>, t: (Seq<char>, Seq<char>, Seq<char>)) -> Seq<char> {
    let c = if t.2 == x { t.1 } else { x };
    if c == t.0 { t.1 } else { c }
}

/// What the renamings, in turn, do to the name in `url(#x)`.
pub open spec fn url_name_after(x: Seq<char>, m: Seq<(Seq<char>, Seq<char>, Seq<char>)>) -> Seq<char>
    decreases m.len(),
{
    if m.len() == 0 { x } else { url_step_name(url_name_after(x, m.drop_last()), m.last()) }
}

proof fn lemma_url_ref_replace(x: Seq<char>, p: Seq<char>, tail: char, y: Seq<char>)
    requires
        plain_name(x),
        plain_name(p),
        plain_name(y),
        tail == '"' || tail == '\'' || tail == ')',
    ensures
        replace_all(url_ref(x), hash_with(p, tail), hash_with(y, tail))
            == (if p == x && tail == ')' { url_ref(y) } else { url_ref(x) }),
{
    let from = hash_with(p, tail);
    assert(from[0] == '#');
    let u = "url("@;
    assert(!u.contains('#')) by {
        reveal_strlit("url(");
        if u.contains('#') {
            let i = choose|i: int| 0 <= i < u.len() && u[i] == '#';
            assert(u[i] != '#');
        }
    }
    lemma_replace_after_prefix(u, hash_with(x, ')'), from, hash_with(y, tail));
    lemma_replace_hash_ref(x, p, tail, hash_with(y, tail));
}

proof fn lemma_url_step(x: Seq<char>, t: (Seq<char>, Seq<char>, Seq<char>))
    requires
        plain_name(x),
        plain_name(t.0),
        plain_name(t.1),
        plain_name(t.2),
    ensures
        url_step(url_ref(x), t) == url_ref(url_step_name(x, t)),
{
    lemma_url_ref_replace(x, t.2, '"', t.1);
    lemma_url_ref_replace(x, t.2, '\'', t.1);
    lemma_url_ref_replace(x, t.2, ')', t.1);
    let c = if t.2 == x { t.1 } else { x };
    lemma_url_ref_replace(c, t.0, '"', t.1);
    lemma_url_ref_replace(c, t.0, '\'', t.1);
    lemma_url_ref_replace(c, t.0, ')', t.1);
}

proof fn lemma_url_renamed(x: Seq<char>, m: Seq<(Seq<char>, Seq<char>, Seq<char>)>)
    requires
        plain_name(x),
        forall|i: int| 0 <= i < m.len() ==> plain_name((#[trigger] m[i]).0) && plain_name(m[i].1) && plain_name(m[i].2),
    ensures
        url_renamed(url_ref(x), m) == url_ref(url_name_after(x, m)),
        plain_name(url_name_after(x, m)),
    decreases m.len(),
{
    if m.len() > 0 {
        assert forall|i: int| 0 <= i < m.drop_last().len() implies plain_name((#[trigger] m.drop_last()[i]).0)
            && plain_name(m.drop_last()[i].1) && plain_name(m.drop_last()[i].2) by {
            assert(m.drop_last()[i] == m[i]);
        }
        lemma_url_renamed(x, m.drop_last());
        let n = m.len() - 1;
        assert(m.last() == m[n]);
        lemma_url_step(url_name_after(x, m.drop_last()), m.last());
    }
}

proof fn lemma_url_name_after(x: Seq<char>, m: Seq<(Seq<char>, Seq<char>, Seq<char>)>)
    requires
        forall|i: int, j: int| 0 <= i < j < m.len() ==> (#[trigger] m[i]).0 != (#[trigger] m[j]).0,
        forall|i: int, j: int| 0 <= i < m.len() && 0 <= j < m.len() ==> (#[trigger] m[i]).1 != (#[trigger] m[j]).0
            && m[i].1 != m[j].2,
        forall|j: int| 0 <= j < m.len() && (#[trigger] m[j]).2 == x ==> m[j].0 == x,
    ensures
        forall|i: int| 0 <= i < m.len() && (#[trigger] m[i]).0 == x ==> url_name_after(x, m) == m[i].1,
        (forall|i: int| 0 <= i < m.len() ==> (#[trigger] m[i]).0 != x) ==> url_name_after(x, m) == x,
    decreases m.len(),
{
    if m.len() > 0 {
        let p = m.drop_last();
        let n = m.len() - 1;
        assert forall|i: int, j: int| 0 <= i < j < p.len() implies (#[trigger] p[i]).0 != (#[trigger] p[j]).0 by {
            assert(p[i] == m[i] && p[j] == m[j]);
        }
        assert forall|i: int, j: int| 0 <= i < p.len() && 0 <= j < p.len() implies (#[trigger] p[i]).1 != (#[trigger] p[j]).0
            && p[i].1 != p[j].2 by {
            assert(p[i] == m[i] && p[j] == m[j]);
        }
        assert forall|j: int| 0 <= j < p.len() && (#[trigger] p[j]).2 == x implies p[j].0 == x by {
            assert(p[j] == m[j]);
        }
        lemma_url_name_after(x, p);
        assert(m.last() == m[n]);
        if m[n].0 == x {
            assert forall|i: int| 0 <= i < p.len() implies (#[trigger] p[i]).0 != x by {
                assert(p[i] == m[i]);
            }
        } else {
            assert(m[n].2 != x);
            if exists|i: int| 0 <= i < p.len() && (#[trigger] p[i]).0 == x {
                let i = choose|i: int| 0 <= i < p.len() && (#[trigger] p[i]).0 == x;
                assert(p[i] == m[i]);
                assert(m[i].1 != m[n].2 && m[i].1 != m[n].0);
                assert forall|k: int| 0 <= k < m.len() && (#[trigger] m[k]).0 == x implies k == i by {
                    if k != i && k < n {
                        if k < i { assert(m[k].0 != m[i].0); } else { assert(m[i].0 != m[k].0); }
                    }
                }
            } else {
                assert forall|k: int| 0 <= k < m.len() implies (#[trigger] m[k]).0 != x by {
                    if k < n { assert(p[k] == m[k]); }
                }
            }
        }
    }
}

/// With renamings whose old names are pairwise different, whose new names
/// are neither old names nor encoded old names, and with names free of
/// `#`, quotes and `)`: a value `url(#x)` becomes `url(#y)` when `x` is
/// renamed to `y`, and stays as it is when `x` is not renamed and is no
/// other name's encoding.
pub proof fn law_url_refs_follow_renaming(m: Seq<(Seq<char>, Seq<char>, Seq<char>)>, x: Seq<char>)
    requires
        plain_name(x),
        forall|i: int| 0 <= i < m.len() ==> plain_name((#[trigger] m[i]).0) && plain_name(m[i].1) && plain_name(m[i].2),
        forall|i: int, j: int| 0 <= i < j < m.len() ==> (#[trigger] m[i]).0 != (#[trigger] m[j]).0,
        forall|i: int, j: int| 0 <= i < m.len() && 0 <= j < m.len() ==> (#[trigger] m[i]).1 != (#[trigger] m[j]).0
            && m[i].1 != m[j].2,
        forall|j: int| 0 <= j < m.len() && (#[trigger] m[j]).2 == x ==> m[j].0 == x,
    ensures
        forall|i: int| 0 <= i < m.len() && (#[trigger] m[i]).0 == x ==> url_renamed(url_ref(x), m) == url_ref(m[i].1),
        (forall|i: int| 0 <= i < m.len() ==> (#[trigger] m[i]).0 != x) ==> url_renamed(url_ref(x), m) == url_ref(x),
{
    lemma_url_renamed(x, m);
    lemma_url_name_after(x, m);
}

/// Every hex that the short names table maps to a name is that name's hex
/// in the color names table: hex to name to hex gives the hex back.
pub proof fn law_short_names_round_trip()
    ensures
        forall|i: int| #![trigger color_short_names()[i]] 0 <= i < color_short_names().len() ==> exists|j: int| 0 <= j < color_names().len()
            && #[trigger] color_names()[j] == (color_short_names()[i].1, color_short_names()[i].0),
{
    assert(color_short_names()[0] == ("#000080"@, "navy"@));
    assert(color_names()[101] == ("navy"@, "#000080"@));
    assert(color_short_names()[1] == ("#008000"@, "green"@));
    assert(color_names()[54] == ("green"@, "#008000"@));
    assert(color_short_names()[2] == ("#008080"@, "teal"@));
    assert(color_names()[137] == ("teal"@, "#008080"@));
    assert(color_short_names()[3] == ("#800000"@, "maroon"@));
    assert(color_names()[86] == ("maroon"@, "#800000"@));
    assert(color_short_names()[4] == ("#800080"@, "purple"@));
    assert(color_names()[118] == ("purple"@, "#800080"@));
    assert(color_short_names()[5] == ("#808000"@, "olive"@));
    assert(color_names()[103] == ("olive"@, "#808000"@));
    assert(color_short_names()[6] == ("#808080"@, "gray"@));
    assert(color_names()[53] == ("gray"@, "#808080"@));
    assert(color_short_names()[7] == ("#c0c0c0"@, "silver"@));
    assert(color_names()[128] == ("silver"@, "#c0c0c0"@));
    assert(color_short_names()[8] == ("#ff0000"@, "red"@));
    assert(color_names()[119] == ("red"@, "#ff0000"@));
    assert(color_short_names()[9] == ("#00ff00"@, "lime"@));
    assert(color_names()[82] == ("lime"@, "#00ff00"@));
    assert(color_short_names()[10] == ("#0000ff"@, "blue"@));
    assert(color_names()[9] == ("blue"@, "#0000ff"@));
    assert(color_short_names()[11] == ("#ffff00"@, "yellow"@));
    assert(color_names()[145] == ("yellow"@, "#ffff00"@));
    assert(color_short_names()[12] == ("#00ffff"@, "cyan"@));
    assert(color_names()[20] == ("cyan"@, "#00ffff"@));
    assert(color_short_names()[13] == ("#ff00ff"@, "magenta"@));
    assert(color_names()[85] == ("magenta"@, "#ff00ff"@));
    assert(color_short_names()[14] == ("#ffffff"@, "white"@));
    assert(color_names()[143] == ("white"@, "#ffffff"@));
    assert(color_short_names()[15] == ("#000000"@, "black"@));
    assert(color_names()[7] == ("black"@, "#000000"@));
    assert(color_short_names().len() == 16);
    assert forall|i: int| #![trigger color_short_names()[i]] 0 <= i < color_short_names().len() implies exists|j: int| 0 <= j < color_names().len()
        && #[trigger] color_names()[j] == (color_short_names()[i].1, color_short_names()[i].0) by {
        if i == 0 { assert(color_names()[101] == (color_short_names()[i].1, color_short_names()[i].0)); }
        if i == 1 { assert(color_names()[54] == (color_short_names()[i].1, color_short_names()[i].0)); }
        if i == 2 { assert(color_names()[137] == (color_short_names()[i].1, color_short_names()[i].0)); }
        if i == 3 { assert(color_names()[86] == (color_short_names()[i].1, color_short_names()[i].0)); }
        if i == 4 { assert(color_names()[118] == (color_short_names()[i].1, color_short_names()[i].0)); }
        if i == 5 { assert(color_names()[103] == (color_short_names()[i].1, color_short_names()[i].0)); }
        if i == 6 { assert(color_names()[53] == (color_short_names()[i].1, color_short_names()[i].0)); }
        if i == 7 { assert(color_names()[128] == (color_short_names()[i].1, color_short_names()[i].0)); }
        if i == 8 { assert(color_names()[119] == (color_short_names()[i].1, color_short_names()[i].0)); }
        if i == 9 { assert(color_names()[82] == (color_short_names()[i].1, color_short_names()[i].0)); }
        if i == 10 { assert(color_names()[9] == (color_short_names()[i].1, color_short_names()[i].0)); }
        if i == 11 { assert(color_names()[145] == (color_short_names()[i].1, color_short_names()[i].0)); }
        if i == 12 { assert(color_names()[20] == (color_short_names()[i].1, color_short_names()[i].0)); }
        if i == 13 { assert(color_names()[85] == (color_short_names()[i].1, color_short_names()[i].0)); }
        if i == 14 { assert(color_names()[143] == (color_short_names()[i].1, color_short_names()[i].0)); }
        if i == 15 { assert(color_names()[7] == (color_short_names()[i].1, color_short_names()[i].0)); }
    }
}

/// The letter after `c` among `a`..`z`, `A`..`Z` (`Z` comes back to `a`).
pub open spec fn next_letter(c: char) -> char {
    if c == 'z' {
        'A'
    } else if c == 'Z' {
        'a'
    } else {
        ((c as u32) + 1) as char
    }
}

/// The name after `s` in shortlex order over `a`..`z`, `A`..`Z`: the last
/// letter steps on, and a `Z` carries into the letters before it.
pub open spec fn next_name(s: Seq<char>) -> Seq<char>
    decreases s.len(),
{
    if s.len() == 0 {
        seq!['a']
    } else if s.last() == 'Z' {
        next_name(s.drop_last()).push('a')
    } else {
        s.drop_last().push(next_letter(s.last()))
    }
}

proof fn lemma_next_letter(d: int)
    requires
        0 <= d < 51,
    ensures
        next_letter(name_letters()[d]) == name_letters()[d + 1],
        name_letters()[d] != 'Z',
{
        if d == 0 {
            assert(name_letters()[0] == 'a' && name_letters()[1] == 'b');
        } else if d == 1 {
            assert(name_letters()[1] == 'b' && name_letters()[2] == 'c');
        } else if d == 2 {
            assert(name_letters()[2] == 'c' && name_letters()[3] == 'd');
        } else if d == 3 {
            assert(name_letters()[3] == 'd' && name_letters()[4] == 'e');
        } else if d == 4 {
            assert(name_letters()[4] == 'e' && name_letters()[5] == 'f');
        } else if d == 5 {
            assert(name_letters()[5] == 'f' && name_letters()[6] == 'g');
        } else if d == 6 {
            assert(name_letters()[6] == 'g' && name_letters()[7] == 'h');
        } else if d == 7 {
            assert(name_letters()[7] == 'h' && name_letters()[8] == 'i');
        } else if d == 8 {
            assert(name_letters()[8] == 'i' && name_letters()[9] == 'j');
        } else if d == 9 {
            assert(name_letters()[9] == 'j' && name_letters()[10] == 'k');
        } else if d == 10 {
            assert(name_letters()[10] == 'k' && name_letters()[11] == 'l');
        } else if d == 11 {
            assert(name_letters()[11] == 'l' && name_letters()[12] == 'm');
        } else if d == 12 {
            assert(name_letters()[12] == 'm' && name_letters()[13] == 'n');
        } else if d == 13 {
            assert(name_letters()[13] == 'n' && name_letters()[14] == 'o');
        } else if d == 14 {
            assert(name_letters()[14] == 'o' && name_letters()[15] == 'p');
        } else if d == 15 {
            assert(name_letters()[15] == 'p' && name_letters()[16] == 'q');
        } else if d == 16 {
            assert(name_letters()[16] == 'q' && name_letters()[17] == 'r');
        } else if d == 17 {
            assert(name_letters()[17] == 'r' && name_letters()[18] == 's');
        } else if d == 18 {
            assert(name_letters()[18] == 's' && name_letters()[19] == 't');
        } else if d == 19 {
            assert(name_letters()[19] == 't' && name_letters()[20] == 'u');
        } else if d == 20 {
            assert(name_letters()[20] == 'u' && name_letters()[21] == 'v');
        } else if d == 21 {
            assert(name_letters()[21] == 'v' && name_letters()[22] == 'w');
        } else if d == 22 {
            assert(name_letters()[22] == 'w' && name_letters()[23] == 'x');
        } else if d == 23 {
            assert(name_letters()[23] == 'x' && name_letters()[24] == 'y');
        } else if d == 24 {
            assert(name_letters()[24] == 'y' && name_letters()[25] == 'z');
        } else if d == 25 {
            assert(name_letters()[25] == 'z' && name_letters()[26] == 'A');
        } else if d == 26 {
            assert(name_letters()[26] == 'A' && name_letters()[27] == 'B');
        } else if d == 27 {
            assert(name_letters()[27] == 'B' && name_letters()[28] == 'C');
        } else if d == 28 {
            assert(name_letters()[28] == 'C' && name_letters()[29] == 'D');
        } else if d == 29 {
            assert(name_letters()[29] == 'D' && name_letters()[30] == 'E');
        } else if d == 30 {
            assert(name_letters()[30] == 'E' && name_letters()[31] == 'F');
        } else if d == 31 {
            assert(name_letters()[31] == 'F' && name_letters()[32] == 'G');
        } else if d == 32 {
            assert(name_letters()[32] == 'G' && name_letters()[33] == 'H');
        } else if d == 33 {
            assert(name_letters()[33] == 'H' && name_letters()[34] == 'I');
        } else if d == 34 {
            assert(name_letters()[34] == 'I' && name_letters()[35] == 'J');
        } else if d == 35 {
            assert(name_letters()[35] == 'J' && name_letters()[36] == 'K');
        } else if d == 36 {
            assert(name_letters()[36] == 'K' && name_letters()[37] == 'L');
        } else if d == 37 {
            assert(name_letters()[37] == 'L' && name_letters()[38] == 'M');
        } else if d == 38 {
            assert(name_letters()[38] == 'M' && name_letters()[39] == 'N');
        } else if d == 39 {
            assert(name_letters()[39] == 'N' && name_letters()[40] == 'O');
        } else if d == 40 {
            assert(name_letters()[40] == 'O' && name_letters()[41] == 'P');
        } else if d == 41 {
            assert(name_letters()[41] == 'P' && name_letters()[42] == 'Q');
        } else if d == 42 {
            assert(name_letters()[42] == 'Q' && name_letters()[43] == 'R');
        } else if d == 43 {
            assert(name_letters()[43] == 'R' && name_letters()[44] == 'S');
        } else if d == 44 {
            assert(name_letters()[44] == 'S' && name_letters()[45] == 'T');
        } else if d == 45 {
            assert(name_letters()[45] == 'T' && name_letters()[46] == 'U');
        } else if d == 46 {
            assert(name_letters()[46] == 'U' && name_letters()[47] == 'V');
        } else if d == 47 {
            assert(name_letters()[47] == 'V' && name_letters()[48] == 'W');
        } else if d == 48 {
            assert(name_letters()[48] == 'W' && name_letters()[49] == 'X');
        } else if d == 49 {
            assert(name_letters()[49] == 'X' && name_letters()[50] == 'Y');
        } else if d == 50 {
            assert(name_letters()[50] == 'Y' && name_letters()[51] == 'Z');
        }
}

/// Each short name is followed by the next name in shortlex order: the names
/// given one after the other run a, b, …, Z, aa, ab, …, never repeating.
pub proof fn law_short_name_successor(n: nat)
    ensures
        short_name(n + 1) == next_name(short_name(n)),
    decreases n,
{
    if n == 0 {
        assert(short_name(0) =~= Seq::<char>::empty());
        assert(short_name(1) == short_name(0).push(name_letters()[0]));
        assert(name_letters()[0] == 'a');
        assert(short_name(1) =~= seq!['a']);
    } else {
        let p = ((n - 1) / 52) as nat;
        let d = (n - 1) % 52;
        assert(n - 1 == 52 * p + d);
        let s = short_name(n);
        assert(s == short_name(p).push(name_letters()[d]));
        assert(s.drop_last() =~= short_name(p));
        assert(s.last() == name_letters()[d]);
        if d < 51 {
            lemma_next_letter(d);
            assert(((n + 1 - 1) / 52) as nat == p && (n + 1 - 1) % 52 == d + 1);
            assert(short_name(n + 1) == short_name(p).push(name_letters()[d + 1]));
        } else {
            assert(name_letters()[51] == 'Z');
            assert(((n + 1 - 1) / 52) as nat == p + 1 && (n + 1 - 1) % 52 == 0);
            assert(name_letters()[0] == 'a');
            law_short_name_successor(p);
            assert(short_name(n + 1) == short_name(p + 1).push(name_letters()[0]));
        }
    }
}

/// The character that a three-character escape `%XY` of `url_encode`
/// stands for, or the escape itself when it is not one of them.
pub open spec fn url_unescape(t: Seq<char>) -> Seq<char> {
    if t == seq!['%', '2', '0'] {
        seq![' ']
    } else if t == seq!['%', '3', 'C'] {
        seq!['<']
    } else if t == seq!['%', '3', 'E'] {
        seq!['>']
    } else if t == seq!['%', '2', '2'] {
        seq!['"']
    } else if t == seq!['%', '2', '3'] {
        seq!['#']
    } else {
        t
    }
}

/// Percent-decoding of the escapes that `url_encode` writes, read from
/// the front.
pub open spec fn url_decoded(s: Seq<char>) -> Seq<char>
    decreases s.len(),
{
    if s.len() == 0 {
        s
    } else if s.len() >= 3 && s[0] == '%' {
        url_unescape(s.take(3)) + url_decoded(s.skip(3))
    } else {
        seq![s[0]] + url_decoded(s.skip(1))
    }
}

proof fn lemma_decode_escape(c: char, rest: Seq<char>)
    requires
        c != '%',
    ensures
        url_decoded(url_escape(c) + rest) == seq![c] + url_decoded(rest),
{
    let e = url_escape(c);
    let s = e + rest;
    if e.len() == 3 {
        assert(s.take(3) =~= e);
        assert(s.skip(3) =~= rest);
    } else {
        assert(e == seq![c]);
        assert(s[0] == c);
        assert(s.skip(1) =~= rest);
    }
}

proof fn lemma_decode_encoded(s: Seq<char>, rest: Seq<char>)
    requires
        !s.contains('%'),
    ensures
        url_decoded(url_encoded(s) + rest) == s + url_decoded(rest),
    decreases s.len(),
{
    if s.len() == 0 {
        assert(url_encoded(s) + rest =~= rest);
        assert(s + url_decoded(rest) =~= url_decoded(rest));
    } else {
        let p = s.drop_last();
        let c = s.last();
        assert(!p.contains('%')) by {
            if p.contains('%') {
                let i = choose|i: int| 0 <= i < p.len() && p[i] == '%';
                assert(s[i] == '%');
            }
        }
        assert(c != '%') by {
            if c == '%' { assert(s[s.len() - 1] == '%'); }
        }
        lemma_decode_encoded(p, url_escape(c) + rest);
        lemma_decode_escape(c, rest);
        assert(url_encoded(s) + rest =~= url_encoded(p) + (url_escape(c) + rest));
        assert(p + (seq![c] + url_decoded(rest)) =~= s + url_decoded(rest));
    }
}

/// For a text without `%`, decoding what `url_encode` writes gives the text
/// back.
pub proof fn law_url_encoded_decodes(s: Seq<char>)
    requires
        !s.contains('%'),
    ensures
        url_decoded(url_encoded(s)) == s,
{
    lemma_decode_encoded(s, Seq::empty());
    assert(url_encoded(s) + Seq::<char>::empty() =~= url_encoded(s));
    assert(s + Seq::<char>::empty() =~= s);
}

proof fn lemma_entries_push(x: Seq<NodeView>, v: NodeView)
    ensures
        tree_entries(x.push(v)) == match v {
            NodeView::Element(c) => if c.name == "style"@ {
                if trim(style_text(c.children)).len() > 0 {
                    tree_entries(x).push((entry_lookup(c.attrs, "media"@), style_text(c.children)))
                } else {
                    tree_entries(x)
                }
            } else {
                tree_entries(x) + tree_entries(c.children)
            },
            _ => tree_entries(x),
        },
{
    assert(x.push(v).drop_last() =~= x);
    assert(x.push(v).last() == v);
}

proof fn lemma_merging_leaves_one(s: Seq<NodeView>, n: NodeView, d: bool)
    requires
        n matches NodeView::Element(x) && x.name == "style"@,
    ensures
        d ==> msw_children(s, Some(n), d).1,
        tree_entries(msw_children(s, Some(n), d).0).len() <= (if !d && msw_children(s, Some(n), d).1 { 1int } else { 0int }),
    decreases s,
{
    if s.len() == 0 {
        assert(tree_entries(Seq::<NodeView>::empty()).len() == 0);
    } else {
        let p = s.drop_last();
        lemma_merging_leaves_one(p, n, d);
        let r = msw_children(p, Some(n), d);
        match s.last() {
            NodeView::Element(c) => {
                if c.name == "style"@ {
                    if !r.1 {
                        lemma_entries_push(r.0, n);
                    }
                } else {
                    lemma_merging_leaves_one(c.children, n, r.1);
                    let k = msw_children(c.children, Some(n), r.1);
                    lemma_entries_push(r.0, NodeView::Element(ElementView { name: c.name, attrs: c.attrs, children: k.0, ns: c.ns }));
                }
            },
            other => {
                lemma_entries_push(r.0, other);
            },
        }
    }
}

proof fn lemma_dropping_keeps_fewer(s: Seq<NodeView>, d: bool)
    ensures
        tree_entries(msw_children(s, None, d).0).len() <= tree_entries(s).len(),
    decreases s,
{
    if s.len() > 0 {
        let p = s.drop_last();
        lemma_dropping_keeps_fewer(p, d);
        let r = msw_children(p, None, d);
        lemma_entries_push(p, s.last());
        assert(p.push(s.last()) =~= s);
        match s.last() {
            NodeView::Element(c) => {
                if c.name == "style"@ {
                    if has_css(c.children) {
                        lemma_entries_push(r.0, s.last());
                    }
                } else {
                    lemma_dropping_keeps_fewer(c.children, r.1);
                    let k = msw_children(c.children, None, r.1);
                    lemma_entries_push(r.0, NodeView::Element(ElementView { name: c.name, attrs: c.attrs, children: k.0, ns: c.ns }));
                }
            },
            other => {
                lemma_entries_push(r.0, other);
            },
        }
    }
}

/// After the plugin, at most one `<style>` element of the whole tree holds
/// CSS.
pub proof fn law_merge_styles_one_style(e: ElementView)
    ensures
        tree_entries(ms_root(e).children).len() <= 1,
{
    match merge_target(e) {
        Some(n) => {
            lemma_merging_leaves_one(e.children, n, false);
        },
        None => {
            lemma_dropping_keeps_fewer(e.children, true);
        },
    }
}

/// A document with no gradient of a single stop comes out of the
/// one-stop-gradient pass as it went in, namespaces and all, whatever order
/// the pass walks its table in.
pub proof fn law_gradients_untouched_without_one_stop(root: ElementView, o: Seq<usize>)
    requires
        found_gradients(root).len() == 0,
    ensures
        one_stop_result(root, o) == root,
{
    assert(table_of(found_gradients(root)).len() == 0);
}

} // verus!
