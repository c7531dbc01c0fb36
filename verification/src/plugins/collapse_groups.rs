//! Collapses useless groups: a group's attributes move onto its only child
//! where that changes nothing, and a group without attributes gives way to
//! its children.

use vstd::prelude::*;
use crate::ast::{Document, Element, ElementView, Node, NodeView, attr_entries, attr_pairs, elem_view,
    entry_insert, entry_lookup, keys_distinct, lemma_nodes_view, lemma_nodes_view_push, node_view, nodes_view, pair_views};
use crate::plugin::{Plugin, PluginError, PluginInfo, PluginResult};
use crate::strings::{contains_string, owned, str_eq, str_seq};
use crate::value::Value;

verus! {

/// The settings of the plugin: it has none.
#[derive(Debug)]
pub struct CollapseGroupsConfig {}

/// The plugin that collapses useless groups.
pub struct CollapseGroupsPlugin;

/// The names of the animation elements.
pub open spec fn animation_elems() -> Seq<Seq<char>> {
    seq!["animate"@, "animateColor"@, "animateMotion"@, "animateTransform"@, "set"@]
}

/// The presentation attributes that children inherit.
pub open spec fn inheritable_attrs() -> Seq<Seq<char>> {
    seq!["clip-rule"@, "color-interpolation-filters"@, "color-interpolation"@, "color-profile"@,
        "color-rendering"@, "color"@, "cursor"@, "direction"@, "dominant-baseline"@, "fill-opacity"@,
        "fill-rule"@, "fill"@, "font-family"@, "font-size-adjust"@, "font-size"@, "font-stretch"@,
        "font-style"@, "font-variant"@, "font-weight"@, "font"@, "glyph-orientation-horizontal"@,
        "glyph-orientation-vertical"@, "image-rendering"@, "letter-spacing"@, "marker-end"@, "marker-mid"@,
        "marker-start"@, "marker"@, "paint-order"@, "pointer-events"@, "shape-rendering"@,
        "stroke-dasharray"@, "stroke-dashoffset"@, "stroke-linecap"@, "stroke-linejoin"@,
        "stroke-miterlimit"@, "stroke-opacity"@, "stroke-width"@, "stroke"@, "text-anchor"@,
        "text-rendering"@, "transform"@, "visibility"@, "word-spacing"@, "writing-mode"@]
}

/// Whether an element or one of its descendants is an animation element
/// whose `attributeName` is `attr`.
pub open spec fn animates_elem(e: ElementView, attr: Seq<char>) -> bool
    decreases e,
{
    (animation_elems().contains(e.name) && entry_lookup(e.attrs, "attributeName"@) == Some(attr))
        || animates_children(e.children, attr)
}

pub open spec fn animates_children(s: Seq<NodeView>, attr: Seq<char>) -> bool
    decreases s,
{
    if s.len() == 0 {
        false
    } else {
        animates_children(s.drop_last(), attr) || match s.last() {
            NodeView::Element(c) => animates_elem(c, attr),
            _ => false,
        }
    }
}

/// Whether one of the attributes `a` is animated in `c` or below it.
pub open spec fn animated_any(a: Seq<(Seq<char>, Seq<char>)>, c: ElementView) -> bool {
    exists|i: int| 0 <= i < a.len() && animates_elem(c, #[trigger] a[i].0)
}

/// Whether a group's attributes `ga` may move onto its only child `c`: the
/// child has no id, the group no filter, not both have a class, and a
/// clip-path or mask on the group only goes onto a group child where
/// neither has a transform.
pub open spec fn can_move(ga: Seq<(Seq<char>, Seq<char>)>, c: ElementView) -> bool {
    &&& entry_lookup(c.attrs, "id"@) is None
    &&& entry_lookup(ga, "filter"@) is None
    &&& (entry_lookup(ga, "class"@) is None || entry_lookup(c.attrs, "class"@) is None)
    &&& ((entry_lookup(ga, "clip-path"@) is None && entry_lookup(ga, "mask"@) is None)
        || (c.name == "g"@ && entry_lookup(ga, "transform"@) is None && entry_lookup(c.attrs, "transform"@) is None))
}

/// The child's attributes after one attribute of the group has moved onto
/// them, and whether it could: a missing attribute is added, a transform
/// goes before the child's, an `inherit` value is replaced, an inheritable
/// attribute keeps the child's value, and a different value of any other
/// attribute cannot move.
pub open spec fn move_one(c: Seq<(Seq<char>, Seq<char>)>, name: Seq<char>, value: Seq<char>) -> (Seq<(Seq<char>, Seq<char>)>, bool) {
    match entry_lookup(c, name) {
        None => (entry_insert(c, name, value), true),
        Some(existing) => if name == "transform"@ {
            (entry_insert(c, name, value + seq![' '] + existing), true)
        } else if existing == "inherit"@ {
            (entry_insert(c, name, value), true)
        } else if !inheritable_attrs().contains(name) && existing != value {
            (c, false)
        } else {
            (c, true)
        },
    }
}

/// The child's attributes after the group's attributes `a` have moved onto
/// them one by one, as `move_one` says, and whether all did: the first that
/// cannot move stops the others.
pub open spec fn move_attrs(a: Seq<(Seq<char>, Seq<char>)>, c: Seq<(Seq<char>, Seq<char>)>) -> (Seq<(Seq<char>, Seq<char>)>, bool)
    decreases a.len(),
{
    if a.len() == 0 {
        (c, true)
    } else {
        let pre = move_attrs(a.drop_last(), c);
        if !pre.1 {
            pre
        } else {
            move_one(pre.0, a.last().0, a.last().1)
        }
    }
}

/// The group's attributes that stay on it after `move_attrs`: none when
/// all moved, else the first that could not move and all after it.
pub open spec fn unmoved_attrs(a: Seq<(Seq<char>, Seq<char>)>, c: Seq<(Seq<char>, Seq<char>)>) -> Seq<(Seq<char>, Seq<char>)>
    decreases a.len(),
{
    if a.len() == 0 {
        Seq::empty()
    } else {
        let pre = move_attrs(a.drop_last(), c);
        if !pre.1 {
            unmoved_attrs(a.drop_last(), c).push(a.last())
        } else if move_one(pre.0, a.last().0, a.last().1).1 {
            Seq::empty()
        } else {
            seq![a.last()]
        }
    }
}

/// Whether one of the nodes is an animation element.
pub open spec fn has_animation_child(s: Seq<NodeView>) -> bool {
    exists|i: int| 0 <= i < s.len() && match #[trigger] s[i] {
        NodeView::Element(c) => animation_elems().contains(c.name),
        _ => false,
    }
}

/// A group after its attributes were tried on its only child, and whether
/// it gives way to its children.  A group right under the root or under a
/// `<switch>`, and an empty one, stays as it is.  When one attribute cannot
/// move, those before it are on the child and it and those after it stay
/// on the group, which stays.
pub open spec fn group_outcome(g: ElementView, parent: Option<Seq<char>>) -> (ElementView, bool) {
    if parent is None || parent == Some("switch"@) || g.name != "g"@ || g.children.len() == 0 {
        (g, false)
    } else if g.attrs.len() > 0 && g.children.len() == 1 && (g.children[0] matches NodeView::Element(c) && can_move(g.attrs, c)) {
        let c = g.children[0]->Element_0;
        if animated_any(g.attrs, c) {
            (g, false)
        } else {
            let moved = move_attrs(g.attrs, c.attrs);
            let g1 = ElementView {
                name: g.name,
                attrs: unmoved_attrs(g.attrs, c.attrs),
                children: seq![NodeView::Element(ElementView { name: c.name, attrs: moved.0, children: c.children, ns: c.ns })],
                ns: g.ns,
            };
            (g1, moved.1 && !has_animation_child(g1.children))
        }
    } else if g.attrs.len() == 0 {
        (g, !has_animation_child(g.children))
    } else {
        (g, false)
    }
}

/// The nodes that an element becomes, under a parent of the given name:
/// its children are collapsed first, then a group that gives way is
/// replaced by its children.
pub open spec fn collapsed_elem(e: ElementView, parent: Option<Seq<char>>) -> Seq<NodeView>
    decreases e,
{
    let e1 = ElementView { name: e.name, attrs: e.attrs, children: collapsed_children(e.children, e.name), ns: e.ns };
    if e.name == "g"@ {
        let r = group_outcome(e1, parent);
        if r.1 { r.0.children } else { seq![NodeView::Element(r.0)] }
    } else {
        seq![NodeView::Element(e1)]
    }
}

pub open spec fn collapsed_children(s: Seq<NodeView>, parent: Seq<char>) -> Seq<NodeView>
    decreases s,
{
    if s.len() == 0 {
        Seq::empty()
    } else {
        collapsed_children(s.drop_last(), parent) + match s.last() {
            NodeView::Element(c) => collapsed_elem(c, Some(parent)),
            other => seq![other],
        }
    }
}

/// An optional name as a character sequence.
pub open spec fn opt_name(p: Option<&str>) -> Option<Seq<char>> {
    match p {
        Some(s) => Some(s@),
        None => None,
    }
}

proof fn lemma_animates_prefix(s: Seq<NodeView>, k: int, attr: Seq<char>)
    requires
        0 <= k <= s.len(),
        animates_children(s.take(k), attr),
    ensures
        animates_children(s, attr),
    decreases s.len() - k,
{
    if k < s.len() {
        assert(s.take(k + 1).drop_last() =~= s.take(k));
        lemma_animates_prefix(s, k + 1, attr);
    } else {
        assert(s.take(k) =~= s);
    }
}

fn is_animation_name(n: &str) -> (r: bool)
    ensures
        r == animation_elems().contains(n@),
{
    let mut names: Vec<String> = Vec::new();
    names.push(owned("animate"));
    names.push(owned("animateColor"));
    names.push(owned("animateMotion"));
    names.push(owned("animateTransform"));
    names.push(owned("set"));
    assert(names@.map_values(|s: String| s@) =~= animation_elems());
    contains_string(&names, n)
}

fn is_inheritable(n: &str) -> (r: bool)
    ensures
        r == inheritable_attrs().contains(n@),
{
    let mut names: Vec<String> = Vec::new();
    names.push(owned("clip-rule"));
    names.push(owned("color-interpolation-filters"));
    names.push(owned("color-interpolation"));
    names.push(owned("color-profile"));
    names.push(owned("color-rendering"));
    names.push(owned("color"));
    names.push(owned("cursor"));
    names.push(owned("direction"));
    names.push(owned("dominant-baseline"));
    names.push(owned("fill-opacity"));
    names.push(owned("fill-rule"));
    names.push(owned("fill"));
    names.push(owned("font-family"));
    names.push(owned("font-size-adjust"));
    names.push(owned("font-size"));
    names.push(owned("font-stretch"));
    names.push(owned("font-style"));
    names.push(owned("font-variant"));
    names.push(owned("font-weight"));
    names.push(owned("font"));
    names.push(owned("glyph-orientation-horizontal"));
    names.push(owned("glyph-orientation-vertical"));
    names.push(owned("image-rendering"));
    names.push(owned("letter-spacing"));
    names.push(owned("marker-end"));
    names.push(owned("marker-mid"));
    names.push(owned("marker-start"));
    names.push(owned("marker"));
    names.push(owned("paint-order"));
    names.push(owned("pointer-events"));
    names.push(owned("shape-rendering"));
    names.push(owned("stroke-dasharray"));
    names.push(owned("stroke-dashoffset"));
    names.push(owned("stroke-linecap"));
    names.push(owned("stroke-linejoin"));
    names.push(owned("stroke-miterlimit"));
    names.push(owned("stroke-opacity"));
    names.push(owned("stroke-width"));
    names.push(owned("stroke"));
    names.push(owned("text-anchor"));
    names.push(owned("text-rendering"));
    names.push(owned("transform"));
    names.push(owned("visibility"));
    names.push(owned("word-spacing"));
    names.push(owned("writing-mode"));
    assert(names@.map_values(|s: String| s@) =~= inheritable_attrs());
    contains_string(&names, n)
}

impl CollapseGroupsPlugin {
    /// Whether the element or one of its descendants is an animation
    /// element whose `attributeName` is `attr_name`.
    pub fn has_animated_attr(e: &Element, attr_name: &str) -> (r: bool)
        ensures
            r == animates_elem(elem_view(*e), attr_name@),
        decreases *e,
    {
        let ghost v = elem_view(*e);
        proof { lemma_nodes_view(e.children@); }
        if is_animation_name(e.name.as_str()) {
            match e.attr("attributeName") {
                Some(a) => {
                    if str_eq(a.as_str(), attr_name) {
                        return true;
                    }
                },
                None => {},
            }
        }
        let mut i: usize = 0;
        while i < e.children.len()
            invariant
                i <= e.children@.len(), v == elem_view(*e),
                v.children.len() == e.children@.len(),
                forall|j: int| 0 <= j < e.children@.len() ==> #[trigger] v.children[j] == node_view(e.children@[j]),
                !animates_children(v.children.take(i as int), attr_name@),
            decreases e.children.len() - i,
        {
            assert(v.children.take(i + 1).drop_last() =~= v.children.take(i as int));
            if let Node::Element(c) = &e.children[i] {
                assert(decreases_to!(*e => e.children@[i as int]));
                if Self::has_animated_attr(c, attr_name) {
                    proof { lemma_animates_prefix(v.children, i + 1, attr_name@); }
                    return true;
                }
            }
            i = i + 1;
        }
        assert(v.children.take(v.children.len() as int) =~= v.children);
        false
    }

    fn any_animated(attrs: &Vec<(String, String)>, c: &Element) -> (r: bool)
        ensures
            r == animated_any(pair_views(attrs@), elem_view(*c)),
    {
        let ghost a = pair_views(attrs@);
        let mut i: usize = 0;
        while i < attrs.len()
            invariant
                i <= attrs@.len(), a == pair_views(attrs@),
                forall|k: int| 0 <= k < i ==> !animates_elem(elem_view(*c), #[trigger] a[k].0),
            decreases attrs.len() - i,
        {
            if Self::has_animated_attr(c, attrs[i].0.as_str()) {
                assert(animates_elem(elem_view(*c), a[i as int].0));
                return true;
            }
            i = i + 1;
        }
        false
    }

    /// Moves one attribute of the group onto the child; false when the
    /// child has a different value of an attribute that is not inherited.
    fn move_attr(c: &mut Element, name: String, value: String) -> (r: bool)
        ensures
            final(c).name == old(c).name,
            final(c).children == old(c).children,
            final(c).namespaces == old(c).namespaces,
            (attr_entries(final(c).attributes), r) == move_one(attr_entries(old(c).attributes), name@, value@),
    {
        let ghost a0 = attr_entries(c.attributes);
        let existing: Option<String> = match c.attr(name.as_str()) {
            Some(x) => Some(x.clone()),
            None => None,
        };
        match existing {
            None => {
                c.set_attr(name, value);
                true
            },
            Some(ex) => {
                if str_eq(name.as_str(), "transform") {
                    let ghost v0 = value@;
                    let mut nv = value;
                    nv.append(" ");
                    nv.append(ex.as_str());
                    proof {
                        reveal_strlit(" ");
                        assert(nv@ =~= v0 + seq![' '] + ex@);
                    }
                    c.set_attr(name, nv);
                    true
                } else if str_eq(ex.as_str(), "inherit") {
                    c.set_attr(name, value);
                    true
                } else if !is_inheritable(name.as_str()) && !str_eq(ex.as_str(), value.as_str()) {
                    false
                } else {
                    true
                }
            },
        }
    }

    fn has_animation_children(e: &Element) -> (r: bool)
        ensures
            r == has_animation_child(nodes_view(e.children@)),
    {
        let ghost v = nodes_view(e.children@);
        proof { lemma_nodes_view(e.children@); }
        let mut i: usize = 0;
        while i < e.children.len()
            invariant
                i <= e.children@.len(), v == nodes_view(e.children@),
                v.len() == e.children@.len(),
                forall|j: int| 0 <= j < e.children@.len() ==> #[trigger] v[j] == node_view(e.children@[j]),
                forall|j: int| 0 <= j < i ==> !match #[trigger] v[j] {
                    NodeView::Element(c) => animation_elems().contains(c.name),
                    _ => false,
                },
            decreases e.children.len() - i,
        {
            if let Node::Element(c) = &e.children[i] {
                if is_animation_name(c.name.as_str()) {
                    assert(match v[i as int] {
                        NodeView::Element(c) => animation_elems().contains(c.name),
                        _ => false,
                    });
                    return true;
                }
            }
            i = i + 1;
        }
        false
    }

    /// Whether the group's attributes may move onto its first child, which
    /// is an element.
    fn movable(g: &Element, c: &Element) -> (r: bool)
        ensures
            r == can_move(attr_entries(g.attributes), elem_view(*c)),
    {
        c.attr("id").is_none()
            && g.attr("filter").is_none()
            && (g.attr("class").is_none() || c.attr("class").is_none())
            && ((g.attr("clip-path").is_none() && g.attr("mask").is_none())
                || (str_eq(c.name.as_str(), "g") && g.attr("transform").is_none() && c.attr("transform").is_none()))
    }

    /// Moves the attributes `pairs` one by one onto `c`, as `move_attrs`
    /// says, stopping at the first that cannot move; gives the number that
    /// moved.
    fn move_all(c: &mut Element, pairs: &Vec<(String, String)>) -> (r: usize)
        ensures
            final(c).name == old(c).name,
            final(c).children == old(c).children,
            final(c).namespaces == old(c).namespaces,
            r <= pairs@.len(),
            (attr_entries(final(c).attributes), r == pairs@.len()) == move_attrs(pair_views(pairs@), attr_entries(old(c).attributes)),
            unmoved_attrs(pair_views(pairs@), attr_entries(old(c).attributes)) == pair_views(pairs@).skip(r as int),
    {
        let ghost a = pair_views(pairs@);
        let ghost c0 = attr_entries(c.attributes);
        let mut i: usize = 0;
        assert(a.take(0) =~= Seq::<(Seq<char>, Seq<char>)>::empty());
        while i < pairs.len()
            invariant
                i <= pairs@.len(), a == pair_views(pairs@),
                c.name == old(c).name, c.children == old(c).children, c.namespaces == old(c).namespaces,
                c0 == attr_entries(old(c).attributes),
                move_attrs(a.take(i as int), c0) == (attr_entries(c.attributes), true),
                unmoved_attrs(a.take(i as int), c0) == Seq::<(Seq<char>, Seq<char>)>::empty(),
            decreases pairs.len() - i,
        {
            assert(a.take(i + 1).drop_last() =~= a.take(i as int));
            assert(a.take(i + 1).last() == (pairs@[i as int].0@, pairs@[i as int].1@));
            if !Self::move_attr(c, pairs[i].0.clone(), pairs[i].1.clone()) {
                proof {
                    lemma_move_attrs_stop(a, i as int + 1, c0);
                    lemma_unmoved_stop(a, i as int + 1, c0);
                    assert(a.take(i + 1).skip(i as int) =~= seq![a[i as int]]);
                    assert(a.take(i + 1).skip(i as int) + a.skip(i + 1) =~= a.skip(i as int));
                }
                return i;
            }
            i = i + 1;
        }
        assert(a.take(a.len() as int) =~= a);
        assert(a.skip(a.len() as int) =~= Seq::<(Seq<char>, Seq<char>)>::empty());
        i
    }

    /// Tries a group's attributes on its only child and says whether the
    /// group gives way to its children, as `group_outcome` says.
    pub fn process_group(&self, element: &mut Element, parent_name: Option<&str>) -> (r: bool)
        ensures
            (elem_view(*final(element)), r) == group_outcome(elem_view(*old(element)), opt_name(parent_name)),
    {
        let ghost g = elem_view(*element);
        proof { lemma_nodes_view(element.children@); }
        match parent_name {
            None => { return false; },
            Some(p) => {
                if str_eq(p, "switch") {
                    return false;
                }
            },
        }
        if !str_eq(element.name.as_str(), "g") || element.children.len() == 0 {
            return false;
        }
        let n_attrs = crate::ast::attrs_count(&element.attributes);
        let movable = n_attrs > 0 && element.children.len() == 1 && match &element.children[0] {
            Node::Element(c) => Self::movable(element, c),
            _ => false,
        };
        if movable {
            let pairs = attr_pairs(&element.attributes);
            assert(pair_views(pairs@) =~= g.attrs);
            let mut kids: Vec<Node> = Vec::new();
            std::mem::swap(&mut kids, &mut element.children);
            let first = kids.remove(0);
            assert(kids@.len() == 0);
            match first {
                Node::Element(mut c) => {
                    let ghost cv = elem_view(c);
                    assert(g.children[0] == NodeView::Element(cv));
                    if Self::any_animated(&pairs, &c) {
                        kids.push(Node::Element(c));
                        element.children = kids;
                        assert(element.children@ =~= old(element).children@);
                        return false;
                    }
                    let no_pairs: Vec<(String, String)> = Vec::new();
                    assert(pair_views(no_pairs@) =~= Seq::<(Seq<char>, Seq<char>)>::empty());
                    element.set_attributes(no_pairs);
                    let moved = Self::move_all(&mut c, &pairs);
                    kids.push(Node::Element(c));
                    element.children = kids;
                    proof {
                        lemma_nodes_view(element.children@);
                        assert(nodes_view(element.children@) =~= seq![NodeView::Element(ElementView {
                            name: cv.name, attrs: move_attrs(g.attrs, cv.attrs).0, children: cv.children, ns: cv.ns })]);
                    }
                    if moved < pairs.len() {
                        let rest = tail_pairs(&pairs, moved);
                        assert(keys_distinct(pair_views(rest@))) by {
                            assert forall|i: int, j: int| 0 <= i < j < pair_views(rest@).len() implies
                                (#[trigger] pair_views(rest@)[i]).0 != (#[trigger] pair_views(rest@)[j]).0 by {
                                assert(pair_views(rest@)[i] == g.attrs[i + moved]);
                                assert(pair_views(rest@)[j] == g.attrs[j + moved]);
                            }
                        }
                        element.set_attributes(rest);
                        return false;
                    }
                    assert(g.attrs.skip(moved as int) =~= Seq::<(Seq<char>, Seq<char>)>::empty());
                    return !Self::has_animation_children(element);
                },
                other => {
                    assert(false);
                    return false;
                },
            }
        } else if n_attrs == 0 {
            return !Self::has_animation_children(element);
        }
        false
    }

    /// The nodes that a node becomes under a parent of the given name, as
    /// `collapsed_elem` says; other nodes stay as they are.
    pub fn process_node(&self, node: Node, parent_name: Option<&str>) -> (r: Vec<Node>)
        ensures
            nodes_view(r@) == match node_view(node) {
                NodeView::Element(e) => collapsed_elem(e, opt_name(parent_name)),
                other => seq![other],
            },
        decreases node,
    {
        match node {
            Node::Element(mut e) => {
                let ghost ev = elem_view(e);
                let mut kids: Vec<Node> = Vec::new();
                std::mem::swap(&mut kids, &mut e.children);
                let ghost orig = kids@;
                proof { lemma_nodes_view(orig); }
                let n = kids.len();
                let mut out: Vec<Node> = Vec::new();
                let mut i: usize = 0;
                assert(nodes_view(out@) =~= Seq::<NodeView>::empty());
                while i < n
                    invariant
                        n == orig.len(), i <= n,
                        kids@ == orig.subrange(i as int, n as int),
                        nodes_view(orig) == ev.children,
                        nodes_view(orig).len() == n,
                        forall|k: int| 0 <= k < n ==> #[trigger] nodes_view(orig)[k] == node_view(orig[k]),
                        nodes_view(out@) == collapsed_children(nodes_view(orig).take(i as int), ev.name),
                        e.name@ == ev.name,
                        forall|k: int| 0 <= k < n ==> decreases_to!(node => #[trigger] orig[k]),
                    decreases n - i,
                {
                    let child = kids.remove(0);
                    assert(child == orig[i as int]);
                    assert(nodes_view(orig).take(i + 1).drop_last() =~= nodes_view(orig).take(i as int));
                    let produced = self.process_node(child, Some(e.name.as_str()));
                    let ghost before = out@;
                    let mut rest = produced;
                    let ghost pv = nodes_view(rest@);
                    proof { lemma_nodes_view(rest@); lemma_nodes_view(before); }
                    let m = rest.len();
                    let mut k: usize = 0;
                    while k < m
                        invariant
                            k <= m, m == pv.len(), rest@.len() == m - k,
                            forall|x: int| 0 <= x < rest@.len() ==> #[trigger] node_view(rest@[x]) == pv[k + x],
                            nodes_view(out@) == nodes_view(before) + pv.take(k as int),
                        decreases m - k,
                    {
                        let ghost rb = rest@;
                        let x = rest.remove(0);
                        assert(node_view(x) == pv[k as int]);
                        assert forall|y: int| 0 <= y < rest@.len() implies #[trigger] node_view(rest@[y]) == pv[k + 1 + y] by {
                            assert(rest@[y] == rb[y + 1]);
                        }
                        proof { lemma_nodes_view_push(out@, x); }
                        out.push(x);
                        k = k + 1;
                        assert(nodes_view(out@) =~= nodes_view(before) + pv.take(k as int));
                    }
                    assert(pv.take(m as int) =~= pv);
                    i = i + 1;
                }
                assert(nodes_view(orig).take(n as int) =~= nodes_view(orig));
                e.children = out;
                if str_eq(e.name.as_str(), "g") && self.process_group(&mut e, parent_name) {
                    let mut taken: Vec<Node> = Vec::new();
                    std::mem::swap(&mut taken, &mut e.children);
                    taken
                } else {
                    let mut single: Vec<Node> = Vec::new();
                    single.push(Node::Element(e));
                    proof { lemma_nodes_view_push(Seq::empty(), single@[0]); }
                    assert(Seq::<Node>::empty().push(single@[0]) =~= single@);
                    single
                }
            },
            other => {
                let mut single: Vec<Node> = Vec::new();
                single.push(other);
                proof { lemma_nodes_view_push(Seq::empty(), single@[0]); }
                assert(Seq::<Node>::empty().push(single@[0]) =~= single@);
                single
            },
        }
    }
}

/// The pairs from index `k` on.
fn tail_pairs(p: &Vec<(String, String)>, k: usize) -> (r: Vec<(String, String)>)
    requires
        k <= p@.len(),
    ensures
        pair_views(r@) == pair_views(p@).skip(k as int),
{
    let mut r: Vec<(String, String)> = Vec::new();
    let mut i: usize = k;
    while i < p.len()
        invariant
            k <= i <= p@.len(),
            pair_views(r@) == pair_views(p@).subrange(k as int, i as int),
        decreases p.len() - i,
    {
        let ghost before = r@;
        r.push((p[i].0.clone(), p[i].1.clone()));
        assert(pair_views(r@) =~= pair_views(before).push((p@[i as int].0@, p@[i as int].1@)));
        assert(pair_views(p@).subrange(k as int, i + 1) =~= pair_views(p@).subrange(k as int, i as int).push(pair_views(p@)[i as int]));
        i = i + 1;
    }
    assert(pair_views(p@).subrange(k as int, p@.len() as int) =~= pair_views(p@).skip(k as int));
    r
}

proof fn lemma_unmoved_stop(a: Seq<(Seq<char>, Seq<char>)>, k: int, c: Seq<(Seq<char>, Seq<char>)>)
    requires
        0 <= k <= a.len(),
        !move_attrs(a.take(k), c).1,
    ensures
        unmoved_attrs(a, c) == unmoved_attrs(a.take(k), c) + a.skip(k),
    decreases a.len() - k,
{
    if k < a.len() {
        assert(a.take(k + 1).drop_last() =~= a.take(k));
        assert(a.take(k + 1).last() == a[k]);
        lemma_unmoved_stop(a, k + 1, c);
        assert(unmoved_attrs(a.take(k + 1), c) == unmoved_attrs(a.take(k), c).push(a[k]));
        assert(unmoved_attrs(a.take(k), c).push(a[k]) + a.skip(k + 1) =~= unmoved_attrs(a.take(k), c) + a.skip(k));
    } else {
        assert(a.take(k) =~= a);
        assert(a.skip(k) =~= Seq::<(Seq<char>, Seq<char>)>::empty());
        assert(unmoved_attrs(a, c) + a.skip(k) =~= unmoved_attrs(a, c));
    }
}

proof fn lemma_move_attrs_stop(a: Seq<(Seq<char>, Seq<char>)>, k: int, c: Seq<(Seq<char>, Seq<char>)>)
    requires
        0 <= k <= a.len(),
        !move_attrs(a.take(k), c).1,
    ensures
        move_attrs(a, c) == move_attrs(a.take(k), c),
    decreases a.len() - k,
{
    if k < a.len() {
        assert(a.take(k + 1).drop_last() =~= a.take(k));
        lemma_move_attrs_stop(a, k + 1, c);
    } else {
        assert(a.take(k) =~= a);
    }
}

/// The root after the plugin: it stays, with its children collapsed.
pub open spec fn collapsed_root(root: ElementView) -> ElementView {
    ElementView {
        name: root.name,
        attrs: root.attrs,
        children: collapsed_children(root.children, root.name),
        ns: root.ns,
    }
}

/// Whether parameters are absent or an object.
pub open spec fn object_or_none(params: Option<&Value>) -> bool {
    match params {
        None => true,
        Some(Value::Object(_)) => true,
        _ => false,
    }
}

/// The settings that the parameters give: an object (or an empty array)
/// is accepted, any other value is refused.
pub open spec fn config_accepted(params: Option<Value>) -> bool {
    match params {
        None => true,
        Some(Value::Object(_)) => true,
        Some(Value::Array(items)) => items@.len() == 0,
        _ => false,
    }
}

impl CollapseGroupsConfig {
    /// Reads the settings: there are none, so only the form of the
    /// parameters is checked.
    pub fn from_params(params: Option<&Value>) -> (r: PluginResult<CollapseGroupsConfig>)
        ensures
            r is Ok <==> config_accepted(crate::value::opt_value(params)),
            r matches Err(e) ==> (e matches PluginError::InvalidConfig(m)
                && m@ == "collapseGroups configuration must be an object"@),
    {
        match params {
            None => Ok(CollapseGroupsConfig {}),
            Some(Value::Object(_)) => Ok(CollapseGroupsConfig {}),
            Some(Value::Array(items)) => {
                if items.len() == 0 {
                    Ok(CollapseGroupsConfig {})
                } else {
                    Err(PluginError::InvalidConfig(owned("collapseGroups configuration must be an object")))
                }
            },
            Some(_) => Err(PluginError::InvalidConfig(owned("collapseGroups configuration must be an object"))),
        }
    }
}

impl Plugin for CollapseGroupsPlugin {
    fn name(&self) -> (r: &'static str)
        ensures
            r@ == "collapseGroups"@,
    {
        "collapseGroups"
    }

    fn description(&self) -> (r: &'static str)
        ensures
            r@ == "collapses useless groups"@,
    {
        "collapses useless groups"
    }

    fn apply(&mut self, document: &mut Document, plugin_info: &PluginInfo, params: Option<&Value>) -> (r: PluginResult<()>)
        ensures
            r is Ok <==> config_accepted(crate::value::opt_value(params)),
            r is Ok ==> elem_view(final(document).root) == collapsed_root(elem_view(old(document).root)),
            r is Err ==> elem_view(final(document).root) == elem_view(old(document).root),
            r matches Err(e) ==> (e matches PluginError::InvalidConfig(m)
                && m@ == "collapseGroups configuration must be an object"@),
            final(document).prologue == old(document).prologue,
            final(document).epilogue == old(document).epilogue,
            final(document).metadata == old(document).metadata,
    {
        let config = CollapseGroupsConfig::from_params(params);
        if let Err(e) = config {
            return Err(e);
        }
        let ghost rv = elem_view(document.root);
        let mut root = Element::new("svg");
        std::mem::swap(&mut root, &mut document.root);
        let node = Node::Element(root);
        assert(node_view(node) == NodeView::Element(rv));
        assert(opt_name(None) == None::<Seq<char>>);
        let mut processed = self.process_node(node, None);
        proof {
            lemma_nodes_view(processed@);
            assert(collapsed_elem(rv, None) =~= seq![NodeView::Element(collapsed_root(rv))]);
        }
        assert(nodes_view(processed@) == collapsed_elem(rv, None));
        assert(processed@.len() == 1);
        assert(nodes_view(processed@)[0] == node_view(processed@[0]));
        assert(collapsed_elem(rv, None)[0] == NodeView::Element(collapsed_root(rv)));
        assert(node_view(processed@[0]) == NodeView::Element(collapsed_root(rv)));
        match processed.remove(0) {
            Node::Element(new_root) => {
                document.root = new_root;
            },
            _ => {
                assert(false);
            },
        }
        assert(elem_view(document.root) == collapsed_root(rv));
        Ok(())
    }

    fn validate_params(&self, params: Option<&Value>) -> (r: PluginResult<()>)
        ensures
            r is Ok <==> object_or_none(params),
            r matches Err(e) ==> (e matches PluginError::InvalidConfig(m)
                && m@ == "Configuration must be an object or null"@),
    {
        match params {
            None => Ok(()),
            Some(Value::Object(_)) => Ok(()),
            Some(_) => Err(PluginError::InvalidConfig(owned("Configuration must be an object or null"))),
        }
    }
}

} // verus!
