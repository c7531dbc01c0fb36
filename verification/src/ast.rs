//! The document model: elements, nodes and documents, together with their
//! mathematical views that the contracts of the library speak of.

use vstd::prelude::*;
use indexmap::IndexMap;
use std::collections::HashMap;
use crate::strings::{owned, str_eq, trim, trim_str};

verus! {

/// `indexmap::IndexMap` is the ordered attribute table of an element.
#[verifier::external_type_specification]
#[verifier::external_body]
#[verifier::reject_recursive_types(K)]
#[verifier::reject_recursive_types(V)]
#[verifier::reject_recursive_types(S)]
pub struct ExIndexMap<K, V, S>(IndexMap<K, V, S>);

/// The entries of an attribute table, in their order, each as a pair of
/// name and value.
pub uninterp spec fn attr_entries(m: IndexMap<String, String>) -> Seq<(Seq<char>, Seq<char>)>;

/// Index of the first entry whose name is `k`, or `-1` when none has it.
pub open spec fn entry_index(e: Seq<(Seq<char>, Seq<char>)>, k: Seq<char>) -> int
    decreases e.len(),
{
    if e.len() == 0 {
        -1
    } else if e[0].0 == k {
        0
    } else {
        let r = entry_index(e.subrange(1, e.len() as int), k);
        if r < 0 { -1 } else { r + 1 }
    }
}

/// The value stored under the name `k`.
pub open spec fn entry_lookup(e: Seq<(Seq<char>, Seq<char>)>, k: Seq<char>) -> Option<Seq<char>> {
    let i = entry_index(e, k);
    if i < 0 { None } else { Some(e[i].1) }
}

/// The entries after storing `v` under `k`: an existing entry keeps its place
/// and takes the new value, a new one goes last.
pub open spec fn entry_insert(e: Seq<(Seq<char>, Seq<char>)>, k: Seq<char>, v: Seq<char>) -> Seq<(Seq<char>, Seq<char>)> {
    let i = entry_index(e, k);
    if i < 0 { e.push((k, v)) } else { e.update(i, (k, v)) }
}

/// The entries after taking out the one stored under `k`, the others keeping
/// their order.
pub open spec fn entry_remove(e: Seq<(Seq<char>, Seq<char>)>, k: Seq<char>) -> Seq<(Seq<char>, Seq<char>)> {
    let i = entry_index(e, k);
    if i < 0 { e } else { e.remove(i) }
}

pub proof fn lemma_entry_index(e: Seq<(Seq<char>, Seq<char>)>, k: Seq<char>)
    ensures
        -1 <= entry_index(e, k) < e.len(),
        entry_index(e, k) >= 0 ==> e[entry_index(e, k)].0 == k,
        entry_index(e, k) >= 0 ==> forall|j: int| 0 <= j < entry_index(e, k) ==> e[j].0 != k,
        entry_index(e, k) < 0 <==> forall|j: int| 0 <= j < e.len() ==> e[j].0 != k,
    decreases e.len(),
{
    if e.len() > 0 {
        let t = e.subrange(1, e.len() as int);
        lemma_entry_index(t, k);
        if e[0].0 != k {
            assert forall|j: int| 1 <= j < e.len() implies e[j].0 == t[j - 1].0 by {}
            if entry_index(t, k) < 0 {
                assert forall|j: int| 0 <= j < e.len() implies e[j].0 != k by {
                    if j > 0 { assert(e[j] == t[j - 1]); }
                }
            }
        }
    }
}

/// After storing `v` under `k`, the value under `k` is `v`.
pub proof fn lemma_entry_insert_lookup(e: Seq<(Seq<char>, Seq<char>)>, k: Seq<char>, v: Seq<char>)
    ensures
        entry_lookup(entry_insert(e, k, v), k) == Some(v),
{
    lemma_entry_index(e, k);
    let f = entry_insert(e, k, v);
    lemma_entry_index(f, k);
    let i = entry_index(e, k);
    let j = entry_index(f, k);
    if i < 0 {
        assert(f[e.len() as int].0 == k);
        assert(j >= 0) by {
            if j < 0 { assert(f[e.len() as int].0 != k); }
        }
        if j < e.len() { assert(f[j] == e[j]); }
    } else {
        assert(f[i].0 == k);
        assert(j >= 0) by {
            if j < 0 { assert(f[i].0 != k); }
        }
        if j < i { assert(f[j] == e[j]); }
        if j > i { assert(f[i].0 != k); }
    }
}

/// No namespace declarations.
pub open spec fn no_namespaces() -> Map<Seq<char>, Seq<char>> {
    Map::empty()
}

/// The namespace declarations that a table holds: each prefix with its URI.
pub uninterp spec fn ns_entries(m: HashMap<String, String>) -> Map<Seq<char>, Seq<char>>;

/// `HashMap::new`: a table with no declarations.
#[verifier::external_body]
fn ns_new() -> (m: HashMap<String, String>)
    ensures
        ns_entries(m) == no_namespaces(),
{
    HashMap::new()
}

/// `HashMap::insert`: afterwards `k` is bound to `v`; the other entries stay.
#[verifier::external_body]
pub(crate) fn ns_insert(m: &mut HashMap<String, String>, k: String, v: String)
    ensures
        ns_entries(*final(m)) == ns_entries(*old(m)).insert(k@, v@),
{
    m.insert(k, v);
}

/// `HashMap::remove`: afterwards `k` is bound to nothing; the other entries
/// stay.
#[verifier::external_body]
pub(crate) fn ns_remove(m: &mut HashMap<String, String>, k: &str)
    ensures
        ns_entries(*final(m)) == ns_entries(*old(m)).remove(k@),
{
    m.remove(k);
}

#[verifier::external_body]
fn attrs_new() -> (m: IndexMap<String, String>)
    ensures
        attr_entries(m) == Seq::<(Seq<char>, Seq<char>)>::empty(),
{
    IndexMap::new()
}

#[verifier::external_body]
fn attrs_get<'a>(m: &'a IndexMap<String, String>, k: &str) -> (r: Option<&'a String>)
    ensures
        match r {
            Some(v) => entry_lookup(attr_entries(*m), k@) == Some(v@),
            None => entry_lookup(attr_entries(*m), k@) is None,
        },
{
    m.get(k)
}

#[verifier::external_body]
fn attrs_contains_key(m: &IndexMap<String, String>, k: &str) -> (r: bool)
    ensures
        r == (entry_index(attr_entries(*m), k@) >= 0),
{
    m.contains_key(k)
}

#[verifier::external_body]
fn attrs_insert(m: &mut IndexMap<String, String>, k: String, v: String) -> (r: Option<String>)
    ensures
        attr_entries(*final(m)) == entry_insert(attr_entries(*old(m)), k@, v@),
        match r {
            Some(o) => entry_lookup(attr_entries(*old(m)), k@) == Some(o@),
            None => entry_lookup(attr_entries(*old(m)), k@) is None,
        },
{
    m.insert(k, v)
}

#[verifier::external_body]
fn attrs_shift_remove(m: &mut IndexMap<String, String>, k: &str) -> (r: Option<String>)
    ensures
        attr_entries(*final(m)) == entry_remove(attr_entries(*old(m)), k@),
        match r {
            Some(o) => entry_lookup(attr_entries(*old(m)), k@) == Some(o@),
            None => entry_lookup(attr_entries(*old(m)), k@) is None,
        },
{
    m.shift_remove(k)
}

#[verifier::external_body]
fn attrs_len(m: &IndexMap<String, String>) -> (r: usize)
    ensures
        r == attr_entries(*m).len(),
{
    m.len()
}

/// The number of attributes in a table.
pub fn attrs_count(m: &IndexMap<String, String>) -> (r: usize)
    ensures
        r == attr_entries(*m).len(),
{
    attrs_len(m)
}

/// The entries of a table, in order; a table never holds two entries of one
/// name.
#[verifier::external_body]
fn attrs_pairs(m: &IndexMap<String, String>) -> (r: Vec<(String, String)>)
    ensures
        r@.len() == attr_entries(*m).len(),
        forall|i: int| 0 <= i < r@.len() ==> (#[trigger] r@[i]).0@ == attr_entries(*m)[i].0
            && r@[i].1@ == attr_entries(*m)[i].1,
        forall|i: int, j: int| 0 <= i < j < r@.len() ==> (#[trigger] r@[i]).0@ != (#[trigger] r@[j]).0@,
{
    m.iter().map(|(k, v)| (k.clone(), v.clone())).collect()
}

/// A complete SVG document.
#[derive(Debug)]
pub struct Document {
    /// Nodes that come before the root element.
    pub prologue: Vec<Node>,
    /// The root element.
    pub root: Element,
    /// Nodes that come after the root element.
    pub epilogue: Vec<Node>,
    /// Document-level metadata.
    pub metadata: DocumentMetadata,
}

/// Document metadata.
#[derive(Debug)]
pub struct DocumentMetadata {
    /// Original file path (if any).
    pub path: Option<String>,
    /// Document encoding.
    pub encoding: Option<String>,
    /// XML version.
    pub version: Option<String>,
}

/// An XML/SVG element.
#[derive(Debug)]
pub struct Element {
    /// Tag name.
    pub name: String,
    /// Attributes, in document order.
    pub attributes: IndexMap<String, String>,
    /// Child nodes.
    pub children: Vec<Node>,
    /// Namespace declarations.
    pub namespaces: HashMap<String, String>,
}

/// A node of the tree.
#[derive(Debug)]
pub enum Node {
    Element(Element),
    Text(String),
    Comment(String),
    ProcessingInstruction { target: String, data: String },
    CData(String),
    DocType(String),
}

/// The mathematical value of an element.
pub struct ElementView {
    pub name: Seq<char>,
    pub attrs: Seq<(Seq<char>, Seq<char>)>,
    pub children: Seq<NodeView>,
    /// The namespaces the element declares, each prefix (`""` for the
    /// default one) with its URI.
    pub ns: Map<Seq<char>, Seq<char>>,
}

/// The mathematical value of a node.
pub enum NodeView {
    Element(ElementView),
    Text(Seq<char>),
    Comment(Seq<char>),
    ProcessingInstruction { target: Seq<char>, data: Seq<char> },
    CData(Seq<char>),
    DocType(Seq<char>),
}

pub open spec fn node_view(n: Node) -> NodeView
    decreases n,
{
    match n {
        Node::Element(e) => NodeView::Element(elem_view(e)),
        Node::Text(t) => NodeView::Text(t@),
        Node::Comment(t) => NodeView::Comment(t@),
        Node::ProcessingInstruction { target, data } => NodeView::ProcessingInstruction {
            target: target@,
            data: data@,
        },
        Node::CData(t) => NodeView::CData(t@),
        Node::DocType(t) => NodeView::DocType(t@),
    }
}

pub open spec fn elem_view(e: Element) -> ElementView
    decreases e,
{
    ElementView {
        name: e.name@,
        attrs: attr_entries(e.attributes),
        children: nodes_view(e.children@),
        ns: ns_entries(e.namespaces),
    }
}

pub open spec fn nodes_view(s: Seq<Node>) -> Seq<NodeView>
    decreases s,
{
    if s.len() == 0 {
        Seq::empty()
    } else {
        nodes_view(s.drop_last()).push(node_view(s.last()))
    }
}


/// Whether no two entries have the same name.
pub open spec fn keys_distinct(e: Seq<(Seq<char>, Seq<char>)>) -> bool {
    forall|i: int, j: int| 0 <= i < j < e.len() ==> (#[trigger] e[i]).0 != (#[trigger] e[j]).0
}

/// The entries of an attribute table as owned pairs, in order.
pub fn attr_pairs(m: &IndexMap<String, String>) -> (r: Vec<(String, String)>)
    ensures
        r@.len() == attr_entries(*m).len(),
        forall|i: int| 0 <= i < r@.len() ==> (#[trigger] r@[i]).0@ == attr_entries(*m)[i].0
            && r@[i].1@ == attr_entries(*m)[i].1,
        keys_distinct(attr_entries(*m)),
{
    let r = attrs_pairs(m);
    assert forall|i: int, j: int| 0 <= i < j < attr_entries(*m).len() implies
        (#[trigger] attr_entries(*m)[i]).0 != (#[trigger] attr_entries(*m)[j]).0 by {
        assert(r@[i].0@ != r@[j].0@);
    }
    r
}

/// The pairs as character sequences.
pub open spec fn pair_views(p: Seq<(String, String)>) -> Seq<(Seq<char>, Seq<char>)> {
    p.map_values(|x: (String, String)| (x.0@, x.1@))
}

impl Element {
    /// Replaces the attribute table by the given pairs, in their order; no
    /// two of them may have the same name.
    pub fn set_attributes(&mut self, pairs: Vec<(String, String)>)
        requires
            keys_distinct(pair_views(pairs@)),
        ensures
            attr_entries(final(self).attributes) == pair_views(pairs@),
            final(self).name == old(self).name,
            final(self).children == old(self).children,
            final(self).namespaces == old(self).namespaces,
    {
        let ghost pv = pair_views(pairs@);
        let ghost orig = pairs@;
        let mut table = attrs_new();
        let mut rest = pairs;
        let n = rest.len();
        let mut i: usize = 0;
        assert(orig.skip(0) =~= orig);
        while i < n
            invariant
                i <= n, n == pv.len(), n == orig.len(),
                pv == pair_views(orig),
                keys_distinct(pv),
                rest@ == orig.skip(i as int),
                attr_entries(table) == pv.take(i as int),
            decreases n - i,
        {
            assert(rest@[0] == orig[i as int]);
            let (k, v) = rest.remove(0);
            assert(rest@ =~= orig.skip(i + 1));
            assert(pv[i as int] == (k@, v@));
            proof {
                lemma_entry_index(pv.take(i as int), k@);
                if entry_index(pv.take(i as int), k@) >= 0 {
                    let j = entry_index(pv.take(i as int), k@);
                    assert(pv[j].0 != pv[i as int].0);
                }
            }
            attrs_insert(&mut table, k, v);
            i = i + 1;
            assert(attr_entries(table) =~= pv.take(i as int));
        }
        assert(pv.take(n as int) =~= pv);
        self.attributes = table;
    }
}

/// The entries without those whose names are in `names`.
pub open spec fn entries_without(e: Seq<(Seq<char>, Seq<char>)>, names: Seq<Seq<char>>) -> Seq<(Seq<char>, Seq<char>)>
    decreases e.len(),
{
    if e.len() == 0 {
        e
    } else if names.contains(e.last().0) {
        entries_without(e.drop_last(), names)
    } else {
        entries_without(e.drop_last(), names).push(e.last())
    }
}

/// Every name kept by `entries_without` is a name of the original entries.
pub proof fn lemma_entries_without(e: Seq<(Seq<char>, Seq<char>)>, names: Seq<Seq<char>>)
    ensures
        forall|j: int| 0 <= j < entries_without(e, names).len() ==>
            exists|k: int| 0 <= k < e.len() && e[k] == #[trigger] entries_without(e, names)[j],
        entries_without(e, names).len() <= e.len(),
    decreases e.len(),
{
    if e.len() > 0 {
        lemma_entries_without(e.drop_last(), names);
        let w = entries_without(e.drop_last(), names);
        assert forall|j: int| 0 <= j < entries_without(e, names).len() implies
            exists|k: int| 0 <= k < e.len() && e[k] == #[trigger] entries_without(e, names)[j] by {
            if j < w.len() {
                let k = choose|k: int| 0 <= k < e.drop_last().len() && e.drop_last()[k] == w[j];
                assert(e[k] == w[j]);
            } else {
                assert(e[e.len() - 1] == e.last());
            }
        }
    }
}

impl Element {
    /// Takes out every attribute whose name is in `names`; the others keep
    /// their order.
    pub fn remove_attrs_named(&mut self, names: &Vec<String>)
        ensures
            attr_entries(final(self).attributes) == entries_without(attr_entries(old(self).attributes),
                names@.map_values(|n: String| n@)),
            final(self).name == old(self).name,
            final(self).children == old(self).children,
            final(self).namespaces == old(self).namespaces,
    {
        let ghost nv = names@.map_values(|n: String| n@);
        let pairs = attr_pairs(&self.attributes);
        let ghost orig = attr_entries(self.attributes);
        let mut table = attrs_new();
        let mut i: usize = 0;
        while i < pairs.len()
            invariant
                i <= pairs@.len(), pairs@.len() == orig.len(),
                forall|k: int| 0 <= k < pairs@.len() ==> (#[trigger] pairs@[k]).0@ == orig[k].0 && pairs@[k].1@ == orig[k].1,
                keys_distinct(orig),
                nv == names@.map_values(|n: String| n@),
                attr_entries(table) == entries_without(orig.take(i as int), nv),
            decreases pairs.len() - i,
        {
            assert(orig.take(i + 1).drop_last() =~= orig.take(i as int));
            let mut found = false;
            let mut j: usize = 0;
            while j < names.len()
                invariant
                    j <= names@.len(), i < pairs@.len(),
                    nv == names@.map_values(|n: String| n@),
                    found == exists|m: int| 0 <= m < j && nv[m] == pairs@[i as int].0@,
                decreases names.len() - j,
            {
                assert(nv[j as int] == names@[j as int]@);
                if str_eq(names[j].as_str(), pairs[i].0.as_str()) {
                    found = true;
                }
                j = j + 1;
            }
            assert(found == nv.contains(orig[i as int].0));
            if !found {
                proof {
                    lemma_entries_without(orig.take(i as int), nv);
                    lemma_entry_index(attr_entries(table), orig[i as int].0);
                    if entry_index(attr_entries(table), orig[i as int].0) >= 0 {
                        let w = entries_without(orig.take(i as int), nv);
                        let x = entry_index(attr_entries(table), orig[i as int].0);
                        let k = choose|k: int| 0 <= k < orig.take(i as int).len() && orig.take(i as int)[k] == #[trigger] w[x];
                        assert(orig[k].0 != orig[i as int].0);
                    }
                }
                attrs_insert(&mut table, pairs[i].0.clone(), pairs[i].1.clone());
                assert(orig.take(i + 1).last() == orig[i as int]);
            }
            i = i + 1;
        }
        assert(orig.take(orig.len() as int) =~= orig);
        self.attributes = table;
    }
}

impl Document {
    /// A new document whose root is an empty `<svg>` element.
    pub fn new() -> (d: Document)
        ensures
            elem_view(d.root) == empty_elem_view("svg"@),
            d.prologue@.len() == 0,
            d.epilogue@.len() == 0,
            d.metadata.path is None,
            d.metadata.encoding is None,
            d.metadata.version is None,
    {
        Document {
            prologue: Vec::new(),
            root: Element::new("svg"),
            epilogue: Vec::new(),
            metadata: DocumentMetadata::default(),
        }
    }

    /// The root element.
    pub fn root(&self) -> (r: &Element)
        ensures
            *r == self.root,
    {
        &self.root
    }

    /// The root element, for change.
    pub fn root_mut(&mut self) -> (r: &mut Element)
        ensures
            *r == old(self).root,
            final(self).root == *final(r),
            final(self).prologue == old(self).prologue,
            final(self).epilogue == old(self).epilogue,
            final(self).metadata == old(self).metadata,
    {
        &mut self.root
    }
}

impl Default for Document {
    fn default() -> (d: Document)
        ensures
            elem_view(d.root) == empty_elem_view("svg"@),
            d.prologue@.len() == 0,
            d.epilogue@.len() == 0,
    {
        Document::new()
    }
}

impl Default for DocumentMetadata {
    fn default() -> (m: DocumentMetadata)
        ensures
            m.path is None,
            m.encoding is None,
            m.version is None,
    {
        DocumentMetadata { path: None, encoding: None, version: None }
    }
}

/// The view of an element with the given name, no attributes and no
/// children.
pub open spec fn empty_elem_view(name: Seq<char>) -> ElementView {
    ElementView { name, attrs: Seq::empty(), children: Seq::empty(), ns: Map::empty() }
}

/// Whether a node view is white-space text or a comment.
pub open spec fn is_blank_node(n: NodeView) -> bool {
    match n {
        NodeView::Text(t) => trim(t).len() == 0,
        NodeView::Comment(_) => true,
        _ => false,
    }
}

impl Element {
    /// A new element with the given name, no attributes and no children.
    pub fn new(name: &str) -> (e: Element)
        ensures
            elem_view(e) == empty_elem_view(name@),
    {
        let e = Element {
            name: owned(name),
            attributes: attrs_new(),
            children: Vec::new(),
            namespaces: ns_new(),
        };
        assert(nodes_view(e.children@) =~= Seq::<NodeView>::empty());
        e
    }

    /// The value of the attribute `name`.
    pub fn attr(&self, name: &str) -> (r: Option<&String>)
        ensures
            match r {
                Some(v) => entry_lookup(attr_entries(self.attributes), name@) == Some(v@),
                None => entry_lookup(attr_entries(self.attributes), name@) is None,
            },
    {
        attrs_get(&self.attributes, name)
    }

    /// Stores `value` under `name`: an existing attribute keeps its place.
    pub fn set_attr(&mut self, name: String, value: String)
        ensures
            attr_entries(final(self).attributes) == entry_insert(attr_entries(old(self).attributes), name@, value@),
            final(self).name == old(self).name,
            final(self).children == old(self).children,
            final(self).namespaces == old(self).namespaces,
    {
        attrs_insert(&mut self.attributes, name, value);
    }

    /// Takes out the attribute `name` and gives back its value.
    pub fn remove_attr(&mut self, name: &str) -> (r: Option<String>)
        ensures
            attr_entries(final(self).attributes) == entry_remove(attr_entries(old(self).attributes), name@),
            final(self).name == old(self).name,
            final(self).children == old(self).children,
            final(self).namespaces == old(self).namespaces,
            match r {
                Some(v) => entry_lookup(attr_entries(old(self).attributes), name@) == Some(v@),
                None => entry_lookup(attr_entries(old(self).attributes), name@) is None,
            },
    {
        attrs_shift_remove(&mut self.attributes, name)
    }

    /// Whether the element has an attribute of the given name.
    pub fn has_attr(&self, name: &str) -> (r: bool)
        ensures
            r == (entry_index(attr_entries(self.attributes), name@) >= 0),
    {
        attrs_contains_key(&self.attributes, name)
    }

    /// Appends a child node.
    pub fn add_child(&mut self, child: Node)
        ensures
            final(self).children@ == old(self).children@.push(child),
            final(self).name == old(self).name,
            final(self).attributes == old(self).attributes,
            final(self).namespaces == old(self).namespaces,
    {
        self.children.push(child);
    }

    /// Removes all children.
    pub fn clear_children(&mut self)
        ensures
            final(self).children@.len() == 0,
            final(self).name == old(self).name,
            final(self).attributes == old(self).attributes,
            final(self).namespaces == old(self).namespaces,
    {
        self.children.clear();
    }

    /// The child nodes that are elements, in order.
    pub fn child_elements(&self) -> (r: Vec<&Element>)
        ensures
            r@.len() == elements_of(self.children@).len(),
            forall|i: int| 0 <= i < r@.len() ==> *(#[trigger] r@[i]) == elements_of(self.children@)[i],
    {
        let mut out: Vec<&Element> = Vec::new();
        let mut i: usize = 0;
        while i < self.children.len()
            invariant
                i <= self.children@.len(),
                out@.len() == elements_of(self.children@.take(i as int)).len(),
                forall|k: int| 0 <= k < out@.len() ==> *(#[trigger] out@[k]) == elements_of(self.children@.take(i as int))[k],
            decreases self.children.len() - i,
        {
            assert(self.children@.take(i + 1).drop_last() =~= self.children@.take(i as int));
            if let Node::Element(e) = &self.children[i] {
                out.push(e);
            }
            i = i + 1;
        }
        assert(self.children@.take(self.children@.len() as int) =~= self.children@);
        out
    }

    /// Whether the element has no children.
    pub fn is_empty(&self) -> (r: bool)
        ensures
            r == (self.children@.len() == 0),
    {
        self.children.len() == 0
    }

    /// Whether every child is white-space text or a comment.
    pub fn is_whitespace_only(&self) -> (r: bool)
        ensures
            r == forall|i: int| 0 <= i < self.children@.len() ==> #[trigger] is_blank_node(node_view(self.children@[i])),
    {
        let mut i: usize = 0;
        while i < self.children.len()
            invariant
                i <= self.children@.len(),
                forall|k: int| 0 <= k < i ==> #[trigger] is_blank_node(node_view(self.children@[k])),
            decreases self.children.len() - i,
        {
            let ok = match &self.children[i] {
                Node::Text(t) => {
                    let tt = trim_str(t.as_str());
                    tt.as_str().unicode_len() == 0
                },
                Node::Comment(_) => true,
                _ => false,
            };
            assert(ok == is_blank_node(node_view(self.children@[i as int])));
            if !ok {
                return false;
            }
            i = i + 1;
        }
        true
    }
}

/// The elements among a sequence of nodes, in order.
pub open spec fn elements_of(s: Seq<Node>) -> Seq<Element>
    decreases s.len(),
{
    if s.len() == 0 {
        Seq::empty()
    } else {
        match s.last() {
            Node::Element(e) => elements_of(s.drop_last()).push(e),
            _ => elements_of(s.drop_last()),
        }
    }
}

impl Node {
    /// Whether the node is an element.
    pub fn is_element(&self) -> (r: bool)
        ensures
            r == (*self is Element),
    {
        match self {
            Node::Element(_) => true,
            _ => false,
        }
    }

    /// Whether the node is text.
    pub fn is_text(&self) -> (r: bool)
        ensures
            r == (*self is Text),
    {
        match self {
            Node::Text(_) => true,
            _ => false,
        }
    }

    /// Whether the node is a comment.
    pub fn is_comment(&self) -> (r: bool)
        ensures
            r == (*self is Comment),
    {
        match self {
            Node::Comment(_) => true,
            _ => false,
        }
    }

    /// Whether the node is a DOCTYPE declaration.
    pub fn is_doctype(&self) -> (r: bool)
        ensures
            r == (*self is DocType),
    {
        match self {
            Node::DocType(_) => true,
            _ => false,
        }
    }

    /// The element, if the node is one.
    pub fn as_element(&self) -> (r: Option<&Element>)
        ensures
            match *self {
                Node::Element(e) => r == Some(&e),
                _ => r is None,
            },
    {
        match self {
            Node::Element(e) => Some(e),
            _ => None,
        }
    }

    /// The element, for change, if the node is one.
    pub fn as_element_mut(&mut self) -> (r: Option<&mut Element>)
        ensures
            match *old(self) {
                Node::Element(e) => r is Some && *(r->0) == e && *final(self) == Node::Element(*final(r->0)),
                _ => r is None && *final(self) == *old(self),
            },
    {
        match self {
            Node::Element(e) => Some(e),
            _ => None,
        }
    }

    /// The text, if the node is text.
    pub fn as_text(&self) -> (r: Option<&String>)
        ensures
            match *self {
                Node::Text(t) => r == Some(&t),
                _ => r is None,
            },
    {
        match self {
            Node::Text(t) => Some(t),
            _ => None,
        }
    }
}

pub proof fn lemma_nodes_view(s: Seq<Node>)
    ensures
        nodes_view(s).len() == s.len(),
        forall|i: int| 0 <= i < s.len() ==> #[trigger] nodes_view(s)[i] == node_view(s[i]),
    decreases s.len(),
{
    if s.len() > 0 {
        lemma_nodes_view(s.drop_last());
    }
}

pub proof fn lemma_nodes_view_push(s: Seq<Node>, n: Node)
    ensures
        nodes_view(s.push(n)) == nodes_view(s).push(node_view(n)),
{
    assert(s.push(n).drop_last() =~= s);
}

} // verus!
