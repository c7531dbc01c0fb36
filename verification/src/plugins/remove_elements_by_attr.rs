//! Removes elements by their `id` or by one of their class names.

use vstd::prelude::*;
use crate::ast::{Document, Element, ElementView, Node, NodeView, elem_view, nodes_view, node_view,
    lemma_nodes_view, lemma_nodes_view_push, entry_lookup};
use crate::plugin::{Plugin, PluginInfo, PluginResult};
use crate::strings::{contains_string, str_eq, words, split_whitespace};
use crate::value::{Value, value_get, opt_value};

verus! {

/// Which elements to remove.
#[derive(Debug)]
pub struct RemoveElementsByAttrConfig {
    /// IDs of the elements to remove.
    pub ids: Vec<String>,
    /// Class names of the elements to remove.
    pub classes: Vec<String>,
}

impl Default for RemoveElementsByAttrConfig {
    fn default() -> (r: RemoveElementsByAttrConfig)
        ensures
            r.ids@.len() == 0,
            r.classes@.len() == 0,
    {
        RemoveElementsByAttrConfig { ids: Vec::new(), classes: Vec::new() }
    }
}

/// The plugin that removes elements by attribute.
pub struct RemoveElementsByAttrPlugin;

impl Default for RemoveElementsByAttrPlugin {
    fn default() -> (r: RemoveElementsByAttrPlugin) {
        RemoveElementsByAttrPlugin
    }
}

/// The strings that a parameter names: the string itself, or the string
/// items of an array in order; nothing for other values.
pub open spec fn names_of(v: Option<Value>) -> Seq<Seq<char>> {
    match v {
        Some(Value::String(s)) => seq![s@],
        Some(Value::Array(items)) => strings_in(items@),
        _ => Seq::empty(),
    }
}

pub open spec fn strings_in(items: Seq<Value>) -> Seq<Seq<char>>
    decreases items.len(),
{
    if items.len() == 0 {
        Seq::empty()
    } else {
        match items.last() {
            Value::String(s) => strings_in(items.drop_last()).push(s@),
            _ => strings_in(items.drop_last()),
        }
    }
}

/// The parameter `key` of an object parameter.
pub open spec fn object_member(params: Option<Value>, key: Seq<char>) -> Option<Value> {
    match params {
        Some(Value::Object(m)) => value_get(Value::Object(m), key),
        _ => None,
    }
}

/// Whether an element is removed, for the given ids and class names.
pub open spec fn should_remove_spec(e: ElementView, ids: Seq<Seq<char>>, classes: Seq<Seq<char>>) -> bool {
    ||| (ids.len() > 0 && match entry_lookup(e.attrs, "id"@) {
        Some(id) => ids.contains(id),
        None => false,
    })
    ||| (classes.len() > 0 && match entry_lookup(e.attrs, "class"@) {
        Some(c) => exists|i: int| 0 <= i < classes.len() && words(c).contains(#[trigger] classes[i]),
        None => false,
    })
}

/// The element after the plugin: removed children are dropped before their
/// own children are looked at; kept children are processed.
pub open spec fn rba_elem(e: ElementView, ids: Seq<Seq<char>>, classes: Seq<Seq<char>>) -> ElementView
    decreases e,
{
    ElementView { name: e.name, attrs: e.attrs, children: rba_children(e.children, ids, classes), ns: e.ns }
}

pub open spec fn rba_children(s: Seq<NodeView>, ids: Seq<Seq<char>>, classes: Seq<Seq<char>>) -> Seq<NodeView>
    decreases s,
{
    if s.len() == 0 {
        Seq::empty()
    } else {
        let pre = rba_children(s.drop_last(), ids, classes);
        match s.last() {
            NodeView::Element(c) => {
                if should_remove_spec(c, ids, classes) {
                    pre
                } else {
                    pre.push(NodeView::Element(rba_elem(c, ids, classes)))
                }
            },
            other => pre.push(other),
        }
    }
}

/// Appends the strings that a parameter names.
fn push_names(out: &mut Vec<String>, v: Option<&Value>)
    ensures
        final(out)@.map_values(|s: String| s@) == old(out)@.map_values(|s: String| s@) + names_of(opt_value(v)),
{
    match v {
        Some(Value::String(s)) => {
            out.push(s.clone());
            assert(out@.map_values(|s: String| s@) =~= old(out)@.map_values(|s: String| s@) + seq![s@]);
        },
        Some(Value::Array(items)) => {
            let mut i: usize = 0;
            while i < items.len()
                invariant
                    i <= items@.len(),
                    out@.map_values(|s: String| s@) == old(out)@.map_values(|s: String| s@) + strings_in(items@.take(i as int)),
                decreases items.len() - i,
            {
                assert(items@.take(i + 1).drop_last() =~= items@.take(i as int));
                if let Value::String(s) = &items[i] {
                    let ghost before = out@;
                    out.push(s.clone());
                    assert(out@.map_values(|s: String| s@) =~= before.map_values(|s: String| s@).push(s@));
                }
                i = i + 1;
            }
            assert(items@.take(items@.len() as int) =~= items@);
        },
        _ => {
            assert(out@.map_values(|s: String| s@) =~= old(out)@.map_values(|s: String| s@) + Seq::<Seq<char>>::empty());
        },
    }
}

impl RemoveElementsByAttrPlugin {
    /// A new plugin.
    pub fn new() -> (r: RemoveElementsByAttrPlugin) {
        RemoveElementsByAttrPlugin
    }

    /// The ids and class names found in the parameters: under `id` and
    /// `class`, each a string or an array of strings (other items skipped).
    pub fn parse_config(&self, params: Option<&Value>) -> (r: RemoveElementsByAttrConfig)
        ensures
            r.ids@.map_values(|s: String| s@) == names_of(object_member(opt_value(params), "id"@)),
            r.classes@.map_values(|s: String| s@) == names_of(object_member(opt_value(params), "class"@)),
    {
        let mut config = RemoveElementsByAttrConfig::default();
        assert(config.ids@.map_values(|s: String| s@) =~= Seq::<Seq<char>>::empty());
        assert(config.classes@.map_values(|s: String| s@) =~= Seq::<Seq<char>>::empty());
        if let Some(p) = params {
            if let Value::Object(_) = p {
                push_names(&mut config.ids, p.get("id"));
                push_names(&mut config.classes, p.get("class"));
                assert(Seq::<Seq<char>>::empty() + names_of(object_member(opt_value(params), "id"@)) =~= names_of(object_member(opt_value(params), "id"@)));
                assert(Seq::<Seq<char>>::empty() + names_of(object_member(opt_value(params), "class"@)) =~= names_of(object_member(opt_value(params), "class"@)));
            }
        }
        config
    }

    /// Whether an element is removed.
    pub fn should_remove_element(&self, e: &Element, config: &RemoveElementsByAttrConfig) -> (r: bool)
        ensures
            r == should_remove_spec(elem_view(*e), config.ids@.map_values(|s: String| s@),
                config.classes@.map_values(|s: String| s@)),
    {
        let ghost ids = config.ids@.map_values(|s: String| s@);
        let ghost classes = config.classes@.map_values(|s: String| s@);
        let by_id = config.ids.len() > 0 && match e.attr("id") {
            Some(id) => contains_string(&config.ids, id.as_str()),
            None => false,
        };
        if by_id {
            return true;
        }
        if config.classes.len() > 0 {
            if let Some(class_attr) = e.attr("class") {
                let list = split_whitespace(class_attr.as_str());
                let ghost ws = words(class_attr@);
                assert(list@.map_values(|s: String| s@) =~= ws);
                let mut i: usize = 0;
                while i < config.classes.len()
                    invariant
                        i <= config.classes@.len(),
                        classes == config.classes@.map_values(|s: String| s@),
                        ws == list@.map_values(|s: String| s@),
                        ws == words(class_attr@),
                        entry_lookup(crate::ast::attr_entries(e.attributes), "class"@) == Some(class_attr@),
                        classes.len() > 0,
                        forall|k: int| 0 <= k < i ==> !ws.contains(#[trigger] classes[k]),
                    decreases config.classes.len() - i,
                {
                    if contains_string(&list, config.classes[i].as_str()) {
                        assert(ws.contains(classes[i as int]));
                        return true;
                    }
                    i = i + 1;
                }
            }
        }
        false
    }

    fn process_element(&self, e: &mut Element, config: &RemoveElementsByAttrConfig)
        ensures
            elem_view(*final(e)) == rba_elem(elem_view(*old(e)), config.ids@.map_values(|s: String| s@),
                config.classes@.map_values(|s: String| s@)),
        decreases *old(e),
    {
        let ghost ids = config.ids@.map_values(|s: String| s@);
        let ghost classes = config.classes@.map_values(|s: String| s@);
        let mut old_children: Vec<Node> = Vec::new();
        std::mem::swap(&mut old_children, &mut e.children);
        let ghost orig = old_children@;
        let mut out: Vec<Node> = Vec::new();
        let n = old_children.len();
        let mut i: usize = 0;
        proof { lemma_nodes_view(orig); }
        while i < n
            invariant
                n == orig.len(), i <= n,
                old_children@ == orig.subrange(i as int, n as int),
                nodes_view(orig).len() == n,
                forall|j: int| 0 <= j < n ==> #[trigger] nodes_view(orig)[j] == node_view(orig[j]),
                nodes_view(out@) == rba_children(nodes_view(orig).take(i as int), ids, classes),
                forall|j: int| 0 <= j < n ==> decreases_to!(*old(e) => #[trigger] orig[j]),
                ids == config.ids@.map_values(|s: String| s@),
                classes == config.classes@.map_values(|s: String| s@),
            decreases n - i,
        {
            let child = old_children.remove(0);
            assert(child == orig[i as int]);
            assert(nodes_view(orig).take(i + 1).drop_last() =~= nodes_view(orig).take(i as int));
            match child {
                Node::Element(mut ce) => {
                    if !self.should_remove_element(&ce, config) {
                        self.process_element(&mut ce, config);
                        proof { lemma_nodes_view_push(out@, Node::Element(ce)); }
                        out.push(Node::Element(ce));
                    }
                },
                other => {
                    proof { lemma_nodes_view_push(out@, other); }
                    out.push(other);
                },
            }
            i = i + 1;
        }
        assert(nodes_view(orig).take(n as int) =~= nodes_view(orig));
        e.children = out;
    }
}

impl Plugin for RemoveElementsByAttrPlugin {
    fn name(&self) -> (r: &'static str)
        ensures
            r@ == "removeElementsByAttr"@,
    {
        "removeElementsByAttr"
    }

    fn description(&self) -> (r: &'static str)
        ensures
            r@ == "removes arbitrary elements by ID or className (disabled by default)"@,
    {
        "removes arbitrary elements by ID or className (disabled by default)"
    }

    fn apply(&mut self, document: &mut Document, plugin_info: &PluginInfo, params: Option<&Value>) -> (r: PluginResult<()>)
        ensures
            r is Ok,
            elem_view(final(document).root) == rba_elem(elem_view(old(document).root),
                names_of(object_member(opt_value(params), "id"@)),
                names_of(object_member(opt_value(params), "class"@))),
            final(document).prologue == old(document).prologue,
            final(document).epilogue == old(document).epilogue,
            final(document).metadata == old(document).metadata,
    {
        let config = self.parse_config(params);
        if config.ids.len() == 0 && config.classes.len() == 0 {
            proof {
                lemma_rba_identity(elem_view(document.root));
                assert(names_of(object_member(opt_value(params), "id"@)) =~= Seq::<Seq<char>>::empty());
                assert(names_of(object_member(opt_value(params), "class"@)) =~= Seq::<Seq<char>>::empty());
            }
            return Ok(());
        }
        self.process_element(&mut document.root, &config);
        Ok(())
    }
}

/// With nothing to remove, the plugin leaves an element as it is.
pub proof fn lemma_rba_identity(e: ElementView)
    ensures
        rba_elem(e, Seq::empty(), Seq::empty()) == e,
    decreases e,
{
    lemma_rba_children_identity(e.children);
}

pub proof fn lemma_rba_children_identity(s: Seq<NodeView>)
    ensures
        rba_children(s, Seq::empty(), Seq::empty()) == s,
    decreases s,
{
    if s.len() > 0 {
        lemma_rba_children_identity(s.drop_last());
        match s.last() {
            NodeView::Element(c) => { lemma_rba_identity(c); },
            _ => {},
        }
        assert(s.drop_last().push(s.last()) =~= s);
    }
}

} // verus!
