//! Removes DOCTYPE declarations.

use vstd::prelude::*;
use crate::ast::{Document, Node, NodeView, nodes_view, node_view, lemma_nodes_view, lemma_nodes_view_push, elem_view};
use crate::plugin::{Plugin, PluginInfo, PluginResult};
use crate::value::Value;

verus! {

/// The plugin that removes DOCTYPE declarations.
pub struct RemoveDoctypePlugin;

/// The nodes without DOCTYPE declarations, in order.
pub open spec fn without_doctype(s: Seq<NodeView>) -> Seq<NodeView>
    decreases s.len(),
{
    if s.len() == 0 {
        s
    } else if s.last() is DocType {
        without_doctype(s.drop_last())
    } else {
        without_doctype(s.drop_last()).push(s.last())
    }
}

/// Keeps the nodes that are not DOCTYPE declarations.
pub fn retain_non_doctype(v: &mut Vec<Node>)
    ensures
        nodes_view(final(v)@) == without_doctype(nodes_view(old(v)@)),
{
    let mut old_v: Vec<Node> = Vec::new();
    std::mem::swap(&mut old_v, v);
    let ghost orig = old_v@;
    let n = old_v.len();
    let mut i: usize = 0;
    proof { lemma_nodes_view(orig); }
    while i < n
        invariant
            n == orig.len(), i <= n,
            old_v@ == orig.subrange(i as int, n as int),
            nodes_view(orig).len() == n,
            forall|j: int| 0 <= j < n ==> #[trigger] nodes_view(orig)[j] == node_view(orig[j]),
            nodes_view(v@) == without_doctype(nodes_view(orig).take(i as int)),
        decreases n - i,
    {
        let child = old_v.remove(0);
        assert(child == orig[i as int]);
        assert(nodes_view(orig).take(i + 1).drop_last() =~= nodes_view(orig).take(i as int));
        if !child.is_doctype() {
            proof { lemma_nodes_view_push(v@, child); }
            v.push(child);
        }
        i = i + 1;
    }
    assert(nodes_view(orig).take(n as int) =~= nodes_view(orig));
}

impl Plugin for RemoveDoctypePlugin {
    fn name(&self) -> (r: &'static str)
        ensures
            r@ == "removeDoctype"@,
    {
        "removeDoctype"
    }

    fn description(&self) -> (r: &'static str)
        ensures
            r@ == "Remove DOCTYPE declaration"@,
    {
        "Remove DOCTYPE declaration"
    }

    fn apply(&mut self, document: &mut Document, plugin_info: &PluginInfo, params: Option<&Value>) -> (r: PluginResult<()>)
        ensures
            r is Ok,
            nodes_view(final(document).prologue@) == without_doctype(nodes_view(old(document).prologue@)),
            nodes_view(final(document).epilogue@) == without_doctype(nodes_view(old(document).epilogue@)),
            final(document).root == old(document).root,
            final(document).metadata == old(document).metadata,
    {
        retain_non_doctype(&mut document.prologue);
        retain_non_doctype(&mut document.epilogue);
        Ok(())
    }
}

} // verus!
