//! The style tree builder: walks the document tree depth-first, resolves
//! each element's properties against the stylesheet, and produces a parallel
//! tree of styled nodes. The document tree is read-only input; the styled
//! tree borrows its nodes and mirrors its shape exactly.

use vstd::prelude::*;
use crate::css::{Stylesheet, ValueModel};
use crate::dom::{forest_count, node_count, Node, NodeType};
use crate::resolve::{spec_resolved, specified_values, PropertyMap};

verus! {

/// A document node paired with its resolved property map and its styled
/// children, in document order.
pub struct StyledNode<'a> {
    pub node: &'a Node,
    pub specified_values: PropertyMap,
    pub children: Vec<StyledNode<'a>>,
}

/// The properties a node resolves to. A text node gets no properties, since
/// no selector can match it.
pub open spec fn spec_node_styles(n: Node, sheet: Stylesheet, prop: Seq<char>) -> Option<
    ValueModel,
> {
    match n.node_type {
        NodeType::Element(e) => spec_resolved(e, sheet, prop),
        NodeType::Text(_) => None,
    }
}

/// Whether `sn` is the styled tree of the document tree `n` under `sheet`:
/// it references that very node, carries its resolved property map, and its
/// children style the node's children in order.
pub open spec fn styled_ok<'a>(sn: StyledNode<'a>, n: Node, sheet: Stylesheet) -> bool
    decreases n,
{
    &&& *sn.node == n
    &&& forall|p: Seq<char>|
        #[trigger] sn.specified_values.spec_get(p) == spec_node_styles(n, sheet, p)
    &&& sn.children@.len() == n.children@.len()
    &&& forall|i: int|
        0 <= i < n.children@.len() ==> styled_ok(
            #[trigger] sn.children@[i],
            n.children@[i],
            sheet,
        )
}

/// Builds the styled tree for the document tree rooted at `root`.
pub fn style_tree<'a>(root: &'a Node, stylesheet: &Stylesheet) -> (r: StyledNode<'a>)
    ensures
        r.node == root,
        styled_ok(r, *root, *stylesheet),
    decreases *root,
{
    let specified = match &root.node_type {
        NodeType::Element(elem) => specified_values(elem, stylesheet),
        NodeType::Text(_) => PropertyMap::new(),
    };
    let n = root.children.len();
    let mut children: Vec<StyledNode<'a>> = Vec::new();
    let mut i: usize = 0;
    while i < n
        invariant
            n == root.children@.len(),
            i <= n,
            children@.len() == i,
            forall|k: int|
                0 <= k < i ==> styled_ok(#[trigger] children@[k], root.children@[k], *stylesheet),
        decreases n - i,
    {
        let child = style_tree(&root.children[i], stylesheet);
        children.push(child);
        i += 1;
    }
    StyledNode { node: root, specified_values: specified, children }
}

/// The number of nodes in a styled tree.
pub open spec fn styled_count<'a>(sn: StyledNode<'a>) -> nat
    decreases sn,
{
    1 + styled_forest_count(sn.children@)
}

/// The number of nodes in a sequence of styled trees.
pub open spec fn styled_forest_count<'a>(s: Seq<StyledNode<'a>>) -> nat
    decreases s,
{
    if s.len() == 0 {
        0
    } else {
        styled_count(s[0]) + styled_forest_count(s.drop_first())
    }
}

/// Building style never adds, removes, or reorders nodes: the styled tree
/// has exactly as many nodes as the document tree it styles.
pub proof fn lemma_styled_shape<'a>(sn: StyledNode<'a>, n: Node, sheet: Stylesheet)
    requires
        styled_ok(sn, n, sheet),
    ensures
        styled_count(sn) == node_count(n),
    decreases n,
{
    lemma_styled_forest_shape(sn.children@, n.children@, sheet);
}

proof fn lemma_styled_forest_shape<'a>(ss: Seq<StyledNode<'a>>, ns: Seq<Node>, sheet: Stylesheet)
    requires
        ss.len() == ns.len(),
        forall|i: int| 0 <= i < ns.len() ==> styled_ok(#[trigger] ss[i], ns[i], sheet),
    ensures
        styled_forest_count(ss) == forest_count(ns),
    decreases ns,
{
    if ns.len() > 0 {
        lemma_styled_shape(ss[0], ns[0], sheet);
        assert forall|i: int| 0 <= i < ns.drop_first().len() implies styled_ok(
            #[trigger] ss.drop_first()[i],
            ns.drop_first()[i],
            sheet,
        ) by {
            assert(ss.drop_first()[i] == ss[i + 1]);
            assert(ns.drop_first()[i] == ns[i + 1]);
        }
        lemma_styled_forest_shape(ss.drop_first(), ns.drop_first(), sheet);
    }
}

/// Whether two styled trees have the same shape and carry the same resolved
/// properties node for node.
pub open spec fn same_styles<'a, 'b>(a: StyledNode<'a>, b: StyledNode<'b>) -> bool
    decreases a,
{
    &&& forall|p: Seq<char>|
        #[trigger] a.specified_values.spec_get(p) == b.specified_values.spec_get(p)
    &&& a.children@.len() == b.children@.len()
    &&& forall|i: int|
        0 <= i < a.children@.len() ==> same_styles(#[trigger] a.children@[i], b.children@[i])
}

/// Building the styled tree twice from the same stylesheet and document
/// tree yields identical resolved property maps node for node.
pub proof fn lemma_rebuild_same<'a, 'b>(
    a: StyledNode<'a>,
    b: StyledNode<'b>,
    n: Node,
    sheet: Stylesheet,
)
    requires
        styled_ok(a, n, sheet),
        styled_ok(b, n, sheet),
    ensures
        same_styles(a, b),
    decreases n,
{
    assert forall|i: int| 0 <= i < a.children@.len() implies same_styles(
        #[trigger] a.children@[i],
        b.children@[i],
    ) by {
        lemma_rebuild_same(a.children@[i], b.children@[i], n.children@[i], sheet);
    }
}

} // verus!
