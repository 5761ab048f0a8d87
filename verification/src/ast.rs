//! The syntax-tree model: a node is a kind tag, its token text, a source
//! position, and an ordered sequence of children. The tree is owned
//! top-down; no node refers back to its parent.

use vstd::prelude::*;
use crate::error::RfmtError;

verus! {

/// The closed set of node kinds. Unrecognized constructs fall under the
/// single `OtherNode` arm, which is the extension point for future kinds.
#[derive(Clone, Copy, PartialEq, Eq, Structural, Debug)]
pub enum NodeType {
    ProgramNode,
    ClassNode,
    ModuleNode,
    DefNode,
    CallNode,
    IfNode,
    UnlessNode,
    StringNode,
    IntegerNode,
    FloatNode,
    ArrayNode,
    HashNode,
    BlockNode,
    OtherNode,
}

/// One element of the syntax tree. `text` holds the token text that the
/// node contributes to the output; `line` and `column` are diagnostic
/// metadata and never influence formatting.
#[derive(Debug)]
pub struct Node {
    pub node_type: NodeType,
    pub text: String,
    pub line: usize,
    pub column: usize,
    pub children: Vec<Node>,
}

/// The mathematical model of a node: the same shape over `Seq`.
#[verifier::ext_equal]
pub struct NodeView {
    pub kind: NodeType,
    pub text: Seq<char>,
    pub line: nat,
    pub column: nat,
    pub children: Seq<NodeView>,
}

/// The model of a node, children modelled recursively.
pub open spec fn node_view(n: Node) -> NodeView
    decreases n,
{
    NodeView {
        kind: n.node_type,
        text: n.text@,
        line: n.line as nat,
        column: n.column as nat,
        children: nodes_view(n.children@),
    }
}

/// The models of a sequence of nodes, in document order.
pub open spec fn nodes_view(s: Seq<Node>) -> Seq<NodeView>
    decreases s,
{
    if s.len() == 0 {
        Seq::empty()
    } else {
        seq![node_view(s[0])] + nodes_view(s.drop_first())
    }
}

impl Clone for Node {
    /// A deep copy with the same model.
    fn clone(&self) -> (r: Self)
        ensures
            node_view(r) == node_view(*self),
        decreases *self,
    {
        let mut children: Vec<Node> = Vec::new();
        let mut i: usize = 0;
        while i < self.children.len()
            invariant
                i <= self.children@.len(),
                children@.len() == i,
                forall|k: int|
                    0 <= k < i ==> node_view(#[trigger] children@[k]) == node_view(
                        self.children@[k],
                    ),
            decreases self.children@.len() - i,
        {
            proof {
                assert(decreases_to!(*self => self.children));
                assert(decreases_to!(self.children => self.children[i as int]));
            }
            let c = self.children[i].clone();
            children.push(c);
            i = i + 1;
        }
        let r = Node {
            node_type: self.node_type,
            text: self.text.clone(),
            line: self.line,
            column: self.column,
            children,
        };
        proof {
            lemma_nodes_view_len(r.children@);
            lemma_nodes_view_len(self.children@);
            assert(nodes_view(r.children@) =~= nodes_view(self.children@));
            assert(node_view(r) =~= node_view(*self));
        }
        r
    }
}

/// `nodes_view` maps the model over the sequence elementwise.
pub proof fn lemma_nodes_view_len(s: Seq<Node>)
    ensures
        nodes_view(s).len() == s.len(),
        forall|i: int| 0 <= i < s.len() ==> nodes_view(s)[i] == node_view(s[i]),
    decreases s.len(),
{
    if s.len() > 0 {
        lemma_nodes_view_len(s.drop_first());
    }
}

/// The height of a node: one more than its tallest child.
pub open spec fn node_height(n: NodeView) -> nat
    decreases n,
{
    1 + nodes_height(n.children)
}

/// The height of the tallest node of a sequence, zero when empty.
pub open spec fn nodes_height(cs: Seq<NodeView>) -> nat
    decreases cs,
{
    if cs.len() == 0 {
        0
    } else {
        let h = node_height(cs[0]);
        let t = nodes_height(cs.drop_first());
        if h > t {
            h
        } else {
            t
        }
    }
}

/// Every node of a sequence is at most as tall as the sequence.
pub proof fn lemma_nodes_height_bound(cs: Seq<NodeView>)
    ensures
        forall|i: int| 0 <= i < cs.len() ==> node_height(#[trigger] cs[i]) <= nodes_height(cs),
    decreases cs.len(),
{
    if cs.len() > 0 {
        lemma_nodes_height_bound(cs.drop_first());
        assert forall|i: int| 0 <= i < cs.len() implies node_height(#[trigger] cs[i])
            <= nodes_height(cs) by {
            if i > 0 {
                assert(cs[i] == cs.drop_first()[i - 1]);
            }
        }
    }
}

/// The visit order of a pre-order traversal rooted at `n`: the node
/// itself, then each child's whole visit order, in document order.
pub open spec fn preorder(n: NodeView) -> Seq<NodeView>
    decreases n,
{
    seq![n] + preorder_all(n.children)
}

/// The visit order over a sequence of siblings, in document order.
pub open spec fn preorder_all(cs: Seq<NodeView>) -> Seq<NodeView>
    decreases cs,
{
    if cs.len() == 0 {
        Seq::empty()
    } else {
        preorder(cs[0]) + preorder_all(cs.drop_first())
    }
}

/// Law (traversal order): a pre-order traversal visits the node first,
/// and then the entire subtree of each child, children in document
/// order — the first child's subtree wholly before the second's, and
/// so on.
pub proof fn lemma_traversal_order(n: NodeView)
    ensures
        preorder(n).len() >= 1,
        preorder(n)[0] == n,
        preorder(n).drop_first() == preorder_all(n.children),
        n.children.len() > 0 ==> preorder_all(n.children) == preorder(n.children[0])
            + preorder_all(n.children.drop_first()),
{
    assert(preorder(n).drop_first() =~= preorder_all(n.children));
}

/// The kinds met by a pre-order traversal, in visit order.
pub open spec fn preorder_kinds_spec(n: NodeView) -> Seq<NodeType> {
    preorder(n).map_values(|m: NodeView| m.kind)
}

/// Collects the kinds of every node in pre-order, as a traversal
/// does: the node's own kind, then each child's subtree, in document
/// order.
pub fn preorder_kinds(node: &Node) -> (r: Vec<NodeType>)
    ensures
        r@ == preorder_kinds_spec(node_view(*node)),
{
    let mut out: Vec<NodeType> = Vec::new();
    preorder_kinds_into(node, &mut out);
    proof {
        assert(Seq::<NodeType>::empty() + preorder_kinds_spec(node_view(*node)) =~= out@);
    }
    out
}

/// Appends the kinds of one subtree, in visit order.
fn preorder_kinds_into(node: &Node, out: &mut Vec<NodeType>)
    ensures
        final(out)@ == old(out)@ + preorder_kinds_spec(node_view(*node)),
    decreases *node,
{
    let ghost base = out@;
    let ghost n0 = node_view(*node);
    out.push(node.node_type);
    let ghost cs0 = node.children@;
    let ghost cvs = nodes_view(cs0);
    proof {
        lemma_nodes_view_len(cs0);
        assert(cvs == n0.children);
        assert(cvs.skip(0) =~= cvs);
        assert(out@ =~= base + seq![n0.kind]);
    }
    let mut i: usize = 0;
    while i < node.children.len()
        invariant
            i <= cs0.len(),
            cs0 == node.children@,
            cvs == nodes_view(cs0),
            n0 == node_view(*node),
            out@ + kinds_of(preorder_all(cvs.skip(i as int))) == base + seq![n0.kind]
                + kinds_of(preorder_all(cvs)),
        decreases cs0.len() - i,
    {
        let c = &node.children[i];
        proof {
            lemma_nodes_view_len(cs0);
            assert(node_view(*c) == cvs[i as int]);
            assert(cvs.skip(i as int)[0] == cvs[i as int]);
            assert(cvs.skip(i as int).drop_first() =~= cvs.skip(i + 1));
            assert(decreases_to!(*node => node.children));
            assert(decreases_to!(node.children => node.children[i as int]));
            lemma_kinds_of_add(preorder(cvs[i as int]), preorder_all(cvs.skip(i + 1)));
        }
        let ghost before = out@;
        preorder_kinds_into(c, out);
        proof {
            assert(out@ == before + preorder_kinds_spec(cvs[i as int]));
            assert((before + kinds_of(preorder(cvs[i as int]))) + kinds_of(
                preorder_all(cvs.skip(i + 1)),
            ) =~= before + (kinds_of(preorder(cvs[i as int])) + kinds_of(
                preorder_all(cvs.skip(i + 1)),
            )));
        }
        i = i + 1;
    }
    proof {
        assert(cvs.skip(cs0.len() as int) =~= Seq::<NodeView>::empty());
        assert(kinds_of(preorder_all(cvs.skip(cs0.len() as int))) =~= Seq::<NodeType>::empty());
        assert(out@ + Seq::<NodeType>::empty() =~= out@);
        lemma_kinds_of_add(seq![n0], preorder_all(cvs));
        assert(seq![n0] + preorder_all(cvs) =~= preorder(n0));
        assert(kinds_of(seq![n0]) =~= seq![n0.kind]);
        assert((base + seq![n0.kind]) + kinds_of(preorder_all(cvs)) =~= base + (seq![n0.kind]
            + kinds_of(preorder_all(cvs))));
    }
}

/// The kinds of a visit order.
pub open spec fn kinds_of(s: Seq<NodeView>) -> Seq<NodeType> {
    s.map_values(|m: NodeView| m.kind)
}

/// Mapping to kinds distributes over concatenation.
proof fn lemma_kinds_of_add(a: Seq<NodeView>, b: Seq<NodeView>)
    ensures
        kinds_of(a + b) == kinds_of(a) + kinds_of(b),
{
    assert(kinds_of(a + b) =~= kinds_of(a) + kinds_of(b));
}

/// A sequence of nodes each no taller than `b` is no taller than `b`.
pub proof fn lemma_nodes_height_le(cs: Seq<NodeView>, b: nat)
    requires
        forall|i: int| 0 <= i < cs.len() ==> node_height(#[trigger] cs[i]) <= b,
    ensures
        nodes_height(cs) <= b,
    decreases cs.len(),
{
    if cs.len() > 0 {
        assert forall|i: int| 0 <= i < cs.drop_first().len() implies node_height(
            #[trigger] cs.drop_first()[i],
        ) <= b by {
            assert(cs.drop_first()[i] == cs[i + 1]);
        }
        lemma_nodes_height_le(cs.drop_first(), b);
    }
}

/// Dispatches the read-only hook for `node`'s kind, with the `other`
/// hook as the fallback for the unrecognized arm.
fn dispatch<V: Visitor + ?Sized>(v: &mut V, node: &Node) -> Result<(), RfmtError> {
    match node.node_type {
        NodeType::ProgramNode => v.visit_program(node),
        NodeType::ClassNode => v.visit_class(node),
        NodeType::ModuleNode => v.visit_module(node),
        NodeType::DefNode => v.visit_method(node),
        NodeType::CallNode => v.visit_call(node),
        NodeType::IfNode => v.visit_if(node),
        NodeType::UnlessNode => v.visit_unless(node),
        NodeType::StringNode => v.visit_string(node),
        NodeType::IntegerNode => v.visit_integer(node),
        NodeType::FloatNode => v.visit_float(node),
        NodeType::ArrayNode => v.visit_array(node),
        NodeType::HashNode => v.visit_hash(node),
        NodeType::BlockNode => v.visit_block(node),
        NodeType::OtherNode => v.visit_other(node),
    }
}

/// Pre-order, document-order, fail-fast read-only traversal: the
/// node's own hook first, then each child's whole subtree in order.
pub fn walk<V: Visitor + ?Sized>(v: &mut V, node: &Node) -> Result<(), RfmtError>
    decreases *node,
{
    match dispatch(v, node) {
        Ok(_) => {},
        Err(e) => {
            return Err(e);
        },
    }
    let mut i: usize = 0;
    while i < node.children.len()
        decreases node.children@.len() - i,
    {
        proof {
            assert(decreases_to!(*node => node.children));
            assert(decreases_to!(node.children => node.children[i as int]));
        }
        match walk(v, &node.children[i]) {
            Ok(_) => {},
            Err(e) => {
                return Err(e);
            },
        }
        i = i + 1;
    }
    Ok(())
}

/// Read-only traversal: visits a node, invokes the hook registered for
/// its kind — unrecognized kinds fall back to the `other` hook — then
/// visits each child in document order. Every hook returns an outcome;
/// the first failure aborts the whole traversal and is propagated
/// unchanged. Default hooks are no-ops, so an implementation overrides
/// only the kinds it cares about.
pub trait Visitor {
    /// Visits `node`, then its children, pre-order, fail-fast: an
    /// implementation delegates to `walk`.
    fn visit_node(&mut self, node: &Node) -> Result<(), RfmtError>;

    fn visit_program(&mut self, node: &Node) -> Result<(), RfmtError> {
        Ok(())
    }

    fn visit_class(&mut self, node: &Node) -> Result<(), RfmtError> {
        Ok(())
    }

    fn visit_module(&mut self, node: &Node) -> Result<(), RfmtError> {
        Ok(())
    }

    fn visit_method(&mut self, node: &Node) -> Result<(), RfmtError> {
        Ok(())
    }

    fn visit_call(&mut self, node: &Node) -> Result<(), RfmtError> {
        Ok(())
    }

    fn visit_if(&mut self, node: &Node) -> Result<(), RfmtError> {
        Ok(())
    }

    fn visit_unless(&mut self, node: &Node) -> Result<(), RfmtError> {
        Ok(())
    }

    fn visit_string(&mut self, node: &Node) -> Result<(), RfmtError> {
        Ok(())
    }

    fn visit_integer(&mut self, node: &Node) -> Result<(), RfmtError> {
        Ok(())
    }

    fn visit_float(&mut self, node: &Node) -> Result<(), RfmtError> {
        Ok(())
    }

    fn visit_array(&mut self, node: &Node) -> Result<(), RfmtError> {
        Ok(())
    }

    fn visit_hash(&mut self, node: &Node) -> Result<(), RfmtError> {
        Ok(())
    }

    fn visit_block(&mut self, node: &Node) -> Result<(), RfmtError> {
        Ok(())
    }

    fn visit_other(&mut self, node: &Node) -> Result<(), RfmtError> {
        Ok(())
    }
}

/// Dispatches the mutating hook for `node`'s kind.
fn dispatch_mut<V: VisitorMut + ?Sized>(v: &mut V, node: &mut Node) -> (r: Result<
    (),
    RfmtError,
>)
    ensures
        node_height(node_view(*final(node))) <= node_height(node_view(*old(node))),
{
    match node.node_type {
        NodeType::ProgramNode => v.visit_program_mut(node),
        NodeType::ClassNode => v.visit_class_mut(node),
        NodeType::ModuleNode => v.visit_module_mut(node),
        NodeType::DefNode => v.visit_method_mut(node),
        NodeType::CallNode => v.visit_call_mut(node),
        NodeType::IfNode => v.visit_if_mut(node),
        NodeType::UnlessNode => v.visit_unless_mut(node),
        NodeType::StringNode => v.visit_string_mut(node),
        NodeType::IntegerNode => v.visit_integer_mut(node),
        NodeType::FloatNode => v.visit_float_mut(node),
        NodeType::ArrayNode => v.visit_array_mut(node),
        NodeType::HashNode => v.visit_hash_mut(node),
        NodeType::BlockNode => v.visit_block_mut(node),
        NodeType::OtherNode => v.visit_other_mut(node),
    }
}

/// Pre-order, document-order, fail-fast mutating traversal: the hook
/// may rewrite the node in place, and the traversal then descends into
/// the post-mutation children. Hooks never deepen a node, which keeps
/// the traversal well-founded; the whole walk never deepens the tree
/// either.
pub fn walk_mut<V: VisitorMut + ?Sized>(v: &mut V, node: &mut Node) -> (r: Result<
    (),
    RfmtError,
>)
    ensures
        node_height(node_view(*final(node))) <= node_height(node_view(*old(node))),
    decreases node_height(node_view(*node)),
{
    let ghost h0 = node_height(node_view(*node));
    let outcome = dispatch_mut(v, node);
    proof {
        assert(node_height(node_view(*node)) <= h0);
        lemma_nodes_view_len(node.children@);
        lemma_nodes_height_bound(nodes_view(node.children@));
        assert(nodes_height(nodes_view(node.children@)) <= h0 - 1);
        assert forall|k: int| 0 <= k < node.children@.len() implies node_height(
            node_view(#[trigger] node.children@[k]),
        ) <= h0 - 1 by {
            assert(nodes_view(node.children@)[k] == node_view(node.children@[k]));
        }
    }
    match outcome {
        Ok(_) => {},
        Err(e) => {
            return Err(e);
        },
    }
    let mut i: usize = 0;
    while i < node.children.len()
        invariant
            i <= node.children@.len(),
            h0 >= 1,
            h0 == node_height(node_view(*old(node))),
            forall|k: int|
                0 <= k < node.children@.len() ==> node_height(node_view(
                    #[trigger] node.children@[k],
                )) <= h0 - 1,
        decreases node.children@.len() - i,
    {
        let ghost cs_top = node.children@;
        let mut c = node.children.remove(i);
        let ghost ch = node_height(node_view(c));
        proof {
            assert(c == cs_top[i as int]);
            assert(ch <= h0 - 1);
        }
        let res = walk_mut(v, &mut c);
        proof {
            assert(node_height(node_view(c)) <= h0 - 1);
        }
        node.children.insert(i, c);
        proof {
            assert(node.children@ =~= cs_top.update(i as int, c));
            assert forall|k: int| 0 <= k < node.children@.len() implies node_height(
                node_view(#[trigger] node.children@[k]),
            ) <= h0 - 1 by {
                if k != i {
                    assert(node.children@[k] == cs_top[k]);
                }
            }
        }
        match res {
            Ok(_) => {},
            Err(e) => {
                proof {
                    lemma_nodes_view_len(node.children@);
                    lemma_nodes_height_le(nodes_view(node.children@), (h0 - 1) as nat);
                }
                return Err(e);
            },
        }
        i = i + 1;
    }
    proof {
        lemma_nodes_view_len(node.children@);
        lemma_nodes_height_le(nodes_view(node.children@), (h0 - 1) as nat);
    }
    Ok(())
}

/// Mutating traversal: like `Visitor`, but each hook may replace the
/// node's content or shape in place, and the traversal continues into
/// the post-mutation children. A hook must not deepen the node it
/// rewrites; that bound is what keeps a traversal over self-rewriting
/// trees terminating.
pub trait VisitorMut {
    /// Visits `node` mutably, then its children, pre-order, fail-fast:
    /// an implementation delegates to `walk_mut`.
    fn visit_node_mut(&mut self, node: &mut Node) -> (r: Result<(), RfmtError>)
        ensures
            node_height(node_view(*final(node))) <= node_height(node_view(*old(node))),
    ;

    fn visit_program_mut(&mut self, node: &mut Node) -> (r: Result<(), RfmtError>)
        ensures
            node_height(node_view(*final(node))) <= node_height(node_view(*old(node))),
    {
        Ok(())
    }

    fn visit_class_mut(&mut self, node: &mut Node) -> (r: Result<(), RfmtError>)
        ensures
            node_height(node_view(*final(node))) <= node_height(node_view(*old(node))),
    {
        Ok(())
    }

    fn visit_module_mut(&mut self, node: &mut Node) -> (r: Result<(), RfmtError>)
        ensures
            node_height(node_view(*final(node))) <= node_height(node_view(*old(node))),
    {
        Ok(())
    }

    fn visit_method_mut(&mut self, node: &mut Node) -> (r: Result<(), RfmtError>)
        ensures
            node_height(node_view(*final(node))) <= node_height(node_view(*old(node))),
    {
        Ok(())
    }

    fn visit_call_mut(&mut self, node: &mut Node) -> (r: Result<(), RfmtError>)
        ensures
            node_height(node_view(*final(node))) <= node_height(node_view(*old(node))),
    {
        Ok(())
    }

    fn visit_if_mut(&mut self, node: &mut Node) -> (r: Result<(), RfmtError>)
        ensures
            node_height(node_view(*final(node))) <= node_height(node_view(*old(node))),
    {
        Ok(())
    }

    fn visit_unless_mut(&mut self, node: &mut Node) -> (r: Result<(), RfmtError>)
        ensures
            node_height(node_view(*final(node))) <= node_height(node_view(*old(node))),
    {
        Ok(())
    }

    fn visit_string_mut(&mut self, node: &mut Node) -> (r: Result<(), RfmtError>)
        ensures
            node_height(node_view(*final(node))) <= node_height(node_view(*old(node))),
    {
        Ok(())
    }

    fn visit_integer_mut(&mut self, node: &mut Node) -> (r: Result<(), RfmtError>)
        ensures
            node_height(node_view(*final(node))) <= node_height(node_view(*old(node))),
    {
        Ok(())
    }

    fn visit_float_mut(&mut self, node: &mut Node) -> (r: Result<(), RfmtError>)
        ensures
            node_height(node_view(*final(node))) <= node_height(node_view(*old(node))),
    {
        Ok(())
    }

    fn visit_array_mut(&mut self, node: &mut Node) -> (r: Result<(), RfmtError>)
        ensures
            node_height(node_view(*final(node))) <= node_height(node_view(*old(node))),
    {
        Ok(())
    }

    fn visit_hash_mut(&mut self, node: &mut Node) -> (r: Result<(), RfmtError>)
        ensures
            node_height(node_view(*final(node))) <= node_height(node_view(*old(node))),
    {
        Ok(())
    }

    fn visit_block_mut(&mut self, node: &mut Node) -> (r: Result<(), RfmtError>)
        ensures
            node_height(node_view(*final(node))) <= node_height(node_view(*old(node))),
    {
        Ok(())
    }

    fn visit_other_mut(&mut self, node: &mut Node) -> (r: Result<(), RfmtError>)
        ensures
            node_height(node_view(*final(node))) <= node_height(node_view(*old(node))),
    {
        Ok(())
    }
}

} // verus!