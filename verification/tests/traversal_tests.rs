use rfmt::ast::{Node, NodeType, Visitor, VisitorMut, preorder_kinds, walk, walk_mut};
use rfmt::error::RfmtError;

fn call_leaf(text: &str) -> Node {
    Node {
        node_type: NodeType::CallNode,
        text: text.to_string(),
        line: 1,
        column: 0,
        children: Vec::new(),
    }
}

fn program(children: Vec<Node>) -> Node {
    Node {
        node_type: NodeType::ProgramNode,
        text: "# doc".to_string(),
        line: 1,
        column: 0,
        children,
    }
}

struct Recorder {
    seen: Vec<String>,
}

impl Visitor for Recorder {
    fn visit_node(&mut self, node: &Node) -> Result<(), RfmtError> {
        walk(self, node)
    }

    fn visit_program(&mut self, node: &Node) -> Result<(), RfmtError> {
        self.seen.push(node.text.clone());
        Ok(())
    }

    fn visit_call(&mut self, node: &Node) -> Result<(), RfmtError> {
        self.seen.push(node.text.clone());
        Ok(())
    }
}

struct Tripwire {
    seen: Vec<String>,
}

impl Visitor for Tripwire {
    fn visit_node(&mut self, node: &Node) -> Result<(), RfmtError> {
        walk(self, node)
    }

    fn visit_call(&mut self, node: &Node) -> Result<(), RfmtError> {
        self.seen.push(node.text.clone());
        if node.text == "c2" {
            return Err(RfmtError::InternalError { message: "tripped".to_string() });
        }
        Ok(())
    }
}

struct Renamer;

impl VisitorMut for Renamer {
    fn visit_node_mut(&mut self, node: &mut Node) -> Result<(), RfmtError> {
        walk_mut(self, node)
    }

    fn visit_call_mut(&mut self, node: &mut Node) -> Result<(), RfmtError> {
        node.text = format!("renamed {}", node.text);
        Ok(())
    }
}

#[test]
fn test_traversal_visits_parent_then_children_in_order() {
    // Visiting a tree with children [c1, c2, c3] invokes the child
    // hooks in that order, and only after the parent's own hook.
    let tree = program(vec![call_leaf("c1"), call_leaf("c2"), call_leaf("c3")]);
    let mut rec = Recorder { seen: Vec::new() };
    rec.visit_node(&tree).unwrap();
    assert_eq!(rec.seen, vec!["# doc", "c1", "c2", "c3"]);
}

#[test]
fn test_traversal_aborts_on_first_failure() {
    let tree = program(vec![call_leaf("c1"), call_leaf("c2"), call_leaf("c3")]);
    let mut v = Tripwire { seen: Vec::new() };
    let r = v.visit_node(&tree);
    assert!(r.is_err());
    assert_eq!(v.seen, vec!["c1", "c2"]);
}

#[test]
fn test_preorder_kinds_order() {
    let nested = Node {
        node_type: NodeType::ClassNode,
        text: "class Foo".to_string(),
        line: 1,
        column: 0,
        children: vec![call_leaf("inner")],
    };
    let tree = program(vec![nested, call_leaf("after")]);
    let kinds = preorder_kinds(&tree);
    assert_eq!(
        kinds,
        vec![
            NodeType::ProgramNode,
            NodeType::ClassNode,
            NodeType::CallNode,
            NodeType::CallNode,
        ]
    );
}

#[test]
fn test_mutating_traversal_rewrites_in_place() {
    let mut tree = program(vec![call_leaf("c1"), call_leaf("c2")]);
    let mut v = Renamer;
    v.visit_node_mut(&mut tree).unwrap();
    assert_eq!(tree.children[0].text, "renamed c1");
    assert_eq!(tree.children[1].text, "renamed c2");
    assert_eq!(tree.text, "# doc");
}
