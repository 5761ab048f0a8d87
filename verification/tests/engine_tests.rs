use rfmt::ast::{Node, NodeType};
use rfmt::config::{Config, HashSyntax, QuoteStyle};
use rfmt::emitter::Emitter;
use rfmt::engine::FormatterEngine;
use rfmt::error::RfmtError;
use rfmt::plugin::{HookAction, Plugin, Version};
use rfmt::rules::{Priority, Rule, RuleAction, RuleSet};

fn leaf(kind: NodeType, text: &str) -> Node {
    Node {
        node_type: kind,
        text: text.to_string(),
        line: 1,
        column: 0,
        children: Vec::new(),
    }
}

fn branch(kind: NodeType, text: &str, children: Vec<Node>) -> Node {
    Node {
        node_type: kind,
        text: text.to_string(),
        line: 1,
        column: 0,
        children,
    }
}

#[test]
fn test_emit_indents_block_bodies() {
    let tree = branch(
        NodeType::ClassNode,
        "class Foo",
        vec![leaf(NodeType::CallNode, "bar")],
    );
    let emitter = Emitter::new(Config::default());
    let text = emitter.emit(&tree).unwrap();
    assert_eq!(text, "class Foo\n  bar\n");
}

#[test]
fn test_emit_respects_tab_indentation() {
    let mut config = Config::default();
    config.formatting.indent_style = rfmt::config::IndentStyle::Tabs;
    let tree = branch(
        NodeType::DefNode,
        "def run",
        vec![leaf(NodeType::CallNode, "step")],
    );
    let text = Emitter::new(config).emit(&tree).unwrap();
    assert_eq!(text, "def run\n\tstep\n");
}

#[test]
fn test_hash_rockets_rewritten_to_modern() {
    // A document using legacy hash-rocket syntax, under the modern
    // hash-syntax preference: every map entry is rewritten to colon
    // syntax, all other tokens untouched.
    let tree = branch(
        NodeType::ProgramNode,
        "# config",
        vec![branch(
            NodeType::HashNode,
            "{",
            vec![
                leaf(NodeType::OtherNode, ":a => 1"),
                leaf(NodeType::OtherNode, ":long_key => \"x\""),
            ],
        )],
    );
    let config = Config::default();
    assert!(matches!(
        config.formatting.style.hash_syntax,
        HashSyntax::Ruby19
    ));
    let engine = FormatterEngine::new(config);
    let out = engine.format(tree).unwrap();
    assert_eq!(out.text, "# config");
    assert_eq!(out.children[0].text, "{");
    assert_eq!(out.children[0].children[0].text, "a: 1");
    assert_eq!(out.children[0].children[1].text, "long_key: \"x\"");
    assert!(matches!(out.children[0].node_type, NodeType::HashNode));
}

#[test]
fn test_modern_pairs_rewritten_to_rockets() {
    let mut config = Config::default();
    config.formatting.style.hash_syntax = HashSyntax::HashRockets;
    let tree = leaf(NodeType::OtherNode, "a: 1");
    let out = FormatterEngine::new(config).format(tree).unwrap();
    assert_eq!(out.text, ":a => 1");
}

#[test]
fn test_single_quotes_rewritten_to_double() {
    let tree = leaf(NodeType::StringNode, "'hello'");
    let out = FormatterEngine::new(Config::default()).format(tree).unwrap();
    assert_eq!(out.text, "\"hello\"");
}

#[test]
fn test_double_quotes_rewritten_to_single() {
    let mut config = Config::default();
    config.formatting.quote_style = QuoteStyle::Single;
    let tree = leaf(NodeType::StringNode, "\"hello\"");
    let out = FormatterEngine::new(config).format(tree).unwrap();
    assert_eq!(out.text, "'hello'");
}

#[test]
fn test_quote_rule_leaves_non_strings_alone() {
    let tree = leaf(NodeType::OtherNode, "'hello'");
    let out = FormatterEngine::new(Config::default()).format(tree).unwrap();
    assert_eq!(out.text, "'hello'");
}

#[test]
fn test_format_is_idempotent_on_trees() {
    let tree = branch(
        NodeType::ProgramNode,
        "# doc",
        vec![
            leaf(NodeType::OtherNode, ":a => 1"),
            leaf(NodeType::StringNode, "'x'"),
        ],
    );
    let engine = FormatterEngine::new(Config::default());
    let once = engine.format(tree).unwrap();
    let emitter = Emitter::new(Config::default());
    let text_once = emitter.emit(&once).unwrap();
    let twice = engine.format(once).unwrap();
    let text_twice = emitter.emit(&twice).unwrap();
    assert_eq!(text_once, text_twice);
}

#[test]
fn test_canonical_document_formats_to_itself() {
    // An already-canonical two-space-indented, double-quoted,
    // modern-hash document under the default configuration.
    let tree = branch(
        NodeType::ProgramNode,
        "# canonical",
        vec![branch(
            NodeType::ClassNode,
            "class Foo",
            vec![branch(
                NodeType::DefNode,
                "def bar",
                vec![
                    leaf(NodeType::StringNode, "\"greeting\""),
                    leaf(NodeType::OtherNode, "key: 1"),
                ],
            )],
        )],
    );
    let emitter = Emitter::new(Config::default());
    let before = emitter.emit(&tree).unwrap();
    assert_eq!(
        before,
        "# canonical\nclass Foo\n  def bar\n    \"greeting\"\n    key: 1\n"
    );
    let out = FormatterEngine::new(Config::default()).format(tree).unwrap();
    let after = emitter.emit(&out).unwrap();
    assert_eq!(after, before);
}

#[test]
fn test_forbid_rule_fails_with_rule_name() {
    let mut engine = FormatterEngine::new(Config::default());
    engine.add_rule(Rule {
        name: "no_floats".to_string(),
        priority: Priority::Low,
        action: RuleAction::Forbid(NodeType::FloatNode),
    });
    let tree = branch(
        NodeType::ProgramNode,
        "# doc",
        vec![leaf(NodeType::FloatNode, "legacy numeric literal")],
    );
    match engine.format(tree) {
        Err(RfmtError::RuleError { rule }) => assert_eq!(rule, "no_floats"),
        _ => panic!("expected a RuleError"),
    }
}

#[test]
fn test_rule_set_sorts_by_priority_then_registration() {
    let mut set = RuleSet::new();
    set.add_rule(Rule {
        name: "cosmetic".to_string(),
        priority: Priority::Normal,
        action: RuleAction::QuoteDouble,
    });
    set.add_rule(Rule {
        name: "structural".to_string(),
        priority: Priority::High,
        action: RuleAction::HashModern,
    });
    set.add_rule(Rule {
        name: "cosmetic_second".to_string(),
        priority: Priority::Normal,
        action: RuleAction::QuoteSingle,
    });
    let sorted = set.iter_sorted();
    let names: Vec<&str> = sorted.iter().map(|r| r.name.as_str()).collect();
    assert_eq!(names, vec!["structural", "cosmetic", "cosmetic_second"]);
}

#[test]
fn test_plugin_rules_join_the_pass() {
    let mut config = Config::default();
    config.formatting.style.hash_syntax = HashSyntax::Consistent;
    config.formatting.quote_style = QuoteStyle::Consistent;
    let mut engine = FormatterEngine::new(config);
    let plugin = Plugin {
        name: "modernizer".to_string(),
        version: Version::new(1, 0, 0),
        rules: vec![Rule {
            name: "plugin_hash".to_string(),
            priority: Priority::High,
            action: RuleAction::HashModern,
        }],
        before: HookAction::NoOp,
        after: HookAction::NoOp,
    };
    engine.register_plugin(plugin);
    let out = engine.format(leaf(NodeType::OtherNode, ":k => 2")).unwrap();
    assert_eq!(out.text, "k: 2");
}

#[test]
fn test_before_hook_injects_a_node() {
    let mut engine = FormatterEngine::new(Config::default());
    engine.register_plugin(Plugin {
        name: "header".to_string(),
        version: Version::new(0, 1, 0),
        rules: Vec::new(),
        before: HookAction::PrependChild {
            kind: NodeType::OtherNode,
            text: "# injected".to_string(),
        },
        after: HookAction::NoOp,
    });
    let tree = branch(
        NodeType::ProgramNode,
        "# doc",
        vec![leaf(NodeType::CallNode, "work")],
    );
    let out = engine.format(tree).unwrap();
    assert_eq!(out.children.len(), 2);
    assert_eq!(out.children[0].text, "# injected");
    assert_eq!(out.children[1].text, "work");
}

#[test]
fn test_root_guard_hook_aborts_on_non_program_root() {
    let mut engine = FormatterEngine::new(Config::default());
    engine.register_plugin(Plugin {
        name: "root_guard".to_string(),
        version: Version::new(0, 1, 0),
        rules: Vec::new(),
        before: HookAction::RequireProgramRoot,
        after: HookAction::NoOp,
    });
    match engine.format(leaf(NodeType::CallNode, "loose")) {
        Err(RfmtError::InternalError { message }) => {
            assert!(message.contains("program"));
        }
        _ => panic!("expected an InternalError"),
    }
    let ok = engine.format(leaf(NodeType::ProgramNode, "# doc"));
    assert!(ok.is_ok());
}

#[test]
fn test_version_renders_dotted() {
    assert_eq!(Version::new(1, 2, 3).render(), "1.2.3");
    assert_eq!(Version::new(0, 10, 0).render(), "0.10.0");
}
