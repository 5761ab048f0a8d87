//! The formatter engine: one pass is one top-down, document-order
//! traversal that folds every applicable rule over each node, then
//! descends into the rewritten node's children, adjusting the
//! indentation depth around block-like kinds.

use vstd::prelude::*;
use crate::ast::{Node, NodeType, NodeView, node_view, nodes_view, lemma_nodes_view_len};
use crate::config::Config;
use crate::error::RfmtError;
use crate::plugin::{
    PluginRegistry, Plugin, plugins_rules, before_hooks_spec, after_hooks_spec, hook_apply_spec,
    HookAction,
};
use crate::rules::{
    Rule, RuleView, RuleSet, rules_view, rule_view, apply_rules_spec, sorted_rules,
    config_rules, append_rules,
};

verus! {

/// Per-pass state threaded through rule application: the current
/// indentation depth and the configured line-width budget. Nothing else
/// is retained between passes.
pub struct FormatContext {
    pub indent_level: usize,
    pub line_length: usize,
}

impl FormatContext {
    /// A fresh context for one pass: depth starts at zero, the width
    /// budget comes from the configuration.
    pub fn new(config: &crate::config::Config) -> (r: Self)
        ensures
            r.indent_level == 0,
            r.line_length == config.formatting.line_length,
    {
        FormatContext { indent_level: 0, line_length: config.formatting.line_length }
    }
}

/// The kinds whose bodies nest: entering one deepens the indentation.
pub open spec fn block_like(k: NodeType) -> bool {
    k == NodeType::ClassNode || k == NodeType::ModuleNode || k == NodeType::DefNode || k
        == NodeType::BlockNode
}

/// One pass over one node: the rule fold rewrites the node's token
/// text, then the pass descends into its children in document order.
/// Rule actions rewrite a node's token text and never its kind or
/// children.
pub open spec fn fmt_node_spec(rules: Seq<RuleView>, n: NodeView) -> Result<NodeView, Seq<char>>
    decreases n,
{
    match apply_rules_spec(rules, n.kind, n.text) {
        Err(e) => Err(e),
        Ok(t) => match fmt_nodes_spec(rules, n.children) {
            Err(e) => Err(e),
            Ok(cs) => Ok(
                NodeView { kind: n.kind, text: t, line: n.line, column: n.column, children: cs },
            ),
        },
    }
}

/// One pass over a sequence of sibling nodes, in document order,
/// fail-fast.
pub open spec fn fmt_nodes_spec(rules: Seq<RuleView>, cs: Seq<NodeView>) -> Result<
    Seq<NodeView>,
    Seq<char>,
>
    decreases cs,
{
    if cs.len() == 0 {
        Ok(Seq::empty())
    } else {
        match fmt_node_spec(rules, cs[0]) {
            Err(e) => Err(e),
            Ok(h) => match fmt_nodes_spec(rules, cs.drop_first()) {
                Err(e) => Err(e),
                Ok(t) => Ok(seq![h] + t),
            },
        }
    }
}

/// Why a whole formatting operation failed: a rule (by name) or a hook
/// (by message).
pub enum FmtFailure {
    Rule(Seq<char>),
    Hook(Seq<char>),
}

/// The whole operation of the engine: before-hooks, then the pass under
/// the sorted view of the merged rules, then after-hooks; the first
/// failure aborts everything.
pub open spec fn engine_format_spec(
    merged: Seq<RuleView>,
    plugins: Seq<Plugin>,
    n: NodeView,
) -> Result<NodeView, FmtFailure> {
    match before_hooks_spec(plugins, n) {
        Err(h) => Err(FmtFailure::Hook(h)),
        Ok(n1) => match fmt_node_spec(sorted_rules(merged), n1) {
            Err(e) => Err(FmtFailure::Rule(e)),
            Ok(n2) => match after_hooks_spec(plugins, n2) {
                Err(h) => Err(FmtFailure::Hook(h)),
                Ok(n3) => Ok(n3),
            },
        },
    }
}

/// An exec error matches the failure the model predicts.
pub open spec fn error_matches(e: RfmtError, f: FmtFailure) -> bool {
    match f {
        FmtFailure::Rule(name) => e matches RfmtError::RuleError { rule } && rule@ == name,
        FmtFailure::Hook(msg) => e matches RfmtError::InternalError { message } && message@
            == msg,
    }
}

/// One pass with a stable rule fold keeps any tree it has already
/// produced.
proof fn lemma_fmt_node_idem(rules: Seq<RuleView>, n: NodeView)
    requires
        crate::rules::fold_stable(rules),
    ensures
        fmt_node_spec(rules, n) matches Ok(m) ==> fmt_node_spec(rules, m) == Ok::<
            NodeView,
            Seq<char>,
        >(m),
    decreases n,
{
    match fmt_node_spec(rules, n) {
        Ok(m) => {
            lemma_fmt_nodes_idem(rules, n.children);
            assert(apply_rules_spec(rules, m.kind, m.text) == Ok::<Seq<char>, Seq<char>>(
                m.text,
            ));
            assert(fmt_node_spec(rules, m) == Ok::<NodeView, Seq<char>>(
                NodeView {
                    kind: m.kind,
                    text: m.text,
                    line: m.line,
                    column: m.column,
                    children: m.children,
                },
            ));
            assert(NodeView {
                kind: m.kind,
                text: m.text,
                line: m.line,
                column: m.column,
                children: m.children,
            } =~= m);
        },
        Err(_) => {},
    }
}

/// One pass with a stable rule fold keeps any sibling sequence it has
/// already produced.
proof fn lemma_fmt_nodes_idem(rules: Seq<RuleView>, cs: Seq<NodeView>)
    requires
        crate::rules::fold_stable(rules),
    ensures
        fmt_nodes_spec(rules, cs) matches Ok(ds) ==> fmt_nodes_spec(rules, ds) == Ok::<
            Seq<NodeView>,
            Seq<char>,
        >(ds),
    decreases cs,
{
    if cs.len() > 0 {
        match fmt_nodes_spec(rules, cs) {
            Ok(ds) => {
                lemma_fmt_node_idem(rules, cs[0]);
                lemma_fmt_nodes_idem(rules, cs.drop_first());
                let h = (match fmt_node_spec(rules, cs[0]) {
                    Ok(h) => h,
                    Err(_) => cs[0],
                });
                let t = (match fmt_nodes_spec(rules, cs.drop_first()) {
                    Ok(t) => t,
                    Err(_) => cs.drop_first(),
                });
                assert(ds == seq![h] + t);
                assert(ds[0] == h);
                assert(ds.drop_first() =~= t);
            },
            Err(_) => {},
        }
    }
}

/// The rules a configuration calls for are already in sorted order:
/// the structural hash rule is high-priority and precedes the cosmetic
/// quote rule.
proof fn lemma_config_rules_sorted(c: Config)
    ensures
        sorted_rules(config_rules(c)) == config_rules(c),
{
    broadcast use vstd::seq_lib::group_filter_ensures;

    let cr = config_rules(c);
    let hr = crate::rules::config_hash_rule(c);
    let qr = crate::rules::config_quote_rule(c);
    let hi = |r: RuleView| r.priority == crate::rules::Priority::High;
    let no = |r: RuleView| r.priority == crate::rules::Priority::Normal;
    let lo = |r: RuleView| r.priority == crate::rules::Priority::Low;
    Seq::filter_distributes_over_add(hr, qr, hi);
    Seq::filter_distributes_over_add(hr, qr, no);
    Seq::filter_distributes_over_add(hr, qr, lo);
    assert(hr.filter(hi) =~= hr) by { reveal_with_fuel(Seq::filter, 3); }
    assert(hr.filter(no) =~= Seq::<RuleView>::empty()) by { reveal_with_fuel(Seq::filter, 3); }
    assert(hr.filter(lo) =~= Seq::<RuleView>::empty()) by { reveal_with_fuel(Seq::filter, 3); }
    assert(qr.filter(no) =~= qr) by { reveal_with_fuel(Seq::filter, 3); }
    assert(qr.filter(hi) =~= Seq::<RuleView>::empty()) by { reveal_with_fuel(Seq::filter, 3); }
    assert(qr.filter(lo) =~= Seq::<RuleView>::empty()) by { reveal_with_fuel(Seq::filter, 3); }
    assert(sorted_rules(cr) =~= cr);
}

/// Law (idempotence): under the rules a configuration calls for, with
/// no extensions registered, formatting an already-formatted tree
/// returns it unchanged — the engine's output is a fixed point. An
/// extension hook that injects a node each pass falls outside this law,
/// which is why it asks for an empty registry.
pub proof fn lemma_format_idempotent(c: Config, n: NodeView)
    ensures
        engine_format_spec(config_rules(c), Seq::empty(), n) matches Ok(m)
            ==> engine_format_spec(config_rules(c), Seq::empty(), m) == Ok::<
            NodeView,
            FmtFailure,
        >(m),
{
    crate::rules::lemma_config_rules_stable(c);
    lemma_config_rules_sorted(c);
    lemma_fmt_node_idem(config_rules(c), n);
}

/// Law (determinism): the engine's whole operation is a pure function
/// of the merged rules, the registered extensions and the input tree —
/// equal inputs give equal outcomes, independent of any other state.
pub proof fn lemma_format_deterministic(
    merged: Seq<RuleView>,
    plugins: Seq<Plugin>,
    n1: NodeView,
    n2: NodeView,
)
    requires
        n1 == n2,
    ensures
        engine_format_spec(merged, plugins, n1) == engine_format_spec(merged, plugins, n2),
{
}

/// Folds every rule over one node's token text, in the order given.
fn apply_rules_text(rules: &Vec<Rule>, kind: NodeType, text: &str) -> (r: Result<
    String,
    RfmtError,
>)
    ensures
        match r {
            Ok(t) => apply_rules_spec(rules_view(rules@), kind, text@) == Ok::<
                Seq<char>,
                Seq<char>,
            >(t@),
            Err(e) => apply_rules_spec(rules_view(rules@), kind, text@) matches Err(name)
                && error_matches(e, FmtFailure::Rule(name)),
        },
{
    let ghost all = rules_view(rules@);
    let mut cur = text.to_owned();
    let mut i: usize = 0;
    proof { assert(all.skip(0) =~= all); }
    while i < rules.len()
        invariant
            i <= rules@.len(),
            all == rules_view(rules@),
            apply_rules_spec(all, kind, text@) == apply_rules_spec(
                all.skip(i as int),
                kind,
                cur@,
            ),
        decreases rules@.len() - i,
    {
        let ghost cur0 = cur@;
        let step = rules[i].apply_text(kind, cur.as_str());
        proof {
            assert(all.skip(i as int)[0] == rule_view(rules@[i as int]));
            assert(all.skip(i as int).drop_first() =~= all.skip(i + 1));
        }
        match step {
            Ok(t) => {
                cur = t;
            },
            Err(e) => {
                proof {
                    assert(apply_rules_spec(all.skip(i as int), kind, cur0) matches Err(name)
                        && error_matches(e, FmtFailure::Rule(name)));
                }
                return Err(e);
            },
        }
        i = i + 1;
    }
    proof { assert(all.skip(rules@.len() as int) =~= Seq::<RuleView>::empty()); }
    Ok(cur)
}

/// One pass over one node and, recursively, its children. The depth is
/// deepened under block-like kinds and read by no current rule; it is
/// capped rather than overflowed.
pub fn format_node(rules: &Vec<Rule>, node: &Node, depth: usize, line_length: usize) -> (r:
    Result<Node, RfmtError>)
    ensures
        match r {
            Ok(m) => fmt_node_spec(rules_view(rules@), node_view(*node)) == Ok::<
                NodeView,
                Seq<char>,
            >(node_view(m)),
            Err(e) => fmt_node_spec(rules_view(rules@), node_view(*node)) matches Err(name)
                && error_matches(e, FmtFailure::Rule(name)),
        },
    decreases *node,
{
    let ghost rv = rules_view(rules@);
    let ghost n0 = node_view(*node);
    let text1 = match apply_rules_text(rules, node.node_type, node.text.as_str()) {
        Ok(t) => t,
        Err(e) => {
            return Err(e);
        },
    };
    let child_depth = if depth < usize::MAX && block_like_exec(node.node_type) {
        depth + 1
    } else {
        depth
    };
    let ghost cs0 = node.children@;
    let ghost cvs = nodes_view(cs0);
    proof {
        lemma_nodes_view_len(cs0);
        assert(cvs == n0.children);
    }
    let mut done: Vec<Node> = Vec::new();
    let ghost total = cs0.len() as int;
    let mut i: usize = 0;
    proof {
        assert(cvs.skip(0) =~= cvs);
        assert(nodes_view(done@) =~= Seq::<NodeView>::empty());
    }
    while i < node.children.len()
        invariant
            0 <= i <= total,
            rv == rules_view(rules@),
            n0 == node_view(*node),
            cs0 == node.children@,
            cvs == nodes_view(cs0),
            total == cs0.len() as int,
            apply_rules_spec(rv, n0.kind, n0.text) == Ok::<Seq<char>, Seq<char>>(text1@),
            fmt_nodes_spec(rv, cvs) == match fmt_nodes_spec(rv, cvs.skip(i as int)) {
                Ok(t) => Ok(nodes_view(done@) + t),
                Err(e) => Err(e),
            },
        decreases total - i,
    {
        let c = &node.children[i];
        proof {
            lemma_nodes_view_len(cs0);
            assert(node_view(*c) == cvs[i as int]);
            assert(cvs.skip(i as int)[0] == cvs[i as int]);
            assert(cvs.skip(i as int).drop_first() =~= cvs.skip(i + 1));
            assert(decreases_to!(*node => node.children));
            assert(decreases_to!(node.children => node.children[i as int]));
            assert(decreases_to!(*node => *c));
        }
        let ghost done0 = nodes_view(done@);
        match format_node(rules, c, child_depth, line_length) {
            Ok(fc) => {
                let ghost fcv = node_view(fc);
                let ghost dprev = done@;
                done.push(fc);
                proof {
                    lemma_nodes_view_len(done@);
                    lemma_nodes_view_len(dprev);
                    assert(nodes_view(done@) =~= done0.push(fcv));
                    assert(done0 + (seq![fcv] + match fmt_nodes_spec(rv, cvs.skip(i + 1)) {
                        Ok(t) => t,
                        Err(_) => Seq::empty(),
                    }) =~= (done0.push(fcv)) + match fmt_nodes_spec(rv, cvs.skip(i + 1)) {
                        Ok(t) => t,
                        Err(_) => Seq::empty(),
                    });
                }
            },
            Err(e) => {
                proof {
                    let name0 = (match fmt_node_spec(rv, cvs[i as int]) {
                        Err(nm) => nm,
                        Ok(_) => Seq::empty(),
                    });
                    assert(fmt_node_spec(rv, cvs[i as int]) == Err::<NodeView, Seq<char>>(
                        name0,
                    ));
                    assert(error_matches(e, FmtFailure::Rule(name0)));
                    assert(fmt_nodes_spec(rv, cvs.skip(i as int)) == Err::<
                        Seq<NodeView>,
                        Seq<char>,
                    >(name0));
                    assert(fmt_nodes_spec(rv, cvs) == Err::<Seq<NodeView>, Seq<char>>(name0));
                    assert(fmt_node_spec(rv, n0) == Err::<NodeView, Seq<char>>(name0));
                }
                return Err(e);
            },
        }
        i = i + 1;
    }
    proof {
        assert(cvs.skip(total) =~= Seq::<NodeView>::empty());
        assert(fmt_nodes_spec(rv, cvs.skip(total)) == Ok::<Seq<NodeView>, Seq<char>>(
            Seq::empty(),
        ));
    }
    let out = Node {
        node_type: node.node_type,
        text: text1,
        line: node.line,
        column: node.column,
        children: done,
    };
    proof {
        assert(nodes_view(done@) + Seq::<NodeView>::empty() =~= nodes_view(done@));
        assert(fmt_nodes_spec(rv, cvs) == Ok::<Seq<NodeView>, Seq<char>>(nodes_view(done@)));
        assert(node_view(out) =~= NodeView {
            kind: n0.kind,
            text: (match apply_rules_spec(rv, n0.kind, n0.text) {
                Ok(t) => t,
                Err(_) => n0.text,
            }),
            line: n0.line,
            column: n0.column,
            children: nodes_view(done@),
        });
        assert(fmt_node_spec(rv, n0) == Ok::<NodeView, Seq<char>>(node_view(out)));
    }
    Ok(out)
}

/// Whether a kind's body nests.
pub fn block_like_exec(k: NodeType) -> (b: bool)
    ensures
        b == block_like(k),
{
    k == NodeType::ClassNode || k == NodeType::ModuleNode || k == NodeType::DefNode || k
        == NodeType::BlockNode
}

/// Runs one hook on the tree.
fn run_hook(a: &HookAction, node: Node) -> (r: Result<Node, RfmtError>)
    ensures
        match hook_apply_spec(a, node_view(node)) {
            Ok(m) => r matches Ok(res) && node_view(res) == m,
            Err(msg) => r matches Err(e) && error_matches(e, FmtFailure::Hook(msg)),
        },
{
    match a {
        HookAction::NoOp => Ok(node),
        HookAction::RequireProgramRoot => {
            if node.node_type == NodeType::ProgramNode {
                Ok(node)
            } else {
                Err(
                    RfmtError::InternalError {
                        message: "hook requires a program node at the root".to_owned(),
                    },
                )
            }
        },
        HookAction::PrependChild { kind, text } => {
            let ghost n0 = node_view(node);
            let leaf = Node {
                node_type: *kind,
                text: text.clone(),
                line: 0,
                column: 0,
                children: Vec::new(),
            };
            let ghost leafv = node_view(leaf);
            let mut node = node;
            let ghost cs_before = node.children@;
            node.children.insert(0, leaf);
            proof {
                assert(leafv.children =~= Seq::<NodeView>::empty());
                lemma_nodes_view_len(node.children@);
                lemma_nodes_view_len(cs_before);
                assert(node.children@ == cs_before.insert(0, leaf));
                assert(nodes_view(node.children@) =~= seq![leafv] + nodes_view(cs_before));
                assert(node_view(node) =~= match hook_apply_spec(a, n0) {
                    Ok(m) => m,
                    Err(_) => n0,
                });
            }
            Ok(node)
        },
    }
}

/// Runs every registered before-hook, in registration order,
/// fail-fast.
fn run_before_hooks(plugins: &Vec<Plugin>, node: Node) -> (r: Result<Node, RfmtError>)
    ensures
        match r {
            Ok(m) => before_hooks_spec(plugins@, node_view(node)) == Ok::<NodeView, Seq<char>>(
                node_view(m),
            ),
            Err(e) => before_hooks_spec(plugins@, node_view(node)) matches Err(msg)
                && error_matches(e, FmtFailure::Hook(msg)),
        },
{
    let ghost n0 = node_view(node);
    let mut cur = node;
    let mut i: usize = 0;
    proof { assert(plugins@.skip(0) =~= plugins@); }
    while i < plugins.len()
        invariant
            i <= plugins@.len(),
            n0 == node_view(node),
            before_hooks_spec(plugins@, n0) == before_hooks_spec(
                plugins@.skip(i as int),
                node_view(cur),
            ),
        decreases plugins@.len() - i,
    {
        let ghost cur0 = node_view(cur);
        let step = run_hook(&plugins[i].before, cur);
        proof {
            assert(plugins@.skip(i as int)[0] == plugins@[i as int]);
            assert(plugins@.skip(i as int).drop_first() =~= plugins@.skip(i + 1));
        }
        match step {
            Ok(m) => {
                cur = m;
            },
            Err(e) => {
                proof {
                    assert(before_hooks_spec(plugins@.skip(i as int), cur0) matches Err(msg)
                        && error_matches(e, FmtFailure::Hook(msg)));
                }
                return Err(e);
            },
        }
        i = i + 1;
    }
    proof { assert(plugins@.skip(plugins@.len() as int) =~= Seq::<Plugin>::empty()); }
    Ok(cur)
}

/// Runs every registered after-hook, in registration order, fail-fast.
fn run_after_hooks(plugins: &Vec<Plugin>, node: Node) -> (r: Result<Node, RfmtError>)
    ensures
        match r {
            Ok(m) => after_hooks_spec(plugins@, node_view(node)) == Ok::<NodeView, Seq<char>>(
                node_view(m),
            ),
            Err(e) => after_hooks_spec(plugins@, node_view(node)) matches Err(msg)
                && error_matches(e, FmtFailure::Hook(msg)),
        },
{
    let ghost n0 = node_view(node);
    let mut cur = node;
    let mut i: usize = 0;
    proof { assert(plugins@.skip(0) =~= plugins@); }
    while i < plugins.len()
        invariant
            i <= plugins@.len(),
            n0 == node_view(node),
            after_hooks_spec(plugins@, n0) == after_hooks_spec(
                plugins@.skip(i as int),
                node_view(cur),
            ),
        decreases plugins@.len() - i,
    {
        let ghost cur0 = node_view(cur);
        let step = run_hook(&plugins[i].after, cur);
        proof {
            assert(plugins@.skip(i as int)[0] == plugins@[i as int]);
            assert(plugins@.skip(i as int).drop_first() =~= plugins@.skip(i + 1));
        }
        match step {
            Ok(m) => {
                cur = m;
            },
            Err(e) => {
                proof {
                    assert(after_hooks_spec(plugins@.skip(i as int), cur0) matches Err(msg)
                        && error_matches(e, FmtFailure::Hook(msg)));
                }
                return Err(e);
            },
        }
        i = i + 1;
    }
    proof { assert(plugins@.skip(plugins@.len() as int) =~= Seq::<Plugin>::empty()); }
    Ok(cur)
}

/// Clones a list of rules, keeping order.
fn clone_rules(rules: &Vec<Rule>) -> (out: Vec<Rule>)
    ensures
        rules_view(out@) == rules_view(rules@),
{
    let mut out: Vec<Rule> = Vec::new();
    let mut i: usize = 0;
    proof {
        assert(rules_view(out@) =~= rules_view(rules@).take(0));
    }
    while i < rules.len()
        invariant
            i <= rules@.len(),
            rules_view(out@) == rules_view(rules@).take(i as int),
        decreases rules@.len() - i,
    {
        let ghost prev = rules_view(out@);
        out.push(rules[i].clone());
        proof {
            assert(rules_view(out@) =~= prev.push(rule_view(rules@[i as int])));
            assert(rules_view(rules@).take(i + 1) =~= rules_view(rules@).take(i as int).push(
                rule_view(rules@[i as int]),
            ));
        }
        i = i + 1;
    }
    proof { assert(rules_view(rules@).take(rules@.len() as int) =~= rules_view(rules@)); }
    out
}

/// Orchestrates one top-down rewrite pass: the rule collection derived
/// from the configuration, merged with every extension-contributed
/// rule, applied under the extension hooks.
pub struct FormatterEngine {
    pub config: Config,
    pub rule_set: RuleSet,
    pub registry: PluginRegistry,
}

impl FormatterEngine {
    /// The merged rules the pass sorts and applies: the engine's own,
    /// then every extension's, in registration order.
    pub open spec fn merged_rules(&self) -> Seq<RuleView> {
        self.rule_set.spec_rules() + plugins_rules(self.registry.plugins@)
    }

    /// An engine for one configuration: its rule collection is the one
    /// the configuration calls for, and no extensions are registered
    /// yet.
    pub fn new(config: Config) -> (r: Self)
        ensures
            r.config == config,
            r.rule_set.spec_rules() == config_rules(config),
            r.registry.plugins@ == Seq::<Plugin>::empty(),
    {
        let rule_set = crate::rules::build_rules(&config);
        FormatterEngine { config, rule_set, registry: PluginRegistry::new() }
    }

    /// The engine's configuration.
    pub fn config(&self) -> (r: &Config)
        ensures
            r == &self.config,
    {
        &self.config
    }

    /// Registers one more rule with the engine's own collection.
    pub fn add_rule(&mut self, rule: Rule)
        ensures
            final(self).rule_set.spec_rules() == old(self).rule_set.spec_rules().push(
                crate::rules::rule_view(rule),
            ),
            final(self).config == old(self).config,
            final(self).registry.plugins@ == old(self).registry.plugins@,
    {
        self.rule_set.add_rule(rule);
    }

    /// Registers one more extension, after all earlier ones.
    pub fn register_plugin(&mut self, plugin: Plugin)
        ensures
            final(self).registry.plugins@ == old(self).registry.plugins@.push(plugin),
            final(self).config == old(self).config,
            final(self).rule_set.spec_rules() == old(self).rule_set.spec_rules(),
    {
        self.registry.register(plugin);
    }

    /// One whole formatting operation on a tree: before-hooks, the
    /// pass, after-hooks; fail-fast throughout, no partial result.
    pub fn format(&self, ast: Node) -> (r: Result<Node, RfmtError>)
        ensures
            match r {
                Ok(m) => engine_format_spec(self.merged_rules(), self.registry.plugins@,
                    node_view(ast)) == Ok::<NodeView, FmtFailure>(node_view(m)),
                Err(e) => engine_format_spec(self.merged_rules(), self.registry.plugins@,
                    node_view(ast)) matches Err(f) && error_matches(e, f),
            },
    {
        let ghost n0 = node_view(ast);
        let n1 = match run_before_hooks(&self.registry.plugins, ast) {
            Ok(m) => m,
            Err(e) => {
                return Err(e);
            },
        };
        let mut merged = clone_rules(&self.rule_set.rules);
        let ghost base = self.rule_set.spec_rules();
        let ghost ps = self.registry.plugins@;
        let mut i: usize = 0;
        proof {
            assert(ps.skip(0) =~= ps);
        }
        while i < self.registry.plugins.len()
            invariant
                i <= ps.len(),
                ps == self.registry.plugins@,
                base == self.rule_set.spec_rules(),
                base + plugins_rules(ps) == rules_view(merged@) + plugins_rules(
                    ps.skip(i as int),
                ),
            decreases ps.len() - i,
        {
            let ghost before = rules_view(merged@);
            let extra = clone_rules(&self.registry.plugins[i].rules);
            append_rules(&mut merged, extra);
            proof {
                assert(ps.skip(i as int)[0] == ps[i as int]);
                assert(ps.skip(i as int).drop_first() =~= ps.skip(i + 1));
                assert((before + rules_view(ps[i as int].rules@)) + plugins_rules(
                    ps.skip(i + 1),
                ) =~= before + (rules_view(ps[i as int].rules@) + plugins_rules(
                    ps.skip(i + 1),
                )));
            }
            i = i + 1;
        }
        proof {
            assert(ps.skip(ps.len() as int) =~= Seq::<Plugin>::empty());
            assert(plugins_rules(Seq::<Plugin>::empty()) == Seq::<RuleView>::empty());
            assert(rules_view(merged@) + Seq::<RuleView>::empty() =~= rules_view(merged@));
            assert(rules_view(merged@) == self.merged_rules());
        }
        let holder = RuleSet { rules: merged };
        let sorted = holder.iter_sorted();
        let n2 = match format_node(&sorted, &n1, 0, self.config.formatting.line_length) {
            Ok(m) => m,
            Err(e) => {
                return Err(e);
            },
        };
        let n3 = match run_after_hooks(&self.registry.plugins, n2) {
            Ok(m) => m,
            Err(e) => {
                return Err(e);
            },
        };
        Ok(n3)
    }
}

} // verus!
