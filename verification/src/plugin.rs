//! The extension registry: an append-only, ordered list of extensions.
//! Each extension contributes rules — merged into the active rule set
//! before priority-sorting, so registration order still participates in
//! the tie-break — and two pass-bracketing hooks, run once each before
//! and after the engine's pass. A hook failure aborts the whole
//! operation like a rule failure.

use vstd::prelude::*;
use crate::ast::{NodeType, NodeView};
use crate::rules::{Rule, RuleView, rules_view};
use crate::text::{dec_digits, u64_to_string};

verus! {

/// Context handed to a plugin when it is registered.
pub struct PluginContext {}

impl PluginContext {
    pub fn new() -> (r: Self) {
        PluginContext {  }
    }
}

impl Default for PluginContext {
    fn default() -> (r: Self) {
        PluginContext::new()
    }
}

/// Version information for a plugin.
#[derive(Debug, Clone, Copy, PartialEq, Eq, Structural)]
pub struct Version {
    pub major: u32,
    pub minor: u32,
    pub patch: u32,
}

impl Version {
    pub fn new(major: u32, minor: u32, patch: u32) -> (r: Self)
        ensures
            r == (Version { major, minor, patch }),
    {
        Version { major, minor, patch }
    }

    /// The `major.minor.patch` rendering of this version.
    pub fn render(&self) -> (r: String)
        ensures
            r@ == dec_digits(self.major as nat) + "."@ + dec_digits(self.minor as nat) + "."@
                + dec_digits(self.patch as nat),
    {
        let mut s = u64_to_string(self.major as u64);
        s.append(".");
        s.append(u64_to_string(self.minor as u64).as_str());
        s.append(".");
        s.append(u64_to_string(self.patch as u64).as_str());
        s
    }
}

/// The closed set of pass-bracketing hook behaviours an extension can
/// carry. A hook may mutate the tree or abort the operation.
#[derive(Debug)]
pub enum HookAction {
    /// Leaves the tree unchanged.
    NoOp,
    /// Fails unless the tree's root is a program node.
    RequireProgramRoot,
    /// Injects a synthetic node of the given kind and text as the
    /// root's first child.
    PrependChild { kind: NodeType, text: String },
}

/// What a hook does to the tree it receives: the rewritten tree, or the
/// message of the failure that aborts the operation.
pub open spec fn hook_apply_spec(a: &HookAction, n: NodeView) -> Result<NodeView, Seq<char>> {
    match a {
        HookAction::NoOp => Ok(n),
        HookAction::RequireProgramRoot => {
            if n.kind == NodeType::ProgramNode {
                Ok(n)
            } else {
                Err("hook requires a program node at the root"@)
            }
        },
        HookAction::PrependChild { kind, text } => Ok(
            NodeView {
                kind: n.kind,
                text: n.text,
                line: n.line,
                column: n.column,
                children: seq![
                    NodeView {
                        kind: *kind,
                        text: text@,
                        line: 0,
                        column: 0,
                        children: Seq::empty(),
                    },
                ] + n.children,
            },
        ),
    }
}

/// An externally registered bundle: a name, a version, contributed
/// rules, and the two pass-bracketing hooks.
#[derive(Debug)]
pub struct Plugin {
    pub name: String,
    pub version: Version,
    pub rules: Vec<Rule>,
    pub before: HookAction,
    pub after: HookAction,
}

/// The rules contributed by a list of plugins, in registration order.
pub open spec fn plugins_rules(s: Seq<Plugin>) -> Seq<RuleView>
    decreases s.len(),
{
    if s.len() == 0 {
        Seq::empty()
    } else {
        rules_view(s[0].rules@) + plugins_rules(s.drop_first())
    }
}

/// The before-hooks of `s` folded over `n`, in registration order.
pub open spec fn before_hooks_spec(s: Seq<Plugin>, n: NodeView) -> Result<NodeView, Seq<char>>
    decreases s.len(),
{
    if s.len() == 0 {
        Ok(n)
    } else {
        match hook_apply_spec(&s[0].before, n) {
            Ok(m) => before_hooks_spec(s.drop_first(), m),
            Err(e) => Err(e),
        }
    }
}

/// The after-hooks of `s` folded over `n`, in registration order.
pub open spec fn after_hooks_spec(s: Seq<Plugin>, n: NodeView) -> Result<NodeView, Seq<char>>
    decreases s.len(),
{
    if s.len() == 0 {
        Ok(n)
    } else {
        match hook_apply_spec(&s[0].after, n) {
            Ok(m) => after_hooks_spec(s.drop_first(), m),
            Err(e) => Err(e),
        }
    }
}

/// The registry itself: append-only during a run.
pub struct PluginRegistry {
    pub plugins: Vec<Plugin>,
}

impl PluginRegistry {
    /// An empty registry.
    pub fn new() -> (r: Self)
        ensures
            r.plugins@ == Seq::<Plugin>::empty(),
    {
        let r = PluginRegistry { plugins: Vec::new() };
        proof { assert(r.plugins@ =~= Seq::<Plugin>::empty()); }
        r
    }

    /// Registers one more extension, after all earlier ones.
    pub fn register(&mut self, plugin: Plugin)
        ensures
            final(self).plugins@ == old(self).plugins@.push(plugin),
    {
        self.plugins.push(plugin);
    }

    /// The registered extensions, in registration order.
    pub fn plugins(&self) -> (r: &Vec<Plugin>)
        ensures
            r@ == self.plugins@,
    {
        &self.plugins
    }
}

impl Default for PluginRegistry {
    fn default() -> (r: Self)
        ensures
            r.plugins@ == Seq::<Plugin>::empty(),
    {
        PluginRegistry::new()
    }
}

} // verus!
