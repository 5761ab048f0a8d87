//! The code emitter: a pure function of the tree and the formatting
//! configuration. Each node contributes one line — its indentation,
//! its token text, a newline — and the children of block-like nodes
//! are emitted one indentation unit deeper.

use vstd::prelude::*;
use crate::ast::{Node, NodeView, node_view, nodes_view, lemma_nodes_view_len};
use crate::config::{Config, indent_unit};
use crate::engine::{block_like, block_like_exec};
use crate::error::RfmtError;

verus! {

/// The text one node and its descendants emit, given the indentation
/// unit and the accumulated indentation prefix of this nesting level.
pub open spec fn emit_node_spec(n: NodeView, unit: Seq<char>, prefix: Seq<char>) -> Seq<char>
    decreases n,
{
    let deeper = if block_like(n.kind) {
        prefix + unit
    } else {
        prefix
    };
    prefix + n.text + seq!['\n'] + emit_nodes_spec(n.children, unit, deeper)
}

/// The text a sequence of sibling nodes emits, in document order.
pub open spec fn emit_nodes_spec(cs: Seq<NodeView>, unit: Seq<char>, prefix: Seq<char>) -> Seq<
    char,
>
    decreases cs,
{
    if cs.len() == 0 {
        Seq::empty()
    } else {
        emit_node_spec(cs[0], unit, prefix) + emit_nodes_spec(cs.drop_first(), unit, prefix)
    }
}

/// The text a whole tree emits under a configuration.
pub open spec fn emit_spec(n: NodeView, c: Config) -> Seq<char> {
    emit_node_spec(
        n,
        indent_unit(c.formatting.indent_style, c.formatting.indent_width as nat),
        Seq::empty(),
    )
}

/// Appends the text of one node and its descendants to `out`.
fn emit_into(node: &Node, unit: &str, prefix: &str, out: &mut String)
    ensures
        final(out)@ == old(out)@ + emit_node_spec(node_view(*node), unit@, prefix@),
    decreases *node,
{
    let ghost base = out@;
    let ghost n0 = node_view(*node);
    out.append(prefix);
    out.append(node.text.as_str());
    out.append("\n");
    proof {
        reveal_strlit("\n");
        assert("\n"@ =~= seq!['\n']);
    }
    let deeper: String = if block_like_exec(node.node_type) {
        let mut p = prefix.to_owned();
        p.append(unit);
        p
    } else {
        prefix.to_owned()
    };
    let ghost dv = deeper@;
    let ghost line = prefix@ + node.text@ + seq!['\n'];
    let ghost cs0 = node.children@;
    let ghost cvs = nodes_view(cs0);
    proof {
        lemma_nodes_view_len(cs0);
        assert(cvs == n0.children);
        assert(out@ =~= base + line);
        assert(cvs.skip(0) =~= cvs);
    }
    let mut i: usize = 0;
    while i < node.children.len()
        invariant
            i <= cs0.len(),
            cs0 == node.children@,
            cvs == nodes_view(cs0),
            n0 == node_view(*node),
            dv == deeper@,
            dv == if block_like(n0.kind) {
                prefix@ + unit@
            } else {
                prefix@
            },
            line == prefix@ + node.text@ + seq!['\n'],
            out@ + emit_nodes_spec(cvs.skip(i as int), unit@, dv) == base + line
                + emit_nodes_spec(cvs, unit@, dv),
        decreases cs0.len() - i,
    {
        let c = &node.children[i];
        proof {
            lemma_nodes_view_len(cs0);
            assert(node_view(*c) == cvs[i as int]);
            assert(cvs.skip(i as int)[0] == cvs[i as int]);
            assert(cvs.skip(i as int).drop_first() =~= cvs.skip(i + 1));
            assert(decreases_to!(*node => node.children));
            assert(decreases_to!(node.children => node.children[i as int]));
        }
        let ghost before = out@;
        emit_into(c, unit, deeper.as_str(), out);
        proof {
            assert(out@ == before + emit_node_spec(cvs[i as int], unit@, dv));
            assert((before + emit_node_spec(cvs[i as int], unit@, dv)) + emit_nodes_spec(
                cvs.skip(i + 1),
                unit@,
                dv,
            ) =~= before + (emit_node_spec(cvs[i as int], unit@, dv) + emit_nodes_spec(
                cvs.skip(i + 1),
                unit@,
                dv,
            )));
        }
        i = i + 1;
    }
    proof {
        assert(cvs.skip(cs0.len() as int) =~= Seq::<NodeView>::empty());
        assert(out@ + Seq::<char>::empty() =~= out@);
        assert(emit_node_spec(n0, unit@, prefix@) =~= line + emit_nodes_spec(cvs, unit@, dv));
        assert((base + line) + emit_nodes_spec(cvs, unit@, dv) =~= base + (line
            + emit_nodes_spec(cvs, unit@, dv)));
    }
}

/// Converts a tree back to source text, token by token.
pub struct Emitter {
    pub config: Config,
}

impl Emitter {
    pub fn new(config: Config) -> (r: Self)
        ensures
            r.config == config,
    {
        Emitter { config }
    }

    /// Emits source text from a tree: a pure function of the tree and
    /// the formatting configuration.
    pub fn emit(&self, ast: &Node) -> (r: Result<String, RfmtError>)
        ensures
            r matches Ok(s) && s@ == emit_spec(node_view(*ast), self.config),
    {
        let unit = self.config.indent_string();
        let mut out = String::new();
        emit_into(ast, unit.as_str(), "", &mut out);
        proof {
            reveal_strlit("");
            assert(""@ =~= Seq::<char>::empty());
            assert(Seq::<char>::empty() + emit_node_spec(node_view(*ast), unit@, ""@) =~= out@);
        }
        Ok(out)
    }

    pub fn config(&self) -> (r: &Config)
        ensures
            r == &self.config,
    {
        &self.config
    }
}

impl Default for Emitter {
    fn default() -> (r: Self)
        ensures
            r.config.formatting.line_length == 100,
            r.config.formatting.indent_width == 2,
    {
        Emitter::new(Config::default())
    }
}

} // verus!
