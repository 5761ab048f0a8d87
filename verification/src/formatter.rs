//! The formatter facade and the full pipeline: input guard, cache
//! lookup, parse-if-needed, one engine pass, serialization, cache
//! store. Every stage is fail-fast; the caller receives one terminal
//! error and never partial output.

use vstd::prelude::*;
use vstd::string::StringSliceAdditionalSpecFns;
use crate::ast::{Node, NodeView, node_view};
use crate::cache::{
    FormatCache, calculate_file_hash, calculate_config_hash, file_hash_spec, config_hash_spec,
};
use crate::config::Config;
use crate::emitter::{Emitter, emit_spec};
use crate::engine::{FormatterEngine, engine_format_spec, error_matches};
use crate::error::RfmtError;
use crate::parser::RubyParser;
use crate::plugin::Plugin;
use crate::policy::SecurityPolicy;
use crate::policy::validation::{size_admitted, is_size_rejection};
use crate::rules::config_rules;

verus! {

/// The formatter: one engine handle with its own rule collection and
/// extension registry; no ambient global state.
pub struct Formatter {
    pub engine: FormatterEngine,
}

impl Formatter {
    /// A formatter whose rules are the ones `config` calls for.
    pub fn new(config: Config) -> (r: Self)
        ensures
            r.engine.config == config,
            r.engine.rule_set.spec_rules() == config_rules(config),
            r.engine.registry.plugins@ == Seq::<Plugin>::empty(),
    {
        Formatter { engine: FormatterEngine::new(config) }
    }

    /// One whole formatting operation on a tree.
    pub fn format(&self, ast: Node) -> (r: Result<Node, RfmtError>)
        ensures
            match r {
                Ok(m) => engine_format_spec(self.engine.merged_rules(),
                    self.engine.registry.plugins@, node_view(ast)) == Ok::<
                    NodeView,
                    crate::engine::FmtFailure,
                >(node_view(m)),
                Err(e) => engine_format_spec(self.engine.merged_rules(),
                    self.engine.registry.plugins@, node_view(ast)) matches Err(f)
                    && error_matches(e, f),
            },
    {
        self.engine.format(ast)
    }

    /// Registers one more extension with the engine, before any
    /// formatting call.
    pub fn register_plugin(&mut self, plugin: Plugin)
        ensures
            final(self).engine.registry.plugins@ == old(self).engine.registry.plugins@.push(
                plugin,
            ),
            final(self).engine.config == old(self).engine.config,
            final(self).engine.rule_set.spec_rules() == old(self).engine.rule_set.spec_rules(),
    {
        self.engine.register_plugin(plugin);
    }
}

impl Default for Formatter {
    fn default() -> (r: Self)
        ensures
            r.engine.registry.plugins@ == Seq::<Plugin>::empty(),
            r.engine.config.formatting.line_length == 100,
    {
        Formatter::new(Config::default())
    }
}

/// Fresh output: some tree, formatted under the formatter's merged
/// rules and hooks and serialized under its configuration, reads `t`.
pub open spec fn fresh_output(f: Formatter, t: Seq<char>) -> bool {
    exists|nv: NodeView|
        match #[trigger] engine_format_spec(
            f.engine.merged_rules(),
            f.engine.registry.plugins@,
            nv,
        ) {
            Ok(m) => t == emit_spec(m, f.engine.config),
            Err(_) => false,
        }
}

/// The full pipeline: guard, cache lookup, parse-if-needed,
/// format-if-needed, serialize, cache store. A cold cache and a warm
/// one produce the same stored association: whatever text comes back is
/// exactly what the cache then holds under this source and
/// configuration fingerprint.
pub fn format_source<P: RubyParser>(
    parser: &P,
    policy: &SecurityPolicy,
    formatter: &Formatter,
    cache: &mut FormatCache,
    source: &String,
) -> (r: Result<String, RfmtError>)
    ensures
        !size_admitted(vstd::utf8::encode_utf8(source@).len(), policy.max_file_size as nat) ==> (r matches
            Err(e) && is_size_rejection(
            e,
            vstd::utf8::encode_utf8(source@).len(),
            policy.max_file_size as nat,
        )),
        size_admitted(vstd::utf8::encode_utf8(source@).len(), policy.max_file_size as nat) && old(
            cache,
        ).text_model().dom().contains(
            (
                file_hash_spec(vstd::utf8::encode_utf8(source@)),
                config_hash_spec(formatter.engine.config),
            ),
        ) ==> (r matches Ok(t) && t@ == old(cache).text_model()[
            (
                file_hash_spec(vstd::utf8::encode_utf8(source@)),
                config_hash_spec(formatter.engine.config),
            )
        ]),
        r matches Ok(t) ==> final(cache).text_model().contains_pair(
            (
                file_hash_spec(vstd::utf8::encode_utf8(source@)),
                config_hash_spec(formatter.engine.config),
            ),
            t@,
        ),
        r matches Ok(t) ==> (t@ == old(cache).text_model()[
            (
                file_hash_spec(vstd::utf8::encode_utf8(source@)),
                config_hash_spec(formatter.engine.config),
            )
        ] || fresh_output(*formatter, t@)),
{
    match policy.validate_source_size(source.as_str()) {
        Ok(_) => {},
        Err(e) => {
            return Err(e);
        },
    }
    let file_hash = calculate_file_hash(source.as_str());
    let config_hash = calculate_config_hash(&formatter.engine.config);
    match cache.get_formatted(file_hash, config_hash) {
        Some(t) => {
            return Ok(t);
        },
        None => {},
    }
    let tree = match cache.get_ast(file_hash) {
        Some(t) => t,
        None => {
            let parsed = match parser.parse(source.as_str()) {
                Ok(t) => t,
                Err(e) => {
                    return Err(e);
                },
            };
            cache.put_ast(file_hash, parsed.clone());
            parsed
        },
    };
    let ghost tree_v = node_view(tree);
    let formatted = match formatter.format(tree) {
        Ok(m) => m,
        Err(e) => {
            return Err(e);
        },
    };
    let emitter = Emitter::new(formatter.engine.config.clone());
    let text = match emitter.emit(&formatted) {
        Ok(s) => s,
        Err(e) => {
            return Err(e);
        },
    };
    proof {
        assert(emit_spec(node_view(formatted), emitter.config) == emit_spec(
            node_view(formatted),
            formatter.engine.config,
        ));
        assert(match engine_format_spec(
            formatter.engine.merged_rules(),
            formatter.engine.registry.plugins@,
            tree_v,
        ) {
            Ok(m) => text@ == emit_spec(m, formatter.engine.config),
            Err(_) => false,
        });
        assert(fresh_output(*formatter, text@));
    }
    cache.put_formatted(file_hash, config_hash, text.clone());
    Ok(text)
}

} // verus!
