use rfmt::ast::{Node, NodeType};
use rfmt::cache::FormatCache;
use rfmt::config::Config;
use rfmt::error::RfmtError;
use rfmt::formatter::{Formatter, format_source};
use rfmt::parser::RubyParser;
use rfmt::policy::SecurityPolicy;

struct FixedParser {
    calls: std::sync::atomic::AtomicU32,
}

impl FixedParser {
    fn new() -> Self {
        FixedParser { calls: std::sync::atomic::AtomicU32::new(0) }
    }

    fn call_count(&self) -> u32 {
        self.calls.load(std::sync::atomic::Ordering::SeqCst)
    }
}

impl RubyParser for FixedParser {
    fn parse(&self, _source: &str) -> Result<Node, RfmtError> {
        self.calls.fetch_add(1, std::sync::atomic::Ordering::SeqCst);
        Ok(Node {
            node_type: NodeType::ProgramNode,
            text: "# doc".to_string(),
            line: 1,
            column: 0,
            children: vec![
                Node {
                    node_type: NodeType::OtherNode,
                    text: ":a => 1".to_string(),
                    line: 2,
                    column: 0,
                    children: Vec::new(),
                },
                Node {
                    node_type: NodeType::StringNode,
                    text: "'greeting'".to_string(),
                    line: 3,
                    column: 0,
                    children: Vec::new(),
                },
            ],
        })
    }

    fn name(&self) -> &'static str {
        "fixed"
    }
}

struct FailingParser;

impl RubyParser for FailingParser {
    fn parse(&self, _source: &str) -> Result<Node, RfmtError> {
        Err(RfmtError::ParseError { message: "unexpected token".to_string() })
    }

    fn name(&self) -> &'static str {
        "failing"
    }
}

#[test]
fn test_pipeline_formats_and_caches() {
    let parser = FixedParser::new();
    let policy = SecurityPolicy::default();
    let formatter = Formatter::new(Config::default());
    let mut cache = FormatCache::new(8);
    let source = ":a => 1\n'greeting'\n".to_string();
    let out = format_source(&parser, &policy, &formatter, &mut cache, &source).unwrap();
    assert_eq!(out, "# doc\na: 1\n\"greeting\"\n");
    assert_eq!(parser.call_count(), 1);
}

#[test]
fn test_pipeline_cold_and_warm_agree() {
    let parser = FixedParser::new();
    let policy = SecurityPolicy::default();
    let formatter = Formatter::new(Config::default());
    let mut cache = FormatCache::new(8);
    let source = ":a => 1\n'greeting'\n".to_string();
    let cold = format_source(&parser, &policy, &formatter, &mut cache, &source).unwrap();
    let warm = format_source(&parser, &policy, &formatter, &mut cache, &source).unwrap();
    assert_eq!(cold, warm);
    // The warm call was served from the cache: the parser ran once.
    assert_eq!(parser.call_count(), 1);
    // A fresh cache still produces the identical text.
    let mut fresh = FormatCache::new(8);
    let again = format_source(&parser, &policy, &formatter, &mut fresh, &source).unwrap();
    assert_eq!(cold, again);
}

#[test]
fn test_pipeline_distinguishes_configurations() {
    let parser = FixedParser::new();
    let policy = SecurityPolicy::default();
    let mut cache = FormatCache::new(8);
    let source = ":a => 1\n'greeting'\n".to_string();
    let modern = Formatter::new(Config::default());
    let first = format_source(&parser, &policy, &modern, &mut cache, &source).unwrap();
    let mut legacy_config = Config::default();
    legacy_config.formatting.style.hash_syntax = rfmt::config::HashSyntax::HashRockets;
    legacy_config.formatting.quote_style = rfmt::config::QuoteStyle::Consistent;
    let legacy = Formatter::new(legacy_config);
    let second = format_source(&parser, &policy, &legacy, &mut cache, &source).unwrap();
    assert_ne!(first, second);
    assert_eq!(second, "# doc\n:a => 1\n'greeting'\n");
}

#[test]
fn test_pipeline_rejects_oversized_source() {
    let parser = FixedParser::new();
    let policy = SecurityPolicy { max_file_size: 16 };
    let formatter = Formatter::new(Config::default());
    let mut cache = FormatCache::new(8);
    let source = "x".repeat(17);
    match format_source(&parser, &policy, &formatter, &mut cache, &source) {
        Err(RfmtError::UnsupportedFeature { explanation, .. }) => {
            assert!(explanation.contains("17 bytes"));
            assert!(explanation.contains("16 bytes"));
        }
        _ => panic!("expected an UnsupportedFeature error"),
    }
    assert_eq!(parser.call_count(), 0);
}

#[test]
fn test_pipeline_surfaces_parse_errors() {
    let policy = SecurityPolicy::default();
    let formatter = Formatter::new(Config::default());
    let mut cache = FormatCache::new(8);
    let source = "%!garbled".to_string();
    match format_source(&FailingParser, &policy, &formatter, &mut cache, &source) {
        Err(RfmtError::ParseError { message }) => assert_eq!(message, "unexpected token"),
        _ => panic!("expected a ParseError"),
    }
}

#[test]
fn test_error_describe_reports_the_message() {
    let e = RfmtError::ParseError { message: "unexpected token".to_string() };
    assert_eq!(e.describe(), "unexpected token");
    let g = RfmtError::RuleError { rule: "no_floats".to_string() };
    assert_eq!(g.describe(), "no_floats");
}
