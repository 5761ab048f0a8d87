use rfmt::config::{Config, IndentStyle, QuoteStyle, default_indent_width, default_line_length};
use rfmt::error::RfmtError;
use rfmt::policy::SecurityPolicy;
use rfmt::policy::validation::validate_source_size;

#[test]
fn test_default_config() {
    let config = Config::default();
    assert_eq!(config.version, "1.0");
    assert_eq!(config.formatting.line_length, 100);
    assert_eq!(config.formatting.indent_width, 2);
    assert!(matches!(config.formatting.indent_style, IndentStyle::Spaces));
}

#[test]
fn test_documented_defaults() {
    assert_eq!(default_line_length(), 100);
    assert_eq!(default_indent_width(), 2);
    let config = Config::default();
    assert!(matches!(config.formatting.quote_style, QuoteStyle::Double));
    assert_eq!(config.parser.encoding, "UTF-8");
    assert_eq!(config.include_globs, vec!["**/*.rb", "**/*.rake"]);
    assert_eq!(
        config.exclude_globs,
        vec!["vendor/**/*", "tmp/**/*", "node_modules/**/*"]
    );
}

#[test]
fn test_validate_line_length_too_small() {
    let mut config = Config::default();
    config.formatting.line_length = 30;
    let result = config.validate();
    assert!(result.is_err());
    if let Err(RfmtError::ConfigError { message, .. }) = result {
        assert!(message.contains("line_length"));
        assert!(message.contains("40 and 500"));
    } else {
        panic!("expected a ConfigError");
    }
}

#[test]
fn test_validate_line_length_too_large() {
    let mut config = Config::default();
    config.formatting.line_length = 600;
    let result = config.validate();
    assert!(result.is_err());
}

#[test]
fn test_validate_indent_width() {
    let mut config = Config::default();
    config.formatting.indent_width = 10;
    let result = config.validate();
    assert!(result.is_err());
    if let Err(RfmtError::ConfigError { message, .. }) = result {
        assert!(message.contains("indent_width"));
    } else {
        panic!("expected a ConfigError");
    }
}

#[test]
fn test_validate_reports_every_violation() {
    let mut config = Config::default();
    config.formatting.line_length = 30;
    config.formatting.indent_width = 10;
    let result = config.validate();
    if let Err(RfmtError::ConfigError { message, .. }) = result {
        assert!(message.contains("line_length"));
        assert!(message.contains("indent_width"));
        assert_eq!(
            message,
            "line_length must be between 40 and 500, got 30; \
             indent_width must be between 1 and 8, got 10"
        );
    } else {
        panic!("expected a ConfigError");
    }
}

#[test]
fn test_validate_accepts_bounds() {
    let mut config = Config::default();
    config.formatting.line_length = 40;
    config.formatting.indent_width = 8;
    assert!(config.validate().is_ok());
    config.formatting.line_length = 500;
    config.formatting.indent_width = 1;
    assert!(config.validate().is_ok());
}

#[test]
fn test_indent_string_spaces() {
    let config = Config::default();
    assert_eq!(config.indent_string(), "  ");
}

#[test]
fn test_indent_string_tabs() {
    let mut config = Config::default();
    config.formatting.indent_style = IndentStyle::Tabs;
    assert_eq!(config.indent_string(), "\t");
}

#[test]
fn test_should_include_basic() {
    let config = Config::default();
    assert!(config.should_include("lib/foo.rb"));
    assert!(!config.should_include("vendor/gem/foo.rb"));
}

#[test]
fn test_should_include_with_exclude() {
    let mut config = Config::default();
    config.exclude_globs.push("test/**/*".to_string());
    assert!(!config.should_include("test/foo.rb"));
}

#[test]
fn test_should_include_details() {
    let config = Config::default();
    assert!(config.should_include("foo.rb"));
    assert!(config.should_include("lib/tasks/build.rake"));
    assert!(!config.should_include("lib/foo.py"));
    assert!(!config.should_include("tmp/foo.rb"));
    assert!(!config.should_include("node_modules/pkg/a.rb"));
}

#[test]
fn test_default_policy() {
    let policy = SecurityPolicy::default();
    assert_eq!(policy.max_file_size, 10 * 1024 * 1024);
}

#[test]
fn test_size_guard_rejects_oversized_source() {
    let source = "a".repeat(11 * 1024 * 1024);
    let result = validate_source_size(&source, 10 * 1024 * 1024);
    match result {
        Err(RfmtError::UnsupportedFeature { feature, explanation }) => {
            assert_eq!(feature, "Large file");
            assert_eq!(
                explanation,
                "Source code is too large (11534336 bytes, max 10485760 bytes)"
            );
        }
        _ => panic!("expected an UnsupportedFeature error"),
    }
}

#[test]
fn test_size_guard_admits_source_at_limit() {
    let source = "a".repeat(1024);
    assert!(validate_source_size(&source, 1024).is_ok());
    assert!(validate_source_size(&source, 1023).is_err());
}

#[test]
fn test_glob_single_star_stays_within_a_directory() {
    assert!(rfmt::config::glob_matches("lib/*.rb", "lib/a.rb"));
    assert!(!rfmt::config::glob_matches("lib/*.rb", "lib/sub/a.rb"));
}

#[test]
fn test_glob_question_mark_matches_one_character() {
    assert!(rfmt::config::glob_matches("lib/?.rb", "lib/a.rb"));
    assert!(!rfmt::config::glob_matches("lib/?.rb", "lib/ab.rb"));
    assert!(!rfmt::config::glob_matches("lib/?.rb", "lib//.rb"));
}

#[test]
fn test_glob_double_star_spans_directories() {
    assert!(rfmt::config::glob_matches("a/**/z", "a/b/c/z"));
    assert!(rfmt::config::glob_matches("**/*.rb", "deep/down/x.rb"));
    assert!(!rfmt::config::glob_matches("a/**/z", "a/b/c/y"));
}
