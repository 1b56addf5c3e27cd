use std::time::Duration;

use typst_spellcheck::args::{port_in_range, Args};
use typst_spellcheck::config_file::{Config, ConfigError};
use typst_spellcheck::metadata::{compute_metadata, joined_document_text};
use typst_spellcheck::paragraph::{Fragment, Paragraph};
use typst_spellcheck::range::{Position, Range};
use typst_spellcheck::{LanguageToolConfig, SpellcheckConfig};

#[test]
fn port_in_range_accepts_valid_ports() {
    assert_eq!(port_in_range("8081"), Ok(8081));
    assert_eq!(port_in_range("1"), Ok(1));
    assert_eq!(port_in_range("65535"), Ok(65535));
    assert_eq!(port_in_range("+443"), Ok(443));
}

#[test]
fn port_in_range_rejects_non_numbers() {
    assert_eq!(port_in_range("abc"), Err("`abc` isn't a port number".to_string()));
    assert_eq!(port_in_range(""), Err("`` isn't a port number".to_string()));
    assert_eq!(port_in_range("+"), Err("`+` isn't a port number".to_string()));
    assert_eq!(port_in_range("80a"), Err("`80a` isn't a port number".to_string()));
    assert_eq!(
        port_in_range("99999999999999999999999"),
        Err("`99999999999999999999999` isn't a port number".to_string())
    );
}

#[test]
fn port_in_range_rejects_out_of_range_ports() {
    assert_eq!(port_in_range("0"), Err("port not in range 1-65535".to_string()));
    assert_eq!(port_in_range("65536"), Err("port not in range 1-65535".to_string()));
    assert_eq!(port_in_range("70000"), Err("port not in range 1-65535".to_string()));
}

fn file_config() -> Config {
    Config {
        languagetool_config: LanguageToolConfig {
            host: "http://filehost".to_string(),
            port: 1111,
            language: "de-DE".to_string(),
            disabled_rules: Some(vec!["FILE_RULE".to_string()]),
            disabled_categories: Some(vec!["FILE_CAT".to_string()]),
            picky: Some(false),
        },
        spellcheck_config: SpellcheckConfig {
            ignore_words: Some(vec!["filename".to_string()]),
        },
    }
}

#[test]
fn options_override_the_file() {
    let args = Args {
        host: Some("http://cli".to_string()),
        port: Some(8081),
        language: None,
        disabed_rules: None,
        disabed_categories: Some(vec!["CLI_CAT".to_string()]),
        ignore_words: None,
        config_file: None,
        picky: Some(true),
        file: "doc.typ".to_string(),
    };
    let config = Config::from_args_and_file(args, Some(file_config())).unwrap();
    assert_eq!(config.languagetool_config.host, "http://cli".to_string());
    assert_eq!(config.languagetool_config.port, 8081);
    assert_eq!(config.languagetool_config.language, "de-DE".to_string());
    assert_eq!(config.languagetool_config.disabled_rules, Some(vec!["FILE_RULE".to_string()]));
    assert_eq!(
        config.languagetool_config.disabled_categories,
        Some(vec!["CLI_CAT".to_string()])
    );
    assert_eq!(config.languagetool_config.picky, Some(true));
    assert_eq!(
        config.spellcheck_config.ignore_words,
        Some(vec!["filename".to_string()])
    );
}

#[test]
fn missing_file_requires_host_port_language() {
    let args = Args {
        host: Some("http://cli".to_string()),
        port: None,
        language: Some("en-US".to_string()),
        disabed_rules: None,
        disabed_categories: None,
        ignore_words: None,
        config_file: None,
        picky: None,
        file: "doc.typ".to_string(),
    };
    match Config::from_args_and_file(args, None) {
        Err(e) => assert_eq!(e, ConfigError::RequiredOptions),
        Ok(_) => panic!("host, port and language are required without a file"),
    }
}

#[test]
fn missing_file_with_all_required_options_resolves() {
    let args = Args {
        host: Some("http://cli".to_string()),
        port: Some(8081),
        language: Some("en-US".to_string()),
        disabed_rules: None,
        disabed_categories: None,
        ignore_words: None,
        config_file: None,
        picky: None,
        file: "doc.typ".to_string(),
    };
    let config = Config::from_args_and_file(args, None).unwrap();
    assert_eq!(config.languagetool_config.host, "http://cli".to_string());
    assert_eq!(config.languagetool_config.port, 8081);
    assert_eq!(config.languagetool_config.language, "en-US".to_string());
    assert_eq!(config.languagetool_config.disabled_rules, None);
    assert_eq!(config.languagetool_config.picky, None);
    assert_eq!(config.spellcheck_config.ignore_words, None);
}

#[test]
fn metadata_counts_words_over_joined_paragraphs() {
    let paragraphs = vec![
        Paragraph { nodes: vec![Fragment { text: b"one two".to_vec(), span: None }] },
        Paragraph { nodes: vec![Fragment { text: b"three".to_vec(), span: None }] },
    ];
    assert_eq!(joined_document_text(&paragraphs), b"one two three".to_vec());
    let metadata = compute_metadata(&paragraphs, Duration::from_millis(120));
    assert_eq!(metadata.word_count, 3);
    assert_eq!(metadata.paragraph_count, 2);
    assert_eq!(metadata.languagetool_request_time, Duration::from_millis(120));
}

#[test]
fn range_describe_renders_lines_and_columns() {
    let one_line = Range {
        start: Position { line: 3, column: 7 },
        end: Position { line: 3, column: 12 },
    };
    assert_eq!(one_line.describe(), "line 3, column 7-12".to_string());

    let multi_line = Range {
        start: Position { line: 3, column: 7 },
        end: Position { line: 5, column: 2 },
    };
    assert_eq!(multi_line.describe(), "lines 3-5, column 7-2".to_string());
}
