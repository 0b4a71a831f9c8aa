use mole::parse::{parse, parse_key, parse_value_boolean, parse_value_list, parse_value_string};
use mole::parse::{Config, ParseError};

#[test]
fn parse_key_test() {
    let line = "hello: world";
    let (key, rest) = parse_key(line, "test.txt", line, 1).unwrap();
    assert_eq!(key, "hello");
    assert_eq!(rest, " world");
}

#[test]
fn parse_key_no_semicolon() {
    let line = "hello  world";
    let err = parse_key(line, "test.txt", line, 1).err();
    match err {
        Some(ParseError::InvalidKey(config)) => assert!(
            config.contains("no semicolon found"),
            "expected 'no semicolon found' in {}",
            config
        ),
        _ => assert!(false, "expected error"),
    }
}

#[test]
fn parse_value_list_multi_spaced() {
    let line = "a, b, c, d";
    let list = parse_value_list(line, "test.txt", line, 1).unwrap();
    assert_eq!(vec!["a", "b", "c", "d"], list);
}

#[test]
fn parse_value_list_single() {
    let line = "a";
    let list = parse_value_list(line, "test.txt", line, 1).unwrap();
    assert_eq!(vec!["a"], list);
}

#[test]
fn parse_value_list_double_no_spaced() {
    let line = "a, b";
    let list = parse_value_list(line, "test.txt", line, 1).unwrap();
    assert_eq!(vec!["a", "b"], list);
}

#[test]
fn parse_value_list_square_brackets() {
    let line = "[a, b]";
    let list = parse_value_list(line, "test.txt", line, 1).unwrap();
    assert_eq!(vec!["a", "b"], list);
}

#[test]
fn parse_value_list_sauare_brackets_err() {
    let line = "[a, b";
    let err = parse_value_list(line, "test.txt", line, 1).err();
    match err {
        Some(ParseError::InvalidValue(config)) => assert!(
            config.contains("found opening square bracket for list but no opening bracket"),
            "found opening square bracket for list but no opening bracket' in {}",
            config
        ),
        _ => assert!(false, "expected error"),
    }
}

#[test]
fn parse_value_list_single_quote() {
    let line = "',a', 'b'";
    let list = parse_value_list(line, "test.txt", line, 1).unwrap();
    assert_eq!(vec!["',a'", "'b'"], list);
}

#[test]
fn parse_value_list_double_quote() {
    let line = "\",a\", \"b\"";
    let list = parse_value_list(line, "test.txt", line, 1).unwrap();
    assert_eq!(vec!["\",a\"", "\"b\""], list);
}

#[test]
fn parse_value_list_err() {
    let line = "a, b,";
    let err = parse_value_list(line, "test.txt", line, 1).err();
    match err {
        Some(ParseError::InvalidValue(config)) => assert!(
            config.contains("value expected after semi-colon"),
            "expected 'value expected after semi-colon' in {}",
            config
        ),
        _ => assert!(false, "expected error"),
    }
}

#[test]
fn parse_value_string_trims_and_rejects_delimiter() {
    let line = "layout:  page  ";
    assert_eq!("page", parse_value_string("  page  ", "t.md", line, 2).unwrap());
    match parse_value_string("---", "t.md", "layout:---", 2) {
        Err(ParseError::InvalidValue(m)) => assert!(m.contains(
            "found '---' can't use configuration start and end identifier as a value"
        )),
        _ => assert!(false, "expected error"),
    }
    match parse_value_string("   ", "t.md", "layout:   ", 2) {
        Err(ParseError::EmptyValue(m)) => assert!(m.contains("empty value")),
        _ => assert!(false, "expected error"),
    }
}

#[test]
fn parse_value_boolean_strict() {
    let line = "visible:true";
    assert_eq!(true, parse_value_boolean("true", "t.md", line, 2).unwrap());
    assert_eq!(false, parse_value_boolean("false", "t.md", line, 2).unwrap());
    match parse_value_boolean("maybe", "t.md", "visible:maybe", 2) {
        Err(ParseError::InvalidValue(_)) => (),
        _ => assert!(false, "expected error"),
    }
}

#[test]
fn parse_reads_all_fields() {
    let text = "---\nlayout:page\ntitle:cats\ndescription:about cats\npermalink:cats.html\ncategories:[a, b]\ntags:x, y\nvisible:true\n---\nbody";
    let (config, body) = parse(text, "t.md").unwrap();
    assert_eq!("page", config.layout);
    assert_eq!("default", config.base_layout);
    assert_eq!("cats", config.title);
    assert_eq!("about cats", config.description);
    assert_eq!("cats.html", config.permalink);
    assert_eq!(vec!["a", "b"], config.categories);
    assert_eq!(vec!["x", "y"], config.tags);
    assert_eq!(true, config.visible);
    assert_eq!("body\n", body);
}

#[test]
fn parse_empty_input_reports_empty_config() {
    match parse("", "t.md") {
        Err(ParseError::InvalidConfig(m)) => assert!(
            m.contains("empty config, no key value pairs found"),
            "unexpected message {}",
            m
        ),
        _ => assert!(false, "expected error"),
    }
}

#[test]
fn parse_lone_delimiter_reports_empty_config() {
    match parse("---", "t.md") {
        Err(ParseError::InvalidConfig(m)) => assert!(
            m.contains("empty config, no key value pairs found"),
            "unexpected message {}",
            m
        ),
        _ => assert!(false, "expected error"),
    }
}

#[test]
fn parse_unclosed_header_reports_missing_delimiter() {
    match parse("---\nlayout:page", "t.md") {
        Err(ParseError::InvalidConfig(m)) => {
            assert!(m.contains("no closing delimiter found"), "unexpected message {}", m)
        }
        _ => assert!(false, "expected error"),
    }
}

#[test]
fn parse_missing_title_reported_after_delimiter_check() {
    match parse("---\nlayout:page\n---", "t.md") {
        Err(ParseError::InvalidConfig(m)) => {
            assert!(m.contains("missing configuration 'title' field"), "unexpected message {}", m)
        }
        _ => assert!(false, "expected error"),
    }
    match parse("---\ntitle:cats\n---", "t.md") {
        Err(ParseError::InvalidConfig(m)) => assert!(
            m.contains("missing configuration 'layout' field"),
            "unexpected message {}",
            m
        ),
        _ => assert!(false, "expected error"),
    }
}

#[test]
fn parse_unknown_key_reported() {
    match parse("---\ncolour:blue\n---", "t.md") {
        Err(ParseError::InvalidKey(m)) => {
            assert!(m.contains("unknown key"), "unexpected message {}", m)
        }
        _ => assert!(false, "expected error"),
    }
}

#[test]
fn parse_empty_header_line_reports_missing_key() {
    match parse("---\n\n---", "t.md") {
        Err(ParseError::EmptyValue(m)) => {
            assert!(m.contains("expected name of key"), "unexpected message {}", m)
        }
        _ => assert!(false, "expected error"),
    }
}

#[test]
fn error_message_exact_shape() {
    let m = mole::parse::parse_error_message("msg", "p.md", "line text", 2, 4, 7);
    assert_eq!("\n   --> p.md 7:2\n   |\n 7 | line text\n   |   ^^\n   |\n  msg", m);
}

#[test]
fn error_message_wide_gutter() {
    let m = mole::parse::parse_error_message("m", "p.md", "x", 0, 1, 120);
    assert_eq!("\n    --> p.md 120:0\n    |\n120 | x\n    | ^\n    |\n   m", m);
}

#[test]
fn default_config_has_default_base_layout() {
    let c = Config::default();
    assert_eq!("", c.layout);
    assert_eq!("default", c.base_layout);
    assert_eq!("", c.title);
    assert_eq!(false, c.visible);
    assert!(c.tags.is_empty() && c.categories.is_empty());
}
