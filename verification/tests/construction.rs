use tokenizer::errors::{configuration_error, syntax_error, Error};
use tokenizer::text::{slice, suffix};
use tokenizer::tokenizer::Tokenizer;
use tokenizer::StringHashMap;

fn failure(
    ignore: &str,
    patterns: StringHashMap<String>,
    token_types: Vec<&'static str>,
) -> Option<Error> {
    Tokenizer::new(ignore, patterns, token_types).err()
}

#[test]
fn build_regex_without_token_types() {
    let re = Tokenizer::build_regex_string("[ ]+", &StringHashMap::new(), &vec![]);
    assert_eq!(re, "^(?:([ ]+))");
}

#[test]
fn build_regex_keeps_the_order_of_the_token_types() {
    let mut patterns = StringHashMap::new();
    patterns.insert("b".to_string(), "B+".to_string());
    patterns.insert("unused".to_string(), "U".to_string());
    let re = Tokenizer::build_regex_string("\\s+", &patterns, &vec!["c", "b", "a", "b"]);
    assert_eq!(re, "^(?:(\\s+)|(c)|(B+)|(a)|(B+))");
}

#[test]
fn build_regex_escapes_every_meta_character() {
    let re = Tokenizer::build_regex_string(
        "i",
        &StringHashMap::new(),
        &vec!["\\.+*?()|[]{}^$#&-~", "a%b/c!é"],
    );
    assert_eq!(
        re,
        "^(?:(i)|(\\\\\\.\\+\\*\\?\\(\\)\\|\\[\\]\\{\\}\\^\\$\\#\\&\\-\\~)|(a%b/c!é))"
    );
}

#[test]
fn build_regex_does_not_escape_explicit_patterns() {
    let mut patterns = StringHashMap::new();
    patterns.insert("*".to_string(), "[*]".to_string());
    let re = Tokenizer::build_regex_string("i", &patterns, &vec!["*", "+"]);
    assert_eq!(re, "^(?:(i)|([*])|(\\+))");
}

#[test]
fn new_accepts_a_usable_configuration() {
    let mut patterns = StringHashMap::new();
    patterns.insert("number".to_string(), "[0-9]+".to_string());
    assert!(Tokenizer::new("[ \\t]+", patterns, vec!["number", "+"]).is_ok());
    assert!(Tokenizer::new("[ ]+", StringHashMap::new(), vec![]).is_ok());
}

#[test]
fn new_rejects_an_invalid_ignore_pattern() {
    assert_eq!(
        failure("[ ", StringHashMap::new(), vec!["a"]),
        Some(Error::ConfigurationError("invalid pattern: [ ".to_string()))
    );
}

#[test]
fn new_rejects_an_ignore_pattern_that_only_fits_the_composite() {
    assert_eq!(
        failure("a)|(?:b", StringHashMap::new(), vec!["c"]),
        Some(Error::ConfigurationError("invalid pattern: a)|(?:b".to_string()))
    );
}

#[test]
fn new_rejects_the_first_invalid_override() {
    let mut patterns = StringHashMap::new();
    patterns.insert("one".to_string(), "1+".to_string());
    patterns.insert("two".to_string(), "(2".to_string());
    patterns.insert("three".to_string(), "3)".to_string());
    assert_eq!(
        failure("[ ]+", patterns, vec!["one", "three", "two"]),
        Some(Error::ConfigurationError("invalid pattern: 3)".to_string()))
    );
}

#[test]
fn new_passes_over_an_override_that_no_token_type_uses() {
    let mut patterns = StringHashMap::new();
    patterns.insert("unused".to_string(), "(".to_string());
    assert!(Tokenizer::new("[ ]+", patterns, vec!["a"]).is_ok());
}

#[test]
fn new_rejects_an_invalid_composite() {
    let mut patterns = StringHashMap::new();
    patterns.insert("a".to_string(), "(?x)a # one letter".to_string());
    assert_eq!(
        failure("[ ]+", patterns, vec!["a", "b"]),
        Some(Error::ConfigurationError(
            "invalid pattern: ^(?:([ ]+)|((?x)a # one letter)|(b))".to_string()
        ))
    );
}

#[test]
fn new_rejects_a_composite_that_loses_a_group() {
    let mut patterns = StringHashMap::new();
    patterns.insert("a".to_string(), "(?x)a#".to_string());
    patterns.insert("b".to_string(), "\nx".to_string());
    assert!(regex::Regex::new("(?x)a#").is_ok());
    assert!(regex::Regex::new("\nx").is_ok());
    // The comment that `#` opens swallows the brackets between the two
    // patterns, up to the line break: three groups are left of four.
    let composite = regex::Regex::new("^(?:([ ]+)|((?x)a#)|(\nx))").unwrap();
    assert_eq!(composite.captures_len(), 3);
    assert_eq!(
        failure("[ ]+", patterns, vec!["a", "b"]),
        Some(Error::ConfigurationError(
            "invalid pattern: ^(?:([ ]+)|((?x)a#)|(\nx))".to_string()
        ))
    );
}

#[test]
fn new_rejects_a_configuration_that_matches_the_empty_text() {
    assert_eq!(
        failure("[ ]*", StringHashMap::new(), vec!["a"]),
        Some(Error::ConfigurationError("invalid pattern: ^(?:([ ]*)|(a))".to_string()))
    );
    let mut patterns = StringHashMap::new();
    patterns.insert("word".to_string(), "[a-z]*".to_string());
    assert_eq!(
        failure("[ ]+", patterns, vec!["word"]),
        Some(Error::ConfigurationError("invalid pattern: ^(?:([ ]+)|([a-z]*))".to_string()))
    );
    assert_eq!(
        failure("[ ]+", StringHashMap::new(), vec![""]),
        Some(Error::ConfigurationError("invalid pattern: ^(?:([ ]+)|())".to_string()))
    );
}

#[test]
fn error_messages() {
    assert_eq!(
        syntax_error("a b", "b"),
        Error::SyntaxError("unexpected EOF for a b at b".to_string())
    );
    assert_eq!(
        syntax_error("", ""),
        Error::SyntaxError("unexpected EOF for  at ".to_string())
    );
    assert_eq!(
        configuration_error("(a"),
        Error::ConfigurationError("invalid pattern: (a".to_string())
    );
}

#[test]
fn suffix_cuts_at_a_byte_offset() {
    assert_eq!(suffix("a☃b", 0), "a☃b");
    assert_eq!(suffix("a☃b", 1), "☃b");
    assert_eq!(suffix("a☃b", 4), "b");
    assert_eq!(suffix("a☃b", 5), "");
}

#[test]
fn slice_cuts_between_byte_offsets() {
    assert_eq!(slice("a☃b", 0, 5), "a☃b");
    assert_eq!(slice("a☃b", 1, 4), "☃");
    assert_eq!(slice("a☃b", 4, 5), "b");
    assert_eq!(slice("a☃b", 4, 4), "");
}
