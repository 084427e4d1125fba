use tokenizer::errors::Error;
use tokenizer::tokenizer::{Token, Tokenizer};
use tokenizer::StringHashMap;

fn build_tokenizer() -> Tokenizer<'static> {
    let mut hashmap = StringHashMap::new();
    hashmap.insert("number".to_string(), "[0-9]+".to_string());
    hashmap.insert("identifier".to_string(), "[a-z]+".to_string());
    hashmap.insert("snowman".to_string(), "☃".to_string());

    Tokenizer::new(
        "[ ]+",
        hashmap,
        vec!["number", "identifier", "+", "snowman"],
    )
    .unwrap()
}

#[test]
fn build_regex_positive_string() {
    let re = Tokenizer::build_regex_string("ign", &StringHashMap::new(), &vec!["abc", "def"]);

    assert_eq!(re, "^(?:(ign)|(abc)|(def))")
}

#[test]
fn build_regex_positive_hashmap() {
    let mut hashmap = StringHashMap::new();
    hashmap.insert("number".to_string(), "[0-9]+".to_string());
    hashmap.insert("identifier".to_string(), "[a-z]+".to_string());

    let re = Tokenizer::build_regex_string("ign", &hashmap, &vec!["number", "identifier"]);

    assert_eq!(re, "^(?:(ign)|([0-9]+)|([a-z]+))")
}

#[test]
fn build_regex_positive_escape() {
    let re = Tokenizer::build_regex_string("ign", &StringHashMap::new(), &vec!["*+?"]);

    assert_eq!(re, "^(?:(ign)|(\\*\\+\\?))")
}

#[test]
fn constructor_positive() {
    let t = Tokenizer::new("ign", StringHashMap::new(), vec!["*+?"]);
    assert!(t.is_ok());
}

#[test]
fn index_of_not_undefined_nonempty_captures() {
    let regex = regex::Regex::new("^(?:(ign)|([0-9]+)|([a-z]+))").unwrap();
    let captures = regex.captures("abckdf").unwrap();
    // should yield
    // 0: Some("abckdf") (the whole string matched)
    // 1: None
    // 2: None
    // 3: Some("abckdf")
    let index = Tokenizer::index_of_not_undefined(&captures, 1);
    assert_eq!(index, Some(3));
}

#[test]
fn index_of_not_undefined_middle_matches() {
    let regex = regex::Regex::new("^(?:(ign)|([0-9]+)|([a-z]+))").unwrap();
    let captures = regex.captures("1234").unwrap();
    // should yield
    // 0: Some("1234") (the whole string matched)
    // 1: None
    // 2: Some("1234")
    // 3: None
    let index = Tokenizer::index_of_not_undefined(&captures, 1);
    assert_eq!(index, Some(2));
}

#[test]
fn next_positive() {
    let tokenizer = build_tokenizer();

    assert_eq!(
        tokenizer.next("abc", 0),
        Ok(Some(Token {
            token_type: "identifier",
            value: "abc",
            start: 0,
            end: 3
        }))
    )
}

#[test]
fn next_positive_whitespace() {
    let tokenizer = build_tokenizer();

    assert_eq!(
        tokenizer.next("  abc ", 0),
        Ok(Some(Token {
            token_type: "identifier",
            value: "abc",
            start: 2,
            end: 5
        }))
    )
}

#[test]
fn next_positive_symbol() {
    let tokenizer = build_tokenizer();

    assert_eq!(
        tokenizer.next("  +abc ", 0),
        Ok(Some(Token {
            token_type: "+",
            value: "+",
            start: 2,
            end: 3
        }))
    )
}

#[test]
fn next_positive_number() {
    let tokenizer = build_tokenizer();

    assert_eq!(
        tokenizer.next(" 2 +abc ", 0),
        Ok(Some(Token {
            token_type: "number",
            value: "2",
            start: 1,
            end: 2
        }))
    )
}

#[test]
fn next_negative_unrecognized() {
    let tokenizer = build_tokenizer();

    assert_eq!(
        tokenizer.next(" * +abc ", 0),
        Err(Error::SyntaxError(
            "unexpected EOF for  * +abc  at * +abc ".to_string()
        ))
    )
}

#[test]
fn next_negative_empty() {
    let tokenizer = build_tokenizer();

    assert_eq!(tokenizer.next("", 0), Ok(None))
}

#[test]
fn next_positive_emoji() {
    let tokenizer = build_tokenizer();

    assert_eq!(
        tokenizer.next("☃", 0),
        Ok(Some(Token {
            token_type: "snowman",
            value: "☃",
            start: 0,
            end: 3, // snowman is 3 bytes long in utf-8
        }))
    )
}

#[test]
fn tokenize_positive_string_of_tokens_with_whitespace() {
    let tokenizer = build_tokenizer();

    let result = tokenizer.tokenize("  +☃1234 abdk ☃", 0).unwrap();
    let expected: Vec<Token> = vec![
        Token {
            token_type: "+",
            value: "+",
            start: 2,
            end: 3,
        },
        Token {
            token_type: "snowman",
            value: "☃",
            start: 3,
            end: 6,
        },
        Token {
            token_type: "number",
            value: "1234",
            start: 6,
            end: 10,
        },
        Token {
            token_type: "identifier",
            value: "abdk",
            start: 11,
            end: 15,
        },
        Token {
            token_type: "snowman",
            value: "☃",
            start: 16,
            end: 19,
        },
    ];
    assert_eq!(result, expected);
}

#[test]
fn tokenize_negative_empty_string() {
    let tokenizer = build_tokenizer();

    let result = tokenizer.tokenize("", 0).unwrap();
    let expected: Vec<Token> = vec![];
    assert_eq!(result, expected);
}

#[test]
fn tokenize_negative_syntax_error() {
    let tokenizer = build_tokenizer();

    let result = tokenizer.tokenize("abc !!!!", 0);
    assert_eq!(
        result,
        Err(Error::SyntaxError(
            "unexpected EOF for abc !!!! at !!!!".to_string()
        ))
    )
}
