use logical_expression_parser::parser::{Grammar, Rule};

#[test]
fn test_identifier_valid() {
    let pairs = Grammar::parse(Rule::identifier, "A").unwrap();
    assert_eq!(pairs.as_str(), "A");
}

#[test]
fn test_identifier_invalid_lowercase() {
    let pairs = Grammar::parse(Rule::identifier, "a");
    assert!(pairs.is_err());
}

#[test]
fn test_identifier_only_single_character() {
    let pairs = Grammar::parse(Rule::identifier, "VAR");
    assert!(pairs.is_err());
}
