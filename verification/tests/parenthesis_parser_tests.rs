use logical_expression_parser::parser::{Grammar, Rule};

fn valid(rule: Rule, data: &[&str]) {
    for some in data {
        let pair = Grammar::parse(rule, some).unwrap().next().unwrap();
        assert_eq!(pair.as_rule(), rule);
        assert_eq!(pair.as_str(), some.to_string());
    }
}

fn invalid(rule: Rule, data: &[&str]) {
    for some in data {
        let pair = Grammar::parse(rule, some);
        assert!(pair.is_err());
    }
}

#[test]
fn test_left_parenthesis_valid() {
    valid(Rule::left_parenthesis, &["("])
}

#[test]
fn test_right_parenthesis_valid() {
    valid(Rule::right_parenthesis, &[")"])
}

#[test]
fn test_left_parenthesis_invalid() {
    invalid(Rule::left_parenthesis, &["[", "{", "a", ")"])
}

#[test]
fn test_right_parenthesis_invalid() {
    invalid(Rule::right_parenthesis, &["]", "}", "b", "("])
}
