use logical_expression_parser::parser::{parse, Rule};

#[test]
fn test_empty_input() {
    let input = "";
    let file_pair = parse(input);
    assert!(file_pair.is_err());
}

#[test]
fn test_file_valid() {
    let input = "(X NOR U) OR !(A AND B)\n";
    let result = parse(input).unwrap().clone().next().unwrap();

    assert_eq!(result.as_rule(), Rule::file);
    assert_eq!(result.as_str(), input);
}

#[test]
fn test_file_invalid() {
    let input = "(X NOR U) OR !(A B)";
    let result = parse(input);
    assert!(result.is_err());
}

#[test]
fn test_unclosed_parenthesis() {
    let input = "A OR (C XNOR B";
    let result = parse(input);
    assert!(result.is_err());
}

#[test]
fn test_invalid_identifier() {
    let input = "A OR B1";
    let result = parse(input);
    assert!(result.is_err());
}

#[test]
fn test_invalid_command() {
    let input = "A || B";
    let result = parse(input);
    assert!(result.is_err());
}

#[test]
fn test_nested_parenthesis() {
    let input = "A OR (C XNOR (!X OR B) OR C)\n";
    let result = parse(input).unwrap().next().unwrap();
    assert_eq!(result.as_str(), input);
}
