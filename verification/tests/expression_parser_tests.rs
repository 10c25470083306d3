use logical_expression_parser::parser::{Grammar, Rule};

fn valid(rule: Rule, data: &[&str]) {
    for some in data {
        let pair = Grammar::parse(rule, some).unwrap().next().unwrap();
        assert_eq!(pair.as_rule(), rule);
        assert_eq!(pair.as_str(), some.to_string());
    }
}

fn invalid(rule: Rule, data: &[&str]) {
    for some in data {
        let pair = Grammar::parse(rule, some);
        assert!(pair.is_err());
    }
}

#[test]
fn test_term_valid() {
    valid(
        Rule::term,
        &["A", "B", "!A", "NOT A", "not A", "!!A", "(A)", "!(A)"],
    )
}

#[test]
fn test_term_invalid() {
    invalid(Rule::term, &["", "1", "a", "*"])
}

#[test]
fn test_xor_clause_valid() {
    valid(
        Rule::xor_clause,
        &["A", "A XOR B", "A XOR !B", "A XNOR B", "A XOR !(A XNOR B)"],
    )
}

#[test]
fn test_xor_clause_invalid() {
    invalid(
        Rule::xor_clause,
        &["XOR B C", "XOR !B", "XOR !(A XNOR B)", ""],
    )
}

#[test]
fn test_and_clause_valid() {
    valid(
        Rule::and_clause,
        &["A", "A AND B", "A NAND B", "A AND B AND C", "A AND !B"],
    );
    // AND binds tighter than XOR, so the clause ends in front of the XOR.
    let pair = Grammar::parse(Rule::and_clause, "A XOR B AND C")
        .unwrap()
        .next()
        .unwrap();
    assert_eq!(pair.as_rule(), Rule::and_clause);
    assert_eq!(pair.as_str(), "A");
    let whole = Grammar::parse(Rule::xor_clause, "A XOR B AND C")
        .unwrap()
        .next()
        .unwrap();
    assert_eq!(whole.as_str(), "A XOR B AND C");
}

#[test]
fn test_and_clause_invalid() {
    invalid(
        Rule::and_clause,
        &["AND A B", "AND B", "AND C", "AND !B", ""],
    )
}

#[test]
fn test_expression_valid() {
    valid(
        Rule::expression,
        &[
            "A",
            "B",
            "!A",
            "A OR B",
            "A OR !!!(B XOR H AND F)",
            "A NOR B AND C",
            "A XOR F AND !B",
        ],
    )
}

#[test]
fn test_expression_invalid() {
    invalid(Rule::expression, &["OR A B", "OR", "NOR", "NOR A B", ""])
}
