use logical_expression_parser::parser::{parse, Grammar, ParserError, Rule, SyntaxError};

fn syntax_error(input: &str) -> SyntaxError {
    match parse(input) {
        Err(ParserError::SyntaxError(error)) => error,
        other => panic!("no syntax error for {:?}: {:?}", input, other.map(|_| ())),
    }
}

const OPERATORS: [Rule; 6] = [
    Rule::and_operator,
    Rule::nand_operator,
    Rule::xor_operator,
    Rule::xnor_operator,
    Rule::or_operator,
    Rule::nor_operator,
];

fn operators_and(last: Rule) -> Vec<Rule> {
    let mut rules = OPERATORS.to_vec();
    rules.push(last);
    rules
}

fn operand() -> Vec<Rule> {
    vec![Rule::not_operator, Rule::identifier, Rule::left_parenthesis]
}

#[test]
fn empty_input_is_its_own_error() {
    assert_eq!(parse("").unwrap_err(), ParserError::EmptyInputError);
}

#[test]
fn blank_input_is_a_syntax_error() {
    let error = syntax_error("  \n\t");
    assert_eq!(error.position, 4);
    assert_eq!(error.line, 1);
    assert_eq!(error.column, 1);
    assert_eq!(error.expected, operand());
}

#[test]
fn rejects_name_of_several_characters() {
    let error = syntax_error("A OR B1");
    assert_eq!(error.position, 5);
    assert_eq!((error.line, error.column), (0, 5));
    assert_eq!(error.expected, operand());
    assert!(parse("VAR").is_err());
    assert!(parse("Ab").is_err());
    assert!(parse("A1").is_err());
    assert!(parse("AB").is_err());
}

#[test]
fn rejects_unclosed_parenthesis() {
    let error = syntax_error("!A OR (B OR !C");
    assert_eq!(error.position, 14);
    assert_eq!(error.expected, operators_and(Rule::right_parenthesis));
    let error = syntax_error("(A");
    assert_eq!(error.position, 2);
    assert_eq!(error.expected, operators_and(Rule::right_parenthesis));
    let error = syntax_error("A)");
    assert_eq!(error.position, 1);
    assert_eq!(error.expected, operators_and(Rule::EOI));
    assert!(parse("()").is_err());
}

#[test]
fn rejects_mixed_case_operator() {
    let error = syntax_error("A And B");
    assert_eq!(error.position, 2);
    assert_eq!(error.expected, operators_and(Rule::EOI));
    for text in ["A Or B", "A oR B", "Not A", "A XoR B", "A nAnd B"] {
        assert!(parse(text).is_err(), "{}", text);
    }
}

#[test]
fn rejects_operator_without_operand() {
    let error = syntax_error("A AND");
    assert_eq!(error.position, 5);
    assert_eq!(error.expected, operand());
    let error = syntax_error("A AND  \n");
    assert_eq!(error.position, 7);
    assert_eq!(error.expected, operand());
    let error = syntax_error("AND A");
    assert_eq!(error.position, 0);
    assert_eq!(error.expected, operand());
    let error = syntax_error("A | | B");
    assert_eq!(error.position, 4);
    assert_eq!(error.expected, operand());
    let error = syntax_error("(A OR ) & B");
    assert_eq!(error.position, 6);
    assert_eq!(error.expected, operand());
    let error = syntax_error("!");
    assert_eq!(error.position, 1);
    assert_eq!(error.expected, operand());
}

#[test]
fn rejects_unknown_token() {
    let error = syntax_error("A % B");
    assert_eq!(error.position, 2);
    assert_eq!(error.expected, operators_and(Rule::EOI));
    let error = syntax_error("A OR \u{e9}");
    assert_eq!(error.position, 5);
    assert_eq!(error.expected, operand());
    assert!(parse("A || B").is_err());
    assert!(parse("1").is_err());
    assert!(parse("a").is_err());
}

#[test]
fn rejects_two_expressions_on_one_line() {
    let error = syntax_error("A B");
    assert_eq!(error.position, 2);
    assert_eq!(error.expected, operators_and(Rule::EOI));
    assert!(parse("A\nB").is_ok());
}

#[test]
fn reports_line_and_column() {
    let error = syntax_error("A & B\nC |\n");
    assert_eq!(error.position, 9);
    assert_eq!((error.line, error.column), (1, 3));
    let error = syntax_error("A\n\nB\n$");
    assert_eq!(error.position, 5);
    assert_eq!((error.line, error.column), (3, 0));
    let error = syntax_error("A & B\r\n  C $");
    assert_eq!(error.position, 11);
    assert_eq!((error.line, error.column), (1, 4));
    let error = syntax_error("\u{e9}");
    assert_eq!(error.position, 0);
    assert_eq!((error.line, error.column), (0, 0));
}

#[test]
fn rule_errors_name_the_token() {
    let error = Grammar::parse(Rule::and_operator, "or").unwrap_err();
    assert_eq!(error.position, 0);
    assert_eq!(error.expected, vec![Rule::and_operator]);
    let error = Grammar::parse(Rule::EOI, "A").unwrap_err();
    assert_eq!(error.expected, vec![Rule::EOI]);
    assert!(Grammar::parse(Rule::EOI, "").is_ok());
    let error = Grammar::parse(Rule::term, "(A B)").unwrap_err();
    assert_eq!(error.position, 3);
    assert_eq!(error.expected, operators_and(Rule::right_parenthesis));
}

#[test]
fn rules_match_a_prefix() {
    let pair = Grammar::parse(Rule::expression, "A OR B) C")
        .unwrap()
        .next()
        .unwrap();
    assert_eq!(pair.as_str(), "A OR B");
    assert_eq!((pair.start(), pair.end()), (0, 6));
    let pair = Grammar::parse(Rule::expression, "A OR").unwrap().next().unwrap();
    assert_eq!(pair.as_str(), "A");
    let pair = Grammar::parse(Rule::term, "A   ").unwrap().next().unwrap();
    assert_eq!(pair.as_str(), "A");
    assert!(Grammar::parse(Rule::term, " A").is_err());
    let pair = Grammar::parse(Rule::not_operator, "NOTA").unwrap().next().unwrap();
    assert_eq!(pair.as_str(), "NOT");
}

#[test]
fn whitespace_is_insignificant() {
    for text in [
        "A&B",
        "  A  &  B  ",
        "\tA\t&\tB\t",
        "\n\nA & B\n\n",
        " \r\n A & B \r\n ",
        "(A)&(B)",
        "( A ) & ( B )",
        "AANDB",
    ] {
        let ok = parse(text).is_ok();
        assert_eq!(ok, text != "AANDB", "{:?}", text);
    }
}

#[test]
fn file_holds_expressions_and_end() {
    let input = "A\n!B | C\n\n(D)";
    let file = parse(input).unwrap().next().unwrap();
    assert_eq!(file.as_rule(), Rule::file);
    assert_eq!(file.as_str(), input);
    let mut parts = file.into_inner();
    assert_eq!(parts.len(), 4);
    assert_eq!(parts.as_str(), input);
    let first = parts.next().unwrap();
    assert_eq!((first.as_rule(), first.as_str()), (Rule::expression, "A"));
    let second = parts.next().unwrap();
    assert_eq!((second.as_rule(), second.as_str()), (Rule::expression, "!B | C"));
    assert_eq!((second.start(), second.end()), (2, 8));
    let third = parts.next().unwrap();
    assert_eq!((third.as_rule(), third.as_str()), (Rule::expression, "(D)"));
    let end = parts.next().unwrap();
    assert_eq!((end.as_rule(), end.as_str()), (Rule::EOI, ""));
    assert!(parts.next().is_none());
    assert_eq!(parts.as_str(), "");
}

#[test]
fn parse_tree_follows_the_layers() {
    let pair = Grammar::parse(Rule::expression, "!A & (B | C)")
        .unwrap()
        .next()
        .unwrap();
    let mut xor = pair.into_inner();
    assert_eq!(xor.len(), 1);
    let xor_clause = xor.next().unwrap();
    assert_eq!(xor_clause.as_rule(), Rule::xor_clause);
    let and_clause = xor_clause.into_inner().next().unwrap();
    assert_eq!(and_clause.as_rule(), Rule::and_clause);
    let mut parts = and_clause.into_inner();
    let left = parts.next().unwrap();
    let sign = parts.next().unwrap();
    let right = parts.next().unwrap();
    assert!(parts.next().is_none());
    assert_eq!((left.as_rule(), left.as_str()), (Rule::term, "!A"));
    assert_eq!((sign.as_rule(), sign.as_str()), (Rule::and_operator, "&"));
    assert_eq!((right.as_rule(), right.as_str()), (Rule::term, "(B | C)"));
    let mut inner = left.into_inner();
    let not = inner.next().unwrap();
    let name = inner.next().unwrap();
    assert_eq!((not.as_rule(), not.as_str()), (Rule::not_operator, "!"));
    assert_eq!((name.as_rule(), name.as_str()), (Rule::identifier, "A"));
    assert_eq!(name.first_char(), 'A');
    let mut inner = right.clone().into_inner();
    let rules: Vec<Rule> = std::iter::from_fn(|| inner.next())
        .map(|p| p.as_rule())
        .collect();
    assert_eq!(
        rules,
        vec![
            Rule::left_parenthesis,
            Rule::expression,
            Rule::right_parenthesis
        ]
    );
    assert_eq!(right.parts().len(), 3);
}

#[test]
fn clones_hold_the_same_nodes() {
    let pairs = parse("A & !B\nC").unwrap();
    let mut copy = pairs.clone();
    let mut pairs = pairs;
    let file = pairs.next().unwrap();
    let same = copy.next().unwrap();
    assert!(pairs.next().is_none());
    assert!(copy.next().is_none());
    assert_eq!(file.as_str(), same.as_str());
    let twin = file.clone();
    let mut left = file.into_inner();
    let mut right = twin.into_inner();
    assert_eq!(left.len(), 3);
    while let Some(pair) = left.next() {
        let other = right.next().unwrap();
        assert_eq!(pair.as_rule(), other.as_rule());
        assert_eq!(pair.as_str(), other.as_str());
        assert_eq!((pair.start(), pair.end()), (other.start(), other.end()));
        assert_eq!(pair.parts().len(), other.parts().len());
    }
    assert!(right.next().is_none());
}

#[test]
fn text_beyond_ascii_is_counted_in_characters() {
    let error = syntax_error("A & B\n\u{1F600} C");
    assert_eq!(error.position, 6);
    assert_eq!((error.line, error.column), (1, 0));
}
