use logical_expression_parser::ast::Expression;
use logical_expression_parser::parser::{parse, Grammar, Rule};
use std::collections::HashMap;

fn id(c: char) -> Box<Expression> {
    Box::new(Expression::Identifier(c))
}

fn tree_of(input: &str) -> Expression {
    let file = parse(input).unwrap().next().unwrap();
    Expression::ast(file)
}

fn assignment(pairs: &[(char, bool)]) -> HashMap<char, bool> {
    let mut map = HashMap::new();
    for (name, value) in pairs {
        map.insert(*name, *value);
    }
    map
}

#[test]
fn identifier_names_itself_for_every_letter() {
    for x in 'A'..='Z' {
        let e = Expression::Identifier(x);
        assert_eq!(e.variables(), vec![x]);
        assert!(e.evaluate(&assignment(&[(x, true)])));
        assert!(!e.evaluate(&assignment(&[(x, false)])));
        assert!(!e.evaluate(&HashMap::new()));
    }
}

#[test]
fn unassigned_variable_counts_as_false() {
    let e = tree_of("A OR B");
    assert!(e.evaluate(&assignment(&[('A', true)])));
    assert!(!e.evaluate(&assignment(&[('C', true)])));
    let n = tree_of("!A");
    assert!(n.evaluate(&HashMap::new()));
}

#[test]
fn double_negation_collapses() {
    assert_eq!(tree_of("!!A"), tree_of("A"));
    assert_eq!(tree_of("!!A"), Expression::Identifier('A'));
    assert_eq!(tree_of("!!!A"), Expression::Not(id('A')));
    assert_eq!(tree_of("!!!!A"), Expression::Identifier('A'));
    assert_eq!(tree_of("NOT not ! A"), Expression::Not(id('A')));
    assert_eq!(tree_of("!!(A & B)"), Expression::And(id('A'), id('B')));
    assert_eq!(
        tree_of("!(A & B)"),
        Expression::Not(Box::new(Expression::And(id('A'), id('B'))))
    );
}

#[test]
fn chains_associate_to_the_left() {
    let left = Expression::And(Box::new(Expression::And(id('A'), id('B'))), id('C'));
    let right = Expression::And(id('A'), Box::new(Expression::And(id('B'), id('C'))));
    assert_eq!(tree_of("A AND B AND C"), left);
    assert_ne!(tree_of("A AND B AND C"), right);
    assert_eq!(tree_of("A AND (B AND C)"), right);
    assert_eq!(
        tree_of("A OR B NOR C"),
        Expression::Nor(Box::new(Expression::Or(id('A'), id('B'))), id('C'))
    );
    assert_eq!(
        tree_of("A XNOR B XOR C"),
        Expression::Xor(Box::new(Expression::Xnor(id('A'), id('B'))), id('C'))
    );
    assert_eq!(
        tree_of("A NAND B AND C"),
        Expression::And(Box::new(Expression::Nand(id('A'), id('B'))), id('C'))
    );
}

#[test]
fn precedence_follows_the_layers() {
    // AND binds tighter than XOR, XOR tighter than OR.
    assert_eq!(
        tree_of("A OR B XOR C AND D"),
        Expression::Or(
            id('A'),
            Box::new(Expression::Xor(
                id('B'),
                Box::new(Expression::And(id('C'), id('D')))
            ))
        )
    );
    assert_eq!(
        tree_of("A AND B XOR C OR D"),
        Expression::Or(
            Box::new(Expression::Xor(
                Box::new(Expression::And(id('A'), id('B'))),
                id('C')
            )),
            id('D')
        )
    );
    assert_eq!(
        tree_of("!A & B"),
        Expression::And(Box::new(Expression::Not(id('A'))), id('B'))
    );
}

#[test]
fn spellings_give_the_same_tree() {
    let and = Expression::And(id('A'), id('B'));
    assert_eq!(tree_of("A AND B"), and);
    assert_eq!(tree_of("A and B"), and);
    assert_eq!(tree_of("A & B"), and);
    assert_eq!(tree_of("A&B"), and);
    for (text, e) in [
        ("A NAND B", Expression::Nand(id('A'), id('B'))),
        ("A nand B", Expression::Nand(id('A'), id('B'))),
        ("A !& B", Expression::Nand(id('A'), id('B'))),
        ("A OR B", Expression::Or(id('A'), id('B'))),
        ("A or B", Expression::Or(id('A'), id('B'))),
        ("A | B", Expression::Or(id('A'), id('B'))),
        ("A NOR B", Expression::Nor(id('A'), id('B'))),
        ("A nor B", Expression::Nor(id('A'), id('B'))),
        ("A !| B", Expression::Nor(id('A'), id('B'))),
        ("A XOR B", Expression::Xor(id('A'), id('B'))),
        ("A xor B", Expression::Xor(id('A'), id('B'))),
        ("A ^ B", Expression::Xor(id('A'), id('B'))),
        ("A XNOR B", Expression::Xnor(id('A'), id('B'))),
        ("A xnor B", Expression::Xnor(id('A'), id('B'))),
        ("A !^ B", Expression::Xnor(id('A'), id('B'))),
        ("NOT A", Expression::Not(id('A'))),
        ("not A", Expression::Not(id('A'))),
        ("!A", Expression::Not(id('A'))),
    ] {
        assert_eq!(tree_of(text), e, "{}", text);
    }
}

#[test]
fn operators_have_their_truth_tables() {
    let cases = [(false, false), (false, true), (true, false), (true, true)];
    for (a, b) in cases {
        let map = assignment(&[('A', a), ('B', b)]);
        assert_eq!(Expression::And(id('A'), id('B')).evaluate(&map), a && b);
        assert_eq!(Expression::Or(id('A'), id('B')).evaluate(&map), a || b);
        assert_eq!(Expression::Xor(id('A'), id('B')).evaluate(&map), a ^ b);
        assert_eq!(Expression::Not(id('A')).evaluate(&map), !a);
    }
}

#[test]
fn negated_operators_oppose_their_twins() {
    let cases = [(false, false), (false, true), (true, false), (true, true)];
    for (a, b) in cases {
        let map = assignment(&[('A', a), ('B', b)]);
        assert_eq!(
            Expression::Nand(id('A'), id('B')).evaluate(&map),
            !Expression::And(id('A'), id('B')).evaluate(&map)
        );
        assert_eq!(
            Expression::Nor(id('A'), id('B')).evaluate(&map),
            !Expression::Or(id('A'), id('B')).evaluate(&map)
        );
        assert_eq!(
            Expression::Xnor(id('A'), id('B')).evaluate(&map),
            !Expression::Xor(id('A'), id('B')).evaluate(&map)
        );
    }
}

#[test]
fn variables_are_sorted_and_unique() {
    assert_eq!(tree_of("C & A | B ^ A & C").variables(), vec!['A', 'B', 'C']);
    assert_eq!(tree_of("Z or Y or X or Z").variables(), vec!['X', 'Y', 'Z']);
    assert_eq!(tree_of("!!Q").variables(), vec!['Q']);
    let any = Expression::Or(id('b'), Box::new(Expression::And(id('a'), id('B'))));
    assert_eq!(any.variables(), vec!['B', 'a', 'b']);
}

#[test]
fn nor_then_and_case() {
    let e = tree_of("(A NOR B) & C");
    assert_eq!(
        e,
        Expression::And(Box::new(Expression::Nor(id('A'), id('B'))), id('C'))
    );
    assert_eq!(e.variables(), vec!['A', 'B', 'C']);
    assert!(e.evaluate(&assignment(&[('A', false), ('B', false), ('C', true)])));
    assert!(!e.evaluate(&assignment(&[('A', true), ('B', false), ('C', true)])));
    assert!(!e.evaluate(&assignment(&[('A', false), ('B', false), ('C', false)])));
}

#[test]
fn file_stands_for_its_first_expression() {
    let file = parse("A & B\nC | D\n").unwrap().next().unwrap();
    assert_eq!(Expression::ast(file), Expression::And(id('A'), id('B')));
}

#[test]
fn each_expression_of_a_file_gives_a_tree() {
    let file = parse("A & B\n\n  C | D  \r\n!E").unwrap().next().unwrap();
    let mut parts = file.into_inner();
    let mut trees = Vec::new();
    while let Some(pair) = parts.next() {
        if pair.as_rule() == Rule::expression {
            trees.push(Expression::ast(pair));
        } else {
            assert_eq!(pair.as_rule(), Rule::EOI);
        }
    }
    assert_eq!(
        trees,
        vec![
            Expression::And(id('A'), id('B')),
            Expression::Or(id('C'), id('D')),
            Expression::Not(id('E')),
        ]
    );
}

#[test]
fn every_expression_rule_builds() {
    for (rule, text) in [
        (Rule::identifier, "A"),
        (Rule::term, "A"),
        (Rule::and_clause, "A"),
        (Rule::xor_clause, "A"),
        (Rule::expression, "A"),
        (Rule::file, "A"),
    ] {
        let pair = Grammar::parse(rule, text).unwrap().next().unwrap();
        assert_eq!(Expression::ast(pair), Expression::Identifier('A'));
    }
    let term = Grammar::parse(Rule::term, "!(A | B)").unwrap().next().unwrap();
    assert_eq!(
        Expression::ast(term),
        Expression::Not(Box::new(Expression::Or(id('A'), id('B'))))
    );
}
