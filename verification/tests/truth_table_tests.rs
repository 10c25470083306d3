use logical_expression_parser::ast::Expression;
use logical_expression_parser::parser::parse;
use logical_expression_parser::truth_table::{TruthTable, TruthTableRow};

fn table_of(input: &str) -> TruthTable {
    let file = parse(input).unwrap().next().unwrap();
    TruthTable::from(&Expression::ast(file))
}

fn row(values: &[bool], result: bool) -> TruthTableRow {
    TruthTableRow {
        values: values.to_vec(),
        result,
    }
}

#[test]
fn table_has_two_to_the_n_rows() {
    assert_eq!(table_of("A").rows.len(), 2);
    assert_eq!(table_of("A | B").rows.len(), 4);
    assert_eq!(table_of("A | B & C").rows.len(), 8);
    assert_eq!(table_of("A | B & C ^ A").rows.len(), 8);
    assert_eq!(table_of("A | B | C | D | E | F | G | H | I | J").rows.len(), 1024);
}

#[test]
fn rows_follow_the_bits_of_their_number() {
    let table = table_of("A OR B");
    assert_eq!(table.variables, vec!['A', 'B']);
    assert_eq!(
        table.rows,
        vec![
            row(&[false, false], false),
            row(&[true, false], true),
            row(&[false, true], true),
            row(&[true, true], true),
        ]
    );
}

#[test]
fn first_variable_changes_fastest() {
    let table = table_of("C & B & A");
    assert_eq!(table.variables, vec!['A', 'B', 'C']);
    for (number, row) in table.rows.iter().enumerate() {
        for (i, value) in row.values.iter().enumerate() {
            assert_eq!(*value, (number >> i) & 1 == 1);
        }
        assert_eq!(row.result, number == 7);
    }
}

#[test]
fn table_of_one_variable() {
    let table = table_of("!A");
    assert_eq!(table.variables, vec!['A']);
    assert_eq!(table.rows, vec![row(&[false], true), row(&[true], false)]);
}

#[test]
fn table_of_nor_then_and() {
    let table = table_of("(A NOR B) & C");
    assert_eq!(table.variables, vec!['A', 'B', 'C']);
    assert_eq!(table.rows.len(), 8);
    // A = false, B = false, C = true is row 4.
    assert_eq!(table.rows[4], row(&[false, false, true], true));
    let results: Vec<bool> = table.rows.iter().map(|r| r.result).collect();
    assert_eq!(
        results,
        vec![false, false, false, false, true, false, false, false]
    );
}

#[test]
fn table_of_xnor() {
    let table = table_of("A XNOR B");
    let results: Vec<bool> = table.rows.iter().map(|r| r.result).collect();
    assert_eq!(results, vec![true, false, false, true]);
}

#[test]
fn table_of_all_letters_has_its_columns() {
    let table = table_of("Z | A | M");
    assert_eq!(table.variables, vec!['A', 'M', 'Z']);
    assert_eq!(table.rows[1].values, vec![true, false, false]);
    assert_eq!(table.rows[4].values, vec![false, false, true]);
}

#[test]
fn table_of_other_names() {
    let e = Expression::Xor(
        Box::new(Expression::Identifier('b')),
        Box::new(Expression::Identifier('\u{e9}')),
    );
    let table = TruthTable::from(&e);
    assert_eq!(table.variables, vec!['b', '\u{e9}']);
    assert_eq!(
        table.rows,
        vec![
            row(&[false, false], false),
            row(&[true, false], true),
            row(&[false, true], true),
            row(&[true, true], false),
        ]
    );
}

#[test]
fn row_renders_as_a_line() {
    assert_eq!(row(&[true, false], true).render(), "| 1 | 0 |   1    |");
    assert_eq!(row(&[false], false).render(), "| 0 |   0    |");
    assert_eq!(row(&[], true).render(), "|   1    |");
}

#[test]
fn table_renders_with_header_and_rule() {
    let table = table_of("A AND B");
    let expected = "| A | B | Output |\n\
                    |---|---|--------|\n\
                    | 0 | 0 |   0    |\n\
                    | 1 | 0 |   0    |\n\
                    | 0 | 1 |   0    |\n\
                    | 1 | 1 |   1    |\n";
    assert_eq!(table.render(), expected);
}

#[test]
fn table_without_variables_renders_its_header_only() {
    let table = TruthTable {
        variables: vec![],
        rows: vec![],
    };
    assert_eq!(table.render(), "| Output |\n|--------|\n");
}
