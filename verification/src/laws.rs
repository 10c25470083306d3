//! What holds of every expression, parse tree and truth table.

use vstd::prelude::*;
use vstd::arithmetic::power2::pow2;
use crate::ast::{ascending, assigned, built_from, folded, joined, negated, Expression};
use crate::pairs::{Rule, Tree};
use crate::syntax::{spelled, spellings, token_len};
use crate::truth_table::{assignment_of, bit, distinct_variables, values_of, TruthTable};

verus! {

/// A single variable names itself and nothing else: the only ascending
/// sequence of its variables is the one that holds just its letter. Its value
/// is true under an assignment that holds true for it, and false under one
/// that holds false for it or does not hold it at all.
pub proof fn identifier_stands_for_itself(
    id: char,
    variables: Seq<char>,
    assignment: Map<char, bool>,
)
    requires
        ascending(variables),
        variables.to_set() == Expression::Identifier(id).names(),
    ensures
        variables == seq![id],
        Expression::Identifier(id).value(assignment) == assigned(assignment, id),
        Expression::Identifier(id).value(map![id => true]),
        !Expression::Identifier(id).value(map![id => false]),
        !Expression::Identifier(id).value(Map::empty()),
{
    assert(variables.to_set().contains(id));
    assert(variables.contains(id));
    assert forall|i: int| 0 <= i < variables.len() implies variables[i] == id by {
        assert(variables.to_set().contains(variables[i]));
    }
    if variables.len() > 1 {
        assert(variables[0] < variables[1]);
    }
    assert(variables =~= seq![id]);
}

/// Each negated operator gives the opposite of its plain twin, whatever the
/// operands and the assignment.
pub proof fn negated_operators_oppose(
    left: Expression,
    right: Expression,
    assignment: Map<char, bool>,
)
    ensures
        Expression::Nand(Box::new(left), Box::new(right)).value(assignment) == !Expression::And(
            Box::new(left),
            Box::new(right),
        ).value(assignment),
        Expression::Nor(Box::new(left), Box::new(right)).value(assignment) == !Expression::Or(
            Box::new(left),
            Box::new(right),
        ).value(assignment),
        Expression::Xnor(Box::new(left), Box::new(right)).value(assignment) == !Expression::Xor(
            Box::new(left),
            Box::new(right),
        ).value(assignment),
{
}

/// The operators have their usual truth tables.
pub proof fn operators_have_truth_tables(
    left: Expression,
    right: Expression,
    assignment: Map<char, bool>,
)
    ensures
        Expression::Not(Box::new(left)).value(assignment) == !left.value(assignment),
        Expression::And(Box::new(left), Box::new(right)).value(assignment) == (left.value(
            assignment,
        ) && right.value(assignment)),
        Expression::Or(Box::new(left), Box::new(right)).value(assignment) == (left.value(assignment)
            || right.value(assignment)),
        Expression::Xor(Box::new(left), Box::new(right)).value(assignment) == (left.value(
            assignment,
        ) != right.value(assignment)),
{
}

/// The truth table of an expression has two to the power of `n` rows, where
/// `n` is the number of different variables that the expression names; and
/// there is at least one variable.
pub proof fn table_has_all_rows(table: TruthTable, expression: Expression)
    requires
        table.is_table_of(expression),
    ensures
        expression.names().finite(),
        expression.names().len() >= 1,
        table.variables@.len() == expression.names().len(),
        table.rows@.len() == pow2(expression.names().len()),
{
    let variables = table.variables@;
    distinct_variables(variables);
    let id = expression.some_name();
    assert(variables.to_set().contains(id));
    assert(variables.contains(id));
}

/// A row gives the variable at position `i` bit `i` of the row's number,
/// in its values and in the assignment under which the expression is
/// evaluated. The first variable has the lowest bit, so its value changes
/// from each row to the next.
pub proof fn rows_follow_the_bits(variables: Seq<char>, row: nat, i: int)
    requires
        ascending(variables),
        0 <= i < variables.len(),
    ensures
        values_of(variables.len(), row)[i] == bit(row, i as nat),
        assignment_of(variables, row).contains_key(variables[i]),
        assignment_of(variables, row)[variables[i]] == bit(row, i as nat),
        bit(row, 0) == (row % 2 == 1),
{
    vstd::arithmetic::power2::lemma2_to64();
    assert(row / 1 == row);
    assert(variables.contains(variables[i]));
    let j = variables.index_of(variables[i]);
    assert(0 <= j < variables.len() && variables[j] == variables[i]);
    if j < i {
        assert(variables[j] < variables[i]);
    } else if i < j {
        assert(variables[i] < variables[j]);
    }
}

/// Bit `i` of a row's number is what a shift and a mask give: the number
/// shifted right by `i`, and then its lowest bit.
pub proof fn bits_are_shifts(row: u64, i: u64)
    requires
        i < 64,
    ensures
        bit(row as nat, i as nat) == ((row >> i) & 1 == 1),
{
    vstd::bits::lemma_u64_shr_is_div(row, i);
    let shifted = row >> i;
    assert((shifted & 1 == 1) == (shifted % 2 == 1)) by (bit_vector);
}

/// Negations cancel in pairs: an operand behind an even number of them is
/// the operand itself, and behind an odd number it is negated once.
pub proof fn negations_cancel(nots: nat, operand: Expression)
    ensures
        negated(nots as int + 2, operand) == negated(nots as int, operand),
        negated(0, operand) == operand,
        negated(1, operand) == Expression::Not(Box::new(operand)),
{
}

/// A clause is joined from the left: the expression for its first `n + 2`
/// parts joins the expression for its first `n` parts, as the left operand,
/// with the last of them, as the right operand.
pub proof fn clauses_join_from_the_left(s: Seq<char>, parts: Seq<Tree>, n: nat)
    requires
        n >= 1,
        n + 2 <= parts.len(),
    ensures
        folded(s, parts, n + 2) == joined(
            parts[n as int].rule,
            folded(s, parts, n),
            built_from(s, parts[n as int + 1]),
        ),
        folded(s, parts, 1) == built_from(s, parts[0]),
{
}

/// The expression of a parse tree does not depend on how its operators are
/// spelled: two clauses with parts of the same rules, whose operands stand
/// for the same expressions, stand for the same expression.
pub proof fn spelling_does_not_matter(
    s1: Seq<char>,
    parts1: Seq<Tree>,
    s2: Seq<char>,
    parts2: Seq<Tree>,
    n: nat,
)
    requires
        n % 2 == 1,
        n <= parts1.len(),
        n <= parts2.len(),
        forall|i: int| 0 <= i < n && i % 2 == 1 ==> parts1[i].rule == parts2[i].rule,
        forall|i: int|
            0 <= i < n && i % 2 == 0 ==> built_from(s1, parts1[i]) == built_from(s2, parts2[i]),
    ensures
        folded(s1, parts1, n) == folded(s2, parts2, n),
    decreases n,
{
    if n >= 3 {
        spelling_does_not_matter(s1, parts1, s2, parts2, (n - 2) as nat);
    }
}

/// The character `a` stands in `s` at `p`.
pub open spec fn one(s: Seq<char>, p: nat, a: char) -> bool {
    p < s.len() && s[p as int] == a
}

/// The characters `a` and `b` stand in `s` from `p` on.
pub open spec fn two(s: Seq<char>, p: nat, a: char, b: char) -> bool {
    one(s, p, a) && one(s, p + 1, b)
}

/// The characters `a`, `b` and `c` stand in `s` from `p` on.
pub open spec fn three(s: Seq<char>, p: nat, a: char, b: char, c: char) -> bool {
    two(s, p, a, b) && one(s, p + 2, c)
}

/// The characters `a`, `b`, `c` and `d` stand in `s` from `p` on.
pub open spec fn four(s: Seq<char>, p: nat, a: char, b: char, c: char, d: char) -> bool {
    three(s, p, a, b, c) && one(s, p + 3, d)
}

/// The length of the operator or parenthesis of `rule` that stands in `s` at
/// `p`, character by character.
pub open spec fn spelled_out(s: Seq<char>, p: nat, rule: Rule) -> Option<nat> {
    match rule {
        Rule::not_operator => if one(s, p, '!') {
            Some(1nat)
        } else if three(s, p, 'N', 'O', 'T') || three(s, p, 'n', 'o', 't') {
            Some(3nat)
        } else {
            None
        },
        Rule::and_operator => if one(s, p, '&') {
            Some(1nat)
        } else if three(s, p, 'A', 'N', 'D') || three(s, p, 'a', 'n', 'd') {
            Some(3nat)
        } else {
            None
        },
        Rule::nand_operator => if two(s, p, '!', '&') {
            Some(2nat)
        } else if four(s, p, 'N', 'A', 'N', 'D') || four(s, p, 'n', 'a', 'n', 'd') {
            Some(4nat)
        } else {
            None
        },
        Rule::or_operator => if one(s, p, '|') {
            Some(1nat)
        } else if two(s, p, 'O', 'R') || two(s, p, 'o', 'r') {
            Some(2nat)
        } else {
            None
        },
        Rule::nor_operator => if two(s, p, '!', '|') {
            Some(2nat)
        } else if three(s, p, 'N', 'O', 'R') || three(s, p, 'n', 'o', 'r') {
            Some(3nat)
        } else {
            None
        },
        Rule::xor_operator => if one(s, p, '^') {
            Some(1nat)
        } else if three(s, p, 'X', 'O', 'R') || three(s, p, 'x', 'o', 'r') {
            Some(3nat)
        } else {
            None
        },
        Rule::xnor_operator => if two(s, p, '!', '^') {
            Some(2nat)
        } else if four(s, p, 'X', 'N', 'O', 'R') || four(s, p, 'x', 'n', 'o', 'r') {
            Some(4nat)
        } else {
            None
        },
        Rule::left_parenthesis => if one(s, p, '(') {
            Some(1nat)
        } else {
            None
        },
        Rule::right_parenthesis => if one(s, p, ')') {
            Some(1nat)
        } else {
            None
        },
        _ => None,
    }
}

proof fn spelled_one(s: Seq<char>, p: nat, w: Seq<char>)
    requires
        w.len() == 1,
    ensures
        spelled(s, p, w) == one(s, p, w[0]),
{
    if one(s, p, w[0]) {
        assert forall|i: int| 0 <= i < w.len() implies s[p + i] == #[trigger] w[i] by {}
    }
    if spelled(s, p, w) {
        assert(s[p as int + 0] == w[0]);
    }
}

proof fn spelled_two(s: Seq<char>, p: nat, w: Seq<char>)
    requires
        w.len() == 2,
    ensures
        spelled(s, p, w) == two(s, p, w[0], w[1]),
{
    if two(s, p, w[0], w[1]) {
        assert forall|i: int| 0 <= i < w.len() implies s[p + i] == #[trigger] w[i] by {}
    }
    if spelled(s, p, w) {
        assert(s[p as int + 0] == w[0]);
        assert(s[p as int + 1] == w[1]);
    }
}

proof fn spelled_three(s: Seq<char>, p: nat, w: Seq<char>)
    requires
        w.len() == 3,
    ensures
        spelled(s, p, w) == three(s, p, w[0], w[1], w[2]),
{
    if three(s, p, w[0], w[1], w[2]) {
        assert forall|i: int| 0 <= i < w.len() implies s[p + i] == #[trigger] w[i] by {}
    }
    if spelled(s, p, w) {
        assert(s[p as int + 0] == w[0]);
        assert(s[p as int + 1] == w[1]);
        assert(s[p as int + 2] == w[2]);
    }
}

proof fn spelled_four(s: Seq<char>, p: nat, w: Seq<char>)
    requires
        w.len() == 4,
    ensures
        spelled(s, p, w) == four(s, p, w[0], w[1], w[2], w[3]),
{
    if four(s, p, w[0], w[1], w[2], w[3]) {
        assert forall|i: int| 0 <= i < w.len() implies s[p + i] == #[trigger] w[i] by {}
    }
    if spelled(s, p, w) {
        assert(s[p as int + 0] == w[0]);
        assert(s[p as int + 1] == w[1]);
        assert(s[p as int + 2] == w[2]);
        assert(s[p as int + 3] == w[3]);
    }
}

/// Every operator and parenthesis is what its spellings say, character by
/// character: `!`, `NOT` and `not` negate; `&`, `AND` and `and` are the
/// conjunction, `!&`, `NAND` and `nand` its negation; `|`, `OR` and `or` the
/// disjunction, `!|`, `NOR` and `nor` its negation; `^`, `XOR` and `xor` the
/// exclusive disjunction, `!^`, `XNOR` and `xnor` its negation.
pub proof fn tokens_are_spelled_out(s: Seq<char>, p: nat, rule: Rule)
    requires
        rule != Rule::identifier,
        rule != Rule::EOI,
    ensures
        token_len(s, p, rule) == spelled_out(s, p, rule),
{
    let w = spellings(rule);
    match rule {
        Rule::not_operator => {
            reveal_strlit("!");
            reveal_strlit("NOT");
            reveal_strlit("not");
            assert(w[0] == "!"@ && w[1] == "NOT"@ && w[2] == "not"@);
            spelled_one(s, p, w[0]);
            spelled_three(s, p, w[1]);
            spelled_three(s, p, w[2]);
        },
        Rule::and_operator => {
            reveal_strlit("&");
            reveal_strlit("AND");
            reveal_strlit("and");
            assert(w[0] == "&"@ && w[1] == "AND"@ && w[2] == "and"@);
            spelled_one(s, p, w[0]);
            spelled_three(s, p, w[1]);
            spelled_three(s, p, w[2]);
        },
        Rule::nand_operator => {
            reveal_strlit("!&");
            reveal_strlit("NAND");
            reveal_strlit("nand");
            assert(w[0] == "!&"@ && w[1] == "NAND"@ && w[2] == "nand"@);
            spelled_two(s, p, w[0]);
            spelled_four(s, p, w[1]);
            spelled_four(s, p, w[2]);
        },
        Rule::or_operator => {
            reveal_strlit("|");
            reveal_strlit("OR");
            reveal_strlit("or");
            assert(w[0] == "|"@ && w[1] == "OR"@ && w[2] == "or"@);
            spelled_one(s, p, w[0]);
            spelled_two(s, p, w[1]);
            spelled_two(s, p, w[2]);
        },
        Rule::nor_operator => {
            reveal_strlit("!|");
            reveal_strlit("NOR");
            reveal_strlit("nor");
            assert(w[0] == "!|"@ && w[1] == "NOR"@ && w[2] == "nor"@);
            spelled_two(s, p, w[0]);
            spelled_three(s, p, w[1]);
            spelled_three(s, p, w[2]);
        },
        Rule::xor_operator => {
            reveal_strlit("^");
            reveal_strlit("XOR");
            reveal_strlit("xor");
            assert(w[0] == "^"@ && w[1] == "XOR"@ && w[2] == "xor"@);
            spelled_one(s, p, w[0]);
            spelled_three(s, p, w[1]);
            spelled_three(s, p, w[2]);
        },
        Rule::xnor_operator => {
            reveal_strlit("!^");
            reveal_strlit("XNOR");
            reveal_strlit("xnor");
            assert(w[0] == "!^"@ && w[1] == "XNOR"@ && w[2] == "xnor"@);
            spelled_two(s, p, w[0]);
            spelled_four(s, p, w[1]);
            spelled_four(s, p, w[2]);
        },
        Rule::left_parenthesis => {
            reveal_strlit("(");
            assert(w[0] == "("@);
            spelled_one(s, p, w[0]);
        },
        Rule::right_parenthesis => {
            reveal_strlit(")");
            assert(w[0] == ")"@);
            spelled_one(s, p, w[0]);
        },
        _ => {},
    }
}

} // verus!
