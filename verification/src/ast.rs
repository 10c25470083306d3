//! The expression tree: how it is built from a parse tree, what it means,
//! and which variables it names.

use vstd::prelude::*;
use std::collections::HashMap;
use crate::pairs::{Pair, Rule, Tree};
use crate::syntax::{is_upper, well_formed_unfolds};

verus! {

/// A node of a boolean expression tree.
#[derive(Debug, PartialEq, Eq)]
pub enum Expression {
    /// A variable, named by one character.
    Identifier(char),
    /// Negation.
    Not(Box<Expression>),
    /// Conjunction.
    And(Box<Expression>, Box<Expression>),
    /// Negated conjunction.
    Nand(Box<Expression>, Box<Expression>),
    /// Disjunction.
    Or(Box<Expression>, Box<Expression>),
    /// Negated disjunction.
    Nor(Box<Expression>, Box<Expression>),
    /// Exclusive disjunction.
    Xor(Box<Expression>, Box<Expression>),
    /// Negated exclusive disjunction.
    Xnor(Box<Expression>, Box<Expression>),
}

/// The rules whose parse trees stand for an expression.
pub open spec fn stands_for_expression(rule: Rule) -> bool {
    ||| rule == Rule::identifier
    ||| rule == Rule::term
    ||| rule == Rule::and_clause
    ||| rule == Rule::xor_clause
    ||| rule == Rule::expression
    ||| rule == Rule::file
}

/// The node that joins two operands by a binary operator.
pub open spec fn joined(operator: Rule, left: Expression, right: Expression) -> Expression {
    match operator {
        Rule::and_operator => Expression::And(Box::new(left), Box::new(right)),
        Rule::nand_operator => Expression::Nand(Box::new(left), Box::new(right)),
        Rule::or_operator => Expression::Or(Box::new(left), Box::new(right)),
        Rule::nor_operator => Expression::Nor(Box::new(left), Box::new(right)),
        Rule::xor_operator => Expression::Xor(Box::new(left), Box::new(right)),
        _ => Expression::Xnor(Box::new(left), Box::new(right)),
    }
}

/// The expression that a well-formed parse tree over the text `s` stands for.
///
/// An identifier stands for its letter. A term stands for its operand,
/// negated once if the number of negations in front of it is odd. A clause
/// stands for its operands joined from the left. A file stands for its first
/// expression.
pub open spec fn built_from(s: Seq<char>, t: Tree) -> Expression
    decreases t, 0nat,
{
    let n = t.children.len() as int;
    match t.rule {
        Rule::identifier => Expression::Identifier(s[t.start as int]),
        Rule::term => {
            if n >= 1 && t.children[n - 1].rule == Rule::identifier {
                negated(n - 1, built_from(s, t.children[n - 1]))
            } else if n >= 3 {
                negated(n - 3, built_from(s, t.children[n - 2]))
            } else {
                arbitrary()
            }
        },
        Rule::and_clause | Rule::xor_clause | Rule::expression => folded(s, t.children, n as nat),
        Rule::file => if n >= 1 {
            built_from(s, t.children[0])
        } else {
            arbitrary()
        },
        _ => arbitrary(),
    }
}

/// `operand` behind `nots` negations: an even number of them cancels out.
pub open spec fn negated(nots: int, operand: Expression) -> Expression {
    if nots % 2 == 1 {
        Expression::Not(Box::new(operand))
    } else {
        operand
    }
}

/// The expression for the first `n` parts of a clause, where operands and
/// operators take turns: the chain of all but the last two, joined with the
/// last operand by the operator in front of it.
pub open spec fn folded(s: Seq<char>, parts: Seq<Tree>, n: nat) -> Expression
    decreases parts, n,
{
    if n >= 3 && n <= parts.len() {
        joined(
            parts[n - 2].rule,
            folded(s, parts, (n - 2) as nat),
            built_from(s, parts[n - 1]),
        )
    } else if parts.len() >= 1 {
        built_from(s, parts[0])
    } else {
        arbitrary()
    }
}

/// The value that an assignment gives to a variable: what the map holds for
/// it, and false where it holds nothing.
pub open spec fn assigned(assignment: Map<char, bool>, id: char) -> bool {
    assignment.contains_key(id) && assignment[id]
}

impl Expression {
    /// The value of the expression under `assignment`.
    pub open spec fn value(self, assignment: Map<char, bool>) -> bool
        decreases self,
    {
        match self {
            Expression::Identifier(id) => assigned(assignment, id),
            Expression::Not(e) => !e.value(assignment),
            Expression::And(l, r) => l.value(assignment) && r.value(assignment),
            Expression::Nand(l, r) => !(l.value(assignment) && r.value(assignment)),
            Expression::Or(l, r) => l.value(assignment) || r.value(assignment),
            Expression::Nor(l, r) => !(l.value(assignment) || r.value(assignment)),
            Expression::Xor(l, r) => l.value(assignment) != r.value(assignment),
            Expression::Xnor(l, r) => l.value(assignment) == r.value(assignment),
        }
    }

    /// The variables that the expression names.
    pub open spec fn names(self) -> Set<char>
        decreases self,
    {
        match self {
            Expression::Identifier(id) => set![id],
            Expression::Not(e) => e.names(),
            Expression::And(l, r)
            | Expression::Nand(l, r)
            | Expression::Or(l, r)
            | Expression::Nor(l, r)
            | Expression::Xor(l, r)
            | Expression::Xnor(l, r) => l.names().union(r.names()),
        }
    }

    /// Every variable of the expression is a letter from `A` to `Z`.
    pub open spec fn is_valid(self) -> bool {
        forall|id: char| self.names().contains(id) ==> is_upper(id)
    }

    /// Evaluates the expression under an assignment of its variables; a
    /// variable that the assignment does not hold counts as false.
    pub fn evaluate(&self, variables: &HashMap<char, bool>) -> (r: bool)
        ensures
            r == self.value(variables@),
        decreases self,
    {
        match self {
            Expression::Identifier(id) => match held(variables, *id) {
                Some(value) => *value,
                None => false,
            },
            Expression::Not(e) => !e.evaluate(variables),
            Expression::And(l, r) => {
                let left = l.evaluate(variables);
                let right = r.evaluate(variables);
                left && right
            },
            Expression::Nand(l, r) => {
                let left = l.evaluate(variables);
                let right = r.evaluate(variables);
                !(left && right)
            },
            Expression::Or(l, r) => {
                let left = l.evaluate(variables);
                let right = r.evaluate(variables);
                left || right
            },
            Expression::Nor(l, r) => {
                let left = l.evaluate(variables);
                let right = r.evaluate(variables);
                !(left || right)
            },
            Expression::Xor(l, r) => {
                let left = l.evaluate(variables);
                let right = r.evaluate(variables);
                left != right
            },
            Expression::Xnor(l, r) => {
                let left = l.evaluate(variables);
                let right = r.evaluate(variables);
                left == right
            },
        }
    }

    /// The variables of the expression, each once, in ascending order.
    pub fn variables(&self) -> (r: Vec<char>)
        ensures
            ascending(r@),
            r@.to_set() == self.names(),
            r.len() >= 1,
    {
        let mut variables: Vec<char> = Vec::new();
        assert(variables@.to_set() =~= Set::<char>::empty());
        self.all_variables_set(&mut variables);
        proof {
            let id = self.some_name();
            assert(variables@.to_set() =~= self.names());
            assert(variables@.to_set().contains(id));
            assert(variables@.contains(id));
        }
        variables
    }

    /// Adds the variables of the expression to an ascending sequence.
    fn all_variables_set(&self, variables: &mut Vec<char>)
        requires
            ascending(old(variables)@),
        ensures
            ascending(final(variables)@),
            final(variables)@.to_set() == old(variables)@.to_set().union(self.names()),
        decreases self,
    {
        match self {
            Expression::Identifier(id) => {
                insert_ascending(variables, *id);
                assert(variables@.to_set() =~= old(variables)@.to_set().union(self.names()));
            },
            Expression::Not(e) => {
                e.all_variables_set(variables);
            },
            Expression::And(l, r)
            | Expression::Nand(l, r)
            | Expression::Or(l, r)
            | Expression::Nor(l, r)
            | Expression::Xor(l, r)
            | Expression::Xnor(l, r) => {
                l.all_variables_set(variables);
                r.all_variables_set(variables);
                assert(variables@.to_set() =~= old(variables)@.to_set().union(self.names()));
            },
        }
    }

    /// A variable of the expression: every expression names at least one.
    pub proof fn some_name(self) -> (id: char)
        ensures
            self.names().contains(id),
        decreases self,
    {
        match self {
            Expression::Identifier(id) => id,
            Expression::Not(e) => e.some_name(),
            Expression::And(l, r)
            | Expression::Nand(l, r)
            | Expression::Or(l, r)
            | Expression::Nor(l, r)
            | Expression::Xor(l, r)
            | Expression::Xnor(l, r) => l.some_name(),
        }
    }

    /// Builds the expression that a parse tree stands for.
    pub fn ast(pair: Pair<'_>) -> (e: Expression)
        requires
            stands_for_expression(pair@.rule),
        ensures
            e == built_from(pair.spec_input(), pair@),
            e.is_valid(),
    {
        build(&pair)
    }
}

/// Each character of the sequence is smaller than the next.
pub open spec fn ascending(v: Seq<char>) -> bool {
    forall|i: int, j: int| 0 <= i < j < v.len() ==> v[i] < v[j]
}

/// Calls `HashMap::get` of the standard library with a `char` key. Taken on
/// trust: the result is a reference to the value that the map holds for
/// `id`, or `None` where it holds none.
#[verifier::external_body]
fn held<'a>(variables: &'a HashMap<char, bool>, id: char) -> (r: Option<&'a bool>)
    ensures
        r == if variables@.contains_key(id) {
            Some(&variables@[id])
        } else {
            None
        },
{
    variables.get(&id)
}

/// Puts `id` at its place in an ascending sequence, unless it is there.
fn insert_ascending(variables: &mut Vec<char>, id: char)
    requires
        ascending(old(variables)@),
    ensures
        ascending(final(variables)@),
        final(variables)@.to_set() == old(variables)@.to_set().insert(id),
{
    let mut i: usize = 0;
    while i < variables.len() && variables[i] < id
        invariant
            i <= variables.len(),
            variables@ == old(variables)@,
            forall|k: int| 0 <= k < i ==> variables[k] < id,
        decreases variables.len() - i,
    {
        i += 1;
    }
    if i < variables.len() && variables[i] == id {
        assert(variables@.contains(id));
        assert(variables@.to_set() =~= variables@.to_set().insert(id));
        return ;
    }
    let ghost before = variables@;
    variables.insert(i, id);
    proof {
        let after = variables@;
        assert(after == before.insert(i as int, id));
        assert forall|other: char| after.contains(other) <==> before.contains(other) || other
            == id by {
            if before.contains(other) {
                let k = choose|k: int| 0 <= k < before.len() && before[k] == other;
                if k < i {
                    assert(after[k] == other);
                } else {
                    assert(after[k + 1] == other);
                }
            }
            if other == id {
                assert(after[i as int] == id);
            }
            if after.contains(other) {
                let k = choose|k: int| 0 <= k < after.len() && after[k] == other;
                if k < i {
                    assert(before[k] == other);
                } else if k > i {
                    assert(before[k - 1] == other);
                }
            }
        }
        assert(after.to_set() =~= before.to_set().insert(id));
        assert forall|a: int, b: int| 0 <= a < b < after.len() implies after[a] < after[b] by {
            if b < i {
            } else if b == i {
            } else if a < i {
                assert(after[b] == before[b - 1]);
            } else if a == i {
                assert(after[b] == before[b - 1]);
            } else {
                assert(after[a] == before[a - 1]);
                assert(after[b] == before[b - 1]);
            }
        }
    }
}

/// Builds the expression that a parse tree stands for.
fn build<'i>(pair: &Pair<'i>) -> (e: Expression)
    requires
        stands_for_expression(pair@.rule),
    ensures
        e == built_from(pair.spec_input(), pair@),
        e.is_valid(),
    decreases pair@,
{
    let parts = pair.parts();
    let ghost s = pair.spec_input();
    let ghost kids = pair@.children;
    let n = parts.len();
    proof {
        well_formed_unfolds(s, pair@);
    }
    assert(forall|i: int| 0 <= i < n ==> (#[trigger] parts[i])@ == kids[i]);
    match pair.as_rule() {
        Rule::identifier => Expression::Identifier(pair.first_char()),
        Rule::term => {
            let (operand, nots) = if let Rule::identifier = parts[n - 1].as_rule() {
                (build(&parts[n - 1]), n - 1)
            } else {
                (build(&parts[n - 2]), n - 3)
            };
            if nots % 2 != 0 {
                Expression::Not(Box::new(operand))
            } else {
                operand
            }
        },
        Rule::file => build(&parts[0]),
        _ => {
            let mut left = build(&parts[0]);
            let mut i: usize = 1;
            while i < n
                invariant
                    n == parts.len(),
                    n % 2 == 1,
                    i % 2 == 1,
                    i <= n + 1,
                    s == pair.spec_input(),
                    kids == pair@.children,
                    kids.len() == n,
                    forall|k: int| 0 <= k < n ==> (#[trigger] parts[k])@ == kids[k],
                    forall|k: int| 0 <= k < n ==> (#[trigger] parts[k]).spec_input() == s,
                    forall|k: int|
                        0 <= k < n && k % 2 == 0 ==> stands_for_expression(
                            (#[trigger] kids[k]).rule,
                        ),
                    left == folded(s, kids, i as nat),
                    left.is_valid(),
                decreases n - i,
            {
                let right = build(&parts[i + 1]);
                left =
                match parts[i].as_rule() {
                    Rule::and_operator => Expression::And(Box::new(left), Box::new(right)),
                    Rule::nand_operator => Expression::Nand(Box::new(left), Box::new(right)),
                    Rule::or_operator => Expression::Or(Box::new(left), Box::new(right)),
                    Rule::nor_operator => Expression::Nor(Box::new(left), Box::new(right)),
                    Rule::xor_operator => Expression::Xor(Box::new(left), Box::new(right)),
                    _ => Expression::Xnor(Box::new(left), Box::new(right)),
                };
                i += 2;
            }
            left
        },
    }
}

} // verus!
