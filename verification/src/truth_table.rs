//! Truth tables: every assignment of an expression's variables, with the
//! value of the expression under it.

use vstd::prelude::*;
use vstd::string::StringExecFns;
use vstd::arithmetic::power2::{
    lemma2_to64, lemma_pow2_pos, lemma_pow2_strictly_increases, lemma_pow2_unfold, pow2,
};
use std::collections::HashMap;
use crate::ast::{ascending, Expression};
use crate::syntax::is_upper;

verus! {

/// One row of a truth table.
#[derive(Debug, PartialEq, Eq)]
pub struct TruthTableRow {
    /// The value of each variable, in the order of the table's variables.
    pub values: Vec<bool>,
    /// The value of the expression under these values.
    pub result: bool,
}

/// The truth table of an expression.
#[derive(Debug, PartialEq, Eq)]
pub struct TruthTable {
    /// The variables of the expression, each once, in ascending order.
    pub variables: Vec<char>,
    /// One row for each assignment of the variables.
    pub rows: Vec<TruthTableRow>,
}

/// Bit `i` of the number `row`, the lowest bit being bit 0.
pub open spec fn bit(row: nat, i: nat) -> bool {
    (row / pow2(i)) % 2 == 1
}

/// The values of `n` variables in row `row`: the variable at position `i`
/// has bit `i` of the row's number, so that the first variable changes from
/// each row to the next.
pub open spec fn values_of(n: nat, row: nat) -> Seq<bool> {
    Seq::new(n, |i: int| bit(row, i as nat))
}

/// The assignment of row `row`: it holds every variable, each with its
/// value in that row.
pub open spec fn assignment_of(variables: Seq<char>, row: nat) -> Map<char, bool> {
    Map::new(
        |id: char| variables.contains(id),
        |id: char| bit(row, variables.index_of(id) as nat),
    )
}

/// The number of rows of a table of `n` variables: two to the power of `n`,
/// but none where there is no variable.
pub open spec fn row_count(n: nat) -> nat {
    if n == 0 {
        0
    } else {
        pow2(n)
    }
}

impl TruthTableRow {
    /// The row is row `row` of the table of `expression` over `variables`.
    pub open spec fn is_row_of(
        self,
        expression: Expression,
        variables: Seq<char>,
        row: nat,
    ) -> bool {
        &&& self.values@ == values_of(variables.len(), row)
        &&& self.result == expression.value(assignment_of(variables, row))
    }
}

impl TruthTable {
    /// The table is the truth table of `expression`.
    pub open spec fn is_table_of(self, expression: Expression) -> bool {
        &&& ascending(self.variables@)
        &&& self.variables@.to_set() == expression.names()
        &&& self.rows.len() == row_count(self.variables@.len())
        &&& forall|row: int|
            0 <= row < self.rows.len() ==> (#[trigger] self.rows[row]).is_row_of(
                expression,
                self.variables@,
                row as nat,
            )
    }

    /// Makes the truth table of an expression. The number of its rows has to
    /// fit in `usize`: it does for every expression whose variables are
    /// letters from `A` to `Z`.
    pub fn from(expression: &Expression) -> (table: TruthTable)
        requires
            expression.is_valid() || pow2(expression.names().len()) <= usize::MAX,
        ensures
            table.is_table_of(*expression),
    {
        let variables = expression.variables();
        let n = variables.len();
        proof {
            distinct_variables(variables@);
            if expression.is_valid() {
                assert forall|i: int| 0 <= i < n implies is_upper(#[trigger] variables@[i]) by {
                    assert(variables@.to_set().contains(variables@[i]));
                }
                at_most_all_letters(variables@);
                lemma2_to64();
                if n < 26 {
                    lemma_pow2_strictly_increases(n as nat, 26);
                }
            }
            lemma2_to64();
        }
        let mut count: usize = 1;
        let mut k: usize = 0;
        while k < n
            invariant
                k <= n,
                count == pow2(k as nat),
                pow2(n as nat) <= usize::MAX,
            decreases n - k,
        {
            proof {
                lemma_pow2_unfold((k + 1) as nat);
                if k + 1 < n {
                    lemma_pow2_strictly_increases((k + 1) as nat, n as nat);
                }
            }
            count = count * 2;
            k += 1;
        }
        let mut rows: Vec<TruthTableRow> = Vec::with_capacity(count);
        let mut row: usize = 0;
        while row < count
            invariant
                row <= count,
                count == row_count(n as nat),
                n == variables.len(),
                1 <= n,
                pow2(n as nat) <= usize::MAX,
                ascending(variables@),
                rows.len() == row,
                forall|r: int|
                    0 <= r < row ==> (#[trigger] rows[r]).is_row_of(
                        *expression,
                        variables@,
                        r as nat,
                    ),
            decreases count - row,
        {
            let mut values: Vec<bool> = Vec::with_capacity(n);
            let mut assignment: HashMap<char, bool> = HashMap::with_capacity(n);
            let mut weight: usize = 1;
            let mut i: usize = 0;
            proof {
                lemma2_to64();
                assert(values@ =~= values_of(0, row as nat));
                assert(assignment@ =~= assignment_of(variables@.take(0), row as nat));
            }
            while i < n
                invariant
                    i <= n,
                    n == variables.len(),
                    pow2(n as nat) <= usize::MAX,
                    ascending(variables@),
                    weight == pow2(i as nat),
                    values@ == values_of(i as nat, row as nat),
                    assignment@ == assignment_of(variables@.take(i as int), row as nat),
                decreases n - i,
            {
                proof {
                    lemma_pow2_unfold((i + 1) as nat);
                    if i + 1 < n {
                        lemma_pow2_strictly_increases((i + 1) as nat, n as nat);
                    }
                    lemma_pow2_pos(i as nat);
                    assignment_grows(variables@, i as int, row as nat);
                }
                let value = row / weight % 2 == 1;
                values.push(value);
                assign(&mut assignment, variables[i], value);
                weight = weight * 2;
                i += 1;
                assert(values@ =~= values_of(i as nat, row as nat));
            }
            assert(variables@.take(n as int) =~= variables@);
            let result = expression.evaluate(&assignment);
            rows.push(TruthTableRow { values, result });
            row += 1;
        }
        TruthTable { variables, rows }
    }
}

/// The cells of a row for the values of its variables.
pub open spec fn value_cells(values: Seq<bool>) -> Seq<char>
    decreases values.len(),
{
    if values.len() == 0 {
        Seq::empty()
    } else {
        value_cells(values.drop_last()) + (if values.last() {
            " 1 |"@
        } else {
            " 0 |"@
        })
    }
}

/// The cells of the header for the variables.
pub open spec fn name_cells(variables: Seq<char>) -> Seq<char>
    decreases variables.len(),
{
    if variables.len() == 0 {
        Seq::empty()
    } else {
        name_cells(variables.drop_last()) + " "@.push(variables.last()) + " |"@
    }
}

/// The rule between the header and the rows, for `n` variables.
pub open spec fn rule_cells(n: nat) -> Seq<char>
    decreases n,
{
    if n == 0 {
        Seq::empty()
    } else {
        rule_cells((n - 1) as nat) + "---|"@
    }
}

/// The lines of the rows, each ended by a line feed.
pub open spec fn row_lines(rows: Seq<TruthTableRow>) -> Seq<char>
    decreases rows.len(),
{
    if rows.len() == 0 {
        Seq::empty()
    } else {
        row_lines(rows.drop_last()) + rows.last().rendered() + "\n"@
    }
}

impl TruthTableRow {
    /// The row as a line of text: a cell for each value, then the result
    /// under the heading of the last column, `1` for true and `0` for false.
    pub open spec fn rendered(self) -> Seq<char> {
        "|"@ + value_cells(self.values@) + (if self.result {
            "   1    |"@
        } else {
            "   0    |"@
        })
    }

    /// Writes the row as a line of text.
    pub fn render(&self) -> (line: String)
        ensures
            line@ == self.rendered(),
    {
        let mut line = String::new();
        line.append("|");
        let mut i: usize = 0;
        while i < self.values.len()
            invariant
                i <= self.values.len(),
                line@ == "|"@ + value_cells(self.values@.take(i as int)),
            decreases self.values.len() - i,
        {
            proof {
                let longer = self.values@.take(i + 1);
                assert(longer.drop_last() =~= self.values@.take(i as int));
            }
            line.append(if self.values[i] { " 1 |" } else { " 0 |" });
            i += 1;
            assert(line@ =~= "|"@ + value_cells(self.values@.take(i as int)));
        }
        assert(self.values@.take(i as int) =~= self.values@);
        line.append(if self.result { "   1    |" } else { "   0    |" });
        line
    }
}

impl TruthTable {
    /// The table as text: a header that names each variable and the column
    /// `Output`, a rule, and a line for each row.
    pub open spec fn rendered(self) -> Seq<char> {
        "|"@ + name_cells(self.variables@) + " Output |\n"@ + "|"@ + rule_cells(
            self.variables@.len(),
        ) + "--------|\n"@ + row_lines(self.rows@)
    }

    /// Writes the table as text.
    pub fn render(&self) -> (text: String)
        ensures
            text@ == self.rendered(),
    {
        let n = self.variables.len();
        let mut text = String::new();
        text.append("|");
        let mut i: usize = 0;
        while i < n
            invariant
                i <= n,
                n == self.variables.len(),
                text@ == "|"@ + name_cells(self.variables@.take(i as int)),
            decreases n - i,
        {
            proof {
                let longer = self.variables@.take(i + 1);
                assert(longer.drop_last() =~= self.variables@.take(i as int));
            }
            text.append(" ");
            push_char(&mut text, self.variables[i]);
            text.append(" |");
            i += 1;
            assert(text@ =~= "|"@ + name_cells(self.variables@.take(i as int)));
        }
        assert(self.variables@.take(i as int) =~= self.variables@);
        text.append(" Output |\n");
        text.append("|");
        let ghost head = text@;
        let mut i: usize = 0;
        while i < n
            invariant
                i <= n,
                text@ == head + rule_cells(i as nat),
            decreases n - i,
        {
            text.append("---|");
            i += 1;
            assert(text@ =~= head + rule_cells(i as nat));
        }
        text.append("--------|\n");
        let ghost head = text@;
        let mut i: usize = 0;
        while i < self.rows.len()
            invariant
                i <= self.rows.len(),
                text@ == head + row_lines(self.rows@.take(i as int)),
            decreases self.rows.len() - i,
        {
            proof {
                let longer = self.rows@.take(i + 1);
                assert(longer.drop_last() =~= self.rows@.take(i as int));
            }
            let line = self.rows[i].render();
            text.append(line.as_str());
            text.append("\n");
            i += 1;
            assert(text@ =~= head + row_lines(self.rows@.take(i as int)));
        }
        assert(self.rows@.take(i as int) =~= self.rows@);
        text
    }
}

/// Calls `String::push` of the standard library. Taken on trust: afterwards
/// the string holds what it held before, with `c` behind it.
#[verifier::external_body]
fn push_char(text: &mut String, c: char)
    ensures
        final(text)@ == old(text)@.push(c),
{
    text.push(c);
}

/// Calls `HashMap::insert` of the standard library with a `char` key. Taken
/// on trust: afterwards the map holds `value` for `id`, and for every other
/// key what it held before.
#[verifier::external_body]
fn assign(assignment: &mut HashMap<char, bool>, id: char, value: bool)
    ensures
        final(assignment)@ == old(assignment)@.insert(id, value),
{
    assignment.insert(id, value);
}

/// An ascending sequence holds as many characters as its set.
pub proof fn distinct_variables(variables: Seq<char>)
    requires
        ascending(variables),
    ensures
        variables.no_duplicates(),
        variables.to_set().finite(),
        variables.to_set().len() == variables.len(),
{
    assert forall|i: int, j: int|
        0 <= i < variables.len() && 0 <= j < variables.len() && i != j implies variables[i]
        != variables[j] by {
        if i < j {
            assert(variables[i] < variables[j]);
        } else {
            assert(variables[j] < variables[i]);
        }
    }
    variables.unique_seq_to_set();
    vstd::seq_lib::seq_to_set_is_finite(variables);
}

/// In an ascending sequence, each character stands at one position only.
proof fn found_at(variables: Seq<char>, i: int)
    requires
        ascending(variables),
        0 <= i < variables.len(),
    ensures
        variables.index_of(variables[i]) == i,
{
    let j = variables.index_of(variables[i]);
    assert(0 <= j < variables.len() && variables[j] == variables[i]);
    if j < i {
        assert(variables[j] < variables[i]);
    } else if i < j {
        assert(variables[i] < variables[j]);
    }
}

/// The assignment of the first `i + 1` variables is that of the first `i`,
/// with the next variable added.
proof fn assignment_grows(variables: Seq<char>, i: int, row: nat)
    requires
        ascending(variables),
        0 <= i < variables.len(),
    ensures
        assignment_of(variables.take(i + 1), row) == assignment_of(variables.take(i), row).insert(
            variables[i],
            bit(row, i as nat),
        ),
{
    let shorter = variables.take(i);
    let longer = variables.take(i + 1);
    let grown = assignment_of(shorter, row).insert(variables[i], bit(row, i as nat));
    assert(ascending(shorter));
    assert(ascending(longer));
    assert forall|id: char| longer.contains(id) <==> shorter.contains(id) || id
        == variables[i] by {
        if longer.contains(id) {
            let k = choose|k: int| 0 <= k < longer.len() && longer[k] == id;
            if k < i {
                assert(shorter[k] == id);
            }
        }
        if shorter.contains(id) {
            let k = choose|k: int| 0 <= k < shorter.len() && shorter[k] == id;
            assert(longer[k] == id);
        }
        if id == variables[i] {
            assert(longer[i] == id);
        }
    }
    assert forall|id: char| longer.contains(id) implies #[trigger] assignment_of(longer, row)[id]
        == grown[id] by {
        let k = choose|k: int| 0 <= k < longer.len() && longer[k] == id;
        found_at(longer, k);
        if k < i {
            assert(shorter[k] == id);
            found_at(shorter, k);
            assert(id != variables[i]) by {
                assert(longer[k] < longer[i]);
            }
        }
    }
    assert(assignment_of(longer, row) =~= grown);
}

/// An ascending sequence of letters from `A` to `Z` holds at most 26.
proof fn at_most_all_letters(variables: Seq<char>)
    requires
        ascending(variables),
        forall|i: int| 0 <= i < variables.len() ==> is_upper(#[trigger] variables[i]),
    ensures
        variables.len() <= 26,
{
    if variables.len() > 0 {
        let last = variables.len() - 1;
        climbs(variables, last);
        assert(is_upper(variables[last]));
    }
}

/// The character at position `i` of an ascending sequence is at least `i`
/// places behind the first.
proof fn climbs(variables: Seq<char>, i: int)
    requires
        ascending(variables),
        0 <= i < variables.len(),
    ensures
        variables[i] as int >= variables[0] as int + i,
    decreases i,
{
    if i > 0 {
        climbs(variables, i - 1);
        assert(variables[i - 1] < variables[i]);
    }
}

} // verus!
