//! The grammar, as functions from a text and a position to what stands there.
//!
//! From the loosest binding to the tightest:
//!
//! ```text
//! file        := expression (line-break+ expression)*      up to the end of input
//! expression  := xor_clause ((OR | NOR) xor_clause)*
//! xor_clause  := and_clause ((XOR | XNOR) and_clause)*
//! and_clause  := term ((AND | NAND) term)*
//! term        := NOT* (identifier | "(" expression ")")
//! identifier  := one letter A-Z that no letter or digit follows
//! ```
//!
//! Spaces and tabs may stand between any two tokens.

use vstd::prelude::*;
use crate::pairs::{Rule, Tree};

verus! {

/// A space or a tab.
pub open spec fn is_blank(c: char) -> bool {
    c == ' ' || c == '\t'
}

/// A character that ends a line.
pub open spec fn is_line_break(c: char) -> bool {
    c == '\n' || c == '\r'
}

/// A letter from `A` to `Z`.
pub open spec fn is_upper(c: char) -> bool {
    'A' <= c && c <= 'Z'
}

/// A character that, standing directly behind a letter, makes it part of a
/// longer word: an ASCII letter or digit.
pub open spec fn extends_word(c: char) -> bool {
    ('A' <= c && c <= 'Z') || ('a' <= c && c <= 'z') || ('0' <= c && c <= '9')
}

/// The number of characters of `s` from `p` on that are left to read.
pub open spec fn remaining(s: Seq<char>, p: nat) -> nat {
    if p <= s.len() {
        (s.len() - p) as nat
    } else {
        0
    }
}

/// The length of the run of blanks that starts at `p`.
pub open spec fn blanks(s: Seq<char>, p: nat) -> nat
    decreases remaining(s, p),
{
    if p < s.len() && is_blank(s[p as int]) {
        1 + blanks(s, p + 1)
    } else {
        0
    }
}

/// The length of the run of blanks and line breaks that starts at `p`.
pub open spec fn gap(s: Seq<char>, p: nat) -> nat
    decreases remaining(s, p),
{
    if p < s.len() && (is_blank(s[p as int]) || is_line_break(s[p as int])) {
        1 + gap(s, p + 1)
    } else {
        0
    }
}

/// The characters of `word` stand in `s` from `p` on.
pub open spec fn spelled(s: Seq<char>, p: nat, word: Seq<char>) -> bool {
    &&& p + word.len() <= s.len()
    &&& forall|i: int| 0 <= i < word.len() ==> s[p + i] == #[trigger] word[i]
}

/// The spellings of a token, in the order in which they are tried. A rule
/// that is no operator or parenthesis has none.
pub open spec fn spellings(rule: Rule) -> Seq<Seq<char>> {
    match rule {
        Rule::not_operator => seq!["!"@, "NOT"@, "not"@],
        Rule::and_operator => seq!["&"@, "AND"@, "and"@],
        Rule::nand_operator => seq!["!&"@, "NAND"@, "nand"@],
        Rule::or_operator => seq!["|"@, "OR"@, "or"@],
        Rule::nor_operator => seq!["!|"@, "NOR"@, "nor"@],
        Rule::xor_operator => seq!["^"@, "XOR"@, "xor"@],
        Rule::xnor_operator => seq!["!^"@, "XNOR"@, "xnor"@],
        Rule::left_parenthesis => seq!["("@],
        Rule::right_parenthesis => seq![")"@],
        _ => Seq::empty(),
    }
}

/// `word` is not empty and stands in `s` at `p`.
pub open spec fn stands(s: Seq<char>, p: nat, words: Seq<Seq<char>>, k: int) -> bool {
    0 <= k < words.len() && words[k].len() > 0 && spelled(s, p, words[k])
}

/// The length of the first of `words` that stands in `s` at `p`. No token
/// has more than three spellings.
pub open spec fn first_spelled(s: Seq<char>, p: nat, words: Seq<Seq<char>>) -> Option<nat> {
    if stands(s, p, words, 0) {
        Some(words[0].len())
    } else if stands(s, p, words, 1) {
        Some(words[1].len())
    } else if stands(s, p, words, 2) {
        Some(words[2].len())
    } else {
        None
    }
}

/// An identifier stands at `p`: a letter from `A` to `Z` that is not the
/// beginning of a longer word.
pub open spec fn identifier_at(s: Seq<char>, p: nat) -> bool {
    &&& p < s.len()
    &&& is_upper(s[p as int])
    &&& !(p + 1 < s.len() && extends_word(s[p as int + 1]))
}

/// The length of the token of `rule` that stands at `p`, if one does. The
/// rules with tokens are the operators, the parentheses, `identifier`, and
/// `EOI`, whose token is empty and stands only at the end of `s`.
pub open spec fn token_len(s: Seq<char>, p: nat, rule: Rule) -> Option<nat> {
    match rule {
        Rule::identifier => if identifier_at(s, p) {
            Some(1nat)
        } else {
            None
        },
        Rule::EOI => if p == s.len() {
            Some(0nat)
        } else {
            None
        },
        _ => first_spelled(s, p, spellings(rule)),
    }
}

/// What a reader may have wanted where the text could not be read on.
#[derive(Clone, Copy, Debug, PartialEq, Eq, Structural)]
pub enum Expected {
    /// The token of one rule.
    Token(Rule),
    /// The beginning of a term: a negation, an identifier or `(`.
    Operand,
    /// Behind an operand inside parentheses: a binary operator or `)`.
    OperatorOrClose,
    /// Behind an operand outside parentheses: a binary operator, a line
    /// break or the end of the input.
    OperatorOrEnd,
}

impl Expected {
    /// The rules whose tokens were acceptable, in the order of the grammar.
    pub open spec fn rules(self) -> Seq<Rule> {
        match self {
            Expected::Token(rule) => seq![rule],
            Expected::Operand => seq![Rule::not_operator, Rule::identifier, Rule::left_parenthesis],
            Expected::OperatorOrClose => seq![
                Rule::and_operator,
                Rule::nand_operator,
                Rule::xor_operator,
                Rule::xnor_operator,
                Rule::or_operator,
                Rule::nor_operator,
                Rule::right_parenthesis,
            ],
            Expected::OperatorOrEnd => seq![
                Rule::and_operator,
                Rule::nand_operator,
                Rule::xor_operator,
                Rule::xnor_operator,
                Rule::or_operator,
                Rule::nor_operator,
                Rule::EOI,
            ],
        }
    }
}

/// The place where a text could not be read on, and what was acceptable there.
pub struct Failure {
    pub position: nat,
    pub expected: Expected,
}

/// What reading one rule at one position gives.
pub enum Step {
    /// The rule matched. Where the match stopped in front of an operator whose
    /// right operand could not be read, `dangling` says why that operand failed.
    Match { tree: Tree, dangling: Option<Failure> },
    /// The rule did not match.
    Fail(Failure),
}

/// The kind of clause: a chain of operands joined by binary operators of one
/// precedence.
pub open spec fn is_clause(rule: Rule) -> bool {
    rule == Rule::and_clause || rule == Rule::xor_clause || rule == Rule::expression
}

/// The rank of a rule among those that stand for an expression: a rule is
/// built from operands of the next lower rank.
pub open spec fn rank(rule: Rule) -> nat {
    match rule {
        Rule::expression => 3,
        Rule::xor_clause => 2,
        Rule::and_clause => 1,
        _ => 0,
    }
}

/// The rule of the operands of a clause.
pub open spec fn operand_rule(rule: Rule) -> Rule {
    match rule {
        Rule::expression => Rule::xor_clause,
        Rule::xor_clause => Rule::and_clause,
        _ => Rule::term,
    }
}

/// The operator that joins the operands of a clause, and its negated twin.
pub open spec fn operator_rules(rule: Rule) -> (Rule, Rule) {
    match rule {
        Rule::expression => (Rule::or_operator, Rule::nor_operator),
        Rule::xor_clause => (Rule::xor_operator, Rule::xnor_operator),
        _ => (Rule::and_operator, Rule::nand_operator),
    }
}

/// The operator of a clause of `rule` that stands at `p`, with its length.
/// The plain operator is tried before the negated one.
pub open spec fn operator_at(s: Seq<char>, p: nat, rule: Rule) -> Option<(Rule, nat)> {
    let (plain, negated) = operator_rules(rule);
    match token_len(s, p, plain) {
        Some(n) => Some((plain, n)),
        None => match token_len(s, p, negated) {
            Some(n) => Some((negated, n)),
            None => None,
        },
    }
}

/// Reads a term at `p`.
pub open spec fn term_at(s: Seq<char>, p: nat) -> Step
    decreases remaining(s, p), 0nat, 1nat,
{
    term_from(s, p, p, Seq::empty())
}

/// Reads the rest of the term that starts at `start`, from `q` on, where
/// `parts` holds the negations read so far.
pub open spec fn term_from(s: Seq<char>, start: nat, q: nat, parts: Seq<Tree>) -> Step
    decreases remaining(s, q), 0nat, 0nat,
{
    if let Some(n) = token_len(s, q, Rule::not_operator) {
        let not = Tree::leaf(Rule::not_operator, q, n);
        term_from(s, start, q + n + blanks(s, q + n), parts.push(not))
    } else if identifier_at(s, q) {
        let name = Tree::leaf(Rule::identifier, q, 1);
        Step::Match {
            tree: Tree {
                rule: Rule::term,
                start,
                len: (q + 1 - start) as nat,
                children: parts.push(name),
            },
            dangling: None,
        }
    } else if let Some(n) = token_len(s, q, Rule::left_parenthesis) {
        let open = Tree::leaf(Rule::left_parenthesis, q, n);
        let inside = q + n + blanks(s, q + n);
        match clause_at(s, Rule::expression, inside) {
            Step::Fail(failure) => Step::Fail(failure),
            Step::Match { tree, dangling } => {
                let r = inside + tree.len + blanks(s, inside + tree.len);
                match token_len(s, r, Rule::right_parenthesis) {
                    Some(m) => Step::Match {
                        tree: Tree {
                            rule: Rule::term,
                            start,
                            len: (r + m - start) as nat,
                            children: parts.push(open).push(tree).push(
                                Tree::leaf(Rule::right_parenthesis, r, m),
                            ),
                        },
                        dangling: None,
                    },
                    None => Step::Fail(
                        match dangling {
                            Some(failure) => failure,
                            None => Failure { position: r, expected: Expected::OperatorOrClose },
                        },
                    ),
                }
            },
        }
    } else {
        Step::Fail(Failure { position: q, expected: Expected::Operand })
    }
}

/// Reads at `p` an operand of a clause of `rule`.
pub open spec fn operand_at(s: Seq<char>, rule: Rule, p: nat) -> Step
    decreases remaining(s, p), rank(rule) + 1, 0nat,
{
    if rank(rule) <= 1 {
        term_at(s, p)
    } else {
        clause_at(s, operand_rule(rule), p)
    }
}

/// Reads at `p` a clause of `rule`: one operand, then operators and operands
/// in turn for as long as both can be read.
pub open spec fn clause_at(s: Seq<char>, rule: Rule, p: nat) -> Step
    decreases remaining(s, p), rank(rule) + 1, 2nat,
{
    match operand_at(s, rule, p) {
        Step::Fail(failure) => Step::Fail(failure),
        Step::Match { tree, dangling } => clause_from(
            s,
            rule,
            p,
            p + tree.len,
            seq![tree],
            dangling,
        ),
    }
}

/// Reads the rest of the clause of `rule` that starts at `start`, where
/// `parts` holds what was read so far, up to `end`.
pub open spec fn clause_from(
    s: Seq<char>,
    rule: Rule,
    start: nat,
    end: nat,
    parts: Seq<Tree>,
    dangling: Option<Failure>,
) -> Step
    decreases remaining(s, end), rank(rule) + 1, 1nat,
{
    let q = end + blanks(s, end);
    let so_far = Tree { rule, start, len: (end - start) as nat, children: parts };
    match operator_at(s, q, rule) {
        None => Step::Match { tree: so_far, dangling },
        Some((operator, n)) => {
            let r = q + n + blanks(s, q + n);
            match operand_at(s, rule, r) {
                Step::Fail(failure) => Step::Match { tree: so_far, dangling: Some(failure) },
                Step::Match { tree, dangling: later } => clause_from(
                    s,
                    rule,
                    start,
                    r + tree.len,
                    parts.push(Tree::leaf(operator, q, n)).push(tree),
                    later,
                ),
            }
        },
    }
}

/// Reads a whole file: expressions on lines of their own, with blank lines
/// allowed before, between and behind them, up to the end of `s`.
pub open spec fn file_at(s: Seq<char>) -> Step {
    let p = gap(s, 0);
    match clause_at(s, Rule::expression, p) {
        Step::Fail(failure) => Step::Fail(failure),
        Step::Match { tree, dangling } => file_from(s, p + tree.len, seq![tree], dangling),
    }
}

/// Reads the rest of a file, where `parts` holds the expressions read so
/// far, up to `end`.
pub open spec fn file_from(
    s: Seq<char>,
    end: nat,
    parts: Seq<Tree>,
    dangling: Option<Failure>,
) -> Step
    decreases remaining(s, end),
{
    let q = end + blanks(s, end);
    let next = end + gap(s, end);
    if next >= s.len() {
        Step::Match {
            tree: Tree {
                rule: Rule::file,
                start: 0,
                len: s.len(),
                children: parts.push(Tree::leaf(Rule::EOI, s.len(), 0)),
            },
            dangling: None,
        }
    } else if next > q {
        match clause_at(s, Rule::expression, next) {
            Step::Fail(failure) => Step::Fail(failure),
            Step::Match { tree, dangling: later } => file_from(
                s,
                next + tree.len,
                parts.push(tree),
                later,
            ),
        }
    } else {
        Step::Fail(
            match dangling {
                Some(failure) => failure,
                None => Failure { position: q, expected: Expected::OperatorOrEnd },
            },
        )
    }
}

/// Reads `rule` at the beginning of `s`. Only `file` has to reach the end of
/// `s`; every other rule may leave a rest unread.
pub open spec fn rule_at(s: Seq<char>, rule: Rule) -> Step {
    match rule {
        Rule::file => file_at(s),
        Rule::expression | Rule::xor_clause | Rule::and_clause => clause_at(s, rule, 0),
        Rule::term => term_at(s, 0),
        _ => match token_len(s, 0, rule) {
            Some(n) => Step::Match { tree: Tree::leaf(rule, 0, n), dangling: None },
            None => Step::Fail(Failure { position: 0, expected: Expected::Token(rule) }),
        },
    }
}

/// The trees stand in textual order: each ends before the next begins.
pub open spec fn in_order(trees: Seq<Tree>) -> bool {
    forall|i: int, j: int|
        0 <= i < j < trees.len() ==> (#[trigger] trees[i]).end() <= (#[trigger] trees[j]).start
}

/// The trees stand side by side: each but the first begins where the blanks
/// end that follow the tree before it.
pub open spec fn side_by_side(s: Seq<char>, trees: Seq<Tree>) -> bool {
    forall|i: int, j: int|
        0 <= i && j == i + 1 && j < trees.len() ==> (#[trigger] trees[j]).start == (
        #[trigger] trees[i]).end() + blanks(s, trees[i].end())
}

/// The trees stand line by line: each but the first begins where the blanks
/// and line breaks end that follow the tree before it, and there is a line
/// break among these unless the tree is the last.
pub open spec fn line_by_line(s: Seq<char>, trees: Seq<Tree>) -> bool {
    forall|i: int, j: int|
        0 <= i && j == i + 1 && j < trees.len() ==> {
            &&& (#[trigger] trees[j]).start == (#[trigger] trees[i]).end() + gap(
                s,
                trees[i].end(),
            )
            &&& j < trees.len() - 1 ==> gap(s, trees[i].end()) > blanks(s, trees[i].end())
        }
}

/// The tree covers its parts exactly: it begins with the first and ends with
/// the last.
pub open spec fn covers_parts(t: Tree) -> bool {
    &&& t.children.len() > 0
    &&& t.children[0].start == t.start
    &&& t.children[t.children.len() - 1].end() == t.end()
}

/// The tree is a reading of a part of `s` by the grammar.
///
/// The tree of an operator, a parenthesis, an identifier or the end of input
/// has no parts, and its token stands in `s` where the tree says. Every
/// other tree covers its parts exactly, and each part is such a reading
/// itself. The parts of a term are negations, followed by an identifier or
/// by an expression in parentheses; those of a clause are operands and
/// operators of its precedence in turn; with nothing but blanks between one
/// part and the next. The parts of a file are expressions and the end of
/// input, each on a later line than the one before it, and the file covers
/// the whole of `s`.
#[verifier::opaque]
pub open spec fn well_formed(s: Seq<char>, t: Tree) -> bool
    decreases t, 1nat,
{
    follows_grammar(s, t)
}

/// What it is for a tree to be well formed, in terms of its parts being well
/// formed.
pub open spec fn follows_grammar(s: Seq<char>, t: Tree) -> bool
    decreases t, 0nat,
{
    let n = t.children.len() as int;
    &&& t.start + t.len <= s.len()
    &&& in_order(t.children)
    &&& forall|i: int| 0 <= i < n ==> well_formed(s, #[trigger] t.children[i])
    &&& match t.rule {
        Rule::term => {
            &&& covers_parts(t)
            &&& side_by_side(s, t.children)
            &&& if t.children[n - 1].rule == Rule::identifier {
                forall|i: int|
                    0 <= i < n - 1 ==> (#[trigger] t.children[i]).rule == Rule::not_operator
            } else {
                &&& n >= 3
                &&& t.children[n - 3].rule == Rule::left_parenthesis
                &&& t.children[n - 2].rule == Rule::expression
                &&& t.children[n - 1].rule == Rule::right_parenthesis
                &&& forall|i: int|
                    0 <= i < n - 3 ==> (#[trigger] t.children[i]).rule == Rule::not_operator
            }
        },
        Rule::and_clause | Rule::xor_clause | Rule::expression => {
            &&& covers_parts(t)
            &&& side_by_side(s, t.children)
            &&& n % 2 == 1
            &&& forall|i: int|
                0 <= i < n && i % 2 == 0 ==> (#[trigger] t.children[i]).rule == operand_rule(
                    t.rule,
                )
            &&& forall|i: int|
                0 <= i < n && i % 2 == 1 ==> {
                    ||| (#[trigger] t.children[i]).rule == operator_rules(t.rule).0
                    ||| t.children[i].rule == operator_rules(t.rule).1
                }
        },
        Rule::file => {
            &&& t.start == 0
            &&& t.len == s.len()
            &&& n >= 2
            &&& t.children[0].start == gap(s, 0)
            &&& line_by_line(s, t.children)
            &&& t.children[n - 1].rule == Rule::EOI
            &&& forall|i: int|
                0 <= i < n - 1 ==> (#[trigger] t.children[i]).rule == Rule::expression
        },
        _ => n == 0 && token_len(s, t.start, t.rule) == Some(t.len),
    }
}

/// A tree is well formed where it follows the grammar. The definition is
/// kept out of sight, so that a proof unfolds it for one tree at a time, by
/// this lemma.
pub proof fn well_formed_unfolds(s: Seq<char>, t: Tree)
    ensures
        well_formed(s, t) == follows_grammar(s, t),
{
    reveal(well_formed);
}

/// The number of the line that holds position `p`, counted from zero: the
/// number of line feeds in front of `p`.
pub open spec fn line_of(s: Seq<char>, p: nat) -> nat
    decreases p,
{
    if p == 0 || p > s.len() {
        0
    } else if s[p - 1] == '\n' {
        line_of(s, (p - 1) as nat) + 1
    } else {
        line_of(s, (p - 1) as nat)
    }
}

/// The column of position `p`, counted from zero: the number of characters
/// between the last line feed in front of `p` and `p`.
pub open spec fn column_of(s: Seq<char>, p: nat) -> nat
    decreases p,
{
    if p == 0 || p > s.len() || s[p - 1] == '\n' {
        0
    } else {
        column_of(s, (p - 1) as nat) + 1
    }
}

} // verus!
