//! Reading a text by the grammar: the parser and its errors.

use vstd::prelude::*;
use vstd::string::StrSliceExecFns;
pub use crate::pairs::{Pair, Pairs, Rule};
use crate::pairs::{all_over, trees, Tree};
use crate::readings::{
    clause_reads, empty_text_has_no_reading, file_is_found, file_reads, is_reading, operand_reads,
    term_reads, token_reads,
};
use crate::syntax::{
    blanks, clause_at, clause_from, column_of, file_at, file_from, first_spelled, gap,
    identifier_at, is_clause, line_of, operand_at, operator_at, operator_rules, rank, remaining,
    rule_at, spelled, stands, term_at, term_from, token_len, well_formed, well_formed_unfolds,
    Expected, Failure, Step,
};

verus! {

/// The characters of a text, one by one.
fn chars_of(input: &str) -> (text: Vec<char>)
    ensures
        text@ == input@,
{
    let mut text: Vec<char> = Vec::new();
    for c in it: input.chars()
        invariant
            text@ == it.seq().take(it.index()),
            it.seq() == input@,
    {
        text.push(c);
    }
    text
}

/// The position behind the blanks that start at `p`.
fn skip_blanks(text: &Vec<char>, p: usize) -> (r: usize)
    requires
        p <= text.len(),
    ensures
        r == p + blanks(text@, p as nat),
        r <= text.len(),
{
    let mut r = p;
    while r < text.len() && (text[r] == ' ' || text[r] == '\t')
        invariant
            p <= r <= text.len(),
            p + blanks(text@, p as nat) == r + blanks(text@, r as nat),
        decreases text.len() - r,
    {
        r += 1;
    }
    r
}

/// The position behind the blanks and line breaks that start at `p`.
fn skip_gap(text: &Vec<char>, p: usize) -> (r: usize)
    requires
        p <= text.len(),
    ensures
        r == p + gap(text@, p as nat),
        r <= text.len(),
{
    let mut r = p;
    while r < text.len() && (text[r] == ' ' || text[r] == '\t' || text[r] == '\n' || text[r]
        == '\r')
        invariant
            p <= r <= text.len(),
            p + gap(text@, p as nat) == r + gap(text@, r as nat),
        decreases text.len() - r,
    {
        r += 1;
    }
    r
}

/// The length of `word` if it is not empty and stands in `text` at `p`.
fn word_at(text: &Vec<char>, p: usize, word: &str) -> (r: Option<usize>)
    requires
        p <= text.len(),
    ensures
        r is Some <==> word@.len() > 0 && spelled(text@, p as nat, word@),
        r is Some ==> r->0 == word@.len(),
{
    let n = word.unicode_len();
    if n == 0 || n > text.len() - p {
        return None;
    }
    let mut i: usize = 0;
    while i < n
        invariant
            i <= n,
            n == word@.len(),
            p + n <= text.len(),
            forall|k: int| 0 <= k < i ==> text@[p + k] == #[trigger] word@[k],
        decreases n - i,
    {
        if text[p + i] != word.get_char(i) {
            return None;
        }
        i += 1;
    }
    Some(n)
}

/// `r` is the length `n`, or neither is there.
spec fn same_len(r: Option<usize>, n: Option<nat>) -> bool {
    match n {
        Some(n) => r is Some && r->0 == n,
        None => r is None,
    }
}

/// The length of the first of three words that stands in `text` at `p`.
fn first_word(text: &Vec<char>, p: usize, a: &str, b: &str, c: &str) -> (r: Option<usize>)
    requires
        p <= text.len(),
    ensures
        same_len(r, first_spelled(text@, p as nat, seq![a@, b@, c@])),
        r is Some ==> 0 < r->0 && p + r->0 <= text.len(),
{
    let ghost words = seq![a@, b@, c@];
    assert(words[0] == a@ && words[1] == b@ && words[2] == c@);
    match word_at(text, p, a) {
        Some(n) => Some(n),
        None => match word_at(text, p, b) {
            Some(n) => Some(n),
            None => word_at(text, p, c),
        },
    }
}

/// The length of `a` if it stands in `text` at `p`.
fn one_word(text: &Vec<char>, p: usize, a: &str) -> (r: Option<usize>)
    requires
        p <= text.len(),
    ensures
        same_len(r, first_spelled(text@, p as nat, seq![a@])),
        r is Some ==> 0 < r->0 && p + r->0 <= text.len(),
{
    let ghost words = seq![a@];
    assert(words[0] == a@);
    word_at(text, p, a)
}

/// Whether an identifier stands in `text` at `p`.
fn identifier_here(text: &Vec<char>, p: usize) -> (r: bool)
    requires
        p <= text.len(),
    ensures
        r == identifier_at(text@, p as nat),
{
    if p >= text.len() {
        return false;
    }
    let c = text[p];
    if !('A' <= c && c <= 'Z') {
        return false;
    }
    if p + 1 < text.len() {
        let d = text[p + 1];
        if ('A' <= d && d <= 'Z') || ('a' <= d && d <= 'z') || ('0' <= d && d <= '9') {
            return false;
        }
    }
    true
}

/// The length of the token of `rule` that stands in `text` at `p`.
fn token(text: &Vec<char>, p: usize, rule: Rule) -> (r: Option<usize>)
    requires
        p <= text.len(),
    ensures
        same_len(r, token_len(text@, p as nat, rule)),
        r is Some ==> p + r->0 <= text.len(),
        r is Some && rule != Rule::EOI ==> 0 < r->0,
{
    match rule {
        Rule::identifier => if identifier_here(text, p) {
            Some(1)
        } else {
            None
        },
        Rule::EOI => if p == text.len() {
            Some(0)
        } else {
            None
        },
        Rule::not_operator => first_word(text, p, "!", "NOT", "not"),
        Rule::and_operator => first_word(text, p, "&", "AND", "and"),
        Rule::nand_operator => first_word(text, p, "!&", "NAND", "nand"),
        Rule::or_operator => first_word(text, p, "|", "OR", "or"),
        Rule::nor_operator => first_word(text, p, "!|", "NOR", "nor"),
        Rule::xor_operator => first_word(text, p, "^", "XOR", "xor"),
        Rule::xnor_operator => first_word(text, p, "!^", "XNOR", "xnor"),
        Rule::left_parenthesis => one_word(text, p, "("),
        Rule::right_parenthesis => one_word(text, p, ")"),
        _ => None,
    }
}

/// The operator of a clause of `rule` that stands in `text` at `p`, with its
/// length.
fn operator(text: &Vec<char>, p: usize, rule: Rule) -> (r: Option<(Rule, usize)>)
    requires
        p <= text.len(),
    ensures
        match operator_at(text@, p as nat, rule) {
            Some((operator, n)) => r matches Some((found, m)) && found == operator && m == n,
            None => r is None,
        },
        r matches Some((found, m)) ==> {
            &&& 0 < m
            &&& p + m <= text.len()
            &&& found == operator_rules(rule).0 || found == operator_rules(rule).1
        },
{
    let (plain, negated) = match rule {
        Rule::expression => (Rule::or_operator, Rule::nor_operator),
        Rule::xor_clause => (Rule::xor_operator, Rule::xnor_operator),
        _ => (Rule::and_operator, Rule::nand_operator),
    };
    match token(text, p, plain) {
        Some(n) => Some((plain, n)),
        None => match token(text, p, negated) {
            Some(n) => Some((negated, n)),
            None => None,
        },
    }
}

/// A place where the text could not be read on.
#[derive(Clone, Copy, Debug)]
struct Stuck {
    position: usize,
    expected: Expected,
}

impl Stuck {
    /// The mathematical form of the failure.
    spec fn failure(self) -> Failure {
        Failure { position: self.position as nat, expected: self.expected }
    }
}

/// What a reader hands back: a node, with the failure that made it stop in
/// front of an operator if there was one, or the failure that kept it from
/// matching.
spec fn step_of<'i>(r: Result<(Pair<'i>, Option<Stuck>), Stuck>) -> Step {
    match r {
        Ok((pair, dangling)) => Step::Match { tree: pair@, dangling: failure_of(dangling) },
        Err(stuck) => Step::Fail(stuck.failure()),
    }
}

/// Every failure that a reader hands back lies within the text.
spec fn placed<'i>(r: Result<(Pair<'i>, Option<Stuck>), Stuck>, len: nat) -> bool {
    match r {
        Ok((_, dangling)) => sited(dangling, len),
        Err(stuck) => stuck.position <= len,
    }
}

/// The failure, if there is one, lies within the text.
spec fn sited(stuck: Option<Stuck>, len: nat) -> bool {
    stuck matches Some(stuck) ==> stuck.position <= len
}

/// The mathematical form of a failure that may be there.
spec fn failure_of(stuck: Option<Stuck>) -> Option<Failure> {
    match stuck {
        Some(stuck) => Some(stuck.failure()),
        None => None,
    }
}

/// A node without parts, for a token.
fn leaf<'i>(input: &'i str, text: &Vec<char>, rule: Rule, p: usize, n: usize) -> (r: Pair<'i>)
    requires
        text@ == input@,
        rule != Rule::file,
        rule != Rule::term,
        !is_clause(rule),
        token_len(text@, p as nat, rule) == Some(n as nat),
    ensures
        r@ == Tree::leaf(rule, p as nat, n as nat),
        r.spec_input() == input@,
{
    let inner: Vec<Pair<'i>> = Vec::new();
    proof {
        assert(trees(inner@) =~= Seq::<Tree>::empty());
        token_reads(text@, rule, p as nat, n as nat);
        assert(p + n <= text.len());
    }
    Pair::new(input, rule, p, p + n, inner)
}

/// Adds a node to those read so far.
fn put<'i>(parts: &mut Vec<Pair<'i>>, pair: Pair<'i>)
    requires
        all_over(old(parts)@, pair.spec_input()),
    ensures
        final(parts)@ == old(parts)@.push(pair),
        trees(final(parts)@) == trees(old(parts)@).push(pair@),
        all_over(final(parts)@, pair.spec_input()),
{
    proof {
        assert(trees(parts@.push(pair)) =~= trees(parts@).push(pair@));
    }
    parts.push(pair);
}

/// What a reader hands back is what the grammar reads, and lies within the
/// text.
spec fn follows<'i>(
    r: Result<(Pair<'i>, Option<Stuck>), Stuck>,
    step: Step,
    input: &'i str,
) -> bool {
    &&& step_of(r) == step
    &&& placed(r, input@.len())
    &&& r matches Ok((pair, _)) ==> pair.spec_input() == input@
}

/// Reads a term at `p`.
fn read_term<'i>(input: &'i str, text: &Vec<char>, p: usize) -> (r: Result<
    (Pair<'i>, Option<Stuck>),
    Stuck,
>)
    requires
        text@ == input@,
        p <= text.len(),
    ensures
        follows(r, term_at(text@, p as nat), input),
    decreases remaining(text@, p as nat), 0nat, 1nat,
{
    let ghost s = text@;
    proof {
        term_reads(s, p as nat);
    }
    let mut parts: Vec<Pair<'i>> = Vec::new();
    let mut q = p;
    let mut not = token(text, q, Rule::not_operator);
    assert(trees(parts@) =~= Seq::<Tree>::empty());
    while not.is_some()
        invariant
            text@ == input@,
            s == text@,
            p <= q <= text.len(),
            same_len(not, token_len(s, q as nat, Rule::not_operator)),
            not is Some ==> 0 < not->0 && q + not->0 <= text.len(),
            term_at(s, p as nat) == term_from(s, p as nat, q as nat, trees(parts@)),
            all_over(parts@, input@),
        decreases text.len() - q,
    {
        let n = not.unwrap();
        let pair = leaf(input, text, Rule::not_operator, q, n);
        put(&mut parts, pair);
        q = skip_blanks(text, q + n);
        not = token(text, q, Rule::not_operator);
    }
    if identifier_here(text, q) {
        let name = leaf(input, text, Rule::identifier, q, 1);
        put(&mut parts, name);
        Ok((Pair::new(input, Rule::term, p, q + 1, parts), None))
    } else {
        match token(text, q, Rule::left_parenthesis) {
            Some(n) => {
                let open = leaf(input, text, Rule::left_parenthesis, q, n);
                let inside = skip_blanks(text, q + n);
                match read_clause(input, text, Rule::expression, inside) {
                    Err(stuck) => Err(stuck),
                    Ok((tree, dangling)) => {
                        proof {
                            clause_reads(s, Rule::expression, inside as nat);
                        }
                        let r = skip_blanks(text, tree.end());
                        match token(text, r, Rule::right_parenthesis) {
                            Some(m) => {
                                let close = leaf(input, text, Rule::right_parenthesis, r, m);
                                put(&mut parts, open);
                                put(&mut parts, tree);
                                put(&mut parts, close);
                                Ok((Pair::new(input, Rule::term, p, r + m, parts), None))
                            },
                            None => Err(
                                match dangling {
                                    Some(stuck) => stuck,
                                    None => Stuck {
                                        position: r,
                                        expected: Expected::OperatorOrClose,
                                    },
                                },
                            ),
                        }
                    },
                }
            },
            None => Err(Stuck { position: q, expected: Expected::Operand }),
        }
    }
}

/// Reads at `p` an operand of a clause of `rule`.
fn read_operand<'i>(input: &'i str, text: &Vec<char>, rule: Rule, p: usize) -> (r: Result<
    (Pair<'i>, Option<Stuck>),
    Stuck,
>)
    requires
        text@ == input@,
        p <= text.len(),
        is_clause(rule),
    ensures
        follows(r, operand_at(text@, rule, p as nat), input),
    decreases remaining(text@, p as nat), rank(rule) + 1, 0nat,
{
    match rule {
        Rule::expression => read_clause(input, text, Rule::xor_clause, p),
        Rule::xor_clause => read_clause(input, text, Rule::and_clause, p),
        _ => read_term(input, text, p),
    }
}

/// Reads at `p` a clause of `rule`.
fn read_clause<'i>(input: &'i str, text: &Vec<char>, rule: Rule, p: usize) -> (r: Result<
    (Pair<'i>, Option<Stuck>),
    Stuck,
>)
    requires
        text@ == input@,
        p <= text.len(),
        is_clause(rule),
    ensures
        follows(r, clause_at(text@, rule, p as nat), input),
    decreases remaining(text@, p as nat), rank(rule) + 1, 2nat,
{
    let ghost s = text@;
    proof {
        clause_reads(s, rule, p as nat);
    }
    match read_operand(input, text, rule, p) {
        Err(stuck) => Err(stuck),
        Ok((first, hanging)) => {
            proof {
                operand_reads(s, rule, p as nat);
            }
            let mut end = first.end();
            let mut dangling = hanging;
            let mut parts: Vec<Pair<'i>> = Vec::new();
            assert(trees(parts@) =~= Seq::<Tree>::empty());
            put(&mut parts, first);
            assert(trees(parts@) =~= seq![first@]);
            let mut more = true;
            while more
                invariant
                    text@ == input@,
                    s == text@,
                    is_clause(rule),
                    p < end <= text.len(),
                    clause_at(s, rule, p as nat) == if more {
                        clause_from(
                            s,
                            rule,
                            p as nat,
                            end as nat,
                            trees(parts@),
                            failure_of(dangling),
                        )
                    } else {
                        Step::Match {
                            tree: Tree {
                                rule,
                                start: p as nat,
                                len: (end - p) as nat,
                                children: trees(parts@),
                            },
                            dangling: failure_of(dangling),
                        }
                    },
                    sited(dangling, s.len()),
                    all_over(parts@, input@),
                decreases text.len() - end, if more { 1nat } else { 0nat },
            {
                let q = skip_blanks(text, end);
                match operator(text, q, rule) {
                    None => {
                        more = false;
                    },
                    Some((sign, n)) => {
                        let r = skip_blanks(text, q + n);
                        match read_operand(input, text, rule, r) {
                            Err(stuck) => {
                                dangling = Some(stuck);
                                more = false;
                            },
                            Ok((next, later)) => {
                                proof {
                                    operand_reads(s, rule, r as nat);
                                }
                                let joint = leaf(input, text, sign, q, n);
                                end = next.end();
                                put(&mut parts, joint);
                                put(&mut parts, next);
                                dangling = later;
                            },
                        }
                    },
                }
            }
            Ok((Pair::new(input, rule, p, end, parts), dangling))
        },
    }
}

/// Reads a whole file.
fn read_file<'i>(input: &'i str, text: &Vec<char>) -> (r: Result<(Pair<'i>, Option<Stuck>), Stuck>)
    requires
        text@ == input@,
    ensures
        follows(r, file_at(text@), input),
{
    let ghost s = text@;
    proof {
        file_reads(s);
    }
    let p = skip_gap(text, 0);
    match read_clause(input, text, Rule::expression, p) {
        Err(stuck) => Err(stuck),
        Ok((first, hanging)) => {
            let mut end = first.end();
            let mut dangling = hanging;
            let mut parts: Vec<Pair<'i>> = Vec::new();
            assert(trees(parts@) =~= Seq::<Tree>::empty());
            put(&mut parts, first);
            assert(trees(parts@) =~= seq![first@]);
            proof {
                clause_reads(s, Rule::expression, p as nat);
            }
            loop
                invariant
                    text@ == input@,
                    s == text@,
                    end <= text.len(),
                    file_at(s) == file_from(s, end as nat, trees(parts@), failure_of(dangling)),
                    file_at(s) matches Step::Match { tree, .. } ==> is_reading(s, tree),
                    sited(dangling, s.len()),
                    all_over(parts@, input@),
                decreases text.len() - end,
            {
                let q = skip_blanks(text, end);
                let next = skip_gap(text, end);
                if next >= text.len() {
                    let last = leaf(input, text, Rule::EOI, text.len(), 0);
                    put(&mut parts, last);
                    return Ok((Pair::new(input, Rule::file, 0, text.len(), parts), None));
                } else if next > q {
                    match read_clause(input, text, Rule::expression, next) {
                        Err(stuck) => {
                            return Err(stuck);
                        },
                        Ok((tree, later)) => {
                            proof {
                                clause_reads(s, Rule::expression, next as nat);
                            }
                            end = tree.end();
                            put(&mut parts, tree);
                            dangling = later;
                        },
                    }
                } else {
                    return Err(
                        match dangling {
                            Some(stuck) => stuck,
                            None => Stuck { position: q, expected: Expected::OperatorOrEnd },
                        },
                    );
                }
            }
        },
    }
}

/// A syntax error: where the text could not be read on, and what was
/// acceptable there.
#[derive(Debug, PartialEq, Eq)]
pub struct SyntaxError {
    /// The position of the character that could not be read, counted in
    /// characters from the beginning of the text.
    pub position: usize,
    /// The line of that position, counted from zero.
    pub line: usize,
    /// The column of that position in its line, counted from zero.
    pub column: usize,
    /// The rules whose tokens were acceptable there.
    pub expected: Vec<Rule>,
}

impl SyntaxError {
    /// The error reports `failure` in the text `s`.
    pub open spec fn reports(self, s: Seq<char>, failure: Failure) -> bool {
        &&& self.position == failure.position
        &&& self.line == line_of(s, failure.position)
        &&& self.column == column_of(s, failure.position)
        &&& self.expected@ == failure.expected.rules()
    }
}

/// Why a text could not be parsed.
#[derive(Debug, PartialEq, Eq)]
pub enum ParserError {
    /// The text does not follow the grammar.
    SyntaxError(SyntaxError),
    /// The text is empty.
    EmptyInputError,
}

/// The rules that `expected` stands for.
fn rules_of(expected: Expected) -> (r: Vec<Rule>)
    ensures
        r@ == expected.rules(),
{
    match expected {
        Expected::Token(rule) => vec![rule],
        Expected::Operand => vec![Rule::not_operator, Rule::identifier, Rule::left_parenthesis],
        Expected::OperatorOrClose => vec![
            Rule::and_operator,
            Rule::nand_operator,
            Rule::xor_operator,
            Rule::xnor_operator,
            Rule::or_operator,
            Rule::nor_operator,
            Rule::right_parenthesis,
        ],
        Expected::OperatorOrEnd => vec![
            Rule::and_operator,
            Rule::nand_operator,
            Rule::xor_operator,
            Rule::xnor_operator,
            Rule::or_operator,
            Rule::nor_operator,
            Rule::EOI,
        ],
    }
}

/// The error for a place where the text could not be read on.
fn syntax_error(text: &Vec<char>, stuck: Stuck) -> (r: SyntaxError)
    requires
        stuck.position <= text.len(),
    ensures
        r.reports(text@, stuck.failure()),
{
    let mut line: usize = 0;
    let mut column: usize = 0;
    let mut i: usize = 0;
    while i < stuck.position
        invariant
            i <= stuck.position <= text.len(),
            line == line_of(text@, i as nat),
            column == column_of(text@, i as nat),
            line <= i,
            column <= i,
        decreases stuck.position - i,
    {
        if text[i] == '\n' {
            line += 1;
            column = 0;
        } else {
            column += 1;
        }
        i += 1;
    }
    SyntaxError { position: stuck.position, line, column, expected: rules_of(stuck.expected) }
}

/// The grammar of boolean expressions.
#[derive(Debug)]
pub struct Grammar;

impl Grammar {
    /// Reads `rule` at the beginning of `input`. On a match the result holds
    /// one node, that of `rule`; only `Rule::file` has to match the whole of
    /// `input`.
    pub fn parse<'i>(rule: Rule, input: &'i str) -> (r: Result<Pairs<'i>, SyntaxError>)
        ensures
            match rule_at(input@, rule) {
                Step::Match { tree, dangling } => {
                    &&& r matches Ok(pairs) && pairs@ == seq![tree] && pairs.spec_input()
                        == input@
                    &&& tree.rule == rule
                    &&& tree.start == 0
                    &&& well_formed(input@, tree)
                },
                Step::Fail(failure) => r matches Err(error) && error.reports(input@, failure),
            },
    {
        let text = chars_of(input);
        proof {
            let s = input@;
            match rule {
                Rule::file => {
                    file_reads(s);
                    if let Step::Match { tree, .. } = file_at(s) {
                        well_formed_unfolds(s, tree);
                    }
                },
                Rule::expression | Rule::xor_clause | Rule::and_clause => clause_reads(s, rule, 0),
                Rule::term => term_reads(s, 0),
                _ => {
                    if let Some(n) = token_len(s, 0, rule) {
                        token_reads(s, rule, 0, n);
                    }
                },
            }
        }
        let read = match rule {
            Rule::file => read_file(input, &text),
            Rule::expression | Rule::xor_clause | Rule::and_clause => read_clause(
                input,
                &text,
                rule,
                0,
            ),
            Rule::term => read_term(input, &text, 0),
            _ => match token(&text, 0, rule) {
                Some(n) => Ok((leaf(input, &text, rule, 0, n), None)),
                None => Err(Stuck { position: 0, expected: Expected::Token(rule) }),
            },
        };
        match read {
            Ok((pair, _)) => {
                let mut pairs: Vec<Pair<'i>> = Vec::new();
                pairs.push(pair);
                assert(trees(pairs@) =~= seq![pair@]);
                Ok(Pairs::new(input, pairs))
            },
            Err(stuck) => Err(syntax_error(&text, stuck)),
        }
    }
}

/// Parses a text that holds one or more expressions, each on a line of its
/// own. The result holds one node, that of the rule `file`.
///
/// The text is parsed if and only if it has a reading as a file by the
/// grammar, and the node is that reading. Otherwise the error says where the
/// text could not be read on, or that the text is empty.
pub fn parse<'i>(input: &'i str) -> (r: Result<Pairs<'i>, ParserError>)
    ensures
        forall|t: Tree| is_reading(input@, t) ==> (r matches Ok(pairs) && pairs@ == seq![t]),
        r matches Ok(pairs) ==> {
            &&& pairs@.len() == 1
            &&& is_reading(input@, pairs@[0])
            &&& pairs.spec_input() == input@
        },
        input@.len() == 0 ==> r matches Err(ParserError::EmptyInputError),
        input@.len() > 0 ==> match file_at(input@) {
            Step::Match { tree, dangling } => {
                &&& r matches Ok(pairs) && pairs@ == seq![tree] && pairs.spec_input() == input@
                &&& tree.rule == Rule::file
                &&& tree.start == 0
                &&& well_formed(input@, tree)
            },
            Step::Fail(failure) => r matches Err(ParserError::SyntaxError(error))
                && error.reports(input@, failure),
        },
{
    proof {
        assert forall|t: Tree| is_reading(input@, t) implies input@.len() > 0 && file_at(input@)
            == (Step::Match { tree: t, dangling: None }) by {
            if input@.len() == 0 {
                empty_text_has_no_reading(input@, t);
            }
            file_is_found(input@, t);
        }
    }
    if input.is_empty() {
        return Err(ParserError::EmptyInputError);
    }
    match Grammar::parse(Rule::file, input) {
        Ok(pairs) => Ok(pairs),
        Err(error) => Err(ParserError::SyntaxError(error)),
    }
}

} // verus!
