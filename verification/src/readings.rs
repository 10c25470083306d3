//! The grammar reads what can be read, and nothing else.
//!
//! [`syntax`](crate::syntax) says in two ways what a text means. Its reading
//! functions (`term_at`, `clause_at`, `file_at`) say what a reader finds that
//! goes through the text from left to right. Its predicate `well_formed`
//! says which trees follow the grammar, without saying how to find one. This
//! module proves that the two agree: what the functions read follows the
//! grammar, and a tree that follows the grammar is the tree that the
//! functions read. So a text has at most one reading as a file, and a file
//! that has a reading is parsed.

use vstd::prelude::*;
use crate::laws::tokens_are_spelled_out;
use crate::pairs::{Rule, Tree};
use crate::syntax::{
    blanks, clause_at, clause_from, file_at, file_from, gap, identifier_at, in_order, is_blank,
    is_clause, is_line_break, line_by_line, operand_at, operand_rule, operator_at, operator_rules,
    rank, remaining, side_by_side, term_at, term_from, token_len, well_formed, well_formed_unfolds,
    Failure, Step,
};

verus! {

/// The tree is a reading of the whole of `s` as a file.
pub open spec fn is_reading(s: Seq<char>, t: Tree) -> bool {
    t.rule == Rule::file && well_formed(s, t)
}

/// The tree follows the grammar as a tree of `rule` that begins at `p`, and
/// is not empty.
pub open spec fn reads(s: Seq<char>, t: Tree, rule: Rule, p: nat) -> bool {
    &&& well_formed(s, t)
    &&& t.rule == rule
    &&& t.start == p
    &&& t.len >= 1
    &&& t.end() <= s.len()
}

/// The token of at most one rule stands at a place, but that `!` may stand
/// where a longer operator begins. In particular: where an operator stands,
/// none of another precedence does, nor its own twin; where a parenthesis or
/// an identifier stands, no operator does; and no token begins with a blank
/// or a line break.
proof fn tokens_differ(s: Seq<char>, q: nat)
    ensures
        token_len(s, q, Rule::and_operator) is Some ==> {
            &&& token_len(s, q, Rule::nand_operator) is None
            &&& operator_at(s, q, Rule::xor_clause) is None
            &&& operator_at(s, q, Rule::expression) is None
        },
        token_len(s, q, Rule::nand_operator) is Some ==> {
            &&& token_len(s, q, Rule::and_operator) is None
            &&& operator_at(s, q, Rule::xor_clause) is None
            &&& operator_at(s, q, Rule::expression) is None
        },
        token_len(s, q, Rule::xor_operator) is Some ==> {
            &&& token_len(s, q, Rule::xnor_operator) is None
            &&& operator_at(s, q, Rule::and_clause) is None
            &&& operator_at(s, q, Rule::expression) is None
        },
        token_len(s, q, Rule::xnor_operator) is Some ==> {
            &&& token_len(s, q, Rule::xor_operator) is None
            &&& operator_at(s, q, Rule::and_clause) is None
            &&& operator_at(s, q, Rule::expression) is None
        },
        token_len(s, q, Rule::or_operator) is Some ==> {
            &&& token_len(s, q, Rule::nor_operator) is None
            &&& operator_at(s, q, Rule::and_clause) is None
            &&& operator_at(s, q, Rule::xor_clause) is None
        },
        token_len(s, q, Rule::nor_operator) is Some ==> {
            &&& token_len(s, q, Rule::or_operator) is None
            &&& operator_at(s, q, Rule::and_clause) is None
            &&& operator_at(s, q, Rule::xor_clause) is None
        },
        token_len(s, q, Rule::right_parenthesis) is Some || q >= s.len() || is_line_break(
            s[q as int],
        ) ==> {
            &&& operator_at(s, q, Rule::and_clause) is None
            &&& operator_at(s, q, Rule::xor_clause) is None
            &&& operator_at(s, q, Rule::expression) is None
        },
        identifier_at(s, q) ==> token_len(s, q, Rule::not_operator) is None,
        token_len(s, q, Rule::left_parenthesis) is Some ==> {
            &&& token_len(s, q, Rule::not_operator) is None
            &&& !identifier_at(s, q)
        },
{
    tokens_are_spelled_out(s, q, Rule::not_operator);
    tokens_are_spelled_out(s, q, Rule::and_operator);
    tokens_are_spelled_out(s, q, Rule::nand_operator);
    tokens_are_spelled_out(s, q, Rule::or_operator);
    tokens_are_spelled_out(s, q, Rule::nor_operator);
    tokens_are_spelled_out(s, q, Rule::xor_operator);
    tokens_are_spelled_out(s, q, Rule::xnor_operator);
    tokens_are_spelled_out(s, q, Rule::left_parenthesis);
    tokens_are_spelled_out(s, q, Rule::right_parenthesis);
}

/// The tree for a token that stands in the text follows the grammar.
pub proof fn token_reads(s: Seq<char>, rule: Rule, p: nat, n: nat)
    requires
        token_len(s, p, rule) == Some(n),
        rule != Rule::file,
        rule != Rule::term,
        !is_clause(rule),
    ensures
        well_formed(s, Tree::leaf(rule, p, n)),
        p + n <= s.len(),
        rule != Rule::EOI ==> n >= 1,
{
    well_formed_unfolds(s, Tree::leaf(rule, p, n));
}

/// The tree of a token has no parts, and its token stands where it says.
proof fn token_is_leaf(s: Seq<char>, c: Tree)
    requires
        well_formed(s, c),
        !is_clause(c.rule),
        c.rule != Rule::term,
        c.rule != Rule::file,
    ensures
        c == Tree::leaf(c.rule, c.start, c.len),
        token_len(s, c.start, c.rule) == Some(c.len),
        c.rule != Rule::EOI ==> c.len >= 1,
{
    well_formed_unfolds(s, c);
    assert(c.children =~= Seq::<Tree>::empty());
}

/// Behind the blanks that start at `end` stands no blank. Where the run of
/// blanks and line breaks from `end` is longer than that of blanks, or
/// reaches the end of the text, a line break stands there, or nothing.
proof fn behind_blanks(s: Seq<char>, end: nat)
    requires
        end <= s.len(),
    ensures
        end + blanks(s, end) <= end + gap(s, end) <= s.len(),
        gap(s, end) > blanks(s, end) || end + gap(s, end) >= s.len() ==> {
            let q = end + blanks(s, end);
            q >= s.len() || is_line_break(s[q as int])
        },
    decreases s.len() - end,
{
    if end < s.len() && is_blank(s[end as int]) {
        behind_blanks(s, end + 1);
    } else if end < s.len() && is_line_break(s[end as int]) {
        behind_gap(s, end + 1);
    }
}

/// The run of blanks and line breaks that starts at `end` ends within the
/// text.
proof fn behind_gap(s: Seq<char>, end: nat)
    requires
        end <= s.len(),
    ensures
        end + gap(s, end) <= s.len(),
    decreases s.len() - end,
{
    if end < s.len() && (is_blank(s[end as int]) || is_line_break(s[end as int])) {
        behind_gap(s, end + 1);
    }
}

/// Trees that stand side by side, with one more behind the blanks that
/// follow them.
proof fn one_more_beside(s: Seq<char>, parts: Seq<Tree>, c: Tree)
    requires
        in_order(parts),
        side_by_side(s, parts),
        parts.len() > 0 ==> c.start == parts.last().end() + blanks(s, parts.last().end()),
        forall|i: int| 0 <= i < parts.len() ==> parts[i].start <= (#[trigger] parts[i]).end(),
    ensures
        in_order(parts.push(c)),
        side_by_side(s, parts.push(c)),
{
    let all = parts.push(c);
    let n = parts.len() as int;
    assert forall|i: int, j: int| 0 <= i < j < all.len() implies (#[trigger] all[i]).end() <= (
    #[trigger] all[j]).start by {
        if j < n {
            assert(all[i] == parts[i] && all[j] == parts[j]);
        } else if i < n - 1 {
            assert(all[i] == parts[i]);
            assert(parts[i].end() <= parts[n - 1].start);
            assert(parts[n - 1].start <= parts[n - 1].end());
        } else {
            assert(all[i] == parts[n - 1]);
        }
    }
    assert forall|i: int, j: int| 0 <= i && j == i + 1 && j < all.len() implies (
    #[trigger] all[j]).start == (#[trigger] all[i]).end() + blanks(s, all[i].end()) by {
        assert(all[i] == parts[i]);
        if j < n {
            assert(all[j] == parts[j]);
        }
    }
}

/// The negations read so far in front of a term that starts at `start`, up
/// to `q`.
spec fn nots_so_far(s: Seq<char>, start: nat, q: nat, parts: Seq<Tree>) -> bool {
    &&& start <= q <= s.len()
    &&& forall|i: int|
        0 <= i < parts.len() ==> well_formed(s, #[trigger] parts[i]) && parts[i].rule
            == Rule::not_operator && parts[i].start <= parts[i].end()
    &&& in_order(parts)
    &&& side_by_side(s, parts)
    &&& parts.len() == 0 ==> q == start
    &&& parts.len() > 0 ==> parts[0].start == start && q == parts.last().end() + blanks(
        s,
        parts.last().end(),
    )
}

/// What the grammar reads as a term follows the grammar.
pub proof fn term_reads(s: Seq<char>, p: nat)
    requires
        p <= s.len(),
    ensures
        term_at(s, p) matches Step::Match { tree, .. } ==> reads(s, tree, Rule::term, p),
    decreases remaining(s, p), 0nat, 1nat,
{
    term_reads_from(s, p, p, Seq::empty());
}

/// What the grammar reads as the rest of a term follows the grammar.
proof fn term_reads_from(s: Seq<char>, start: nat, q: nat, parts: Seq<Tree>)
    requires
        nots_so_far(s, start, q, parts),
    ensures
        term_from(s, start, q, parts) matches Step::Match { tree, .. } ==> reads(
            s,
            tree,
            Rule::term,
            start,
        ),
    decreases remaining(s, q), 0nat, 0nat,
{
    let n = parts.len() as int;
    if let Some(m) = token_len(s, q, Rule::not_operator) {
        let not = Tree::leaf(Rule::not_operator, q, m);
        token_reads(s, Rule::not_operator, q, m);
        behind_blanks(s, q + m);
        one_more_beside(s, parts, not);
        let more = parts.push(not);
        assert(more.last() == not);
        assert(more[0] == if n > 0 {
            parts[0]
        } else {
            not
        });
        assert forall|i: int| 0 <= i < more.len() implies well_formed(s, #[trigger] more[i])
            && more[i].rule == Rule::not_operator && more[i].start <= more[i].end() by {
            if i < n {
                assert(more[i] == parts[i]);
            }
        }
        term_reads_from(s, start, q + m + blanks(s, q + m), more);
    } else if identifier_at(s, q) {
        let name = Tree::leaf(Rule::identifier, q, 1);
        token_reads(s, Rule::identifier, q, 1);
        one_more_beside(s, parts, name);
        let kids = parts.push(name);
        let tree = Tree { rule: Rule::term, start, len: (q + 1 - start) as nat, children: kids };
        assert(kids[0] == if n > 0 {
            parts[0]
        } else {
            name
        });
        assert(kids[n] == name);
        assert forall|i: int| 0 <= i < kids.len() implies well_formed(s, #[trigger] kids[i]) by {
            if i < n {
                assert(kids[i] == parts[i]);
            }
        }
        assert forall|i: int| 0 <= i < n implies (#[trigger] kids[i]).rule
            == Rule::not_operator by {
            assert(kids[i] == parts[i]);
        }
        well_formed_unfolds(s, tree);
    } else if let Some(m) = token_len(s, q, Rule::left_parenthesis) {
        let open = Tree::leaf(Rule::left_parenthesis, q, m);
        token_reads(s, Rule::left_parenthesis, q, m);
        behind_blanks(s, q + m);
        let inside = q + m + blanks(s, q + m);
        clause_reads(s, Rule::expression, inside);
        match clause_at(s, Rule::expression, inside) {
            Step::Fail(_) => {},
            Step::Match { tree: inner, .. } => {
                behind_blanks(s, inside + inner.len);
                let r = inside + inner.len + blanks(s, inside + inner.len);
                match token_len(s, r, Rule::right_parenthesis) {
                    None => {},
                    Some(m2) => {
                        let close = Tree::leaf(Rule::right_parenthesis, r, m2);
                        token_reads(s, Rule::right_parenthesis, r, m2);
                        one_more_beside(s, parts, open);
                        let one = parts.push(open);
                        assert(one.last() == open);
                        assert forall|i: int| 0 <= i < one.len() implies one[i].start <= (
                        #[trigger] one[i]).end() by {
                            if i < n {
                                assert(one[i] == parts[i]);
                            }
                        }
                        one_more_beside(s, one, inner);
                        let two = one.push(inner);
                        assert(two.last() == inner);
                        assert forall|i: int| 0 <= i < two.len() implies two[i].start <= (
                        #[trigger] two[i]).end() by {
                            if i <= n {
                                assert(two[i] == one[i]);
                            }
                        }
                        one_more_beside(s, two, close);
                        let kids = two.push(close);
                        let tree = Tree {
                            rule: Rule::term,
                            start,
                            len: (r + m2 - start) as nat,
                            children: kids,
                        };
                        assert(kids.len() == n + 3);
                        assert(kids[n] == open && kids[n + 1] == inner && kids[n + 2] == close);
                        assert(kids[0] == if n > 0 {
                            parts[0]
                        } else {
                            open
                        });
                        assert forall|i: int| 0 <= i < kids.len() implies well_formed(
                            s,
                            #[trigger] kids[i],
                        ) by {
                            if i < n {
                                assert(kids[i] == parts[i]);
                            }
                        }
                        assert forall|i: int| 0 <= i < n implies (#[trigger] kids[i]).rule
                            == Rule::not_operator by {
                            assert(kids[i] == parts[i]);
                        }
                        well_formed_unfolds(s, tree);
                    },
                }
            },
        }
    }
}

/// What the grammar reads as an operand of a clause follows the grammar.
pub proof fn operand_reads(s: Seq<char>, rule: Rule, p: nat)
    requires
        is_clause(rule),
        p <= s.len(),
    ensures
        operand_at(s, rule, p) matches Step::Match { tree, .. } ==> reads(
            s,
            tree,
            operand_rule(rule),
            p,
        ),
    decreases remaining(s, p), rank(rule) + 1, 0nat,
{
    if rank(rule) <= 1 {
        term_reads(s, p);
    } else {
        clause_reads(s, operand_rule(rule), p);
    }
}

/// The parts read so far of a clause of `rule` that starts at `start`, up to
/// `end`.
spec fn clause_so_far(s: Seq<char>, rule: Rule, start: nat, end: nat, parts: Seq<Tree>) -> bool {
    &&& is_clause(rule)
    &&& start < end <= s.len()
    &&& parts.len() % 2 == 1
    &&& forall|i: int|
        0 <= i < parts.len() ==> well_formed(s, #[trigger] parts[i]) && parts[i].start
            <= parts[i].end()
    &&& forall|i: int|
        0 <= i < parts.len() && i % 2 == 0 ==> (#[trigger] parts[i]).rule == operand_rule(rule)
    &&& forall|i: int|
        0 <= i < parts.len() && i % 2 == 1 ==> {
            ||| (#[trigger] parts[i]).rule == operator_rules(rule).0
            ||| parts[i].rule == operator_rules(rule).1
        }
    &&& in_order(parts)
    &&& side_by_side(s, parts)
    &&& parts[0].start == start
    &&& parts.last().end() == end
}

/// What the grammar reads as a clause follows the grammar.
pub proof fn clause_reads(s: Seq<char>, rule: Rule, p: nat)
    requires
        is_clause(rule),
        p <= s.len(),
    ensures
        clause_at(s, rule, p) matches Step::Match { tree, .. } ==> reads(s, tree, rule, p),
    decreases remaining(s, p), rank(rule) + 1, 2nat,
{
    operand_reads(s, rule, p);
    match operand_at(s, rule, p) {
        Step::Fail(_) => {},
        Step::Match { tree, dangling } => {
            let parts = seq![tree];
            assert(parts[0] == tree);
            clause_reads_from(s, rule, p, p + tree.len, parts, dangling);
        },
    }
}

/// What the grammar reads as the rest of a clause follows the grammar.
proof fn clause_reads_from(
    s: Seq<char>,
    rule: Rule,
    start: nat,
    end: nat,
    parts: Seq<Tree>,
    dangling: Option<Failure>,
)
    requires
        clause_so_far(s, rule, start, end, parts),
    ensures
        clause_from(s, rule, start, end, parts, dangling) matches Step::Match { tree, .. }
            ==> reads(s, tree, rule, start),
    decreases remaining(s, end), rank(rule) + 1, 1nat,
{
    let n = parts.len() as int;
    behind_blanks(s, end);
    let q = end + blanks(s, end);
    let so_far = Tree { rule, start, len: (end - start) as nat, children: parts };
    well_formed_unfolds(s, so_far);
    assert(well_formed(s, so_far));
    match operator_at(s, q, rule) {
        None => {},
        Some((operator, m)) => {
            let sign = Tree::leaf(operator, q, m);
            token_reads(s, operator, q, m);
            behind_blanks(s, q + m);
            let r = q + m + blanks(s, q + m);
            operand_reads(s, rule, r);
            match operand_at(s, rule, r) {
                Step::Fail(_) => {},
                Step::Match { tree, dangling: later } => {
                    one_more_beside(s, parts, sign);
                    let one = parts.push(sign);
                    assert(one.last() == sign);
                    assert forall|i: int| 0 <= i < one.len() implies one[i].start <= (
                    #[trigger] one[i]).end() by {
                        if i < n {
                            assert(one[i] == parts[i]);
                        }
                    }
                    one_more_beside(s, one, tree);
                    let more = one.push(tree);
                    assert(more.len() == n + 2);
                    assert(more[n] == sign && more[n + 1] == tree);
                    assert(more[0] == parts[0]);
                    assert(more.last() == tree);
                    assert forall|i: int| 0 <= i < more.len() implies well_formed(
                        s,
                        #[trigger] more[i],
                    ) && more[i].start <= more[i].end() by {
                        if i < n {
                            assert(more[i] == parts[i]);
                        }
                    }
                    assert forall|i: int| 0 <= i < more.len() && i % 2 == 0 implies (
                    #[trigger] more[i]).rule == operand_rule(rule) by {
                        if i < n {
                            assert(more[i] == parts[i]);
                        }
                    }
                    assert forall|i: int| 0 <= i < more.len() && i % 2 == 1 implies {
                        ||| (#[trigger] more[i]).rule == operator_rules(rule).0
                        ||| more[i].rule == operator_rules(rule).1
                    } by {
                        if i < n {
                            assert(more[i] == parts[i]);
                        }
                    }
                    clause_reads_from(s, rule, start, r + tree.len, more, later);
                },
            }
        },
    }
}

/// The expressions read so far of a file, up to `end`: each but the first
/// begins on a later line than the one before it ends.
spec fn lines_so_far(s: Seq<char>, end: nat, parts: Seq<Tree>) -> bool {
    &&& parts.len() > 0
    &&& end <= s.len()
    &&& forall|i: int|
        0 <= i < parts.len() ==> well_formed(s, #[trigger] parts[i]) && parts[i].rule
            == Rule::expression
    &&& in_order(parts)
    &&& forall|i: int, j: int|
        0 <= i && j == i + 1 && j < parts.len() ==> {
            &&& (#[trigger] parts[j]).start == (#[trigger] parts[i]).end() + gap(
                s,
                parts[i].end(),
            )
            &&& gap(s, parts[i].end()) > blanks(s, parts[i].end())
        }
    &&& parts[0].start == gap(s, 0)
    &&& parts.last().end() == end
}

/// Expressions that stand line by line, with one more tree behind the
/// blanks and line breaks that follow them.
proof fn one_more_below(s: Seq<char>, end: nat, parts: Seq<Tree>, c: Tree)
    requires
        lines_so_far(s, end, parts),
        c.start == end + gap(s, end),
        well_formed(s, c),
    ensures
        in_order(parts.push(c)),
        line_by_line(s, parts.push(c)),
        gap(s, end) > blanks(s, end) ==> forall|i: int, j: int|
            0 <= i && j == i + 1 && j < parts.len() + 1 ==> {
                &&& (#[trigger] parts.push(c)[j]).start == (#[trigger] parts.push(c)[i]).end()
                    + gap(s, parts.push(c)[i].end())
                &&& gap(s, parts.push(c)[i].end()) > blanks(s, parts.push(c)[i].end())
            },
        forall|i: int| 0 <= i < parts.len() + 1 ==> well_formed(s, #[trigger] parts.push(c)[i]),
        parts.push(c)[0] == parts[0],
        parts.push(c).last() == c,
{
    let all = parts.push(c);
    let n = parts.len() as int;
    assert forall|i: int| 0 <= i < n implies parts[i].start <= (#[trigger] parts[i]).end() by {}
    assert forall|i: int, j: int| 0 <= i < j < all.len() implies (#[trigger] all[i]).end() <= (
    #[trigger] all[j]).start by {
        if j < n {
            assert(all[i] == parts[i] && all[j] == parts[j]);
        } else if i < n - 1 {
            assert(all[i] == parts[i]);
            assert(parts[i].end() <= parts[n - 1].start);
            assert(parts[n - 1].start <= parts[n - 1].end());
        } else {
            assert(all[i] == parts[n - 1]);
        }
    }
    assert forall|i: int, j: int| 0 <= i && j == i + 1 && j < all.len() implies {
        &&& (#[trigger] all[j]).start == (#[trigger] all[i]).end() + gap(s, all[i].end())
        &&& (j < all.len() - 1 || gap(s, end) > blanks(s, end)) ==> gap(s, all[i].end())
            > blanks(s, all[i].end())
    } by {
        assert(all[i] == parts[i]);
        if j < n {
            assert(all[j] == parts[j]);
        }
    }
    assert forall|i: int| 0 <= i < n + 1 implies well_formed(s, #[trigger] all[i]) by {
        if i < n {
            assert(all[i] == parts[i]);
        }
    }
}

/// What the grammar reads as the rest of a file follows the grammar.
proof fn file_reads_from(s: Seq<char>, end: nat, parts: Seq<Tree>, dangling: Option<Failure>)
    requires
        lines_so_far(s, end, parts),
    ensures
        file_from(s, end, parts, dangling) matches Step::Match { tree, .. } ==> is_reading(
            s,
            tree,
        ),
    decreases remaining(s, end),
{
    let n = parts.len() as int;
    behind_blanks(s, end);
    let q = end + blanks(s, end);
    let next = end + gap(s, end);
    if next >= s.len() {
        let last = Tree::leaf(Rule::EOI, s.len(), 0);
        token_reads(s, Rule::EOI, s.len(), 0);
        one_more_below(s, end, parts, last);
        let kids = parts.push(last);
        let tree = Tree { rule: Rule::file, start: 0, len: s.len(), children: kids };
        assert(kids[n] == last);
        assert forall|i: int| 0 <= i < n implies (#[trigger] kids[i]).rule
            == Rule::expression by {
            assert(kids[i] == parts[i]);
        }
        well_formed_unfolds(s, tree);
    } else if next > q {
        clause_reads(s, Rule::expression, next);
        match clause_at(s, Rule::expression, next) {
            Step::Fail(_) => {},
            Step::Match { tree, dangling: later } => {
                one_more_below(s, end, parts, tree);
                let more = parts.push(tree);
                assert forall|i: int| 0 <= i < more.len() implies (#[trigger] more[i]).rule
                    == Rule::expression by {
                    if i < n {
                        assert(more[i] == parts[i]);
                    }
                }
                file_reads_from(s, next + tree.len, more, later);
            },
        }
    }
}

/// What the grammar reads as a file is a reading of the text.
pub proof fn file_reads(s: Seq<char>)
    ensures
        file_at(s) matches Step::Match { tree, .. } ==> is_reading(s, tree),
{
    behind_gap(s, 0);
    let p = gap(s, 0);
    clause_reads(s, Rule::expression, p);
    match clause_at(s, Rule::expression, p) {
        Step::Fail(_) => {},
        Step::Match { tree, dangling } => {
            let parts = seq![tree];
            assert(parts[0] == tree);
            file_reads_from(s, p + tree.len, parts, dangling);
        },
    }
}

/// No operator of a clause of the precedence of `rule`, or of a tighter one,
/// stands behind the blanks that start at `end`: a clause that ends at `end`
/// cannot go on.
spec fn stops(s: Seq<char>, end: nat, rule: Rule) -> bool {
    let q = end + blanks(s, end);
    &&& rank(rule) >= 1 ==> operator_at(s, q, Rule::and_clause) is None
    &&& rank(rule) >= 2 ==> operator_at(s, q, Rule::xor_clause) is None
    &&& rank(rule) >= 3 ==> operator_at(s, q, Rule::expression) is None
}

/// The place at which part `k` of a tree begins, whose parts stand side by
/// side.
spec fn place(s: Seq<char>, t: Tree, k: int) -> nat {
    if k <= 0 {
        t.start
    } else {
        t.children[k - 1].end() + blanks(s, t.children[k - 1].end())
    }
}

/// Each part of a term or clause begins at its place.
proof fn parts_are_placed(s: Seq<char>, t: Tree, k: int)
    requires
        well_formed(s, t),
        t.rule == Rule::term || is_clause(t.rule),
        0 <= k < t.children.len(),
    ensures
        t.children[k].start == place(s, t, k),
        well_formed(s, t.children[k]),
        t.children.take(k + 1) == t.children.take(k).push(t.children[k]),
        k == t.children.len() - 1 ==> t.children[k].end() == t.end(),
{
    well_formed_unfolds(s, t);
    if k > 0 {
        assert(t.children[k].start == t.children[k - 1].end() + blanks(
            s,
            t.children[k - 1].end(),
        ));
    }
    assert(t.children.take(k + 1) =~= t.children.take(k).push(t.children[k]));
}

/// A term or clause that follows the grammar is not empty.
proof fn reading_is_not_empty(s: Seq<char>, t: Tree)
    requires
        well_formed(s, t),
        t.rule == Rule::term || is_clause(t.rule),
    ensures
        t.len >= 1,
    decreases t,
{
    well_formed_unfolds(s, t);
    let n = t.children.len() as int;
    let last = t.children[n - 1];
    if t.rule == Rule::term {
        token_is_leaf(s, last);
    } else {
        reading_is_not_empty(s, last);
    }
    if n > 1 {
        assert(t.children[0].end() <= last.start);
    }
}

/// The number of negations in front of a term.
spec fn nots_of(t: Tree) -> int {
    let n = t.children.len() as int;
    if t.children[n - 1].rule == Rule::identifier {
        n - 1
    } else {
        n - 3
    }
}

/// A term that follows the grammar is the term that the grammar reads where
/// it begins.
proof fn term_is_found(s: Seq<char>, t: Tree)
    requires
        well_formed(s, t),
        t.rule == Rule::term,
    ensures
        term_at(s, t.start) == (Step::Match { tree: t, dangling: None }),
    decreases t, 1nat, 0nat,
{
    well_formed_unfolds(s, t);
    assert(t.children.take(0) =~= Seq::<Tree>::empty());
    term_is_found_from(s, t, 0);
}

/// Behind the first `k` negations of a term that follows the grammar, the
/// grammar reads the rest of that term.
proof fn term_is_found_from(s: Seq<char>, t: Tree, k: int)
    requires
        well_formed(s, t),
        t.rule == Rule::term,
        0 <= k <= nots_of(t),
    ensures
        term_from(s, t.start, place(s, t, k), t.children.take(k)) == (Step::Match {
            tree: t,
            dangling: None,
        }),
    decreases t, 0nat, nots_of(t) - k,
{
    well_formed_unfolds(s, t);
    let kids = t.children;
    let n = kids.len() as int;
    let q = place(s, t, k);
    parts_are_placed(s, t, k);
    token_is_leaf(s, kids[k]);
    tokens_differ(s, q);
    if k < nots_of(t) {
        assert(kids[k].rule == Rule::not_operator);
        term_is_found_from(s, t, k + 1);
    } else if kids[n - 1].rule == Rule::identifier {
        assert(kids.take(n) =~= kids);
        assert(t == Tree {
            rule: Rule::term,
            start: t.start,
            len: (q + 1 - t.start) as nat,
            children: kids,
        });
    } else {
        let inner = kids[k + 1];
        let close = kids[k + 2];
        parts_are_placed(s, t, k + 1);
        parts_are_placed(s, t, k + 2);
        token_is_leaf(s, close);
        tokens_differ(s, close.start);
        clause_is_found(s, inner);
        assert(kids.take(n) =~= kids);
        assert(t == Tree {
            rule: Rule::term,
            start: t.start,
            len: (close.start + close.len - t.start) as nat,
            children: kids,
        });
    }
}

/// What stands for an operand of a clause of `rule`, and follows the
/// grammar, is what the grammar reads where it begins, if nothing follows
/// that could make it longer.
proof fn operand_is_found(s: Seq<char>, c: Tree, rule: Rule)
    requires
        well_formed(s, c),
        is_clause(rule),
        c.rule == operand_rule(rule),
        stops(s, c.end(), c.rule),
    ensures
        operand_at(s, rule, c.start) == (Step::Match { tree: c, dangling: None }),
    decreases c, 2nat, 0nat,
{
    if rank(rule) <= 1 {
        term_is_found(s, c);
    } else {
        clause_is_found(s, c);
    }
}

/// A clause that follows the grammar is the clause that the grammar reads
/// where it begins, if no operator follows that could make it longer.
proof fn clause_is_found(s: Seq<char>, t: Tree)
    requires
        well_formed(s, t),
        is_clause(t.rule),
        stops(s, t.end(), t.rule),
    ensures
        clause_at(s, t.rule, t.start) == (Step::Match { tree: t, dangling: None }),
    decreases t, 1nat, 0nat,
{
    well_formed_unfolds(s, t);
    let kids = t.children;
    parts_are_placed(s, t, 0);
    next_stops(s, t, 0);
    operand_is_found(s, kids[0], t.rule);
    assert(kids.take(1) =~= seq![kids[0]]);
    clause_is_found_from(s, t, 1);
}

/// Behind an operand of a clause that follows the grammar stands the
/// operator that joins it with the next, or what follows the clause: so the
/// operand cannot go on.
proof fn next_stops(s: Seq<char>, t: Tree, k: int)
    requires
        well_formed(s, t),
        is_clause(t.rule),
        stops(s, t.end(), t.rule),
        0 <= k < t.children.len(),
        k % 2 == 0,
    ensures
        stops(s, t.children[k].end(), t.children[k].rule),
        t.children[k].rule == operand_rule(t.rule),
{
    well_formed_unfolds(s, t);
    let kids = t.children;
    let n = kids.len() as int;
    if k == n - 1 {
        parts_are_placed(s, t, k);
    } else {
        parts_are_placed(s, t, k + 1);
        token_is_leaf(s, kids[k + 1]);
        tokens_differ(s, kids[k + 1].start);
    }
}

/// The operator at an odd place of a clause that follows the grammar is the
/// operator that the grammar reads there.
proof fn operator_is_found(s: Seq<char>, t: Tree, k: int)
    requires
        well_formed(s, t),
        is_clause(t.rule),
        1 <= k < t.children.len(),
        k % 2 == 1,
    ensures
        operator_at(s, place(s, t, k), t.rule) == Some((t.children[k].rule, t.children[k].len)),
        t.children[k] == Tree::leaf(t.children[k].rule, place(s, t, k), t.children[k].len),
{
    well_formed_unfolds(s, t);
    parts_are_placed(s, t, k);
    token_is_leaf(s, t.children[k]);
    tokens_differ(s, t.children[k].start);
}

/// A clause that follows the grammar, by its parts.
proof fn clause_by_parts(s: Seq<char>, t: Tree)
    requires
        well_formed(s, t),
        is_clause(t.rule),
    ensures
        t.children.len() % 2 == 1,
        t == (Tree {
            rule: t.rule,
            start: t.start,
            len: (t.children[t.children.len() - 1].end() - t.start) as nat,
            children: t.children.take(t.children.len() as int),
        }),
{
    well_formed_unfolds(s, t);
    let n = t.children.len() as int;
    parts_are_placed(s, t, n - 1);
    assert(t.children.take(n) =~= t.children);
}

/// Behind the first `k` parts of a clause that follows the grammar, the
/// grammar reads the rest of that clause.
proof fn clause_is_found_from(s: Seq<char>, t: Tree, k: int)
    requires
        well_formed(s, t),
        is_clause(t.rule),
        stops(s, t.end(), t.rule),
        1 <= k <= t.children.len(),
        k % 2 == 1,
    ensures
        clause_from(s, t.rule, t.start, t.children[k - 1].end(), t.children.take(k), None) == (
        Step::Match { tree: t, dangling: None }),
    decreases t, 0nat, t.children.len() - k,
{
    let kids = t.children;
    let n = kids.len() as int;
    let end = kids[k - 1].end();
    clause_by_parts(s, t);
    if k == n {
        parts_are_placed(s, t, n - 1);
        assert(operator_at(s, end + blanks(s, end), t.rule) is None);
    } else {
        let sign = kids[k];
        let next = kids[k + 1];
        operator_is_found(s, t, k);
        parts_are_placed(s, t, k);
        parts_are_placed(s, t, k + 1);
        next_stops(s, t, k + 1);
        operand_is_found(s, next, t.rule);
        clause_is_found_from(s, t, k + 2);
        let q = end + blanks(s, end);
        assert(q == place(s, t, k));
        let r = q + sign.len + blanks(s, q + sign.len);
        assert(r == next.start);
        assert(kids.take(k + 2) == kids.take(k).push(Tree::leaf(sign.rule, q, sign.len)).push(
            next,
        ));
        assert(r + next.len == kids[k + 1].end());
    }
}

/// The parts of a file that follows the grammar: each but the last is an
/// expression that cannot go on, and begins where the blanks and line breaks
/// behind the part before it end.
proof fn lines_stop(s: Seq<char>, t: Tree, k: int)
    requires
        well_formed(s, t),
        t.rule == Rule::file,
        0 <= k < t.children.len(),
    ensures
        well_formed(s, t.children[k]),
        t.children.take(k + 1) == t.children.take(k).push(t.children[k]),
        k == 0 ==> t.children[k].start == gap(s, 0),
        k > 0 ==> t.children[k].start == t.children[k - 1].end() + gap(
            s,
            t.children[k - 1].end(),
        ),
        k < t.children.len() - 1 ==> {
            &&& t.children[k].rule == Rule::expression
            &&& stops(s, t.children[k].end(), Rule::expression)
            &&& t.children[k].len >= 1
            &&& k > 0 ==> gap(s, t.children[k - 1].end()) > blanks(s, t.children[k - 1].end())
        },
        k == t.children.len() - 1 ==> t.children[k] == Tree::leaf(Rule::EOI, s.len(), 0),
{
    well_formed_unfolds(s, t);
    let kids = t.children;
    let n = kids.len() as int;
    assert(kids.take(k + 1) =~= kids.take(k).push(kids[k]));
    if k > 0 {
        assert(kids[k].start == kids[k - 1].end() + gap(s, kids[k - 1].end()));
    }
    if k < n - 1 {
        let end = kids[k].end();
        reading_is_not_empty(s, kids[k]);
        well_formed_unfolds(s, kids[k]);
        assert(kids[k + 1].start == end + gap(s, end));
        if k + 1 == n - 1 {
            token_is_leaf(s, kids[k + 1]);
        }
        behind_blanks(s, end);
        tokens_differ(s, end + blanks(s, end));
    } else {
        token_is_leaf(s, kids[k]);
    }
}

/// Behind the first `k` expressions of a file that follows the grammar, the
/// grammar reads the rest of that file.
proof fn file_is_found_from(s: Seq<char>, t: Tree, k: int)
    requires
        well_formed(s, t),
        t.rule == Rule::file,
        1 <= k < t.children.len(),
    ensures
        file_from(s, t.children[k - 1].end(), t.children.take(k), None) == (Step::Match {
            tree: t,
            dangling: None,
        }),
    decreases t.children.len() - k,
{
    let kids = t.children;
    let n = kids.len() as int;
    let end = kids[k - 1].end();
    lines_stop(s, t, k - 1);
    lines_stop(s, t, k);
    well_formed_unfolds(s, kids[k - 1]);
    behind_blanks(s, end);
    if k == n - 1 {
        well_formed_unfolds(s, t);
        assert(kids.take(n) =~= kids);
        assert(t == Tree { rule: Rule::file, start: 0, len: s.len(), children: kids });
    } else {
        well_formed_unfolds(s, kids[k]);
        clause_is_found(s, kids[k]);
        file_is_found_from(s, t, k + 1);
    }
}

/// A file that follows the grammar is the file that the grammar reads: the
/// text has no other reading, and the parser finds this one.
pub proof fn file_is_found(s: Seq<char>, t: Tree)
    requires
        well_formed(s, t),
        t.rule == Rule::file,
    ensures
        file_at(s) == (Step::Match { tree: t, dangling: None }),
{
    well_formed_unfolds(s, t);
    lines_stop(s, t, 0);
    clause_is_found(s, t.children[0]);
    assert(t.children.take(1) =~= seq![t.children[0]]);
    file_is_found_from(s, t, 1);
}

/// The readings of a text are what the grammar reads: a tree is a reading
/// of the text as a file if and only if it is the tree that the grammar
/// gives for the text.
pub proof fn readings_are_what_is_read(s: Seq<char>, t: Tree)
    ensures
        is_reading(s, t) <==> file_at(s) == (Step::Match { tree: t, dangling: None }),
{
    if is_reading(s, t) {
        file_is_found(s, t);
    }
    file_reads(s);
}

/// A text has at most one reading as a file.
pub proof fn file_has_one_reading(s: Seq<char>, t1: Tree, t2: Tree)
    requires
        well_formed(s, t1),
        well_formed(s, t2),
        t1.rule == Rule::file,
        t2.rule == Rule::file,
    ensures
        t1 == t2,
{
    file_is_found(s, t1);
    file_is_found(s, t2);
}

/// The empty text has no reading: a file holds at least one expression.
pub proof fn empty_text_has_no_reading(s: Seq<char>, t: Tree)
    requires
        s.len() == 0,
    ensures
        !is_reading(s, t),
{
    if is_reading(s, t) {
        file_is_found(s, t);
        tokens_are_spelled_out(s, 0, Rule::not_operator);
        tokens_are_spelled_out(s, 0, Rule::left_parenthesis);
        assert(gap(s, 0) == 0);
        assert(term_from(s, 0, 0, Seq::empty()) is Fail);
        assert(term_at(s, 0) is Fail);
        assert(operand_at(s, Rule::and_clause, 0) is Fail);
        assert(clause_at(s, Rule::and_clause, 0) is Fail);
        assert(operand_at(s, Rule::xor_clause, 0) is Fail);
        assert(clause_at(s, Rule::xor_clause, 0) is Fail);
        assert(operand_at(s, Rule::expression, 0) is Fail);
        assert(clause_at(s, Rule::expression, 0) is Fail);
        assert(file_at(s) is Fail);
    }
}

} // verus!
