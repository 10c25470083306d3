//! Parse trees: what the grammar recognised, before any meaning is given to it.

use vstd::prelude::*;
use vstd::string::StrSliceExecFns;
use crate::syntax::{in_order, well_formed, well_formed_unfolds};

verus! {

/// The rules of the grammar. A node of a parse tree is labelled with the rule
/// that matched its text; `EOI` marks the end of the input.
#[allow(non_camel_case_types)]
#[derive(Clone, Copy, Debug, PartialEq, Eq, Structural, PartialOrd, Ord, Hash)]
pub enum Rule {
    /// The end of the input.
    EOI,
    /// One or more expressions, each on a line of its own.
    file,
    /// Clauses joined by `OR` and `NOR`: the loosest binding.
    expression,
    /// Clauses joined by `XOR` and `XNOR`.
    xor_clause,
    /// Terms joined by `AND` and `NAND`: the tightest binding of two operands.
    and_clause,
    /// An identifier or an expression in parentheses, behind any number of
    /// negations.
    term,
    /// One letter from `A` to `Z`.
    identifier,
    /// `!`, `NOT` or `not`.
    not_operator,
    /// `&`, `AND` or `and`.
    and_operator,
    /// `!&`, `NAND` or `nand`.
    nand_operator,
    /// `|`, `OR` or `or`.
    or_operator,
    /// `!|`, `NOR` or `nor`.
    nor_operator,
    /// `^`, `XOR` or `xor`.
    xor_operator,
    /// `!^`, `XNOR` or `xnor`.
    xnor_operator,
    /// `(`.
    left_parenthesis,
    /// `)`.
    right_parenthesis,
}

/// The mathematical form of a parse tree: a rule, the character position at
/// which its text starts, the number of characters it covers, and the trees
/// of its parts in textual order.
pub struct Tree {
    pub rule: Rule,
    pub start: nat,
    pub len: nat,
    pub children: Seq<Tree>,
}

impl Tree {
    /// The position just behind the last character of the tree's text.
    pub open spec fn end(self) -> nat {
        self.start + self.len
    }

    /// A tree without parts.
    pub open spec fn leaf(rule: Rule, start: nat, len: nat) -> Tree {
        Tree { rule, start, len, children: Seq::empty() }
    }
}

/// A node of a parse tree over the text it was read from.
#[derive(Debug)]
pub struct Pair<'i> {
    input: &'i str,
    rule: Rule,
    start: usize,
    end: usize,
    inner: Vec<Pair<'i>>,
}

/// The trees of a sequence of nodes.
pub open spec fn trees<'i>(pairs: Seq<Pair<'i>>) -> Seq<Tree> {
    Seq::new(pairs.len(), |i: int| pairs[i]@)
}

/// All the nodes were read from the text `s`.
pub open spec fn all_over<'i>(pairs: Seq<Pair<'i>>, s: Seq<char>) -> bool {
    forall|i: int| 0 <= i < pairs.len() ==> (#[trigger] pairs[i]).spec_input() == s
}

impl<'i> View for Pair<'i> {
    type V = Tree;

    closed spec fn view(&self) -> Tree {
        self.tree()
    }
}

impl<'i> Pair<'i> {
    /// Every node follows the grammar, and was read from the same text as
    /// its parts.
    #[verifier::type_invariant]
    closed spec fn inv(&self) -> bool {
        &&& self.start <= self.end
        &&& well_formed(self.input@, self@)
        &&& all_over(self.inner@, self.input@)
    }

    /// The text that the node was read from: the whole of it, not the node's
    /// own part.
    pub closed spec fn spec_input(&self) -> Seq<char> {
        self.input@
    }

    /// The tree of the node, with the trees of its parts.
    spec fn tree(&self) -> Tree
        decreases self,
    {
        Tree {
            rule: self.rule,
            start: self.start as nat,
            len: (self.end - self.start) as nat,
            children: Seq::new(
                self.inner.len() as nat,
                |i: int|
                    if 0 <= i < self.inner.len() {
                        self.inner[i].tree()
                    } else {
                        arbitrary()
                    },
            ),
        }
    }

    /// The tree of a node, by the trees of its parts.
    proof fn view_by_parts(&self)
        ensures
            self@ == (Tree {
                rule: self.rule,
                start: self.start as nat,
                len: (self.end - self.start) as nat,
                children: trees(self.inner@),
            }),
    {
        let children = self@.children;
        assert(children.len() == self.inner@.len());
        assert forall|i: int| 0 <= i < children.len() implies children[i] == trees(
            self.inner@,
        )[i] by {
            assert(self.inner[i] == self.inner@[i]);
        }
        assert(children =~= trees(self.inner@));
    }

    /// Makes a node from its parts.
    pub(crate) fn new(
        input: &'i str,
        rule: Rule,
        start: usize,
        end: usize,
        inner: Vec<Pair<'i>>,
    ) -> (r: Self)
        requires
            start <= end,
            all_over(inner@, input@),
            well_formed(
                input@,
                Tree {
                    rule,
                    start: start as nat,
                    len: (end - start) as nat,
                    children: trees(inner@),
                },
            ),
        ensures
            r.spec_input() == input@,
            r@ == (Tree {
                rule,
                start: start as nat,
                len: (end - start) as nat,
                children: trees(inner@),
            }),
    {
        let ghost tree = Tree {
            rule,
            start: start as nat,
            len: (end - start) as nat,
            children: trees(inner@),
        };
        proof {
            let r = Pair { input, rule, start, end, inner };
            r.view_by_parts();
            assert(r@ == tree);
        }
        Pair { input, rule, start, end, inner }
    }

    /// The rule that matched the node's text.
    pub fn as_rule(&self) -> (r: Rule)
        ensures
            r == self@.rule,
    {
        self.rule
    }

    /// The node's text.
    pub fn as_str(&self) -> (r: &'i str)
        ensures
            self@.end() <= self.spec_input().len(),
            r@ == self.spec_input().subrange(self@.start as int, self@.end() as int),
    {
        proof {
            use_type_invariant(self);
            well_formed_unfolds(self.input@, self@);
        }
        self.input.substring_char(self.start, self.end)
    }

    /// The position of the node's first character.
    pub fn start(&self) -> (r: usize)
        ensures
            r == self@.start,
    {
        self.start
    }

    /// The position behind the node's last character.
    pub fn end(&self) -> (r: usize)
        ensures
            r == self@.end(),
            r <= self.spec_input().len(),
    {
        proof {
            use_type_invariant(self);
            well_formed_unfolds(self.input@, self@);
        }
        self.end
    }

    /// The node's first character.
    pub fn first_char(&self) -> (c: char)
        requires
            self@.len > 0,
        ensures
            self@.start < self.spec_input().len(),
            c == self.spec_input()[self@.start as int],
    {
        proof {
            use_type_invariant(self);
            well_formed_unfolds(self.input@, self@);
        }
        self.input.get_char(self.start)
    }

    /// The node's parts, with what holds of every node: it is well formed,
    /// and its parts were read from the same text.
    pub fn parts(&self) -> (r: &Vec<Pair<'i>>)
        ensures
            trees(r@) == self@.children,
            all_over(r@, self.spec_input()),
            well_formed(self.spec_input(), self@),
    {
        proof {
            use_type_invariant(self);
            self.view_by_parts();
        }
        &self.inner
    }

    /// The node's parts, in textual order.
    pub fn into_inner(self) -> (r: Pairs<'i>)
        ensures
            r@ == self@.children,
            r.spec_input() == self.spec_input(),
    {
        proof {
            use_type_invariant(&self);
            self.view_by_parts();
            well_formed_unfolds(self.input@, self@);
        }
        Pairs::new(self.input, self.inner)
    }
}

impl<'i> Clone for Pair<'i> {
    fn clone(&self) -> (r: Self)
        ensures
            r@ == self@,
            r.spec_input() == self.spec_input(),
        decreases self,
    {
        proof {
            use_type_invariant(self);
        }
        let mut inner: Vec<Pair<'i>> = Vec::new();
        let mut i: usize = 0;
        while i < self.inner.len()
            invariant
                i <= self.inner.len(),
                inner.len() == i,
                forall|k: int| 0 <= k < i ==> (#[trigger] inner[k])@ == self.inner[k]@,
                all_over(inner@, self.input@),
                all_over(self.inner@, self.input@),
            decreases self.inner.len() - i,
        {
            let part = self.inner[i].clone();
            inner.push(part);
            i += 1;
        }
        proof {
            self.view_by_parts();
            assert(trees(inner@) =~= trees(self.inner@));
        }
        Pair::new(self.input, self.rule, self.start, self.end, inner)
    }
}

/// The nodes that are left of a sequence of nodes, read from one text.
#[derive(Debug)]
pub struct Pairs<'i> {
    input: &'i str,
    rest: Vec<Pair<'i>>,
}

impl<'i> View for Pairs<'i> {
    type V = Seq<Tree>;

    closed spec fn view(&self) -> Seq<Tree> {
        Seq::new(self.rest.len() as nat, |i: int| self.rest[self.rest.len() - 1 - i]@)
    }
}

impl<'i> Pairs<'i> {
    /// The nodes were read from one text, and stand in textual order.
    #[verifier::type_invariant]
    closed spec fn inv(&self) -> bool {
        &&& all_over(self.rest@, self.input@)
        &&& in_order(self@)
    }

    /// The text that the nodes were read from.
    pub closed spec fn spec_input(&self) -> Seq<char> {
        self.input@
    }

    /// Makes a sequence of nodes that stand in textual order.
    pub(crate) fn new(input: &'i str, pairs: Vec<Pair<'i>>) -> (r: Self)
        requires
            all_over(pairs@, input@),
            in_order(trees(pairs@)),
        ensures
            r@ == trees(pairs@),
            r.spec_input() == input@,
    {
        let ghost given = pairs@;
        let mut pairs = pairs;
        let mut rest: Vec<Pair<'i>> = Vec::new();
        while pairs.len() > 0
            invariant
                pairs@ == given.take(pairs.len() as int),
                rest.len() + pairs.len() == given.len(),
                forall|i: int| 0 <= i < rest.len() ==> rest[i] == given[given.len() - 1 - i],
            decreases pairs.len(),
        {
            let last = pairs.pop().unwrap();
            rest.push(last);
        }
        proof {
            let r = Pairs { input, rest };
            assert(r@ =~= trees(given));
        }
        Pairs { input, rest }
    }

    /// Takes the first of the nodes that are left.
    pub fn next(&mut self) -> (r: Option<Pair<'i>>)
        ensures
            final(self).spec_input() == old(self).spec_input(),
            match r {
                Some(pair) => {
                    &&& old(self)@.len() > 0
                    &&& pair@ == old(self)@[0]
                    &&& pair.spec_input() == old(self).spec_input()
                    &&& final(self)@ == old(self)@.drop_first()
                },
                None => old(self)@.len() == 0 && final(self)@ == old(self)@,
            },
    {
        proof {
            use_type_invariant(&*self);
        }
        let ghost before = self@;
        let input = self.input;
        let mut taken = Pairs { input, rest: Vec::new() };
        core::mem::swap(self, &mut taken);
        let mut rest = taken.rest;
        let r = rest.pop();
        proof {
            let after = Pairs { input, rest };
            if r is Some {
                assert(after@ =~= before.drop_first());
            } else {
                assert(after@ =~= before);
            }
        }
        *self = Pairs { input, rest };
        r
    }

    /// The number of nodes that are left.
    pub fn len(&self) -> (r: usize)
        ensures
            r == self@.len(),
    {
        self.rest.len()
    }

    /// The text from the first character of the first node that is left to
    /// the last character of the last; empty where none is left.
    pub fn as_str(&self) -> (r: &'i str)
        ensures
            self@.len() == 0 ==> r@ == Seq::<char>::empty(),
            self@.len() > 0 ==> {
                &&& self@[0].start <= self@.last().end() <= self.spec_input().len()
                &&& r@ == self.spec_input().subrange(
                    self@[0].start as int,
                    self@.last().end() as int,
                )
            },
    {
        proof {
            use_type_invariant(self);
        }
        let n = self.rest.len();
        if n == 0 {
            self.input.substring_char(0, 0)
        } else {
            let first = &self.rest[n - 1];
            let last = &self.rest[0];
            assert(first@ == self@[0]);
            assert(last@ == self@.last());
            let from = first.start();
            let to = last.end();
            proof {
                use_type_invariant(first);
                if n > 1 {
                    assert(self@[0].end() <= self@[n - 1].start);
                }
            }
            self.input.substring_char(from, to)
        }
    }
}

impl<'i> Clone for Pairs<'i> {
    fn clone(&self) -> (r: Self)
        ensures
            r@ == self@,
            r.spec_input() == self.spec_input(),
    {
        proof {
            use_type_invariant(self);
        }
        let mut rest: Vec<Pair<'i>> = Vec::new();
        let mut i: usize = 0;
        while i < self.rest.len()
            invariant
                i <= self.rest.len(),
                rest.len() == i,
                forall|k: int| 0 <= k < i ==> (#[trigger] rest[k])@ == self.rest[k]@,
                all_over(rest@, self.input@),
                all_over(self.rest@, self.input@),
            decreases self.rest.len() - i,
        {
            let pair = self.rest[i].clone();
            rest.push(pair);
            i += 1;
        }
        proof {
            let r = Pairs { input: self.input, rest };
            assert(r@ =~= self@);
        }
        Pairs { input: self.input, rest }
    }
}

} // verus!
