//! Operator precedence. The grouping of a flat run of operands and binary
//! operators is pest's: its precedence climber is run on the rules of the
//! run, and what it answers is the shape of the tree to build.

use crate::tree::Rule;
use pest::iterators::PairsBuilder;
use pest::prec_climber::{Assoc, Operator, PrecClimber};
use vstd::prelude::*;

verus! {

/// The side to which operators of one level group.
#[derive(Debug, Clone, Copy, PartialEq, Eq, Structural)]
pub enum Associativity {
    Left,
    Right,
}

/// How a flat run of operands and operators groups into a binary tree: a
/// leaf stands for one operand, a node for one operator with what is grouped
/// to its left and to its right.
#[derive(Debug, PartialEq, Eq)]
pub enum Shape {
    Leaf,
    Node(Box<Shape>, Box<Shape>),
}

impl Shape {
    /// The number of operands that the shape groups.
    pub open spec fn leaves(self) -> nat
        decreases self,
    {
        match self {
            Shape::Leaf => 1,
            Shape::Node(left, right) => left.leaves() + right.leaves(),
        }
    }

    pub fn leaf() -> (shape: Shape)
        ensures
            shape == Shape::Leaf,
    {
        Shape::Leaf
    }

    pub fn node(left: Shape, right: Shape) -> (shape: Shape)
        ensures
            shape == Shape::Node(Box::new(left), Box::new(right)),
    {
        Shape::Node(Box::new(left), Box::new(right))
    }

    pub proof fn lemma_leaves_positive(self)
        ensures
            self.leaves() >= 1,
        decreases self,
    {
        match self {
            Shape::Leaf => {},
            Shape::Node(left, right) => {
                left.lemma_leaves_positive();
                right.lemma_leaves_positive();
            },
        }
    }
}

/// The binary operators, from the one that binds least to the one that binds
/// most. The operators of one level bind alike; all associate to the left
/// but the power operator.
pub open spec fn precedence() -> Seq<Seq<(Rule, Associativity)>> {
    seq![
        seq![(Rule::Or, Associativity::Left)],
        seq![(Rule::And, Associativity::Left)],
        seq![(Rule::Equal, Associativity::Left), (Rule::NotEqual, Associativity::Left)],
        seq![
            (Rule::LessThan, Associativity::Left),
            (Rule::LessThanOrEqual, Associativity::Left),
            (Rule::MoreThan, Associativity::Left),
            (Rule::MoreThanOrEqual, Associativity::Left),
        ],
        seq![(Rule::Add, Associativity::Left), (Rule::Subtract, Associativity::Left)],
        seq![(Rule::Multiply, Associativity::Left), (Rule::Divide, Associativity::Left), (Rule::Mod, Associativity::Left)],
        seq![(Rule::Power, Associativity::Right)],
    ]
}

/// Whether `rule` is the rule of a binary operator.
pub open spec fn is_binary_operator(rule: Rule) -> bool {
    match rule {
        Rule::Or
        | Rule::And
        | Rule::Equal
        | Rule::NotEqual
        | Rule::LessThan
        | Rule::LessThanOrEqual
        | Rule::MoreThan
        | Rule::MoreThanOrEqual
        | Rule::Add
        | Rule::Subtract
        | Rule::Multiply
        | Rule::Divide
        | Rule::Mod
        | Rule::Power => true,
        _ => false,
    }
}

/// Whether `rules` is a run of operands with a binary operator between each
/// two of them.
pub open spec fn alternates(rules: Seq<Rule>) -> bool {
    &&& rules.len() % 2 == 1
    &&& forall|i: int| 0 <= i < rules.len() && i % 2 == 1 ==> is_binary_operator(#[trigger] rules[i])
}

/// Whether `rule` is an operator of `table`.
pub open spec fn in_table(table: Seq<Seq<(Rule, Associativity)>>, rule: Rule) -> bool {
    exists|i: int, j: int|
        0 <= i < table.len() && 0 <= j < table[i].len() && (#[trigger] table[i][j]).0 == rule
}

pub open spec fn level_views(table: Seq<Vec<(Rule, Associativity)>>) -> Seq<Seq<(Rule, Associativity)>> {
    Seq::new(table.len(), |i: int| table[i]@)
}

/// The shape that pest's precedence climber gives to a run of pairs with the
/// rules `rules`, under the operators of `table`.
pub uninterp spec fn climbed(table: Seq<Seq<(Rule, Associativity)>>, rules: Seq<Rule>) -> Shape;

/// Runs `pest::prec_climber::PrecClimber::climb`. The climber is made by
/// `PrecClimber::new` of the operators of `table`, whose levels are given
/// from the lowest precedence up and joined by `|`; the pairs are made by
/// `pest::iterators::PairsBuilder`, one for each of `rules`, all empty and
/// at the start of an empty text. An operand is mapped to a leaf and an
/// operator with what stands left and right of it to a node.
///
/// Taken on trust: the shape is a function of the table and the rules alone;
/// and every operand is mapped once, so the shape has as many leaves as the
/// run has operands. Left out, because pest panics there: a level without
/// operators, an empty run, and a run that ends in an operator; and a run
/// with an operator that the table lacks, at which pest stops.
#[allow(deprecated)]
#[verifier::external_body]
fn climb(table: &Vec<Vec<(Rule, Associativity)>>, rules: &Vec<Rule>) -> (shape: Shape)
    requires
        forall|i: int| 0 <= i < table@.len() ==> (#[trigger] table@[i])@.len() > 0,
        rules@.len() % 2 == 1,
        forall|i: int|
            0 <= i < rules@.len() && i % 2 == 1 ==> in_table(level_views(table@), #[trigger] rules@[i]),
    ensures
        shape == climbed(level_views(table@), rules@),
        shape.leaves() == (rules@.len() + 1) / 2,
{
    let sides = |side| match side {
        Associativity::Left => Assoc::Left,
        Associativity::Right => Assoc::Right,
    };
    let level = |level: &Vec<(Rule, Associativity)>| {
        level.iter().map(|op| Operator::new(op.0, sides(op.1))).reduce(|a, b| a | b).unwrap()
    };
    let levels = table.iter().map(level);
    let pairs = rules.iter().fold(PairsBuilder::new(""), |builder, rule| builder.rule(*rule, 0, 0));
    PrecClimber::new(levels.collect()).climb(
        pairs.build(),
        |_| Shape::leaf(),
        |left, _, right| Shape::node(left, right),
    )
}

/// The table of `precedence`, as the climber takes it.
pub fn precedence_table() -> (table: Vec<Vec<(Rule, Associativity)>>)
    ensures
        level_views(table@) == precedence(),
{
    let mut table: Vec<Vec<(Rule, Associativity)>> = Vec::new();
    table.push(vec![(Rule::Or, Associativity::Left)]);
    table.push(vec![(Rule::And, Associativity::Left)]);
    table.push(vec![(Rule::Equal, Associativity::Left), (Rule::NotEqual, Associativity::Left)]);
    table.push(
        vec![
            (Rule::LessThan, Associativity::Left),
            (Rule::LessThanOrEqual, Associativity::Left),
            (Rule::MoreThan, Associativity::Left),
            (Rule::MoreThanOrEqual, Associativity::Left),
        ],
    );
    table.push(vec![(Rule::Add, Associativity::Left), (Rule::Subtract, Associativity::Left)]);
    table.push(
        vec![(Rule::Multiply, Associativity::Left), (Rule::Divide, Associativity::Left), (Rule::Mod, Associativity::Left)],
    );
    table.push(vec![(Rule::Power, Associativity::Right)]);
    proof {
        let views = level_views(table@);
        assert(views.len() == 7);
        assert(views[0] =~= precedence()[0]);
        assert(views[1] =~= precedence()[1]);
        assert(views[2] =~= precedence()[2]);
        assert(views[3] =~= precedence()[3]);
        assert(views[4] =~= precedence()[4]);
        assert(views[5] =~= precedence()[5]);
        assert(views[6] =~= precedence()[6]);
        assert(views =~= precedence());
    }
    table
}

/// Every binary operator has its level in `precedence`.
pub proof fn lemma_operators_have_precedence(rule: Rule)
    requires
        is_binary_operator(rule),
    ensures
        in_table(precedence(), rule),
{
    let table = precedence();
    match rule {
        Rule::Or => assert(table[0][0].0 == rule),
        Rule::And => assert(table[1][0].0 == rule),
        Rule::Equal => assert(table[2][0].0 == rule),
        Rule::NotEqual => assert(table[2][1].0 == rule),
        Rule::LessThan => assert(table[3][0].0 == rule),
        Rule::LessThanOrEqual => assert(table[3][1].0 == rule),
        Rule::MoreThan => assert(table[3][2].0 == rule),
        Rule::MoreThanOrEqual => assert(table[3][3].0 == rule),
        Rule::Add => assert(table[4][0].0 == rule),
        Rule::Subtract => assert(table[4][1].0 == rule),
        Rule::Multiply => assert(table[5][0].0 == rule),
        Rule::Divide => assert(table[5][1].0 == rule),
        Rule::Mod => assert(table[5][2].0 == rule),
        _ => assert(table[6][0].0 == rule),
    }
}

/// The grouping of a run of operands and operators with the rules `rules`,
/// under the precedence and associativity of `precedence`.
pub fn grouping(rules: &Vec<Rule>) -> (shape: Shape)
    requires
        alternates(rules@),
    ensures
        shape == climbed(precedence(), rules@),
        shape.leaves() == (rules@.len() + 1) / 2,
{
    let table = precedence_table();
    proof {
        let levels = precedence();
        assert(levels.len() == 7);
        assert(levels[0].len() == 1 && levels[1].len() == 1 && levels[2].len() == 2);
        assert(levels[3].len() == 4 && levels[4].len() == 2 && levels[5].len() == 3);
        assert(levels[6].len() == 1);
        assert forall|i: int| 0 <= i < table@.len() implies (#[trigger] table@[i])@.len() > 0 by {
            assert(level_views(table@)[i] == table@[i]@);
        }
        assert forall|i: int| 0 <= i < rules@.len() && i % 2 == 1 implies in_table(
            level_views(table@),
            #[trigger] rules@[i],
        ) by {
            lemma_operators_have_precedence(rules@[i]);
        }
    }
    climb(&table, rules)
}

} // verus!
