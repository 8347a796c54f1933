//! Parse trees: what the grammar hands to the builder.

use crate::ast::Span;
use vstd::prelude::*;
use vstd::string::*;

verus! {

/// The kinds of node in a parse tree.
#[derive(Clone, Copy, Debug, PartialEq, Eq, PartialOrd, Ord, Hash, Structural)]
pub enum Rule {
    Spec,
    ConstantStream,
    InputStream,
    OutputStream,
    Trigger,
    EOI,
    Ident,
    ParamList,
    Type,
    Literal,
    String,
    NumberLiteral,
    TupleLiteral,
    True,
    False,
    Expr,
    ParenthesizedExpression,
    OpeningParenthesis,
    ClosingParenthesis,
    MissingClosingParenthesis,
    DefaultExpr,
    LookupExpr,
    StreamInstance,
    Duration,
    Unit,
    Sum,
    Product,
    Average,
    Count,
    Integral,
    UnaryExpr,
    TernaryExpr,
    Tuple,
    FunctionExpr,
    FunctionName,
    Add,
    Subtract,
    Multiply,
    Divide,
    Mod,
    Power,
    And,
    Or,
    LessThan,
    LessThanOrEqual,
    MoreThan,
    MoreThanOrEqual,
    Equal,
    NotEqual,
    Neg,
}


/// A node of a parse tree: the rule that matched, the range of source text
/// it matched, and the nodes matched inside it. A node without children
/// carries the text that it matched; an inner node carries none.
#[derive(Debug, PartialEq, Eq)]
pub struct ParseTree {
    pub rule: Rule,
    pub span: Span,
    pub text: String,
    pub children: Vec<ParseTree>,
}

pub struct Tree {
    pub rule: Rule,
    pub span: Span,
    pub text: Seq<char>,
    pub children: Seq<Tree>,
}

/// The views of the trees of a list.
pub open spec fn tree_views(trees: Seq<ParseTree>) -> Seq<Tree>
    decreases trees,
{
    Seq::new(
        trees.len(),
        |i: int|
            if 0 <= i < trees.len() {
                tree_view(trees[i])
            } else {
                arbitrary()
            },
    )
}

pub open spec fn tree_view(tree: ParseTree) -> Tree
    decreases tree,
{
    Tree {
        rule: tree.rule,
        span: tree.span,
        text: tree.text@,
        children: tree_views(tree.children@),
    }
}

impl View for ParseTree {
    type V = Tree;

    open spec fn view(&self) -> Tree {
        tree_view(*self)
    }
}

/// The number of nodes in the trees of `trees`, from position `from` on.
pub open spec fn sizes(trees: Seq<Tree>, from: int) -> nat
    decreases trees, trees.len() - from,
{
    if 0 <= from < trees.len() {
        trees[from].size() + sizes(trees, from + 1)
    } else {
        0
    }
}

impl Tree {
    /// The number of nodes of the tree.
    pub open spec fn size(self) -> nat
        decreases self,
    {
        1 + sizes(self.children, 0)
    }
}

/// The trees from `at` on are no more than those from `from` on, and hold
/// the tree at `at` and those behind it.
pub proof fn lemma_sizes_split(trees: Seq<Tree>, from: int, at: int)
    requires
        0 <= from <= at < trees.len(),
    ensures
        sizes(trees, from) >= sizes(trees, at),
        sizes(trees, at) == trees[at].size() + sizes(trees, at + 1),
        trees[at].size() >= 1,
    decreases at - from,
{
    if from < at {
        lemma_sizes_split(trees, from + 1, at);
    }
}

/// A tree has more nodes than its children together.
pub proof fn lemma_size_of_children(tree: Tree, at: int)
    requires
        0 <= at <= tree.children.len(),
    ensures
        tree.size() > sizes(tree.children, at),
{
    if at < tree.children.len() {
        lemma_sizes_split(tree.children, 0, at);
    } else {
        assert(sizes(tree.children, at) == 0);
    }
}

/// The child at `at` and the children behind it are the children from `at`
/// on; they are no more than all children, which are fewer nodes than the
/// tree; and the child has more nodes than its own children.
pub proof fn lemma_child_sizes(tree: Tree, at: int)
    requires
        0 <= at < tree.children.len(),
    ensures
        tree.children[at].size() + sizes(tree.children, at + 1) == sizes(tree.children, at),
        sizes(tree.children, at) <= sizes(tree.children, 0) < tree.size(),
        sizes(tree.children[at].children, 0) < tree.children[at].size(),
{
    lemma_sizes_split(tree.children, 0, at);
}

impl ParseTree {
    /// The view of a tree's children is the view of its list of children.
    pub proof fn lemma_children(&self)
        ensures
            self@.children == tree_views(self.children@),
            self@.children.len() == self.children@.len(),
            forall|i: int| 0 <= i < self.children@.len() ==> self@.children[i] == (#[trigger] self.children@[i])@,
    {
    }

    /// A node without children, which matched `text` at `start..end`.
    pub fn leaf(rule: Rule, start: usize, end: usize, text: &str) -> (tree: ParseTree)
        ensures
            tree@ == (Tree { rule, span: Span { start, end }, text: text@, children: Seq::empty() }),
    {
        let tree = ParseTree {
            rule,
            span: Span::new(start, end),
            text: text.to_owned(),
            children: Vec::new(),
        };
        assert(tree@.children =~= Seq::empty());
        tree
    }

    /// A node that matched `start..end` with `children` inside.
    pub fn node(rule: Rule, start: usize, end: usize, children: Vec<ParseTree>) -> (tree: ParseTree)
        ensures
            tree@ == (Tree {
                rule,
                span: Span { start, end },
                text: Seq::empty(),
                children: tree_views(children@),
            }),
    {
        ParseTree { rule, span: Span::new(start, end), text: String::new(), children }
    }
}


impl ParseTree {
    /// A tree like this one.
    pub fn copy(&self) -> (tree: ParseTree)
        ensures
            tree@ == self@,
        decreases self, 1nat,
    {
        proof {
            self.lemma_children();
        }
        let tree = ParseTree {
            rule: self.rule,
            span: self.span,
            text: self.text.clone(),
            children: copy_trees(&self.children),
        };
        proof {
            tree.lemma_children();
        }
        tree
    }
}

/// Trees like the trees of `trees`, in the same order.
pub fn copy_trees(trees: &Vec<ParseTree>) -> (copies: Vec<ParseTree>)
    ensures
        tree_views(copies@) == tree_views(trees@),
    decreases trees, 0nat,
{
    let mut copies: Vec<ParseTree> = Vec::new();
    let mut i: usize = 0;
    while i < trees.len()
        invariant
            i <= trees@.len(),
            copies@.len() == i,
            forall|j: int| 0 <= j < i ==> (#[trigger] copies@[j])@ == trees@[j]@,
        decreases trees@.len() - i,
    {
        copies.push(trees[i].copy());
        i += 1;
    }
    assert(tree_views(copies@) =~= tree_views(trees@));
    copies
}

} // verus!
