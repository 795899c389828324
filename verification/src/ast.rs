//! The syntax tree that the compiler consumes, and the meaning of its
//! arithmetic fragment.

use vstd::prelude::*;

verus! {

/// The tag of a syntax-tree node.
#[derive(Debug, PartialEq, Eq)]
pub enum ExprType {
    /// A binary operator: one of `+`, `-`, `*`, `/`.
    Op(char),
    /// An integer literal.
    Literal(i32),
    /// A reference to a variable by name.
    Variable(String),
    /// `print <expr>;`
    PrintStmt,
    /// `<name> = <expr>;`
    AssignStmt(String),
    /// `var <name>;` or `var <name> = <expr>;`
    VarDeclStmt(String),
    /// A sequence of statements.
    Program,
}

/// A syntax-tree node: a tag and the children that the node owns.
#[derive(Debug, PartialEq, Eq)]
pub struct Expr {
    pub expr_type: ExprType,
    pub children: Vec<Expr>,
}

/// The tag of a node as a mathematical value: names are sequences of
/// characters.
pub ghost enum Kind {
    Op(char),
    Literal(i32),
    Variable(Seq<char>),
    PrintStmt,
    AssignStmt(Seq<char>),
    VarDeclStmt(Seq<char>),
    Program,
}

/// A syntax tree as a mathematical value: a tag and a sequence of subtrees.
pub ghost struct Tree {
    pub kind: Kind,
    pub children: Seq<Tree>,
}

impl View for ExprType {
    type V = Kind;

    open spec fn view(&self) -> Kind {
        match *self {
            ExprType::Op(c) => Kind::Op(c),
            ExprType::Literal(value) => Kind::Literal(value),
            ExprType::Variable(name) => Kind::Variable(name@),
            ExprType::PrintStmt => Kind::PrintStmt,
            ExprType::AssignStmt(name) => Kind::AssignStmt(name@),
            ExprType::VarDeclStmt(name) => Kind::VarDeclStmt(name@),
            ExprType::Program => Kind::Program,
        }
    }
}

/// The tree that a node and everything below it stand for.
pub open spec fn tree_of(e: Expr) -> Tree
    decreases e,
{
    Tree {
        kind: e.expr_type@,
        children: Seq::new(
            e.children.len() as nat,
            |i: int|
                if 0 <= i < e.children.len() {
                    tree_of(e.children[i])
                } else {
                    arbitrary()
                },
        ),
    }
}

impl View for Expr {
    type V = Tree;

    open spec fn view(&self) -> Tree {
        tree_of(*self)
    }
}

/// The tree of a node has the node's tag and, child for child, the trees of
/// the node's children.
pub proof fn lemma_tree_of_child(e: Expr, i: int)
    requires
        0 <= i < e.children.len(),
    ensures
        e@.kind == e.expr_type@,
        e@.children.len() == e.children.len(),
        e@.children[i] == e.children[i]@,
{
}

/// The four operator characters of the language.
pub open spec fn is_operator(c: char) -> bool {
    c == '+' || c == '-' || c == '*' || c == '/'
}

/// Whether a node carries the number of children that its tag asks for.
pub open spec fn arity_ok(e: Tree) -> bool {
    match e.kind {
        Kind::Op(c) => is_operator(c) && e.children.len() == 2,
        Kind::Literal(_) => e.children.len() == 0,
        Kind::Variable(_) => e.children.len() == 0,
        Kind::PrintStmt => e.children.len() == 1,
        Kind::AssignStmt(_) => e.children.len() == 1,
        Kind::VarDeclStmt(_) => e.children.len() <= 1,
        Kind::Program => true,
    }
}

/// A tree is well formed when every node in it has the children its tag
/// asks for and every operator node holds one of the four operators.
pub open spec fn well_formed(e: Tree) -> bool
    decreases e,
{
    &&& arity_ok(e)
    &&& forall|i: int| 0 <= i < e.children.len() ==> well_formed(#[trigger] e.children[i])
}

/// An arithmetic expression: operators over literals, with no variable in it.
pub open spec fn is_arithmetic(e: Tree) -> bool
    decreases e,
{
    match e.kind {
        Kind::Op(c) => {
            &&& is_operator(c)
            &&& e.children.len() == 2
            &&& is_arithmetic(e.children[0])
            &&& is_arithmetic(e.children[1])
        },
        Kind::Literal(_) => e.children.len() == 0,
        _ => false,
    }
}

/// Whether a tree is an expression: operators over literals and variables.
pub open spec fn is_expression(e: Tree) -> bool
    decreases e,
{
    match e.kind {
        Kind::Op(c) => {
            &&& is_operator(c)
            &&& e.children.len() == 2
            &&& is_expression(e.children[0])
            &&& is_expression(e.children[1])
        },
        Kind::Literal(_) => e.children.len() == 0,
        Kind::Variable(_) => e.children.len() == 0,
        _ => false,
    }
}

/// A statement: a print, an assignment or a declaration over expressions,
/// or a program of statements.
pub open spec fn is_statement(e: Tree) -> bool
    decreases e,
{
    match e.kind {
        Kind::PrintStmt => e.children.len() == 1 && is_expression(e.children[0]),
        Kind::AssignStmt(_) => e.children.len() == 1 && is_expression(e.children[0]),
        Kind::VarDeclStmt(_) => e.children.len() == 0 || (e.children.len() == 1
            && is_expression(e.children[0])),
        Kind::Program => forall|i: int|
            0 <= i < e.children.len() ==> is_statement(#[trigger] e.children[i]),
        _ => false,
    }
}

/// An expression is a well-formed tree.
pub proof fn lemma_expression_well_formed(e: Tree)
    requires
        is_expression(e),
    ensures
        well_formed(e),
    decreases e,
{
    if e.kind is Op {
        lemma_expression_well_formed(e.children[0]);
        lemma_expression_well_formed(e.children[1]);
    }
}

/// A statement is a well-formed tree.
pub proof fn lemma_statement_well_formed(e: Tree)
    requires
        is_statement(e),
    ensures
        well_formed(e),
    decreases e,
{
    if e.kind is Program {
        assert forall|i: int| 0 <= i < e.children.len() implies well_formed(
            #[trigger] e.children[i],
        ) by {
            lemma_statement_well_formed(e.children[i]);
        }
    } else if e.children.len() == 1 {
        lemma_expression_well_formed(e.children[0]);
    }
}

/// Quotient of two 32-bit integers rounded toward zero. The one quotient that
/// does not fit, `i32::MIN / -1`, wraps around to `i32::MIN`.
pub open spec fn truncated_quotient(a: i32, b: i32) -> i32
    recommends
        b != 0,
{
    if a == i32::MIN && b == -1 {
        i32::MIN
    } else if a >= 0 && b > 0 {
        (a as int / b as int) as i32
    } else if a >= 0 {
        (-(a as int / (-b) as int)) as i32
    } else if b > 0 {
        (-((-a) as int / b as int)) as i32
    } else {
        ((-a) as int / (-b) as int) as i32
    }
}

/// What a binary operator computes on 32-bit integers: two's-complement
/// wrapping for `+`, `-`, `*`; truncating division for `/`, which has no
/// value when the divisor is zero.
pub open spec fn apply_operator(c: char, a: i32, b: i32) -> Option<i32> {
    if c == '+' {
        Some(a.wrapping_add(b))
    } else if c == '-' {
        Some(a.wrapping_sub(b))
    } else if c == '*' {
        Some(a.wrapping_mul(b))
    } else if b == 0 {
        None
    } else {
        Some(truncated_quotient(a, b))
    }
}

/// The value of an expression, left operand first. `vars` gives the
/// value of each variable that occurs in it, by name, as the caller sees it;
/// the result is `None` when a division by zero is met.
pub open spec fn evaluate(e: Tree, vars: spec_fn(Seq<char>) -> i32) -> Option<i32>
    decreases e,
{
    match e.kind {
        Kind::Op(c) => {
            if e.children.len() == 2 {
                match evaluate(e.children[0], vars) {
                    Some(a) => match evaluate(e.children[1], vars) {
                        Some(b) => apply_operator(c, a, b),
                        None => None,
                    },
                    None => None,
                }
            } else {
                None
            }
        },
        Kind::Literal(v) => Some(v),
        Kind::Variable(name) => Some(vars(name)),
        _ => None,
    }
}

impl Expr {
    /// A fresh node: the literal zero, without children.
    pub fn new() -> (e: Expr)
        ensures
            e.expr_type == ExprType::Literal(0),
            e.children@ == Seq::<Expr>::empty(),
            e@ == (Tree { kind: Kind::Literal(0), children: Seq::empty() }),
            well_formed(e@),
    {
        let e = Expr { children: Vec::new(), expr_type: ExprType::Literal(0) };
        assert(e@.children =~= Seq::<Tree>::empty());
        e
    }

    /// Tests whether the tree is well formed.
    pub fn is_well_formed(&self) -> (ok: bool)
        ensures
            ok == well_formed(self@),
        decreases *self,
    {
        let n = self.children.len();
        let arity = match &self.expr_type {
            ExprType::Op(c) => (*c == '+' || *c == '-' || *c == '*' || *c == '/') && n == 2,
            ExprType::Literal(_) => n == 0,
            ExprType::Variable(_) => n == 0,
            ExprType::PrintStmt => n == 1,
            ExprType::AssignStmt(_) => n == 1,
            ExprType::VarDeclStmt(_) => n <= 1,
            ExprType::Program => true,
        };
        if !arity {
            return false;
        }
        let mut i: usize = 0;
        while i < n
            invariant
                n == self.children.len(),
                i <= n,
                forall|j: int| 0 <= j < i ==> well_formed(#[trigger] self@.children[j]),
            decreases n - i,
        {
            proof {
                lemma_tree_of_child(*self, i as int);
            }
            if !self.children[i].is_well_formed() {
                return false;
            }
            i = i + 1;
        }
        true
    }
}

} // verus!
