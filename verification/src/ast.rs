use vstd::prelude::*;

verus! {

/// Binary operators of the source language.
#[derive(Debug, PartialEq, Eq, Clone, Copy, Structural)]
pub enum BinaryOp {
    Add,
    Sub,
    Mul,
    Div,
    Mod,
    And,
    Or,
    Eq,
    Neq,
    Lt,
    Gt,
    Le,
    Ge,
}

/// Prefix operators of the source language.
#[derive(Debug, PartialEq, Eq, Clone, Copy, Structural)]
pub enum UnaryOp {
    Not,
    Neg,
}

/// Declared type of a variable. It is recorded and never checked.
#[derive(Debug, PartialEq, Eq, Clone, Copy, Structural)]
pub enum VarType {
    Number,
    Bool,
}

/// A node of the syntax tree. Statements are expressions too.
#[allow(inconsistent_fields)]
#[derive(Debug, PartialEq)]
pub enum Expr {
    Number(i64),
    Bool(bool),
    Var(String),
    Binary { left: Box<Expr>, op: BinaryOp, right: Box<Expr> },
    Unary { op: UnaryOp, expr: Box<Expr> },
    Let { name: String, var_type: VarType, expr: Box<Expr> },
    If { condition: Box<Expr>, then_branch: Vec<Expr>, else_branch: Option<Vec<Expr>> },
    While { condition: Box<Expr>, body: Vec<Expr> },
    Assign { name: String, expr: Box<Expr> },
}

/// The mathematical value of an [`Expr`]: names are character sequences and
/// blocks are sequences of trees.
#[allow(inconsistent_fields)]
pub enum SpecExpr {
    Number(i64),
    Bool(bool),
    Var(Seq<char>),
    Binary { left: Box<SpecExpr>, op: BinaryOp, right: Box<SpecExpr> },
    Unary { op: UnaryOp, expr: Box<SpecExpr> },
    Let { name: Seq<char>, var_type: VarType, expr: Box<SpecExpr> },
    If { condition: Box<SpecExpr>, then_branch: Seq<SpecExpr>, else_branch: Option<Seq<SpecExpr>> },
    While { condition: Box<SpecExpr>, body: Seq<SpecExpr> },
    Assign { name: Seq<char>, expr: Box<SpecExpr> },
}

impl Expr {
    /// The tree as a mathematical value.
    pub open spec fn model(&self) -> SpecExpr
        decreases self,
    {
        match self {
            Expr::Number(n) => SpecExpr::Number(*n),
            Expr::Bool(b) => SpecExpr::Bool(*b),
            Expr::Var(name) => SpecExpr::Var(name@),
            Expr::Binary { left, op, right } => SpecExpr::Binary {
                left: Box::new(left.model()),
                op: *op,
                right: Box::new(right.model()),
            },
            Expr::Unary { op, expr } => SpecExpr::Unary { op: *op, expr: Box::new(expr.model()) },
            Expr::Let { name, var_type, expr } => SpecExpr::Let {
                name: name@,
                var_type: *var_type,
                expr: Box::new(expr.model()),
            },
            Expr::If { condition, then_branch, else_branch } => SpecExpr::If {
                condition: Box::new(condition.model()),
                then_branch: Expr::models(then_branch@),
                else_branch: match else_branch {
                    Some(items) => Some(Expr::models(items@)),
                    None => None,
                },
            },
            Expr::While { condition, body } => SpecExpr::While {
                condition: Box::new(condition.model()),
                body: Expr::models(body@),
            },
            Expr::Assign { name, expr } => SpecExpr::Assign {
                name: name@,
                expr: Box::new(expr.model()),
            },
        }
    }

    /// The mathematical values of a block's items, in order.
    pub open spec fn models(items: Seq<Expr>) -> Seq<SpecExpr>
        decreases items,
    {
        Seq::new(
            items.len(),
            |i: int|
                if 0 <= i < items.len() {
                    items[i].model()
                } else {
                    SpecExpr::Bool(false)
                },
        )
    }
}

/// The conditional with the given parts, as a mathematical value.
pub open spec fn if_model(
    condition: &Expr,
    then_branch: &Vec<Expr>,
    else_branch: &Option<Vec<Expr>>,
) -> SpecExpr {
    SpecExpr::If {
        condition: Box::new(condition@),
        then_branch: Expr::models(then_branch@),
        else_branch: match else_branch {
            Some(items) => Some(Expr::models(items@)),
            None => None,
        },
    }
}

/// The loop with the given parts, as a mathematical value.
pub open spec fn while_model(condition: &Expr, body: &Vec<Expr>) -> SpecExpr {
    SpecExpr::While { condition: Box::new(condition@), body: Expr::models(body@) }
}

/// How many nodes an expression has.
pub open spec fn size(e: SpecExpr) -> nat
    decreases e,
{
    match e {
        SpecExpr::Number(_) => 1,
        SpecExpr::Bool(_) => 1,
        SpecExpr::Var(_) => 1,
        SpecExpr::Assign { name, expr } => size(*expr) + 1,
        SpecExpr::Let { name, var_type, expr } => size(*expr) + 1,
        SpecExpr::Binary { left, op, right } => size(*left) + size(*right) + 1,
        SpecExpr::Unary { op, expr } => size(*expr) + 1,
        SpecExpr::If { condition, then_branch, else_branch } => size(*condition) + 1 + block_size(
            then_branch,
        ) + match else_branch {
            Some(items) => block_size(items),
            None => 0,
        },
        SpecExpr::While { condition, body } => size(*condition) + block_size(body) + 1,
    }
}

/// [`size`], summed over the items of a block.
pub open spec fn block_size(items: Seq<SpecExpr>) -> nat
    decreases items,
{
    if items.len() == 0 {
        0
    } else {
        block_size(items.drop_last()) + size(items.last())
    }
}

/// An item of a block is no larger than the block.
pub proof fn lemma_item_size(items: Seq<SpecExpr>, i: int)
    requires
        0 <= i < items.len(),
    ensures
        size(items[i]) <= block_size(items),
    decreases items.len(),
{
    if i < items.len() - 1 {
        lemma_item_size(items.drop_last(), i);
    }
}

impl Expr {
    /// A copy of the tree.
    fn duplicate(&self) -> (copy: Expr)
        ensures
            copy@ == self@,
        decreases self,
    {
        match self {
            Expr::Number(n) => Expr::Number(*n),
            Expr::Bool(b) => Expr::Bool(*b),
            Expr::Var(name) => Expr::Var(name.clone()),
            Expr::Binary { left, op, right } => Expr::Binary {
                left: Box::new(left.duplicate()),
                op: *op,
                right: Box::new(right.duplicate()),
            },
            Expr::Unary { op, expr } => Expr::Unary { op: *op, expr: Box::new(expr.duplicate()) },
            Expr::Let { name, var_type, expr } => Expr::Let {
                name: name.clone(),
                var_type: *var_type,
                expr: Box::new(expr.duplicate()),
            },
            Expr::If { condition, then_branch, else_branch } => Expr::If {
                condition: Box::new(condition.duplicate()),
                then_branch: Expr::duplicate_all(then_branch),
                else_branch: match else_branch {
                    Some(items) => Some(Expr::duplicate_all(items)),
                    None => None,
                },
            },
            Expr::While { condition, body } => Expr::While {
                condition: Box::new(condition.duplicate()),
                body: Expr::duplicate_all(body),
            },
            Expr::Assign { name, expr } => Expr::Assign {
                name: name.clone(),
                expr: Box::new(expr.duplicate()),
            },
        }
    }

    /// Copies of the items of a block.
    fn duplicate_all(items: &Vec<Expr>) -> (copies: Vec<Expr>)
        ensures
            Expr::models(copies@) == Expr::models(items@),
        decreases items,
    {
        let mut copies: Vec<Expr> = Vec::new();
        let mut i: usize = 0;
        while i < items.len()
            invariant
                i <= items.len(),
                copies.len() == i,
                forall|k: int| 0 <= k < i ==> (#[trigger] copies[k])@ == items[k]@,
            decreases items.len() - i,
        {
            copies.push(items[i].duplicate());
            i = i + 1;
        }
        assert(Expr::models(copies@) =~= Expr::models(items@));
        copies
    }
}

impl Clone for Expr {
    fn clone(&self) -> (copy: Self)
        ensures
            copy@ == self@,
    {
        self.duplicate()
    }
}

impl View for Expr {
    type V = SpecExpr;

    open spec fn view(&self) -> SpecExpr {
        self.model()
    }
}

impl DeepView for Expr {
    type V = SpecExpr;

    open spec fn deep_view(&self) -> SpecExpr {
        self.model()
    }
}

} // verus!
