//! The abstract syntax tree shared by the interpreter and the code
//! generator, together with its mathematical model.
//!
//! Every operand position is a *sequence* of nodes, never a single node: a
//! sub-parse that yields nothing (a comment, a blank statement) still
//! type-checks as an empty operand sequence evaluating to `0.0`.
//!
//! The model types ([`NodeS`], [`FnExprS`]) mirror the executable types with
//! `Seq<char>` for names and `Seq` for node lists; [`node_view`] and
//! [`nodes_view`] relate the two.  Contracts throughout the crate speak of
//! the model.

use vstd::prelude::*;

verus! {

/// An arithmetic or comparison operator.
///
/// `Gt`, `Lt` and `Eqt` are comparisons: the interpreter represents their
/// result as `1.0` or `0.0`, while the code generator keeps comparison
/// results in a distinct integer kind.
#[derive(Debug, PartialEq, Eq, Structural, Clone, Copy)]
pub enum Op {
    Add,
    Sub,
    Mul,
    Div,
    /// Greater than
    Gt,
    /// Less than
    Lt,
    /// Modulo
    Mod,
    /// Equal to
    Eqt,
}

/// The operator denoted by a token, if any.
pub open spec fn op_of(s: Seq<char>) -> Option<Op> {
    if s == "+"@ {
        Some(Op::Add)
    } else if s == "-"@ {
        Some(Op::Sub)
    } else if s == "*"@ {
        Some(Op::Mul)
    } else if s == "/"@ {
        Some(Op::Div)
    } else if s == ">"@ {
        Some(Op::Gt)
    } else if s == "<"@ {
        Some(Op::Lt)
    } else if s == "%"@ {
        Some(Op::Mod)
    } else if s == "=="@ {
        Some(Op::Eqt)
    } else {
        None
    }
}

impl Op {
    /// Create an operator from its token.  The token must denote an
    /// operator; [`op_token`](crate::parse::op_token) decides whether it does.
    pub fn new(s: &str) -> (r: Self)
        requires
            op_of(s@) is Some,
        ensures
            Some(r) == op_of(s@),
    {
        match crate::parse::op_token(s) {
            Some(op) => op,
            None => {
                // excluded by the precondition
                proof {
                    assert(false);
                }
                Op::Add
            },
        }
    }
}

/// An arithmetic or comparison expression, e.g. `+ 1 2`.
#[derive(Debug, PartialEq)]
pub struct BinaryExpr {
    pub op: Op,
    pub lhs: Vec<Node>,
    pub rhs: Vec<Node>,
}

/// A binding, e.g. `let x 10`.  Binding an already-bound name overwrites it.
#[derive(Debug, PartialEq)]
pub struct BindExpr {
    pub name: String,
    pub value: Vec<Node>,
}

/// A return, e.g. `return x`.  Without one, a sequence evaluates to its last
/// value.
#[derive(Debug, PartialEq)]
pub struct ReturnExpr {
    pub value: Vec<Node>,
}

/// A mutation of an existing binding, e.g. `:= x 10`.  Unlike [`BindExpr`]
/// this never introduces a new binding.
#[derive(Debug, PartialEq)]
pub struct MutateExpr {
    pub name: String,
    pub value: Vec<Node>,
}

/// A loop, e.g. `while < x 10`, running while the condition is not `0.0`.
#[derive(Debug, PartialEq)]
pub struct WhileExpr {
    pub condition: Vec<Node>,
    pub body: Vec<Node>,
}

/// A conditional, e.g. `if < x 10`; the else branch is optional.
#[derive(Debug, PartialEq)]
pub struct IfExpr {
    pub condition: Vec<Node>,
    pub body: Vec<Node>,
    pub else_body: Vec<Node>,
}

/// A function definition, e.g. `fn sum (x y)` followed by a body and `end`.
#[derive(Debug, PartialEq)]
pub struct FnExpr {
    pub name: String,
    pub args: Vec<Node>,
    pub body: Vec<Node>,
}

/// A function call, e.g. `sum (1 2)`.
#[derive(Debug, PartialEq)]
pub struct FnCallExpr {
    pub name: String,
    pub args: Vec<Node>,
}

/// A print statement, e.g. `print x`, writing one number to standard output.
#[derive(Debug, PartialEq)]
pub struct PrintStdoutExpr {
    pub value: Vec<Node>,
}

/// One element of the language.
#[derive(Debug, PartialEq)]
pub enum Node {
    Number(crate::num::Number),
    BinaryExpr(BinaryExpr),
    BindExpr(BindExpr),
    Variable(String),
    ReturnExpr(ReturnExpr),
    MutateExpr(MutateExpr),
    WhileExpr(WhileExpr),
    IfExpr(IfExpr),
    FnExpr(FnExpr),
    FnCallExpr(FnCallExpr),
    PrintStdoutExpr(PrintStdoutExpr),
}

/// The model of a [`FnExpr`].
pub struct FnExprS {
    pub name: Seq<char>,
    pub args: Seq<NodeS>,
    pub body: Seq<NodeS>,
}

/// The model of a [`Node`].
pub enum NodeS {
    Number(u64),
    Binary { op: Op, lhs: Seq<NodeS>, rhs: Seq<NodeS> },
    Bind { name: Seq<char>, value: Seq<NodeS> },
    Variable(Seq<char>),
    Return { value: Seq<NodeS> },
    Mutate { name: Seq<char>, value: Seq<NodeS> },
    While { condition: Seq<NodeS>, body: Seq<NodeS> },
    If { condition: Seq<NodeS>, body: Seq<NodeS>, else_body: Seq<NodeS> },
    Fn(FnExprS),
    Call { name: Seq<char>, args: Seq<NodeS> },
    Print { value: Seq<NodeS> },
}

/// The model of a node.
pub open spec fn node_view(n: Node) -> NodeS
    decreases n, 0int,
{
    match n {
        Node::Number(x) => NodeS::Number(x.0),
        Node::BinaryExpr(e) => NodeS::Binary {
            op: e.op,
            lhs: nodes_view(e.lhs@),
            rhs: nodes_view(e.rhs@),
        },
        Node::BindExpr(e) => NodeS::Bind { name: e.name@, value: nodes_view(e.value@) },
        Node::Variable(name) => NodeS::Variable(name@),
        Node::ReturnExpr(e) => NodeS::Return { value: nodes_view(e.value@) },
        Node::MutateExpr(e) => NodeS::Mutate { name: e.name@, value: nodes_view(e.value@) },
        Node::WhileExpr(e) => NodeS::While {
            condition: nodes_view(e.condition@),
            body: nodes_view(e.body@),
        },
        Node::IfExpr(e) => NodeS::If {
            condition: nodes_view(e.condition@),
            body: nodes_view(e.body@),
            else_body: nodes_view(e.else_body@),
        },
        Node::FnExpr(e) => NodeS::Fn(fn_expr_view(e)),
        Node::FnCallExpr(e) => NodeS::Call { name: e.name@, args: nodes_view(e.args@) },
        Node::PrintStdoutExpr(e) => NodeS::Print { value: nodes_view(e.value@) },
    }
}

/// The model of a node sequence, element by element.
pub open spec fn nodes_view(s: Seq<Node>) -> Seq<NodeS>
    decreases s, 1int,
{
    if s.len() == 0 {
        Seq::empty()
    } else {
        nodes_view(s.drop_last()).push(node_view(s.last()))
    }
}

/// The model of a function definition.
pub open spec fn fn_expr_view(f: FnExpr) -> FnExprS
    decreases f, 2int,
{
    FnExprS { name: f.name@, args: nodes_view(f.args@), body: nodes_view(f.body@) }
}

/// The model of a node sequence models each of its nodes.
pub broadcast proof fn lemma_nodes_view(s: Seq<Node>)
    ensures
        (#[trigger] nodes_view(s)).len() == s.len(),
        forall|i: int| 0 <= i < s.len() ==> nodes_view(s)[i] == node_view(s[i]),
    decreases s.len(),
{
    if s.len() > 0 {
        lemma_nodes_view(s.drop_last());
    }
}

/// Appending a node appends its model.
pub broadcast proof fn lemma_nodes_view_push(s: Seq<Node>, x: Node)
    ensures
        #[trigger] nodes_view(s.push(x)) == nodes_view(s).push(node_view(x)),
{
    assert(s.push(x).drop_last() =~= s);
    assert(s.push(x).last() == x);
}

/// Concatenating node sequences concatenates their models.
pub broadcast proof fn lemma_nodes_view_concat(a: Seq<Node>, b: Seq<Node>)
    ensures
        #[trigger] nodes_view(a + b) == nodes_view(a) + nodes_view(b),
{
    lemma_nodes_view(a);
    lemma_nodes_view(b);
    lemma_nodes_view(a + b);
    assert(nodes_view(a + b) =~= nodes_view(a) + nodes_view(b));
}

/// Taking a subrange of a node sequence takes the same subrange of its model.
pub broadcast proof fn lemma_nodes_view_subrange(s: Seq<Node>, a: int, b: int)
    requires
        0 <= a <= b <= s.len(),
    ensures
        #[trigger] nodes_view(s.subrange(a, b)) == nodes_view(s).subrange(a, b),
{
    lemma_nodes_view(s);
    lemma_nodes_view(s.subrange(a, b));
    assert(nodes_view(s.subrange(a, b)) =~= nodes_view(s).subrange(a, b));
}

/// A copy of a node with the same model.
pub fn clone_node(n: &Node) -> (r: Node)
    ensures
        node_view(r) == node_view(*n),
    decreases *n, 3int,
{
    match n {
        Node::Number(x) => Node::Number(crate::num::Number(x.0)),
        Node::BinaryExpr(e) => Node::BinaryExpr(
            BinaryExpr { op: e.op, lhs: clone_nodes(&e.lhs), rhs: clone_nodes(&e.rhs) },
        ),
        Node::BindExpr(e) => Node::BindExpr(
            BindExpr { name: e.name.clone(), value: clone_nodes(&e.value) },
        ),
        Node::Variable(name) => Node::Variable(name.clone()),
        Node::ReturnExpr(e) => Node::ReturnExpr(ReturnExpr { value: clone_nodes(&e.value) }),
        Node::MutateExpr(e) => Node::MutateExpr(
            MutateExpr { name: e.name.clone(), value: clone_nodes(&e.value) },
        ),
        Node::WhileExpr(e) => Node::WhileExpr(
            WhileExpr { condition: clone_nodes(&e.condition), body: clone_nodes(&e.body) },
        ),
        Node::IfExpr(e) => Node::IfExpr(
            IfExpr {
                condition: clone_nodes(&e.condition),
                body: clone_nodes(&e.body),
                else_body: clone_nodes(&e.else_body),
            },
        ),
        Node::FnExpr(e) => Node::FnExpr(clone_fn_expr(e)),
        Node::FnCallExpr(e) => Node::FnCallExpr(
            FnCallExpr { name: e.name.clone(), args: clone_nodes(&e.args) },
        ),
        Node::PrintStdoutExpr(e) => Node::PrintStdoutExpr(
            PrintStdoutExpr { value: clone_nodes(&e.value) },
        ),
    }
}

/// A copy of a node sequence with the same model.
pub fn clone_nodes(s: &Vec<Node>) -> (r: Vec<Node>)
    ensures
        nodes_view(r@) == nodes_view(s@),
    decreases s@, 4int,
{
    let mut r: Vec<Node> = Vec::new();
    let n = s.len();
    let mut i: usize = 0;
    while i < n
        invariant
            0 <= i <= n == s@.len(),
            nodes_view(r@) == nodes_view(s@.take(i as int)),
        decreases n - i,
    {
        let c = clone_node(&s[i]);
        let ghost prev = r@;
        r.push(c);
        proof {
            lemma_nodes_view_push(prev, c);
            lemma_nodes_view_push(s@.take(i as int), s@[i as int]);
            assert(s@.take(i as int + 1) =~= s@.take(i as int).push(s@[i as int]));
        }
        i = i + 1;
    }
    proof {
        assert(s@.take(n as int) =~= s@);
    }
    r
}

/// A copy of a function definition with the same model.
pub fn clone_fn_expr(f: &FnExpr) -> (r: FnExpr)
    ensures
        fn_expr_view(r) == fn_expr_view(*f),
    decreases *f, 5int,
{
    FnExpr { name: f.name.clone(), args: clone_nodes(&f.args), body: clone_nodes(&f.body) }
}

} // verus!
