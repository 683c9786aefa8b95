//! The AST (abstract-syntax-tree) data model: statements, expressions,
//! operators and types, together with its mathematical mirror.
//!
//! Every executable node type has a spec-level model (`..M` types, over
//! `Seq<char>` and `Seq` instead of `String` and `Vec`) computed by the
//! `*_model` functions; the grammar layer's contracts are stated over these
//! models.

use vstd::prelude::*;

verus! {

broadcast use vstd::std_specs::vec::group_vec_axioms, vstd::seq::group_seq_axioms;

/// The closed enumeration of the language's types.
#[derive(Debug, PartialEq, Eq, Clone, Copy, Structural)]
pub enum VarType {
    /// A signed machine integer.
    Int,
    /// A text string.
    Str,
    /// A boolean.
    Bool,
    /// The type of functions that return nothing.
    Void,
}

/// A binary operation kind.
#[derive(Debug, PartialEq, Eq, Clone, Copy, Structural)]
pub enum BinOp {
    /// Addition, `10 + 14`.
    Add,
    /// Subtraction, `5 - 3`.
    Sub,
    /// Division, `32 / 4`.
    Div,
    /// Multiplication, `5 * 11`.
    Mul,
    /// Power of, `3 ^ 3` or `3 ** 3`.
    Power,
    /// Modulo, `20 % 2`.
    Mod,
    /// Equals to, `20 == 2`.
    IsEqual,
    /// Not equals to, `20 != 2`.
    NotEqual,
    /// Greater than, `5 > 6`.
    GreaterThan,
    /// Less than, `5 < 6`.
    LessThan,
    /// Less than or equal to, `5 <= 5`.
    LessThanOrEqual,
    /// Greater than or equal to, `6 >= 5`.
    GreaterThanOrEqual,
    /// Increment by, `x += y`.
    PlusAssign,
    /// Decrement by, `x -= y`.
    SubtractAssign,
    /// Boolean disjunction, `a or b`.
    Or,
    /// Boolean conjunction, `a and b`.
    And,
}

/// A literal constant.
#[derive(Debug, PartialEq)]
pub enum Constant {
    /// Integer constant.
    Int(i32),
    /// String constant.
    Str(String),
    /// Boolean constant.
    Bool(bool),
}

/// The main expression enum, allowing for grouping of all expressions inside
/// of the AST.
#[derive(Debug, PartialEq)]
pub enum ExpressionNode {
    /// A binary operation involving two recursive [`ExpressionNode`]s.
    BinOp(Box<ExpressionNode>, BinOp, Box<ExpressionNode>),
    /// A constant formed from [`Constant`].
    Constant(Constant),
    /// A reference to a previously declared variable or parameter.
    VariablePoint(String),
    /// A function call; see [`FunctionCall`].
    FunctionCall(FunctionCall),
}

/// A function call expression: callee identifier plus ordered arguments.
#[derive(Debug, PartialEq)]
pub struct FunctionCall {
    pub ident: String,
    pub expr_params: Vec<ExpressionNode>,
}

/// A parameter declared inside a function signature: `ident: type`.
#[derive(Debug, PartialEq)]
pub struct Parameter {
    pub ident: String,
    pub ty: VarType,
}

/// An if statement: a boolean condition with a block body.
#[derive(Debug, PartialEq)]
pub struct If {
    pub condition: ExpressionNode,
    pub body: Vec<StatementNode>,
}

/// A while loop: a boolean condition with a block body.
#[derive(Debug, PartialEq)]
pub struct WhileLoop {
    pub condition: ExpressionNode,
    pub body: Vec<StatementNode>,
}

/// A variable declaration: `var ident: type = expr;`.
#[derive(Debug, PartialEq)]
pub struct Variable {
    /// Variable name/identifier.
    pub ident: String,
    /// The declared type; the initializer must agree with it.
    pub ty: VarType,
    /// The initializer expression.
    pub body: Box<ExpressionNode>,
}

/// A function declaration, the basis for the whole language.
#[derive(Debug, PartialEq)]
pub struct Function {
    /// Function identifier.
    pub ident: String,
    /// Parameters declared inside of the function signature.
    pub params: Vec<Parameter>,
    /// The main body inside of the function.
    pub body: Vec<StatementNode>,
    /// A documentation comment attached with the `---` syntax.
    pub docs: Option<String>,
    /// The declared return type; absent `-> type` syntax means [`VarType::Void`].
    pub return_type: VarType,
}

/// The main statement enum, allowing for grouping of statements inside of the
/// AST.
#[derive(Debug, PartialEq)]
pub enum StatementNode {
    /// A nested function declaration.
    Function(Function),
    /// A while loop.
    WhileLoop(WhileLoop),
    /// A variable declaration.
    Variable(Variable),
    /// An if statement.
    If(If),
    /// A single expression evaluated for its side effects.
    Expression(ExpressionNode),
    /// A return statement; the expression is absent only in a function
    /// whose return type is [`VarType::Void`].
    Return(Option<ExpressionNode>),
}

/// The single error value of the pipeline: a human-readable message and the
/// source position (line and column, both starting at 1) of the offending
/// token or construct.
#[derive(Debug, PartialEq)]
pub struct ParseError {
    pub msg: String,
    pub line: usize,
    pub col: usize,
}

// ---------------------------------------------------------------------------
// The mathematical mirror of the AST.
// ---------------------------------------------------------------------------

/// Model of a [`Constant`].
pub enum ConstantM {
    Int(i32),
    Str(Seq<char>),
    Bool(bool),
}

/// Model of an [`ExpressionNode`].
pub enum ExprM {
    BinOp(Box<ExprM>, BinOp, Box<ExprM>),
    Constant(ConstantM),
    VariablePoint(Seq<char>),
    FunctionCall(Seq<char>, Seq<ExprM>),
}

/// Model of a [`Parameter`].
pub struct ParamM {
    pub ident: Seq<char>,
    pub ty: VarType,
}

/// Model of a [`StatementNode`].
pub enum StmtM {
    Function(FunM),
    WhileLoop(ExprM, Seq<StmtM>),
    Variable(Seq<char>, VarType, ExprM),
    If(ExprM, Seq<StmtM>),
    Expression(ExprM),
    Return(Option<ExprM>),
}

/// Model of a [`Function`].
pub struct FunM {
    pub ident: Seq<char>,
    pub params: Seq<ParamM>,
    pub body: Seq<StmtM>,
    pub docs: Option<Seq<char>>,
    pub return_type: VarType,
}

/// The model of a literal constant.
pub open spec fn const_model(c: Constant) -> ConstantM {
    match c {
        Constant::Int(v) => ConstantM::Int(v),
        Constant::Str(s) => ConstantM::Str(s@),
        Constant::Bool(b) => ConstantM::Bool(b),
    }
}

/// The model of an expression node.
pub open spec fn expr_model(e: ExpressionNode) -> ExprM
    decreases e,
{
    match e {
        ExpressionNode::BinOp(l, op, r) => ExprM::BinOp(
            Box::new(expr_model(*l)),
            op,
            Box::new(expr_model(*r)),
        ),
        ExpressionNode::Constant(c) => ExprM::Constant(const_model(c)),
        ExpressionNode::VariablePoint(s) => ExprM::VariablePoint(s@),
        ExpressionNode::FunctionCall(fc) => ExprM::FunctionCall(
            fc.ident@,
            exprs_model(fc.expr_params@),
        ),
    }
}

/// The models of an expression sequence, in order.
pub open spec fn exprs_model(v: Seq<ExpressionNode>) -> Seq<ExprM>
    decreases v,
{
    if v.len() == 0 {
        Seq::empty()
    } else {
        exprs_model(v.drop_last()).push(expr_model(v.last()))
    }
}

/// The element-wise reading of [`exprs_model`].
pub proof fn lemma_exprs_model(v: Seq<ExpressionNode>)
    ensures
        exprs_model(v).len() == v.len(),
        forall|i: int| 0 <= i < v.len() ==> exprs_model(v)[i] == expr_model(v[i]),
    decreases v.len(),
{
    if v.len() > 0 {
        lemma_exprs_model(v.drop_last());
    }
}

/// The model of a parameter.
pub open spec fn param_model(p: Parameter) -> ParamM {
    ParamM { ident: p.ident@, ty: p.ty }
}

/// The models of a parameter list, in order.
pub open spec fn params_model(v: Seq<Parameter>) -> Seq<ParamM> {
    Seq::new(v.len(), |i: int| param_model(v[i]))
}

/// The model of a statement node.
pub open spec fn stmt_model(s: StatementNode) -> StmtM
    decreases s,
{
    match s {
        StatementNode::Function(f) => StmtM::Function(fun_model(f)),
        StatementNode::WhileLoop(w) => StmtM::WhileLoop(
            expr_model(w.condition),
            stmts_model(w.body@),
        ),
        StatementNode::Variable(v) => StmtM::Variable(v.ident@, v.ty, expr_model(*v.body)),
        StatementNode::If(c) => StmtM::If(expr_model(c.condition), stmts_model(c.body@)),
        StatementNode::Expression(e) => StmtM::Expression(expr_model(e)),
        StatementNode::Return(e) => StmtM::Return(
            match e {
                Some(e) => Some(expr_model(e)),
                None => None,
            },
        ),
    }
}

/// The models of a statement sequence, in order.
pub open spec fn stmts_model(v: Seq<StatementNode>) -> Seq<StmtM>
    decreases v,
{
    if v.len() == 0 {
        Seq::empty()
    } else {
        stmts_model(v.drop_last()).push(stmt_model(v.last()))
    }
}

/// The element-wise reading of [`stmts_model`].
pub proof fn lemma_stmts_model(v: Seq<StatementNode>)
    ensures
        stmts_model(v).len() == v.len(),
        forall|i: int| 0 <= i < v.len() ==> stmts_model(v)[i] == stmt_model(v[i]),
    decreases v.len(),
{
    if v.len() > 0 {
        lemma_stmts_model(v.drop_last());
    }
}

/// The model of a function declaration.
pub open spec fn fun_model(f: Function) -> FunM
    decreases f,
{
    FunM {
        ident: f.ident@,
        params: params_model(f.params@),
        body: stmts_model(f.body@),
        docs: match f.docs {
            Some(d) => Some(d@),
            None => None,
        },
        return_type: f.return_type,
    }
}

/// The models of a sequence of function declarations, in order.
pub open spec fn funs_model(v: Seq<Function>) -> Seq<FunM> {
    Seq::new(v.len(), |i: int| fun_model(v[i]))
}

// ---------------------------------------------------------------------------
// Typing rules of the data model.
// ---------------------------------------------------------------------------

/// The type of a literal constant.
pub open spec fn const_ty(c: ConstantM) -> VarType {
    match c {
        ConstantM::Int(_) => VarType::Int,
        ConstantM::Str(_) => VarType::Str,
        ConstantM::Bool(_) => VarType::Bool,
    }
}

/// The fixed result-type rule of each binary operator: arithmetic operators
/// require integer operands and yield an integer, comparisons yield a
/// boolean (equality on operands of one common non-void type, relational
/// operators on integers), and `or`/`and` require boolean operands.  `None`
/// means the operand types are incompatible with the operator.
pub open spec fn binop_result(op: BinOp, lt: VarType, rt: VarType) -> Option<VarType> {
    match op {
        BinOp::Add
        | BinOp::Sub
        | BinOp::Div
        | BinOp::Mul
        | BinOp::Power
        | BinOp::Mod
        | BinOp::PlusAssign
        | BinOp::SubtractAssign => if lt == VarType::Int && rt == VarType::Int {
            Some(VarType::Int)
        } else {
            None
        },
        BinOp::IsEqual | BinOp::NotEqual => if lt == rt && lt != VarType::Void {
            Some(VarType::Bool)
        } else {
            None
        },
        BinOp::GreaterThan | BinOp::LessThan | BinOp::LessThanOrEqual
        | BinOp::GreaterThanOrEqual => if lt == VarType::Int && rt == VarType::Int {
            Some(VarType::Bool)
        } else {
            None
        },
        BinOp::Or | BinOp::And => if lt == VarType::Bool && rt == VarType::Bool {
            Some(VarType::Bool)
        } else {
            None
        },
    }
}

/// Executable form of [`binop_result`].
pub fn binop_result_exec(op: BinOp, lt: VarType, rt: VarType) -> (r: Option<VarType>)
    ensures
        r == binop_result(op, lt, rt),
{
    match op {
        BinOp::Add
        | BinOp::Sub
        | BinOp::Div
        | BinOp::Mul
        | BinOp::Power
        | BinOp::Mod
        | BinOp::PlusAssign
        | BinOp::SubtractAssign => if lt == VarType::Int && rt == VarType::Int {
            Some(VarType::Int)
        } else {
            None
        },
        BinOp::IsEqual | BinOp::NotEqual => if lt == rt && lt != VarType::Void {
            Some(VarType::Bool)
        } else {
            None
        },
        BinOp::GreaterThan | BinOp::LessThan | BinOp::LessThanOrEqual
        | BinOp::GreaterThanOrEqual => if lt == VarType::Int && rt == VarType::Int {
            Some(VarType::Bool)
        } else {
            None
        },
        BinOp::Or | BinOp::And => if lt == VarType::Bool && rt == VarType::Bool {
            Some(VarType::Bool)
        } else {
            None
        },
    }
}

} // verus!
