//! The grammar layer: parses the token stream into AST nodes, resolving
//! identifiers and checking types while each node is built.
//!
//! [`parse`] is the executable parser; its result is pinned, node for node,
//! to the mathematical parser [`spec_parse`], which embeds the scoping and
//! typing rules.  Parsing is fail-fast: the first structural or semantic
//! violation is returned as a [`ParseError`] and nothing is recovered.

use vstd::prelude::*;

verus! {

use crate::parser::ast::binop_result;
use crate::parser::ast::binop_result_exec;
use crate::parser::ast::exprs_model;
use crate::parser::ast::expr_model;
use crate::parser::ast::fun_model;
use crate::parser::ast::funs_model;
use crate::parser::ast::lemma_exprs_model;
use crate::parser::ast::lemma_stmts_model;
use crate::parser::ast::param_model;
use crate::parser::ast::params_model;
use crate::parser::ast::stmts_model;
use crate::parser::ast::stmt_model;
use crate::parser::ast::BinOp;
use crate::parser::ast::Constant;
use crate::parser::ast::ExprM;
use crate::parser::ast::ExpressionNode;
use crate::parser::ast::FunM;
use crate::parser::ast::Function;
use crate::parser::ast::FunctionCall;
use crate::parser::ast::If;
use crate::parser::ast::ParamM;
use crate::parser::ast::Parameter;
use crate::parser::ast::ParseError;
use crate::parser::ast::StatementNode;
use crate::parser::ast::StmtM;
use crate::parser::ast::Variable;
use crate::parser::ast::VarType;
use crate::parser::ast::WhileLoop;
use crate::parser::lexer::kind_model;
use crate::parser::lexer::lex;
use crate::parser::lexer::spec_lex;
use crate::parser::lexer::toks_model;
use crate::parser::lexer::LexOut;
use crate::parser::lexer::TokKindM;
use crate::parser::lexer::TokM;
use crate::parser::lexer::Token;
use crate::parser::lexer::TokenKind;
use crate::parser::scope::env_declare;
use crate::parser::scope::env_resolve;
use crate::parser::scope::Scope;
use vstd::string::StrSliceExecFns;

/// What the scope binds a name to: a variable with its type, or a function
/// with its parameter types and return type.
pub enum Bind {
    Var(VarType),
    Func(Vec<VarType>, VarType),
}

/// Model of a [`Bind`].
pub enum BindM {
    Var(VarType),
    Func(Seq<VarType>, VarType),
}

/// The model of a binding.
pub open spec fn bind_model(b: Bind) -> BindM {
    match b {
        Bind::Var(t) => BindM::Var(t),
        Bind::Func(ps, r) => BindM::Func(ps@, r),
    }
}

/// The stack of binding frames, mathematically.
pub type EnvM = Seq<Map<Seq<char>, BindM>>;

/// The model of a scope's frame stack.
pub open spec fn env_model(sv: Seq<Map<Seq<char>, Bind>>) -> EnvM {
    Seq::new(sv.len(), |i: int| sv[i].map_values(|b: Bind| bind_model(b)))
}

/// Resolution commutes with taking the model of every binding.
pub proof fn lemma_env_model_resolve(sv: Seq<Map<Seq<char>, Bind>>, name: Seq<char>)
    ensures
        env_resolve(env_model(sv), name) == match env_resolve(sv, name) {
            Some(b) => Some(bind_model(b)),
            None => None::<BindM>,
        },
    decreases sv.len(),
{
    if sv.len() > 0 {
        let last = sv.last();
        let lastm = env_model(sv).last();
        assert(lastm == last.map_values(|b: Bind| bind_model(b)));
        assert(lastm.dom() =~= last.dom());
        if last.dom().contains(name) {
            assert(lastm[name] == bind_model(last[name]));
        } else {
            lemma_env_model_resolve(sv.drop_last(), name);
            assert(env_model(sv).drop_last() =~= env_model(sv.drop_last()));
        }
    }
}

/// Declaration commutes with taking the model of every binding.
pub proof fn lemma_env_model_declare(sv: Seq<Map<Seq<char>, Bind>>, name: Seq<char>, b: Bind)
    requires
        sv.len() > 0,
    ensures
        env_model(env_declare(sv, name, b)) == env_declare(env_model(sv), name, bind_model(b)),
{
    let lhs = env_model(env_declare(sv, name, b));
    let rhs = env_declare(env_model(sv), name, bind_model(b));
    assert(lhs.last() =~= rhs.last()) by {
        assert(sv.last().map_values(|x: Bind| bind_model(x)).dom() =~= sv.last().dom());
        assert(sv.last().insert(name, b).map_values(|x: Bind| bind_model(x)).dom() =~= sv.last()
            .insert(name, b).dom());
    }
    assert(lhs =~~= rhs);
}

/// Entering a frame commutes with taking the model of every binding.
pub proof fn lemma_env_model_push(sv: Seq<Map<Seq<char>, Bind>>)
    ensures
        env_model(sv.push(Map::empty())) == env_model(sv).push(Map::empty()),
{
    assert(Map::<Seq<char>, Bind>::empty().map_values(|x: Bind| bind_model(x)).dom()
        =~= Map::<Seq<char>, BindM>::empty().dom());
    assert(Map::<Seq<char>, Bind>::empty().map_values(|x: Bind| bind_model(x))
        =~= Map::<Seq<char>, BindM>::empty());
    assert(env_model(sv.push(Map::empty())) =~= env_model(sv).push(Map::empty()));
}

/// Leaving a frame commutes with taking the model of every binding.
pub proof fn lemma_env_model_drop(sv: Seq<Map<Seq<char>, Bind>>)
    requires
        sv.len() > 0,
    ensures
        env_model(sv.drop_last()) == env_model(sv).drop_last(),
{
    assert(env_model(sv.drop_last()) =~= env_model(sv).drop_last());
}

// ---------------------------------------------------------------------------
// The mathematical parser.
// ---------------------------------------------------------------------------

/// The outcome of one parsing step: a value with the next token position, or
/// the position (line, column) of the offending token.
pub enum PR<T> {
    Good(T, int),
    Bad(int, int),
}

/// The source position used for a diagnostic at token `pos`: the token
/// itself, or the last token when the stream ended too early.
pub open spec fn pos_of(tm: Seq<TokM>, pos: int) -> (int, int) {
    if 0 <= pos < tm.len() {
        (tm[pos].line, tm[pos].col)
    } else if tm.len() > 0 {
        (tm[tm.len() - 1].line, tm[tm.len() - 1].col)
    } else {
        (1, 1)
    }
}

/// The precedence level of each operator, from loosest (0, `or`) to
/// tightest (6, power).
pub open spec fn level_of(op: BinOp) -> int {
    match op {
        BinOp::Or => 0,
        BinOp::And => 1,
        BinOp::IsEqual | BinOp::NotEqual => 2,
        BinOp::LessThan | BinOp::GreaterThan | BinOp::LessThanOrEqual
        | BinOp::GreaterThanOrEqual => 3,
        BinOp::Add | BinOp::Sub | BinOp::PlusAssign | BinOp::SubtractAssign => 4,
        BinOp::Mul | BinOp::Div | BinOp::Mod => 5,
        BinOp::Power => 6,
    }
}

/// The operator of the given precedence level that the token denotes, if any.
pub open spec fn op_of_level(k: TokKindM, lvl: int) -> Option<BinOp> {
    match k {
        TokKindM::Op(op) => if level_of(op) == lvl {
            Some(op)
        } else {
            None
        },
        _ => None,
    }
}

/// A primary expression: a literal, a parenthesized expression, a variable
/// reference or a function call, together with its type.
pub open spec fn spec_primary(tm: Seq<TokM>, pos: int, env: EnvM) -> PR<(ExprM, VarType)>
    decreases tm.len() - pos, 3int, 0int,
{
    if !(0 <= pos < tm.len()) {
        let (l, c) = pos_of(tm, pos);
        PR::Bad(l, c)
    } else {
        match tm[pos].kind {
            TokKindM::IntLit(v) => PR::Good(
                (ExprM::Constant(crate::parser::ast::ConstantM::Int(v)), VarType::Int),
                pos + 1,
            ),
            TokKindM::StrLit(s) => PR::Good(
                (ExprM::Constant(crate::parser::ast::ConstantM::Str(s)), VarType::Str),
                pos + 1,
            ),
            TokKindM::BoolLit(b) => PR::Good(
                (ExprM::Constant(crate::parser::ast::ConstantM::Bool(b)), VarType::Bool),
                pos + 1,
            ),
            TokKindM::LParen => match spec_binop(tm, pos + 1, env, 0) {
                PR::Bad(l, c) => PR::Bad(l, c),
                PR::Good((e, t), p2) => if p2 < tm.len() && tm[p2].kind is RParen {
                    PR::Good((e, t), p2 + 1)
                } else {
                    let (l, c) = pos_of(tm, p2);
                    PR::Bad(l, c)
                },
            },
            TokKindM::Ident(name) => if pos + 1 < tm.len() && tm[pos + 1].kind is LParen {
                match spec_call_args(tm, pos + 2, env) {
                    PR::Bad(l, c) => PR::Bad(l, c),
                    PR::Good((es, ts), p2) => match env_resolve(env, name) {
                        Some(BindM::Func(ps, rt)) => if ps == ts {
                            PR::Good((ExprM::FunctionCall(name, es), rt), p2)
                        } else {
                            let (l, c) = pos_of(tm, pos);
                            PR::Bad(l, c)
                        },
                        Some(BindM::Var(_)) => {
                            let (l, c) = pos_of(tm, pos);
                            PR::Bad(l, c)
                        },
                        None => {
                            let (l, c) = pos_of(tm, pos);
                            PR::Bad(l, c)
                        },
                    },
                }
            } else {
                match env_resolve(env, name) {
                    Some(BindM::Var(t)) => PR::Good((ExprM::VariablePoint(name), t), pos + 1),
                    Some(BindM::Func(_, _)) => {
                        let (l, c) = pos_of(tm, pos);
                        PR::Bad(l, c)
                    },
                    None => {
                        let (l, c) = pos_of(tm, pos);
                        PR::Bad(l, c)
                    },
                }
            },
            _ => {
                let (l, c) = pos_of(tm, pos);
                PR::Bad(l, c)
            },
        }
    }
}

/// The comma-separated argument expressions of a call, with their types,
/// consuming the closing parenthesis.
pub open spec fn spec_call_args(tm: Seq<TokM>, pos: int, env: EnvM) -> PR<
    (Seq<ExprM>, Seq<VarType>),
>
    decreases tm.len() - pos, 11int, 0int,
{
    if !(0 <= pos <= tm.len()) {
        let (l, c) = pos_of(tm, pos);
        PR::Bad(l, c)
    } else if pos < tm.len() && tm[pos].kind is RParen {
        PR::Good((Seq::empty(), Seq::empty()), pos + 1)
    } else {
        match spec_binop(tm, pos, env, 0) {
            PR::Bad(l, c) => PR::Bad(l, c),
            PR::Good((e, t), p2) => if pos < p2 < tm.len() {
                if tm[p2].kind is Comma {
                    match spec_call_args(tm, p2 + 1, env) {
                        PR::Bad(l, c) => PR::Bad(l, c),
                        PR::Good((es, ts), p3) => PR::Good(
                            (seq![e] + es, seq![t] + ts),
                            p3,
                        ),
                    }
                } else if tm[p2].kind is RParen {
                    PR::Good((seq![e], seq![t]), p2 + 1)
                } else {
                    let (l, c) = pos_of(tm, p2);
                    PR::Bad(l, c)
                }
            } else {
                let (l, c) = pos_of(tm, p2);
                PR::Bad(l, c)
            },
        }
    }
}

/// A binary-operator expression at the given precedence level; levels below
/// the power level are left-associative, the power level associates to the
/// right.
pub open spec fn spec_binop(tm: Seq<TokM>, pos: int, env: EnvM, lvl: int) -> PR<
    (ExprM, VarType),
>
    decreases tm.len() - pos, 10 - lvl, 1int,
{
    if !(0 <= pos <= tm.len() && 0 <= lvl <= 6) {
        let (l, c) = pos_of(tm, pos);
        PR::Bad(l, c)
    } else {
        let sub = if lvl == 6 {
            spec_primary(tm, pos, env)
        } else {
            spec_binop(tm, pos, env, lvl + 1)
        };
        match sub {
            PR::Bad(l, c) => PR::Bad(l, c),
            PR::Good((e, t), p2) => if pos < p2 <= tm.len() {
                if lvl == 6 {
                    if p2 < tm.len() {
                        match op_of_level(tm[p2].kind, 6) {
                            Some(op) => match spec_binop(tm, p2 + 1, env, 6) {
                                PR::Bad(l, c) => PR::Bad(l, c),
                                PR::Good((rhs, rt), p3) => match binop_result(op, t, rt) {
                                    Some(ty2) => PR::Good(
                                        (
                                            ExprM::BinOp(Box::new(e), op, Box::new(rhs)),
                                            ty2,
                                        ),
                                        p3,
                                    ),
                                    None => {
                                        let (l, c) = pos_of(tm, p2);
                                        PR::Bad(l, c)
                                    },
                                },
                            },
                            None => PR::Good((e, t), p2),
                        }
                    } else {
                        PR::Good((e, t), p2)
                    }
                } else {
                    spec_bin_rest(tm, p2, env, lvl, e, t)
                }
            } else {
                let (l, c) = pos_of(tm, pos);
                PR::Bad(l, c)
            },
        }
    }
}

/// The left-associative continuation of a binary-operator expression: folds
/// further `op operand` pairs of the same level onto the accumulator.
pub open spec fn spec_bin_rest(
    tm: Seq<TokM>,
    pos: int,
    env: EnvM,
    lvl: int,
    acc: ExprM,
    acct: VarType,
) -> PR<(ExprM, VarType)>
    decreases tm.len() - pos, 10 - lvl, 0int,
{
    if !(0 <= pos <= tm.len() && 0 <= lvl < 6) {
        let (l, c) = pos_of(tm, pos);
        PR::Bad(l, c)
    } else if pos < tm.len() {
        match op_of_level(tm[pos].kind, lvl) {
            Some(op) => match spec_binop(tm, pos + 1, env, lvl + 1) {
                PR::Bad(l, c) => PR::Bad(l, c),
                PR::Good((rhs, rt), p3) => match binop_result(op, acct, rt) {
                    Some(ty2) => if pos < p3 <= tm.len() {
                        spec_bin_rest(
                            tm,
                            p3,
                            env,
                            lvl,
                            ExprM::BinOp(Box::new(acc), op, Box::new(rhs)),
                            ty2,
                        )
                    } else {
                        let (l, c) = pos_of(tm, pos);
                        PR::Bad(l, c)
                    },
                    None => {
                        let (l, c) = pos_of(tm, pos);
                        PR::Bad(l, c)
                    },
                },
            },
            None => PR::Good((acc, acct), pos),
        }
    } else {
        PR::Good((acc, acct), pos)
    }
}

/// One statement: a variable declaration, a while loop, an if statement, a
/// return statement or a bare expression, with the frame stack after it.
pub open spec fn spec_stmt(tm: Seq<TokM>, pos: int, env: EnvM, rt: VarType) -> PR<
    (StmtM, EnvM),
>
    decreases tm.len() - pos, 12int, 0int,
{
    if !(0 <= pos < tm.len()) {
        let (l, c) = pos_of(tm, pos);
        PR::Bad(l, c)
    } else {
        match tm[pos].kind {
            TokKindM::Var => spec_var_stmt(tm, pos, env),
            TokKindM::While => match spec_block_stmt(tm, pos, env, rt) {
                PR::Bad(l, c) => PR::Bad(l, c),
                PR::Good((cond, body), p2) => PR::Good(
                    (StmtM::WhileLoop(cond, body), env),
                    p2,
                ),
            },
            TokKindM::If => match spec_block_stmt(tm, pos, env, rt) {
                PR::Bad(l, c) => PR::Bad(l, c),
                PR::Good((cond, body), p2) => PR::Good((StmtM::If(cond, body), env), p2),
            },
            TokKindM::Return => if pos + 1 < tm.len() && tm[pos + 1].kind is Semi {
                if rt == VarType::Void {
                    PR::Good((StmtM::Return(None), env), pos + 2)
                } else {
                    let (l, c) = pos_of(tm, pos);
                    PR::Bad(l, c)
                }
            } else {
                match spec_binop(tm, pos + 1, env, 0) {
                    PR::Bad(l, c) => PR::Bad(l, c),
                    PR::Good((e, t), p2) => if t == rt {
                        if p2 < tm.len() && tm[p2].kind is Semi {
                            PR::Good((StmtM::Return(Some(e)), env), p2 + 1)
                        } else {
                            let (l, c) = pos_of(tm, p2);
                            PR::Bad(l, c)
                        }
                    } else {
                        let (l, c) = pos_of(tm, pos);
                        PR::Bad(l, c)
                    },
                }
            },
            _ => match spec_binop(tm, pos, env, 0) {
                PR::Bad(l, c) => PR::Bad(l, c),
                PR::Good((e, _), p2) => if p2 < tm.len() && tm[p2].kind is Semi {
                    PR::Good((StmtM::Expression(e), env), p2 + 1)
                } else {
                    let (l, c) = pos_of(tm, p2);
                    PR::Bad(l, c)
                },
            },
        }
    }
}

/// A variable declaration statement: `var ident: type = expr;`, which must
/// type-check and may not redeclare a name of the same frame.
pub open spec fn spec_var_stmt(tm: Seq<TokM>, pos: int, env: EnvM) -> PR<(StmtM, EnvM)>
    decreases tm.len() - pos, 11int, 0int,
{
    if !(0 <= pos < tm.len()) {
        let (l, c) = pos_of(tm, pos);
        PR::Bad(l, c)
    } else {
        match spec_ident_at(tm, pos + 1) {
            None => {
                let (l, c) = pos_of(tm, pos + 1);
                PR::Bad(l, c)
            },
            Some(name) => if !(pos + 2 < tm.len() && tm[pos + 2].kind is Colon) {
                let (l, c) = pos_of(tm, pos + 2);
                PR::Bad(l, c)
            } else {
                match spec_type_at(tm, pos + 3) {
                    None => {
                        let (l, c) = pos_of(tm, pos + 3);
                        PR::Bad(l, c)
                    },
                    Some(ty) => if !(pos + 4 < tm.len() && tm[pos + 4].kind is Assign) {
                        let (l, c) = pos_of(tm, pos + 4);
                        PR::Bad(l, c)
                    } else {
                        match spec_binop(tm, pos + 5, env, 0) {
                            PR::Bad(l, c) => PR::Bad(l, c),
                            PR::Good((e, t), p2) => if t != ty {
                                let (l, c) = pos_of(tm, pos + 1);
                                PR::Bad(l, c)
                            } else if env.len() > 0 && env.last().dom().contains(name) {
                                let (l, c) = pos_of(tm, pos + 1);
                                PR::Bad(l, c)
                            } else if p2 < tm.len() && tm[p2].kind is Semi {
                                PR::Good(
                                    (
                                        StmtM::Variable(name, ty, e),
                                        env_declare(env, name, BindM::Var(ty)),
                                    ),
                                    p2 + 1,
                                )
                            } else {
                                let (l, c) = pos_of(tm, p2);
                                PR::Bad(l, c)
                            },
                        }
                    },
                }
            },
        }
    }
}

/// The shared shape of `while (cond) { body }` and `if (cond) { body }`:
/// a boolean condition and a block parsed in a fresh frame.
pub open spec fn spec_block_stmt(tm: Seq<TokM>, pos: int, env: EnvM, rt: VarType) -> PR<
    (ExprM, Seq<StmtM>),
>
    decreases tm.len() - pos, 11int, 0int,
{
    if !(0 <= pos < tm.len()) {
        let (l, c) = pos_of(tm, pos);
        PR::Bad(l, c)
    } else if !(pos + 1 < tm.len() && tm[pos + 1].kind is LParen) {
        let (l, c) = pos_of(tm, pos + 1);
        PR::Bad(l, c)
    } else {
        match spec_binop(tm, pos + 2, env, 0) {
            PR::Bad(l, c) => PR::Bad(l, c),
            PR::Good((cond, ct), p2) => if ct != VarType::Bool {
                let (l, c) = pos_of(tm, pos);
                PR::Bad(l, c)
            } else if !(pos < p2 < tm.len() && tm[p2].kind is RParen) {
                let (l, c) = pos_of(tm, p2);
                PR::Bad(l, c)
            } else if !(p2 + 1 < tm.len() && tm[p2 + 1].kind is LBrace) {
                let (l, c) = pos_of(tm, p2 + 1);
                PR::Bad(l, c)
            } else {
                match spec_stmts(tm, p2 + 2, env.push(Map::empty()), rt) {
                    PR::Bad(l, c) => PR::Bad(l, c),
                    PR::Good((body, _), p3) => if p3 < tm.len() && tm[p3].kind is RBrace {
                        PR::Good((cond, body), p3 + 1)
                    } else {
                        let (l, c) = pos_of(tm, p3);
                        PR::Bad(l, c)
                    },
                }
            },
        }
    }
}

/// A statement sequence up to (but not consuming) the closing brace, with
/// the frame stack after it.
pub open spec fn spec_stmts(tm: Seq<TokM>, pos: int, env: EnvM, rt: VarType) -> PR<
    (Seq<StmtM>, EnvM),
>
    decreases tm.len() - pos, 13int, 0int,
{
    if !(0 <= pos <= tm.len()) {
        let (l, c) = pos_of(tm, pos);
        PR::Bad(l, c)
    } else if pos < tm.len() && tm[pos].kind is RBrace {
        PR::Good((Seq::empty(), env), pos)
    } else if pos >= tm.len() {
        let (l, c) = pos_of(tm, pos);
        PR::Bad(l, c)
    } else {
        match spec_stmt(tm, pos, env, rt) {
            PR::Bad(l, c) => PR::Bad(l, c),
            PR::Good((sm, env2), p2) => if pos < p2 <= tm.len() {
                match spec_stmts(tm, p2, env2, rt) {
                    PR::Bad(l, c) => PR::Bad(l, c),
                    PR::Good((rest, env3), p3) => PR::Good((seq![sm] + rest, env3), p3),
                }
            } else {
                let (l, c) = pos_of(tm, pos);
                PR::Bad(l, c)
            },
        }
    }
}

/// The identifier carried by the token at `pos`, if any.
pub open spec fn spec_ident_at(tm: Seq<TokM>, pos: int) -> Option<Seq<char>> {
    if 0 <= pos < tm.len() {
        match tm[pos].kind {
            TokKindM::Ident(name) => Some(name),
            _ => None,
        }
    } else {
        None
    }
}

/// The type name carried by the token at `pos`, if any.
pub open spec fn spec_type_at(tm: Seq<TokM>, pos: int) -> Option<VarType> {
    if 0 <= pos < tm.len() {
        match tm[pos].kind {
            TokKindM::TypeName(t) => Some(t),
            _ => None,
        }
    } else {
        None
    }
}

/// Whether a parameter list already declares the given name.
pub open spec fn params_contain(ps: Seq<ParamM>, name: Seq<char>) -> bool {
    exists|i: int| 0 <= i < ps.len() && ps[i].ident == name
}

/// The declared types of a parameter list, in order.
pub open spec fn param_types(ps: Seq<ParamM>) -> Seq<VarType> {
    Seq::new(ps.len(), |i: int| ps[i].ty)
}

/// A comma-separated parameter list up to (but not consuming) the closing
/// parenthesis; duplicate parameter names are rejected.
pub open spec fn spec_params(tm: Seq<TokM>, pos: int, acc: Seq<ParamM>) -> PR<Seq<ParamM>>
    decreases tm.len() - pos, 3int, 0int,
{
    if !(0 <= pos <= tm.len()) {
        let (l, c) = pos_of(tm, pos);
        PR::Bad(l, c)
    } else if pos < tm.len() && tm[pos].kind is RParen {
        PR::Good(acc, pos)
    } else {
        match spec_ident_at(tm, pos) {
            None => {
                let (l, c) = pos_of(tm, pos);
                PR::Bad(l, c)
            },
            Some(name) => if !(pos + 1 < tm.len() && tm[pos + 1].kind is Colon) {
                let (l, c) = pos_of(tm, pos + 1);
                PR::Bad(l, c)
            } else {
                match spec_type_at(tm, pos + 2) {
                    None => {
                        let (l, c) = pos_of(tm, pos + 2);
                        PR::Bad(l, c)
                    },
                    Some(ty) => if params_contain(acc, name) {
                        let (l, c) = pos_of(tm, pos);
                        PR::Bad(l, c)
                    } else {
                        let acc2 = acc.push(ParamM { ident: name, ty });
                        if pos + 3 < tm.len() && tm[pos + 3].kind is Comma {
                            spec_params(tm, pos + 4, acc2)
                        } else {
                            PR::Good(acc2, pos + 3)
                        }
                    },
                }
            },
        }
    }
}

/// The frame stack after declaring every parameter in the innermost frame.
pub open spec fn declare_params(env: EnvM, ps: Seq<ParamM>) -> EnvM
    decreases ps.len(),
{
    if ps.len() == 0 {
        env
    } else {
        env_declare(
            declare_params(env, ps.drop_last()),
            ps.last().ident,
            BindM::Var(ps.last().ty),
        )
    }
}

/// One function declaration: `fun ident(params) (-> type)? { body }`, with
/// the documentation comment attached by the caller.  The function is bound
/// in the current innermost frame before its body is parsed, so it may call
/// itself; its parameters live in a fresh frame around the body.
pub open spec fn spec_function(tm: Seq<TokM>, pos: int, env: EnvM, docs: Option<Seq<char>>)
    -> PR<(FunM, EnvM)>
    decreases tm.len() - pos, 14int, 0int,
{
    if !(0 <= pos < tm.len() && tm[pos].kind is Fun) {
        let (l, c) = pos_of(tm, pos);
        PR::Bad(l, c)
    } else {
        match spec_ident_at(tm, pos + 1) {
            None => {
                let (l, c) = pos_of(tm, pos + 1);
                PR::Bad(l, c)
            },
            Some(name) => if !(pos + 2 < tm.len() && tm[pos + 2].kind is LParen) {
                let (l, c) = pos_of(tm, pos + 2);
                PR::Bad(l, c)
            } else {
                match spec_params(tm, pos + 3, Seq::empty()) {
                    PR::Bad(l, c) => PR::Bad(l, c),
                    PR::Good(ps, p2) => if !(pos < p2 < tm.len() && tm[p2].kind is RParen) {
                        let (l, c) = pos_of(tm, p2);
                        PR::Bad(l, c)
                    } else {
                        let (ret, bpos) = if p2 + 1 < tm.len() && tm[p2 + 1].kind is Arrow {
                            match spec_type_at(tm, p2 + 2) {
                                Some(t) => (t, p2 + 3),
                                None => (VarType::Void, -1),
                            }
                        } else {
                            (VarType::Void, p2 + 1)
                        };
                        if bpos < 0 {
                            let (l, c) = pos_of(tm, p2 + 2);
                            PR::Bad(l, c)
                        } else if !(bpos < tm.len() && tm[bpos].kind is LBrace) {
                            let (l, c) = pos_of(tm, bpos);
                            PR::Bad(l, c)
                        } else if env.len() > 0 && env.last().dom().contains(name) {
                            let (l, c) = pos_of(tm, pos + 1);
                            PR::Bad(l, c)
                        } else {
                            let env1 = env_declare(env, name, BindM::Func(param_types(ps), ret));
                            let env2 = declare_params(env1.push(Map::empty()), ps);
                            if bpos + 1 > pos && bpos + 1 <= tm.len() {
                                match spec_stmts(tm, bpos + 1, env2, ret) {
                                    PR::Bad(l, c) => PR::Bad(l, c),
                                    PR::Good((body, env3), p3) => if p3 < tm.len() && tm[p3].kind
                                        is RBrace {
                                        PR::Good(
                                            (
                                                FunM {
                                                    ident: name,
                                                    params: ps,
                                                    body,
                                                    docs,
                                                    return_type: ret,
                                                },
                                                env3.drop_last(),
                                            ),
                                            p3 + 1,
                                        )
                                    } else {
                                        let (l, c) = pos_of(tm, p3);
                                        PR::Bad(l, c)
                                    },
                                }
                            } else {
                                let (l, c) = pos_of(tm, pos);
                                PR::Bad(l, c)
                            }
                        }
                    },
                }
            },
        }
    }
}

/// A whole program: zero or more function declarations, each optionally
/// preceded by one `---` documentation comment, consuming the entire token
/// stream.
pub open spec fn spec_program(tm: Seq<TokM>, pos: int, env: EnvM) -> PR<(Seq<FunM>, EnvM)>
    decreases tm.len() - pos, 15int, 0int,
{
    if !(0 <= pos <= tm.len()) {
        let (l, c) = pos_of(tm, pos);
        PR::Bad(l, c)
    } else if pos >= tm.len() {
        PR::Good((Seq::empty(), env), pos)
    } else {
        let (docs, p) = match tm[pos].kind {
            TokKindM::Doc(d) => (Some(d), pos + 1),
            _ => (None::<Seq<char>>, pos),
        };
        if p < tm.len() && tm[p].kind is Fun {
            match spec_function(tm, p, env, docs) {
                PR::Bad(l, c) => PR::Bad(l, c),
                PR::Good((f, env2), p2) => if pos < p2 <= tm.len() {
                    match spec_program(tm, p2, env2) {
                        PR::Bad(l, c) => PR::Bad(l, c),
                        PR::Good((rest, env3), p3) => PR::Good((seq![f] + rest, env3), p3),
                    }
                } else {
                    let (l, c) = pos_of(tm, pos);
                    PR::Bad(l, c)
                },
            }
        } else {
            let (l, c) = pos_of(tm, p);
            PR::Bad(l, c)
        }
    }
}

/// The result of the whole pipeline on a character sequence: the models of
/// the function declarations, or the position of the first error.
pub enum ParseOut {
    Prog(Seq<FunM>),
    Fail(int, int),
}

/// The mathematical pipeline: lexing, then parsing with embedded scope
/// resolution and type checking, starting from a single empty global frame.
pub open spec fn spec_parse(s: Seq<char>) -> ParseOut {
    match spec_lex(s, 0, 1, 1) {
        LexOut::Fail(l, c) => ParseOut::Fail(l, c),
        LexOut::Toks(tm) => match spec_program(tm, 0, seq![Map::empty()]) {
            PR::Good((funs, _), _) => ParseOut::Prog(funs),
            PR::Bad(l, c) => ParseOut::Fail(l, c),
        },
    }
}

// ---------------------------------------------------------------------------
// Frame discipline of the mathematical parser.
// ---------------------------------------------------------------------------

/// Declaring parameters touches only the innermost frame.
pub proof fn lemma_declare_params_frames(env: EnvM, ps: Seq<ParamM>)
    requires
        env.len() > 0,
    ensures
        declare_params(env, ps).len() == env.len(),
        forall|i: int| 0 <= i < env.len() - 1 ==> declare_params(env, ps)[i] == env[i],
    decreases ps.len(),
{
    if ps.len() > 0 {
        lemma_declare_params_frames(env, ps.drop_last());
    }
}

/// One statement leaves the number of open frames unchanged and touches no
/// frame but the innermost.
pub proof fn lemma_stmt_frames(tm: Seq<TokM>, pos: int, env: EnvM, rt: VarType)
    requires
        env.len() > 0,
    ensures
        match spec_stmt(tm, pos, env, rt) {
            PR::Good((s, e2), p) => e2.len() == env.len() && (forall|i: int|
                0 <= i < env.len() - 1 ==> e2[i] == env[i]),
            PR::Bad(_, _) => true,
        },
{
}

/// A statement sequence leaves the number of open frames unchanged and
/// touches no frame but the innermost.
pub proof fn lemma_stmts_frames(tm: Seq<TokM>, pos: int, env: EnvM, rt: VarType)
    requires
        env.len() > 0,
    ensures
        match spec_stmts(tm, pos, env, rt) {
            PR::Good((s, e3), p) => e3.len() == env.len() && (forall|i: int|
                0 <= i < env.len() - 1 ==> e3[i] == env[i]),
            PR::Bad(_, _) => true,
        },
    decreases tm.len() - pos,
{
    if 0 <= pos <= tm.len() && !(pos < tm.len() && tm[pos].kind is RBrace) && pos < tm.len() {
        match spec_stmt(tm, pos, env, rt) {
            PR::Bad(_, _) => {},
            PR::Good((sm, env2), p2) => {
                lemma_stmt_frames(tm, pos, env, rt);
                if pos < p2 <= tm.len() {
                    lemma_stmts_frames(tm, p2, env2, rt);
                }
            },
        }
    }
}

/// One function declaration adds exactly its own binding to the innermost
/// frame and leaves the frame count unchanged.
pub proof fn lemma_function_frames(tm: Seq<TokM>, pos: int, env: EnvM, docs: Option<Seq<char>>)
    requires
        env.len() > 0,
    ensures
        match spec_function(tm, pos, env, docs) {
            PR::Good((f, e2), p) => e2.len() == env.len(),
            PR::Bad(_, _) => true,
        },
{
    if 0 <= pos < tm.len() && tm[pos].kind is Fun {
        match spec_ident_at(tm, pos + 1) {
            None => {},
            Some(name) => {
                if pos + 2 < tm.len() && tm[pos + 2].kind is LParen {
                    match spec_params(tm, pos + 3, Seq::empty()) {
                        PR::Bad(_, _) => {},
                        PR::Good(ps, p2) => {
                            if pos < p2 < tm.len() && tm[p2].kind is RParen {
                                let (ret, bpos) = if p2 + 1 < tm.len() && tm[p2 + 1].kind
                                    is Arrow {
                                    match spec_type_at(tm, p2 + 2) {
                                        Some(t) => (t, p2 + 3),
                                        None => (VarType::Void, -1),
                                    }
                                } else {
                                    (VarType::Void, p2 + 1)
                                };
                                if bpos >= 0 && bpos < tm.len() && tm[bpos].kind is LBrace && !(
                                env.len() > 0 && env.last().dom().contains(name)) {
                                    let env1 = env_declare(
                                        env,
                                        name,
                                        BindM::Func(param_types(ps), ret),
                                    );
                                    let env2 = declare_params(env1.push(Map::empty()), ps);
                                    lemma_declare_params_frames(env1.push(Map::empty()), ps);
                                    if bpos + 1 > pos && bpos + 1 <= tm.len() {
                                        lemma_stmts_frames(tm, bpos + 1, env2, ret);
                                    }
                                }
                            }
                        },
                    }
                }
            },
        }
    }
}

// ---------------------------------------------------------------------------
// Laws of the pipeline.
// ---------------------------------------------------------------------------

/// The type that the typing rules assign to an expression under a frame
/// stack: every identifier must resolve to a variable, every call must hit
/// a function of matching arity and argument types, and every operator must
/// get compatible operands; otherwise there is no type.
pub open spec fn expr_type(e: ExprM, env: EnvM) -> Option<VarType>
    decreases e,
{
    match e {
        ExprM::Constant(c) => Some(crate::parser::ast::const_ty(c)),
        ExprM::VariablePoint(n) => match env_resolve(env, n) {
            Some(BindM::Var(t)) => Some(t),
            _ => None,
        },
        ExprM::BinOp(l, op, r) => match (expr_type(*l, env), expr_type(*r, env)) {
            (Some(a), Some(b)) => binop_result(op, a, b),
            _ => None,
        },
        ExprM::FunctionCall(n, es) => match env_resolve(env, n) {
            Some(BindM::Func(ps, rt)) => match exprs_check(es, env) {
                Some(ts) => if ps == ts {
                    Some(rt)
                } else {
                    None
                },
                None => None,
            },
            _ => None,
        },
    }
}

/// The types of an argument list, when every argument has one.
pub open spec fn exprs_check(es: Seq<ExprM>, env: EnvM) -> Option<Seq<VarType>>
    decreases es,
{
    if es.len() == 0 {
        Some(Seq::empty())
    } else {
        match (expr_type(es[0], env), exprs_check(es.drop_first(), env)) {
            (Some(t), Some(ts)) => Some(seq![t] + ts),
            _ => None,
        }
    }
}

/// Every identifier reference and callee in the expression resolves in the
/// frame stack: the expression names no undeclared identifier.
pub open spec fn expr_idents_resolve(e: ExprM, env: EnvM) -> bool
    decreases e,
{
    match e {
        ExprM::Constant(_) => true,
        ExprM::VariablePoint(n) => env_resolve(env, n) is Some,
        ExprM::BinOp(l, _, r) => expr_idents_resolve(*l, env) && expr_idents_resolve(*r, env),
        ExprM::FunctionCall(n, es) => env_resolve(env, n) is Some && exprs_idents_resolve(
            es,
            env,
        ),
    }
}

/// [`expr_idents_resolve`] over every expression of a sequence.
pub open spec fn exprs_idents_resolve(es: Seq<ExprM>, env: EnvM) -> bool
    decreases es,
{
    es.len() == 0 || (expr_idents_resolve(es[0], env) && exprs_idents_resolve(
        es.drop_first(),
        env,
    ))
}

/// Every operator application in the expression combines operand types
/// that the operator's rule accepts.
pub open spec fn expr_ops_compatible(e: ExprM, env: EnvM) -> bool
    decreases e,
{
    match e {
        ExprM::Constant(_) => true,
        ExprM::VariablePoint(_) => true,
        ExprM::BinOp(l, op, r) => expr_ops_compatible(*l, env) && expr_ops_compatible(*r, env)
            && (match (expr_type(*l, env), expr_type(*r, env)) {
            (Some(a), Some(b)) => binop_result(op, a, b) is Some,
            _ => false,
        }),
        ExprM::FunctionCall(_, es) => exprs_ops_compatible(es, env),
    }
}

/// [`expr_ops_compatible`] over every expression of a sequence.
pub open spec fn exprs_ops_compatible(es: Seq<ExprM>, env: EnvM) -> bool
    decreases es,
{
    es.len() == 0 || (expr_ops_compatible(es[0], env) && exprs_ops_compatible(
        es.drop_first(),
        env,
    ))
}

/// A typed expression references no undeclared identifier and applies no
/// operator to incompatible operands: having a type under [`expr_type`]
/// carries exactly the guarantees the scoping and typing rules promise.
pub proof fn lemma_typed_expr_sound(e: ExprM, env: EnvM)
    requires
        expr_type(e, env) is Some,
    ensures
        expr_idents_resolve(e, env),
        expr_ops_compatible(e, env),
    decreases e,
{
    match e {
        ExprM::Constant(_) => {},
        ExprM::VariablePoint(_) => {},
        ExprM::BinOp(l, op, r) => {
            lemma_typed_expr_sound(*l, env);
            lemma_typed_expr_sound(*r, env);
        },
        ExprM::FunctionCall(n, es) => {
            lemma_typed_exprs_sound(es, env);
        },
    }
}

/// [`lemma_typed_expr_sound`] over every expression of a checked argument
/// list.
proof fn lemma_typed_exprs_sound(es: Seq<ExprM>, env: EnvM)
    requires
        exprs_check(es, env) is Some,
    ensures
        exprs_idents_resolve(es, env),
        exprs_ops_compatible(es, env),
    decreases es,
{
    if es.len() > 0 {
        lemma_typed_expr_sound(es[0], env);
        lemma_typed_exprs_sound(es.drop_first(), env);
    }
}

/// Soundness of primary-expression parsing: every expression the grammar
/// accepts type-checks, with the type the grammar assigned.  In particular
/// an undeclared identifier or an ill-typed call is never accepted.
pub proof fn lemma_primary_sound(tm: Seq<TokM>, pos: int, env: EnvM)
    ensures
        match spec_primary(tm, pos, env) {
            PR::Good((e, t), p) => expr_type(e, env) == Some(t),
            PR::Bad(_, _) => true,
        },
    decreases tm.len() - pos, 3int, 0int,
{
    if 0 <= pos < tm.len() {
        match tm[pos].kind {
            TokKindM::LParen => {
                lemma_binop_sound(tm, pos + 1, env, 0);
            },
            TokKindM::Ident(name) => {
                if pos + 1 < tm.len() && tm[pos + 1].kind is LParen {
                    lemma_call_args_sound(tm, pos + 2, env);
                }
            },
            _ => {},
        }
    }
}

/// Soundness of argument-list parsing: every accepted argument list
/// type-checks to exactly the types the grammar recorded for it.
pub proof fn lemma_call_args_sound(tm: Seq<TokM>, pos: int, env: EnvM)
    ensures
        match spec_call_args(tm, pos, env) {
            PR::Good((es, ts), p) => exprs_check(es, env) == Some(ts),
            PR::Bad(_, _) => true,
        },
    decreases tm.len() - pos, 11int, 0int,
{
    if 0 <= pos <= tm.len() {
        if pos < tm.len() && tm[pos].kind is RParen {
        } else {
            lemma_binop_sound(tm, pos, env, 0);
            match spec_binop(tm, pos, env, 0) {
                PR::Bad(_, _) => {},
                PR::Good((e, t), p2) => {
                    if pos < p2 < tm.len() {
                        if tm[p2].kind is Comma {
                            lemma_call_args_sound(tm, p2 + 1, env);
                            match spec_call_args(tm, p2 + 1, env) {
                                PR::Bad(_, _) => {},
                                PR::Good((es, ts), p3) => {
                                    assert((seq![e] + es).drop_first() =~= es);
                                    assert((seq![e] + es)[0] == e);
                                },
                            }
                        } else if tm[p2].kind is RParen {
                            assert(seq![e].drop_first() =~= Seq::<ExprM>::empty());
                            assert(exprs_check(Seq::<ExprM>::empty(), env) == Some(
                                Seq::<VarType>::empty(),
                            ));
                            assert(seq![t] + Seq::<VarType>::empty() =~= seq![t]);
                            assert(seq![e][0] == e);
                        }
                    }
                },
            }
        }
    }
}

/// Soundness of operator-expression parsing at one precedence level.
pub proof fn lemma_binop_sound(tm: Seq<TokM>, pos: int, env: EnvM, lvl: int)
    ensures
        match spec_binop(tm, pos, env, lvl) {
            PR::Good((e, t), p) => expr_type(e, env) == Some(t),
            PR::Bad(_, _) => true,
        },
    decreases tm.len() - pos, 10 - lvl, 1int,
{
    if 0 <= pos <= tm.len() && 0 <= lvl <= 6 {
        let sub = if lvl == 6 {
            lemma_primary_sound(tm, pos, env);
            spec_primary(tm, pos, env)
        } else {
            lemma_binop_sound(tm, pos, env, lvl + 1);
            spec_binop(tm, pos, env, lvl + 1)
        };
        match sub {
            PR::Bad(_, _) => {},
            PR::Good((e, t), p2) => {
                if pos < p2 <= tm.len() {
                    if lvl == 6 {
                        if p2 < tm.len() && op_of_level(tm[p2].kind, 6) is Some {
                            lemma_binop_sound(tm, p2 + 1, env, 6);
                        }
                    } else {
                        lemma_bin_rest_sound(tm, p2, env, lvl, e, t);
                    }
                }
            },
        }
    }
}

/// Soundness of the left-associative continuation: folding a well-typed
/// operand onto a well-typed accumulator keeps the expression well typed.
pub proof fn lemma_bin_rest_sound(
    tm: Seq<TokM>,
    pos: int,
    env: EnvM,
    lvl: int,
    acc: ExprM,
    acct: VarType,
)
    requires
        expr_type(acc, env) == Some(acct),
    ensures
        match spec_bin_rest(tm, pos, env, lvl, acc, acct) {
            PR::Good((e, t), p) => expr_type(e, env) == Some(t),
            PR::Bad(_, _) => true,
        },
    decreases tm.len() - pos, 10 - lvl, 0int,
{
    if 0 <= pos <= tm.len() && 0 <= lvl < 6 && pos < tm.len() {
        match op_of_level(tm[pos].kind, lvl) {
            Some(op) => {
                lemma_binop_sound(tm, pos + 1, env, lvl + 1);
                match spec_binop(tm, pos + 1, env, lvl + 1) {
                    PR::Bad(_, _) => {},
                    PR::Good((rhs, rt), p3) => {
                        match binop_result(op, acct, rt) {
                            Some(ty2) => {
                                if pos < p3 <= tm.len() {
                                    lemma_bin_rest_sound(
                                        tm,
                                        p3,
                                        env,
                                        lvl,
                                        ExprM::BinOp(Box::new(acc), op, Box::new(rhs)),
                                        ty2,
                                    );
                                }
                            },
                            None => {},
                        }
                    },
                }
            },
            None => {},
        }
    }
}

/// The frame stack after checking one statement, when it is well typed
/// under the given stack and return type: variable declarations must match
/// their initializer and not redeclare a name of their frame, conditions
/// must be boolean, returned expressions must match the return type, and
/// every expression must type-check.
pub open spec fn stmt_check(s: StmtM, env: EnvM, rt: VarType) -> Option<EnvM>
    decreases s,
{
    match s {
        StmtM::Function(_) => None,
        StmtM::WhileLoop(c, body) => if expr_type(c, env) == Some(VarType::Bool) && stmts_check(
            body,
            env.push(Map::empty()),
            rt,
        ) is Some {
            Some(env)
        } else {
            None
        },
        StmtM::If(c, body) => if expr_type(c, env) == Some(VarType::Bool) && stmts_check(
            body,
            env.push(Map::empty()),
            rt,
        ) is Some {
            Some(env)
        } else {
            None
        },
        StmtM::Variable(n, ty, e) => if expr_type(e, env) == Some(ty) && !(env.len() > 0
            && env.last().dom().contains(n)) {
            Some(env_declare(env, n, BindM::Var(ty)))
        } else {
            None
        },
        StmtM::Expression(e) => if expr_type(e, env) is Some {
            Some(env)
        } else {
            None
        },
        StmtM::Return(e) => match e {
            Some(e) => if expr_type(e, env) == Some(rt) {
                Some(env)
            } else {
                None
            },
            None => if rt == VarType::Void {
                Some(env)
            } else {
                None
            },
        },
    }
}

/// The frame stack after checking a statement sequence in order.
pub open spec fn stmts_check(ss: Seq<StmtM>, env: EnvM, rt: VarType) -> Option<EnvM>
    decreases ss,
{
    if ss.len() == 0 {
        Some(env)
    } else {
        match stmt_check(ss[0], env, rt) {
            Some(env2) => stmts_check(ss.drop_first(), env2, rt),
            None => None,
        }
    }
}

/// A function declaration is well typed under a frame stack when its body
/// checks under its own binding (so it may call itself) and a fresh frame
/// holding its parameters.
pub open spec fn fun_check(f: FunM, env: EnvM) -> bool {
    stmts_check(
        f.body,
        declare_params(
            env_declare(
                env,
                f.ident,
                BindM::Func(param_types(f.params), f.return_type),
            ).push(Map::empty()),
            f.params,
        ),
        f.return_type,
    ) is Some
}

/// A program is well typed when each function checks under the bindings of
/// the functions declared before it.
pub open spec fn prog_check(fs: Seq<FunM>, env: EnvM) -> bool
    decreases fs,
{
    if fs.len() == 0 {
        true
    } else {
        fun_check(fs[0], env) && prog_check(
            fs.drop_first(),
            env_declare(
                env,
                fs[0].ident,
                BindM::Func(param_types(fs[0].params), fs[0].return_type),
            ),
        )
    }
}

/// Soundness of statement parsing: every accepted statement is well typed,
/// and its effect on the frame stack is exactly what the typing rules say.
pub proof fn lemma_stmt_well_typed(tm: Seq<TokM>, pos: int, env: EnvM, rt: VarType)
    ensures
        match spec_stmt(tm, pos, env, rt) {
            PR::Good((sm, env2), p) => stmt_check(sm, env, rt) == Some(env2),
            PR::Bad(_, _) => true,
        },
    decreases tm.len() - pos, 12int, 0int,
{
    if 0 <= pos < tm.len() {
        match tm[pos].kind {
            TokKindM::Var => {
                lemma_binop_sound(tm, pos + 5, env, 0);
            },
            TokKindM::While => {
                lemma_block_well_typed(tm, pos, env, rt);
            },
            TokKindM::If => {
                lemma_block_well_typed(tm, pos, env, rt);
            },
            TokKindM::Return => {
                lemma_binop_sound(tm, pos + 1, env, 0);
            },
            _ => {
                lemma_binop_sound(tm, pos, env, 0);
            },
        }
    }
}

/// Soundness of the shared `(cond) { body }` shape: the condition is
/// boolean and the body checks in a fresh frame.
proof fn lemma_block_well_typed(tm: Seq<TokM>, pos: int, env: EnvM, rt: VarType)
    ensures
        match spec_block_stmt(tm, pos, env, rt) {
            PR::Good((c, body), p) => expr_type(c, env) == Some(VarType::Bool) && stmts_check(
                body,
                env.push(Map::empty()),
                rt,
            ) is Some,
            PR::Bad(_, _) => true,
        },
    decreases tm.len() - pos, 11int, 0int,
{
    if 0 <= pos < tm.len() && pos + 1 < tm.len() && tm[pos + 1].kind is LParen {
        lemma_binop_sound(tm, pos + 2, env, 0);
        match spec_binop(tm, pos + 2, env, 0) {
            PR::Bad(_, _) => {},
            PR::Good((c, ct), p2) => {
                if ct == VarType::Bool && pos < p2 < tm.len() && tm[p2].kind is RParen && p2 + 1
                    < tm.len() && tm[p2 + 1].kind is LBrace {
                    lemma_stmts_well_typed(tm, p2 + 2, env.push(Map::empty()), rt);
                }
            },
        }
    }
}

/// Soundness of statement-sequence parsing.
pub proof fn lemma_stmts_well_typed(tm: Seq<TokM>, pos: int, env: EnvM, rt: VarType)
    ensures
        match spec_stmts(tm, pos, env, rt) {
            PR::Good((ss, env3), p) => stmts_check(ss, env, rt) == Some(env3),
            PR::Bad(_, _) => true,
        },
    decreases tm.len() - pos, 13int, 0int,
{
    if 0 <= pos <= tm.len() && !(pos < tm.len() && tm[pos].kind is RBrace) && pos < tm.len() {
        lemma_stmt_well_typed(tm, pos, env, rt);
        match spec_stmt(tm, pos, env, rt) {
            PR::Bad(_, _) => {},
            PR::Good((sm, env2), p2) => {
                if pos < p2 <= tm.len() {
                    lemma_stmts_well_typed(tm, p2, env2, rt);
                    match spec_stmts(tm, p2, env2, rt) {
                        PR::Bad(_, _) => {},
                        PR::Good((rest, env3), p3) => {
                            assert((seq![sm] + rest)[0] == sm);
                            assert((seq![sm] + rest).drop_first() =~= rest);
                        },
                    }
                }
            },
        }
    }
}

/// The effect of one function declaration on the frame stack: exactly its
/// own binding, added to the innermost frame.
pub proof fn lemma_function_effect(tm: Seq<TokM>, pos: int, env: EnvM, docs: Option<Seq<char>>)
    requires
        env.len() > 0,
    ensures
        match spec_function(tm, pos, env, docs) {
            PR::Good((f, env2), p) => env2 == env_declare(
                env,
                f.ident,
                BindM::Func(param_types(f.params), f.return_type),
            ) && fun_check(f, env),
            PR::Bad(_, _) => true,
        },
{
    if 0 <= pos < tm.len() && tm[pos].kind is Fun {
        match spec_ident_at(tm, pos + 1) {
            None => {},
            Some(name) => {
                if pos + 2 < tm.len() && tm[pos + 2].kind is LParen {
                    match spec_params(tm, pos + 3, Seq::empty()) {
                        PR::Bad(_, _) => {},
                        PR::Good(ps, p2) => {
                            if pos < p2 < tm.len() && tm[p2].kind is RParen {
                                let (ret, bpos) = if p2 + 1 < tm.len() && tm[p2 + 1].kind
                                    is Arrow {
                                    match spec_type_at(tm, p2 + 2) {
                                        Some(t) => (t, p2 + 3),
                                        None => (VarType::Void, -1),
                                    }
                                } else {
                                    (VarType::Void, p2 + 1)
                                };
                                if bpos >= 0 && bpos < tm.len() && tm[bpos].kind is LBrace && !(
                                env.len() > 0 && env.last().dom().contains(name)) {
                                    let env1 = env_declare(
                                        env,
                                        name,
                                        BindM::Func(param_types(ps), ret),
                                    );
                                    let env2 = declare_params(env1.push(Map::empty()), ps);
                                    lemma_declare_params_frames(env1.push(Map::empty()), ps);
                                    if bpos + 1 > pos && bpos + 1 <= tm.len() {
                                        lemma_stmts_frames(tm, bpos + 1, env2, ret);
                                        lemma_stmts_well_typed(tm, bpos + 1, env2, ret);
                                        match spec_stmts(tm, bpos + 1, env2, ret) {
                                            PR::Bad(_, _) => {},
                                            PR::Good((body, env3), p3) => {
                                                assert(env3.len() == env1.len() + 1);
                                                assert forall|k: int|
                                                    0 <= k < env1.len() implies env3[k]
                                                    == env1[k] by {
                                                    assert(env3[k] == env2[k]);
                                                    assert(env2[k] == env1.push(
                                                        Map::empty(),
                                                    )[k]);
                                                }
                                                assert(env3.drop_last() =~= env1);
                                            },
                                        }
                                    }
                                }
                            }
                        },
                    }
                }
            },
        }
    }
}

/// Soundness of program parsing: every accepted program is well typed
/// under the rules of [`prog_check`].  In particular no accepted program
/// references an undeclared identifier, and none combines incompatible
/// operand types under any operator.
pub proof fn lemma_program_well_typed(tm: Seq<TokM>, pos: int, env: EnvM)
    requires
        env.len() > 0,
    ensures
        match spec_program(tm, pos, env) {
            PR::Good((fs, e2), p) => prog_check(fs, env),
            PR::Bad(_, _) => true,
        },
    decreases tm.len() - pos,
{
    if 0 <= pos <= tm.len() && pos < tm.len() {
        let (docs, p) = match tm[pos].kind {
            TokKindM::Doc(d) => (Some(d), pos + 1),
            _ => (None::<Seq<char>>, pos),
        };
        if p < tm.len() && tm[p].kind is Fun {
            match spec_function(tm, p, env, docs) {
                PR::Bad(_, _) => {},
                PR::Good((f, env2), p2) => {
                    lemma_function_frames(tm, p, env, docs);
                    lemma_function_effect(tm, p, env, docs);
                    if pos < p2 <= tm.len() {
                        lemma_program_well_typed(tm, p2, env2);
                        match spec_program(tm, p2, env2) {
                            PR::Bad(_, _) => {},
                            PR::Good((rest, env3), p3) => {
                                assert((seq![f] + rest)[0] == f);
                                assert((seq![f] + rest).drop_first() =~= rest);
                            },
                        }
                    }
                },
            }
        }
    }
}

/// The top-level soundness law: every program that the pipeline accepts is
/// well typed from the single global frame.  `prog_check` demands, through
/// [`stmt_check`] and [`expr_type`], that every expression of every
/// function has a type, and by [`lemma_typed_expr_sound`] a typed
/// expression references no undeclared identifier and applies no operator
/// to incompatible operand types.  An input whose program would violate
/// either rule is therefore never accepted: [`spec_parse`] yields `Fail`
/// on it, [`parse`] returns the error by its contract, and such inputs lie
/// outside [`crate::parser::ast_result`]'s precondition, so the shortcut
/// panics on them exactly as documented.
pub proof fn lemma_parse_well_typed(s: Seq<char>)
    ensures
        match spec_parse(s) {
            ParseOut::Prog(fs) => prog_check(fs, seq![Map::empty()]),
            ParseOut::Fail(_, _) => true,
        },
{
    match spec_lex(s, 0, 1, 1) {
        LexOut::Fail(_, _) => {},
        LexOut::Toks(tm) => {
            lemma_program_well_typed(tm, 0, seq![Map::empty()]);
        },
    }
}

/// Frame balance of a whole program: parsing pushes and pops frames in
/// pairs, so a successfully parsed program leaves as many frames open as it
/// found.
pub proof fn lemma_program_frames(tm: Seq<TokM>, pos: int, env: EnvM)
    requires
        env.len() > 0,
    ensures
        match spec_program(tm, pos, env) {
            PR::Good((f, e2), p) => e2.len() == env.len(),
            PR::Bad(_, _) => true,
        },
    decreases tm.len() - pos,
{
    if 0 <= pos <= tm.len() && pos < tm.len() {
        let (docs, p) = match tm[pos].kind {
            TokKindM::Doc(d) => (Some(d), pos + 1),
            _ => (None::<Seq<char>>, pos),
        };
        if p < tm.len() && tm[p].kind is Fun {
            match spec_function(tm, p, env, docs) {
                PR::Bad(_, _) => {},
                PR::Good((f, env2), p2) => {
                    lemma_function_frames(tm, p, env, docs);
                    if pos < p2 <= tm.len() {
                        lemma_program_frames(tm, p2, env2);
                    }
                },
            }
        }
    }
}

/// Frame balance of one parse call: starting from the single global frame,
/// a successful parse ends with exactly that one frame open again — every
/// frame entered was also left.
pub proof fn lemma_parse_frame_balance(tm: Seq<TokM>)
    ensures
        match spec_program(tm, 0, seq![Map::empty()]) {
            PR::Good((f, e), p) => e.len() == 1,
            PR::Bad(_, _) => true,
        },
{
    lemma_program_frames(tm, 0, seq![Map::empty()]);
}

/// Determinism: what a parse returns is a function of the source text
/// alone.  Together with the contract of [`parse`], which pins its result
/// to [`spec_parse`], two calls on equal texts yield structurally equal
/// syntax trees or identical error positions.
pub proof fn lemma_parse_deterministic(s1: Seq<char>, s2: Seq<char>)
    requires
        s1 == s2,
    ensures
        spec_parse(s1) == spec_parse(s2),
{
}

// ---------------------------------------------------------------------------
// The executable parser.
// ---------------------------------------------------------------------------

/// Builds the error value for the diagnostic position of token `pos`.
fn err_at(toks: &Vec<Token>, pos: usize, what: &str) -> (r: ParseError)
    ensures
        (r.line as int, r.col as int) == pos_of(toks_model(toks@), pos as int),
{
    let (l, c) = if pos < toks.len() {
        (toks[pos].line, toks[pos].col)
    } else if toks.len() > 0 {
        (toks[toks.len() - 1].line, toks[toks.len() - 1].col)
    } else {
        (1, 1)
    };
    ParseError { msg: String::from_str(what), line: l, col: c }
}

/// The identifier carried by the token at `pos`, if any.
fn ident_at(toks: &Vec<Token>, pos: usize) -> (r: Option<String>)
    ensures
        match r {
            Some(s) => spec_ident_at(toks_model(toks@), pos as int) == Some(s@),
            None => spec_ident_at(toks_model(toks@), pos as int) is None,
        },
{
    if pos < toks.len() {
        match &toks[pos].kind {
            TokenKind::Ident(n) => Some(n.clone()),
            _ => None,
        }
    } else {
        None
    }
}

/// The type name carried by the token at `pos`, if any.
fn type_at(toks: &Vec<Token>, pos: usize) -> (r: Option<VarType>)
    ensures
        r == spec_type_at(toks_model(toks@), pos as int),
{
    if pos < toks.len() {
        match &toks[pos].kind {
            TokenKind::TypeName(t) => Some(*t),
            _ => None,
        }
    } else {
        None
    }
}

/// Computes [`level_of`].
fn level_of_exec(op: BinOp) -> (r: u8)
    ensures
        r as int == level_of(op),
{
    match op {
        BinOp::Or => 0,
        BinOp::And => 1,
        BinOp::IsEqual | BinOp::NotEqual => 2,
        BinOp::LessThan | BinOp::GreaterThan | BinOp::LessThanOrEqual
        | BinOp::GreaterThanOrEqual => 3,
        BinOp::Add | BinOp::Sub | BinOp::PlusAssign | BinOp::SubtractAssign => 4,
        BinOp::Mul | BinOp::Div | BinOp::Mod => 5,
        BinOp::Power => 6,
    }
}

/// Computes [`op_of_level`].
fn op_of_level_exec(k: &TokenKind, lvl: u8) -> (r: Option<BinOp>)
    ensures
        r == op_of_level(kind_model(*k), lvl as int),
{
    match k {
        TokenKind::Op(op) => {
            let l = level_of_exec(*op);
            if l == lvl {
                Some(*op)
            } else {
                None
            }
        },
        _ => None,
    }
}

/// Decides equality of two type lists.
fn vartypes_eq(a: &Vec<VarType>, b: &Vec<VarType>) -> (r: bool)
    ensures
        r == (a@ == b@),
{
    if a.len() != b.len() {
        return false;
    }
    let mut i: usize = 0;
    while i < a.len()
        invariant
            i <= a@.len(),
            a@.len() == b@.len(),
            forall|k: int| 0 <= k < i ==> a@[k] == b@[k],
        decreases a@.len() - i,
    {
        if a[i] != b[i] {
            return false;
        }
        i = i + 1;
    }
    proof {
        assert(a@ =~= b@);
    }
    true
}

/// Parses a primary expression, exactly as [`spec_primary`] describes it.
fn p_primary(toks: &Vec<Token>, pos: usize, scope: &Scope<Bind>) -> (r: Result<
    (ExpressionNode, VarType, usize),
    ParseError,
>)
    requires
        pos <= toks@.len(),
        toks@.len() < usize::MAX - 8,
    ensures
        match r {
            Ok((e, t, p2)) => spec_primary(toks_model(toks@), pos as int, env_model(scope@))
                == PR::Good((expr_model(e), t), p2 as int) && pos < p2 <= toks@.len(),
            Err(er) => spec_primary(toks_model(toks@), pos as int, env_model(scope@))
                == PR::<(ExprM, VarType)>::Bad(er.line as int, er.col as int),
        },
    decreases toks@.len() - pos, 3int, 0int,
{
    if pos >= toks.len() {
        return Err(err_at(toks, pos, "expected an expression"));
    }
    match &toks[pos].kind {
        TokenKind::IntLit(v) => Ok((
            ExpressionNode::Constant(Constant::Int(*v)),
            VarType::Int,
            pos + 1,
        )),
        TokenKind::StrLit(s) => Ok((
            ExpressionNode::Constant(Constant::Str(s.clone())),
            VarType::Str,
            pos + 1,
        )),
        TokenKind::BoolLit(b) => Ok((
            ExpressionNode::Constant(Constant::Bool(*b)),
            VarType::Bool,
            pos + 1,
        )),
        TokenKind::LParen => {
            let (e, ty, p2) = match p_binop(toks, pos + 1, scope, 0) {
                Ok(x) => x,
                Err(er) => {
                    return Err(er);
                },
            };
            if p2 < toks.len() && matches!(&toks[p2].kind, TokenKind::RParen) {
                Ok((e, ty, p2 + 1))
            } else {
                Err(err_at(toks, p2, "expected a closing parenthesis"))
            }
        },
        TokenKind::Ident(name) => {
            if pos + 1 < toks.len() && matches!(&toks[pos + 1].kind, TokenKind::LParen) {
                let (es, ts, p2) = match p_call_args(toks, pos + 2, scope) {
                    Ok(x) => x,
                    Err(er) => {
                        return Err(er);
                    },
                };
                proof {
                    lemma_env_model_resolve(scope@, name@);
                }
                match scope.get(name) {
                    Some(b) => match b {
                        Bind::Func(ps, rt) => {
                            if vartypes_eq(ps, &ts) {
                                Ok((
                                    ExpressionNode::FunctionCall(
                                        FunctionCall { ident: name.clone(), expr_params: es },
                                    ),
                                    *rt,
                                    p2,
                                ))
                            } else {
                                Err(
                                    err_at(
                                        toks,
                                        pos,
                                        "argument types do not match the function's parameters",
                                    ),
                                )
                            }
                        },
                        Bind::Var(_) => Err(err_at(toks, pos, "called identifier is a variable")),
                    },
                    None => Err(err_at(toks, pos, "call to an undeclared function")),
                }
            } else {
                proof {
                    lemma_env_model_resolve(scope@, name@);
                }
                match scope.get(name) {
                    Some(b) => match b {
                        Bind::Var(ty) => Ok((
                            ExpressionNode::VariablePoint(name.clone()),
                            *ty,
                            pos + 1,
                        )),
                        Bind::Func(_, _) => Err(
                            err_at(toks, pos, "function name used as a value"),
                        ),
                    },
                    None => Err(err_at(toks, pos, "undeclared identifier")),
                }
            }
        },
        _ => Err(err_at(toks, pos, "expected an expression")),
    }
}

/// Parses the argument list of a call, exactly as [`spec_call_args`]
/// describes it.
fn p_call_args(toks: &Vec<Token>, pos: usize, scope: &Scope<Bind>) -> (r: Result<
    (Vec<ExpressionNode>, Vec<VarType>, usize),
    ParseError,
>)
    requires
        pos <= toks@.len(),
        toks@.len() < usize::MAX - 8,
    ensures
        match r {
            Ok((es, ts, p2)) => spec_call_args(toks_model(toks@), pos as int, env_model(scope@))
                == PR::Good((exprs_model(es@), ts@), p2 as int) && pos < p2 <= toks@.len(),
            Err(er) => spec_call_args(toks_model(toks@), pos as int, env_model(scope@))
                == PR::<(Seq<ExprM>, Seq<VarType>)>::Bad(er.line as int, er.col as int),
        },
    decreases toks@.len() - pos, 11int, 0int,
{
    if pos < toks.len() && matches!(&toks[pos].kind, TokenKind::RParen) {
        let es: Vec<ExpressionNode> = Vec::new();
        let ts: Vec<VarType> = Vec::new();
        return Ok((es, ts, pos + 1));
    }
    let (e, t, p2) = match p_binop(toks, pos, scope, 0) {
        Ok(x) => x,
        Err(er) => {
            return Err(er);
        },
    };
    if p2 < toks.len() && matches!(&toks[p2].kind, TokenKind::Comma) {
        let (mut es, mut ts, p3) = match p_call_args(toks, p2 + 1, scope) {
            Ok(x) => x,
            Err(er) => {
                return Err(er);
            },
        };
        let ghost es0 = es@;
        let ghost ts0 = ts@;
        es.insert(0, e);
        ts.insert(0, t);
        proof {
            lemma_exprs_model(es@);
            lemma_exprs_model(es0);
            assert(exprs_model(es@) =~= seq![expr_model(e)] + exprs_model(es0));
            assert(ts@ =~= seq![t] + ts0);
        }
        Ok((es, ts, p3))
    } else if p2 < toks.len() && matches!(&toks[p2].kind, TokenKind::RParen) {
        let mut es: Vec<ExpressionNode> = Vec::new();
        let mut ts: Vec<VarType> = Vec::new();
        es.push(e);
        ts.push(t);
        proof {
            lemma_exprs_model(es@);
            assert(exprs_model(es@) =~= seq![expr_model(e)]);
            assert(ts@ =~= seq![t]);
        }
        Ok((es, ts, p2 + 1))
    } else {
        Err(err_at(toks, p2, "expected a comma or a closing parenthesis"))
    }
}

/// Parses a binary-operator expression of the given level, exactly as
/// [`spec_binop`] describes it.
fn p_binop(toks: &Vec<Token>, pos: usize, scope: &Scope<Bind>, lvl: u8) -> (r: Result<
    (ExpressionNode, VarType, usize),
    ParseError,
>)
    requires
        pos <= toks@.len(),
        toks@.len() < usize::MAX - 8,
        lvl <= 6,
    ensures
        match r {
            Ok((e, t, p2)) => spec_binop(
                toks_model(toks@),
                pos as int,
                env_model(scope@),
                lvl as int,
            ) == PR::Good((expr_model(e), t), p2 as int) && pos < p2 <= toks@.len(),
            Err(er) => spec_binop(toks_model(toks@), pos as int, env_model(scope@), lvl as int)
                == PR::<(ExprM, VarType)>::Bad(er.line as int, er.col as int),
        },
    decreases toks@.len() - pos, 10 - lvl, 1int,
{
    let sub = if lvl == 6 {
        p_primary(toks, pos, scope)
    } else {
        p_binop(toks, pos, scope, lvl + 1)
    };
    let (e, t, p2) = match sub {
        Ok(x) => x,
        Err(er) => {
            return Err(er);
        },
    };
    if lvl == 6 {
        if p2 < toks.len() {
            match op_of_level_exec(&toks[p2].kind, 6) {
                Some(op) => {
                    let (rhs, rt, p3) = match p_binop(toks, p2 + 1, scope, 6) {
                        Ok(x) => x,
                        Err(er) => {
                            return Err(er);
                        },
                    };
                    match binop_result_exec(op, t, rt) {
                        Some(ty2) => Ok((
                            ExpressionNode::BinOp(Box::new(e), op, Box::new(rhs)),
                            ty2,
                            p3,
                        )),
                        None => Err(err_at(toks, p2, "incompatible operand types")),
                    }
                },
                None => Ok((e, t, p2)),
            }
        } else {
            Ok((e, t, p2))
        }
    } else {
        p_bin_rest(toks, p2, scope, lvl, e, t)
    }
}

/// Folds further same-level operator applications onto the accumulated
/// left operand, exactly as [`spec_bin_rest`] describes it.
fn p_bin_rest(
    toks: &Vec<Token>,
    pos: usize,
    scope: &Scope<Bind>,
    lvl: u8,
    acc: ExpressionNode,
    acct: VarType,
) -> (r: Result<(ExpressionNode, VarType, usize), ParseError>)
    requires
        pos <= toks@.len(),
        toks@.len() < usize::MAX - 8,
        lvl < 6,
    ensures
        match r {
            Ok((e, t, p2)) => spec_bin_rest(
                toks_model(toks@),
                pos as int,
                env_model(scope@),
                lvl as int,
                expr_model(acc),
                acct,
            ) == PR::Good((expr_model(e), t), p2 as int) && pos <= p2 <= toks@.len(),
            Err(er) => spec_bin_rest(
                toks_model(toks@),
                pos as int,
                env_model(scope@),
                lvl as int,
                expr_model(acc),
                acct,
            ) == PR::<(ExprM, VarType)>::Bad(er.line as int, er.col as int),
        },
    decreases toks@.len() - pos, 10 - lvl, 0int,
{
    if pos < toks.len() {
        match op_of_level_exec(&toks[pos].kind, lvl) {
            Some(op) => {
                let (rhs, rt, p3) = match p_binop(toks, pos + 1, scope, lvl + 1) {
                    Ok(x) => x,
                    Err(er) => {
                        return Err(er);
                    },
                };
                match binop_result_exec(op, acct, rt) {
                    Some(ty2) => p_bin_rest(
                        toks,
                        p3,
                        scope,
                        lvl,
                        ExpressionNode::BinOp(Box::new(acc), op, Box::new(rhs)),
                        ty2,
                    ),
                    None => Err(err_at(toks, pos, "incompatible operand types")),
                }
            },
            None => Ok((acc, acct, pos)),
        }
    } else {
        Ok((acc, acct, pos))
    }
}

/// Decides [`params_contain`].
fn params_contain_exec(ps: &Vec<Parameter>, name: &String) -> (r: bool)
    ensures
        r == params_contain(params_model(ps@), name@),
{
    let mut i: usize = 0;
    while i < ps.len()
        invariant
            i <= ps@.len(),
            forall|k: int| 0 <= k < i ==> params_model(ps@)[k].ident != name@,
        decreases ps@.len() - i,
    {
        if ps[i].ident == *name {
            proof {
                assert(params_model(ps@)[i as int].ident == name@);
            }
            return true;
        }
        i = i + 1;
    }
    false
}

/// Parses a parameter list, exactly as [`spec_params`] describes it.
fn p_params(toks: &Vec<Token>, pos: usize, acc: Vec<Parameter>) -> (r: Result<
    (Vec<Parameter>, usize),
    ParseError,
>)
    requires
        pos <= toks@.len(),
        toks@.len() < usize::MAX - 8,
    ensures
        match r {
            Ok((ps, p2)) => spec_params(toks_model(toks@), pos as int, params_model(acc@))
                == PR::<Seq<ParamM>>::Good(params_model(ps@), p2 as int) && pos <= p2
                <= toks@.len(),
            Err(er) => spec_params(toks_model(toks@), pos as int, params_model(acc@))
                == PR::<Seq<ParamM>>::Bad(er.line as int, er.col as int),
        },
    decreases toks@.len() - pos, 3int, 0int,
{
    if pos < toks.len() && matches!(&toks[pos].kind, TokenKind::RParen) {
        return Ok((acc, pos));
    }
    let name = match ident_at(toks, pos) {
        Some(n) => n,
        None => {
            return Err(err_at(toks, pos, "expected a parameter name"));
        },
    };
    if !(pos + 1 < toks.len() && matches!(&toks[pos + 1].kind, TokenKind::Colon)) {
        return Err(err_at(toks, pos + 1, "expected : after the parameter name"));
    }
    let ty = match type_at(toks, pos + 2) {
        Some(t) => t,
        None => {
            return Err(err_at(toks, pos + 2, "expected a parameter type"));
        },
    };
    if params_contain_exec(&acc, &name) {
        return Err(err_at(toks, pos, "duplicate parameter name"));
    }
    let mut acc2 = acc;
    let ghost acc0 = acc2@;
    let ghost namev = name@;
    acc2.push(Parameter { ident: name, ty });
    proof {
        assert(params_model(acc2@) =~= params_model(acc0).push(ParamM { ident: namev, ty }));
    }
    if pos + 3 < toks.len() && matches!(&toks[pos + 3].kind, TokenKind::Comma) {
        p_params(toks, pos + 4, acc2)
    } else {
        Ok((acc2, pos + 3))
    }
}

/// Parses a variable declaration statement, exactly as [`spec_var_stmt`]
/// describes it.
fn p_var_stmt(toks: &Vec<Token>, pos: usize, scope: &mut Scope<Bind>) -> (r: Result<
    (StatementNode, usize),
    ParseError,
>)
    requires
        pos < toks@.len(),
        toks@.len() < usize::MAX - 8,
        old(scope)@.len() > 0,
    ensures
        match r {
            Ok((s, p2)) => spec_var_stmt(toks_model(toks@), pos as int, env_model(old(scope)@))
                == PR::<(StmtM, EnvM)>::Good(
                (stmt_model(s), env_model(final(scope)@)),
                p2 as int,
            ) && pos < p2 <= toks@.len() && final(scope)@.len() == old(scope)@.len(),
            Err(er) => spec_var_stmt(toks_model(toks@), pos as int, env_model(old(scope)@))
                == PR::<(StmtM, EnvM)>::Bad(er.line as int, er.col as int),
        },
    decreases toks@.len() - pos, 11int, 0int,
{
    let name = match ident_at(toks, pos + 1) {
        Some(n) => n,
        None => {
            return Err(err_at(toks, pos + 1, "expected a variable name"));
        },
    };
    if !(pos + 2 < toks.len() && matches!(&toks[pos + 2].kind, TokenKind::Colon)) {
        return Err(err_at(toks, pos + 2, "expected : after the variable name"));
    }
    let ty = match type_at(toks, pos + 3) {
        Some(t) => t,
        None => {
            return Err(err_at(toks, pos + 3, "expected a type"));
        },
    };
    if !(pos + 4 < toks.len() && matches!(&toks[pos + 4].kind, TokenKind::Assign)) {
        return Err(err_at(toks, pos + 4, "expected = after the type"));
    }
    let (e, t, p2) = match p_binop(toks, pos + 5, scope, 0) {
        Ok(x) => x,
        Err(er) => {
            return Err(er);
        },
    };
    if t != ty {
        return Err(err_at(toks, pos + 1, "initializer type does not match the declared type"));
    }
    let ghost pre = scope@;
    let prev = scope.insert(name.clone(), Bind::Var(ty));
    proof {
        lemma_env_model_declare(pre, name@, Bind::Var(ty));
        assert(env_model(pre).last().dom() =~= pre.last().dom());
    }
    if prev.is_some() {
        return Err(err_at(toks, pos + 1, "duplicate declaration in the same block"));
    }
    if p2 < toks.len() && matches!(&toks[p2].kind, TokenKind::Semi) {
        Ok((
            StatementNode::Variable(Variable { ident: name, ty, body: Box::new(e) }),
            p2 + 1,
        ))
    } else {
        Err(err_at(toks, p2, "expected ; after the initializer"))
    }
}

/// Parses the shared `(cond) { body }` shape of while loops and if
/// statements, exactly as [`spec_block_stmt`] describes it.
fn p_block_stmt(toks: &Vec<Token>, pos: usize, scope: &mut Scope<Bind>, rt: VarType) -> (r:
    Result<(ExpressionNode, Vec<StatementNode>, usize), ParseError>)
    requires
        pos < toks@.len(),
        toks@.len() < usize::MAX - 8,
    ensures
        match r {
            Ok((cond, body, p2)) => spec_block_stmt(
                toks_model(toks@),
                pos as int,
                env_model(old(scope)@),
                rt,
            ) == PR::<(ExprM, Seq<StmtM>)>::Good(
                (expr_model(cond), stmts_model(body@)),
                p2 as int,
            ) && pos < p2 <= toks@.len() && env_model(final(scope)@) == env_model(old(scope)@)
                && final(scope)@.len() == old(scope)@.len(),
            Err(er) => spec_block_stmt(
                toks_model(toks@),
                pos as int,
                env_model(old(scope)@),
                rt,
            ) == PR::<(ExprM, Seq<StmtM>)>::Bad(er.line as int, er.col as int),
        },
    decreases toks@.len() - pos, 11int, 0int,
{
    if !(pos + 1 < toks.len() && matches!(&toks[pos + 1].kind, TokenKind::LParen)) {
        return Err(err_at(toks, pos + 1, "expected ( after the keyword"));
    }
    let (cond, ct, p2) = match p_binop(toks, pos + 2, scope, 0) {
        Ok(x) => x,
        Err(er) => {
            return Err(er);
        },
    };
    if ct != VarType::Bool {
        return Err(err_at(toks, pos, "the condition must be boolean"));
    }
    if !(p2 < toks.len() && matches!(&toks[p2].kind, TokenKind::RParen)) {
        return Err(err_at(toks, p2, "expected ) after the condition"));
    }
    if !(p2 + 1 < toks.len() && matches!(&toks[p2 + 1].kind, TokenKind::LBrace)) {
        return Err(err_at(toks, p2 + 1, "expected { to open the block"));
    }
    let ghost pre = scope@;
    scope.enter_scope();
    proof {
        lemma_env_model_push(pre);
    }
    let (body, p3) = match p_stmts(toks, p2 + 2, scope, rt) {
        Ok(x) => x,
        Err(er) => {
            return Err(er);
        },
    };
    if !(p3 < toks.len() && matches!(&toks[p3].kind, TokenKind::RBrace)) {
        return Err(err_at(toks, p3, "expected } to close the block"));
    }
    let ghost mid = scope@;
    scope.leave_scope();
    proof {
        lemma_stmts_frames(
            toks_model(toks@),
            (p2 + 2) as int,
            env_model(pre).push(Map::empty()),
            rt,
        );
        lemma_env_model_drop(mid);
        assert(env_model(mid).drop_last() =~= env_model(pre));
    }
    Ok((cond, body, p3 + 1))
}

/// Parses one statement, exactly as [`spec_stmt`] describes it.
fn p_stmt(toks: &Vec<Token>, pos: usize, scope: &mut Scope<Bind>, rt: VarType) -> (r: Result<
    (StatementNode, usize),
    ParseError,
>)
    requires
        pos < toks@.len(),
        toks@.len() < usize::MAX - 8,
        old(scope)@.len() > 0,
    ensures
        match r {
            Ok((s, p2)) => spec_stmt(toks_model(toks@), pos as int, env_model(old(scope)@), rt)
                == PR::<(StmtM, EnvM)>::Good(
                (stmt_model(s), env_model(final(scope)@)),
                p2 as int,
            ) && pos < p2 <= toks@.len() && final(scope)@.len() == old(scope)@.len(),
            Err(er) => spec_stmt(toks_model(toks@), pos as int, env_model(old(scope)@), rt)
                == PR::<(StmtM, EnvM)>::Bad(er.line as int, er.col as int),
        },
    decreases toks@.len() - pos, 12int, 0int,
{
    match &toks[pos].kind {
        TokenKind::Var => {
            let (s, p2) = match p_var_stmt(toks, pos, scope) {
                Ok(x) => x,
                Err(er) => {
                    return Err(er);
                },
            };
            Ok((s, p2))
        },
        TokenKind::While => {
            let (cond, body, p2) = match p_block_stmt(toks, pos, scope, rt) {
                Ok(x) => x,
                Err(er) => {
                    return Err(er);
                },
            };
            Ok((StatementNode::WhileLoop(WhileLoop { condition: cond, body }), p2))
        },
        TokenKind::If => {
            let (cond, body, p2) = match p_block_stmt(toks, pos, scope, rt) {
                Ok(x) => x,
                Err(er) => {
                    return Err(er);
                },
            };
            Ok((StatementNode::If(If { condition: cond, body }), p2))
        },
        TokenKind::Return => {
            if pos + 1 < toks.len() && matches!(&toks[pos + 1].kind, TokenKind::Semi) {
                if rt == VarType::Void {
                    return Ok((StatementNode::Return(None), pos + 2));
                }
                return Err(
                    err_at(toks, pos, "a non-void function must return an expression"),
                );
            }
            let (e, t, p2) = match p_binop(toks, pos + 1, scope, 0) {
                Ok(x) => x,
                Err(er) => {
                    return Err(er);
                },
            };
            if t != rt {
                return Err(
                    err_at(toks, pos, "returned type does not match the function's return type"),
                );
            }
            if p2 < toks.len() && matches!(&toks[p2].kind, TokenKind::Semi) {
                Ok((StatementNode::Return(Some(e)), p2 + 1))
            } else {
                Err(err_at(toks, p2, "expected ; after the returned expression"))
            }
        },
        _ => {
            let (e, t, p2) = match p_binop(toks, pos, scope, 0) {
                Ok(x) => x,
                Err(er) => {
                    return Err(er);
                },
            };
            if p2 < toks.len() && matches!(&toks[p2].kind, TokenKind::Semi) {
                Ok((StatementNode::Expression(e), p2 + 1))
            } else {
                Err(err_at(toks, p2, "expected ; after the expression"))
            }
        },
    }
}

/// Parses a statement sequence, exactly as [`spec_stmts`] describes it.
fn p_stmts(toks: &Vec<Token>, pos: usize, scope: &mut Scope<Bind>, rt: VarType) -> (r: Result<
    (Vec<StatementNode>, usize),
    ParseError,
>)
    requires
        pos <= toks@.len(),
        toks@.len() < usize::MAX - 8,
        old(scope)@.len() > 0,
    ensures
        match r {
            Ok((v, p2)) => spec_stmts(toks_model(toks@), pos as int, env_model(old(scope)@), rt)
                == PR::<(Seq<StmtM>, EnvM)>::Good(
                (stmts_model(v@), env_model(final(scope)@)),
                p2 as int,
            ) && pos <= p2 <= toks@.len() && final(scope)@.len() == old(scope)@.len(),
            Err(er) => spec_stmts(toks_model(toks@), pos as int, env_model(old(scope)@), rt)
                == PR::<(Seq<StmtM>, EnvM)>::Bad(er.line as int, er.col as int),
        },
    decreases toks@.len() - pos, 13int, 0int,
{
    if pos < toks.len() && matches!(&toks[pos].kind, TokenKind::RBrace) {
        let v: Vec<StatementNode> = Vec::new();
        return Ok((v, pos));
    }
    if pos >= toks.len() {
        return Err(err_at(toks, pos, "expected a statement or a closing brace"));
    }
    let (s, p2) = match p_stmt(toks, pos, scope, rt) {
        Ok(x) => x,
        Err(er) => {
            return Err(er);
        },
    };
    let (mut rest, p3) = match p_stmts(toks, p2, scope, rt) {
        Ok(x) => x,
        Err(er) => {
            return Err(er);
        },
    };
    let ghost rest0 = rest@;
    let ghost sm = stmt_model(s);
    rest.insert(0, s);
    proof {
        lemma_stmts_model(rest@);
        lemma_stmts_model(rest0);
        assert(stmts_model(rest@) =~= seq![sm] + stmts_model(rest0));
    }
    Ok((rest, p3))
}

/// Parses one function declaration, exactly as [`spec_function`] describes
/// it.
fn p_function(toks: &Vec<Token>, pos: usize, scope: &mut Scope<Bind>, docs: Option<String>)
    -> (r: Result<(Function, usize), ParseError>)
    requires
        pos <= toks@.len(),
        toks@.len() < usize::MAX - 8,
        old(scope)@.len() > 0,
    ensures
        match r {
            Ok((f, p2)) => spec_function(
                toks_model(toks@),
                pos as int,
                env_model(old(scope)@),
                match docs {
                    Some(d) => Some(d@),
                    None => None,
                },
            ) == PR::<(FunM, EnvM)>::Good((fun_model(f), env_model(final(scope)@)), p2 as int)
                && pos < p2 <= toks@.len() && final(scope)@.len() == old(scope)@.len(),
            Err(er) => spec_function(
                toks_model(toks@),
                pos as int,
                env_model(old(scope)@),
                match docs {
                    Some(d) => Some(d@),
                    None => None,
                },
            ) == PR::<(FunM, EnvM)>::Bad(er.line as int, er.col as int),
        },
    decreases toks@.len() - pos, 14int, 0int,
{
    if !(pos < toks.len() && matches!(&toks[pos].kind, TokenKind::Fun)) {
        return Err(err_at(toks, pos, "expected a function declaration"));
    }
    let name = match ident_at(toks, pos + 1) {
        Some(n) => n,
        None => {
            return Err(err_at(toks, pos + 1, "expected a function name"));
        },
    };
    if !(pos + 2 < toks.len() && matches!(&toks[pos + 2].kind, TokenKind::LParen)) {
        return Err(err_at(toks, pos + 2, "expected ( after the function name"));
    }
    let acc: Vec<Parameter> = Vec::new();
    proof {
        assert(params_model(acc@) =~= Seq::<ParamM>::empty());
    }
    let (params, p2) = match p_params(toks, pos + 3, acc) {
        Ok(x) => x,
        Err(er) => {
            return Err(er);
        },
    };
    if !(p2 < toks.len() && matches!(&toks[p2].kind, TokenKind::RParen)) {
        return Err(err_at(toks, p2, "expected ) after the parameter list"));
    }
    let (ret, bpos): (VarType, usize) = if p2 + 1 < toks.len() && matches!(
        &toks[p2 + 1].kind,
        TokenKind::Arrow,
    ) {
        match type_at(toks, p2 + 2) {
            Some(t) => (t, p2 + 3),
            None => {
                return Err(err_at(toks, p2 + 2, "expected a return type after ->"));
            },
        }
    } else {
        (VarType::Void, p2 + 1)
    };
    if !(bpos < toks.len() && matches!(&toks[bpos].kind, TokenKind::LBrace)) {
        return Err(err_at(toks, bpos, "expected { to open the function body"));
    }
    let mut ptypes: Vec<VarType> = Vec::new();
    let mut i: usize = 0;
    while i < params.len()
        invariant
            i <= params@.len(),
            ptypes@.len() == i,
            forall|k: int| 0 <= k < i ==> ptypes@[k] == params@[k].ty,
        decreases params@.len() - i,
    {
        ptypes.push(params[i].ty);
        i = i + 1;
    }
    proof {
        assert(ptypes@ =~= param_types(params_model(params@)));
    }
    let b = Bind::Func(ptypes, ret);
    let ghost bg = b;
    let ghost pre = scope@;
    let prev = scope.insert(name.clone(), b);
    proof {
        lemma_env_model_declare(pre, name@, bg);
        assert(env_model(pre).last().dom() =~= pre.last().dom());
    }
    if prev.is_some() {
        return Err(err_at(toks, pos + 1, "duplicate function name"));
    }
    let ghost envm1 = env_declare(env_model(pre), name@, bind_model(bg));
    let ghost afterdecl = scope@;
    scope.enter_scope();
    proof {
        lemma_env_model_push(afterdecl);
    }
    let ghost base = scope@;
    let mut j: usize = 0;
    while j < params.len()
        invariant
            j <= params@.len(),
            scope@.len() == base.len(),
            base.len() > 0,
            env_model(scope@) == declare_params(
                env_model(base),
                params_model(params@).take(j as int),
            ),
        decreases params@.len() - j,
    {
        let pty = params[j].ty;
        let pname = params[j].ident.clone();
        let ghost prej = scope@;
        let _ = scope.insert(pname, Bind::Var(pty));
        proof {
            lemma_env_model_declare(prej, params@[j as int].ident@, Bind::Var(pty));
            assert(params_model(params@).take(j + 1).drop_last() =~= params_model(
                params@,
            ).take(j as int));
            assert(params_model(params@).take(j + 1).last() == param_model(
                params@[j as int],
            ));
        }
        j = j + 1;
    }
    proof {
        assert(params_model(params@).take(params@.len() as int) =~= params_model(params@));
    }
    let (body, p3) = match p_stmts(toks, bpos + 1, scope, ret) {
        Ok(x) => x,
        Err(er) => {
            return Err(er);
        },
    };
    if !(p3 < toks.len() && matches!(&toks[p3].kind, TokenKind::RBrace)) {
        return Err(err_at(toks, p3, "expected } to close the function body"));
    }
    let ghost mid = scope@;
    scope.leave_scope();
    proof {
        lemma_declare_params_frames(env_model(base), params_model(params@));
        lemma_stmts_frames(
            toks_model(toks@),
            (bpos + 1) as int,
            declare_params(env_model(base), params_model(params@)),
            ret,
        );
        lemma_env_model_drop(mid);
    }
    let f = Function { ident: name, params, body, docs, return_type: ret };
    Ok((f, p3 + 1))
}

/// Parses a whole program, exactly as [`spec_program`] describes it.
fn p_program(toks: &Vec<Token>, pos: usize, scope: &mut Scope<Bind>) -> (r: Result<
    (Vec<Function>, usize),
    ParseError,
>)
    requires
        pos <= toks@.len(),
        toks@.len() < usize::MAX - 8,
        old(scope)@.len() > 0,
    ensures
        match r {
            Ok((v, p2)) => spec_program(toks_model(toks@), pos as int, env_model(old(scope)@))
                == PR::<(Seq<FunM>, EnvM)>::Good(
                (funs_model(v@), env_model(final(scope)@)),
                p2 as int,
            ) && pos <= p2 <= toks@.len(),
            Err(er) => spec_program(toks_model(toks@), pos as int, env_model(old(scope)@))
                == PR::<(Seq<FunM>, EnvM)>::Bad(er.line as int, er.col as int),
        },
    decreases toks@.len() - pos, 15int, 0int,
{
    if pos >= toks.len() {
        let v: Vec<Function> = Vec::new();
        proof {
            assert(funs_model(v@) =~= Seq::<FunM>::empty());
        }
        return Ok((v, pos));
    }
    let (docs, p): (Option<String>, usize) = match &toks[pos].kind {
        TokenKind::Doc(d) => (Some(d.clone()), pos + 1),
        _ => (None, pos),
    };
    if p < toks.len() && matches!(&toks[p].kind, TokenKind::Fun) {
        let ghost pre = scope@;
        let ghost dm: Option<Seq<char>> = match &docs {
            Some(d) => Some(d@),
            None => None,
        };
        let (f, p2) = match p_function(toks, p, scope, docs) {
            Ok(x) => x,
            Err(er) => {
                return Err(er);
            },
        };
        proof {
            lemma_function_frames(toks_model(toks@), p as int, env_model(pre), dm);
        }
        let (mut rest, p3) = match p_program(toks, p2, scope) {
            Ok(x) => x,
            Err(er) => {
                return Err(er);
            },
        };
        let ghost rest0 = rest@;
        let ghost fm = fun_model(f);
        rest.insert(0, f);
        proof {
            assert(funs_model(rest@) =~= seq![fm] + funs_model(rest0));
        }
        Ok((rest, p3))
    } else {
        Err(err_at(toks, p, "expected a function declaration"))
    }
}

/// Builds the character sequence of a source text.
fn chars_of(s: &str) -> (r: Vec<char>)
    ensures
        r@ == s@,
{
    let n = s.unicode_len();
    let mut v: Vec<char> = Vec::new();
    proof {
        assert(v@ =~= s@.subrange(0, 0));
    }
    let mut i: usize = 0;
    while i < n
        invariant
            n == s@.len(),
            i <= n,
            v@ == s@.subrange(0, i as int),
        decreases n - i,
    {
        v.push(s.get_char(i));
        proof {
            assert(s@.subrange(0, i + 1 as int) =~= s@.subrange(0, i as int).push(s@[i as int]));
        }
        i = i + 1;
    }
    proof {
        assert(s@.subrange(0, n as int) =~= s@);
    }
    v
}

/// Parses one compilation unit: lexing, then parsing with embedded scope
/// resolution and type checking.  On success the returned declarations are
/// exactly what [`spec_parse`] denotes for the input text; on failure the
/// error's position is the one [`spec_parse`] denotes.  Texts too large for
/// the machine's address arithmetic are rejected outright.
///
/// Practical recursion-depth limit: the grammar layer descends once per
/// nesting level of expressions, blocks, argument lists and per statement
/// or parameter in a sequence, so the host call stack bounds the nesting
/// and sequence lengths this function can handle; no further limit is
/// enforced.
pub fn parse(input: &str) -> (r: Result<Vec<Function>, ParseError>)
    ensures
        match r {
            Ok(funs) => spec_parse(input@) == ParseOut::Prog(funs_model(funs@)),
            Err(e) => spec_parse(input@) == ParseOut::Fail(e.line as int, e.col as int)
                || input@.len() >= usize::MAX - 8,
        },
{
    let chars = chars_of(input);
    if chars.len() >= usize::MAX - 8 {
        return Err(
            ParseError { msg: String::from_str("source text too large"), line: 1, col: 1 },
        );
    }
    let toks = match lex(&chars) {
        Ok(t) => t,
        Err(e) => {
            return Err(e);
        },
    };
    let mut scope: Scope<Bind> = Scope::new();
    proof {
        assert(env_model(scope@) =~~= seq![Map::<Seq<char>, BindM>::empty()]) by {
            assert(env_model(scope@).len() == 1);
            assert(env_model(scope@)[0].dom() =~= Map::<Seq<char>, Bind>::empty().dom());
        }
    }
    let ghost pre = scope@;
    let (funs, _last) = match p_program(&toks, 0, &mut scope) {
        Ok(x) => x,
        Err(e) => {
            return Err(e);
        },
    };
    proof {
        // every frame the parse entered was left again: only the global
        // frame remains open
        lemma_program_frames(toks_model(toks@), 0, env_model(pre));
        assert(scope@.len() == 1);
    }
    Ok(funs)
}

} // verus!
