use zypo_lib::parser::ast::BinOp;
use zypo_lib::parser::ast::Constant;
use zypo_lib::parser::ast::ExpressionNode;
use zypo_lib::parser::ast::Function;
use zypo_lib::parser::ast::FunctionCall;
use zypo_lib::parser::ast::If;
use zypo_lib::parser::ast::Parameter;
use zypo_lib::parser::ast::StatementNode;
use zypo_lib::parser::ast::VarType;
use zypo_lib::parser::ast::Variable;
use zypo_lib::parser::grammar::parse;

/// Multiplication binds tighter than addition.
#[test]
fn precedence_add_mul() {
    let got = parse("fun f() -> int { return 1 + 2 * 3; }").unwrap();
    let expected = vec![Function {
        ident: "f".to_string(),
        params: vec![],
        body: vec![StatementNode::Return(Some(ExpressionNode::BinOp(
            Box::new(ExpressionNode::Constant(Constant::Int(1))),
            BinOp::Add,
            Box::new(ExpressionNode::BinOp(
                Box::new(ExpressionNode::Constant(Constant::Int(2))),
                BinOp::Mul,
                Box::new(ExpressionNode::Constant(Constant::Int(3))),
            )),
        )))],
        docs: None,
        return_type: VarType::Int,
    }];
    assert_eq!(got, expected);
}

/// The power operator associates to the right, and `**` spells it too.
#[test]
fn power_right_associative() {
    let got = parse("fun f() -> int { return 2 ^ 3 ** 4; }").unwrap();
    let expected = vec![Function {
        ident: "f".to_string(),
        params: vec![],
        body: vec![StatementNode::Return(Some(ExpressionNode::BinOp(
            Box::new(ExpressionNode::Constant(Constant::Int(2))),
            BinOp::Power,
            Box::new(ExpressionNode::BinOp(
                Box::new(ExpressionNode::Constant(Constant::Int(3))),
                BinOp::Power,
                Box::new(ExpressionNode::Constant(Constant::Int(4))),
            )),
        )))],
        docs: None,
        return_type: VarType::Int,
    }];
    assert_eq!(got, expected);
}

/// A call's arguments are checked against the declared parameters, and the
/// call node carries the arguments in order.
#[test]
fn function_call_checked() {
    let src = "fun add(a: int, b: int) -> int { return a + b; }\n\
               fun main() { add(1, 2); }";
    let got = parse(src).unwrap();
    assert_eq!(got.len(), 2);
    assert_eq!(
        got[1].body[0],
        StatementNode::Expression(ExpressionNode::FunctionCall(FunctionCall {
            ident: "add".to_string(),
            expr_params: vec![
                ExpressionNode::Constant(Constant::Int(1)),
                ExpressionNode::Constant(Constant::Int(2)),
            ],
        }))
    );
}

/// Parsing the same text twice yields structurally equal syntax trees.
#[test]
fn parse_is_deterministic() {
    let src = "--- doc\nfun f(a: int) -> bool { if(a > 3) { return true; } return false; }";
    let first = parse(src);
    let second = parse(src);
    assert_eq!(first, second);
    assert!(first.is_ok());
}

/// An identifier with no enclosing declaration is a semantic error, not an
/// implicit declaration.
#[test]
fn undeclared_identifier_fails() {
    let r = parse("fun f() { y + 1; }");
    assert!(r.is_err());
    let e = r.unwrap_err();
    assert_eq!((e.line, e.col), (1, 11));
}

/// Adding a string to a boolean is a semantic error located at the
/// offending operator expression.
#[test]
fn type_mismatch_fails() {
    let r = parse("fun f() { \"a\" + true; }");
    assert!(r.is_err());
}

/// The initializer of a variable must agree with its declared type.
#[test]
fn var_initializer_type_checked() {
    assert!(parse("fun f() { var x: int = true; }").is_err());
    assert!(parse("fun f() { var x: bool = 1 == 1; }").is_ok());
}

/// Redeclaring a name in the same block is an error; shadowing it in a
/// nested block is legal, and the outer binding is visible again after the
/// block.
#[test]
fn shadowing_rules() {
    assert!(parse("fun f() { var x: int = 1; var x: int = 2; }").is_err());
    let src = "fun f() -> int {\n\
               var x: int = 1;\n\
               if(true) { var x: str = \"s\"; x; }\n\
               return x + 1;\n\
               }";
    let got = parse(src).unwrap();
    match &got[0].body[1] {
        StatementNode::If(If { body, .. }) => match &body[0] {
            StatementNode::Variable(Variable { ty, .. }) => assert_eq!(*ty, VarType::Str),
            other => panic!("unexpected inner statement: {:?}", other),
        },
        other => panic!("unexpected statement: {:?}", other),
    }
}

/// A parameter shadows nothing but is visible in the body; duplicate
/// parameters are rejected.
#[test]
fn parameters_bind_and_duplicates_fail() {
    assert!(parse("fun f(a: int, a: int) {}").is_err());
    let got = parse("fun f(a: int) -> int { return a; }").unwrap();
    assert_eq!(
        got[0].params,
        vec![Parameter { ident: "a".to_string(), ty: VarType::Int }]
    );
}

/// The conditions of `while` and `if` must be boolean.
#[test]
fn conditions_must_be_boolean() {
    assert!(parse("fun f() { while(1) {} }").is_err());
    assert!(parse("fun f() { if(1 + 2) {} }").is_err());
    assert!(parse("fun f() { if(1 < 2 and true) {} }").is_ok());
}

/// A bare `return;` is accepted exactly in a void function, and parses to
/// a return node with no expression.
#[test]
fn bare_return_in_void_function() {
    let got = parse("fun f() { return; }").unwrap();
    assert_eq!(got[0].body, vec![StatementNode::Return(None)]);
    assert!(parse("fun f() -> int { return; }").is_err());
    assert!(parse("fun f() { if(true) { return; } }").is_ok());
}

/// A returned expression must match the declared return type; the arity and
/// argument types of a call must match the declaration.
#[test]
fn return_and_call_mismatches_fail() {
    assert!(parse("fun f() -> int { return true; }").is_err());
    assert!(parse("fun g(a: int) {} fun h() { g(); }").is_err());
    assert!(parse("fun g(a: int) {} fun h() { g(true); }").is_err());
    assert!(parse("fun g(a: int) {} fun h() { g(7); }").is_ok());
}

/// A function may call itself: its own name is bound before the body.
#[test]
fn recursion_is_bound() {
    assert!(parse("fun f(n: int) -> int { return f(n - 1); }").is_ok());
    assert!(parse("fun f() { g(); } fun g() {}").is_err());
}

/// Each lexical error is reported with its position: an illegal character,
/// an unterminated string, and an integer literal that overflows.
#[test]
fn lexical_errors() {
    let r = parse("fun f$() {}");
    assert!(r.is_err());
    assert_eq!(r.unwrap_err().col, 6);
    assert!(parse("fun f() { \"unterminated; }").is_err());
    assert!(parse("fun f() { 2147483648; }").is_err());
    assert!(parse("fun f() { 2147483647; }").is_ok());
}

/// Structural errors: an unterminated block, a missing semicolon, a bare
/// `=` where `==` was meant, and trailing garbage after a function.
#[test]
fn structural_errors() {
    assert!(parse("fun f() {").is_err());
    assert!(parse("fun f() { 1 + 1 }").is_err());
    assert!(parse("fun f() { var x: int = 1; x = 2; }").is_err());
    assert!(parse("fun f() {} junk").is_err());
    assert!(parse("").is_ok());
}

/// String and boolean literals parse to their constants, and `or`/`and`
/// work on booleans only.
#[test]
fn literals_and_logic() {
    let got = parse("fun f() -> str { return \"hi\"; }").unwrap();
    assert_eq!(
        got[0].body[0],
        StatementNode::Return(Some(ExpressionNode::Constant(Constant::Str("hi".to_string()))))
    );
    assert!(parse("fun f() -> bool { return true or false; }").is_ok());
    assert!(parse("fun f() -> bool { return 1 or 2; }").is_err());
}
