//! The parsing-and-scoping pipeline: lexer, grammar, AST data model and the
//! nested-scope structure used to resolve identifiers and check types.

pub mod ast;
pub mod grammar;
pub mod lexer;
pub mod scope;

use vstd::prelude::*;

verus! {

use crate::parser::ast::funs_model;
use crate::parser::ast::Function;
use crate::parser::grammar::spec_parse;
use crate::parser::grammar::ParseOut;

/// Parses one compilation unit and panics on failure; the fallible entry
/// point is [`grammar::parse`].
///
/// The caller must supply a source text that the grammar accepts, both
/// syntactically and semantically; on any other input the underlying parse
/// returns an error and this shortcut must not be used.
pub fn ast_result(input: &str) -> (r: Vec<Function>)
    requires
        input@.len() < usize::MAX - 8,
        spec_parse(input@) matches ParseOut::Prog(_),
    ensures
        spec_parse(input@) == ParseOut::Prog(funs_model(r@)),
{
    match crate::parser::grammar::parse(input) {
        Ok(funs) => funs,
        Err(_) => vstd::pervasive::unreached(),
    }
}

} // verus!
