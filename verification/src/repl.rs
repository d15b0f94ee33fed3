//! The pipeline's externally consumed contract: one line of source
//! text and a mutable session environment in, a rendered value or a
//! rendered failure message out. The interactive shell around it reads
//! lines, calls `run_line` once per line, prints what comes back, and
//! loops; one bad line never corrupts the session's prior bindings.

use crate::ast::{block_view, Node};
use crate::environment::{env_wf, Environment};
use crate::evaluator::{eval, eval_program_from, EVAL_BUDGET};
use crate::lexer::{tokens_of, Lexer};
use crate::object::{err_message_v, render_obj_v, ObjV};
use crate::parser::{parse_error_message_v, parse_program_v, Parser, PARSE_BUDGET};
use vstd::prelude::*;

verus! {

/// Which stage's output the interactive shell prints: the raw token
/// stream, the raw syntax tree, or the evaluated result.
pub enum ReplMode {
    Lexre,
    Parser,
    Eval,
}

/// What one line of input yields: the rendering of its evaluated
/// value, or the message of the failure that stopped it.
pub open spec fn run_line_spec(input: Seq<char>, env: Seq<crate::environment::ScopeV>) -> (
    Seq<char>,
    Seq<crate::environment::ScopeV>,
) {
    let toks = tokens_of(input);
    match parse_program_v(toks, 0, PARSE_BUDGET as nat) {
        Err(p) => (parse_error_message_v(p), env),
        Ok((prog, end)) => {
            let (r, env2) = eval_program_from(prog, 0, ObjV::Null, env, 0, EVAL_BUDGET as nat);
            match r {
                Ok(v) => (render_obj_v(v), env2),
                Err(e) => (err_message_v(e), env2),
            }
        },
    }
}

/// Scans, parses and evaluates one line in the session's top-level
/// scope, and renders what came of it: the value's rendering on
/// success, the failure's message otherwise. A failed line leaves the
/// session environment as the evaluation left it; a line that fails to
/// parse leaves it untouched.
pub fn run_line(input: &String, env: &mut Environment) -> (out: String)
    requires
        env_wf(old(env)@),
        old(env)@.len() >= 1,
    ensures
        env_wf(final(env)@),
        old(env)@.len() <= final(env)@.len(),
        out@ == run_line_spec(input@, old(env)@).0,
        final(env)@ == run_line_spec(input@, old(env)@).1,
{
    let lexer = Lexer::new(input);
    let mut parser = Parser::new(lexer);
    match parser.program() {
        Err(pe) => pe.message(),
        Ok(program) => {
            match eval(Node::Program(program), env) {
                Ok(obj) => obj.render(),
                Err(e) => e.message(),
            }
        },
    }
}

} // verus!
