//! A small interpreter for a pseudocode-like language: variable assignment
//! (`x <- expr`), arithmetic, comparison and boolean operators, block
//! scoping, and a handful of built-in operations (`DISPLAY`, `INPUT`).
//!
//! The pipeline has three stages: a lexer that turns source text into a
//! token stream (`tokenize`), a recursive-descent parser that builds an
//! abstract syntax tree (`parse`), and a tree-walking evaluator that
//! resolves identifiers through a chain of lexically nested scopes
//! (`Evaluator`).  `interpret` runs the whole pipeline on a source string.
//!
//! Numbers are exact rationals (`Num`); every stage is specified by a
//! mathematical model (`spec_tokenize`, `spec_parse`, `spec_eval_node`) and
//! the executable code is proved to follow it.

pub mod ast;
pub mod builtins;
pub mod context;
pub mod eval;
pub mod laws;
pub mod lex;
pub mod param;
pub mod parse;
pub mod rational;
pub mod render;
pub mod token;
pub mod var;

pub use ast::{Node, Raw};
pub use builtins::{EvalError, Host};
pub use context::Context;
pub use eval::Evaluator;
pub use lex::{tokenize, LexError};
pub use param::Parameters;
pub use parse::{parse, parse_tokens, ParseError};
pub use rational::Num;
pub use token::Token;
pub use var::{Builtin, Var};

use vstd::prelude::*;
use crate::builtins::{eval_err_text, HostModel};
use crate::context::CtxModel;
use crate::eval::{spec_eval, EvalState};
use crate::parse::{parse_err_text, spec_parse};
use crate::var::VarModel;

verus! {

/// What running a whole source string against a root scope yields: the final
/// evaluated value or the first hard failure's message, together with
/// everything displayed.  The root scope is seeded as the arena's only
/// context, the output channel starts empty, and the input channel holds the
/// given lines.
pub open spec fn spec_interpret(s: Seq<char>, c: CtxModel, inp: Seq<Seq<char>>) -> (
    Result<VarModel, Seq<char>>,
    Seq<Seq<char>>,
) {
    match spec_parse(s) {
        Ok(n) => {
            let st0 = EvalState { ctxs: seq![c], host: HostModel { out: Seq::empty(), inp } };
            let (st1, r) = spec_eval(seq![n], 0, st0);
            match r {
                Ok(v) => (Ok(v), st1.host.out),
                Err(e) => (Err(eval_err_text(e)), st1.host.out),
            }
        },
        Err(pe) => (Err(parse_err_text(pe)), Seq::empty()),
    }
}

/// Runs the source string: tokenize, parse, then evaluate against the given
/// root scope (most often `Context::standard()`).  Returns the final
/// evaluated value, or the message of the first hard failure.  Anything the
/// program `DISPLAY`s is discarded here; `interpret_with_host` keeps it.
pub fn interpret(src: &str, ctx: Context) -> (r: Result<Var, String>)
    requires
        ctx@.parent is None,
    ensures
        match r {
            Ok(v) => spec_interpret(src@, ctx@, Seq::empty()).0 == Ok::<VarModel, Seq<char>>(v@),
            Err(m) => spec_interpret(src@, ctx@, Seq::empty()).0 == Err::<VarModel, Seq<char>>(m@),
        },
{
    let empty_inputs: Vec<String> = Vec::new();
    proof {
        assert(empty_inputs@.map_values(|s: String| s@) =~= Seq::<Seq<char>>::empty());
    }
    let (r, _out) = interpret_with_host(src, ctx, empty_inputs);
    r
}

/// Runs the source string like `interpret`, with the given lines queued for
/// the `INPUT` builtin, and returns alongside the result everything the
/// program `DISPLAY`ed, in order.
pub fn interpret_with_host(src: &str, ctx: Context, inputs: Vec<String>) -> (r: (
    Result<Var, String>,
    Vec<String>,
))
    requires
        ctx@.parent is None,
    ensures
        match r.0 {
            Ok(v) => spec_interpret(src@, ctx@, inputs@.map_values(|s: String| s@)).0 == Ok::<
                VarModel,
                Seq<char>,
            >(v@),
            Err(m) => spec_interpret(src@, ctx@, inputs@.map_values(|s: String| s@)).0 == Err::<
                VarModel,
                Seq<char>,
            >(m@),
        },
        r.1@.map_values(|s: String| s@) == spec_interpret(
            src@,
            ctx@,
            inputs@.map_values(|s: String| s@),
        ).1,
{
    let node = match parse(src) {
        Ok(n) => n,
        Err(pe) => {
            let outs: Vec<String> = Vec::new();
            proof {
                assert(outs@.map_values(|s: String| s@) =~= Seq::<Seq<char>>::empty());
            }
            return (Err(pe.message()), outs);
        },
    };
    let mut ev = Evaluator::new(ctx);
    let ghost inp_views = inputs@.map_values(|s: String| s@);
    let mut k: usize = 0;
    proof {
        assert(inp_views.subrange(0, 0) =~= Seq::<Seq<char>>::empty());
    }
    while k < inputs.len()
        invariant
            k <= inputs@.len(),
            inp_views == inputs@.map_values(|s: String| s@),
            ev@.ctxs == seq![ctx@],
            ev@.host.out == Seq::<Seq<char>>::empty(),
            ev@.host.inp == inp_views.subrange(0, k as int),
            ev.wf(),
        decreases inputs@.len() - k,
    {
        let line = inputs[k].clone();
        ev.queue_input(line);
        k = k + 1;
        proof {
            assert(inp_views.subrange(0, k as int)
                =~= inp_views.subrange(0, k as int - 1).push(inp_views[k as int - 1]));
        }
    }
    proof {
        assert(inp_views.subrange(0, inp_views.len() as int) =~= inp_views);
    }
    let mut program: Vec<Node> = Vec::new();
    program.push(node);
    proof {
        crate::ast::lemma_nodes_view(program@);
        assert(crate::ast::nodes_view(program@)
            =~= seq![crate::ast::node_view(program@[0])]);
    }
    let outcome = ev.eval(program, 0);
    match outcome {
        Ok(v) => (Ok(v), ev.into_outputs()),
        Err(e) => (Err(e.message()), ev.into_outputs()),
    }
}

} // verus!
