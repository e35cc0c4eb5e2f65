use vstd::prelude::*;

pub mod builtin;
pub mod env;
pub mod eval;
pub mod laws;
pub mod num;
pub mod printer;
pub mod reader;
pub mod stdlib;
pub mod types;

use crate::env::arena_wf;
use crate::env::Env;
use crate::eval::eval_s;
use crate::printer::print_spec;
use crate::reader::read_str_spec;
use crate::reader::ReadErr;
use crate::stdlib::EvalError;
use crate::stdlib::Interp;
use crate::types::MalType;

verus! {

/// Why one read-evaluate-print pass failed.
#[derive(Debug)]
pub enum MalError {
    Read(ReadErr),
    Eval(EvalError),
}

/// Read one form from `input`.
pub fn read(input: &str) -> (r: Result<MalType, ReadErr>)
    ensures
        match r {
            Ok(v) => read_str_spec(input@) == Ok::<crate::types::SpecVal, ReadErr>(v@),
            Err(e) => read_str_spec(input@) == Err::<crate::types::SpecVal, ReadErr>(e),
        },
{
    crate::reader::read_str(input)
}

/// Render a value readably, as the prompt shows results.
pub fn print(input: MalType) -> (r: String)
    ensures
        r@ == print_spec(input@, true),
{
    input.pr_str::<true>()
}

/// One pass of the prompt: read one form, evaluate it in `env`, and render the
/// result readably. The interpreter's scopes and output log carry across
/// passes.
pub fn rep(input: &str, st: &mut Interp, env: Env, fuel: u64) -> (r: Result<String, MalError>)
    requires
        arena_wf(old(st)@.envs),
        env.id < old(st)@.envs.len(),
    ensures
        arena_wf(final(st)@.envs),
        old(st)@.envs.len() <= final(st)@.envs.len(),
        match read_str_spec(input@) {
            Err(e) => r is Err && r->Err_0 is Read && r->Err_0->Read_0 == e && final(st)@ == old(
                st,
            )@,
            Ok(ast) => match eval_s(old(st)@, ast, env.id as int, fuel as nat) {
                None => r is Err && r->Err_0 is Eval && r->Err_0->Eval_0 is DepthExceeded,
                Some((Err(e), st2)) => r is Err && r->Err_0 is Eval && r->Err_0->Eval_0@ == e
                    && final(st)@ == st2,
                Some((Ok(v), st2)) => r is Ok && r->Ok_0@ == print_spec(v, true) && final(st)@
                    == st2,
            },
        },
{
    let ast = match crate::reader::read_str(input) {
        Ok(a) => a,
        Err(e) => {
            return Err(MalError::Read(e));
        },
    };
    let v = match crate::eval::eval(st, ast, env, fuel) {
        Ok(v) => v,
        Err(e) => {
            return Err(MalError::Eval(e));
        },
    };
    Ok(v.pr_str::<true>())
}

impl MalError {
    /// A line describing the failure, as the prompt reports it.
    pub fn message(&self) -> String {
        match self {
            MalError::Read(e) => e.message(),
            MalError::Eval(e) => e.message(),
        }
    }
}

} // verus!
