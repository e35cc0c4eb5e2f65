use vstd::prelude::*;

use crate::stdlib::arith_s;
use crate::stdlib::EvalError;
use crate::stdlib::SpecEvalError;
use crate::types::MalType;
use crate::types::NativeOp;
use crate::types::SpecVal;

verus! {

fn arith(op: NativeOp, args: &Vec<MalType>) -> (r: Result<MalType, EvalError>)
    requires
        op == NativeOp::Add || op == NativeOp::Sub || op == NativeOp::Mul || op == NativeOp::Div,
    ensures
        match r {
            Ok(v) => arith_s(op, args.deep_view()) == Ok::<SpecVal, SpecEvalError>(v@),
            Err(e) => arith_s(op, args.deep_view()) == Err::<SpecVal, SpecEvalError>(e@),
        },
{
    let ghost argsv = args.deep_view();
    if args.len() != 2 {
        return Err(EvalError::NativeArity(op, args.len()));
    }
    proof {
        assert(argsv.len() == args@.len());
        assert(argsv[0] == args@[0]@);
        assert(argsv[1] == args@[1]@);
    }
    let (a, b) = match (&args[0], &args[1]) {
        (MalType::Number(a), MalType::Number(b)) => (*a, *b),
        _ => {
            return Err(EvalError::NativeArgs(op));
        },
    };
    let res: Option<i64> = match op {
        NativeOp::Add => a.checked_add(b),
        NativeOp::Sub => a.checked_sub(b),
        NativeOp::Mul => a.checked_mul(b),
        _ => {
            if b == 0 {
                return Err(EvalError::DivisionByZero);
            }
            a.checked_div(b)
        },
    };
    match res {
        Some(n) => Ok(MalType::Number(n)),
        None => Err(EvalError::Overflow),
    }
}

/// The `+` native on two numbers.
pub fn add(args: &Vec<MalType>) -> (r: Result<MalType, EvalError>)
    ensures
        match r {
            Ok(v) => arith_s(NativeOp::Add, args.deep_view()) == Ok::<SpecVal, SpecEvalError>(v@),
            Err(e) => arith_s(NativeOp::Add, args.deep_view()) == Err::<SpecVal, SpecEvalError>(
                e@,
            ),
        },
{
    arith(NativeOp::Add, args)
}

/// The `-` native on two numbers.
pub fn sub(args: &Vec<MalType>) -> (r: Result<MalType, EvalError>)
    ensures
        match r {
            Ok(v) => arith_s(NativeOp::Sub, args.deep_view()) == Ok::<SpecVal, SpecEvalError>(v@),
            Err(e) => arith_s(NativeOp::Sub, args.deep_view()) == Err::<SpecVal, SpecEvalError>(
                e@,
            ),
        },
{
    arith(NativeOp::Sub, args)
}

/// The `*` native on two numbers.
pub fn mul(args: &Vec<MalType>) -> (r: Result<MalType, EvalError>)
    ensures
        match r {
            Ok(v) => arith_s(NativeOp::Mul, args.deep_view()) == Ok::<SpecVal, SpecEvalError>(v@),
            Err(e) => arith_s(NativeOp::Mul, args.deep_view()) == Err::<SpecVal, SpecEvalError>(
                e@,
            ),
        },
{
    arith(NativeOp::Mul, args)
}

/// The `/` native on two numbers, truncating toward zero.
pub fn div(args: &Vec<MalType>) -> (r: Result<MalType, EvalError>)
    ensures
        match r {
            Ok(v) => arith_s(NativeOp::Div, args.deep_view()) == Ok::<SpecVal, SpecEvalError>(v@),
            Err(e) => arith_s(NativeOp::Div, args.deep_view()) == Err::<SpecVal, SpecEvalError>(
                e@,
            ),
        },
{
    arith(NativeOp::Div, args)
}

/// An arithmetic native refuses any call that is not two numbers: a wrong
/// argument count or a non-number argument is always an error.
pub proof fn lemma_arith_needs_two_numbers(op: NativeOp, args: Seq<SpecVal>)
    requires
        args.len() != 2 || !(args[0] is Number) || !(args[1] is Number),
    ensures
        arith_s(op, args) is Err,
{
}

/// Division by zero is always an error.
pub proof fn lemma_div_by_zero(args: Seq<SpecVal>)
    requires
        args.len() == 2,
        args[0] is Number,
        args[1] == SpecVal::Number(0),
    ensures
        arith_s(NativeOp::Div, args) == Err::<SpecVal, SpecEvalError>(
            SpecEvalError::DivisionByZero,
        ),
{
}

} // verus!
