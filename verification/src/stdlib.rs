use vstd::prelude::*;
use vstd::string::StringExecFns;

use crate::env::arena_wf;
use crate::env::bind_list_from;
use crate::env::data_view;
use crate::env::lemma_assoc_set_append;
use crate::env::Env;
use crate::env::EnvArena;
use crate::env::SpecScope;
use crate::printer::join_vals;
use crate::types::val_equiv;
use crate::types::ListKind;
use crate::types::MalType;
use crate::types::NativeOp;
use crate::types::SpecVal;

verus! {

/// Why an evaluation failed.
#[derive(Debug)]
pub enum EvalError {
    DepthExceeded,
    NotFound(String),
    NotAFunction,
    DefNonVariable,
    InvalidForm,
    LetBindings,
    LetBindingSymbol,
    LetNoValue(String),
    FnParamList,
    FnParamName,
    VarargsName,
    LostScope,
    IdsExhausted,
    NativeArity(NativeOp, usize),
    NativeArgs(NativeOp),
    Overflow,
    DivisionByZero,
}

/// Model of an evaluation failure.
#[verifier::ext_equal]
pub enum SpecEvalError {
    DepthExceeded,
    NotFound(Seq<char>),
    NotAFunction,
    DefNonVariable,
    InvalidForm,
    LetBindings,
    LetBindingSymbol,
    LetNoValue(Seq<char>),
    FnParamList,
    FnParamName,
    VarargsName,
    LostScope,
    IdsExhausted,
    NativeArity(NativeOp, int),
    NativeArgs(NativeOp),
    Overflow,
    DivisionByZero,
}

impl View for EvalError {
    type V = SpecEvalError;

    open spec fn view(&self) -> SpecEvalError {
        match self {
            EvalError::DepthExceeded => SpecEvalError::DepthExceeded,
            EvalError::NotFound(s) => SpecEvalError::NotFound(s@),
            EvalError::NotAFunction => SpecEvalError::NotAFunction,
            EvalError::DefNonVariable => SpecEvalError::DefNonVariable,
            EvalError::InvalidForm => SpecEvalError::InvalidForm,
            EvalError::LetBindings => SpecEvalError::LetBindings,
            EvalError::LetBindingSymbol => SpecEvalError::LetBindingSymbol,
            EvalError::LetNoValue(s) => SpecEvalError::LetNoValue(s@),
            EvalError::FnParamList => SpecEvalError::FnParamList,
            EvalError::FnParamName => SpecEvalError::FnParamName,
            EvalError::VarargsName => SpecEvalError::VarargsName,
            EvalError::LostScope => SpecEvalError::LostScope,
            EvalError::IdsExhausted => SpecEvalError::IdsExhausted,
            EvalError::NativeArity(op, n) => SpecEvalError::NativeArity(*op, *n as int),
            EvalError::NativeArgs(op) => SpecEvalError::NativeArgs(*op),
            EvalError::Overflow => SpecEvalError::Overflow,
            EvalError::DivisionByZero => SpecEvalError::DivisionByZero,
        }
    }
}

/// The interpreter: its scopes, a counter naming closures, and the lines the
/// printing natives have produced, which the host flushes.
pub struct Interp {
    pub envs: EnvArena,
    pub next_fn_id: u64,
    pub output: Vec<String>,
}

/// Model of the interpreter.
#[verifier::ext_equal]
pub struct SpecInterp {
    pub envs: Seq<SpecScope>,
    pub next_fn_id: u64,
    pub output: Seq<Seq<char>>,
}

impl View for Interp {
    type V = SpecInterp;

    open spec fn view(&self) -> SpecInterp {
        SpecInterp { envs: self.envs@, next_fn_id: self.next_fn_id, output: self.output.deep_view() }
    }
}

impl Interp {
    /// A fresh interpreter with no scopes and no output.
    pub fn new() -> (r: Interp)
        ensures
            r@.envs =~= Seq::<SpecScope>::empty(),
            r@.next_fn_id == 0,
            r@.output =~= Seq::<Seq<char>>::empty(),
    {
        Interp { envs: EnvArena { scopes: Vec::new() }, next_fn_id: 0, output: Vec::new() }
    }
}

/// Division truncating toward zero, as the machine divides.
pub open spec fn div_trunc(x: int, d: int) -> int {
    if x == 0 {
        0
    } else if x > 0 && d > 0 {
        x / d
    } else if x < 0 && d < 0 {
        (x * -1) / (d * -1)
    } else if x < 0 {
        ((x * -1) / d) * -1
    } else {
        (x / (d * -1)) * -1
    }
}

/// What an arithmetic native returns: both arguments must be numbers and
/// exactly two; the result must fit, and division by zero fails.
pub open spec fn arith_s(op: NativeOp, args: Seq<SpecVal>) -> Result<SpecVal, SpecEvalError> {
    if args.len() == 2 {
        if args[0] is Number && args[1] is Number {
            let a = args[0]->Number_0 as int;
            let b = args[1]->Number_0 as int;
            match op {
                NativeOp::Add => if i64::MIN <= a + b <= i64::MAX {
                    Ok(SpecVal::Number((a + b) as i64))
                } else {
                    Err(SpecEvalError::Overflow)
                },
                NativeOp::Sub => if i64::MIN <= a - b <= i64::MAX {
                    Ok(SpecVal::Number((a - b) as i64))
                } else {
                    Err(SpecEvalError::Overflow)
                },
                NativeOp::Mul => if i64::MIN <= a * b <= i64::MAX {
                    Ok(SpecVal::Number((a * b) as i64))
                } else {
                    Err(SpecEvalError::Overflow)
                },
                _ => if b == 0 {
                    Err(SpecEvalError::DivisionByZero)
                } else if i64::MIN <= div_trunc(a, b) <= i64::MAX {
                    Ok(SpecVal::Number(div_trunc(a, b) as i64))
                } else {
                    Err(SpecEvalError::Overflow)
                },
            }
        } else {
            Err(SpecEvalError::NativeArgs(op))
        }
    } else {
        Err(SpecEvalError::NativeArity(op, args.len() as int))
    }
}

/// What a comparison native returns: exactly two numbers, compared.
pub open spec fn cmp_s(op: NativeOp, args: Seq<SpecVal>) -> Result<SpecVal, SpecEvalError> {
    if args.len() == 2 && args[0] is Number && args[1] is Number {
        let a = args[0]->Number_0;
        let b = args[1]->Number_0;
        Ok(SpecVal::Bool(match op {
            NativeOp::Lt => a < b,
            NativeOp::Le => a <= b,
            NativeOp::Gt => a > b,
            _ => a >= b,
        }))
    } else {
        Err(SpecEvalError::NativeArgs(op))
    }
}

/// What `count` returns: the length of a sequence, half the entry count of a
/// hash-map, and zero for anything else.
pub open spec fn count_s(args: Seq<SpecVal>) -> Result<SpecVal, SpecEvalError> {
    if args.len() > 0 && args[0] is L {
        if args[0]->L_1.len() <= i64::MAX {
            Ok(SpecVal::Number(args[0]->L_1.len() as i64))
        } else {
            Err(SpecEvalError::Overflow)
        }
    } else if args.len() > 0 && args[0] is HashMap {
        if args[0]->HashMap_0.len() / 2 <= i64::MAX {
            Ok(SpecVal::Number((args[0]->HashMap_0.len() / 2) as i64))
        } else {
            Err(SpecEvalError::Overflow)
        }
    } else {
        Ok(SpecVal::Number(0))
    }
}

/// What a native does to the interpreter and returns for given arguments.
pub open spec fn apply_native_s(st: SpecInterp, op: NativeOp, args: Seq<SpecVal>) -> (
    Result<SpecVal, SpecEvalError>,
    SpecInterp,
) {
    match op {
        NativeOp::Add => (arith_s(op, args), st),
        NativeOp::Sub => (arith_s(op, args), st),
        NativeOp::Mul => (arith_s(op, args), st),
        NativeOp::Div => (arith_s(op, args), st),
        NativeOp::MakeList => (Ok(SpecVal::L(ListKind::List, args)), st),
        NativeOp::IsList => (
            Ok(
                SpecVal::Bool(
                    args.len() > 0 && args[0] is L && args[0]->L_0 == ListKind::List,
                ),
            ),
            st,
        ),
        NativeOp::IsEmpty => (
            Ok(
                SpecVal::Bool(
                    if args.len() > 0 && args[0] is L {
                        args[0]->L_1.len() == 0
                    } else if args.len() > 0 && args[0] is HashMap {
                        args[0]->HashMap_0.len() == 0
                    } else {
                        false
                    },
                ),
            ),
            st,
        ),
        NativeOp::Count => (count_s(args), st),
        NativeOp::Equal => (
            if args.len() == 2 {
                Ok(SpecVal::Bool(val_equiv(args[0], args[1])))
            } else {
                Err(SpecEvalError::NativeArity(NativeOp::Equal, args.len() as int))
            },
            st,
        ),
        NativeOp::Lt => (cmp_s(op, args), st),
        NativeOp::Le => (cmp_s(op, args), st),
        NativeOp::Gt => (cmp_s(op, args), st),
        NativeOp::Ge => (cmp_s(op, args), st),
        NativeOp::PrStr => (Ok(SpecVal::String(join_vals(args, 0, true, seq![' ']))), st),
        NativeOp::Str => (Ok(SpecVal::String(join_vals(args, 0, false, Seq::empty()))), st),
        NativeOp::Prn => (
            Ok(SpecVal::Nil),
            SpecInterp { output: st.output.push(join_vals(args, 0, true, seq![' '])), ..st },
        ),
        NativeOp::Println => (
            Ok(SpecVal::Nil),
            SpecInterp { output: st.output.push(join_vals(args, 0, false, seq![' '])), ..st },
        ),
    }
}

/// Run the native `op` on already-evaluated arguments.
pub fn apply_native(st: &mut Interp, op: NativeOp, args: Vec<MalType>) -> (r: Result<
    MalType,
    EvalError,
>)
    ensures
        final(st)@.envs == old(st)@.envs,
        final(st)@.next_fn_id == old(st)@.next_fn_id,
        match r {
            Ok(v) => apply_native_s(old(st)@, op, args.deep_view()) == (
                Ok::<SpecVal, SpecEvalError>(v@),
                final(st)@,
            ),
            Err(e) => apply_native_s(old(st)@, op, args.deep_view()) == (
                Err::<SpecVal, SpecEvalError>(e@),
                final(st)@,
            ),
        },
{
    let ghost argsv = args.deep_view();
    match op {
        NativeOp::Add | NativeOp::Sub | NativeOp::Mul | NativeOp::Div => {
            if args.len() != 2 {
                return Err(EvalError::NativeArity(op, args.len()));
            }
            proof {
                assert(argsv.len() == args@.len());
                assert(argsv[0] == args@[0]@);
                assert(argsv[1] == args@[1]@);
            }
            let (a, b) = match (&args[0], &args[1]) {
                (MalType::Number(a), MalType::Number(b)) => (*a, *b),
                _ => {
                    return Err(EvalError::NativeArgs(op));
                },
            };
            let res: Option<i64> = match op {
                NativeOp::Add => a.checked_add(b),
                NativeOp::Sub => a.checked_sub(b),
                NativeOp::Mul => a.checked_mul(b),
                _ => {
                    if b == 0 {
                        return Err(EvalError::DivisionByZero);
                    }
                    a.checked_div(b)
                },
            };
            match res {
                Some(n) => Ok(MalType::Number(n)),
                None => Err(EvalError::Overflow),
            }
        },
        NativeOp::MakeList => {
            let v = MalType::L(ListKind::List, args);
            proof {
                assert(v@->L_1 =~= argsv);
            }
            Ok(v)
        },
        NativeOp::IsList => {
            proof {
                assert(argsv.len() == args@.len());
                if args@.len() > 0 {
                    assert(argsv[0] == args@[0]@);
                }
            }
            let b = if args.len() > 0 {
                match &args[0] {
                    MalType::L(ListKind::List, _) => true,
                    _ => false,
                }
            } else {
                false
            };
            Ok(MalType::Bool(b))
        },
        NativeOp::IsEmpty => {
            proof {
                assert(argsv.len() == args@.len());
                if args@.len() > 0 {
                    assert(argsv[0] == args@[0]@);
                }
            }
            let b = if args.len() > 0 {
                match &args[0] {
                    MalType::L(_, items) => items.len() == 0,
                    MalType::HashMap(entries) => entries.len() == 0,
                    _ => false,
                }
            } else {
                false
            };
            Ok(MalType::Bool(b))
        },
        NativeOp::Count => {
            proof {
                assert(argsv.len() == args@.len());
                if args@.len() > 0 {
                    assert(argsv[0] == args@[0]@);
                }
            }
            if args.len() > 0 {
                match &args[0] {
                    MalType::L(_, items) => {
                        if (items.len() as u64) <= (i64::MAX as u64) {
                            Ok(MalType::Number(items.len() as i64))
                        } else {
                            Err(EvalError::Overflow)
                        }
                    },
                    MalType::HashMap(entries) => {
                        let h = entries.len() / 2;
                        proof {
                            assert(h <= i64::MAX);
                        }
                        Ok(MalType::Number(h as i64))
                    },
                    _ => Ok(MalType::Number(0)),
                }
            } else {
                Ok(MalType::Number(0))
            }
        },
        NativeOp::Equal => {
            if args.len() != 2 {
                return Err(EvalError::NativeArity(op, args.len()));
            }
            proof {
                assert(argsv[0] == args@[0]@);
                assert(argsv[1] == args@[1]@);
            }
            Ok(MalType::Bool(args[0].mal_equiv(&args[1])))
        },
        NativeOp::Lt | NativeOp::Le | NativeOp::Gt | NativeOp::Ge => {
            if args.len() != 2 {
                return Err(EvalError::NativeArgs(op));
            }
            proof {
                assert(argsv.len() == args@.len());
                assert(argsv[0] == args@[0]@);
                assert(argsv[1] == args@[1]@);
            }
            let (a, b) = match (&args[0], &args[1]) {
                (MalType::Number(a), MalType::Number(b)) => (*a, *b),
                _ => {
                    return Err(EvalError::NativeArgs(op));
                },
            };
            let b = match op {
                NativeOp::Lt => a < b,
                NativeOp::Le => a <= b,
                NativeOp::Gt => a > b,
                _ => a >= b,
            };
            Ok(MalType::Bool(b))
        },
        NativeOp::PrStr => {
            let s = MalType::pr_list::<true>(&args, "", "", " ");
            proof {
                reveal_strlit("");
                reveal_strlit(" ");
                assert(""@ =~= Seq::<char>::empty());
                assert(" "@ =~= seq![' ']);
                assert(crate::types::vals_view(args@) =~= argsv);
                assert(Seq::<char>::empty() + join_vals(argsv, 0, true, seq![' ']) + Seq::<
                    char,
                >::empty() =~= join_vals(argsv, 0, true, seq![' ']));
            }
            Ok(MalType::String(s))
        },
        NativeOp::Str => {
            let s = MalType::pr_list::<false>(&args, "", "", "");
            proof {
                reveal_strlit("");
                assert(""@ =~= Seq::<char>::empty());
                assert(crate::types::vals_view(args@) =~= argsv);
                assert(Seq::<char>::empty() + join_vals(argsv, 0, false, Seq::empty()) + Seq::<
                    char,
                >::empty() =~= join_vals(argsv, 0, false, Seq::empty()));
            }
            Ok(MalType::String(s))
        },
        NativeOp::Prn => {
            let s = MalType::pr_list::<true>(&args, "", "", " ");
            proof {
                reveal_strlit("");
                reveal_strlit(" ");
                assert(""@ =~= Seq::<char>::empty());
                assert(" "@ =~= seq![' ']);
                assert(crate::types::vals_view(args@) =~= argsv);
                assert(Seq::<char>::empty() + join_vals(argsv, 0, true, seq![' ']) + Seq::<
                    char,
                >::empty() =~= join_vals(argsv, 0, true, seq![' ']));
            }
            st.output.push(s);
            proof {
                assert(st@.output =~= old(st)@.output.push(join_vals(argsv, 0, true, seq![' '])));
                assert(st@ =~~= apply_native_s(old(st)@, op, argsv).1);
            }
            Ok(MalType::Nil)
        },
        NativeOp::Println => {
            let s = MalType::pr_list::<false>(&args, "", "", " ");
            proof {
                reveal_strlit("");
                reveal_strlit(" ");
                assert(""@ =~= Seq::<char>::empty());
                assert(" "@ =~= seq![' ']);
                assert(crate::types::vals_view(args@) =~= argsv);
                assert(Seq::<char>::empty() + join_vals(argsv, 0, false, seq![' ']) + Seq::<
                    char,
                >::empty() =~= join_vals(argsv, 0, false, seq![' ']));
            }
            st.output.push(s);
            proof {
                assert(st@.output =~= old(st)@.output.push(join_vals(argsv, 0, false, seq![' '])));
                assert(st@ =~~= apply_native_s(old(st)@, op, argsv).1);
            }
            Ok(MalType::Nil)
        },
    }
}

impl NativeOp {
    /// The name the root environment binds this native to.
    pub fn token_text(&self) -> String {
        match self {
            NativeOp::Add => String::from_str("+"),
            NativeOp::Sub => String::from_str("-"),
            NativeOp::Mul => String::from_str("*"),
            NativeOp::Div => String::from_str("/"),
            NativeOp::MakeList => String::from_str("list"),
            NativeOp::IsList => String::from_str("list?"),
            NativeOp::IsEmpty => String::from_str("empty?"),
            NativeOp::Count => String::from_str("count"),
            NativeOp::Equal => String::from_str("="),
            NativeOp::Lt => String::from_str("<"),
            NativeOp::Le => String::from_str("<="),
            NativeOp::Gt => String::from_str(">"),
            NativeOp::Ge => String::from_str(">="),
            NativeOp::PrStr => String::from_str("pr-str"),
            NativeOp::Str => String::from_str("str"),
            NativeOp::Prn => String::from_str("prn"),
            NativeOp::Println => String::from_str("println"),
        }
    }
}

impl EvalError {
    /// A line describing the failure.
    pub fn message(&self) -> String {
        match self {
            EvalError::DepthExceeded => String::from_str("recursion depth exceeded"),
            EvalError::NotFound(s) => String::from_str("'").concat(s.as_str()).concat(
                "' not found",
            ),
            EvalError::NotAFunction => String::from_str("expected a function"),
            EvalError::DefNonVariable => String::from_str("can't `def!` a non-variable"),
            EvalError::InvalidForm => String::from_str("invalid special form"),
            EvalError::LetBindings => String::from_str("invalid `let*` form: expected bindings"),
            EvalError::LetBindingSymbol => String::from_str(
                "invalid `let*` form: expected symbol for binding",
            ),
            EvalError::LetNoValue(s) => String::from_str(
                "invalid `let*` form: expected value to bind to variable `",
            ).concat(s.as_str()).concat("`"),
            EvalError::FnParamList => String::from_str(
                "invalid `fn*` form: expected parameter list",
            ),
            EvalError::FnParamName => String::from_str(
                "invalid `fn*` form: expected symbol for parameter name",
            ),
            EvalError::VarargsName => String::from_str(
                "invalid `fn*` form: no variable binding for varargs",
            ),
            EvalError::LostScope => String::from_str("a closure's scope is missing"),
            EvalError::IdsExhausted => String::from_str("function identifiers exhausted"),
            EvalError::NativeArity(op, n) => {
                let mut digits: Vec<char> = Vec::new();
                crate::num::push_digits(*n as u64, &mut digits);
                String::from_str("`").concat(op.token_text().as_str()).concat(
                    "` expects 2 args: ",
                ).concat(crate::printer::chars_to_string(&digits).as_str()).concat(
                    " were provided",
                )
            },
            EvalError::NativeArgs(op) => String::from_str("`").concat(
                op.token_text().as_str(),
            ).concat("` expects 2 numbers"),
            EvalError::Overflow => String::from_str("numeric overflow"),
            EvalError::DivisionByZero => String::from_str("division by zero"),
        }
    }
}

/// The bindings of the root environment: the names of the natives, in order.
pub open spec fn ns_data() -> Seq<(Seq<char>, SpecVal)> {
    seq![
        (seq!['+'], SpecVal::Function(NativeOp::Add)),
        (seq!['-'], SpecVal::Function(NativeOp::Sub)),
        (seq!['*'], SpecVal::Function(NativeOp::Mul)),
        (seq!['/'], SpecVal::Function(NativeOp::Div)),
        (seq!['l', 'i', 's', 't'], SpecVal::Function(NativeOp::MakeList)),
        (seq!['l', 'i', 's', 't', '?'], SpecVal::Function(NativeOp::IsList)),
        (seq!['e', 'm', 'p', 't', 'y', '?'], SpecVal::Function(NativeOp::IsEmpty)),
        (seq!['c', 'o', 'u', 'n', 't'], SpecVal::Function(NativeOp::Count)),
        (seq!['='], SpecVal::Function(NativeOp::Equal)),
        (seq!['<'], SpecVal::Function(NativeOp::Lt)),
        (seq!['<', '='], SpecVal::Function(NativeOp::Le)),
        (seq!['>'], SpecVal::Function(NativeOp::Gt)),
        (seq!['>', '='], SpecVal::Function(NativeOp::Ge)),
        (seq!['p', 'r', '-', 's', 't', 'r'], SpecVal::Function(NativeOp::PrStr)),
        (seq!['s', 't', 'r'], SpecVal::Function(NativeOp::Str)),
        (seq!['p', 'r', 'n'], SpecVal::Function(NativeOp::Prn)),
        (seq!['p', 'r', 'i', 'n', 't', 'l', 'n'], SpecVal::Function(NativeOp::Println)),
    ]
}

/// Folding fresh, pairwise distinct names into a scope just appends them.
pub proof fn lemma_bind_list_fresh(
    acc: Seq<(Seq<char>, SpecVal)>,
    pairs: Seq<(Seq<char>, SpecVal)>,
)
    requires
        forall|i: int, j: int| 0 <= i < j < pairs.len() ==> pairs[i].0 != pairs[j].0,
        forall|i: int, j: int|
            0 <= i < acc.len() && 0 <= j < pairs.len() ==> acc[i].0 != pairs[j].0,
    ensures
        bind_list_from(acc, pairs) =~= acc + pairs,
    decreases pairs.len(),
{
    if pairs.len() == 0 {
        assert(bind_list_from(acc, pairs) =~= acc + pairs);
    } else {
        lemma_assoc_set_append(acc, pairs[0].0, pairs[0].1);
        assert(assoc_set_eq_push(acc, pairs[0]));
        let acc2 = acc.push(pairs[0]);
        assert forall|i: int, j: int|
            0 <= i < acc2.len() && 0 <= j < pairs.drop_first().len() implies acc2[i].0
            != pairs.drop_first()[j].0 by {
            assert(pairs.drop_first()[j] == pairs[j + 1]);
            if i < acc.len() {
            } else {
                assert(acc2[i] == pairs[0]);
            }
        }
        assert forall|i: int, j: int| 0 <= i < j < pairs.drop_first().len() implies pairs.drop_first()[
            i
        ].0 != pairs.drop_first()[j].0 by {
            assert(pairs.drop_first()[i] == pairs[i + 1]);
            assert(pairs.drop_first()[j] == pairs[j + 1]);
        }
        lemma_bind_list_fresh(acc2, pairs.drop_first());
        assert(acc2 + pairs.drop_first() =~= acc + pairs);
    }
}

/// Helper naming the shape `assoc_set == push` for a fresh key.
pub open spec fn assoc_set_eq_push(
    acc: Seq<(Seq<char>, SpecVal)>,
    p: (Seq<char>, SpecVal),
) -> bool {
    crate::env::assoc_set(acc, p.0, p.1) == acc.push(p)
}

/// Install the standard natives in a fresh root scope.
#[verifier::rlimit(100)]
pub fn ns(st: &mut Interp) -> (r: Env)
    requires
        arena_wf(old(st)@.envs),
    ensures
        arena_wf(final(st)@.envs),
        r.id == old(st)@.envs.len(),
        final(st)@.envs =~= old(st)@.envs.push(
            SpecScope { outer: None, data: ns_data() },
        ),
        final(st)@.next_fn_id == old(st)@.next_fn_id,
        final(st)@.output == old(st)@.output,
{
    let mut list: Vec<(String, MalType)> = Vec::new();
    list.push((String::from_str("+"), MalType::Function(NativeOp::Add)));
    list.push((String::from_str("-"), MalType::Function(NativeOp::Sub)));
    list.push((String::from_str("*"), MalType::Function(NativeOp::Mul)));
    list.push((String::from_str("/"), MalType::Function(NativeOp::Div)));
    list.push((String::from_str("list"), MalType::Function(NativeOp::MakeList)));
    list.push((String::from_str("list?"), MalType::Function(NativeOp::IsList)));
    list.push((String::from_str("empty?"), MalType::Function(NativeOp::IsEmpty)));
    list.push((String::from_str("count"), MalType::Function(NativeOp::Count)));
    list.push((String::from_str("="), MalType::Function(NativeOp::Equal)));
    list.push((String::from_str("<"), MalType::Function(NativeOp::Lt)));
    list.push((String::from_str("<="), MalType::Function(NativeOp::Le)));
    list.push((String::from_str(">"), MalType::Function(NativeOp::Gt)));
    list.push((String::from_str(">="), MalType::Function(NativeOp::Ge)));
    list.push((String::from_str("pr-str"), MalType::Function(NativeOp::PrStr)));
    list.push((String::from_str("str"), MalType::Function(NativeOp::Str)));
    list.push((String::from_str("prn"), MalType::Function(NativeOp::Prn)));
    list.push((String::from_str("println"), MalType::Function(NativeOp::Println)));
    proof {
        reveal_strlit("+");
        reveal_strlit("-");
        reveal_strlit("*");
        reveal_strlit("/");
        reveal_strlit("list");
        reveal_strlit("list?");
        reveal_strlit("empty?");
        reveal_strlit("count");
        reveal_strlit("=");
        reveal_strlit("<");
        reveal_strlit("<=");
        reveal_strlit(">");
        reveal_strlit(">=");
        reveal_strlit("pr-str");
        reveal_strlit("str");
        reveal_strlit("prn");
        reveal_strlit("println");
        assert(data_view(list@) =~~= ns_data());
        assert forall|i: int, j: int| 0 <= i < j < ns_data().len() implies ns_data()[i].0
            != ns_data()[j].0 by {
            if ns_data()[i].0 == ns_data()[j].0 {
                assert(ns_data()[i].0.len() == ns_data()[j].0.len());
                assert(ns_data()[i].0[0] == ns_data()[j].0[0]);
                if ns_data()[i].0.len() > 1 {
                    assert(ns_data()[i].0[1] == ns_data()[j].0[1]);
                }
                if ns_data()[i].0.len() > 2 {
                    assert(ns_data()[i].0[2] == ns_data()[j].0[2]);
                }
                if ns_data()[i].0.len() > 4 {
                    assert(ns_data()[i].0[4] == ns_data()[j].0[4]);
                }
            }
        }
        lemma_bind_list_fresh(Seq::empty(), ns_data());
        assert(Seq::<(Seq<char>, SpecVal)>::empty() + ns_data() =~= ns_data());
    }
    Env::new_with_bindings_list(&mut st.envs, None, list)
}

} // verus!
