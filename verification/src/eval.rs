use vstd::prelude::*;

use crate::env::arena_wf;
use crate::env::assoc_set;
use crate::env::bind_from;
use crate::env::env_lookup;
use crate::env::Env;
use crate::env::EnvArena;
use crate::env::SpecScope;
use crate::stdlib::apply_native;
use crate::stdlib::apply_native_s;
use crate::stdlib::EvalError;
use crate::stdlib::Interp;
use crate::stdlib::SpecEvalError;
use crate::stdlib::SpecInterp;
use crate::types::ListKind;
use crate::types::MalType;
use crate::types::SpecVal;

verus! {

pub open spec fn sym_def() -> Seq<char> {
    seq!['d', 'e', 'f', '!']
}

pub open spec fn sym_do() -> Seq<char> {
    seq!['d', 'o']
}

pub open spec fn sym_fn() -> Seq<char> {
    seq!['f', 'n', '*']
}

pub open spec fn sym_if() -> Seq<char> {
    seq!['i', 'f']
}

pub open spec fn sym_let() -> Seq<char> {
    seq!['l', 'e', 't', '*']
}

pub open spec fn sym_amp() -> Seq<char> {
    seq!['&']
}

/// Whether a value is one of the special-form symbols, which the evaluator
/// handles by control-flow rules instead of function application.
pub open spec fn is_special(v: SpecVal) -> bool {
    v is Symbol && (v->Symbol_0 == sym_def() || v->Symbol_0 == sym_do() || v->Symbol_0 == sym_fn()
        || v->Symbol_0 == sym_if() || v->Symbol_0 == sym_let())
}

/// Bind `name` to `v` in the scope `id` alone.
pub open spec fn env_set_s(
    envs: Seq<SpecScope>,
    id: int,
    name: Seq<char>,
    v: SpecVal,
) -> Seq<SpecScope> {
    envs.update(
        id,
        SpecScope { outer: envs[id].outer, data: assoc_set(envs[id].data, name, v) },
    )
}

/// Whether every element is a symbol.
pub open spec fn all_symbols(items: Seq<SpecVal>) -> bool {
    forall|i: int| 0 <= i < items.len() ==> items[i] is Symbol
}

/// The names of a sequence of symbols.
pub open spec fn symbol_names(items: Seq<SpecVal>) -> Seq<Seq<char>> {
    Seq::new(items.len(), |i: int| if 0 <= i < items.len() {
        items[i]->Symbol_0
    } else {
        Seq::empty()
    })
}

/// The scope a parent handle names, as an index.
pub open spec fn env_opt_id(p: Option<Env>) -> Option<int> {
    match p {
        Some(e) => Some(e.id as int),
        None => None,
    }
}

/// Split a parameter list at `&`: the names before it bind positionally, and
/// the name after it collects the remaining arguments.
pub open spec fn split_params_s(
    params: Seq<Seq<char>>,
    i: int,
    regs: Seq<Seq<char>>,
    va: Option<Seq<char>>,
) -> Result<(Seq<Seq<char>>, Option<Seq<char>>), SpecEvalError>
    decreases params.len() - i,
{
    if i < 0 || i >= params.len() {
        Ok((regs, va))
    } else if params[i] == sym_amp() {
        if i + 1 >= params.len() {
            Err(SpecEvalError::VarargsName)
        } else {
            split_params_s(params, i + 2, regs, Some(params[i + 1]))
        }
    } else {
        split_params_s(params, i + 1, regs.push(params[i]), va)
    }
}

/// The scope created by applying a closure: positional parameters zip with the
/// arguments, truncating at the shorter side, and a variadic name binds the
/// leftover arguments as a list.
pub open spec fn gen_env_s(
    envs: Seq<SpecScope>,
    parent: Option<int>,
    params: Seq<Seq<char>>,
    args: Seq<SpecVal>,
) -> (Result<int, SpecEvalError>, Seq<SpecScope>) {
    match split_params_s(params, 0, Seq::empty(), None) {
        Err(e) => (Err(e), envs),
        Ok((regs, va)) => {
            let id = envs.len() as int;
            let envs2 = envs.push(
                SpecScope { outer: parent, data: bind_from(Seq::empty(), regs, args) },
            );
            match va {
                None => (Ok(id), envs2),
                Some(name) => {
                    let rest = if regs.len() <= args.len() {
                        args.skip(regs.len() as int)
                    } else {
                        Seq::empty()
                    };
                    (Ok(id), env_set_s(envs2, id, name, SpecVal::L(ListKind::List, rest)))
                },
            }
        },
    }
}

/// One evaluation step's outcome: out of depth, or a result with the
/// interpreter as it stands afterwards.
pub type EvalOutcome = Option<(Result<SpecVal, SpecEvalError>, SpecInterp)>;

/// What evaluating `ast` in scope `env` yields, within `fuel` nested steps.
/// Special forms dispatch on the head symbol; any other nonempty list
/// evaluates every element and applies the head; everything else is handed to
/// `eval_ast_s`. The trampoline in `eval` realises the tail positions as loop
/// steps, so `fuel` bounds spec recursion but the host stack only grows with
/// non-tail nesting.
pub open spec fn eval_s(st: SpecInterp, ast: SpecVal, env: int, fuel: nat) -> EvalOutcome
    decreases fuel, 0int, 0int,
{
    if fuel == 0 {
        None
    } else {
        let f1 = (fuel - 1) as nat;
        match ast {
            SpecVal::L(ListKind::List, items) => {
                if items.len() == 0 {
                    Some((Ok(ast), st))
                } else if is_special(items[0]) {
                    let head = items[0]->Symbol_0;
                    if head == sym_def() {
                        if items.len() < 3 {
                            Some((Err(SpecEvalError::InvalidForm), st))
                        } else if !(items[1] is Symbol) {
                            Some((Err(SpecEvalError::DefNonVariable), st))
                        } else {
                            match eval_s(st, items[2], env, f1) {
                                None => None,
                                Some((Err(e), st2)) => Some((Err(e), st2)),
                                Some((Ok(v), st2)) => Some(
                                    (
                                        Ok(v),
                                        SpecInterp {
                                            envs: env_set_s(
                                                st2.envs,
                                                env,
                                                items[1]->Symbol_0,
                                                v,
                                            ),
                                            ..st2
                                        },
                                    ),
                                ),
                            }
                        }
                    } else if head == sym_do() {
                        if items.len() == 1 {
                            Some((Ok(SpecVal::Nil), st))
                        } else {
                            match eval_do_s(st, items, 1, env, f1) {
                                None => None,
                                Some((Err(e), st2)) => Some((Err(e), st2)),
                                Some((Ok(_), st2)) => eval_s(
                                    st2,
                                    items[items.len() - 1],
                                    env,
                                    f1,
                                ),
                            }
                        }
                    } else if head == sym_fn() {
                        if items.len() < 3 {
                            Some((Err(SpecEvalError::InvalidForm), st))
                        } else if !(items[1] is L) {
                            Some((Err(SpecEvalError::FnParamList), st))
                        } else if !all_symbols(items[1]->L_1) {
                            Some((Err(SpecEvalError::FnParamName), st))
                        } else if st.next_fn_id == u64::MAX {
                            Some((Err(SpecEvalError::IdsExhausted), st))
                        } else {
                            Some(
                                (
                                    Ok(
                                        SpecVal::TCOFunction {
                                            fn_id: st.next_fn_id,
                                            params: symbol_names(items[1]->L_1),
                                            body: Box::new(items[2]),
                                            env: Env { id: env as usize },
                                        },
                                    ),
                                    SpecInterp { next_fn_id: (st.next_fn_id + 1) as u64, ..st },
                                ),
                            )
                        }
                    } else if head == sym_if() {
                        if items.len() < 3 {
                            Some((Err(SpecEvalError::InvalidForm), st))
                        } else {
                            match eval_s(st, items[1], env, f1) {
                                None => None,
                                Some((Err(e), st2)) => Some((Err(e), st2)),
                                Some((Ok(c), st2)) => {
                                    let truthy = !(c == SpecVal::Bool(false) || c == SpecVal::Nil);
                                    let branch = if truthy {
                                        items[2]
                                    } else if items.len() >= 4 {
                                        items[3]
                                    } else {
                                        SpecVal::Nil
                                    };
                                    eval_s(st2, branch, env, f1)
                                },
                            }
                        }
                    } else {
                        if items.len() < 3 {
                            Some((Err(SpecEvalError::InvalidForm), st))
                        } else if !(items[1] is L) {
                            Some((Err(SpecEvalError::LetBindings), st))
                        } else {
                            let child = st.envs.len() as int;
                            let st2 = SpecInterp {
                                envs: st.envs.push(
                                    SpecScope { outer: Some(env), data: Seq::empty() },
                                ),
                                ..st
                            };
                            match eval_bindings_s(st2, items[1]->L_1, 0, child, f1) {
                                None => None,
                                Some((Err(e), st3)) => Some((Err(e), st3)),
                                Some((Ok(_), st3)) => eval_s(st3, items[2], child, f1),
                            }
                        }
                    }
                } else {
                    match eval_seq_s(st, items, 0, env, f1) {
                        None => None,
                        Some((Err(e), st2)) => Some((Err(e), st2)),
                        Some((Ok(vals), st2)) => {
                            let args = vals.drop_first();
                            match vals[0] {
                                SpecVal::Function(op) => {
                                    let res = apply_native_s(st2, op, args);
                                    Some((res.0, res.1))
                                },
                                SpecVal::TCOFunction { params, body, env: closed, .. } => {
                                    if closed.id >= st2.envs.len() {
                                        Some((Err(SpecEvalError::LostScope), st2))
                                    } else {
                                        let made = gen_env_s(
                                            st2.envs,
                                            Some(closed.id as int),
                                            params,
                                            args,
                                        );
                                        match made.0 {
                                            Err(e) => Some(
                                                (Err(e), SpecInterp { envs: made.1, ..st2 }),
                                            ),
                                            Ok(newid) => eval_s(
                                                SpecInterp { envs: made.1, ..st2 },
                                                *body,
                                                newid,
                                                f1,
                                            ),
                                        }
                                    }
                                },
                                _ => Some((Err(SpecEvalError::NotAFunction), st2)),
                            }
                        },
                    }
                }
            },
            _ => eval_ast_s(st, ast, env, f1),
        }
    }
}

/// What a value evaluates to outside call position: a symbol resolves, a list
/// or vector evaluates element-wise and keeps its kind, a hash-map evaluates
/// its values, and every other value is itself.
pub open spec fn eval_ast_s(st: SpecInterp, ast: SpecVal, env: int, fuel: nat) -> EvalOutcome
    decreases fuel, 3int, 0int,
{
    match ast {
        SpecVal::Symbol(name) => Some(
            (
                match env_lookup(st.envs, env, name) {
                    Some(v) => Ok(v),
                    None => Err(SpecEvalError::NotFound(name)),
                },
                st,
            ),
        ),
        SpecVal::L(kind, items) => match eval_seq_s(st, items, 0, env, fuel) {
            None => None,
            Some((Err(e), st2)) => Some((Err(e), st2)),
            Some((Ok(vals), st2)) => Some((Ok(SpecVal::L(kind, vals)), st2)),
        },
        SpecVal::HashMap(entries) => match eval_hm_s(st, entries, 0, env, fuel) {
            None => None,
            Some((Err(e), st2)) => Some((Err(e), st2)),
            Some((Ok(es), st2)) => Some((Ok(SpecVal::HashMap(es)), st2)),
        },
        _ => Some((Ok(ast), st)),
    }
}

/// Evaluate the elements from position `i` on, left to right, threading the
/// interpreter through.
pub open spec fn eval_seq_s(
    st: SpecInterp,
    items: Seq<SpecVal>,
    i: int,
    env: int,
    fuel: nat,
) -> Option<(Result<Seq<SpecVal>, SpecEvalError>, SpecInterp)>
    decreases fuel, 2int, items.len() - i,
{
    if i < 0 || i >= items.len() {
        Some((Ok(Seq::empty()), st))
    } else {
        match eval_s(st, items[i], env, fuel) {
            None => None,
            Some((Err(e), st2)) => Some((Err(e), st2)),
            Some((Ok(v), st2)) => match eval_seq_s(st2, items, i + 1, env, fuel) {
                None => None,
                Some((Err(e), st3)) => Some((Err(e), st3)),
                Some((Ok(rest), st3)) => Some((Ok(seq![v] + rest), st3)),
            },
        }
    }
}

/// Evaluate the values of hash-map entries from position `i` on, keys kept.
pub open spec fn eval_hm_s(
    st: SpecInterp,
    entries: Seq<(crate::types::SpecHashKey, SpecVal)>,
    i: int,
    env: int,
    fuel: nat,
) -> Option<(Result<Seq<(crate::types::SpecHashKey, SpecVal)>, SpecEvalError>, SpecInterp)>
    decreases fuel, 2int, entries.len() - i,
{
    if i < 0 || i >= entries.len() {
        Some((Ok(Seq::empty()), st))
    } else {
        match eval_s(st, entries[i].1, env, fuel) {
            None => None,
            Some((Err(e), st2)) => Some((Err(e), st2)),
            Some((Ok(v), st2)) => match eval_hm_s(st2, entries, i + 1, env, fuel) {
                None => None,
                Some((Err(e), st3)) => Some((Err(e), st3)),
                Some((Ok(rest), st3)) => Some((Ok(seq![(entries[i].0, v)] + rest), st3)),
            },
        }
    }
}

/// Evaluate the forms from `i` up to the last one, for effect only.
pub open spec fn eval_do_s(
    st: SpecInterp,
    items: Seq<SpecVal>,
    i: int,
    env: int,
    fuel: nat,
) -> Option<(Result<(), SpecEvalError>, SpecInterp)>
    decreases fuel, 2int, items.len() - i,
{
    if i < 0 || i >= items.len() - 1 {
        Some((Ok(()), st))
    } else {
        match eval_s(st, items[i], env, fuel) {
            None => None,
            Some((Err(e), st2)) => Some((Err(e), st2)),
            Some((Ok(_), st2)) => eval_do_s(st2, items, i + 1, env, fuel),
        }
    }
}

/// Process a binding list pairwise, left to right, evaluating each value in
/// the growing scope `child` so that later bindings see earlier ones.
pub open spec fn eval_bindings_s(
    st: SpecInterp,
    bs: Seq<SpecVal>,
    i: int,
    child: int,
    fuel: nat,
) -> Option<(Result<(), SpecEvalError>, SpecInterp)>
    decreases fuel, 2int, bs.len() - i,
{
    if i < 0 || i >= bs.len() {
        Some((Ok(()), st))
    } else if !(bs[i] is Symbol) {
        Some((Err(SpecEvalError::LetBindingSymbol), st))
    } else if i + 1 >= bs.len() {
        Some((Err(SpecEvalError::LetNoValue(bs[i]->Symbol_0)), st))
    } else {
        match eval_s(st, bs[i + 1], child, fuel) {
            None => None,
            Some((Err(e), st2)) => Some((Err(e), st2)),
            Some((Ok(v), st2)) => eval_bindings_s(
                SpecInterp { envs: env_set_s(st2.envs, child, bs[i]->Symbol_0, v), ..st2 },
                bs,
                i + 2,
                child,
                fuel,
            ),
        }
    }
}

/// Whether `v` is the symbol whose text is `w`.
fn sym_text_is(v: &MalType, w: &str) -> (r: bool)
    ensures
        r == (v@ is Symbol && v@->Symbol_0 == w@),
{
    match v {
        MalType::Symbol(s) => crate::env::compare_strings(s.as_str(), w),
        _ => false,
    }
}

/// Whether a value is one of the special-form symbols.
pub fn is_special_atom(ast: &MalType) -> (r: bool)
    ensures
        r == is_special(ast@),
{
    proof {
        reveal_strlit("def!");
        reveal_strlit("do");
        reveal_strlit("fn*");
        reveal_strlit("if");
        reveal_strlit("let*");
        assert("def!"@ =~= sym_def());
        assert("do"@ =~= sym_do());
        assert("fn*"@ =~= sym_fn());
        assert("if"@ =~= sym_if());
        assert("let*"@ =~= sym_let());
    }
    sym_text_is(ast, "def!") || sym_text_is(ast, "do") || sym_text_is(ast, "fn*") || sym_text_is(
        ast,
        "if",
    ) || sym_text_is(ast, "let*")
}

/// Create the scope for a closure application: parameters zip with arguments,
/// truncating at the shorter side, and a `&`-declared name collects the
/// leftover arguments into a list.
pub fn gen_env_from_param_app(
    arena: &mut EnvArena,
    parent_env: Option<Env>,
    param_names: &Vec<String>,
    args: Vec<MalType>,
) -> (r: Result<Env, EvalError>)
    requires
        arena_wf(old(arena)@),
        match parent_env {
            Some(e) => e.id < old(arena)@.len(),
            None => true,
        },
    ensures
        arena_wf(final(arena)@),
        old(arena)@.len() <= final(arena)@.len(),
        match r {
            Ok(e) => gen_env_s(
                old(arena)@,
                env_opt_id(parent_env),
                param_names.deep_view(),
                args.deep_view(),
            ) == (Ok::<int, SpecEvalError>(e.id as int), final(arena)@) && e.id < final(arena)@.len(),
            Err(er) => gen_env_s(
                old(arena)@,
                env_opt_id(parent_env),
                param_names.deep_view(),
                args.deep_view(),
            ) == (Err::<int, SpecEvalError>(er@), final(arena)@) && er is VarargsName,
        },
{
    let ghost pdv = param_names.deep_view();
    let ghost adv = args.deep_view();
    proof {
        reveal_strlit("&");
        assert("&"@ =~= sym_amp());
    }
    let mut regs: Vec<String> = Vec::new();
    let mut va: Option<String> = None;
    let n = param_names.len();
    let mut k: usize = 0;
    proof {
        assert(regs.deep_view() =~= Seq::<Seq<char>>::empty());
    }
    while k < n
        invariant
            arena@ == old(arena)@,
            arena_wf(arena@),
            k <= n,
            n == param_names@.len(),
            pdv == param_names.deep_view(),
            split_params_s(pdv, 0, Seq::empty(), None) == split_params_s(
                pdv,
                k as int,
                regs.deep_view(),
                match va {
                    Some(ref s) => Some(s@),
                    None => None,
                },
            ),
        decreases n - k,
    {
        let ghost k0 = k as int;
        let ghost prev_regs = regs.deep_view();
        let ghost prev_va = match va {
            Some(ref s) => Some(s@),
            None => None::<Seq<char>>,
        };
        proof {
            assert(pdv[k as int] == param_names@[k as int]@);
        }
        if crate::env::compare_strings(param_names[k].as_str(), "&") {
            proof {
                reveal_strlit("&");
                assert(pdv[k0] == sym_amp());
            }
            if k + 1 >= n {
                proof {
                    assert(split_params_s(pdv, k0, prev_regs, prev_va) == Err::<
                        (Seq<Seq<char>>, Option<Seq<char>>),
                        SpecEvalError,
                    >(SpecEvalError::VarargsName));
                    assert(gen_env_s(old(arena)@, env_opt_id(parent_env), pdv, adv) == (
                        Err::<int, SpecEvalError>(SpecEvalError::VarargsName),
                        arena@,
                    ));
                }
                return Err(EvalError::VarargsName);
            }
            proof {
                assert(pdv[k + 1] == param_names@[k + 1]@);
            }
            va = Some(param_names[k + 1].clone());
            k = k + 2;
            proof {
                assert(split_params_s(pdv, k0, prev_regs, prev_va) == split_params_s(
                    pdv,
                    k as int,
                    regs.deep_view(),
                    match va {
                        Some(ref s) => Some(s@),
                        None => None,
                    },
                ));
            }
        } else {
            proof {
                reveal_strlit("&");
                assert("&"@ =~= sym_amp());
                assert(pdv[k0] != sym_amp());
            }
            regs.push(param_names[k].clone());
            proof {
                assert(regs.deep_view() =~= prev_regs.push(pdv[k0]));
            }
            k = k + 1;
            proof {
                assert(split_params_s(pdv, k0, prev_regs, prev_va) == split_params_s(
                    pdv,
                    k as int,
                    regs.deep_view(),
                    match va {
                        Some(ref s) => Some(s@),
                        None => None,
                    },
                ));
            }
        }
    }
    let ghost split = split_params_s(pdv, 0, Seq::empty(), None);
    proof {
        assert(split == Ok::<(Seq<Seq<char>>, Option<Seq<char>>), SpecEvalError>(
            (
                regs.deep_view(),
                match va {
                    Some(ref s) => Some(s@),
                    None => None,
                },
            ),
        ));
    }
    let start = if regs.len() <= args.len() {
        regs.len()
    } else {
        args.len()
    };
    let mut rest: Vec<MalType> = Vec::new();
    let m = args.len();
    let mut j: usize = start;
    while j < m
        invariant
            start <= j <= m,
            m == args@.len(),
            adv == args.deep_view(),
            start as int == if regs.deep_view().len() <= adv.len() {
                regs.deep_view().len() as int
            } else {
                adv.len() as int
            },
            rest.deep_view() =~= adv.subrange(start as int, j as int),
        decreases m - j,
    {
        let ghost prev = rest.deep_view();
        rest.push(args[j].duplicate());
        proof {
            assert(adv[j as int] == args@[j as int]@);
            assert(rest.deep_view() =~= prev.push(adv[j as int]));
            assert(prev.push(adv[j as int]) =~= adv.subrange(start as int, j + 1));
        }
        j = j + 1;
    }
    let env = Env::new_with_bindings(arena, parent_env, &regs, args);
    match va {
        Some(name) => {
            let ghost restv = rest.deep_view();
            let listed = MalType::L(ListKind::List, rest);
            proof {
                assert(listed@->L_1 =~= restv);
            }
            env.set(arena, name, listed);
            proof {
                let specrest = if regs.deep_view().len() <= adv.len() {
                    adv.skip(regs.deep_view().len() as int)
                } else {
                    Seq::<SpecVal>::empty()
                };
                assert(adv.subrange(start as int, m as int) =~= specrest);
                assert(restv == specrest);
                assert(arena@ =~~= gen_env_s(old(arena)@, env_opt_id(parent_env), pdv, adv).1);
            }
            Ok(env)
        },
        None => {
            proof {
                assert(arena@ =~~= gen_env_s(old(arena)@, env_opt_id(parent_env), pdv, adv).1);
            }
            Ok(env)
        },
    }
}

/// Evaluate every element of `items`, left to right.
fn eval_elems(st: &mut Interp, items: &Vec<MalType>, env: Env, fuel: u64) -> (r: Result<
    Vec<MalType>,
    EvalError,
>)
    requires
        arena_wf(old(st)@.envs),
        env.id < old(st)@.envs.len(),
    ensures
        arena_wf(final(st)@.envs),
        old(st)@.envs.len() <= final(st)@.envs.len(),
        match r {
            Ok(vs) => eval_seq_s(old(st)@, items.deep_view(), 0, env.id as int, fuel as nat)
                == Some((Ok::<Seq<SpecVal>, SpecEvalError>(vs.deep_view()), final(st)@)),
            Err(e) => if e is DepthExceeded {
                eval_seq_s(old(st)@, items.deep_view(), 0, env.id as int, fuel as nat) is None
            } else {
                eval_seq_s(old(st)@, items.deep_view(), 0, env.id as int, fuel as nat) == Some(
                    (Err::<Seq<SpecVal>, SpecEvalError>(e@), final(st)@),
                )
            },
        },
    decreases fuel, 1int,
{
    let ghost itemsv = items.deep_view();
    let ghost eid = env.id as int;
    let ghost fueln = fuel as nat;
    let mut vs: Vec<MalType> = Vec::new();
    let n = items.len();
    let mut i: usize = 0;
    proof {
        assert(vs.deep_view() =~= Seq::<SpecVal>::empty());
    }
    while i < n
        invariant
            arena_wf(st@.envs),
            env.id < st@.envs.len(),
            old(st)@.envs.len() <= st@.envs.len(),
            i <= n,
            n == items@.len(),
            itemsv == items.deep_view(),
            eid == env.id as int,
            fueln == fuel as nat,
            match eval_seq_s(st@, itemsv, i as int, eid, fueln) {
                None => eval_seq_s(old(st)@, itemsv, 0, eid, fueln) is None,
                Some((Err(e), st2)) => eval_seq_s(old(st)@, itemsv, 0, eid, fueln) == Some(
                    (Err::<Seq<SpecVal>, SpecEvalError>(e), st2),
                ),
                Some((Ok(rest), st2)) => eval_seq_s(old(st)@, itemsv, 0, eid, fueln) == Some(
                    (Ok::<Seq<SpecVal>, SpecEvalError>(vs.deep_view() + rest), st2),
                ),
            },
        decreases n - i,
    {
        let ghost prev = vs.deep_view();
        proof {
            assert(itemsv[i as int] == items@[i as int]@);
        }
        let v = match eval(st, items[i].duplicate(), env, fuel) {
            Ok(v) => v,
            Err(e) => {
                return Err(e);
            },
        };
        let ghost vv = v@;
        vs.push(v);
        proof {
            assert(vs.deep_view() =~= prev.push(vv));
            match eval_seq_s(st@, itemsv, i + 1, eid, fueln) {
                Some((Ok(rest), st2)) => {
                    assert(prev + (seq![vv] + rest) =~= vs.deep_view() + rest);
                },
                _ => {},
            }
        }
        i = i + 1;
    }
    proof {
        assert(vs.deep_view() + Seq::<SpecVal>::empty() =~= vs.deep_view());
    }
    Ok(vs)
}

/// Evaluating elements yields exactly one value per element.
pub proof fn lemma_eval_seq_len(st: SpecInterp, items: Seq<SpecVal>, i: int, env: int, fuel: nat)
    ensures
        match eval_seq_s(st, items, i, env, fuel) {
            Some((Ok(vals), _)) => vals.len() == if 0 <= i <= items.len() {
                items.len() - i
            } else {
                0
            },
            _ => true,
        },
    decreases fuel, 2int, items.len() - i,
{
    if 0 <= i < items.len() {
        match eval_s(st, items[i], env, fuel) {
            Some((Ok(v), st2)) => {
                lemma_eval_seq_len(st2, items, i + 1, env, fuel);
            },
            _ => {},
        }
    }
}

/// Evaluate the values of a hash-map's entries, keys kept.
fn eval_hm(
    st: &mut Interp,
    entries: &Vec<(crate::types::MalHashKey, MalType)>,
    env: Env,
    fuel: u64,
) -> (r: Result<Vec<(crate::types::MalHashKey, MalType)>, EvalError>)
    requires
        arena_wf(old(st)@.envs),
        env.id < old(st)@.envs.len(),
    ensures
        arena_wf(final(st)@.envs),
        old(st)@.envs.len() <= final(st)@.envs.len(),
        match r {
            Ok(es) => eval_hm_s(
                old(st)@,
                crate::types::hm_view(entries@),
                0,
                env.id as int,
                fuel as nat,
            ) == Some(
                (
                    Ok::<Seq<(crate::types::SpecHashKey, SpecVal)>, SpecEvalError>(
                        crate::types::hm_view(es@),
                    ),
                    final(st)@,
                ),
            ),
            Err(e) => if e is DepthExceeded {
                eval_hm_s(
                    old(st)@,
                    crate::types::hm_view(entries@),
                    0,
                    env.id as int,
                    fuel as nat,
                ) is None
            } else {
                eval_hm_s(
                    old(st)@,
                    crate::types::hm_view(entries@),
                    0,
                    env.id as int,
                    fuel as nat,
                ) == Some(
                    (
                        Err::<Seq<(crate::types::SpecHashKey, SpecVal)>, SpecEvalError>(e@),
                        final(st)@,
                    ),
                )
            },
        },
    decreases fuel, 1int,
{
    let ghost ev = crate::types::hm_view(entries@);
    let ghost eid = env.id as int;
    let ghost fueln = fuel as nat;
    let mut es: Vec<(crate::types::MalHashKey, MalType)> = Vec::new();
    let n = entries.len();
    let mut i: usize = 0;
    proof {
        assert(crate::types::hm_view(es@) =~= Seq::<(crate::types::SpecHashKey, SpecVal)>::empty());
    }
    while i < n
        invariant
            arena_wf(st@.envs),
            env.id < st@.envs.len(),
            old(st)@.envs.len() <= st@.envs.len(),
            i <= n,
            n == entries@.len(),
            ev == crate::types::hm_view(entries@),
            eid == env.id as int,
            fueln == fuel as nat,
            match eval_hm_s(st@, ev, i as int, eid, fueln) {
                None => eval_hm_s(old(st)@, ev, 0, eid, fueln) is None,
                Some((Err(e), st2)) => eval_hm_s(old(st)@, ev, 0, eid, fueln) == Some(
                    (Err::<Seq<(crate::types::SpecHashKey, SpecVal)>, SpecEvalError>(e), st2),
                ),
                Some((Ok(rest), st2)) => eval_hm_s(old(st)@, ev, 0, eid, fueln) == Some(
                    (
                        Ok::<Seq<(crate::types::SpecHashKey, SpecVal)>, SpecEvalError>(
                            crate::types::hm_view(es@) + rest,
                        ),
                        st2,
                    ),
                ),
            },
        decreases n - i,
    {
        let ghost prev = crate::types::hm_view(es@);
        proof {
            assert(ev[i as int] == (entries@[i as int].0@, entries@[i as int].1@));
        }
        let v = match eval(st, entries[i].1.duplicate(), env, fuel) {
            Ok(v) => v,
            Err(e) => {
                return Err(e);
            },
        };
        let ghost vv = v@;
        let key = entries[i].0.duplicate();
        let ghost kv = key@;
        es.push((key, v));
        proof {
            assert(crate::types::hm_view(es@) =~= prev.push((kv, vv)));
            match eval_hm_s(st@, ev, i + 1, eid, fueln) {
                Some((Ok(rest), st2)) => {
                    assert(prev + (seq![(kv, vv)] + rest) =~= crate::types::hm_view(es@) + rest);
                },
                _ => {},
            }
        }
        i = i + 1;
    }
    proof {
        assert(crate::types::hm_view(es@) + Seq::<(crate::types::SpecHashKey, SpecVal)>::empty()
            =~= crate::types::hm_view(es@));
    }
    Ok(es)
}

/// Evaluate a value outside call position: resolve a symbol, evaluate a
/// collection element-wise, and return anything else unchanged.
pub fn eval_ast(st: &mut Interp, ast: MalType, env: Env, fuel: u64) -> (r: Result<
    MalType,
    EvalError,
>)
    requires
        arena_wf(old(st)@.envs),
        env.id < old(st)@.envs.len(),
    ensures
        arena_wf(final(st)@.envs),
        old(st)@.envs.len() <= final(st)@.envs.len(),
        match r {
            Ok(v) => eval_ast_s(old(st)@, ast@, env.id as int, fuel as nat) == Some(
                (Ok::<SpecVal, SpecEvalError>(v@), final(st)@),
            ),
            Err(e) => if e is DepthExceeded {
                eval_ast_s(old(st)@, ast@, env.id as int, fuel as nat) is None
            } else {
                eval_ast_s(old(st)@, ast@, env.id as int, fuel as nat) == Some(
                    (Err::<SpecVal, SpecEvalError>(e@), final(st)@),
                )
            },
        },
    decreases fuel, 2int,
{
    let ghost astv = ast@;
    match ast {
        MalType::Symbol(name) => {
            let r = env.get(&st.envs, name.as_str());
            match r {
                Some(v) => Ok(v),
                None => Err(EvalError::NotFound(name)),
            }
        },
        MalType::L(kind, items) => {
            proof {
                assert(astv->L_1 =~= items.deep_view());
            }
            match eval_elems(st, &items, env, fuel) {
                Ok(vs) => {
                    let ghost vsv = vs.deep_view();
                    let v = MalType::L(kind, vs);
                    proof {
                        assert(v@->L_1 =~= vsv);
                        assert(v@ =~~= SpecVal::L(kind, vsv));
                    }
                    Ok(v)
                },
                Err(e) => Err(e),
            }
        },
        MalType::HashMap(entries) => {
            proof {
                assert(astv->HashMap_0 =~= crate::types::hm_view(entries@));
            }
            match eval_hm(st, &entries, env, fuel) {
                Ok(es) => {
                    let ghost esv = crate::types::hm_view(es@);
                    let v = MalType::HashMap(es);
                    proof {
                        assert(v@->HashMap_0 =~= esv);
                        assert(v@ =~~= SpecVal::HashMap(esv));
                    }
                    Ok(v)
                },
                Err(e) => Err(e),
            }
        },
        other => {
            proof {
                assert(!(astv is Symbol) && !(astv is L) && !(astv is HashMap));
            }
            Ok(other)
        },
    }
}

/// Evaluate `ast` in scope `env`. The loop rewrites the tail positions of
/// `let*`, `do`, `if` and closure application in place, so Lisp-level tail
/// recursion does not grow the host stack; `fuel` bounds the number of
/// evaluator steps and an exhausted budget reports `DepthExceeded`.
#[verifier::rlimit(100)]
pub fn eval(st: &mut Interp, ast: MalType, env: Env, fuel: u64) -> (r: Result<MalType, EvalError>)
    requires
        arena_wf(old(st)@.envs),
        env.id < old(st)@.envs.len(),
    ensures
        arena_wf(final(st)@.envs),
        old(st)@.envs.len() <= final(st)@.envs.len(),
        match r {
            Ok(v) => eval_s(old(st)@, ast@, env.id as int, fuel as nat) == Some(
                (Ok::<SpecVal, SpecEvalError>(v@), final(st)@),
            ),
            Err(e) => if e is DepthExceeded {
                eval_s(old(st)@, ast@, env.id as int, fuel as nat) is None
            } else {
                eval_s(old(st)@, ast@, env.id as int, fuel as nat) == Some(
                    (Err::<SpecVal, SpecEvalError>(e@), final(st)@),
                )
            },
        },
    decreases fuel, 0int,
{
    let ghost target = eval_s(old(st)@, ast@, env.id as int, fuel as nat);
    let mut cur_ast = ast;
    let mut cur_env = env;
    let mut cur_fuel = fuel;
    loop
        invariant
            arena_wf(st@.envs),
            cur_env.id < st@.envs.len(),
            old(st)@.envs.len() <= st@.envs.len(),
            cur_fuel <= fuel,
            target == eval_s(old(st)@, ast@, env.id as int, fuel as nat),
            target == eval_s(st@, cur_ast@, cur_env.id as int, cur_fuel as nat),
        decreases cur_fuel,
    {
        let ghost pre = st@;
        let ghost curv = cur_ast@;
        let ghost eid = cur_env.id as int;
        let ghost cf = cur_fuel as nat;
        if cur_fuel == 0 {
            proof {
                assert(target is None);
            }
            return Err(EvalError::DepthExceeded);
        }
        let f1 = cur_fuel - 1;
        let ghost f1n = (cf - 1) as nat;
        match cur_ast {
            MalType::L(ListKind::List, items) => {
                let ghost itemsv = curv->L_1;
                proof {
                    assert(itemsv =~= items.deep_view());
                }
                if items.len() == 0 {
                    let v = MalType::L(ListKind::List, items);
                    proof {
                        assert(v@ =~~= curv);
                        assert(target == Some((Ok::<SpecVal, SpecEvalError>(v@), st@)));
                    }
                    return Ok(v);
                }
                proof {
                    assert(itemsv[0] == items@[0]@);
                }
                if is_special_atom(&items[0]) {
                    if sym_text_is(&items[0], "def!") {
                        proof {
                            reveal_strlit("def!");
                            assert("def!"@ =~= sym_def());
                        }
                        if items.len() < 3 {
                            proof {
                                assert(target == Some(
                                    (Err::<SpecVal, SpecEvalError>(SpecEvalError::InvalidForm), st@),
                                ));
                            }
                            return Err(EvalError::InvalidForm);
                        }
                        proof {
                            assert(itemsv[1] == items@[1]@);
                            assert(itemsv[2] == items@[2]@);
                        }
                        let name = match &items[1] {
                            MalType::Symbol(s) => s.clone(),
                            _ => {
                                proof {
                                    assert(target == Some(
                                        (
                                            Err::<SpecVal, SpecEvalError>(
                                                SpecEvalError::DefNonVariable,
                                            ),
                                            st@,
                                        ),
                                    ));
                                }
                                return Err(EvalError::DefNonVariable);
                            },
                        };
                        let v = match eval(st, items[2].duplicate(), cur_env, f1) {
                            Ok(v) => v,
                            Err(e) => {
                                proof {
                                    if e is DepthExceeded {
                                        assert(target is None);
                                    } else {
                                        assert(target == Some(
                                            (Err::<SpecVal, SpecEvalError>(e@), st@),
                                        ));
                                    }
                                }
                                return Err(e);
                            },
                        };
                        let ghost st2 = st@;
                        let v2 = v.duplicate();
                        cur_env.set(&mut st.envs, name, v2);
                        proof {
                            assert(st@ =~~= SpecInterp {
                                envs: env_set_s(st2.envs, eid, itemsv[1]->Symbol_0, v@),
                                ..st2
                            });
                            assert(target == Some((Ok::<SpecVal, SpecEvalError>(v@), st@)));
                        }
                        return Ok(v);
                    } else if sym_text_is(&items[0], "do") {
                        proof {
                            reveal_strlit("do");
                            assert("do"@ =~= sym_do());
                        }
                        if items.len() == 1 {
                            proof {
                                assert(target == Some(
                                    (Ok::<SpecVal, SpecEvalError>(SpecVal::Nil), st@),
                                ));
                            }
                            return Ok(MalType::Nil);
                        }
                        let n = items.len();
                        proof {
                            assert(target == (match eval_do_s(st@, itemsv, 1, eid, f1n) {
                                None => None,
                                Some((Err(e), s)) => Some((Err(e), s)),
                                Some((Ok(u), s)) => eval_s(s, itemsv[n - 1], eid, f1n),
                            }));
                        }
                        let mut k: usize = 1;
                        while k < n - 1
                            invariant
                                arena_wf(st@.envs),
                                cur_env.id < st@.envs.len(),
                                old(st)@.envs.len() <= st@.envs.len(),
                                target == eval_s(old(st)@, ast@, env.id as int, fuel as nat),
                                1 <= k <= n - 1,
                                n == items@.len(),
                                n >= 2,
                                itemsv == items.deep_view(),
                                eid == cur_env.id as int,
                                f1 < fuel,
                                f1n == f1 as nat,
                                target == (match eval_do_s(st@, itemsv, k as int, eid, f1n) {
                                    None => None,
                                    Some((Err(e), s)) => Some((Err(e), s)),
                                    Some((Ok(u), s)) => eval_s(s, itemsv[n - 1], eid, f1n),
                                }),
                            decreases n - 1 - k,
                        {
                            let ghost st_k = st@;
                            proof {
                                assert(itemsv[k as int] == items@[k as int]@);
                            }
                            match eval(st, items[k].duplicate(), cur_env, f1) {
                                Ok(_) => {},
                                Err(e) => {
                                    proof {
                                        if e is DepthExceeded {
                                            assert(eval_do_s(st_k, itemsv, k as int, eid, f1n)
                                                is None);
                                            assert(target is None);
                                        } else {
                                            assert(eval_do_s(st_k, itemsv, k as int, eid, f1n)
                                                == Some((Err::<(), SpecEvalError>(e@), st@)));
                                            assert(target == Some(
                                                (Err::<SpecVal, SpecEvalError>(e@), st@),
                                            ));
                                        }
                                    }
                                    return Err(e);
                                },
                            }
                            proof {
                                assert(eval_do_s(st_k, itemsv, k as int, eid, f1n) == eval_do_s(
                                    st@,
                                    itemsv,
                                    k + 1,
                                    eid,
                                    f1n,
                                ));
                            }
                            k = k + 1;
                        }
                        proof {
                            assert(itemsv[n - 1] == items@[n - 1]@);
                            assert(eval_do_s(st@, itemsv, (n - 1) as int, eid, f1n) == Some(
                                (Ok::<(), SpecEvalError>(()), st@),
                            ));
                        }
                        cur_ast = items[items.len() - 1].duplicate();
                        cur_fuel = f1;
                        proof {
                            assert(target == eval_s(st@, cur_ast@, cur_env.id as int, f1n));
                        }
                    } else if sym_text_is(&items[0], "fn*") {
                        proof {
                            reveal_strlit("fn*");
                            assert("fn*"@ =~= sym_fn());
                        }
                        if items.len() < 3 {
                            proof {
                                assert(target == Some(
                                    (Err::<SpecVal, SpecEvalError>(SpecEvalError::InvalidForm), st@),
                                ));
                            }
                            return Err(EvalError::InvalidForm);
                        }
                        proof {
                            assert(itemsv[1] == items@[1]@);
                            assert(itemsv[2] == items@[2]@);
                        }
                        let ps = match &items[1] {
                            MalType::L(_, ps) => ps,
                            _ => {
                                proof {
                                    assert(target == Some(
                                        (
                                            Err::<SpecVal, SpecEvalError>(
                                                SpecEvalError::FnParamList,
                                            ),
                                            st@,
                                        ),
                                    ));
                                }
                                return Err(EvalError::FnParamList);
                            },
                        };
                        let ghost psv = itemsv[1]->L_1;
                        proof {
                            assert(psv =~= ps.deep_view());
                        }
                        let m = ps.len();
                        let mut names: Vec<String> = Vec::new();
                        let mut k: usize = 0;
                        while k < m
                            invariant
                                arena_wf(st@.envs),
                                old(st)@.envs.len() <= st@.envs.len(),
                                target == eval_s(old(st)@, ast@, env.id as int, fuel as nat),
                                k <= m,
                                m == ps@.len(),
                                psv == ps.deep_view(),
                                st@ == pre,
                                target == eval_s(pre, curv, eid, cf),
                                cf >= 1,
                                f1n == (cf - 1) as nat,
                                curv is L && curv->L_0 == ListKind::List,
                                itemsv == curv->L_1,
                                itemsv.len() >= 3,
                                is_special(itemsv[0]),
                                itemsv[0]->Symbol_0 == sym_fn(),
                                itemsv[1] is L,
                                psv == itemsv[1]->L_1,
                                names@.len() == k,
                                forall|j: int| 0 <= j < k ==> (#[trigger] psv[j]) is Symbol
                                    && names.deep_view()[j] == psv[j]->Symbol_0,
                            decreases m - k,
                        {
                            let ghost prevn = names.deep_view();
                            proof {
                                assert(psv[k as int] == ps@[k as int]@);
                            }
                            match &ps[k] {
                                MalType::Symbol(s) => {
                                    names.push(s.clone());
                                },
                                _ => {
                                    proof {
                                        assert(!all_symbols(psv));
                                        assert(target == Some(
                                            (
                                                Err::<SpecVal, SpecEvalError>(
                                                    SpecEvalError::FnParamName,
                                                ),
                                                st@,
                                            ),
                                        ));
                                    }
                                    return Err(EvalError::FnParamName);
                                },
                            }
                            proof {
                                assert(names.deep_view() =~= prevn.push(psv[k as int]->Symbol_0));
                            }
                            k = k + 1;
                        }
                        if st.next_fn_id == u64::MAX {
                            proof {
                                assert(all_symbols(psv));
                                assert(target == Some(
                                    (
                                        Err::<SpecVal, SpecEvalError>(SpecEvalError::IdsExhausted),
                                        st@,
                                    ),
                                ));
                            }
                            return Err(EvalError::IdsExhausted);
                        }
                        let id = st.next_fn_id;
                        st.next_fn_id = id + 1;
                        let body = items[2].duplicate();
                        let v = MalType::TCOFunction {
                            fn_id: id,
                            params: names,
                            body: Box::new(body),
                            env: cur_env,
                        };
                        proof {
                            assert(all_symbols(psv));
                            assert(v@->TCOFunction_params =~= symbol_names(psv));
                            assert(v@ =~~= SpecVal::TCOFunction {
                                fn_id: id,
                                params: symbol_names(psv),
                                body: Box::new(itemsv[2]),
                                env: Env { id: eid as usize },
                            });
                            assert(st@ =~~= SpecInterp {
                                next_fn_id: (pre.next_fn_id + 1) as u64,
                                ..pre
                            });
                            assert(target == Some((Ok::<SpecVal, SpecEvalError>(v@), st@)));
                        }
                        return Ok(v);
                    } else if sym_text_is(&items[0], "if") {
                        proof {
                            reveal_strlit("if");
                            assert("if"@ =~= sym_if());
                        }
                        if items.len() < 3 {
                            proof {
                                assert(target == Some(
                                    (Err::<SpecVal, SpecEvalError>(SpecEvalError::InvalidForm), st@),
                                ));
                            }
                            return Err(EvalError::InvalidForm);
                        }
                        proof {
                            assert(itemsv[1] == items@[1]@);
                            assert(itemsv[2] == items@[2]@);
                            if items@.len() >= 4 {
                                assert(itemsv[3] == items@[3]@);
                            }
                        }
                        let c = match eval(st, items[1].duplicate(), cur_env, f1) {
                            Ok(c) => c,
                            Err(e) => {
                                proof {
                                    if e is DepthExceeded {
                                        assert(target is None);
                                    } else {
                                        assert(target == Some(
                                            (Err::<SpecVal, SpecEvalError>(e@), st@),
                                        ));
                                    }
                                }
                                return Err(e);
                            },
                        };
                        let truthy = match &c {
                            MalType::Bool(b) => *b,
                            MalType::Nil => false,
                            _ => true,
                        };
                        proof {
                            assert(truthy == !(c@ == SpecVal::Bool(false) || c@ == SpecVal::Nil));
                        }
                        cur_ast = if truthy {
                            items[2].duplicate()
                        } else if items.len() >= 4 {
                            items[3].duplicate()
                        } else {
                            MalType::Nil
                        };
                        cur_fuel = f1;
                        proof {
                            assert(target == eval_s(st@, cur_ast@, cur_env.id as int, f1n));
                        }
                    } else {
                        proof {
                            reveal_strlit("def!");
                            reveal_strlit("do");
                            reveal_strlit("fn*");
                            reveal_strlit("if");
                            reveal_strlit("let*");
                            assert("def!"@ =~= sym_def());
                            assert("do"@ =~= sym_do());
                            assert("fn*"@ =~= sym_fn());
                            assert("if"@ =~= sym_if());
                            assert("let*"@ =~= sym_let());
                            assert(itemsv[0]->Symbol_0 == sym_let());
                        }
                        if items.len() < 3 {
                            proof {
                                assert(target == Some(
                                    (Err::<SpecVal, SpecEvalError>(SpecEvalError::InvalidForm), st@),
                                ));
                            }
                            return Err(EvalError::InvalidForm);
                        }
                        proof {
                            assert(itemsv[1] == items@[1]@);
                            assert(itemsv[2] == items@[2]@);
                        }
                        let bs = match &items[1] {
                            MalType::L(_, bs) => bs,
                            _ => {
                                proof {
                                    assert(target == Some(
                                        (
                                            Err::<SpecVal, SpecEvalError>(
                                                SpecEvalError::LetBindings,
                                            ),
                                            st@,
                                        ),
                                    ));
                                }
                                return Err(EvalError::LetBindings);
                            },
                        };
                        let ghost bsv = itemsv[1]->L_1;
                        proof {
                            assert(bsv =~= bs.deep_view());
                        }
                        let child = Env::new(&mut st.envs, Some(cur_env));
                        let ghost st_child = st@;
                        let ghost cid = child.id as int;
                        proof {
                            assert(st_child =~~= SpecInterp {
                                envs: pre.envs.push(
                                    SpecScope { outer: Some(eid), data: Seq::empty() },
                                ),
                                ..pre
                            });
                            assert(target == (match eval_bindings_s(st@, bsv, 0, cid, f1n) {
                                None => None,
                                Some((Err(e), s)) => Some((Err(e), s)),
                                Some((Ok(u), s)) => eval_s(s, itemsv[2], cid, f1n),
                            }));
                        }
                        let m = bs.len();
                        let mut k: usize = 0;
                        while k < m
                            invariant
                                arena_wf(st@.envs),
                                child.id < st@.envs.len(),
                                old(st)@.envs.len() <= st@.envs.len(),
                                target == eval_s(old(st)@, ast@, env.id as int, fuel as nat),
                                k <= m,
                                m == bs@.len(),
                                bsv == bs.deep_view(),
                                cid == child.id as int,
                                f1 < fuel,
                                f1n == f1 as nat,
                                target == (match eval_bindings_s(st@, bsv, k as int, cid, f1n) {
                                    None => None,
                                    Some((Err(e), s)) => Some((Err(e), s)),
                                    Some((Ok(u), s)) => eval_s(s, itemsv[2], cid, f1n),
                                }),
                            decreases m - k,
                        {
                            proof {
                                assert(bsv[k as int] == bs@[k as int]@);
                                if k + 1 < m {
                                    assert(bsv[k + 1] == bs@[k + 1]@);
                                }
                            }
                            let name = match &bs[k] {
                                MalType::Symbol(s) => s.clone(),
                                _ => {
                                    proof {
                                        assert(target == Some(
                                            (
                                                Err::<SpecVal, SpecEvalError>(
                                                    SpecEvalError::LetBindingSymbol,
                                                ),
                                                st@,
                                            ),
                                        ));
                                    }
                                    return Err(EvalError::LetBindingSymbol);
                                },
                            };
                            if k + 1 >= m {
                                proof {
                                    assert(target == Some(
                                        (
                                            Err::<SpecVal, SpecEvalError>(
                                                SpecEvalError::LetNoValue(bsv[k as int]->Symbol_0),
                                            ),
                                            st@,
                                        ),
                                    ));
                                }
                                return Err(EvalError::LetNoValue(name));
                            }
                            let ghost st_bind = st@;
                            let v = match eval(st, bs[k + 1].duplicate(), child, f1) {
                                Ok(v) => v,
                                Err(e) => {
                                    proof {
                                        if e is DepthExceeded {
                                            assert(eval_bindings_s(st_bind, bsv, k as int, cid, f1n)
                                                is None);
                                            assert(target is None);
                                        } else {
                                            assert(eval_bindings_s(st_bind, bsv, k as int, cid, f1n)
                                                == Some((Err::<(), SpecEvalError>(e@), st@)));
                                            assert(target == Some(
                                                (Err::<SpecVal, SpecEvalError>(e@), st@),
                                            ));
                                        }
                                    }
                                    return Err(e);
                                },
                            };
                            let ghost st_after = st@;
                            let ghost vv = v@;
                            child.set(&mut st.envs, name, v);
                            proof {
                                assert(st@ =~~= SpecInterp {
                                    envs: env_set_s(st_after.envs, cid, bsv[k as int]->Symbol_0, vv),
                                    ..st_after
                                });
                                assert(eval_bindings_s(st_bind, bsv, k as int, cid, f1n)
                                    == eval_bindings_s(st@, bsv, k + 2, cid, f1n));
                            }
                            k = k + 2;
                        }
                        proof {
                            assert(eval_bindings_s(st@, bsv, k as int, cid, f1n) == Some(
                                (Ok::<(), SpecEvalError>(()), st@),
                            ));
                        }
                        cur_ast = items[2].duplicate();
                        cur_env = child;
                        cur_fuel = f1;
                        proof {
                            assert(target == eval_s(st@, cur_ast@, cur_env.id as int, f1n));
                        }
                    }
                } else {
                    let vals = match eval_elems(st, &items, cur_env, f1) {
                        Ok(vs) => vs,
                        Err(e) => {
                            proof {
                                if e is DepthExceeded {
                                    assert(target is None);
                                } else {
                                    assert(target == Some(
                                        (Err::<SpecVal, SpecEvalError>(e@), st@),
                                    ));
                                }
                            }
                            return Err(e);
                        },
                    };
                    let ghost st_mid = st@;
                    let mut vals = vals;
                    let ghost valsv = vals.deep_view();
                    proof {
                        lemma_eval_seq_len(pre, itemsv, 0, eid, f1n);
                        assert(valsv.len() == itemsv.len());
                    }
                    let head = vals.remove(0);
                    proof {
                        assert(vals.deep_view() =~= valsv.drop_first());
                        assert(head@ == valsv[0]);
                    }
                    match head {
                        MalType::Function(op) => {
                            let r = apply_native(st, op, vals);
                            match r {
                                Ok(v) => {
                                    proof {
                                        assert(target == Some(
                                            (Ok::<SpecVal, SpecEvalError>(v@), st@),
                                        ));
                                    }
                                    return Ok(v);
                                },
                                Err(e) => {
                                    proof {
                                        assert(!(e is DepthExceeded));
                                        assert(target == Some(
                                            (Err::<SpecVal, SpecEvalError>(e@), st@),
                                        ));
                                    }
                                    return Err(e);
                                },
                            }
                        },
                        MalType::TCOFunction { fn_id: _, params, body, env: closed } => {
                            let ghost paramsv = valsv[0]->TCOFunction_params;
                            let ghost bodyv = valsv[0]->TCOFunction_body;
                            proof {
                                assert(paramsv =~= params.deep_view());
                                assert(closed == valsv[0]->TCOFunction_env);
                                assert(body@ == *bodyv);
                            }
                            if closed.id >= st.envs.scopes.len() {
                                proof {
                                    assert(target == Some(
                                        (
                                            Err::<SpecVal, SpecEvalError>(SpecEvalError::LostScope),
                                            st@,
                                        ),
                                    ));
                                }
                                return Err(EvalError::LostScope);
                            }
                            let newenv = match gen_env_from_param_app(
                                &mut st.envs,
                                Some(closed),
                                &params,
                                vals,
                            ) {
                                Ok(e) => e,
                                Err(e) => {
                                    proof {
                                        assert(!(e is DepthExceeded));
                                        assert(st@ =~~= SpecInterp {
                                            envs: gen_env_s(
                                                st_mid.envs,
                                                Some(closed.id as int),
                                                paramsv,
                                                valsv.drop_first(),
                                            ).1,
                                            ..st_mid
                                        });
                                        assert(target == Some(
                                            (Err::<SpecVal, SpecEvalError>(e@), st@),
                                        ));
                                    }
                                    return Err(e);
                                },
                            };
                            proof {
                                assert(st@ =~~= SpecInterp {
                                    envs: gen_env_s(
                                        st_mid.envs,
                                        Some(closed.id as int),
                                        paramsv,
                                        valsv.drop_first(),
                                    ).1,
                                    ..st_mid
                                });
                            }
                            cur_ast = *body;
                            cur_env = newenv;
                            cur_fuel = f1;
                            proof {
                                assert(target == eval_s(st@, cur_ast@, cur_env.id as int, f1n));
                            }
                        },
                        _ => {
                            proof {
                                assert(!(valsv[0] is Function) && !(valsv[0] is TCOFunction));
                                assert(target == Some(
                                    (
                                        Err::<SpecVal, SpecEvalError>(SpecEvalError::NotAFunction),
                                        st@,
                                    ),
                                ));
                            }
                            return Err(EvalError::NotAFunction);
                        },
                    }
                }
            },
            other => {
                proof {
                    assert(!(curv is L && curv->L_0 == ListKind::List));
                    assert(target == (match eval_ast_s(pre, curv, eid, f1n) {
                        None => None,
                        Some((res, s)) => Some((res, s)),
                    }));
                }
                let r = eval_ast(st, other, cur_env, f1);
                match r {
                    Ok(v) => {
                        proof {
                            assert(target == Some((Ok::<SpecVal, SpecEvalError>(v@), st@)));
                        }
                        return Ok(v);
                    },
                    Err(e) => {
                        proof {
                            if e is DepthExceeded {
                                assert(target is None);
                            } else {
                                assert(target == Some((Err::<SpecVal, SpecEvalError>(e@), st@)));
                            }
                        }
                        return Err(e);
                    },
                }
            },
        }
    }
}

} // verus!
