use vstd::prelude::*;

use crate::env::arena_wf;
use crate::env::assoc_find;
use crate::env::env_lookup;
use crate::env::SpecScope;
use crate::eval::env_set_s;
use crate::eval::eval_bindings_s;
use crate::eval::eval_s;
use crate::stdlib::SpecInterp;
use crate::types::ListKind;
use crate::num::all_digits;
use crate::num::dec_digits;
use crate::num::dec_val;
use crate::num::is_digit;
use crate::num::lemma_dec_digits_val;
use crate::printer::escape_str;
use crate::printer::print_spec;
use crate::reader::atom_spec;
use crate::reader::is_run_char;
use crate::reader::is_single;
use crate::reader::read_form_spec;
use crate::reader::read_str_spec;
use crate::reader::run_end;
use crate::reader::str_body_end;
use crate::reader::tokenize_spec;
use crate::reader::tokens_from;
use crate::reader::unescape_from;
use crate::reader::ReadErr;
use crate::types::SpecVal;

verus! {

/// Binding a name in a later scope never changes what an earlier scope's
/// chain resolves: a `let*` child shadows without mutating its parents.
pub proof fn lemma_child_binding_preserves_outer(
    a: Seq<SpecScope>,
    p: int,
    c: int,
    bname: Seq<char>,
    v: SpecVal,
    name: Seq<char>,
)
    requires
        arena_wf(a),
        0 <= p < c < a.len(),
    ensures
        env_lookup(env_set_s(a, c, bname, v), p, name) == env_lookup(a, p, name),
    decreases p,
{
    let a2 = env_set_s(a, c, bname, v);
    assert(a2[p] == a[p]);
    match assoc_find(a[p].data, name) {
        Some(_) => {},
        None => {
            match a[p].outer {
                Some(o) => {
                    if 0 <= o < p {
                        lemma_child_binding_preserves_outer(a, o, c, bname, v, name);
                    }
                },
                None => {},
            }
        },
    }
}

/// A run of token characters extends to the end of the text.
proof fn lemma_run_end_all(s: Seq<char>, i: int)
    requires
        0 <= i <= s.len(),
        forall|j: int| i <= j < s.len() ==> is_run_char(#[trigger] s[j]),
    ensures
        run_end(s, i) == s.len(),
    decreases s.len() - i,
{
    if i < s.len() {
        lemma_run_end_all(s, i + 1);
    }
}

/// A text made of one run of token characters is one token.
proof fn lemma_single_run_token(s: Seq<char>)
    requires
        s.len() >= 1,
        forall|j: int| 0 <= j < s.len() ==> is_run_char(#[trigger] s[j]),
        !is_single(s[0]),
    ensures
        tokenize_spec(s) =~= seq![s],
{
    lemma_run_end_all(s, 1);
    assert(s.subrange(0, s.len() as int) =~= s);
    assert(tokens_from(s, s.len() as int) =~= Seq::<Seq<char>>::empty());
    assert(!(s[0] == '~' && 1 < s.len() && s[1] == '@'));
    assert(tokens_from(s, 0) =~= seq![s]);
}

/// The scanner runs to the end of a rendered string token: every escaped pair
/// is skipped whole, and the closing quote is the last character.
proof fn lemma_body_end(s: Seq<char>, i: int, t: Seq<char>)
    requires
        0 <= i <= s.len(),
        s.skip(i) =~= escape_str(t) + seq!['"'],
    ensures
        str_body_end(s, i) == s.len(),
    decreases t.len(),
{
    if t.len() == 0 {
        assert(escape_str(t) =~= Seq::<char>::empty());
        assert(s.skip(i).len() == 1);
        assert(s.skip(i)[0] == s[i]);
        assert((escape_str(t) + seq!['"'])[0] == '"');
        assert(s[i] == '"');
        assert(i == s.len() - 1);
    } else {
        let c = t[0];
        let rest = t.drop_first();
        let e = crate::printer::esc_char(c);
        assert(escape_str(t) == e + escape_str(rest));
        assert(s.skip(i) =~= e + (escape_str(rest) + seq!['"']));
        assert(s.skip(i).len() == e.len() + escape_str(rest).len() + 1);
        if c == '\n' || c == '"' || c == '\\' {
            assert(e.len() == 2);
            assert(e[0] == '\\');
            assert(s.skip(i)[0] == s[i]);
            assert(s.skip(i)[0] == e[0]);
            assert(s[i] == '\\');
            assert(i + 2 < s.len() + 1);
            assert(i + 1 < s.len());
            assert(s.skip(i + 2) =~= escape_str(rest) + seq!['"']) by {
                assert forall|j: int| 0 <= j < s.len() - i - 2 implies s.skip(i + 2)[j] == (
                escape_str(rest) + seq!['"'])[j] by {
                    assert(s.skip(i + 2)[j] == s[i + 2 + j]);
                    assert(s.skip(i)[j + 2] == s[i + 2 + j]);
                    assert((e + (escape_str(rest) + seq!['"']))[j + 2] == (escape_str(rest)
                        + seq!['"'])[j]);
                }
            }
            lemma_body_end(s, i + 2, rest);
        } else {
            assert(e =~= seq![c]);
            assert(s.skip(i)[0] == s[i]);
            assert(s.skip(i)[0] == c);
            assert(s[i] == c);
            assert(c != '"' && c != '\\');
            assert(s.skip(i + 1) =~= escape_str(rest) + seq!['"']) by {
                assert forall|j: int| 0 <= j < s.len() - i - 1 implies s.skip(i + 1)[j] == (
                escape_str(rest) + seq!['"'])[j] by {
                    assert(s.skip(i + 1)[j] == s[i + 1 + j]);
                    assert(s.skip(i)[j + 1] == s[i + 1 + j]);
                    assert((e + (escape_str(rest) + seq!['"']))[j + 1] == (escape_str(rest)
                        + seq!['"'])[j]);
                }
            }
            lemma_body_end(s, i + 1, rest);
        }
    }
}

/// Resolving the escapes of a rendered string gives back its body.
proof fn lemma_unescape_escape(s: Seq<char>, i: int, t: Seq<char>)
    requires
        0 <= i <= s.len(),
        s.skip(i) =~= escape_str(t) + seq!['"'],
    ensures
        unescape_from(s, i) == Ok::<Seq<char>, ReadErr>(t),
    decreases t.len(),
{
    if t.len() == 0 {
        assert(escape_str(t) =~= Seq::<char>::empty());
        assert(s.skip(i).len() == 1);
        assert(s.skip(i)[0] == s[i]);
        assert((escape_str(t) + seq!['"'])[0] == '"');
        assert(s[i] == '"');
        assert(i < s.len());
        assert(t =~= Seq::<char>::empty());
    } else {
        let c = t[0];
        let rest = t.drop_first();
        let e = crate::printer::esc_char(c);
        assert(escape_str(t) == e + escape_str(rest));
        assert(s.skip(i) =~= e + (escape_str(rest) + seq!['"']));
        assert(s.skip(i).len() == e.len() + escape_str(rest).len() + 1);
        if c == '\n' || c == '"' || c == '\\' {
            assert(e.len() == 2);
            assert(e[0] == '\\');
            assert(s.skip(i)[0] == s[i]);
            assert(s.skip(i)[0] == e[0]);
            assert(s[i] == '\\');
            assert(i + 1 < s.len());
            assert(s.skip(i)[1] == s[i + 1]);
            assert(s.skip(i)[1] == e[1]);
            assert(s[i + 1] == e[1]);
            assert(s.skip(i + 2) =~= escape_str(rest) + seq!['"']) by {
                assert forall|j: int| 0 <= j < s.len() - i - 2 implies s.skip(i + 2)[j] == (
                escape_str(rest) + seq!['"'])[j] by {
                    assert(s.skip(i + 2)[j] == s[i + 2 + j]);
                    assert(s.skip(i)[j + 2] == s[i + 2 + j]);
                    assert((e + (escape_str(rest) + seq!['"']))[j + 2] == (escape_str(rest)
                        + seq!['"'])[j]);
                }
            }
            lemma_unescape_escape(s, i + 2, rest);
            if c == '\n' {
                assert(s[i + 1] == 'n');
                assert(seq!['\n'] + rest =~= t);
            } else {
                assert(s[i + 1] == c);
                assert(c == 'n' || c == '\\' || c == '"');
                assert(seq![c] + rest =~= t);
            }
        } else {
            assert(e =~= seq![c]);
            assert(s.skip(i)[0] == s[i]);
            assert(s.skip(i)[0] == c);
            assert(s[i] == c);
            assert(c != '"' && c != '\\');
            assert(s.skip(i + 1) =~= escape_str(rest) + seq!['"']) by {
                assert forall|j: int| 0 <= j < s.len() - i - 1 implies s.skip(i + 1)[j] == (
                escape_str(rest) + seq!['"'])[j] by {
                    assert(s.skip(i + 1)[j] == s[i + 1 + j]);
                    assert(s.skip(i)[j + 1] == s[i + 1 + j]);
                    assert((e + (escape_str(rest) + seq!['"']))[j + 1] == (escape_str(rest)
                        + seq!['"'])[j]);
                }
            }
            lemma_unescape_escape(s, i + 1, rest);
            assert(seq![c] + rest =~= t);
        }
    }
}

/// A rendered string is one token: its quotes and escaped body.
proof fn lemma_string_token(t: Seq<char>)
    ensures
        tokenize_spec(seq!['"'] + escape_str(t) + seq!['"']) =~= seq![
            seq!['"'] + escape_str(t) + seq!['"'],
        ],
{
    let s = seq!['"'] + escape_str(t) + seq!['"'];
    assert(s[0] == '"');
    assert(s.skip(1) =~= escape_str(t) + seq!['"']);
    lemma_body_end(s, 1, t);
    assert(str_body_end(s, 1) == s.len());
    assert(s.len() >= 2);
    assert(s.subrange(0, s.len() as int) =~= s);
    assert(tokens_from(s, s.len() as int) =~= Seq::<Seq<char>>::empty());
    assert(tokens_from(s, 0) =~= seq![s]);
}

/// Reading a text that is one non-bracket, non-quoting token reads it as an
/// atom.
proof fn lemma_read_single_token(s: Seq<char>)
    requires
        tokenize_spec(s) =~= seq![s],
        s != seq!['('],
        s != seq!['['],
        s != seq!['{'],
        s != seq!['\''],
        s != seq!['`'],
        s != seq!['~'],
        s != seq!['~', '@'],
        s != seq!['@'],
    ensures
        read_str_spec(s) == (match atom_spec(s) {
            Ok(v) => Ok::<SpecVal, ReadErr>(v),
            Err(e) => Err::<SpecVal, ReadErr>(e),
        }),
{
    let toks = tokenize_spec(s);
    assert(toks[0] == s);
    assert(read_form_spec(toks, 0) == (match atom_spec(s) {
        Ok(v) => Ok::<(SpecVal, int), ReadErr>((v, 1)),
        Err(e) => Err::<(SpecVal, int), ReadErr>(e),
    }));
}

/// The atoms the reader accepts back: every literal except a negative number
/// (whose minus sign reads as a symbol character), with keyword and symbol
/// names made of token characters, a symbol not masquerading as another
/// literal form, and any string at all.
pub open spec fn is_readable_atom(v: SpecVal) -> bool {
    match v {
        SpecVal::Nil => true,
        SpecVal::Bool(_) => true,
        SpecVal::Number(n) => n >= 0,
        SpecVal::String(_) => true,
        SpecVal::Keyword(k) => forall|j: int| 0 <= j < k.len() ==> is_run_char(#[trigger] k[j]),
        SpecVal::Symbol(s) => s.len() > 0 && (forall|j: int|
            0 <= j < s.len() ==> is_run_char(#[trigger] s[j])) && !is_single(s[0]) && s[0] != ':'
            && !is_digit(s[0]) && s != seq!['f', 'a', 'l', 's', 'e'] && s != seq!['n', 'i', 'l']
            && s != seq!['t', 'r', 'u', 'e'],
        _ => false,
    }
}

/// Digits are token characters and start no bracket or quoting token.
proof fn lemma_digit_is_run(c: char)
    requires
        is_digit(c),
    ensures
        is_run_char(c),
        !is_single(c),
        c != ':',
        c != '"',
{
}

/// Round trip: reading the readable rendering of a literal atom gives back
/// exactly that value.
pub proof fn lemma_atom_round_trip(v: SpecVal)
    requires
        is_readable_atom(v),
    ensures
        read_str_spec(print_spec(v, true)) == Ok::<SpecVal, ReadErr>(v),
{
    let s = print_spec(v, true);
    match v {
        SpecVal::Nil => {
            assert(s =~= seq!['n', 'i', 'l']);
            assert(forall|j: int| 0 <= j < s.len() ==> is_run_char(#[trigger] s[j]));
            lemma_single_run_token(s);
            lemma_read_single_token(s);
        },
        SpecVal::Bool(b) => {
            if b {
                assert(s =~= seq!['t', 'r', 'u', 'e']);
            } else {
                assert(s =~= seq!['f', 'a', 'l', 's', 'e']);
            }
            assert(forall|j: int| 0 <= j < s.len() ==> is_run_char(#[trigger] s[j]));
            lemma_single_run_token(s);
            lemma_read_single_token(s);
            assert(seq!['t', 'r', 'u', 'e'] != seq!['f', 'a', 'l', 's', 'e']);
            assert(seq!['t', 'r', 'u', 'e'] != seq!['n', 'i', 'l']);
            assert(seq!['f', 'a', 'l', 's', 'e'] != seq!['n', 'i', 'l']);
        },
        SpecVal::Number(n) => {
            assert(s == dec_digits(n as nat));
            lemma_dec_digits_val(n as nat);
            assert(all_digits(s));
            assert(is_digit(s[0]));
            assert forall|j: int| 0 <= j < s.len() implies is_run_char(#[trigger] s[j]) by {
                lemma_digit_is_run(s[j]);
            }
            lemma_digit_is_run(s[0]);
            lemma_single_run_token(s);
            lemma_read_single_token(s);
            assert(s != seq!['f', 'a', 'l', 's', 'e']) by {
                if s == seq!['f', 'a', 'l', 's', 'e'] {
                    assert(is_digit('f'));
                }
            }
            assert(s != seq!['n', 'i', 'l']) by {
                if s == seq!['n', 'i', 'l'] {
                    assert(is_digit('n'));
                }
            }
            assert(s != seq!['t', 'r', 'u', 'e']) by {
                if s == seq!['t', 'r', 'u', 'e'] {
                    assert(is_digit('t'));
                }
            }
            assert(atom_spec(s) == Ok::<SpecVal, ReadErr>(SpecVal::Number(dec_val(s) as i64)));
            assert(dec_val(s) == n);
        },
        SpecVal::Keyword(k) => {
            assert(s =~= seq![':'] + k);
            assert(s[0] == ':');
            assert forall|j: int| 0 <= j < s.len() implies is_run_char(#[trigger] s[j]) by {
                if j > 0 {
                    assert(s[j] == k[j - 1]);
                }
            }
            lemma_single_run_token(s);
            lemma_read_single_token(s);
            assert(s != seq!['f', 'a', 'l', 's', 'e']) by {
                if s == seq!['f', 'a', 'l', 's', 'e'] {
                    assert(s[0] == 'f');
                }
            }
            assert(s != seq!['n', 'i', 'l']) by {
                if s == seq!['n', 'i', 'l'] {
                    assert(s[0] == 'n');
                }
            }
            assert(s != seq!['t', 'r', 'u', 'e']) by {
                if s == seq!['t', 'r', 'u', 'e'] {
                    assert(s[0] == 't');
                }
            }
            assert(s.drop_first() =~= k);
        },
        SpecVal::Symbol(sy) => {
            assert(s == sy);
            lemma_single_run_token(s);
            lemma_read_single_token(s);
            assert(s[0] != '"');
            assert(atom_spec(s) == Ok::<SpecVal, ReadErr>(SpecVal::Symbol(sy)));
        },
        SpecVal::String(t) => {
            assert(s =~= seq!['"'] + escape_str(t) + seq!['"']);
            lemma_string_token(t);
            assert(tokenize_spec(s) =~= seq![s]);
            assert(s[0] == '"');
            lemma_read_single_token(s);
            assert(s != seq!['f', 'a', 'l', 's', 'e']) by {
                if s == seq!['f', 'a', 'l', 's', 'e'] {
                    assert(s[0] == 'f');
                }
            }
            assert(s != seq!['n', 'i', 'l']) by {
                if s == seq!['n', 'i', 'l'] {
                    assert(s[0] == 'n');
                }
            }
            assert(s != seq!['t', 'r', 'u', 'e']) by {
                if s == seq!['t', 'r', 'u', 'e'] {
                    assert(s[0] == 't');
                }
            }
            assert(s.skip(1) =~= escape_str(t) + seq!['"']);
            lemma_unescape_escape(s, 1, t);
            assert(atom_spec(s) == Ok::<SpecVal, ReadErr>(SpecVal::String(t)));
        },
        _ => {},
    }
}

/// Binding a name makes it the first find in that scope.
proof fn lemma_assoc_find_after_set(
    data: Seq<(Seq<char>, SpecVal)>,
    k: Seq<char>,
    v: SpecVal,
)
    ensures
        assoc_find(crate::env::assoc_set(data, k, v), k) == Some(v),
    decreases data.len(),
{
    let d2 = crate::env::assoc_set(data, k, v);
    if data.len() == 0 {
        assert(d2 == seq![(k, v)]);
        assert(d2[0] == (k, v));
    } else if data[0].0 == k {
        assert(d2 == seq![(k, v)] + data.drop_first());
        assert(d2[0] == (k, v));
    } else {
        lemma_assoc_find_after_set(data.drop_first(), k, v);
        assert(d2 == seq![data[0]] + crate::env::assoc_set(data.drop_first(), k, v));
        assert(d2[0] == data[0]);
        assert(d2.drop_first() =~= crate::env::assoc_set(data.drop_first(), k, v));
    }
}

/// In one `let*`, a later binding's value expression sees the bindings made
/// before it in the same growing scope: for distinct names, binding the first
/// and then binding the second to the first's name carries the value across,
/// and the body reads it back.
pub proof fn lemma_let_later_sees_earlier(
    st: SpecInterp,
    nx: Seq<char>,
    ny: Seq<char>,
    ax: SpecVal,
    env: int,
    fuel: nat,
)
    requires
        nx != ny,
        fuel >= 2,
        0 <= env < st.envs.len(),
    ensures
        ({
            let form = SpecVal::L(
                ListKind::List,
                seq![
                    SpecVal::Symbol(crate::eval::sym_let()),
                    SpecVal::L(
                        ListKind::List,
                        seq![
                            SpecVal::Symbol(nx),
                            ax,
                            SpecVal::Symbol(ny),
                            SpecVal::Symbol(nx),
                        ],
                    ),
                    SpecVal::Symbol(ny),
                ],
            );
            let child = st.envs.len() as int;
            let st2 = SpecInterp {
                envs: st.envs.push(SpecScope { outer: Some(env), data: Seq::empty() }),
                ..st
            };
            match eval_s(st2, ax, child, (fuel - 1) as nat) {
                Some((Ok(v), st3)) => match eval_s(st, form, env, fuel) {
                    Some((Ok(r), _)) => r == v,
                    _ => false,
                },
                _ => true,
            }
        }),
{
    let f1 = (fuel - 1) as nat;
    let form = SpecVal::L(
        ListKind::List,
        seq![
            SpecVal::Symbol(crate::eval::sym_let()),
            SpecVal::L(
                ListKind::List,
                seq![SpecVal::Symbol(nx), ax, SpecVal::Symbol(ny), SpecVal::Symbol(nx)],
            ),
            SpecVal::Symbol(ny),
        ],
    );
    let items = form->L_1;
    let bs = items[1]->L_1;
    let child = st.envs.len() as int;
    let st2 = SpecInterp {
        envs: st.envs.push(SpecScope { outer: Some(env), data: Seq::empty() }),
        ..st
    };
    assert(crate::eval::is_special(items[0]));
    assert(items[0]->Symbol_0 == crate::eval::sym_let());
    assert(crate::eval::sym_let() != crate::eval::sym_def());
    assert(crate::eval::sym_let() != crate::eval::sym_do());
    assert(crate::eval::sym_let() != crate::eval::sym_fn());
    assert(crate::eval::sym_let() != crate::eval::sym_if());
    match eval_s(st2, ax, child, f1) {
        Some((Ok(v), st3)) => {
            assert(st2.envs[child].data =~= Seq::<(Seq<char>, SpecVal)>::empty());
            // first binding: nx gets the value of ax
            let st4 = SpecInterp { envs: env_set_s(st3.envs, child, nx, v), ..st3 };
            assert(eval_bindings_s(st2, bs, 0, child, f1) == eval_bindings_s(st4, bs, 2, child, f1));
            // evaluating the second value, the symbol nx, sees that binding
            assert(0 <= child < st3.envs.len()) by {
                lemma_eval_grows(st2, ax, child, f1);
            }
            lemma_assoc_find_after_set(st3.envs[child].data, nx, v);
            assert(st4.envs[child].data == crate::env::assoc_set(st3.envs[child].data, nx, v));
            assert(env_lookup(st4.envs, child, nx) == Some(v));
            assert(crate::eval::eval_ast_s(st4, SpecVal::Symbol(nx), child, (f1 - 1) as nat)
                == Some((Ok::<SpecVal, crate::stdlib::SpecEvalError>(v), st4)));
            assert(eval_s(st4, SpecVal::Symbol(nx), child, f1) == Some(
                (Ok::<SpecVal, crate::stdlib::SpecEvalError>(v), st4),
            ));
            // the second binding carries it to ny, and the body reads ny
            let st5 = SpecInterp { envs: env_set_s(st4.envs, child, ny, v), ..st4 };
            assert(bs[2] == SpecVal::Symbol(ny));
            assert(bs[3] == SpecVal::Symbol(nx));
            assert(eval_bindings_s(st5, bs, 4, child, f1) == Some(
                (Ok::<(), crate::stdlib::SpecEvalError>(()), st5),
            ));
            assert(eval_bindings_s(st4, bs, 2, child, f1) == Some(
                (Ok::<(), crate::stdlib::SpecEvalError>(()), st5),
            ));
            lemma_assoc_find_after_set(st4.envs[child].data, ny, v);
            assert(st5.envs[child].data == crate::env::assoc_set(st4.envs[child].data, ny, v));
            assert(env_lookup(st5.envs, child, ny) == Some(v));
            assert(crate::eval::eval_ast_s(st5, SpecVal::Symbol(ny), child, (f1 - 1) as nat)
                == Some((Ok::<SpecVal, crate::stdlib::SpecEvalError>(v), st5)));
            assert(eval_s(st5, SpecVal::Symbol(ny), child, f1) == Some(
                (Ok::<SpecVal, crate::stdlib::SpecEvalError>(v), st5),
            ));
            assert(eval_s(st, form, env, fuel) == Some(
                (Ok::<SpecVal, crate::stdlib::SpecEvalError>(v), st5),
            ));
        },
        _ => {},
    }
}

/// Evaluation never discards scopes: the arena only grows.
pub proof fn lemma_eval_grows(st: SpecInterp, ast: SpecVal, env: int, fuel: nat)
    requires
        0 <= env < st.envs.len(),
    ensures
        match eval_s(st, ast, env, fuel) {
            Some((_, st2)) => st.envs.len() <= st2.envs.len(),
            None => true,
        },
    decreases fuel, 0int, 0int,
{
    if fuel > 0 {
        let f1 = (fuel - 1) as nat;
        match ast {
            SpecVal::L(ListKind::List, items) => {
                if items.len() == 0 {
                } else if crate::eval::is_special(items[0]) {
                    let head = items[0]->Symbol_0;
                    if head == crate::eval::sym_def() {
                        if items.len() >= 3 && items[1] is Symbol {
                            lemma_eval_grows(st, items[2], env, f1);
                            match eval_s(st, items[2], env, f1) {
                                Some((Ok(v), st2)) => {
                                    assert(0 <= env < st2.envs.len());
                                    assert(env_set_s(st2.envs, env, items[1]->Symbol_0, v).len()
                                        == st2.envs.len());
                                },
                                _ => {},
                            }
                        }
                    } else if head == crate::eval::sym_do() {
                        if items.len() > 1 {
                            lemma_eval_do_grows(st, items, 1, env, f1);
                            match crate::eval::eval_do_s(st, items, 1, env, f1) {
                                Some((Ok(_), st2)) => {
                                    lemma_eval_grows(st2, items[items.len() - 1], env, f1);
                                },
                                _ => {},
                            }
                        }
                    } else if head == crate::eval::sym_fn() {
                    } else if head == crate::eval::sym_if() {
                        if items.len() >= 3 {
                            lemma_eval_grows(st, items[1], env, f1);
                            match eval_s(st, items[1], env, f1) {
                                Some((Ok(c), st2)) => {
                                    let truthy = !(c == SpecVal::Bool(false) || c == SpecVal::Nil);
                                    let branch = if truthy {
                                        items[2]
                                    } else if items.len() >= 4 {
                                        items[3]
                                    } else {
                                        SpecVal::Nil
                                    };
                                    lemma_eval_grows(st2, branch, env, f1);
                                },
                                _ => {},
                            }
                        }
                    } else {
                        if items.len() >= 3 && items[1] is L {
                            let child = st.envs.len() as int;
                            let st2 = SpecInterp {
                                envs: st.envs.push(
                                    SpecScope { outer: Some(env), data: Seq::empty() },
                                ),
                                ..st
                            };
                            lemma_eval_bindings_grows(st2, items[1]->L_1, 0, child, f1);
                            match eval_bindings_s(st2, items[1]->L_1, 0, child, f1) {
                                Some((Ok(_), st3)) => {
                                    lemma_eval_grows(st3, items[2], child, f1);
                                },
                                _ => {},
                            }
                        }
                    }
                } else {
                    lemma_eval_seq_grows(st, items, 0, env, f1);
                    match crate::eval::eval_seq_s(st, items, 0, env, f1) {
                        Some((Ok(vals), st2)) => {
                            let args = vals.drop_first();
                            match vals[0] {
                                SpecVal::Function(op) => {
                                    assert(crate::stdlib::apply_native_s(st2, op, args).1.envs
                                        == st2.envs);
                                },
                                SpecVal::TCOFunction { params, body, env: closed, .. } => {
                                    if closed.id < st2.envs.len() {
                                        let made = crate::eval::gen_env_s(
                                            st2.envs,
                                            Some(closed.id as int),
                                            params,
                                            args,
                                        );
                                        match made.0 {
                                            Ok(newid) => {
                                                lemma_eval_grows(
                                                    SpecInterp { envs: made.1, ..st2 },
                                                    *body,
                                                    newid,
                                                    f1,
                                                );
                                            },
                                            Err(_) => {},
                                        }
                                    }
                                },
                                _ => {},
                            }
                        },
                        _ => {},
                    }
                }
            },
            _ => {
                lemma_eval_ast_grows(st, ast, env, f1);
            },
        }
    }
}

/// Evaluating a value outside call position never discards scopes.
pub proof fn lemma_eval_ast_grows(st: SpecInterp, ast: SpecVal, env: int, fuel: nat)
    requires
        0 <= env < st.envs.len(),
    ensures
        match crate::eval::eval_ast_s(st, ast, env, fuel) {
            Some((_, st2)) => st.envs.len() <= st2.envs.len(),
            None => true,
        },
    decreases fuel, 3int, 0int,
{
    match ast {
        SpecVal::L(_, items) => {
            lemma_eval_seq_grows(st, items, 0, env, fuel);
        },
        SpecVal::HashMap(entries) => {
            lemma_eval_hm_grows(st, entries, 0, env, fuel);
        },
        _ => {},
    }
}

/// Evaluating elements never discards scopes.
pub proof fn lemma_eval_seq_grows(
    st: SpecInterp,
    items: Seq<SpecVal>,
    i: int,
    env: int,
    fuel: nat,
)
    requires
        0 <= env < st.envs.len(),
    ensures
        match crate::eval::eval_seq_s(st, items, i, env, fuel) {
            Some((_, st2)) => st.envs.len() <= st2.envs.len(),
            None => true,
        },
    decreases fuel, 2int, items.len() - i,
{
    if 0 <= i < items.len() {
        lemma_eval_grows(st, items[i], env, fuel);
        match eval_s(st, items[i], env, fuel) {
            Some((Ok(_), st2)) => {
                lemma_eval_seq_grows(st2, items, i + 1, env, fuel);
            },
            _ => {},
        }
    }
}

/// Evaluating hash-map values never discards scopes.
pub proof fn lemma_eval_hm_grows(
    st: SpecInterp,
    entries: Seq<(crate::types::SpecHashKey, SpecVal)>,
    i: int,
    env: int,
    fuel: nat,
)
    requires
        0 <= env < st.envs.len(),
    ensures
        match crate::eval::eval_hm_s(st, entries, i, env, fuel) {
            Some((_, st2)) => st.envs.len() <= st2.envs.len(),
            None => true,
        },
    decreases fuel, 2int, entries.len() - i,
{
    if 0 <= i < entries.len() {
        lemma_eval_grows(st, entries[i].1, env, fuel);
        match eval_s(st, entries[i].1, env, fuel) {
            Some((Ok(_), st2)) => {
                lemma_eval_hm_grows(st2, entries, i + 1, env, fuel);
            },
            _ => {},
        }
    }
}

/// Evaluating the leading forms of a `do` never discards scopes.
pub proof fn lemma_eval_do_grows(
    st: SpecInterp,
    items: Seq<SpecVal>,
    i: int,
    env: int,
    fuel: nat,
)
    requires
        0 <= env < st.envs.len(),
    ensures
        match crate::eval::eval_do_s(st, items, i, env, fuel) {
            Some((_, st2)) => st.envs.len() <= st2.envs.len(),
            None => true,
        },
    decreases fuel, 2int, items.len() - i,
{
    if 0 <= i < items.len() - 1 {
        lemma_eval_grows(st, items[i], env, fuel);
        match eval_s(st, items[i], env, fuel) {
            Some((Ok(_), st2)) => {
                lemma_eval_do_grows(st2, items, i + 1, env, fuel);
            },
            _ => {},
        }
    }
}

/// Processing a binding list never discards scopes.
pub proof fn lemma_eval_bindings_grows(
    st: SpecInterp,
    bs: Seq<SpecVal>,
    i: int,
    child: int,
    fuel: nat,
)
    requires
        0 <= child < st.envs.len(),
    ensures
        match eval_bindings_s(st, bs, i, child, fuel) {
            Some((_, st2)) => st.envs.len() <= st2.envs.len(),
            None => true,
        },
    decreases fuel, 2int, bs.len() - i,
{
    if 0 <= i < bs.len() && bs[i] is Symbol && i + 1 < bs.len() {
        lemma_eval_grows(st, bs[i + 1], child, fuel);
        match eval_s(st, bs[i + 1], child, fuel) {
            Some((Ok(v), st2)) => {
                assert(0 <= child < st2.envs.len());
                assert(env_set_s(st2.envs, child, bs[i]->Symbol_0, v).len() == st2.envs.len());
                lemma_eval_bindings_grows(
                    SpecInterp {
                        envs: env_set_s(st2.envs, child, bs[i]->Symbol_0, v),
                        ..st2
                    },
                    bs,
                    i + 2,
                    child,
                    fuel,
                );
            },
            _ => {},
        }
    }
}

/// The scope an application creates chains to the closure's captured scope,
/// never the caller's: this is what makes scoping lexical.
pub proof fn lemma_application_scope_parent(
    envs: Seq<SpecScope>,
    parent: Option<int>,
    params: Seq<Seq<char>>,
    args: Seq<SpecVal>,
)
    ensures
        match crate::eval::gen_env_s(envs, parent, params, args).0 {
            Ok(id) => 0 <= id < crate::eval::gen_env_s(envs, parent, params, args).1.len()
                && crate::eval::gen_env_s(envs, parent, params, args).1[id].outer == parent,
            Err(_) => crate::eval::gen_env_s(envs, parent, params, args).1 == envs,
        },
{
}

/// A declared variadic name is bound in the fresh scope to exactly the
/// arguments left after the positional parameters, as a list; with no leftover
/// arguments it is the empty list.
pub proof fn lemma_variadic_collects_rest(
    envs: Seq<SpecScope>,
    parent: Option<int>,
    params: Seq<Seq<char>>,
    args: Seq<SpecVal>,
    regs: Seq<Seq<char>>,
    va: Seq<char>,
)
    requires
        crate::eval::split_params_s(params, 0, Seq::empty(), None) == Ok::<
            (Seq<Seq<char>>, Option<Seq<char>>),
            crate::stdlib::SpecEvalError,
        >((regs, Some(va))),
    ensures
        ({
            let made = crate::eval::gen_env_s(envs, parent, params, args);
            let rest = if regs.len() <= args.len() {
                args.skip(regs.len() as int)
            } else {
                Seq::<SpecVal>::empty()
            };
            made.0 == Ok::<int, crate::stdlib::SpecEvalError>(envs.len() as int) && assoc_find(
                made.1[envs.len() as int].data,
                va,
            ) == Some(SpecVal::L(ListKind::List, rest))
        }),
{
    let made = crate::eval::gen_env_s(envs, parent, params, args);
    let id = envs.len() as int;
    let rest = if regs.len() <= args.len() {
        args.skip(regs.len() as int)
    } else {
        Seq::<SpecVal>::empty()
    };
    let data0 = crate::env::bind_from(Seq::empty(), regs, args);
    let envs2 = envs.push(SpecScope { outer: parent, data: data0 });
    assert(envs2[id].data == data0);
    lemma_assoc_find_after_set(data0, va, SpecVal::L(ListKind::List, rest));
    assert(made.1[id].data == crate::env::assoc_set(data0, va, SpecVal::L(ListKind::List, rest)));
}


/// The root environment that `ns` builds resolves every native's name to that
/// native, with no enclosing scope.
pub proof fn lemma_ns_binds_natives(a: Seq<SpecScope>, root: int)
    requires
        0 <= root < a.len(),
        a[root] == (SpecScope { outer: None, data: crate::stdlib::ns_data() }),
    ensures
        env_lookup(a, root, seq!['+']) == Some(SpecVal::Function(crate::types::NativeOp::Add)),
        env_lookup(a, root, seq!['-']) == Some(SpecVal::Function(crate::types::NativeOp::Sub)),
        env_lookup(a, root, seq!['*']) == Some(SpecVal::Function(crate::types::NativeOp::Mul)),
        env_lookup(a, root, seq!['/']) == Some(SpecVal::Function(crate::types::NativeOp::Div)),
        env_lookup(a, root, seq!['=']) == Some(SpecVal::Function(crate::types::NativeOp::Equal)),
        env_lookup(a, root, seq!['<']) == Some(SpecVal::Function(crate::types::NativeOp::Lt)),
        env_lookup(a, root, seq!['>']) == Some(SpecVal::Function(crate::types::NativeOp::Gt)),
        env_lookup(a, root, seq!['l', 'i', 's', 't']) == Some(
            SpecVal::Function(crate::types::NativeOp::MakeList),
        ),
        env_lookup(a, root, seq!['c', 'o', 'u', 'n', 't']) == Some(
            SpecVal::Function(crate::types::NativeOp::Count),
        ),
{
    let d = crate::stdlib::ns_data();
    lemma_one_char_names_differ('+', '-');
    lemma_one_char_names_differ('+', '*');
    lemma_one_char_names_differ('-', '*');
    lemma_one_char_names_differ('+', '/');
    lemma_one_char_names_differ('-', '/');
    lemma_one_char_names_differ('*', '/');
    lemma_one_char_names_differ('+', '=');
    lemma_one_char_names_differ('-', '=');
    lemma_one_char_names_differ('*', '=');
    lemma_one_char_names_differ('/', '=');
    lemma_one_char_names_differ('+', '<');
    lemma_one_char_names_differ('-', '<');
    lemma_one_char_names_differ('*', '<');
    lemma_one_char_names_differ('/', '<');
    lemma_one_char_names_differ('=', '<');
    lemma_one_char_names_differ('+', '>');
    lemma_one_char_names_differ('-', '>');
    lemma_one_char_names_differ('*', '>');
    lemma_one_char_names_differ('/', '>');
    lemma_one_char_names_differ('=', '>');
    lemma_one_char_names_differ('<', '>');
    crate::env::lemma_assoc_find_at(d, seq!['+'], 0);
    crate::env::lemma_assoc_find_at(d, seq!['-'], 1);
    crate::env::lemma_assoc_find_at(d, seq!['*'], 2);
    crate::env::lemma_assoc_find_at(d, seq!['/'], 3);
    crate::env::lemma_assoc_find_at(d, seq!['l', 'i', 's', 't'], 4);
    crate::env::lemma_assoc_find_at(d, seq!['c', 'o', 'u', 'n', 't'], 7);
    crate::env::lemma_assoc_find_at(d, seq!['='], 8);
    crate::env::lemma_assoc_find_at(d, seq!['<'], 9);
    crate::env::lemma_assoc_find_at(d, seq!['>'], 11);
}

/// Two one-character names differ when their characters do.
proof fn lemma_one_char_names_differ(a: char, b: char)
    requires
        a != b,
    ensures
        seq![a] != seq![b],
{
    if seq![a] == seq![b] {
        assert(seq![a][0] == seq![b][0]);
    }
}

} // verus!
