use vstd::prelude::*;
use vstd::string::StrSliceExecFns;

use crate::num::num_str;
use crate::types::hm_view;
use crate::types::vals_view;
use crate::types::ListKind;
use crate::types::MalHashKey;
use crate::types::MalType;
use crate::types::SpecHashKey;
use crate::types::SpecVal;

verus! {

/// How one character of a string body renders in readable mode.
pub open spec fn esc_char(c: char) -> Seq<char> {
    if c == '\n' {
        seq!['\\', 'n']
    } else if c == '"' {
        seq!['\\', '"']
    } else if c == '\\' {
        seq!['\\', '\\']
    } else {
        seq![c]
    }
}

/// A string body with newline, quote and backslash escaped.
pub open spec fn escape_str(s: Seq<char>) -> Seq<char>
    decreases s.len(),
{
    if s.len() == 0 {
        Seq::empty()
    } else {
        esc_char(s[0]) + escape_str(s.drop_first())
    }
}

/// How a hash-map key renders: as the string or keyword value it stands for.
pub open spec fn key_str(k: SpecHashKey, readable: bool) -> Seq<char> {
    match k {
        SpecHashKey::String(s) => if readable {
            seq!['"'] + escape_str(s) + seq!['"']
        } else {
            s
        },
        SpecHashKey::Keyword(s) => seq![':'] + s,
    }
}

/// The rendering of a value. In readable mode strings are quoted and escaped
/// so that the reader accepts the text; otherwise their raw content appears.
pub open spec fn print_spec(v: SpecVal, readable: bool) -> Seq<char>
    decreases v, 0int,
{
    match v {
        SpecVal::Bool(b) => if b {
            seq!['t', 'r', 'u', 'e']
        } else {
            seq!['f', 'a', 'l', 's', 'e']
        },
        SpecVal::HashMap(entries) => seq!['{'] + join_pairs(entries, 0, readable) + seq!['}'],
        SpecVal::Keyword(s) => seq![':'] + s,
        SpecVal::L(ListKind::List, items) => seq!['('] + join_vals(items, 0, readable, seq![' '])
            + seq![')'],
        SpecVal::L(ListKind::Vector, items) => seq!['['] + join_vals(items, 0, readable, seq![' '])
            + seq![']'],
        SpecVal::Nil => seq!['n', 'i', 'l'],
        SpecVal::Number(n) => num_str(n as int),
        SpecVal::String(s) => if readable {
            seq!['"'] + escape_str(s) + seq!['"']
        } else {
            s
        },
        SpecVal::Symbol(s) => s,
        SpecVal::Function(_) => seq!['#', '<', 'f', 'u', 'n', 'c', 't', 'i', 'o', 'n', '>'],
        SpecVal::TCOFunction { .. } => seq![
            '#',
            '<',
            'f',
            'u',
            'n',
            'c',
            't',
            'i',
            'o',
            'n',
            '>',
        ],
    }
}

/// The values from position `i` on, rendered and joined by `sep`.
pub open spec fn join_vals(items: Seq<SpecVal>, i: int, readable: bool, sep: Seq<char>) -> Seq<
    char,
>
    decreases items, items.len() - i,
{
    if i < 0 || i >= items.len() {
        Seq::empty()
    } else {
        (if i > 0 {
            sep
        } else {
            Seq::empty()
        }) + print_spec(items[i], readable) + join_vals(items, i + 1, readable, sep)
    }
}

/// The entries from position `i` on, each as key, space, value, all joined by
/// single spaces.
pub open spec fn join_pairs(
    entries: Seq<(SpecHashKey, SpecVal)>,
    i: int,
    readable: bool,
) -> Seq<char>
    decreases entries, entries.len() - i,
{
    if i < 0 || i >= entries.len() {
        Seq::empty()
    } else {
        (if i > 0 {
            seq![' ']
        } else {
            Seq::empty()
        }) + key_str(entries[i].0, readable) + seq![' '] + print_spec(entries[i].1, readable)
            + join_pairs(entries, i + 1, readable)
    }
}

/// Append every character of `s`.
pub fn push_str_chars(s: &str, out: &mut Vec<char>)
    ensures
        final(out)@ == old(out)@ + s@,
{
    let n = s.unicode_len();
    let mut i: usize = 0;
    while i < n
        invariant
            i <= n,
            n == s@.len(),
            out@ == old(out)@ + s@.take(i as int),
        decreases n - i,
    {
        out.push(s.get_char(i));
        proof {
            assert(old(out)@ + s@.take(i + 1) =~= (old(out)@ + s@.take(i as int)).push(s@[i as int]));
        }
        i = i + 1;
    }
    proof {
        assert(s@.take(n as int) =~= s@);
    }
}

/// Append the escaped form of every character of `s`.
fn escape_into(s: &str, out: &mut Vec<char>)
    ensures
        final(out)@ == old(out)@ + escape_str(s@),
{
    let n = s.unicode_len();
    let mut i: usize = 0;
    proof {
        assert(s@.skip(0) =~= s@);
    }
    while i < n
        invariant
            i <= n,
            n == s@.len(),
            out@ + escape_str(s@.skip(i as int)) == old(out)@ + escape_str(s@),
        decreases n - i,
    {
        proof {
            assert(s@.skip(i as int)[0] == s@[i as int]);
            assert(s@.skip(i as int).drop_first() =~= s@.skip(i + 1));
        }
        let c = s.get_char(i);
        if c == '\n' {
            out.push('\\');
            out.push('n');
        } else if c == '"' {
            out.push('\\');
            out.push('"');
        } else if c == '\\' {
            out.push('\\');
            out.push('\\');
        } else {
            out.push(c);
        }
        proof {
            assert(out@ + escape_str(s@.skip(i + 1)) =~= old(out)@ + escape_str(s@));
        }
        i = i + 1;
    }
    proof {
        assert(escape_str(s@.skip(n as int)) =~= Seq::<char>::empty());
        assert(out@ =~= out@ + escape_str(s@.skip(n as int)));
    }
}

/// Append the placeholder that function values render as.
fn push_function_token(out: &mut Vec<char>)
    ensures
        final(out)@ == old(out)@ + seq!['#', '<', 'f', 'u', 'n', 'c', 't', 'i', 'o', 'n', '>'],
{
    out.push('#');
    out.push('<');
    out.push('f');
    out.push('u');
    out.push('n');
    out.push('c');
    out.push('t');
    out.push('i');
    out.push('o');
    out.push('n');
    out.push('>');
    proof {
        assert(out@ =~= old(out)@ + seq![
            '#',
            '<',
            'f',
            'u',
            'n',
            'c',
            't',
            'i',
            'o',
            'n',
            '>',
        ]);
    }
}

/// Append the rendering of `v`.
#[verifier::rlimit(50)]
pub fn render_val(v: &MalType, readable: bool, out: &mut Vec<char>)
    ensures
        final(out)@ == old(out)@ + print_spec(v@, readable),
    decreases v,
{
    match v {
        MalType::Bool(b) => {
            if *b {
                out.push('t');
                out.push('r');
                out.push('u');
                out.push('e');
                proof {
                    assert(out@ =~= old(out)@ + seq!['t', 'r', 'u', 'e']);
                }
            } else {
                out.push('f');
                out.push('a');
                out.push('l');
                out.push('s');
                out.push('e');
                proof {
                    assert(out@ =~= old(out)@ + seq!['f', 'a', 'l', 's', 'e']);
                }
            }
        },
        MalType::HashMap(entries) => {
            proof {
                assert(v@->HashMap_0 =~= hm_view(entries@));
            }
            let ghost full = hm_view(entries@);
            out.push('{');
            proof {
                assert(out@ =~= old(out)@ + seq!['{']);
            }
            let n = entries.len();
            let mut i: usize = 0;
            while i < n
                invariant
                    i <= n,
                    n == entries@.len(),
                    v is HashMap && v->HashMap_0 == *entries,
                    full == hm_view(entries@),
                    out@ + join_pairs(full, i as int, readable) == old(out)@ + seq!['{']
                        + join_pairs(full, 0, readable),
                decreases n - i,
            {
                let ghost before = out@;
                if i > 0 {
                    out.push(' ');
                }
                match &entries[i].0 {
                    MalHashKey::String(s) => {
                        if readable {
                            out.push('"');
                            escape_into(s.as_str(), out);
                            out.push('"');
                        } else {
                            push_str_chars(s.as_str(), out);
                        }
                    },
                    MalHashKey::Keyword(s) => {
                        out.push(':');
                        push_str_chars(s.as_str(), out);
                    },
                }
                out.push(' ');
                render_val(&entries[i].1, readable, out);
                proof {
                    assert(full[i as int] == (entries@[i as int].0@, entries@[i as int].1@));
                    assert(out@ =~= before + (if i > 0 {
                        seq![' ']
                    } else {
                        Seq::<char>::empty()
                    }) + key_str(full[i as int].0, readable) + seq![' '] + print_spec(
                        full[i as int].1,
                        readable,
                    ));
                    assert(out@ + join_pairs(full, i + 1, readable) =~= before + join_pairs(
                        full,
                        i as int,
                        readable,
                    ));
                }
                i = i + 1;
            }
            out.push('}');
            proof {
                assert(join_pairs(full, n as int, readable) =~= Seq::<char>::empty());
                assert(out@ =~= old(out)@ + print_spec(v@, readable));
            }
        },
        MalType::Keyword(s) => {
            out.push(':');
            push_str_chars(s.as_str(), out);
            proof {
                assert(out@ =~= old(out)@ + (seq![':'] + s@));
            }
        },
        MalType::L(kind, items) => {
            proof {
                assert(v@->L_1 =~= vals_view(items@));
            }
            let ghost full = vals_view(items@);
            let open: char = match kind {
                ListKind::List => '(',
                ListKind::Vector => '[',
            };
            let close: char = match kind {
                ListKind::List => ')',
                ListKind::Vector => ']',
            };
            out.push(open);
            proof {
                assert(out@ =~= old(out)@ + seq![open]);
            }
            let n = items.len();
            let mut i: usize = 0;
            while i < n
                invariant
                    i <= n,
                    n == items@.len(),
                    v is L && v->L_1 == *items,
                    full == vals_view(items@),
                    out@ + join_vals(full, i as int, readable, seq![' ']) == old(out)@ + seq![open]
                        + join_vals(full, 0, readable, seq![' ']),
                decreases n - i,
            {
                let ghost before = out@;
                if i > 0 {
                    out.push(' ');
                }
                render_val(&items[i], readable, out);
                proof {
                    assert(full[i as int] == items@[i as int]@);
                    assert(out@ =~= before + (if i > 0 {
                        seq![' ']
                    } else {
                        Seq::<char>::empty()
                    }) + print_spec(full[i as int], readable));
                    assert(out@ + join_vals(full, i + 1, readable, seq![' ']) =~= before
                        + join_vals(full, i as int, readable, seq![' ']));
                }
                i = i + 1;
            }
            out.push(close);
            proof {
                assert(join_vals(full, n as int, readable, seq![' ']) =~= Seq::<char>::empty());
                assert(out@ =~= old(out)@ + print_spec(v@, readable));
            }
        },
        MalType::Nil => {
            out.push('n');
            out.push('i');
            out.push('l');
            proof {
                assert(out@ =~= old(out)@ + seq!['n', 'i', 'l']);
            }
        },
        MalType::Number(n) => {
            crate::num::render_int(*n, out);
        },
        MalType::String(s) => {
            if readable {
                out.push('"');
                escape_into(s.as_str(), out);
                out.push('"');
                proof {
                    assert(out@ =~= old(out)@ + (seq!['"'] + escape_str(s@) + seq!['"']));
                }
            } else {
                push_str_chars(s.as_str(), out);
            }
        },
        MalType::Symbol(s) => {
            push_str_chars(s.as_str(), out);
        },
        MalType::Function(_) => {
            push_function_token(out);
        },
        MalType::TCOFunction { .. } => {
            push_function_token(out);
        },
    }
}

/// Relies on String implementing FromIterator over char: collecting a vector
/// of characters yields a string holding exactly those characters in order.
#[verifier::external_body]
pub fn chars_to_string(v: &Vec<char>) -> (r: String)
    ensures
        r@ == v@,
{
    v.iter().collect()
}

impl MalType {
    /// Render this value as text; readable mode escapes strings so that the
    /// reader can parse the result back.
    pub fn pr_str<const PRINT_READABLY: bool>(&self) -> (r: String)
        ensures
            r@ == print_spec(self@, PRINT_READABLY),
    {
        let mut out: Vec<char> = Vec::new();
        render_val(self, PRINT_READABLY, &mut out);
        proof {
            assert(out@ =~= print_spec(self@, PRINT_READABLY));
        }
        chars_to_string(&out)
    }

    /// Render a sequence of values joined by `join`, between `start` and
    /// `end`.
    pub fn pr_list<const PRINT_READABLY: bool>(
        list: &Vec<MalType>,
        start: &str,
        end: &str,
        join: &str,
    ) -> (r: String)
        ensures
            r@ == start@ + join_vals(vals_view(list@), 0, PRINT_READABLY, join@) + end@,
    {
        let ghost full = vals_view(list@);
        let mut out: Vec<char> = Vec::new();
        push_str_chars(start, &mut out);
        proof {
            assert(out@ =~= start@);
        }
        let n = list.len();
        let mut i: usize = 0;
        while i < n
            invariant
                i <= n,
                n == list@.len(),
                full == vals_view(list@),
                out@ + join_vals(full, i as int, PRINT_READABLY, join@) == start@ + join_vals(
                    full,
                    0,
                    PRINT_READABLY,
                    join@,
                ),
            decreases n - i,
        {
            let ghost before = out@;
            if i > 0 {
                push_str_chars(join, &mut out);
            }
            render_val(&list[i], PRINT_READABLY, &mut out);
            proof {
                assert(full[i as int] == list@[i as int]@);
                assert(out@ =~= before + (if i > 0 {
                    join@
                } else {
                    Seq::<char>::empty()
                }) + print_spec(full[i as int], PRINT_READABLY));
                assert(out@ + join_vals(full, i + 1, PRINT_READABLY, join@) =~= before + join_vals(
                    full,
                    i as int,
                    PRINT_READABLY,
                    join@,
                ));
            }
            i = i + 1;
        }
        push_str_chars(end, &mut out);
        proof {
            assert(join_vals(full, n as int, PRINT_READABLY, join@) =~= Seq::<char>::empty());
            assert(out@ =~= start@ + join_vals(full, 0, PRINT_READABLY, join@) + end@);
        }
        chars_to_string(&out)
    }
}

} // verus!
