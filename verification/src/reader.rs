use vstd::prelude::*;
use vstd::string::StrSliceExecFns;
use vstd::string::StringExecFns;

use crate::env::compare_strings;
use crate::num::all_digits;
use crate::num::dec_val;
use crate::num::is_digit;
use crate::num::parse_int;
use crate::printer::chars_to_string;
use crate::printer::push_str_chars;
use crate::types::ListKind;
use crate::types::MalHashKey;
use crate::types::MalType;
use crate::types::SpecHashKey;
use crate::types::SpecVal;
use crate::types::hm_view;

verus! {

/// Why a read failed.
#[derive(Clone, Copy, PartialEq, Eq, Structural, Debug)]
pub enum ReadErr {
    Eof,
    ImproperlyClosedList,
    InvalidHashmapKey,
    NoValueForHashmapKey,
    Unbalanced,
    InvalidEscape,
    InvalidNumber,
}

/// Characters the tokenizer discards between tokens.
pub open spec fn is_ws(c: char) -> bool {
    c == ' ' || c == '\t' || c == '\n' || c == '\r' || c == ','
}

/// Characters that form a one-character token on their own.
pub open spec fn is_single(c: char) -> bool {
    c == '[' || c == ']' || c == '{' || c == '}' || c == '(' || c == ')' || c == '\'' || c == '`'
        || c == '~' || c == '^' || c == '@'
}

/// Characters that may continue a symbol, keyword or number token.
pub open spec fn is_run_char(c: char) -> bool {
    !is_ws(c) && c != '[' && c != ']' && c != '{' && c != '}' && c != '(' && c != ')' && c != '\''
        && c != '"' && c != '`' && c != ';'
}

/// The index just past a string token that opens at `i - 1`: the body runs to
/// the first unescaped quote, or to the end of the text if none closes it.
pub open spec fn str_body_end(s: Seq<char>, i: int) -> int
    decreases s.len() - i,
{
    if i < 0 || i >= s.len() {
        s.len() as int
    } else if s[i] == '"' {
        i + 1
    } else if s[i] == '\\' {
        if i + 1 < s.len() {
            str_body_end(s, i + 2)
        } else {
            s.len() as int
        }
    } else {
        str_body_end(s, i + 1)
    }
}

/// The index of the newline ending a comment that starts at `i`, or the end of
/// the text.
pub open spec fn comment_end(s: Seq<char>, i: int) -> int
    decreases s.len() - i,
{
    if i < 0 || i >= s.len() {
        s.len() as int
    } else if s[i] == '\n' {
        i
    } else {
        comment_end(s, i + 1)
    }
}

/// The index just past the token run that starts before `i`.
pub open spec fn run_end(s: Seq<char>, i: int) -> int
    decreases s.len() - i,
{
    if i < 0 || i >= s.len() {
        s.len() as int
    } else if is_run_char(s[i]) {
        run_end(s, i + 1)
    } else {
        i
    }
}

/// The tokens of `s` from position `i` on: whitespace and commas separate
/// tokens, comments run to the end of their line and are dropped, `~@` and the
/// bracket-and-quote characters stand alone, a double quote opens a string
/// token that includes its quotes, and anything else is a maximal run.
pub open spec fn tokens_from(s: Seq<char>, i: int) -> Seq<Seq<char>>
    decreases s.len() - i,
{
    if i < 0 || i >= s.len() {
        Seq::empty()
    } else if is_ws(s[i]) {
        tokens_from(s, i + 1)
    } else if s[i] == ';' {
        let k = comment_end(s, i);
        tokens_from(s, if i < k <= s.len() {
            k
        } else {
            i + 1
        })
    } else if s[i] == '~' && i + 1 < s.len() && s[i + 1] == '@' {
        seq![seq!['~', '@']] + tokens_from(s, i + 2)
    } else if is_single(s[i]) {
        seq![seq![s[i]]] + tokens_from(s, i + 1)
    } else if s[i] == '"' {
        let k = str_body_end(s, i + 1);
        let k2 = if i + 1 < k <= s.len() {
            k
        } else {
            i + 1
        };
        seq![s.subrange(i, k2)] + tokens_from(s, k2)
    } else {
        let k = run_end(s, i + 1);
        let k2 = if i + 1 < k <= s.len() {
            k
        } else {
            i + 1
        };
        seq![s.subrange(i, k2)] + tokens_from(s, k2)
    }
}

/// The token sequence of a text.
pub open spec fn tokenize_spec(s: Seq<char>) -> Seq<Seq<char>> {
    tokens_from(s, 0)
}

/// A string token's body with its escapes resolved, scanning from `i`: ends at
/// the first unescaped quote; a text that ends first is unbalanced, and a
/// backslash admits only `n`, backslash and quote after it.
pub open spec fn unescape_from(t: Seq<char>, i: int) -> Result<Seq<char>, ReadErr>
    decreases t.len() - i,
{
    if i < 0 || i >= t.len() {
        Err(ReadErr::Unbalanced)
    } else if t[i] == '"' {
        Ok(Seq::empty())
    } else if t[i] == '\\' {
        if i + 1 >= t.len() {
            Err(ReadErr::Eof)
        } else {
            let c = t[i + 1];
            if c == 'n' || c == '\\' || c == '"' {
                let e = if c == 'n' {
                    '\n'
                } else {
                    c
                };
                match unescape_from(t, i + 2) {
                    Ok(rest) => Ok(seq![e] + rest),
                    Err(err) => Err(err),
                }
            } else {
                Err(ReadErr::InvalidEscape)
            }
        }
    } else {
        match unescape_from(t, i + 1) {
            Ok(rest) => Ok(seq![t[i]] + rest),
            Err(err) => Err(err),
        }
    }
}

/// The value of one atom token.
pub open spec fn atom_spec(t: Seq<char>) -> Result<SpecVal, ReadErr> {
    if t == seq!['f', 'a', 'l', 's', 'e'] {
        Ok(SpecVal::Bool(false))
    } else if t == seq!['n', 'i', 'l'] {
        Ok(SpecVal::Nil)
    } else if t == seq!['t', 'r', 'u', 'e'] {
        Ok(SpecVal::Bool(true))
    } else if t.len() > 0 && t[0] == ':' {
        Ok(SpecVal::Keyword(t.drop_first()))
    } else if t.len() > 0 && t[0] == '"' {
        match unescape_from(t, 1) {
            Ok(body) => Ok(SpecVal::String(body)),
            Err(e) => Err(e),
        }
    } else if t.len() > 0 && is_digit(t[0]) {
        if all_digits(t) && dec_val(t) <= i64::MAX {
            Ok(SpecVal::Number(dec_val(t) as i64))
        } else {
            Err(ReadErr::InvalidNumber)
        }
    } else {
        Ok(SpecVal::Symbol(t))
    }
}

/// Bind `k` to `v` among hash-map entries: replace its first occurrence or
/// append.
pub open spec fn hm_set(
    entries: Seq<(SpecHashKey, SpecVal)>,
    k: SpecHashKey,
    v: SpecVal,
) -> Seq<(SpecHashKey, SpecVal)>
    decreases entries.len(),
{
    if entries.len() == 0 {
        seq![(k, v)]
    } else if entries[0].0 == k {
        seq![(k, v)] + entries.drop_first()
    } else {
        seq![entries[0]] + hm_set(entries.drop_first(), k, v)
    }
}

/// Fold a flat item sequence into hash-map entries, two at a time: a key must
/// be a string or keyword, and the last key must have a value after it.
pub open spec fn fold_hash(items: Seq<SpecVal>, acc: Seq<(SpecHashKey, SpecVal)>) -> Result<
    Seq<(SpecHashKey, SpecVal)>,
    ReadErr,
>
    decreases items.len(),
{
    if items.len() == 0 {
        Ok(acc)
    } else {
        let k = match items[0] {
            SpecVal::String(s) => Some(SpecHashKey::String(s)),
            SpecVal::Keyword(s) => Some(SpecHashKey::Keyword(s)),
            _ => None,
        };
        match k {
            None => Err(ReadErr::InvalidHashmapKey),
            Some(k) => if items.len() == 1 {
                Err(ReadErr::NoValueForHashmapKey)
            } else {
                fold_hash(items.skip(2), hm_set(acc, k, items[1]))
            },
        }
    }
}

/// Whether `open` and `close` are a matching bracket pair.
pub open spec fn closes(open: char, close: char) -> bool {
    (open == '(' && close == ')') || (open == '[' && close == ']') || (open == '{' && close == '}')
}

/// One form read from position `p` of the token stream: an opening bracket
/// reads a collection up to its matching closer, the quoting tokens desugar to
/// a two-element list, and any other token is an atom.
pub open spec fn read_form_spec(toks: Seq<Seq<char>>, p: int) -> Result<(SpecVal, int), ReadErr>
    decreases toks.len() - p, 2int,
{
    if p < 0 || p >= toks.len() {
        Err(ReadErr::Eof)
    } else {
        let t = toks[p];
        if t == seq!['('] {
            match read_items_spec(toks, p + 1, '(') {
                Ok((items, p2)) => Ok((SpecVal::L(ListKind::List, items), p2)),
                Err(e) => Err(e),
            }
        } else if t == seq!['['] {
            match read_items_spec(toks, p + 1, '[') {
                Ok((items, p2)) => Ok((SpecVal::L(ListKind::Vector, items), p2)),
                Err(e) => Err(e),
            }
        } else if t == seq!['{'] {
            match read_items_spec(toks, p + 1, '{') {
                Ok((items, p2)) => match fold_hash(items, Seq::empty()) {
                    Ok(entries) => Ok((SpecVal::HashMap(entries), p2)),
                    Err(e) => Err(e),
                },
                Err(e) => Err(e),
            }
        } else if t == seq!['\''] {
            quote_form_spec(toks, p, seq!['q', 'u', 'o', 't', 'e'])
        } else if t == seq!['`'] {
            quote_form_spec(toks, p, seq!['q', 'u', 'a', 's', 'i', 'q', 'u', 'o', 't', 'e'])
        } else if t == seq!['~'] {
            quote_form_spec(toks, p, seq!['u', 'n', 'q', 'u', 'o', 't', 'e'])
        } else if t == seq!['~', '@'] {
            quote_form_spec(
                toks,
                p,
                seq!['s', 'p', 'l', 'i', 'c', 'e', '-', 'u', 'n', 'q', 'u', 'o', 't', 'e'],
            )
        } else if t == seq!['@'] {
            quote_form_spec(toks, p, seq!['d', 'e', 'r', 'e', 'f'])
        } else {
            match atom_spec(t) {
                Ok(v) => Ok((v, p + 1)),
                Err(e) => Err(e),
            }
        }
    }
}

/// The desugaring of a quoting token at `p`: a list of the named symbol and
/// the following form.
pub open spec fn quote_form_spec(toks: Seq<Seq<char>>, p: int, name: Seq<char>) -> Result<
    (SpecVal, int),
    ReadErr,
>
    decreases toks.len() - p, 1int,
{
    if p < 0 || p >= toks.len() {
        Err(ReadErr::Eof)
    } else {
        match read_form_spec(toks, p + 1) {
            Ok((form, p2)) => Ok(
                (SpecVal::L(ListKind::List, seq![SpecVal::Symbol(name), form]), p2),
            ),
            Err(e) => Err(e),
        }
    }
}

/// The items of a collection opened by `open`, starting at `p`, up to and past
/// the matching closer. A wrong closer is an improperly closed list; running
/// out of tokens first is an end-of-input error.
pub open spec fn read_items_spec(toks: Seq<Seq<char>>, p: int, open: char) -> Result<
    (Seq<SpecVal>, int),
    ReadErr,
>
    decreases toks.len() - p, 3int,
{
    if p < 0 || p >= toks.len() {
        Err(ReadErr::Eof)
    } else {
        let t = toks[p];
        if t == seq![')'] || t == seq![']'] || t == seq!['}'] {
            if closes(open, t[0]) {
                Ok((Seq::empty(), p + 1))
            } else {
                Err(ReadErr::ImproperlyClosedList)
            }
        } else {
            match read_form_spec(toks, p) {
                Ok((v, p2)) => {
                    let p3 = if p < p2 <= toks.len() {
                        p2
                    } else {
                        p + 1
                    };
                    match read_items_spec(toks, p3, open) {
                        Ok((rest, p4)) => Ok((seq![v] + rest, p4)),
                        Err(e) => Err(e),
                    }
                },
                Err(e) => Err(e),
            }
        }
    }
}

/// The first form of a text, read from its tokens; trailing tokens are left
/// for the caller.
pub open spec fn read_str_spec(s: Seq<char>) -> Result<SpecVal, ReadErr> {
    match read_form_spec(tokenize_spec(s), 0) {
        Ok((v, _)) => Ok(v),
        Err(e) => Err(e),
    }
}

/// A successful read always advances the position, never past the end.
pub proof fn lemma_read_form_advances(toks: Seq<Seq<char>>, p: int)
    ensures
        match read_form_spec(toks, p) {
            Ok((_, p2)) => p < p2 <= toks.len(),
            Err(_) => true,
        },
    decreases toks.len() - p, 2int,
{
    if 0 <= p < toks.len() {
        let t = toks[p];
        if t == seq!['('] || t == seq!['['] || t == seq!['{'] {
            lemma_read_items_advances(toks, p + 1, if t == seq!['('] {
                '('
            } else if t == seq!['['] {
                '['
            } else {
                '{'
            });
        } else if t == seq!['\''] || t == seq!['`'] || t == seq!['~'] || t == seq!['~', '@'] || t
            == seq!['@'] {
            lemma_read_form_advances(toks, p + 1);
        }
    }
}

fn is_ws_char(c: char) -> (r: bool)
    ensures
        r == is_ws(c),
{
    c == ' ' || c == '\t' || c == '\n' || c == '\r' || c == ','
}

fn is_single_char(c: char) -> (r: bool)
    ensures
        r == is_single(c),
{
    c == '[' || c == ']' || c == '{' || c == '}' || c == '(' || c == ')' || c == '\'' || c == '`'
        || c == '~' || c == '^' || c == '@'
}

fn is_run_c(c: char) -> (r: bool)
    ensures
        r == is_run_char(c),
{
    !(c == ' ' || c == '\t' || c == '\n' || c == '\r' || c == ',') && c != '[' && c != ']' && c
        != '{' && c != '}' && c != '(' && c != ')' && c != '\'' && c != '"' && c != '`' && c != ';'
}

/// The characters of `s`, as a vector.
pub fn str_chars(s: &str) -> (r: Vec<char>)
    ensures
        r@ == s@,
{
    let mut out: Vec<char> = Vec::new();
    push_str_chars(s, &mut out);
    proof {
        assert(out@ =~= s@);
    }
    out
}

/// The text of `chars[from..to]`, as a string.
fn token_of(chars: &Vec<char>, from: usize, to: usize) -> (r: String)
    requires
        from <= to <= chars@.len(),
    ensures
        r@ == chars@.subrange(from as int, to as int),
{
    let mut out: Vec<char> = Vec::new();
    let mut k: usize = from;
    while k < to
        invariant
            from <= k <= to <= chars@.len(),
            out@ == chars@.subrange(from as int, k as int),
        decreases to - k,
    {
        out.push(chars[k]);
        proof {
            assert(chars@.subrange(from as int, k + 1) =~= chars@.subrange(
                from as int,
                k as int,
            ).push(chars@[k as int]));
        }
        k = k + 1;
    }
    chars_to_string(&out)
}

/// Split a text into its tokens, in order; comments and whitespace are
/// dropped.
#[verifier::rlimit(50)]
pub fn tokenize(input: &str) -> (r: Vec<String>)
    ensures
        r.deep_view() == tokenize_spec(input@),
{
    let chars = str_chars(input);
    let ghost s = input@;
    let n = chars.len();
    let mut toks: Vec<String> = Vec::new();
    let mut i: usize = 0;
    proof {
        assert(toks.deep_view() + tokens_from(s, 0) =~= tokens_from(s, 0));
    }
    while i < n
        invariant
            i <= n,
            n == chars@.len(),
            chars@ == s,
            toks.deep_view() + tokens_from(s, i as int) == tokens_from(s, 0),
        decreases n - i,
    {
        let ghost prev = toks.deep_view();
        let c = chars[i];
        if is_ws_char(c) {
            i = i + 1;
        } else if c == ';' {
            let mut j = i;
            while j < n && chars[j] != '\n'
                invariant
                    i <= j <= n,
                    n == chars@.len(),
                    chars@ == s,
                    comment_end(s, i as int) == comment_end(s, j as int),
                decreases n - j,
            {
                j = j + 1;
            }
            proof {
                assert(comment_end(s, j as int) == j);
                assert(comment_end(s, i as int) == j);
            }
            if j == i {
                i = i + 1;
            } else {
                i = j;
            }
        } else if c == '~' && i + 1 < n && chars[i + 1] == '@' {
            let t = token_of(&chars, i, i + 2);
            toks.push(t);
            proof {
                assert(s.subrange(i as int, i + 2) =~= seq!['~', '@']);
                assert(toks.deep_view() =~= prev.push(seq!['~', '@']));
                assert(prev.push(seq!['~', '@']) + tokens_from(s, i + 2) =~= prev + tokens_from(
                    s,
                    i as int,
                ));
            }
            i = i + 2;
        } else if is_single_char(c) {
            let t = token_of(&chars, i, i + 1);
            toks.push(t);
            proof {
                assert(s.subrange(i as int, i + 1) =~= seq![s[i as int]]);
                assert(toks.deep_view() =~= prev.push(seq![s[i as int]]));
                assert(prev.push(seq![s[i as int]]) + tokens_from(s, i + 1) =~= prev + tokens_from(
                    s,
                    i as int,
                ));
            }
            i = i + 1;
        } else if c == '"' {
            let mut j = i + 1;
            let mut done = false;
            while !done && j < n
                invariant
                    i + 1 <= j <= n,
                    n == chars@.len(),
                    chars@ == s,
                    done ==> str_body_end(s, i + 1) == j,
                    !done ==> str_body_end(s, i + 1) == str_body_end(s, j as int),
                decreases n - j, (if done { 0int } else { 1int }),
            {
                if chars[j] == '"' {
                    j = j + 1;
                    done = true;
                } else if chars[j] == '\\' {
                    if j + 1 < n {
                        j = j + 2;
                    } else {
                        j = n;
                    }
                } else {
                    j = j + 1;
                }
            }
            proof {
                if !done {
                    assert(str_body_end(s, j as int) == s.len());
                }
                assert(str_body_end(s, i + 1) == j);
            }
            let t = token_of(&chars, i, j);
            toks.push(t);
            proof {
                assert(toks.deep_view() =~= prev.push(s.subrange(i as int, j as int)));
                assert(prev.push(s.subrange(i as int, j as int)) + tokens_from(s, j as int)
                    =~= prev + tokens_from(s, i as int));
            }
            i = j;
        } else {
            let mut j = i + 1;
            while j < n && is_run_c(chars[j])
                invariant
                    i + 1 <= j <= n,
                    n == chars@.len(),
                    chars@ == s,
                    run_end(s, i + 1) == run_end(s, j as int),
                decreases n - j,
            {
                j = j + 1;
            }
            proof {
                assert(run_end(s, j as int) == j);
                assert(run_end(s, i + 1) == j);
            }
            let t = token_of(&chars, i, j);
            toks.push(t);
            proof {
                assert(toks.deep_view() =~= prev.push(s.subrange(i as int, j as int)));
                assert(prev.push(s.subrange(i as int, j as int)) + tokens_from(s, j as int)
                    =~= prev + tokens_from(s, i as int));
            }
            i = j;
        }
    }
    proof {
        assert(tokens_from(s, n as int) =~= Seq::<Seq<char>>::empty());
        assert(toks.deep_view() =~= tokens_from(s, 0));
    }
    toks
}

/// Reading a collection's items also advances the position.
pub proof fn lemma_read_items_advances(toks: Seq<Seq<char>>, p: int, open: char)
    ensures
        match read_items_spec(toks, p, open) {
            Ok((_, p2)) => p < p2 <= toks.len(),
            Err(_) => true,
        },
    decreases toks.len() - p, 3int,
{
    if 0 <= p < toks.len() {
        let t = toks[p];
        if !(t == seq![')'] || t == seq![']'] || t == seq!['}']) {
            lemma_read_form_advances(toks, p);
            match read_form_spec(toks, p) {
                Ok((_, p2)) => {
                    let p3 = if p < p2 <= toks.len() {
                        p2
                    } else {
                        p + 1
                    };
                    lemma_read_items_advances(toks, p3, open);
                },
                Err(_) => {},
            }
        }
    }
}

/// Whether token `t` is the single character `c`.
fn is_tok1(t: &str, c: char) -> (r: bool)
    ensures
        r == (t@ == seq![c]),
{
    if t.unicode_len() == 1 && t.get_char(0) == c {
        proof {
            assert(t@ =~= seq![c]);
        }
        true
    } else {
        proof {
            if t@ == seq![c] {
                assert(t@.len() == 1 && t@[0] == c);
            }
        }
        false
    }
}

/// Whether token `t` is the two characters `c0 c1`.
fn is_tok2(t: &str, c0: char, c1: char) -> (r: bool)
    ensures
        r == (t@ == seq![c0, c1]),
{
    if t.unicode_len() == 2 && t.get_char(0) == c0 && t.get_char(1) == c1 {
        proof {
            assert(t@ =~= seq![c0, c1]);
        }
        true
    } else {
        proof {
            if t@ == seq![c0, c1] {
                assert(t@.len() == 2 && t@[0] == c0 && t@[1] == c1);
            }
        }
        false
    }
}

proof fn lemma_hm_set_at(entries: Seq<(SpecHashKey, SpecVal)>, k: SpecHashKey, v: SpecVal, i: int)
    requires
        0 <= i < entries.len(),
        entries[i].0 == k,
        forall|j: int| 0 <= j < i ==> entries[j].0 != k,
    ensures
        hm_set(entries, k, v) =~= entries.update(i, (k, v)),
    decreases i,
{
    if i == 0 {
        assert(hm_set(entries, k, v) =~= seq![(k, v)] + entries.drop_first());
        assert(seq![(k, v)] + entries.drop_first() =~= entries.update(0int, (k, v)));
    } else {
        lemma_hm_set_at(entries.drop_first(), k, v, i - 1);
        assert(entries.drop_first().update(i - 1, (k, v)) =~= entries.update(i, (k, v)).drop_first());
    }
}

proof fn lemma_hm_set_append(entries: Seq<(SpecHashKey, SpecVal)>, k: SpecHashKey, v: SpecVal)
    requires
        forall|j: int| 0 <= j < entries.len() ==> entries[j].0 != k,
    ensures
        hm_set(entries, k, v) =~= entries.push((k, v)),
    decreases entries.len(),
{
    if entries.len() > 0 {
        lemma_hm_set_append(entries.drop_first(), k, v);
        assert(entries.drop_first().push((k, v)) =~= entries.push((k, v)).drop_first());
    }
}

/// Bind `key` to `value` among hash-map entries, replacing its first
/// occurrence or appending.
fn hm_put(entries: &mut Vec<(MalHashKey, MalType)>, key: MalHashKey, value: MalType)
    ensures
        hm_view(final(entries)@) =~= hm_set(hm_view(old(entries)@), key@, value@),
{
    let ghost old_view = hm_view(entries@);
    let n = entries.len();
    let mut i: usize = 0;
    while i < n
        invariant
            i <= n,
            n == entries@.len(),
            hm_view(entries@) == old_view,
            old_view == hm_view(old(entries)@),
            forall|j: int| 0 <= j < i ==> old_view[j].0 != key@,
        decreases n - i,
    {
        proof {
            assert(old_view[i as int].0 == entries@[i as int].0@);
        }
        if entries[i].0.key_eq(&key) {
            let ghost kv = (key@, value@);
            proof {
                lemma_hm_set_at(old_view, kv.0, kv.1, i as int);
            }
            entries[i] = (key, value);
            proof {
                assert(hm_view(entries@) =~= old_view.update(i as int, kv));
                assert(hm_view(entries@) =~= hm_set(old_view, kv.0, kv.1));
            }
            return;
        }
        i = i + 1;
    }
    let ghost kv = (key@, value@);
    proof {
        lemma_hm_set_append(old_view, kv.0, kv.1);
    }
    entries.push((key, value));
    proof {
        assert(hm_view(entries@) =~= old_view.push(kv));
        assert(hm_view(entries@) =~= hm_set(old_view, kv.0, kv.1));
    }
}

/// Resolve the escapes of a string token (its opening quote at position 0).
fn unescape_token(chars: &Vec<char>) -> (r: Result<String, ReadErr>)
    requires
        chars@.len() >= 1,
    ensures
        match r {
            Ok(v) => unescape_from(chars@, 1) == Ok::<Seq<char>, ReadErr>(v@),
            Err(e) => unescape_from(chars@, 1) == Err::<Seq<char>, ReadErr>(e),
        },
{
    let n = chars.len();
    let mut out: Vec<char> = Vec::new();
    let mut i: usize = 1;
    proof {
        assert(match unescape_from(chars@, 1) {
            Ok(rest) => unescape_from(chars@, 1) == Ok::<Seq<char>, ReadErr>(out@ + rest),
            Err(e) => unescape_from(chars@, 1) == Err::<Seq<char>, ReadErr>(e),
        }) by {
            match unescape_from(chars@, 1) {
                Ok(rest) => {
                    assert(out@ + rest =~= rest);
                },
                Err(_) => {},
            }
        }
    }
    while i < n
        invariant
            1 <= i <= n,
            n == chars@.len(),
            match unescape_from(chars@, i as int) {
                Ok(rest) => unescape_from(chars@, 1) == Ok::<Seq<char>, ReadErr>(out@ + rest),
                Err(e) => unescape_from(chars@, 1) == Err::<Seq<char>, ReadErr>(e),
            },
        decreases n - i,
    {
        let ghost prev = out@;
        let c = chars[i];
        if c == '"' {
            proof {
                assert(out@ + Seq::<char>::empty() =~= out@);
            }
            return Ok(chars_to_string(&out));
        } else if c == '\\' {
            if i + 1 >= n {
                return Err(ReadErr::Eof);
            }
            let e = chars[i + 1];
            if e == 'n' {
                out.push('\n');
            } else if e == '\\' {
                out.push('\\');
            } else if e == '"' {
                out.push('"');
            } else {
                return Err(ReadErr::InvalidEscape);
            }
            proof {
                let ec = if e == 'n' {
                    '\n'
                } else {
                    e
                };
                match unescape_from(chars@, i + 2) {
                    Ok(rest) => {
                        assert(prev + (seq![ec] + rest) =~= out@ + rest);
                    },
                    Err(_) => {},
                }
            }
            i = i + 2;
        } else {
            out.push(c);
            proof {
                match unescape_from(chars@, i + 1) {
                    Ok(rest) => {
                        assert(prev + (seq![chars@[i as int]] + rest) =~= out@ + rest);
                    },
                    Err(_) => {},
                }
            }
            i = i + 1;
        }
    }
    Err(ReadErr::Unbalanced)
}

/// A stream of tokens with a cursor, from which forms are read.
pub struct Reader {
    pub tokens: Vec<String>,
    pub posn: usize,
}

impl Reader {
    /// The model of the token stream.
    pub open spec fn toks(&self) -> Seq<Seq<char>> {
        self.tokens.deep_view()
    }

    /// Tokenize `input` and stand at its first token.
    pub fn new(input: &str) -> (r: Reader)
        ensures
            r.toks() == tokenize_spec(input@),
            r.posn == 0,
    {
        Reader { tokens: tokenize(input), posn: 0 }
    }

    /// The token under the cursor, or an end-of-input error.
    pub fn peek(&self) -> (r: Result<String, ReadErr>)
        ensures
            match r {
                Ok(t) => self.posn < self.toks().len() && t@ == self.toks()[self.posn as int],
                Err(e) => self.posn >= self.toks().len() && e == ReadErr::Eof,
            },
    {
        if self.posn < self.tokens.len() {
            Ok(self.tokens[self.posn].clone())
        } else {
            Err(ReadErr::Eof)
        }
    }

    /// The token under the cursor, advancing past it.
    pub fn next(&mut self) -> (r: Result<String, ReadErr>)
        ensures
            final(self).tokens == old(self).tokens,
            match r {
                Ok(t) => old(self).posn < old(self).toks().len() && t@ == old(self).toks()[
                    old(self).posn as int
                ] && final(self).posn == old(self).posn + 1,
                Err(e) => e == ReadErr::Eof && old(self).posn >= old(self).toks().len() && final(self).posn == old(self).posn,
            },
    {
        if self.posn < self.tokens.len() {
            let t = self.tokens[self.posn].clone();
            self.posn = self.posn + 1;
            Ok(t)
        } else {
            Err(ReadErr::Eof)
        }
    }

    /// Read one form starting at the cursor.
    pub fn read_form(&mut self) -> (r: Result<MalType, ReadErr>)
        ensures
            final(self).tokens == old(self).tokens,
            match r {
                Ok(v) => read_form_spec(old(self).toks(), old(self).posn as int) == Ok::<
                    (SpecVal, int),
                    ReadErr,
                >((v@, final(self).posn as int)) && old(self).posn < final(self).posn <= old(self).toks().len(),
                Err(e) => read_form_spec(old(self).toks(), old(self).posn as int) == Err::<
                    (SpecVal, int),
                    ReadErr,
                >(e),
            },
        decreases self.tokens@.len() - self.posn, 2int,
    {
        let t = match self.peek() {
            Ok(t) => t,
            Err(e) => {
                return Err(e);
            },
        };
        if is_tok1(t.as_str(), '(') || is_tok1(t.as_str(), '[') || is_tok1(t.as_str(), '{') {
            self.read_list()
        } else if is_tok1(t.as_str(), '\'') {
            proof {
                reveal_strlit("quote");
                assert("quote"@ =~= seq!['q', 'u', 'o', 't', 'e']);
            }
            self.read_quote("quote")
        } else if is_tok1(t.as_str(), '`') {
            proof {
                reveal_strlit("quasiquote");
                assert("quasiquote"@ =~= seq!['q', 'u', 'a', 's', 'i', 'q', 'u', 'o', 't', 'e']);
            }
            self.read_quote("quasiquote")
        } else if is_tok1(t.as_str(), '~') {
            proof {
                reveal_strlit("unquote");
                assert("unquote"@ =~= seq!['u', 'n', 'q', 'u', 'o', 't', 'e']);
            }
            self.read_quote("unquote")
        } else if is_tok2(t.as_str(), '~', '@') {
            proof {
                reveal_strlit("splice-unquote");
                assert("splice-unquote"@ =~= seq![
                    's',
                    'p',
                    'l',
                    'i',
                    'c',
                    'e',
                    '-',
                    'u',
                    'n',
                    'q',
                    'u',
                    'o',
                    't',
                    'e',
                ]);
            }
            self.read_quote("splice-unquote")
        } else if is_tok1(t.as_str(), '@') {
            proof {
                reveal_strlit("deref");
                assert("deref"@ =~= seq!['d', 'e', 'r', 'e', 'f']);
            }
            self.read_quote("deref")
        } else {
            self.read_atom()
        }
    }

    /// Read the quoting token at the cursor and the form after it, as the
    /// two-element list naming the quoting form.
    fn read_quote(&mut self, kind: &str) -> (r: Result<MalType, ReadErr>)
        requires
            self.posn < self.tokens.deep_view().len(),
        ensures
            final(self).tokens == old(self).tokens,
            match r {
                Ok(v) => quote_form_spec(old(self).toks(), old(self).posn as int, kind@) == Ok::<
                    (SpecVal, int),
                    ReadErr,
                >((v@, final(self).posn as int)) && old(self).posn < final(self).posn <= old(self).toks().len(),
                Err(e) => quote_form_spec(old(self).toks(), old(self).posn as int, kind@) == Err::<
                    (SpecVal, int),
                    ReadErr,
                >(e),
            },
        decreases self.tokens@.len() - self.posn, 1int,
    {
        match self.next() {
            Ok(_) => {},
            Err(e) => {
                proof {
                    assert(false);
                }
                return Err(e);
            },
        }
        let form = match self.read_form() {
            Ok(f) => f,
            Err(e) => {
                return Err(e);
            },
        };
        let ghost formv = form@;
        let sym = MalType::Symbol(String::from_str(kind));
        proof {
            assert(sym@ == SpecVal::Symbol(kind@));
        }
        let ghost symv = sym@;
        let mut items: Vec<MalType> = Vec::new();
        items.push(sym);
        items.push(form);
        proof {
            assert(items@.len() == 2);
            assert(items@[0]@ == symv);
            assert(items@[1]@ == formv);
        }
        let v = MalType::L(ListKind::List, items);
        proof {
            assert(v@->L_1 =~= seq![SpecVal::Symbol(kind@), formv]);
            assert(v@ =~~= SpecVal::L(ListKind::List, seq![SpecVal::Symbol(kind@), formv]));
        }
        Ok(v)
    }

    /// Read a list, vector or hash-map whose opening bracket is at the cursor,
    /// through its matching closer.
    #[verifier::rlimit(100)]
    fn read_list(&mut self) -> (r: Result<MalType, ReadErr>)
        requires
            self.posn < self.tokens.deep_view().len(),
            self.tokens.deep_view()[self.posn as int] == seq!['('] || self.tokens.deep_view()[
                self.posn as int
            ] == seq!['['] || self.tokens.deep_view()[self.posn as int] == seq!['{'],
        ensures
            final(self).tokens == old(self).tokens,
            match r {
                Ok(v) => read_form_spec(old(self).toks(), old(self).posn as int) == Ok::<
                    (SpecVal, int),
                    ReadErr,
                >((v@, final(self).posn as int)) && old(self).posn < final(self).posn <= old(self).toks().len(),
                Err(e) => read_form_spec(old(self).toks(), old(self).posn as int) == Err::<
                    (SpecVal, int),
                    ReadErr,
                >(e),
            },
        decreases self.tokens@.len() - self.posn, 1int,
    {
        let ghost toks = self.tokens.deep_view();
        let ghost p0 = self.posn as int;
        let start = match self.next() {
            Ok(t) => t,
            Err(e) => {
                proof {
                    assert(false);
                }
                return Err(e);
            },
        };
        let open: char = if is_tok1(start.as_str(), '(') {
            '('
        } else if is_tok1(start.as_str(), '[') {
            '['
        } else {
            '{'
        };
        let mut list: Vec<MalType> = Vec::new();
        proof {
            assert(list.deep_view() + Seq::<SpecVal>::empty() =~= Seq::<SpecVal>::empty());
        }
        loop
            invariant
                self.tokens == old(self).tokens,
                self.tokens.deep_view() == toks,
                toks == old(self).toks(),
                p0 == old(self).posn as int,
                0 <= p0 < toks.len(),
                toks[p0] == seq!['('] || toks[p0] == seq!['['] || toks[p0] == seq!['{'],
                open == toks[p0][0],
                p0 < self.posn <= toks.len(),
                match read_items_spec(toks, self.posn as int, open) {
                    Ok((rest, q)) => read_items_spec(toks, p0 + 1, open) == Ok::<
                        (Seq<SpecVal>, int),
                        ReadErr,
                    >((list.deep_view() + rest, q)),
                    Err(e) => read_items_spec(toks, p0 + 1, open) == Err::<
                        (Seq<SpecVal>, int),
                        ReadErr,
                    >(e),
                },
            decreases toks.len() - self.posn,
        {
            let t = match self.peek() {
                Ok(t) => t,
                Err(e) => {
                    return Err(e);
                },
            };
            let closer: Option<char> = if is_tok1(t.as_str(), ')') {
                Some(')')
            } else if is_tok1(t.as_str(), ']') {
                Some(']')
            } else if is_tok1(t.as_str(), '}') {
                Some('}')
            } else {
                None
            };
            match closer {
                Some(cl) => {
                    let matched = (open == '(' && cl == ')') || (open == '[' && cl == ']') || (open
                        == '{' && cl == '}');
                    if !matched {
                        return Err(ReadErr::ImproperlyClosedList);
                    }
                    match self.next() {
                        Ok(_) => {},
                        Err(e) => {
                            proof {
                                assert(false);
                            }
                            return Err(e);
                        },
                    }
                    proof {
                        assert(list.deep_view() + Seq::<SpecVal>::empty() =~= list.deep_view());
                    }
                    if open == '(' {
                        let v = MalType::L(ListKind::List, list);
                        proof {
                            assert(v@->L_1 =~= v->L_1.deep_view());
                        }
                        return Ok(v);
                    } else if open == '[' {
                        let v = MalType::L(ListKind::Vector, list);
                        proof {
                            assert(v@->L_1 =~= v->L_1.deep_view());
                        }
                        return Ok(v);
                    } else {
                        let ghost items = list.deep_view();
                        let n2 = list.len();
                        let mut entries: Vec<(MalHashKey, MalType)> = Vec::new();
                        let mut k: usize = 0;
                        proof {
                            assert(items.skip(0) =~= items);
                            assert(hm_view(entries@) =~= Seq::<(SpecHashKey, SpecVal)>::empty());
                        }
                        while k < n2
                            invariant
                                self.tokens == old(self).tokens,
                                self.tokens.deep_view() == toks,
                                toks == old(self).toks(),
                                p0 == old(self).posn as int,
                                0 <= p0 < toks.len(),
                                toks[p0] == seq!['{'],
                                open == '{',
                                p0 < self.posn <= toks.len(),
                                read_items_spec(toks, p0 + 1, open) == Ok::<
                                    (Seq<SpecVal>, int),
                                    ReadErr,
                                >((items, self.posn as int)),
                                k <= n2,
                                n2 == list@.len(),
                                items == list.deep_view(),
                                fold_hash(items.skip(k as int), hm_view(entries@)) == fold_hash(
                                    items,
                                    Seq::empty(),
                                ),
                            decreases n2 - k,
                        {
                            proof {
                                assert(items.skip(k as int)[0] == items[k as int]);
                                assert(items[k as int] == list@[k as int]@);
                            }
                            let key = match &list[k] {
                                MalType::Keyword(s) => MalHashKey::Keyword(s.clone()),
                                MalType::String(s) => MalHashKey::String(s.clone()),
                                _ => {
                                    return Err(ReadErr::InvalidHashmapKey);
                                },
                            };
                            if k + 1 == n2 {
                                return Err(ReadErr::NoValueForHashmapKey);
                            }
                            proof {
                                assert(items.skip(k as int)[1] == items[k + 1]);
                                assert(items[k + 1] == list@[k + 1]@);
                                assert(items.skip(k as int).skip(2) =~= items.skip(k + 2));
                            }
                            let value = list[k + 1].duplicate();
                            hm_put(&mut entries, key, value);
                            k = k + 2;
                        }
                        proof {
                            assert(items.skip(n2 as int).len() == 0);
                        }
                        let v = MalType::HashMap(entries);
                        proof {
                            assert(v@->HashMap_0 =~= hm_view(entries@));
                        }
                        return Ok(v);
                    }
                },
                None => {
                    let ghost posn_before = self.posn as int;
                    let ghost prev = list.deep_view();
                    let item = match self.read_form() {
                        Ok(v) => v,
                        Err(e) => {
                            return Err(e);
                        },
                    };
                    proof {
                        assert(!(toks[posn_before] == seq![')'] || toks[posn_before] == seq![']']
                            || toks[posn_before] == seq!['}']));
                    }
                    list.push(item);
                    proof {
                        assert(list.deep_view() =~= prev.push(item@));
                        match read_items_spec(toks, self.posn as int, open) {
                            Ok((rest, q)) => {
                                assert(prev + (seq![item@] + rest) =~= prev.push(item@) + rest);
                            },
                            Err(_) => {},
                        }
                    }
                },
            }
        }
    }

    /// Read the atom token at the cursor: a literal, keyword, string, number
    /// or symbol.
    fn read_atom(&mut self) -> (r: Result<MalType, ReadErr>)
        requires
            self.posn < self.tokens.deep_view().len(),
        ensures
            final(self).tokens == old(self).tokens,
            final(self).posn == old(self).posn + 1,
            match r {
                Ok(v) => atom_spec(old(self).toks()[old(self).posn as int]) == Ok::<
                    SpecVal,
                    ReadErr,
                >(v@),
                Err(e) => atom_spec(old(self).toks()[old(self).posn as int]) == Err::<
                    SpecVal,
                    ReadErr,
                >(e),
            },
        decreases self.tokens@.len() - self.posn, 1int,
    {
        let t = match self.next() {
            Ok(t) => t,
            Err(e) => {
                proof {
                    assert(false);
                }
                return Err(e);
            },
        };
        proof {
            reveal_strlit("false");
            reveal_strlit("nil");
            reveal_strlit("true");
            assert("false"@ =~= seq!['f', 'a', 'l', 's', 'e']);
            assert("nil"@ =~= seq!['n', 'i', 'l']);
            assert("true"@ =~= seq!['t', 'r', 'u', 'e']);
        }
        if compare_strings(t.as_str(), "false") {
            return Ok(MalType::Bool(false));
        }
        if compare_strings(t.as_str(), "nil") {
            return Ok(MalType::Nil);
        }
        if compare_strings(t.as_str(), "true") {
            return Ok(MalType::Bool(true));
        }
        let chars = str_chars(t.as_str());
        if chars.len() > 0 && chars[0] == ':' {
            let kw = token_of(&chars, 1, chars.len());
            proof {
                assert(kw@ =~= t@.drop_first());
            }
            return Ok(MalType::Keyword(kw));
        }
        if chars.len() > 0 && chars[0] == '"' {
            return match unescape_token(&chars) {
                Ok(s) => Ok(MalType::String(s)),
                Err(e) => Err(e),
            };
        }
        let first_digit = if chars.len() > 0 {
            match crate::num::char_to_digit(chars[0]) {
                Some(_) => true,
                None => false,
            }
        } else {
            false
        };
        if first_digit {
            return match parse_int(&chars) {
                Some(v) => Ok(MalType::Number(v)),
                None => Err(ReadErr::InvalidNumber),
            };
        }
        Ok(MalType::Symbol(t))
    }
}

impl ReadErr {
    /// A line describing the failure.
    pub fn message(&self) -> String {
        match self {
            ReadErr::Eof => String::from_str("EOF"),
            ReadErr::ImproperlyClosedList => String::from_str("improperly closed list"),
            ReadErr::InvalidHashmapKey => String::from_str("invalid hashmap key"),
            ReadErr::NoValueForHashmapKey => String::from_str("no value for hashmap key"),
            ReadErr::Unbalanced => String::from_str("unbalanced"),
            ReadErr::InvalidEscape => String::from_str("unexpected escape sequence"),
            ReadErr::InvalidNumber => String::from_str("invalid number"),
        }
    }
}

/// Read the first form of `input`; trailing tokens are ignored here.
pub fn read_str(input: &str) -> (r: Result<MalType, ReadErr>)
    ensures
        match r {
            Ok(v) => read_str_spec(input@) == Ok::<SpecVal, ReadErr>(v@),
            Err(e) => read_str_spec(input@) == Err::<SpecVal, ReadErr>(e),
        },
{
    let mut reader = Reader::new(input);
    match reader.read_form() {
        Ok(v) => Ok(v),
        Err(e) => Err(e),
    }
}

} // verus!
