use vstd::prelude::*;

use crate::env::Env;

verus! {

broadcast use vstd::seq::axiom_seq_index_decreases, vstd::seq::axiom_seq_subrange_decreases;

/// The tag distinguishing the two sequence collections. Both hold their
/// elements the same way; only printing and reading differ.
#[derive(Clone, Copy, PartialEq, Eq, Structural, Debug)]
pub enum ListKind {
    List,
    Vector,
}

/// Keys of a hash-map value: only strings and keywords may be keys.
#[derive(Debug)]
pub enum MalHashKey {
    String(String),
    Keyword(String),
}

/// The built-in functions installed by `ns`. Each native exists once, so two
/// function values with the same tag are the identical callable.
#[derive(Clone, Copy, PartialEq, Eq, Structural, Debug)]
pub enum NativeOp {
    Add,
    Sub,
    Mul,
    Div,
    MakeList,
    IsList,
    IsEmpty,
    Count,
    Equal,
    Lt,
    Le,
    Gt,
    Ge,
    PrStr,
    Str,
    Prn,
    Println,
}

/// A runtime value. The same type is the abstract syntax tree produced by the
/// reader. Numbers are 64-bit integers: this crate's verified core cannot hold
/// floating point, so the numeric tower is integral.
#[derive(Debug)]
pub enum MalType {
    Bool(bool),
    HashMap(Vec<(MalHashKey, MalType)>),
    Keyword(String),
    L(ListKind, Vec<MalType>),
    Nil,
    Number(i64),
    String(String),
    Symbol(String),
    Function(NativeOp),
    TCOFunction { fn_id: u64, params: Vec<String>, body: Box<MalType>, env: Env },
}

/// Mathematical model of a hash-map key.
#[verifier::ext_equal]
pub enum SpecHashKey {
    String(Seq<char>),
    Keyword(Seq<char>),
}

/// Mathematical model of a value: strings become sequences of characters and
/// vectors become sequences. Hash-maps keep their entry order in the model;
/// value equivalence (`val_equiv`) ignores it.
#[verifier::ext_equal]
pub enum SpecVal {
    Bool(bool),
    HashMap(Seq<(SpecHashKey, SpecVal)>),
    Keyword(Seq<char>),
    L(ListKind, Seq<SpecVal>),
    Nil,
    Number(i64),
    String(Seq<char>),
    Symbol(Seq<char>),
    Function(NativeOp),
    TCOFunction { fn_id: u64, params: Seq<Seq<char>>, body: Box<SpecVal>, env: Env },
}

impl View for MalHashKey {
    type V = SpecHashKey;

    open spec fn view(&self) -> SpecHashKey {
        match self {
            MalHashKey::String(s) => SpecHashKey::String(s@),
            MalHashKey::Keyword(s) => SpecHashKey::Keyword(s@),
        }
    }
}

impl MalType {
    /// The mathematical model of this value.
    pub open spec fn to_val(&self) -> SpecVal
        decreases self,
    {
        match self {
            MalType::Bool(b) => SpecVal::Bool(*b),
            MalType::HashMap(entries) => SpecVal::HashMap(
                Seq::new(entries@.len(), |i: int| if 0 <= i < entries@.len() {
                    (entries@[i].0@, entries@[i].1.to_val())
                } else {
                    (SpecHashKey::String(Seq::empty()), SpecVal::Nil)
                }),
            ),
            MalType::Keyword(s) => SpecVal::Keyword(s@),
            MalType::L(kind, items) => SpecVal::L(
                *kind,
                Seq::new(items@.len(), |i: int| if 0 <= i < items@.len() {
                    items@[i].to_val()
                } else {
                    SpecVal::Nil
                }),
            ),
            MalType::Nil => SpecVal::Nil,
            MalType::Number(n) => SpecVal::Number(*n),
            MalType::String(s) => SpecVal::String(s@),
            MalType::Symbol(s) => SpecVal::Symbol(s@),
            MalType::Function(op) => SpecVal::Function(*op),
            MalType::TCOFunction { fn_id, params, body, env } => SpecVal::TCOFunction {
                fn_id: *fn_id,
                params: Seq::new(params@.len(), |i: int| if 0 <= i < params@.len() {
                    params@[i]@
                } else {
                    Seq::empty()
                }),
                body: Box::new(body.to_val()),
                env: *env,
            },
        }
    }
}

impl View for MalType {
    type V = SpecVal;

    open spec fn view(&self) -> SpecVal {
        self.to_val()
    }
}

impl DeepView for MalType {
    type V = SpecVal;

    open spec fn deep_view(&self) -> SpecVal {
        self.to_val()
    }
}

/// The first value bound to `key` among the model entries.
pub open spec fn hm_find(entries: Seq<(SpecHashKey, SpecVal)>, key: SpecHashKey) -> Option<SpecVal>
    decreases entries.len(),
{
    if entries.len() == 0 {
        None
    } else if entries[0].0 == key {
        Some(entries[0].1)
    } else {
        hm_find(entries.drop_first(), key)
    }
}

/// Value equivalence: atoms by value, sequences element-wise with the list and
/// vector tags interchangeable, hash-maps entry-by-key, and function values by
/// identity.
pub open spec fn val_equiv(a: SpecVal, b: SpecVal) -> bool
    decreases a,
{
    match (a, b) {
        (SpecVal::Bool(x), SpecVal::Bool(y)) => x == y,
        (SpecVal::HashMap(xs), SpecVal::HashMap(ys)) => hm_equiv(xs, ys),
        (SpecVal::Keyword(x), SpecVal::Keyword(y)) => x == y,
        (SpecVal::L(_, xs), SpecVal::L(_, ys)) => seq_equiv(xs, ys),
        (SpecVal::Nil, SpecVal::Nil) => true,
        (SpecVal::Number(x), SpecVal::Number(y)) => x == y,
        (SpecVal::String(x), SpecVal::String(y)) => x == y,
        (SpecVal::Symbol(x), SpecVal::Symbol(y)) => x == y,
        (SpecVal::Function(x), SpecVal::Function(y)) => x == y,
        (
            SpecVal::TCOFunction { fn_id: x, .. },
            SpecVal::TCOFunction { fn_id: y, .. },
        ) => x == y,
        _ => false,
    }
}

/// Element-wise equivalence of two value sequences.
pub open spec fn seq_equiv(xs: Seq<SpecVal>, ys: Seq<SpecVal>) -> bool
    decreases xs,
{
    xs.len() == ys.len() && (xs.len() == 0 || (val_equiv(xs[0], ys[0]) && seq_equiv(
        xs.drop_first(),
        ys.drop_first(),
    )))
}

/// Hash-map equivalence: same entry count, and every entry of `xs` is bound in
/// `ys` to an equivalent value.
pub open spec fn hm_equiv(
    xs: Seq<(SpecHashKey, SpecVal)>,
    ys: Seq<(SpecHashKey, SpecVal)>,
) -> bool
    decreases xs,
{
    xs.len() == ys.len() && (xs.len() == 0 || (match hm_find(ys, xs[0].0) {
        Some(v) => val_equiv(xs[0].1, v),
        None => false,
    } && hm_equiv_rest(xs.drop_first(), ys)))
}

/// The remaining entries of `xs`, each checked against all of `ys`.
pub open spec fn hm_equiv_rest(
    xs: Seq<(SpecHashKey, SpecVal)>,
    ys: Seq<(SpecHashKey, SpecVal)>,
) -> bool
    decreases xs,
{
    xs.len() == 0 || (match hm_find(ys, xs[0].0) {
        Some(v) => val_equiv(xs[0].1, v),
        None => false,
    } && hm_equiv_rest(xs.drop_first(), ys))
}

impl MalHashKey {
    /// Key equality, by variant and text.
    pub fn key_eq(&self, other: &MalHashKey) -> (r: bool)
        ensures
            r == (self@ == other@),
    {
        match (self, other) {
            (MalHashKey::String(a), MalHashKey::String(b)) => crate::env::compare_strings(
                a.as_str(),
                b.as_str(),
            ),
            (MalHashKey::Keyword(a), MalHashKey::Keyword(b)) => crate::env::compare_strings(
                a.as_str(),
                b.as_str(),
            ),
            _ => false,
        }
    }

    /// A fresh key with the same text.
    pub fn duplicate(&self) -> (r: MalHashKey)
        ensures
            r@ == self@,
    {
        match self {
            MalHashKey::String(s) => MalHashKey::String(s.clone()),
            MalHashKey::Keyword(s) => MalHashKey::Keyword(s.clone()),
        }
    }
}

/// Index of the first entry whose key equals `key`, if any.
fn hm_find_index(entries: &Vec<(MalHashKey, MalType)>, key: &MalHashKey) -> (r: Option<usize>)
    ensures
        match r {
            Some(i) => i < entries@.len() && entries@[i as int].0@ == key@ && hm_find(
                hm_view(entries@),
                key@,
            ) == Some(entries@[i as int].1@),
            None => hm_find(hm_view(entries@), key@) is None,
        },
{
    let n = entries.len();
    let mut i: usize = 0;
    while i < n
        invariant
            i <= n,
            n == entries@.len(),
            forall|j: int| 0 <= j < i ==> entries@[j].0@ != key@,
        decreases n - i,
    {
        if entries[i].0.key_eq(key) {
            proof {
                lemma_hm_find_at(hm_view(entries@), key@, i as int);
            }
            return Some(i);
        }
        i = i + 1;
    }
    proof {
        lemma_hm_find_none(hm_view(entries@), key@);
    }
    None
}

/// The models of a vector of values.
pub open spec fn vals_view(items: Seq<MalType>) -> Seq<SpecVal> {
    Seq::new(items.len(), |i: int| if 0 <= i < items.len() {
        items[i]@
    } else {
        SpecVal::Nil
    })
}

/// The model entries of an executable hash-map payload.
pub open spec fn hm_view(entries: Seq<(MalHashKey, MalType)>) -> Seq<(SpecHashKey, SpecVal)> {
    Seq::new(entries.len(), |i: int| if 0 <= i < entries.len() {
        (entries[i].0@, entries[i].1@)
    } else {
        (SpecHashKey::String(Seq::empty()), SpecVal::Nil)
    })
}

proof fn lemma_hm_find_none(entries: Seq<(SpecHashKey, SpecVal)>, key: SpecHashKey)
    requires
        forall|j: int| 0 <= j < entries.len() ==> entries[j].0 != key,
    ensures
        hm_find(entries, key) is None,
    decreases entries.len(),
{
    if entries.len() > 0 {
        lemma_hm_find_none(entries.drop_first(), key);
    }
}

proof fn lemma_hm_find_at(entries: Seq<(SpecHashKey, SpecVal)>, key: SpecHashKey, i: int)
    requires
        0 <= i < entries.len(),
        entries[i].0 == key,
        forall|j: int| 0 <= j < i ==> entries[j].0 != key,
    ensures
        hm_find(entries, key) == Some(entries[i].1),
    decreases i,
{
    if i > 0 {
        lemma_hm_find_at(entries.drop_first(), key, i - 1);
    }
}

impl MalType {
    /// Structural equivalence of two values: the meaning of the `=` native.
    pub fn mal_equiv(&self, other: &MalType) -> (r: bool)
        ensures
            r == val_equiv(self@, other@),
        decreases self,
    {
        match (self, other) {
            (MalType::Bool(x), MalType::Bool(y)) => x == y,
            (MalType::HashMap(xs), MalType::HashMap(ys)) => {
                proof {
                    assert(self@->HashMap_0 =~= hm_view(xs@));
                    assert(other@->HashMap_0 =~= hm_view(ys@));
                }
                if xs.len() != ys.len() {
                    return false;
                }
                let n = xs.len();
                let mut i: usize = 0;
                let mut ok = true;
                while i < n
                    invariant
                        i <= n,
                        n == xs@.len() == ys@.len(),
                        self is HashMap && self->HashMap_0 == *xs,
                        other is HashMap && other->HashMap_0 == *ys,
                        self@->HashMap_0 == hm_view(xs@),
                        other@->HashMap_0 == hm_view(ys@),
                        ok == hm_pairs_ok(hm_view(xs@), hm_view(ys@), i as int),
                    decreases n - i,
                {
                    let e = match hm_find_index(ys, &xs[i].0) {
                        Some(j) => xs[i].1.mal_equiv(&ys[j].1),
                        None => false,
                    };
                    proof {
                        assert(hm_view(xs@)[i as int] == (xs@[i as int].0@, xs@[i as int].1@));
                        lemma_hm_pairs_ok_step(hm_view(xs@), hm_view(ys@), i as int, e);
                    }
                    ok = ok && e;
                    i = i + 1;
                }
                proof {
                    lemma_hm_pairs_ok_equiv(hm_view(xs@), hm_view(ys@));
                    assert(val_equiv(self@, other@) == hm_equiv(hm_view(xs@), hm_view(ys@)));
                }
                ok
            },
            (MalType::Keyword(x), MalType::Keyword(y)) => crate::env::compare_strings(
                x.as_str(),
                y.as_str(),
            ),
            (MalType::L(_, xs), MalType::L(_, ys)) => {
                if xs.len() != ys.len() {
                    proof {
                        lemma_seq_equiv_len(self@->L_1, other@->L_1);
                    }
                    return false;
                }
                let n = xs.len();
                let mut i: usize = 0;
                let mut ok = true;
                while i < n
                    invariant
                        i <= n,
                        n == xs@.len() == ys@.len(),
                        self is L && self->L_1 == *xs,
                        other is L && other->L_1 == *ys,
                        ok == (forall|j: int| 0 <= j < i ==> val_equiv(
                            #[trigger] self@->L_1[j],
                            other@->L_1[j],
                        )),
                    decreases n - i,
                {
                    let e = xs[i].mal_equiv(&ys[i]);
                    proof {
                        assert(self@->L_1[i as int] == xs@[i as int]@);
                        assert(other@->L_1[i as int] == ys@[i as int]@);
                    }
                    ok = ok && e;
                    i = i + 1;
                }
                proof {
                    lemma_seq_equiv_pointwise(self@->L_1, other@->L_1);
                    assert(self@->L_1.len() == other@->L_1.len());
                }
                ok
            },
            (MalType::Nil, MalType::Nil) => true,
            (MalType::Number(x), MalType::Number(y)) => x == y,
            (MalType::String(x), MalType::String(y)) => crate::env::compare_strings(
                x.as_str(),
                y.as_str(),
            ),
            (MalType::Symbol(x), MalType::Symbol(y)) => crate::env::compare_strings(
                x.as_str(),
                y.as_str(),
            ),
            (MalType::Function(x), MalType::Function(y)) => x == y,
            (
                MalType::TCOFunction { fn_id: x, .. },
                MalType::TCOFunction { fn_id: y, .. },
            ) => x == y,
            _ => false,
        }
    }

    /// A fresh value whose model equals this one's.
    pub fn duplicate(&self) -> (r: MalType)
        ensures
            r@ == self@,
        decreases self,
    {
        match self {
            MalType::Bool(b) => MalType::Bool(*b),
            MalType::HashMap(entries) => {
                let n = entries.len();
                let mut out: Vec<(MalHashKey, MalType)> = Vec::new();
                let mut i: usize = 0;
                while i < n
                    invariant
                        i <= n,
                        n == entries@.len(),
                        self is HashMap && self->HashMap_0 == *entries,
                        out@.len() == i,
                        forall|j: int| 0 <= j < i ==> out@[j].0@ == entries@[j].0@
                            && out@[j].1@ == entries@[j].1@,
                    decreases n - i,
                {
                    let k = entries[i].0.duplicate();
                    let v = entries[i].1.duplicate();
                    out.push((k, v));
                    i = i + 1;
                }
                let r = MalType::HashMap(out);
                proof {
                    assert forall|j: int| 0 <= j < out@.len() implies #[trigger] r@->HashMap_0[j]
                        == self@->HashMap_0[j] by {
                        assert(out@[j].0@ == entries@[j].0@);
                        assert(out@[j].1@ == entries@[j].1@);
                    }
                    assert(r@->HashMap_0 =~= self@->HashMap_0);
                    assert(r@ =~~= self@);
                }
                r
            },
            MalType::Keyword(s) => MalType::Keyword(s.clone()),
            MalType::L(kind, items) => {
                let n = items.len();
                let mut out: Vec<MalType> = Vec::new();
                let mut i: usize = 0;
                while i < n
                    invariant
                        i <= n,
                        n == items@.len(),
                        self is L && self->L_1 == *items,
                        out@.len() == i,
                        forall|j: int| 0 <= j < i ==> out@[j]@ == items@[j]@,
                    decreases n - i,
                {
                    let v = items[i].duplicate();
                    out.push(v);
                    i = i + 1;
                }
                let r = MalType::L(*kind, out);
                proof {
                    assert forall|j: int| 0 <= j < out@.len() implies #[trigger] r@->L_1[j]
                        == self@->L_1[j] by {
                        assert(out@[j]@ == items@[j]@);
                    }
                    assert(r@->L_1 =~= self@->L_1);
                    assert(r@ =~~= self@);
                }
                r
            },
            MalType::Nil => MalType::Nil,
            MalType::Number(n) => MalType::Number(*n),
            MalType::String(s) => MalType::String(s.clone()),
            MalType::Symbol(s) => MalType::Symbol(s.clone()),
            MalType::Function(op) => MalType::Function(*op),
            MalType::TCOFunction { fn_id, params, body, env } => {
                let n = params.len();
                let mut out: Vec<String> = Vec::new();
                let mut i: usize = 0;
                while i < n
                    invariant
                        i <= n,
                        n == params@.len(),
                        self is TCOFunction && self->TCOFunction_params == *params,
                        out@.len() == i,
                        forall|j: int| 0 <= j < i ==> out@[j]@ == params@[j]@,
                    decreases n - i,
                {
                    let s = params[i].clone();
                    out.push(s);
                    i = i + 1;
                }
                let b = body.duplicate();
                let r = MalType::TCOFunction {
                    fn_id: *fn_id,
                    params: out,
                    body: Box::new(b),
                    env: *env,
                };
                proof {
                    assert forall|j: int| 0 <= j < out@.len() implies
                        #[trigger] r@->TCOFunction_params[j] == self@->TCOFunction_params[j] by {
                        assert(out@[j]@ == params@[j]@);
                    }
                    assert(r@->TCOFunction_params =~= self@->TCOFunction_params);
                    assert(r@ =~~= self@);
                }
                r
            },
        }
    }
}

/// The first `i` entries of `xs` are each bound in `ys` to an equivalent value.
pub open spec fn hm_pairs_ok(
    xs: Seq<(SpecHashKey, SpecVal)>,
    ys: Seq<(SpecHashKey, SpecVal)>,
    i: int,
) -> bool {
    forall|j: int| 0 <= j < i ==> match #[trigger] hm_find(ys, xs[j].0) {
        Some(v) => val_equiv(xs[j].1, v),
        None => false,
    }
}

proof fn lemma_hm_pairs_ok_step(
    xs: Seq<(SpecHashKey, SpecVal)>,
    ys: Seq<(SpecHashKey, SpecVal)>,
    i: int,
    e: bool,
)
    requires
        0 <= i < xs.len(),
        e == match hm_find(ys, xs[i].0) {
            Some(v) => val_equiv(xs[i].1, v),
            None => false,
        },
    ensures
        hm_pairs_ok(xs, ys, i + 1) == (hm_pairs_ok(xs, ys, i) && e),
{
}

proof fn lemma_hm_pairs_rest(xs: Seq<(SpecHashKey, SpecVal)>, ys: Seq<(SpecHashKey, SpecVal)>)
    ensures
        hm_equiv_rest(xs, ys) == hm_pairs_ok(xs, ys, xs.len() as int),
    decreases xs.len(),
{
    if xs.len() > 0 {
        lemma_hm_pairs_rest(xs.drop_first(), ys);
        assert forall|j: int| 0 <= j < xs.len() - 1 implies xs.drop_first()[j] == xs[j + 1] by {}
        if hm_pairs_ok(xs, ys, xs.len() as int) {
            assert(hm_pairs_ok(xs.drop_first(), ys, xs.len() - 1));
        }
        if (match hm_find(ys, xs[0].0) {
            Some(v) => val_equiv(xs[0].1, v),
            None => false,
        }) && hm_pairs_ok(xs.drop_first(), ys, xs.len() - 1) {
            assert forall|j: int| 0 <= j < xs.len() implies match #[trigger] hm_find(ys, xs[j].0) {
                Some(v) => val_equiv(xs[j].1, v),
                None => false,
            } by {
                if j > 0 {
                    assert(xs.drop_first()[j - 1] == xs[j]);
                }
            }
        }
    }
}

proof fn lemma_hm_pairs_ok_equiv(xs: Seq<(SpecHashKey, SpecVal)>, ys: Seq<(SpecHashKey, SpecVal)>)
    requires
        xs.len() == ys.len(),
    ensures
        hm_equiv(xs, ys) == hm_pairs_ok(xs, ys, xs.len() as int),
{
    lemma_hm_pairs_rest(xs, ys);
    if xs.len() > 0 {
        lemma_hm_pairs_rest(xs.drop_first(), ys);
        assert forall|j: int| 0 <= j < xs.len() - 1 implies xs.drop_first()[j] == xs[j + 1] by {}
        if hm_pairs_ok(xs, ys, xs.len() as int) {
            assert(hm_pairs_ok(xs.drop_first(), ys, xs.len() - 1));
        }
        if hm_equiv(xs, ys) {
            assert forall|j: int| 0 <= j < xs.len() implies match #[trigger] hm_find(ys, xs[j].0) {
                Some(v) => val_equiv(xs[j].1, v),
                None => false,
            } by {
                if j > 0 {
                    assert(xs.drop_first()[j - 1] == xs[j]);
                }
            }
        }
    }
}

proof fn lemma_seq_equiv_len(xs: Seq<SpecVal>, ys: Seq<SpecVal>)
    ensures
        seq_equiv(xs, ys) ==> xs.len() == ys.len(),
{
}

/// Sequence equivalence is the element-wise conjunction.
pub proof fn lemma_seq_equiv_pointwise(xs: Seq<SpecVal>, ys: Seq<SpecVal>)
    requires
        xs.len() == ys.len(),
    ensures
        seq_equiv(xs, ys) == (forall|j: int| 0 <= j < xs.len() ==> val_equiv(xs[j], ys[j])),
    decreases xs.len(),
{
    if xs.len() > 0 {
        lemma_seq_equiv_pointwise(xs.drop_first(), ys.drop_first());
        assert forall|j: int| 0 <= j < xs.len() - 1 implies xs.drop_first()[j] == xs[j + 1]
            && ys.drop_first()[j] == ys[j + 1] by {}
        if val_equiv(xs[0], ys[0]) && (forall|j: int| 0 <= j < xs.drop_first().len() ==> val_equiv(
            xs.drop_first()[j],
            ys.drop_first()[j],
        )) {
            assert forall|j: int| 0 <= j < xs.len() implies val_equiv(xs[j], ys[j]) by {
                if j > 0 {
                    assert(val_equiv(xs.drop_first()[j - 1], ys.drop_first()[j - 1]));
                }
            }
        }
        if forall|j: int| 0 <= j < xs.len() ==> val_equiv(xs[j], ys[j]) {
            assert forall|j: int| 0 <= j < xs.drop_first().len() implies val_equiv(
                xs.drop_first()[j],
                ys.drop_first()[j],
            ) by {
                assert(val_equiv(xs[j + 1], ys[j + 1]));
            }
        }
    }
}

} // verus!
