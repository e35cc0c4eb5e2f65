use vstd::prelude::*;
use vstd::string::StrSliceExecFns;

use crate::types::MalType;
use crate::types::SpecVal;

verus! {

/// A handle naming one scope in an `EnvArena`. Closures capture their scope by
/// handle, so many values may share one scope; the arena owns the storage.
#[derive(Clone, Copy, PartialEq, Eq, Structural, Debug)]
pub struct Env {
    pub id: usize,
}

/// One scope: its bindings and the enclosing scope, if any.
pub struct EnvInner {
    pub outer: Option<Env>,
    pub data: Vec<(String, MalType)>,
}

/// The store of all scopes ever created. A scope's `outer` always points at an
/// earlier slot, so lookup chains are finite.
pub struct EnvArena {
    pub scopes: Vec<EnvInner>,
}

/// Model of one scope.
#[verifier::ext_equal]
pub struct SpecScope {
    pub outer: Option<int>,
    pub data: Seq<(Seq<char>, SpecVal)>,
}

/// The model entries of a scope's binding vector.
pub open spec fn data_view(d: Seq<(String, MalType)>) -> Seq<(Seq<char>, SpecVal)> {
    Seq::new(d.len(), |i: int| if 0 <= i < d.len() {
        (d[i].0@, d[i].1@)
    } else {
        (Seq::empty(), SpecVal::Nil)
    })
}

impl View for EnvInner {
    type V = SpecScope;

    open spec fn view(&self) -> SpecScope {
        SpecScope {
            outer: match self.outer {
                Some(e) => Some(e.id as int),
                None => None,
            },
            data: data_view(self.data@),
        }
    }
}

impl View for EnvArena {
    type V = Seq<SpecScope>;

    open spec fn view(&self) -> Seq<SpecScope> {
        Seq::new(self.scopes@.len(), |i: int| if 0 <= i < self.scopes@.len() {
            self.scopes@[i]@
        } else {
            SpecScope { outer: None, data: Seq::empty() }
        })
    }
}

/// The first binding of `name` in a scope's data, scanning left to right.
pub open spec fn assoc_find(data: Seq<(Seq<char>, SpecVal)>, name: Seq<char>) -> Option<SpecVal>
    decreases data.len(),
{
    if data.len() == 0 {
        None
    } else if data[0].0 == name {
        Some(data[0].1)
    } else {
        assoc_find(data.drop_first(), name)
    }
}

/// Bind `name` to `v` in a scope's data: replace its first occurrence, or
/// append a fresh entry.
pub open spec fn assoc_set(
    data: Seq<(Seq<char>, SpecVal)>,
    name: Seq<char>,
    v: SpecVal,
) -> Seq<(Seq<char>, SpecVal)>
    decreases data.len(),
{
    if data.len() == 0 {
        seq![(name, v)]
    } else if data[0].0 == name {
        seq![(name, v)] + data.drop_first()
    } else {
        seq![data[0]] + assoc_set(data.drop_first(), name, v)
    }
}

/// Bindings folded into `acc` pairwise: names and values are zipped
/// positionally and the extra tail of the longer side is dropped.
pub open spec fn bind_from(
    acc: Seq<(Seq<char>, SpecVal)>,
    names: Seq<Seq<char>>,
    vals: Seq<SpecVal>,
) -> Seq<(Seq<char>, SpecVal)>
    decreases names.len(),
{
    if names.len() == 0 || vals.len() == 0 {
        acc
    } else {
        bind_from(assoc_set(acc, names[0], vals[0]), names.drop_first(), vals.drop_first())
    }
}

/// Pairs folded into `acc` in order, later entries shadowing earlier ones.
pub open spec fn bind_list_from(
    acc: Seq<(Seq<char>, SpecVal)>,
    pairs: Seq<(Seq<char>, SpecVal)>,
) -> Seq<(Seq<char>, SpecVal)>
    decreases pairs.len(),
{
    if pairs.len() == 0 {
        acc
    } else {
        bind_list_from(assoc_set(acc, pairs[0].0, pairs[0].1), pairs.drop_first())
    }
}

/// Every scope's parent sits strictly earlier in the arena.
pub open spec fn arena_wf(a: Seq<SpecScope>) -> bool {
    forall|i: int| 0 <= i < a.len() ==> match #[trigger] a[i].outer {
        Some(o) => 0 <= o < i,
        None => true,
    }
}

/// Walk from the scope `id` outward and return the first binding of `name`.
pub open spec fn env_lookup(a: Seq<SpecScope>, id: int, name: Seq<char>) -> Option<SpecVal>
    decreases id,
{
    if 0 <= id < a.len() {
        match assoc_find(a[id].data, name) {
            Some(v) => Some(v),
            None => match a[id].outer {
                Some(o) => if 0 <= o < id {
                    env_lookup(a, o, name)
                } else {
                    None
                },
                None => None,
            },
        }
    } else {
        None
    }
}

/// Walk from the scope `id` outward and return the scope that binds `name`.
pub open spec fn env_find(a: Seq<SpecScope>, id: int, name: Seq<char>) -> Option<int>
    decreases id,
{
    if 0 <= id < a.len() {
        if assoc_find(a[id].data, name) is Some {
            Some(id)
        } else {
            match a[id].outer {
                Some(o) => if 0 <= o < id {
                    env_find(a, o, name)
                } else {
                    None
                },
                None => None,
            }
        }
    } else {
        None
    }
}

/// The lookup result is whatever the owning scope binds.
pub proof fn lemma_env_find_lookup(a: Seq<SpecScope>, id: int, name: Seq<char>)
    ensures
        match env_find(a, id, name) {
            Some(o) => 0 <= o < a.len() && env_lookup(a, id, name) == assoc_find(a[o].data, name)
                && assoc_find(a[o].data, name) is Some,
            None => env_lookup(a, id, name) is None,
        },
    decreases id,
{
    if 0 <= id < a.len() {
        if assoc_find(a[id].data, name) is None {
            match a[id].outer {
                Some(o) => {
                    if 0 <= o < id {
                        lemma_env_find_lookup(a, o, name);
                    }
                },
                None => {},
            }
        }
    }
}

/// Bind `key` to `value` in a binding vector, replacing its first occurrence
/// or appending.
pub fn assoc_put(data: &mut Vec<(String, MalType)>, key: String, value: MalType)
    ensures
        data_view(final(data)@) =~= assoc_set(data_view(old(data)@), key@, value@),
{
    let ghost old_view = data_view(data@);
    let n = data.len();
    let mut i: usize = 0;
    while i < n
        invariant
            i <= n,
            n == data@.len(),
            data_view(data@) == old_view,
            old_view == data_view(old(data)@),
            forall|j: int| 0 <= j < i ==> old_view[j].0 != key@,
        decreases n - i,
    {
        if compare_strings(data[i].0.as_str(), key.as_str()) {
            let ghost kv = (key@, value@);
            proof {
                assert(old_view[i as int].0 == data@[i as int].0@);
                lemma_assoc_set_at(old_view, kv.0, kv.1, i as int);
            }
            data[i] = (key, value);
            proof {
                assert(data_view(data@) =~= old_view.update(i as int, kv));
                assert(data_view(data@) =~= assoc_set(old_view, kv.0, kv.1));
            }
            return;
        }
        i = i + 1;
    }
    let ghost kv = (key@, value@);
    proof {
        lemma_assoc_set_append(old_view, kv.0, kv.1);
    }
    data.push((key, value));
    proof {
        assert(data_view(data@) =~= old_view.push(kv));
        assert(data_view(data@) =~= assoc_set(old_view, kv.0, kv.1));
    }
}

/// Index of the first binding of `key` in a vector, if any.
fn data_find_index(data: &Vec<(String, MalType)>, key: &str) -> (r: Option<usize>)
    ensures
        match r {
            Some(i) => i < data@.len() && data@[i as int].0@ == key@ && assoc_find(
                data_view(data@),
                key@,
            ) == Some(data@[i as int].1@),
            None => assoc_find(data_view(data@), key@) is None,
        },
{
    let n = data.len();
    let mut i: usize = 0;
    while i < n
        invariant
            i <= n,
            n == data@.len(),
            forall|j: int| 0 <= j < i ==> data_view(data@)[j].0 != key@,
        decreases n - i,
    {
        if compare_strings(data[i].0.as_str(), key) {
            proof {
                lemma_assoc_find_at(data_view(data@), key@, i as int);
            }
            return Some(i);
        }
        i = i + 1;
    }
    proof {
        lemma_assoc_find_none(data_view(data@), key@);
    }
    None
}

impl Env {
    fn raw_new(st: &mut EnvArena, outer: Option<Env>, data: Vec<(String, MalType)>) -> (r: Env)
        requires
            match outer {
                Some(e) => e.id < old(st)@.len(),
                None => true,
            },
        ensures
            r.id == old(st)@.len(),
            final(st)@ =~= old(st)@.push(SpecScope {
                outer: match outer {
                    Some(e) => Some(e.id as int),
                    None => None,
                },
                data: data_view(data@),
            }),
            arena_wf(old(st)@) ==> arena_wf(final(st)@),
    {
        let id = st.scopes.len();
        st.scopes.push(EnvInner { outer, data });
        proof {
            let pushed = SpecScope {
                outer: match outer {
                    Some(e) => Some(e.id as int),
                    None => None,
                },
                data: data_view(data@),
            };
            assert(st@ =~= old(st)@.push(pushed));
            if arena_wf(old(st)@) {
                assert forall|i: int| 0 <= i < st@.len() implies match #[trigger] st@[i].outer {
                    Some(o) => 0 <= o < i,
                    None => true,
                } by {
                    if i < old(st)@.len() {
                        assert(st@[i] == old(st)@[i]);
                    }
                }
            }
        }
        Env { id }
    }

    /// Create an empty scope whose parent is `outer`.
    pub fn new(st: &mut EnvArena, outer: Option<Env>) -> (r: Env)
        requires
            match outer {
                Some(e) => e.id < old(st)@.len(),
                None => true,
            },
        ensures
            r.id == old(st)@.len(),
            final(st)@ =~= old(st)@.push(SpecScope {
                outer: match outer {
                    Some(e) => Some(e.id as int),
                    None => None,
                },
                data: Seq::empty(),
            }),
            arena_wf(old(st)@) ==> arena_wf(final(st)@),
    {
        let r = Self::raw_new(st, outer, Vec::new());
        proof {
            assert(data_view(Seq::<(String, MalType)>::empty()) =~= Seq::<(
                Seq<char>,
                SpecVal,
            )>::empty());
        }
        r
    }

    /// Create a scope binding `binds` to `exprs` positionally; if the two
    /// differ in length the extra tail of the longer one is dropped.
    pub fn new_with_bindings(
        st: &mut EnvArena,
        outer: Option<Env>,
        binds: &Vec<String>,
        exprs: Vec<MalType>,
    ) -> (r: Env)
        requires
            match outer {
                Some(e) => e.id < old(st)@.len(),
                None => true,
            },
        ensures
            r.id == old(st)@.len(),
            final(st)@ =~= old(st)@.push(SpecScope {
                outer: match outer {
                    Some(e) => Some(e.id as int),
                    None => None,
                },
                data: bind_from(Seq::empty(), binds.deep_view(), exprs.deep_view()),
            }),
            arena_wf(old(st)@) ==> arena_wf(final(st)@),
    {
        let mut data: Vec<(String, MalType)> = Vec::new();
        let n = if binds.len() <= exprs.len() {
            binds.len()
        } else {
            exprs.len()
        };
        let mut i: usize = 0;
        proof {
            assert(data_view(data@) =~= Seq::<(Seq<char>, SpecVal)>::empty());
            assert(binds.deep_view().skip(0) =~= binds.deep_view());
            assert(exprs.deep_view().skip(0) =~= exprs.deep_view());
        }
        while i < n
            invariant
                i <= n,
                n == if binds.deep_view().len() <= exprs.deep_view().len() {
                    binds.deep_view().len()
                } else {
                    exprs.deep_view().len()
                },
                exprs.deep_view().len() == exprs@.len(),
                binds.deep_view().len() == binds@.len(),
                bind_from(
                    data_view(data@),
                    binds.deep_view().skip(i as int),
                    exprs.deep_view().skip(i as int),
                ) =~= bind_from(Seq::empty(), binds.deep_view(), exprs.deep_view()),
            decreases n - i,
        {
            let ghost pre = data_view(data@);
            let key = binds[i].clone();
            let value = exprs[i].duplicate();
            assoc_put(&mut data, key, value);
            proof {
                let bs = binds.deep_view().skip(i as int);
                let es = exprs.deep_view().skip(i as int);
                assert(bs[0] == binds.deep_view()[i as int]);
                assert(es[0] == exprs.deep_view()[i as int]);
                assert(bs.drop_first() =~= binds.deep_view().skip(i + 1));
                assert(es.drop_first() =~= exprs.deep_view().skip(i + 1));
                assert(bind_from(pre, bs, es) == bind_from(
                    assoc_set(pre, bs[0], es[0]),
                    bs.drop_first(),
                    es.drop_first(),
                ));
            }
            i = i + 1;
        }
        proof {
            let bs = binds.deep_view().skip(n as int);
            let es = exprs.deep_view().skip(n as int);
            assert(bs.len() == 0 || es.len() == 0);
            assert(bind_from(data_view(data@), bs, es) == data_view(data@));
        }
        Self::raw_new(st, outer, data)
    }

    /// Create a scope from explicit name/value pairs, later pairs shadowing
    /// earlier ones.
    pub fn new_with_bindings_list(
        st: &mut EnvArena,
        outer: Option<Env>,
        list: Vec<(String, MalType)>,
    ) -> (r: Env)
        requires
            match outer {
                Some(e) => e.id < old(st)@.len(),
                None => true,
            },
        ensures
            r.id == old(st)@.len(),
            final(st)@ =~= old(st)@.push(SpecScope {
                outer: match outer {
                    Some(e) => Some(e.id as int),
                    None => None,
                },
                data: bind_list_from(Seq::empty(), data_view(list@)),
            }),
            arena_wf(old(st)@) ==> arena_wf(final(st)@),
    {
        let ghost pairs = data_view(list@);
        let mut data: Vec<(String, MalType)> = Vec::new();
        let n = list.len();
        let mut list = list;
        let mut i: usize = 0;
        proof {
            assert(data_view(data@) =~= Seq::<(Seq<char>, SpecVal)>::empty());
            assert(pairs.skip(0) =~= pairs);
        }
        while i < n
            invariant
                i <= n,
                n == list@.len(),
                data_view(list@) == pairs,
                bind_list_from(data_view(data@), pairs.skip(i as int)) =~= bind_list_from(
                    Seq::empty(),
                    pairs,
                ),
            decreases n - i,
        {
            let ghost pre = data_view(data@);
            let key = list[i].0.clone();
            let value = list[i].1.duplicate();
            assoc_put(&mut data, key, value);
            proof {
                let ps = pairs.skip(i as int);
                assert(ps[0] == pairs[i as int]);
                assert(ps.drop_first() =~= pairs.skip(i + 1));
                assert(bind_list_from(pre, ps) == bind_list_from(
                    assoc_set(pre, ps[0].0, ps[0].1),
                    ps.drop_first(),
                ));
            }
            i = i + 1;
        }
        proof {
            assert(pairs.skip(n as int).len() == 0);
        }
        Self::raw_new(st, outer, data)
    }

    /// Bind `key` to `value` in this scope, replacing any previous binding of
    /// the same name here; enclosing scopes are untouched.
    pub fn set(self, st: &mut EnvArena, key: String, value: MalType)
        requires
            self.id < old(st)@.len(),
        ensures
            final(st)@ =~= old(st)@.update(self.id as int, SpecScope {
                outer: old(st)@[self.id as int].outer,
                data: assoc_set(old(st)@[self.id as int].data, key@, value@),
            }),
            arena_wf(old(st)@) ==> arena_wf(final(st)@),
    {
        let ghost kv = (key@, value@);
        let scope = &mut st.scopes[self.id];
        assoc_put(&mut scope.data, key, value);
        proof {
            let target = SpecScope {
                outer: old(st)@[self.id as int].outer,
                data: assoc_set(old(st)@[self.id as int].data, kv.0, kv.1),
            };
            assert(st@ =~= old(st)@.update(self.id as int, target));
            if arena_wf(old(st)@) {
                assert forall|i: int| 0 <= i < st@.len() implies match #[trigger] st@[i].outer {
                    Some(o) => 0 <= o < i,
                    None => true,
                } by {
                    assert(st@[i].outer == old(st)@[i].outer);
                }
            }
        }
    }

    /// Look `key` up through this scope and its ancestors, innermost first.
    pub fn get(self, st: &EnvArena, key: &str) -> (r: Option<MalType>)
        requires
            arena_wf(st@),
            self.id < st@.len(),
        ensures
            match r {
                Some(v) => env_lookup(st@, self.id as int, key@) == Some(v@),
                None => env_lookup(st@, self.id as int, key@) is None,
            },
    {
        proof {
            lemma_env_find_lookup(st@, self.id as int, key@);
        }
        match self.find_index(st, key) {
            Some(owner) => match data_find_index(&st.scopes[owner].data, key) {
                Some(i) => Some(st.scopes[owner].data[i].1.duplicate()),
                None => None,
            },
            None => None,
        }
    }

    /// The scope, if any, that binds `key`, walking outward from this one.
    pub fn find(self, st: &EnvArena, key: &str) -> (r: Option<Env>)
        requires
            arena_wf(st@),
            self.id < st@.len(),
        ensures
            match r {
                Some(e) => env_find(st@, self.id as int, key@) == Some(e.id as int),
                None => env_find(st@, self.id as int, key@) is None,
            },
    {
        match self.find_index(st, key) {
            Some(owner) => Some(Env { id: owner }),
            None => None,
        }
    }

    fn find_index(self, st: &EnvArena, key: &str) -> (r: Option<usize>)
        requires
            arena_wf(st@),
            self.id < st@.len(),
        ensures
            match r {
                Some(o) => env_find(st@, self.id as int, key@) == Some(o as int) && o < st@.len()
                    && assoc_find(st@[o as int].data, key@) is Some,
                None => env_find(st@, self.id as int, key@) is None,
            },
    {
        let mut cur: usize = self.id;
        loop
            invariant
                arena_wf(st@),
                cur < st@.len(),
                env_find(st@, self.id as int, key@) == env_find(st@, cur as int, key@),
            decreases cur,
        {
            match data_find_index(&st.scopes[cur].data, key) {
                Some(_) => {
                    return Some(cur);
                },
                None => {},
            }
            match &st.scopes[cur].outer {
                Some(e) => {
                    cur = e.id;
                },
                None => {
                    return None;
                },
            }
        }
    }
}

impl Env {
    /// Whether two scopes bind the same names to equivalent values, in any
    /// order.
    pub fn scope_data_eq(self, st: &EnvArena, other: Env) -> (r: bool)
        requires
            self.id < st@.len(),
            other.id < st@.len(),
    {
        let a = &st.scopes[self.id].data;
        let b = &st.scopes[other.id].data;
        if a.len() != b.len() {
            return false;
        }
        let n = a.len();
        let mut i: usize = 0;
        while i < n
            invariant
                i <= n,
                n == a@.len(),
            decreases n - i,
        {
            let mut found = false;
            let mut j: usize = 0;
            let m = b.len();
            while j < m
                invariant
                    j <= m,
                    m == b@.len(),
                    i < a@.len(),
                decreases m - j,
            {
                if compare_strings(a[i].0.as_str(), b[j].0.as_str()) {
                    found = a[i].1.mal_equiv(&b[j].1);
                    break;
                }
                j = j + 1;
            }
            if !found {
                return false;
            }
            i = i + 1;
        }
        true
    }
}

/// Character-for-character equality of two string slices.
pub fn compare_strings(a: &str, b: &str) -> (r: bool)
    ensures
        r == (a@ == b@),
{
    let alen = a.unicode_len();
    let blen = b.unicode_len();
    if alen != blen {
        return false;
    }
    let mut i: usize = 0;
    while i < alen
        invariant
            i <= alen,
            alen == a@.len(),
            alen == b@.len(),
            forall|j: int| 0 <= j < i ==> a@[j] == b@[j],
        decreases alen - i,
    {
        if a.get_char(i) != b.get_char(i) {
            return false;
        }
        i = i + 1;
    }
    proof {
        assert(a@ =~= b@);
    }
    true
}

/// If no entry's key is `name`, the scan finds nothing.
proof fn lemma_assoc_find_none(data: Seq<(Seq<char>, SpecVal)>, name: Seq<char>)
    requires
        forall|j: int| 0 <= j < data.len() ==> data[j].0 != name,
    ensures
        assoc_find(data, name) is None,
    decreases data.len(),
{
    if data.len() > 0 {
        lemma_assoc_find_none(data.drop_first(), name);
    }
}

/// If `name` first occurs at position `i`, the scan returns that entry.
pub proof fn lemma_assoc_find_at(data: Seq<(Seq<char>, SpecVal)>, name: Seq<char>, i: int)
    requires
        0 <= i < data.len(),
        data[i].0 == name,
        forall|j: int| 0 <= j < i ==> data[j].0 != name,
    ensures
        assoc_find(data, name) == Some(data[i].1),
    decreases i,
{
    if i > 0 {
        lemma_assoc_find_at(data.drop_first(), name, i - 1);
    }
}

/// Replacing the first occurrence in place realises `assoc_set`.
proof fn lemma_assoc_set_at(data: Seq<(Seq<char>, SpecVal)>, name: Seq<char>, v: SpecVal, i: int)
    requires
        0 <= i < data.len(),
        data[i].0 == name,
        forall|j: int| 0 <= j < i ==> data[j].0 != name,
    ensures
        assoc_set(data, name, v) =~= data.update(i, (name, v)),
    decreases i,
{
    if i == 0 {
        assert(assoc_set(data, name, v) =~= seq![(name, v)] + data.drop_first());
        assert(seq![(name, v)] + data.drop_first() =~= data.update(0int, (name, v)));
    } else {
        lemma_assoc_set_at(data.drop_first(), name, v, i - 1);
        assert(data.drop_first().update(i - 1, (name, v)) =~= data.update(
            i,
            (name, v),
        ).drop_first());
    }
}

/// When `name` is absent, `assoc_set` appends.
pub proof fn lemma_assoc_set_append(data: Seq<(Seq<char>, SpecVal)>, name: Seq<char>, v: SpecVal)
    requires
        forall|j: int| 0 <= j < data.len() ==> data[j].0 != name,
    ensures
        assoc_set(data, name, v) =~= data.push((name, v)),
    decreases data.len(),
{
    if data.len() > 0 {
        lemma_assoc_set_append(data.drop_first(), name, v);
        assert(data.drop_first().push((name, v)) =~= data.push((name, v)).drop_first());
    }
}

} // verus!
