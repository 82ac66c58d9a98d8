//! Ordered association tables with distinct keys, the building block of the
//! scopes of an environment.
use vstd::prelude::*;
use crate::ast::{
    clone_ctors, clone_expr, clone_function, clone_type, ctors_view, types_equal, ExprV, Expression,
    FuncSignature, FuncSignatureV, Function, FunctionV, Name, Type, TypeV,
};

verus! {

/// A value that can be stored in an environment: it has a mathematical model
/// and can be duplicated without changing that model.
pub trait Binding: Sized {
    type M;

    spec fn model(&self) -> Self::M;

    fn duplicate(&self) -> (r: Self)
        ensures
            r.model() == self.model(),
    ;
}

/// A value that can serve as the key of a table: keys are compared by their
/// models.
pub trait Key: Binding {
    fn same_key(&self, other: &Self) -> (r: bool)
        ensures
            r == (self.model() == other.model()),
    ;
}

impl Binding for String {
    type M = Seq<char>;

    open spec fn model(&self) -> Seq<char> {
        self@
    }

    fn duplicate(&self) -> (r: Self) {
        self.clone()
    }
}

impl Key for String {
    fn same_key(&self, other: &Self) -> (r: bool) {
        *self == *other
    }
}

impl Binding for i32 {
    type M = i32;

    open spec fn model(&self) -> i32 {
        *self
    }

    fn duplicate(&self) -> (r: Self) {
        *self
    }
}

impl Binding for Type {
    type M = TypeV;

    open spec fn model(&self) -> TypeV {
        self@
    }

    fn duplicate(&self) -> (r: Self) {
        clone_type(self)
    }
}

impl Binding for Expression {
    type M = ExprV;

    open spec fn model(&self) -> ExprV {
        self@
    }

    fn duplicate(&self) -> (r: Self) {
        clone_expr(self)
    }
}

impl Binding for Function {
    type M = FunctionV;

    open spec fn model(&self) -> FunctionV {
        self@
    }

    fn duplicate(&self) -> (r: Self) {
        clone_function(self)
    }
}

impl Binding for FuncSignature {
    type M = FuncSignatureV;

    open spec fn model(&self) -> FuncSignatureV {
        self@
    }

    fn duplicate(&self) -> (r: Self) {
        self.clone()
    }
}

impl Key for FuncSignature {
    fn same_key(&self, other: &Self) -> (r: bool) {
        let same_name = self.name == other.name;
        same_name && types_equal(&self.argument_types, &other.argument_types)
    }
}

impl Binding for Vec<(Name, Vec<Type>)> {
    type M = Seq<(Seq<char>, Seq<TypeV>)>;

    open spec fn model(&self) -> Seq<(Seq<char>, Seq<TypeV>)> {
        ctors_view(self@)
    }

    fn duplicate(&self) -> (r: Self) {
        clone_ctors(self)
    }
}

impl<A: Binding> Binding for (bool, A) {
    type M = (bool, A::M);

    open spec fn model(&self) -> (bool, A::M) {
        (self.0, self.1.model())
    }

    fn duplicate(&self) -> (r: Self) {
        (self.0, self.1.duplicate())
    }
}

/// The model of a sequence of entries.
pub open spec fn entries_model<K: Binding, V: Binding>(s: Seq<(K, V)>) -> Seq<(K::M, V::M)> {
    s.map_values(|e: (K, V)| (e.0.model(), e.1.model()))
}

/// No key occurs twice.
pub open spec fn distinct_keys<K, V>(s: Seq<(K, V)>) -> bool {
    forall|i: int, j: int| 0 <= i < j < s.len() ==> s[i].0 != s[j].0
}

/// Some entry has the key `k`.
pub open spec fn has_key<K, V>(s: Seq<(K, V)>, k: K) -> bool {
    exists|i: int| 0 <= i < s.len() && s[i].0 == k
}

/// The position of the entry with key `k` (meaningful when there is one).
pub open spec fn key_index<K, V>(s: Seq<(K, V)>, k: K) -> int {
    choose|i: int| 0 <= i < s.len() && s[i].0 == k
}

/// The value stored under `k` (meaningful when there is one).
pub open spec fn value_at<K, V>(s: Seq<(K, V)>, k: K) -> V {
    s[key_index(s, k)].1
}

/// The table seen as a finite map.
pub open spec fn as_map<K, V>(s: Seq<(K, V)>) -> Map<K, V> {
    Map::new(|k: K| has_key(s, k), |k: K| value_at(s, k))
}

/// With distinct keys, the entry found at position `i` is the one of its key.
pub proof fn lemma_value_at<K, V>(s: Seq<(K, V)>, i: int)
    requires
        distinct_keys(s),
        0 <= i < s.len(),
    ensures
        has_key(s, s[i].0),
        key_index(s, s[i].0) == i,
        value_at(s, s[i].0) == s[i].1,
{
    assert(has_key(s, s[i].0));
    let j = key_index(s, s[i].0);
    if j != i {
        if j < i {
            assert(s[j].0 != s[i].0);
        } else {
            assert(s[i].0 != s[j].0);
        }
    }
}

/// Replacing the value of an existing key.
pub proof fn lemma_update_map<K, V>(s: Seq<(K, V)>, i: int, k: K, v: V)
    requires
        distinct_keys(s),
        0 <= i < s.len(),
        s[i].0 == k,
    ensures
        distinct_keys(s.update(i, (k, v))),
        as_map(s.update(i, (k, v))) == as_map(s).insert(k, v),
{
    let t = s.update(i, (k, v));
    assert forall|a: int, b: int| 0 <= a < b < t.len() implies t[a].0 != t[b].0 by {
        assert(s[a].0 != s[b].0);
    }
    assert forall|key: K| #[trigger] has_key(t, key) == (has_key(s, key) || key == k) by {
        if has_key(t, key) {
            let j = choose|j: int| 0 <= j < t.len() && t[j].0 == key;
            assert(s[j].0 == key);
        }
        if has_key(s, key) {
            let j = choose|j: int| 0 <= j < s.len() && s[j].0 == key;
            assert(t[j].0 == key);
        }
        if key == k {
            assert(t[i].0 == key);
        }
    }
    assert forall|key: K| has_key(t, key) implies #[trigger] value_at(t, key) == as_map(s).insert(
        k,
        v,
    )[key] by {
        let j = choose|j: int| 0 <= j < t.len() && t[j].0 == key;
        lemma_value_at(t, j);
        if key != k {
            lemma_value_at(s, j);
        }
    }
    assert(as_map(t) =~= as_map(s).insert(k, v));
}

/// Adding an entry of a new key at the end.
pub proof fn lemma_push_map<K, V>(s: Seq<(K, V)>, k: K, v: V)
    requires
        distinct_keys(s),
        !has_key(s, k),
    ensures
        distinct_keys(s.push((k, v))),
        as_map(s.push((k, v))) == as_map(s).insert(k, v),
{
    let t = s.push((k, v));
    assert forall|a: int, b: int| 0 <= a < b < t.len() implies t[a].0 != t[b].0 by {
        if b < s.len() {
            assert(s[a].0 != s[b].0);
        } else {
            assert(t[a].0 == s[a].0);
        }
    }
    assert forall|key: K| #[trigger] has_key(t, key) == (has_key(s, key) || key == k) by {
        if has_key(t, key) {
            let j = choose|j: int| 0 <= j < t.len() && t[j].0 == key;
            if j < s.len() {
                assert(s[j].0 == key);
            }
        }
        if has_key(s, key) {
            let j = choose|j: int| 0 <= j < s.len() && s[j].0 == key;
            assert(t[j].0 == key);
        }
        if key == k {
            assert(t[s.len() as int].0 == key);
        }
    }
    assert forall|key: K| has_key(t, key) implies #[trigger] value_at(t, key) == as_map(s).insert(
        k,
        v,
    )[key] by {
        let j = choose|j: int| 0 <= j < t.len() && t[j].0 == key;
        lemma_value_at(t, j);
        if key != k {
            lemma_value_at(s, j);
        }
    }
    assert(as_map(t) =~= as_map(s).insert(k, v));
}

/// The entries with the entry of key `k` moved to the end, holding `v`: an
/// entry of the key leaves its place, and the new one goes last.
pub open spec fn seq_move_last<K, V>(s: Seq<(K, V)>, k: K, v: V) -> Seq<(K, V)> {
    if has_key(s, k) {
        s.remove(key_index(s, k)).push((k, v))
    } else {
        s.push((k, v))
    }
}

/// An ordered table with distinct keys.
pub struct Table<K, V> {
    entries: Vec<(K, V)>,
}

impl<K: Key, V: Binding> Table<K, V> {
    /// The entries of the table, in order, by their models.
    pub closed spec fn model(&self) -> Seq<(K::M, V::M)> {
        entries_model(self.entries@)
    }

    /// Keys are distinct.
    pub open spec fn wf(&self) -> bool {
        distinct_keys(self.model())
    }

    /// The table seen as a finite map.
    pub open spec fn view_map(&self) -> Map<K::M, V::M> {
        as_map(self.model())
    }

    /// An empty table.
    pub fn new() -> (r: Self)
        ensures
            r.wf(),
            r.model() == Seq::<(K::M, V::M)>::empty(),
    {
        let r = Table { entries: Vec::new() };
        assert(r.model() =~= Seq::<(K::M, V::M)>::empty());
        r
    }

    /// The number of entries.
    pub fn len(&self) -> (r: usize)
        ensures
            r == self.model().len(),
    {
        self.entries.len()
    }

    /// The entry at position `i`.
    pub fn entry(&self, i: usize) -> (r: (&K, &V))
        requires
            i < self.model().len(),
        ensures
            (r.0.model(), r.1.model()) == self.model()[i as int],
    {
        let e = &self.entries[i];
        (&e.0, &e.1)
    }

    /// The position of the entry of key `k`, if any.
    pub fn find(&self, k: &K) -> (r: Option<usize>)
        requires
            self.wf(),
        ensures
            r is Some <==> has_key(self.model(), k.model()),
            r matches Some(i) ==> i < self.model().len() && self.model()[i as int].0 == k.model()
                && key_index(self.model(), k.model()) == i,
    {
        let mut i: usize = 0;
        while i < self.entries.len()
            invariant
                i <= self.entries.len(),
                self.wf(),
                forall|j: int| 0 <= j < i ==> self.model()[j].0 != k.model(),
            decreases self.entries.len() - i,
        {
            if self.entries[i].0.same_key(k) {
                proof {
                    lemma_value_at(self.model(), i as int);
                }
                return Some(i);
            }
            i = i + 1;
        }
        None
    }

    /// The value stored under `k`, if any.
    pub fn get(&self, k: &K) -> (r: Option<&V>)
        requires
            self.wf(),
        ensures
            r is Some <==> self.view_map().dom().contains(k.model()),
            r matches Some(v) ==> v.model() == self.view_map()[k.model()],
    {
        match self.find(k) {
            Some(i) => {
                proof {
                    lemma_value_at(self.model(), i as int);
                }
                Some(&self.entries[i].1)
            },
            None => None,
        }
    }

    /// Stores `v` under `k`. An existing entry of the same key is replaced in
    /// place, a new key goes last.
    pub fn insert(&mut self, k: K, v: V)
        requires
            old(self).wf(),
        ensures
            final(self).wf(),
            final(self).view_map() == old(self).view_map().insert(k.model(), v.model()),
            has_key(old(self).model(), k.model()) ==> final(self).model() == old(self).model().update(
                key_index(old(self).model(), k.model()),
                (k.model(), v.model()),
            ),
            !has_key(old(self).model(), k.model()) ==> final(self).model() == old(self).model().push(
                (k.model(), v.model()),
            ),
    {
        let ghost km = k.model();
        let ghost vm = v.model();
        let ghost old_model = self.model();
        match self.find(&k) {
            Some(i) => {
                self.entries.set(i, (k, v));
                assert(self.model() =~= old_model.update(i as int, (km, vm)));
                proof {
                    lemma_update_map(old_model, i as int, km, vm);
                }
            },
            None => {
                self.entries.push((k, v));
                assert(self.model() =~= old_model.push((km, vm)));
                proof {
                    lemma_push_map(old_model, km, vm);
                }
            },
        }
    }

    /// Stores `v` under `k` as the last entry: an existing entry of the same
    /// key leaves its place.
    pub fn insert_last(&mut self, k: K, v: V)
        requires
            old(self).wf(),
        ensures
            final(self).wf(),
            final(self).view_map() == old(self).view_map().insert(k.model(), v.model()),
            final(self).model() == seq_move_last(old(self).model(), k.model(), v.model()),
    {
        let ghost km = k.model();
        let ghost vm = v.model();
        let ghost old_model = self.model();
        self.remove(&k);
        let ghost mid = self.model();
        assert(!has_key(mid, km)) by {
            if has_key(mid, km) {
                assert(as_map(mid).dom().contains(km));
            }
        }
        self.entries.push((k, v));
        assert(self.model() =~= mid.push((km, vm)));
        proof {
            lemma_push_map(mid, km, vm);
        }
        assert(as_map(mid).insert(km, vm) =~= as_map(old_model).insert(km, vm));
    }

    /// Replaces the value of an existing key in place; a missing key leaves the
    /// table unchanged. Returns whether the key was present.
    pub fn update(&mut self, k: &K, v: V) -> (r: bool)
        requires
            old(self).wf(),
        ensures
            final(self).wf(),
            r == has_key(old(self).model(), k.model()),
            r ==> final(self).view_map() == old(self).view_map().insert(k.model(), v.model()),
            r ==> final(self).model() == old(self).model().update(
                key_index(old(self).model(), k.model()),
                (k.model(), v.model()),
            ),
            !r ==> final(self).model() == old(self).model(),
    {
        match self.find(k) {
            Some(i) => {
                let key = k.duplicate();
                self.insert(key, v);
                true
            },
            None => false,
        }
    }

    /// Removes the entry of key `k`, if any, keeping the others in order.
    /// Returns whether there was one.
    pub fn remove(&mut self, k: &K) -> (r: bool)
        requires
            old(self).wf(),
        ensures
            final(self).wf(),
            r == has_key(old(self).model(), k.model()),
            final(self).view_map() == old(self).view_map().remove(k.model()),
            r ==> final(self).model() == old(self).model().remove(
                key_index(old(self).model(), k.model()),
            ),
            !r ==> *final(self) == *old(self),
    {
        let ghost km = k.model();
        let ghost old_model = self.model();
        match self.find(k) {
            Some(i) => {
                self.entries.remove(i);
                assert(self.model() =~= old_model.remove(i as int));
                assert forall|a: int, b: int|
                    0 <= a < b < self.model().len() implies self.model()[a].0 != self.model()[b].0 by {
                    let a2 = if a < i { a } else { a + 1 };
                    let b2 = if b < i { b } else { b + 1 };
                    assert(old_model[a2].0 != old_model[b2].0);
                }
                assert(self.view_map() =~= as_map(old_model).remove(km)) by {
                    assert forall|key: K::M| #[trigger] self.view_map().dom().contains(key) == as_map(
                        old_model,
                    ).remove(km).dom().contains(key) by {
                        if has_key(self.model(), key) {
                            let j = choose|j: int|
                                0 <= j < self.model().len() && self.model()[j].0 == key;
                            let j2 = if j < i { j } else { j + 1 };
                            assert(old_model[j2].0 == key);
                            assert(j2 != i);
                        }
                        if has_key(old_model, key) && key != km {
                            let j = choose|j: int| 0 <= j < old_model.len() && old_model[j].0 == key;
                            assert(j != i);
                            let j2 = if j < i { j } else { j - 1 };
                            assert(self.model()[j2].0 == key);
                        }
                    }
                    assert forall|key: K::M| #[trigger] self.view_map().dom().contains(key) implies
                        self.view_map()[key] == as_map(old_model).remove(km)[key] by {
                        let j = choose|j: int| 0 <= j < self.model().len() && self.model()[j].0 == key;
                        lemma_value_at(self.model(), j);
                        let j2 = if j < i { j } else { j + 1 };
                        assert(old_model[j2] == self.model()[j]);
                        lemma_value_at(old_model, j2);
                    }
                }
                true
            },
            None => {
                assert(as_map(old_model).remove(km) =~= as_map(old_model));
                false
            },
        }
    }

    /// A copy of the table.
    pub fn duplicate(&self) -> (r: Self)
        ensures
            r.model() == self.model(),
            r.wf() == self.wf(),
    {
        let mut entries: Vec<(K, V)> = Vec::new();
        let mut i: usize = 0;
        while i < self.entries.len()
            invariant
                i <= self.entries.len(),
                entries_model(entries@) == entries_model(self.entries@).subrange(0, i as int),
            decreases self.entries.len() - i,
        {
            let e = (self.entries[i].0.duplicate(), self.entries[i].1.duplicate());
            let ghost old_entries = entries@;
            entries.push(e);
            assert(entries@ == old_entries.push(e));
            assert(entries_model(entries@) =~= entries_model(old_entries).push((e.0.model(), e.1.model())));
            assert(entries_model(entries@) =~= entries_model(self.entries@).subrange(0, i + 1));
            i = i + 1;
        }
        let r = Table { entries };
        assert(r.model() =~= self.model());
        r
    }
}

} // verus!
