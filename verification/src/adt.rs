//! The constructors of an algebraic data type as a map from names to field
//! types: kept sorted by name, each name once, so that two constructor lists
//! are equal exactly when they define the same constructors.
use vstd::prelude::*;
use crate::ast::{clone_types, ctors_view, lemma_ctors_view, types_view, Name, Type, TypeV};
use crate::type_ops::{name_le, text_le};

verus! {

/// One name strictly before another.
pub open spec fn text_lt(a: Seq<char>, b: Seq<char>) -> bool {
    text_le(a, b) && a != b
}

/// Names compare one way or the other.
pub proof fn lemma_text_total(a: Seq<char>, b: Seq<char>)
    ensures
        text_le(a, b) || text_le(b, a),
    decreases a.len(),
{
    if a.len() > 0 && b.len() > 0 {
        if a[0] == b[0] {
            lemma_text_total(a.drop_first(), b.drop_first());
        }
    }
}

/// Names that come before each other are equal.
pub proof fn lemma_text_antisymmetric(a: Seq<char>, b: Seq<char>)
    requires
        text_le(a, b),
        text_le(b, a),
    ensures
        a == b,
    decreases a.len(),
{
    if a.len() > 0 && b.len() > 0 {
        lemma_text_antisymmetric(a.drop_first(), b.drop_first());
        assert(a =~= seq![a[0]] + a.drop_first());
        assert(b =~= seq![b[0]] + b.drop_first());
    }
}

/// The order of names is transitive.
pub proof fn lemma_text_transitive(a: Seq<char>, b: Seq<char>, c: Seq<char>)
    requires
        text_le(a, b),
        text_le(b, c),
    ensures
        text_le(a, c),
    decreases a.len(),
{
    if a.len() > 0 && b.len() > 0 && c.len() > 0 && a[0] == b[0] && b[0] == c[0] {
        lemma_text_transitive(a.drop_first(), b.drop_first(), c.drop_first());
    }
}

/// The strict order of names is transitive.
pub proof fn lemma_text_lt_transitive(a: Seq<char>, b: Seq<char>, c: Seq<char>)
    requires
        text_lt(a, b),
        text_le(b, c),
    ensures
        text_lt(a, c),
{
    lemma_text_transitive(a, b, c);
    if a == c {
        lemma_text_antisymmetric(a, b);
    }
}

/// Constructors sorted strictly by name: no name twice.
pub open spec fn ctors_canonical(cs: Seq<(Seq<char>, Seq<TypeV>)>) -> bool {
    forall|i: int, j: int| 0 <= i < j < cs.len() ==> text_lt(#[trigger] cs[i].0, #[trigger] cs[j].0)
}

/// The constructors as a map from names to field types; a later entry of a
/// name replaces an earlier one.
pub open spec fn ctor_map(cs: Seq<(Seq<char>, Seq<TypeV>)>) -> Map<Seq<char>, Seq<TypeV>>
    decreases cs.len(),
{
    if cs.len() == 0 {
        Map::empty()
    } else {
        ctor_map(cs.drop_last()).insert(cs.last().0, cs.last().1)
    }
}

/// Adds a constructor to a sorted list: it replaces the entry of its name,
/// or goes where its name belongs.
pub open spec fn insert_ctor(cs: Seq<(Seq<char>, Seq<TypeV>)>, c: (Seq<char>, Seq<TypeV>)) -> Seq<(Seq<char>, Seq<TypeV>)>
    decreases cs.len(),
{
    if cs.len() == 0 {
        seq![c]
    } else if cs.last().0 == c.0 {
        cs.drop_last().push(c)
    } else if text_le(cs.last().0, c.0) {
        cs.push(c)
    } else {
        insert_ctor(cs.drop_last(), c).push(cs.last())
    }
}

/// The constructors sorted by name, each name once with the last entry
/// given for it.
pub open spec fn canonical_ctors(cs: Seq<(Seq<char>, Seq<TypeV>)>) -> Seq<(Seq<char>, Seq<TypeV>)>
    decreases cs.len(),
{
    if cs.len() == 0 {
        seq![]
    } else {
        insert_ctor(canonical_ctors(cs.drop_last()), cs.last())
    }
}

/// The names of a map built from a list are the names of its entries.
proof fn lemma_ctor_map_dom(cs: Seq<(Seq<char>, Seq<TypeV>)>, k: Seq<char>)
    ensures
        ctor_map(cs).dom().contains(k) <==> exists|i: int| 0 <= i < cs.len() && #[trigger] cs[i].0 == k,
    decreases cs.len(),
{
    if cs.len() > 0 {
        lemma_ctor_map_dom(cs.drop_last(), k);
        if exists|i: int| 0 <= i < cs.drop_last().len() && #[trigger] cs.drop_last()[i].0 == k {
            let i = choose|i: int| 0 <= i < cs.drop_last().len() && #[trigger] cs.drop_last()[i].0 == k;
            assert(cs[i].0 == k);
        }
        if exists|i: int| 0 <= i < cs.len() && #[trigger] cs[i].0 == k {
            let i = choose|i: int| 0 <= i < cs.len() && #[trigger] cs[i].0 == k;
            if i < cs.len() - 1 {
                assert(cs.drop_last()[i].0 == k);
            }
        }
    }
}

/// Inserting into a sorted list keeps it sorted, gives the map with the
/// constructor added, and brings in no name but the constructor's.
proof fn lemma_insert_ctor(cs: Seq<(Seq<char>, Seq<TypeV>)>, c: (Seq<char>, Seq<TypeV>))
    requires
        ctors_canonical(cs),
    ensures
        ctors_canonical(insert_ctor(cs, c)),
        ctor_map(insert_ctor(cs, c)) == ctor_map(cs).insert(c.0, c.1),
        insert_ctor(cs, c).len() > 0,
        forall|i: int|
            0 <= i < insert_ctor(cs, c).len() ==> #[trigger] insert_ctor(cs, c)[i].0 == c.0 || exists|j: int|
                0 <= j < cs.len() && cs[j].0 == insert_ctor(cs, c)[i].0,
    decreases cs.len(),
{
    let r = insert_ctor(cs, c);
    if cs.len() == 0 {
        assert(r.drop_last() =~= cs);
        assert(r.last() == c);
        assert(ctor_map(r) == ctor_map(r.drop_last()).insert(c.0, c.1));
    } else if cs.last().0 == c.0 {
        let d = cs.drop_last();
        assert(r.drop_last() =~= d);
        assert(ctor_map(r) =~= ctor_map(cs).insert(c.0, c.1));
        assert forall|i: int, j: int| 0 <= i < j < r.len() implies text_lt(#[trigger] r[i].0, #[trigger] r[j].0) by {
            assert(cs[i].0 == r[i].0);
            if j < r.len() - 1 {
                assert(cs[j].0 == r[j].0);
            } else {
                assert(cs[cs.len() - 1].0 == c.0);
            }
        }
        assert forall|i: int| 0 <= i < r.len() implies #[trigger] r[i].0 == c.0 || exists|j: int|
            0 <= j < cs.len() && cs[j].0 == r[i].0 by {
            if i < r.len() - 1 {
                assert(cs[i].0 == r[i].0);
            }
        }
    } else if text_le(cs.last().0, c.0) {
        assert(r.drop_last() =~= cs);
        assert forall|i: int, j: int| 0 <= i < j < r.len() implies text_lt(#[trigger] r[i].0, #[trigger] r[j].0) by {
            if j == r.len() - 1 {
                if i < cs.len() - 1 {
                    assert(text_lt(cs[i].0, cs[cs.len() - 1].0));
                    lemma_text_lt_transitive(cs[i].0, cs.last().0, c.0);
                }
            }
        }
        assert forall|i: int| 0 <= i < r.len() implies #[trigger] r[i].0 == c.0 || exists|j: int|
            0 <= j < cs.len() && cs[j].0 == r[i].0 by {
            if i < r.len() - 1 {
                assert(cs[i].0 == r[i].0);
            }
        }
    } else {
        let d = cs.drop_last();
        let l = cs.last();
        let q = insert_ctor(d, c);
        assert forall|i: int, j: int| 0 <= i < j < d.len() implies text_lt(#[trigger] d[i].0, #[trigger] d[j].0) by {
            assert(d[i] == cs[i] && d[j] == cs[j]);
        }
        lemma_insert_ctor(d, c);
        assert(r.drop_last() =~= q);
        assert(r.last() == l);
        lemma_text_total(l.0, c.0);
        assert(text_lt(c.0, l.0));
        assert forall|i: int| 0 <= i < q.len() implies text_lt(#[trigger] q[i].0, l.0) by {
            if q[i].0 != c.0 {
                let j = choose|j: int| 0 <= j < d.len() && d[j].0 == q[i].0;
                assert(d[j] == cs[j]);
                assert(text_lt(cs[j].0, cs[cs.len() - 1].0));
            }
        }
        assert forall|i: int, j: int| 0 <= i < j < r.len() implies text_lt(#[trigger] r[i].0, #[trigger] r[j].0) by {
            assert(r[i] == q[i]);
            if j < r.len() - 1 {
                assert(r[j] == q[j]);
            } else {
                assert(text_lt(q[i].0, l.0));
            }
        }
        assert forall|i: int| 0 <= i < r.len() implies #[trigger] r[i].0 == c.0 || exists|j: int|
            0 <= j < cs.len() && cs[j].0 == r[i].0 by {
            if i < r.len() - 1 {
                assert(r[i] == q[i]);
                if q[i].0 != c.0 {
                    let j = choose|j: int| 0 <= j < d.len() && d[j].0 == q[i].0;
                    assert(d[j] == cs[j]);
                }
            } else {
                assert(cs[cs.len() - 1].0 == r[i].0);
            }
        }
        assert(l.0 != c.0);
        assert(ctor_map(r) =~= ctor_map(cs).insert(c.0, c.1));
    }
}

/// The sorted form of a constructor list is sorted, and defines the same
/// constructors as the list (a later entry of a name replacing an earlier
/// one).
pub proof fn law_canonical_ctors_same_map(cs: Seq<(Seq<char>, Seq<TypeV>)>)
    ensures
        ctors_canonical(canonical_ctors(cs)),
        ctor_map(canonical_ctors(cs)) == ctor_map(cs),
    decreases cs.len(),
{
    if cs.len() > 0 {
        law_canonical_ctors_same_map(cs.drop_last());
        lemma_insert_ctor(canonical_ctors(cs.drop_last()), cs.last());
    }
}

/// Two sorted constructor lists are equal exactly when they define the
/// same constructors: equality of constructor lists is equality of maps.
pub proof fn law_canonical_equal_iff_same_map(a: Seq<(Seq<char>, Seq<TypeV>)>, b: Seq<(Seq<char>, Seq<TypeV>)>)
    requires
        ctors_canonical(a),
        ctors_canonical(b),
    ensures
        (a == b) <==> (ctor_map(a) == ctor_map(b)),
    decreases a.len(),
{
    if ctor_map(a) == ctor_map(b) {
        if a.len() == 0 || b.len() == 0 {
            if a.len() > 0 {
                lemma_ctor_map_dom(a, a.last().0);
                lemma_ctor_map_dom(b, a.last().0);
            }
            if b.len() > 0 {
                lemma_ctor_map_dom(b, b.last().0);
                lemma_ctor_map_dom(a, b.last().0);
            }
            assert(a =~= b);
        } else {
            let x = a.last().0;
            let y = b.last().0;
            lemma_ctor_map_dom(a, y);
            lemma_ctor_map_dom(b, x);
            let i = choose|i: int| 0 <= i < a.len() && #[trigger] a[i].0 == y;
            let j = choose|j: int| 0 <= j < b.len() && #[trigger] b[j].0 == x;
            if i < a.len() - 1 {
                assert(text_lt(a[i].0, a[a.len() - 1].0));
            }
            if j < b.len() - 1 {
                assert(text_lt(b[j].0, b[b.len() - 1].0));
            }
            if x != y {
                if i < a.len() - 1 && j < b.len() - 1 {
                    lemma_text_antisymmetric(x, y);
                }
            }
            assert(x == y);
            let da = a.drop_last();
            let db = b.drop_last();
            lemma_ctor_map_dom(da, x);
            lemma_ctor_map_dom(db, x);
            if exists|k: int| 0 <= k < da.len() && #[trigger] da[k].0 == x {
                let k = choose|k: int| 0 <= k < da.len() && #[trigger] da[k].0 == x;
                assert(text_lt(a[k].0, a[a.len() - 1].0));
            }
            if exists|k: int| 0 <= k < db.len() && #[trigger] db[k].0 == x {
                let k = choose|k: int| 0 <= k < db.len() && #[trigger] db[k].0 == x;
                assert(text_lt(b[k].0, b[b.len() - 1].0));
            }
            assert(ctor_map(da) =~= ctor_map(a).remove(x));
            assert(ctor_map(db) =~= ctor_map(b).remove(x));
            assert forall|p: int, q: int| 0 <= p < q < da.len() implies text_lt(#[trigger] da[p].0, #[trigger] da[q].0) by {
                assert(da[p] == a[p] && da[q] == a[q]);
            }
            assert forall|p: int, q: int| 0 <= p < q < db.len() implies text_lt(#[trigger] db[p].0, #[trigger] db[q].0) by {
                assert(db[p] == b[p] && db[q] == b[q]);
            }
            law_canonical_equal_iff_same_map(da, db);
            assert(a.last().1 == ctor_map(a)[x]);
            assert(b.last().1 == ctor_map(b)[x]);
            assert(a =~= da.push(a.last()));
            assert(b =~= db.push(b.last()));
        }
    }
}

/// Adds a constructor to a list sorted by name, as [`insert_ctor`] states.
fn insert_ctor_exec(cs: &mut Vec<(Name, Vec<Type>)>, c: (Name, Vec<Type>))
    ensures
        ctors_view(final(cs)@) == insert_ctor(ctors_view(old(cs)@), (c.0@, types_view(c.1@))),
    decreases old(cs)@.len(),
{
    proof {
        lemma_ctors_view(old(cs)@);
    }
    let ghost cv = (c.0@, types_view(c.1@));
    let ghost before = ctors_view(cs@);
    if cs.len() == 0 {
        cs.push(c);
        proof {
            lemma_ctors_view(cs@);
        }
        assert(ctors_view(cs@) =~= seq![cv]);
        return;
    }
    let last = cs.pop().unwrap();
    let ghost lv = (last.0@, types_view(last.1@));
    proof {
        lemma_ctors_view(cs@);
        assert(ctors_view(cs@) =~= before.drop_last());
        assert(before.last() == lv);
    }
    if last.0 == c.0 {
        cs.push(c);
        proof {
            lemma_ctors_view(cs@);
        }
        assert(ctors_view(cs@) =~= before.drop_last().push(cv));
    } else if name_le(&last.0, &c.0) {
        cs.push(last);
        cs.push(c);
        proof {
            lemma_ctors_view(cs@);
        }
        assert(ctors_view(cs@) =~= before.push(cv));
    } else {
        insert_ctor_exec(cs, c);
        let ghost mid = ctors_view(cs@);
        let ghost pre = cs@;
        proof {
            lemma_ctors_view(pre);
        }
        cs.push(last);
        proof {
            lemma_ctors_view(cs@);
            assert(cs@.drop_last() == pre);
        }
        assert(ctors_view(cs@) =~= mid.push(lv));
    }
}

/// The constructors sorted by name, each name once with its last entry, as
/// [`canonical_ctors`] states.
pub(crate) fn sort_constructors(cs: Vec<(Name, Vec<Type>)>) -> (r: Vec<(Name, Vec<Type>)>)
    ensures
        ctors_view(r@) == canonical_ctors(ctors_view(cs@)),
{
    let ghost v = ctors_view(cs@);
    proof {
        lemma_ctors_view(cs@);
    }
    let mut r: Vec<(Name, Vec<Type>)> = Vec::new();
    let mut i: usize = 0;
    assert(v.subrange(0, 0) =~= Seq::<(Seq<char>, Seq<TypeV>)>::empty());
    proof {
        lemma_ctors_view(r@);
    }
    assert(ctors_view(r@) =~= Seq::<(Seq<char>, Seq<TypeV>)>::empty());
    while i < cs.len()
        invariant
            i <= cs.len(),
            v == ctors_view(cs@),
            v.len() == cs.len(),
            forall|j: int| 0 <= j < cs.len() ==> #[trigger] v[j] == (cs@[j].0@, types_view(cs@[j].1@)),
            ctors_view(r@) == canonical_ctors(v.subrange(0, i as int)),
        decreases cs.len() - i,
    {
        let c = (cs[i].0.clone(), clone_types(&cs[i].1));
        insert_ctor_exec(&mut r, c);
        assert(v.subrange(0, i + 1).drop_last() =~= v.subrange(0, i as int));
        i = i + 1;
    }
    assert(v.subrange(0, cs.len() as int) =~= v);
    r
}

} // verus!
