//! Operations on types: their text and the stream of items they feed to a
//! hasher.
use vstd::prelude::*;
use crate::ast::{ctors_view, lemma_ctors_view, lemma_types_view, types_view, FuncSignature, Name, Type, TypeV};
use crate::tac::join_text;
use crate::text::append_str;

verus! {

/// The text of a type.
pub open spec fn type_text(t: TypeV) -> Seq<char>
    decreases t, 0int,
{
    match t {
        TypeV::TInteger => "int"@,
        TypeV::TBool => "bool"@,
        TypeV::TReal => "real"@,
        TypeV::TString => "string"@,
        TypeV::TVoid => "void"@,
        TypeV::TFunction(r, ps) => "fn("@ + join_text(types_text(ps), ", "@) + ") -> "@ + type_text(*r),
        TypeV::TList(x) => "["@ + type_text(*x) + "]"@,
        TypeV::TTuple(es) => "("@ + join_text(types_text(es), ", "@) + ")"@,
        TypeV::TMaybe(x) => "Maybe<"@ + type_text(*x) + ">"@,
        TypeV::TResult(o, e) => "Result<"@ + type_text(*o) + ", "@ + type_text(*e) + ">"@,
        TypeV::TUnion(ts) => join_text(types_text(ts), " | "@),
        TypeV::TAny => "any"@,
        TypeV::TAlgebraicData(n, _) => n,
    }
}

/// The texts of a list of types.
pub open spec fn types_text(ts: Seq<TypeV>) -> Seq<Seq<char>>
    decreases ts, 0int,
{
    if ts.len() == 0 {
        seq![]
    } else {
        types_text(ts.drop_last()).push(type_text(ts.last()))
    }
}

/// The texts of a list of types, element by element.
pub proof fn lemma_types_text(ts: Seq<TypeV>)
    ensures
        types_text(ts).len() == ts.len(),
        forall|i: int| 0 <= i < ts.len() ==> #[trigger] types_text(ts)[i] == type_text(ts[i]),
    decreases ts.len(),
{
    if ts.len() > 0 {
        lemma_types_text(ts.drop_last());
    }
}

/// Appends the text of a type.
pub(crate) fn append_type_text(out: &mut String, t: &Type)
    ensures
        final(out)@ == old(out)@ + type_text(t@),
    decreases t, 1int,
{
    match t {
        Type::TInteger => append_str(out, "int"),
        Type::TBool => append_str(out, "bool"),
        Type::TReal => append_str(out, "real"),
        Type::TString => append_str(out, "string"),
        Type::TVoid => append_str(out, "void"),
        Type::TFunction(r, ps) => {
            append_str(out, "fn(");
            append_types_text(out, ps, ", ");
            append_str(out, ") -> ");
            append_type_text(out, r);
        },
        Type::TList(x) => {
            append_str(out, "[");
            append_type_text(out, x);
            append_str(out, "]");
        },
        Type::TTuple(es) => {
            append_str(out, "(");
            append_types_text(out, es, ", ");
            append_str(out, ")");
        },
        Type::TMaybe(x) => {
            append_str(out, "Maybe<");
            append_type_text(out, x);
            append_str(out, ">");
        },
        Type::TResult(o, e) => {
            append_str(out, "Result<");
            append_type_text(out, o);
            append_str(out, ", ");
            append_type_text(out, e);
            append_str(out, ">");
        },
        Type::TUnion(ts) => append_types_text(out, ts, " | "),
        Type::TAny => append_str(out, "any"),
        Type::TAlgebraicData(n, _) => append_str(out, n.as_str()),
    }
    assert(final(out)@ =~= old(out)@ + type_text(t@));
}

/// Appends the texts of a list of types, separated by `sep`.
fn append_types_text(out: &mut String, ts: &Vec<Type>, sep: &str)
    ensures
        final(out)@ == old(out)@ + join_text(types_text(types_view(ts@)), sep@),
    decreases ts@, 0int,
{
    let ghost tv = types_view(ts@);
    proof {
        lemma_types_view(ts@);
        lemma_types_text(tv);
    }
    let mut i: usize = 0;
    while i < ts.len()
        invariant
            i <= ts.len(),
            tv == types_view(ts@),
            tv.len() == ts.len(),
            forall|j: int| 0 <= j < ts.len() ==> #[trigger] tv[j] == ts@[j]@,
            types_text(tv).len() == tv.len(),
            forall|j: int| 0 <= j < tv.len() ==> #[trigger] types_text(tv)[j] == type_text(tv[j]),
            out@ == old(out)@ + join_text(types_text(tv).subrange(0, i as int), sep@),
        decreases ts.len() - i,
    {
        let ghost next = types_text(tv).subrange(0, i + 1);
        assert(next.drop_last() =~= types_text(tv).subrange(0, i as int));
        assert(next.last() == type_text(ts@[i as int]@));
        if i > 0 {
            append_str(out, sep);
        }
        append_type_text(out, &ts[i]);
        assert(out@ =~= old(out)@ + join_text(next, sep@));
        i = i + 1;
    }
    assert(types_text(tv).subrange(0, ts.len() as int) =~= types_text(tv));
}

impl Type {
    /// The text of the type: `int`, `bool`, `real`, `string`, `void`, `any`,
    /// `fn(<args>) -> <ret>`, `[<elem>]`, `(<elems>)`, `Maybe<..>`,
    /// `Result<.., ..>`, the members of a union separated by ` | `, and the
    /// name of an algebraic data type.
    pub fn to_display_string(&self) -> (r: String)
        ensures
            r@ == type_text(self@),
    {
        let mut s = String::new();
        append_type_text(&mut s, self);
        s
    }
}

/// The text of a signature: the name and the argument types in parentheses.
pub open spec fn signature_text(name: Seq<char>, args: Seq<TypeV>) -> Seq<char> {
    name + "("@ + join_text(types_text(args), ", "@) + ")"@
}

impl FuncSignature {
    /// The text of the signature: its name, then its argument types separated
    /// by `, ` in parentheses.
    pub fn to_display_string(&self) -> (r: String)
        ensures
            r@ == signature_text(self@.name, self@.argument_types),
    {
        let mut s = String::from_str(self.name.as_str());
        append_str(&mut s, "(");
        append_types_text(&mut s, &self.argument_types, ", ");
        append_str(&mut s, ")");
        s
    }
}

} // verus!

verus! {

/// What hashing a type feeds to the hasher: a tag byte, or a string (which a
/// hasher takes as its bytes followed by a terminator).
pub enum HashItem {
    Byte(u8),
    Text(String),
}

/// The view of a hash item.
pub enum HashItemV {
    Byte(u8),
    Text(Seq<char>),
}

impl View for HashItem {
    type V = HashItemV;

    open spec fn view(&self) -> HashItemV {
        match self {
            HashItem::Byte(b) => HashItemV::Byte(*b),
            HashItem::Text(s) => HashItemV::Text(s@),
        }
    }
}

/// The views of hash items.
pub open spec fn items_view(s: Seq<HashItem>) -> Seq<HashItemV> {
    s.map_values(|i: HashItem| i@)
}

/// Lexicographic order of strings, character by character.
pub open spec fn text_le(a: Seq<char>, b: Seq<char>) -> bool
    decreases a.len(),
{
    if a.len() == 0 {
        true
    } else if b.len() == 0 {
        false
    } else if a[0] != b[0] {
        a[0] < b[0]
    } else {
        text_le(a.drop_first(), b.drop_first())
    }
}

/// Inserts position `i` into an order of constructor positions sorted by
/// name, after every position whose name is not greater.
pub open spec fn insert_by_name(order: Seq<int>, i: int, cs: Seq<(Seq<char>, Seq<TypeV>)>) -> Seq<int>
    decreases order.len(),
{
    if order.len() == 0 {
        seq![i]
    } else if text_le(cs[order.last()].0, cs[i].0) {
        order.push(i)
    } else {
        insert_by_name(order.drop_last(), i, cs).push(order.last())
    }
}

/// The positions of the first `n` constructors sorted by name, equal names
/// keeping their order.
pub open spec fn order_by_name(cs: Seq<(Seq<char>, Seq<TypeV>)>, n: nat) -> Seq<int>
    decreases n,
{
    if n == 0 {
        seq![]
    } else {
        insert_by_name(order_by_name(cs, (n - 1) as nat), n - 1, cs)
    }
}

/// The items of a type.
pub open spec fn hash_items(t: TypeV) -> Seq<HashItemV>
    decreases t, 0int,
{
    match t {
        TypeV::TInteger => seq![HashItemV::Byte(0)],
        TypeV::TBool => seq![HashItemV::Byte(1)],
        TypeV::TReal => seq![HashItemV::Byte(2)],
        TypeV::TString => seq![HashItemV::Byte(3)],
        TypeV::TVoid => seq![HashItemV::Byte(4)],
        TypeV::TFunction(r, ps) => seq![HashItemV::Byte(5)] + hash_items(*r) + hash_all(ps),
        TypeV::TList(x) => seq![HashItemV::Byte(6)] + hash_items(*x),
        TypeV::TTuple(es) => seq![HashItemV::Byte(7)] + hash_all(es),
        TypeV::TMaybe(x) => seq![HashItemV::Byte(8)] + hash_items(*x),
        TypeV::TResult(o, e) => seq![HashItemV::Byte(9)] + hash_items(*o) + hash_items(*e),
        TypeV::TUnion(ts) => seq![HashItemV::Byte(10)] + hash_all(ts),
        TypeV::TAny => seq![HashItemV::Byte(11)],
        TypeV::TAlgebraicData(n, cs) => seq![HashItemV::Byte(12), HashItemV::Text(n)] + hash_ctors(
            cs,
            order_by_name(cs, cs.len()),
        ),
    }
}

/// The items of a list of types, in order.
pub open spec fn hash_all(ts: Seq<TypeV>) -> Seq<HashItemV>
    decreases ts, 0int,
{
    if ts.len() == 0 {
        seq![]
    } else {
        hash_all(ts.drop_last()) + hash_items(ts.last())
    }
}

/// The items of the constructors taken in the given order: each name, then
/// the items of its field types.
pub open spec fn hash_ctors(cs: Seq<(Seq<char>, Seq<TypeV>)>, order: Seq<int>) -> Seq<HashItemV>
    decreases cs, order.len(),
{
    if order.len() == 0 {
        seq![]
    } else {
        let k = order.last();
        hash_ctors(cs, order.drop_last()) + if 0 <= k < cs.len() {
            seq![HashItemV::Text(cs[k].0)] + hash_all(cs[k].1)
        } else {
            seq![]
        }
    }
}

/// Whether one name comes before or with another.
pub(crate) fn name_le(a: &Name, b: &Name) -> (r: bool)
    ensures
        r == text_le(a@, b@),
{
    let n = a.as_str().unicode_len();
    let m = b.as_str().unicode_len();
    let mut i: usize = 0;
    assert(a@.subrange(0, n as int) =~= a@);
    assert(b@.subrange(0, m as int) =~= b@);
    while i < n && i < m
        invariant
            n == a@.len(),
            m == b@.len(),
            i <= n,
            i <= m,
            text_le(a@, b@) == text_le(a@.subrange(i as int, n as int), b@.subrange(i as int, m as int)),
        decreases n - i,
    {
        let x = a.as_str().get_char(i);
        let y = b.as_str().get_char(i);
        let ghost sa = a@.subrange(i as int, n as int);
        let ghost sb = b@.subrange(i as int, m as int);
        assert(sa[0] == x && sb[0] == y);
        if x != y {
            return x < y;
        }
        assert(sa.drop_first() =~= a@.subrange(i + 1, n as int));
        assert(sb.drop_first() =~= b@.subrange(i + 1, m as int));
        i = i + 1;
    }
    i == n
}

/// Inserts position `i` into a sorted order of positions, after every
/// position whose name is not greater.
fn insert_position(order: &mut Vec<usize>, i: usize, cs: &Vec<(Name, Vec<Type>)>)
    requires
        i < cs.len(),
        forall|j: int| 0 <= j < old(order)@.len() ==> #[trigger] old(order)@[j] < cs.len(),
    ensures
        final(order)@.map_values(|x: usize| x as int) == insert_by_name(
            old(order)@.map_values(|x: usize| x as int),
            i as int,
            ctors_view(cs@),
        ),
        forall|j: int| 0 <= j < final(order)@.len() ==> #[trigger] final(order)@[j] < cs.len(),
    decreases old(order)@.len(),
{
    proof {
        lemma_ctors_view(cs@);
    }
    let ghost o = old(order)@.map_values(|x: usize| x as int);
    let n = order.len();
    if n == 0 {
        order.push(i);
        assert(order@.map_values(|x: usize| x as int) =~= seq![i as int]);
        return;
    }
    let last = order[n - 1];
    if name_le(&cs[last].0, &cs[i].0) {
        order.push(i);
        assert(order@.map_values(|x: usize| x as int) =~= o.push(i as int));
    } else {
        let popped = order.pop().unwrap();
        assert(order@.map_values(|x: usize| x as int) =~= o.drop_last());
        insert_position(order, i, cs);
        let ghost mid = order@.map_values(|x: usize| x as int);
        order.push(popped);
        assert(order@.map_values(|x: usize| x as int) =~= mid.push(popped as int));
    }
}

/// Appends the items of a type.
fn hash_type(t: &Type, state: &mut Vec<HashItem>)
    ensures
        items_view(final(state)@) == items_view(old(state)@) + hash_items(t@),
    decreases t, 1int,
{
    let ghost before = items_view(state@);
    match t {
        Type::TInteger => state.push(HashItem::Byte(0)),
        Type::TBool => state.push(HashItem::Byte(1)),
        Type::TReal => state.push(HashItem::Byte(2)),
        Type::TString => state.push(HashItem::Byte(3)),
        Type::TVoid => state.push(HashItem::Byte(4)),
        Type::TFunction(r, ps) => {
            state.push(HashItem::Byte(5));
            hash_type(r, state);
            hash_types(ps, state);
        },
        Type::TList(x) => {
            state.push(HashItem::Byte(6));
            hash_type(x, state);
        },
        Type::TTuple(es) => {
            state.push(HashItem::Byte(7));
            hash_types(es, state);
        },
        Type::TMaybe(x) => {
            state.push(HashItem::Byte(8));
            hash_type(x, state);
        },
        Type::TResult(o, e) => {
            state.push(HashItem::Byte(9));
            hash_type(o, state);
            hash_type(e, state);
        },
        Type::TUnion(ts) => {
            state.push(HashItem::Byte(10));
            hash_types(ts, state);
        },
        Type::TAny => state.push(HashItem::Byte(11)),
        Type::TAlgebraicData(n, cs) => {
            proof {
                lemma_ctors_view(cs@);
            }
            state.push(HashItem::Byte(12));
            state.push(HashItem::Text(n.clone()));
            hash_ctors_sorted(cs, state);
        },
    }
    assert(items_view(state@) =~= before + hash_items(t@));
}

/// Appends the items of a list of types.
fn hash_types(ts: &Vec<Type>, state: &mut Vec<HashItem>)
    ensures
        items_view(final(state)@) == items_view(old(state)@) + hash_all(types_view(ts@)),
    decreases ts@, 0int,
{
    let ghost tv = types_view(ts@);
    proof {
        lemma_types_view(ts@);
    }
    let mut i: usize = 0;
    assert(tv.subrange(0, 0) =~= Seq::<TypeV>::empty());
    assert(items_view(state@) =~= items_view(old(state)@) + hash_all(tv.subrange(0, 0)));
    while i < ts.len()
        invariant
            i <= ts.len(),
            tv == types_view(ts@),
            tv.len() == ts.len(),
            forall|j: int| 0 <= j < ts.len() ==> #[trigger] tv[j] == ts@[j]@,
            items_view(state@) == items_view(old(state)@) + hash_all(tv.subrange(0, i as int)),
        decreases ts.len() - i,
    {
        let ghost next = tv.subrange(0, i + 1);
        assert(next.drop_last() =~= tv.subrange(0, i as int));
        hash_type(&ts[i], state);
        assert(items_view(state@) =~= items_view(old(state)@) + hash_all(next));
        i = i + 1;
    }
    assert(tv.subrange(0, ts.len() as int) =~= tv);
}

/// The positions of the constructors sorted by name, equal names keeping
/// their order.
pub(crate) fn order_ctors_by_name(cs: &Vec<(Name, Vec<Type>)>) -> (order: Vec<usize>)
    ensures
        order@.map_values(|x: usize| x as int) == order_by_name(ctors_view(cs@), cs.len() as nat),
        forall|j: int| 0 <= j < order@.len() ==> #[trigger] order@[j] < cs.len(),
{
    let ghost cv = ctors_view(cs@);
    let mut order: Vec<usize> = Vec::new();
    let mut i: usize = 0;
    assert(order@.map_values(|x: usize| x as int) =~= order_by_name(cv, 0));
    while i < cs.len()
        invariant
            i <= cs.len(),
            cv == ctors_view(cs@),
            order@.map_values(|x: usize| x as int) == order_by_name(cv, i as nat),
            forall|j: int| 0 <= j < order@.len() ==> #[trigger] order@[j] < cs.len(),
        decreases cs.len() - i,
    {
        insert_position(&mut order, i, cs);
        i = i + 1;
    }
    order
}

/// Appends the items of the constructors sorted by name.
fn hash_ctors_sorted(cs: &Vec<(Name, Vec<Type>)>, state: &mut Vec<HashItem>)
    ensures
        items_view(final(state)@) == items_view(old(state)@) + hash_ctors(
            ctors_view(cs@),
            order_by_name(ctors_view(cs@), cs.len() as nat),
        ),
    decreases cs@, 0int,
{
    let ghost cv = ctors_view(cs@);
    proof {
        lemma_ctors_view(cs@);
    }
    let order = order_ctors_by_name(cs);
    let ghost ord = order@.map_values(|x: usize| x as int);
    let mut k: usize = 0;
    assert(ord.subrange(0, 0) =~= Seq::<int>::empty());
    assert(items_view(state@) =~= items_view(old(state)@) + hash_ctors(cv, ord.subrange(0, 0)));
    while k < order.len()
        invariant
            k <= order.len(),
            cv == ctors_view(cs@),
            cv.len() == cs.len(),
            forall|j: int|
                0 <= j < cs.len() ==> #[trigger] cv[j] == (cs@[j].0@, types_view(cs@[j].1@)),
            ord == order@.map_values(|x: usize| x as int),
            ord == order_by_name(cv, cs.len() as nat),
            forall|j: int| 0 <= j < order@.len() ==> #[trigger] order@[j] < cs.len(),
            items_view(state@) == items_view(old(state)@) + hash_ctors(cv, ord.subrange(0, k as int)),
        decreases order.len() - k,
    {
        let p = order[k];
        let ghost next = ord.subrange(0, k + 1);
        assert(next.drop_last() =~= ord.subrange(0, k as int));
        assert(next.last() == p as int);
        let ghost before = items_view(state@);
        let name = cs[p].0.clone();
        let ghost nv = name@;
        state.push(HashItem::Text(name));
        assert(items_view(state@) =~= before.push(HashItemV::Text(nv)));
        let ghost mid = items_view(state@);
        hash_types(&cs[p].1, state);
        assert(cv[p as int] == (cs@[p as int].0@, types_view(cs@[p as int].1@)));
        assert(items_view(state@) == mid + hash_all(types_view(cs@[p as int].1@)));
        assert(hash_ctors(cv, next) == hash_ctors(cv, ord.subrange(0, k as int)) + (seq![HashItemV::Text(cv[p as int].0)] + hash_all(cv[p as int].1)));
        assert(items_view(state@) =~= items_view(old(state)@) + hash_ctors(cv, next));
        k = k + 1;
    }
    assert(ord.subrange(0, order.len() as int) =~= ord);
}

impl Type {
    /// Feeds the type to a hash: a tag per kind of type, then its parts; the
    /// constructors of an algebraic data type go in the order of their names,
    /// so that the hash does not depend on the order they were listed in.
    pub fn hash_helper(&self, state: &mut Vec<HashItem>)
        ensures
            items_view(final(state)@) == items_view(old(state)@) + hash_items(self@),
    {
        hash_type(self, state);
    }
}

} // verus!
