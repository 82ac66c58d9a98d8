//! A document language for pretty printing and its layout: a group is laid
//! out on one line when it fits in the width, otherwise its line breaks are
//! taken.
use vstd::prelude::*;
use crate::text::{append_str, push_char};

verus! {

/// A document.
pub enum Doc {
    /// The empty document.
    Nil,
    /// Text, laid out as it is.
    Text(String),
    /// A space on one line, or a line break followed by the indentation.
    Line,
    /// Always a line break followed by the indentation.
    HardLine,
    /// One document after another.
    Concat(Box<Doc>, Box<Doc>),
    /// A document whose line breaks are indented by more columns.
    Nest(usize, Box<Doc>),
    /// A document laid out on one line if it fits.
    Group(Box<Doc>),
}

/// The view of a document.
pub enum DocV {
    Nil,
    Text(Seq<char>),
    Line,
    HardLine,
    Concat(Box<DocV>, Box<DocV>),
    Nest(nat, Box<DocV>),
    Group(Box<DocV>),
}

/// The view of a document.
pub open spec fn doc_view(d: Doc) -> DocV
    decreases d,
{
    match d {
        Doc::Nil => DocV::Nil,
        Doc::Text(s) => DocV::Text(s@),
        Doc::Line => DocV::Line,
        Doc::HardLine => DocV::HardLine,
        Doc::Concat(a, b) => DocV::Concat(Box::new(doc_view(*a)), Box::new(doc_view(*b))),
        Doc::Nest(n, x) => DocV::Nest(n as nat, Box::new(doc_view(*x))),
        Doc::Group(x) => DocV::Group(Box::new(doc_view(*x))),
    }
}

impl View for Doc {
    type V = DocV;

    open spec fn view(&self) -> DocV {
        doc_view(*self)
    }
}

/// The number of nodes of a document.
pub open spec fn doc_size(d: DocV) -> nat
    decreases d,
{
    match d {
        DocV::Concat(a, b) => 1 + doc_size(*a) + doc_size(*b),
        DocV::Nest(_, x) => 1 + doc_size(*x),
        DocV::Group(x) => 1 + doc_size(*x),
        _ => 1,
    }
}

/// What remains to lay out: documents with their indentation and whether
/// they are laid out flat, the next one last.
pub type Work = Seq<(nat, bool, DocV)>;

/// The number of nodes still to lay out.
pub open spec fn work_size(z: Work) -> nat
    decreases z.len(),
{
    if z.len() == 0 {
        0
    } else {
        work_size(z.drop_last()) + doc_size(z.last().2)
    }
}

/// `n` spaces.
pub open spec fn spaces(n: nat) -> Seq<char>
    decreases n,
{
    if n == 0 {
        seq![]
    } else {
        spaces((n - 1) as nat).push(' ')
    }
}

/// Pushing a document adds its nodes to the work.
pub proof fn lemma_work_push(z: Work, e: (nat, bool, DocV))
    ensures
        work_size(z.push(e)) == work_size(z) + doc_size(e.2),
{
    assert(z.push(e).drop_last() =~= z);
}

/// Flat-or-not documents still to measure, the next one last.
pub type Pending = Seq<(bool, DocV)>;

/// The number of nodes still to measure.
pub open spec fn pending_size(z: Pending) -> nat
    decreases z.len(),
{
    if z.len() == 0 {
        0
    } else {
        pending_size(z.drop_last()) + doc_size(z.last().1)
    }
}

/// Pushing a document adds its nodes to what is pending.
pub proof fn lemma_pending_push(z: Pending, e: (bool, DocV))
    ensures
        pending_size(z.push(e)) == pending_size(z) + doc_size(e.1),
{
    assert(z.push(e).drop_last() =~= z);
}

/// The work without its indentations.
pub open spec fn strip(z: Work) -> Pending {
    z.map_values(|e: (nat, bool, DocV)| (e.1, e.2))
}

/// Whether the documents fit in `r` columns up to their next line break
/// taken.
pub open spec fn fits(r: int, z: Pending) -> bool
    decreases pending_size(z),
{
    if r < 0 {
        false
    } else if z.len() == 0 {
        true
    } else {
        let (flat, d) = z.last();
        let rest = z.drop_last();
        proof {
            lemma_pending_push(rest, z.last());
            assert(rest.push(z.last()) =~= z);
        }
        match d {
            DocV::Nil => fits(r, rest),
            DocV::Text(s) => fits(r - s.len(), rest),
            DocV::Line => if flat {
                fits(r - 1, rest)
            } else {
                true
            },
            DocV::HardLine => !flat,
            DocV::Concat(a, b) => {
                proof {
                    lemma_pending_push(rest, (flat, *b));
                    lemma_pending_push(rest.push((flat, *b)), (flat, *a));
                }
                fits(r, rest.push((flat, *b)).push((flat, *a)))
            },
            DocV::Nest(_, x) => {
                proof {
                    lemma_pending_push(rest, (flat, *x));
                }
                fits(r, rest.push((flat, *x)))
            },
            DocV::Group(x) => {
                proof {
                    lemma_pending_push(rest, (flat, *x));
                }
                fits(r, rest.push((flat, *x)))
            },
        }
    }
}

/// A column, counted up to one past the width (beyond the width every column
/// behaves alike).
pub open spec fn cap(k: int, w: nat) -> int {
    if k > w {
        (w + 1) as int
    } else {
        k
    }
}

/// The layout of the work in width `w`, the current column being `k`.
pub open spec fn layout(w: nat, k: int, z: Work) -> Seq<char>
    decreases work_size(z),
{
    if z.len() == 0 {
        seq![]
    } else {
        let (i, flat, d) = z.last();
        let rest = z.drop_last();
        proof {
            lemma_work_push(rest, z.last());
            assert(rest.push(z.last()) =~= z);
        }
        match d {
            DocV::Nil => layout(w, k, rest),
            DocV::Text(s) => s + layout(w, cap(k + s.len(), w), rest),
            DocV::Line => if flat {
                seq![' '] + layout(w, cap(k + 1, w), rest)
            } else {
                seq!['\n'] + spaces(i) + layout(w, i as int, rest)
            },
            DocV::HardLine => seq!['\n'] + spaces(i) + layout(w, i as int, rest),
            DocV::Concat(a, b) => {
                proof {
                    lemma_work_push(rest, (i, flat, *b));
                    lemma_work_push(rest.push((i, flat, *b)), (i, flat, *a));
                }
                layout(w, k, rest.push((i, flat, *b)).push((i, flat, *a)))
            },
            DocV::Nest(j, x) => {
                proof {
                    lemma_work_push(rest, (i + j, flat, *x));
                }
                layout(w, k, rest.push((i + j, flat, *x)))
            },
            DocV::Group(x) => {
                proof {
                    lemma_work_push(rest, (i, true, *x));
                    lemma_work_push(rest, (i, false, *x));
                }
                if flat || fits(w - k, strip(rest.push((i, true, *x)))) {
                    layout(w, k, rest.push((i, true, *x)))
                } else {
                    layout(w, k, rest.push((i, false, *x)))
                }
            },
        }
    }
}

/// The sum of the indentations that a document adds.
pub open spec fn nest_sum(d: DocV) -> nat
    decreases d,
{
    match d {
        DocV::Concat(a, b) => nest_sum(*a) + nest_sum(*b),
        DocV::Nest(j, x) => j + nest_sum(*x),
        DocV::Group(x) => nest_sum(*x),
        _ => 0,
    }
}

/// The layout of a document in width `w`.
pub open spec fn pretty_spec(w: nat, d: DocV) -> Seq<char> {
    layout(w, 0, seq![(0nat, false, d)])
}

} // verus!

verus! {

/// The view of the work kept by the layout loop.
pub open spec fn work_view(z: Seq<(usize, bool, &Doc)>) -> Work {
    z.map_values(|e: (usize, bool, &Doc)| (e.0 as nat, e.1, (*e.2)@))
}

/// Appends `n` spaces.
fn append_spaces(out: &mut String, n: usize)
    ensures
        final(out)@ == old(out)@ + spaces(n as nat),
{
    let mut i: usize = 0;
    while i < n
        invariant
            i <= n,
            out@ == old(out)@ + spaces(i as nat),
        decreases n - i,
    {
        push_char(out, ' ');
        assert(spaces((i + 1) as nat) == spaces(i as nat).push(' '));
        i = i + 1;
    }
}

/// The number of characters of a text.
fn text_len(s: &String) -> (r: usize)
    ensures
        r == s@.len(),
{
    s.as_str().unicode_len()
}

/// The view of the documents kept by the measuring loop.
pub open spec fn pending_view(z: Seq<(bool, &Doc)>) -> Pending {
    z.map_values(|e: (bool, &Doc)| (e.0, (*e.1)@))
}

/// Whether the work `stack` followed by `item` fits in `r` columns.
fn fits_exec(r: usize, item: (bool, &Doc), stack: &Vec<(usize, bool, &Doc)>) -> (b: bool)
    ensures
        b == fits(r as int, strip(work_view(stack@)).push((item.0, (*item.1)@))),
{
    let ghost outer = strip(work_view(stack@));
    let ghost target = fits(r as int, outer.push((item.0, (*item.1)@)));
    let mut work: Vec<(bool, &Doc)> = Vec::new();
    work.push(item);
    let mut p: usize = stack.len();
    let mut rem: usize = r;
    assert(outer.subrange(0, p as int) + pending_view(work@) =~= outer.push((item.0, (*item.1)@)));
    loop
        invariant
            p <= stack.len(),
            outer == strip(work_view(stack@)),
            outer.len() == stack.len(),
            target == fits(r as int, strip(work_view(stack@)).push((item.0, (*item.1)@))),
            target == fits(rem as int, outer.subrange(0, p as int) + pending_view(work@)),
        decreases pending_size(outer.subrange(0, p as int) + pending_view(work@)), p,
    {
        let ghost z = outer.subrange(0, p as int) + pending_view(work@);
        if work.len() == 0 {
            if p == 0 {
                assert(z =~= Seq::<(bool, DocV)>::empty());
                assert(fits(rem as int, Seq::<(bool, DocV)>::empty()));
                return true;
            }
            let (_, f, d) = stack[p - 1];
            work.push((f, d));
            assert(outer[p - 1] == (f, (*d)@));
            assert(outer.subrange(0, p - 1) + pending_view(work@) =~= z);
            p = p - 1;
        } else {
            let (flat, d) = work.pop().unwrap();
            let ghost rest = outer.subrange(0, p as int) + pending_view(work@);
            assert(z.drop_last() =~= rest);
            assert(z.last() == (flat, (*d)@));
            proof {
                lemma_pending_push(rest, (flat, (*d)@));
                assert(rest.push((flat, (*d)@)) =~= z);
            }
            match d {
                Doc::Nil => {
                    assert(outer.subrange(0, p as int) + pending_view(work@) =~= rest);
                },
                Doc::Text(s) => {
                    assert(outer.subrange(0, p as int) + pending_view(work@) =~= rest);
                    let n = text_len(s);
                    if n > rem {
                        assert(!fits(rem - n, rest));
                        return false;
                    }
                    rem = rem - n;
                },
                Doc::Line => {
                    assert(outer.subrange(0, p as int) + pending_view(work@) =~= rest);
                    if !flat {
                        return true;
                    }
                    if rem == 0 {
                        assert(!fits(rem - 1, rest));
                        return false;
                    }
                    rem = rem - 1;
                },
                Doc::HardLine => {
                    assert(fits(rem as int, z) == !flat);
                    return !flat;
                },
                Doc::Concat(a, b) => {
                    work.push((flat, &**b));
                    work.push((flat, &**a));
                    assert(outer.subrange(0, p as int) + pending_view(work@) =~= rest.push((flat, (**b)@)).push(
                        (flat, (**a)@),
                    ));
                    proof {
                        lemma_pending_push(rest, (flat, (**b)@));
                        lemma_pending_push(rest.push((flat, (**b)@)), (flat, (**a)@));
                    }
                },
                Doc::Nest(_, x) => {
                    work.push((flat, &**x));
                    assert(outer.subrange(0, p as int) + pending_view(work@) =~= rest.push((flat, (**x)@)));
                    proof {
                        lemma_pending_push(rest, (flat, (**x)@));
                    }
                },
                Doc::Group(x) => {
                    work.push((flat, &**x));
                    assert(outer.subrange(0, p as int) + pending_view(work@) =~= rest.push((flat, (**x)@)));
                    proof {
                        lemma_pending_push(rest, (flat, (**x)@));
                    }
                },
            }
        }
    }
}

/// Lays a document out in a width: a group goes on one line when it fits in
/// what is left of the current line (up to the next line break that is taken
/// after it), otherwise its line breaks are taken.
pub fn pretty(width: usize, doc: &Doc) -> (r: String)
    requires
        width < usize::MAX,
        nest_sum(doc@) < usize::MAX,
    ensures
        r@ == pretty_spec(width as nat, doc@),
{
    let ghost w = width as nat;
    let mut out = String::new();
    let mut stack: Vec<(usize, bool, &Doc)> = Vec::new();
    stack.push((0, false, doc));
    let mut k: usize = 0;
    assert(work_view(stack@) =~= seq![(0nat, false, doc@)]);
    while stack.len() > 0
        invariant
            w == width as nat,
            width < usize::MAX,
            pretty_spec(w, doc@) == out@ + layout(w, k as int, work_view(stack@)),
            forall|j: int| 0 <= j < stack@.len() ==> (#[trigger] stack@[j]).0 + nest_sum((*stack@[j].2)@) <= usize::MAX,
        decreases work_size(work_view(stack@)),
    {
        let ghost z = work_view(stack@);
        let ghost before = out@;
        let (i, flat, d) = stack.pop().unwrap();
        let ghost rest = work_view(stack@);
        proof {
            assert(z.drop_last() =~= rest);
            assert(z.last() == (i as nat, flat, (*d)@));
            lemma_work_push(rest, (i as nat, flat, (*d)@));
            assert(rest.push((i as nat, flat, (*d)@)) =~= z);
        }
        match d {
            Doc::Nil => {},
            Doc::Text(s) => {
                append_str(&mut out, s.as_str());
                let n = text_len(s);
                k = if k > width {
                    width + 1
                } else if n > width - k {
                    width + 1
                } else {
                    k + n
                };
            },
            Doc::Line => {
                if flat {
                    push_char(&mut out, ' ');
                    k = if k >= width {
                        width + 1
                    } else {
                        k + 1
                    };
                } else {
                    push_char(&mut out, '\n');
                    append_spaces(&mut out, i);
                    k = i;
                }
            },
            Doc::HardLine => {
                push_char(&mut out, '\n');
                append_spaces(&mut out, i);
                k = i;
            },
            Doc::Concat(a, b) => {
                stack.push((i, flat, &**b));
                stack.push((i, flat, &**a));
                proof {
                    lemma_work_push(rest, (i as nat, flat, (**b)@));
                    lemma_work_push(rest.push((i as nat, flat, (**b)@)), (i as nat, flat, (**a)@));
                    assert(work_view(stack@) =~= rest.push((i as nat, flat, (**b)@)).push((i as nat, flat, (**a)@)));
                }
            },
            Doc::Nest(j, x) => {
                stack.push((i + *j, flat, &**x));
                proof {
                    lemma_work_push(rest, ((i + *j) as nat, flat, (**x)@));
                    assert(work_view(stack@) =~= rest.push(((i + *j) as nat, flat, (**x)@)));
                }
            },
            Doc::Group(x) => {
                let f = if flat {
                    true
                } else if k > width {
                    false
                } else {
                    fits_exec(width - k, (true, &**x), &stack)
                };
                proof {
                    assert(strip(rest.push((i as nat, true, (**x)@))) =~= strip(rest).push((true, (**x)@)));
                }
                stack.push((i, f, &**x));
                proof {
                    lemma_work_push(rest, (i as nat, f, (**x)@));
                    assert(work_view(stack@) =~= rest.push((i as nat, f, (**x)@)));
                }
            },
        }
        assert(pretty_spec(w, doc@) == out@ + layout(w, k as int, work_view(stack@)));
    }
    assert(work_view(stack@) =~= Seq::<(nat, bool, DocV)>::empty());
    assert(out@ =~= out@ + layout(w, k as int, work_view(stack@)));
    out
}

} // verus!

verus! {

/// Documents joined by a separator: `a`, then `sep b`, then `sep c`, ...
pub open spec fn join_docs(ds: Seq<DocV>, sep: DocV) -> DocV
    decreases ds.len(),
{
    if ds.len() == 0 {
        DocV::Nil
    } else if ds.len() == 1 {
        ds[0]
    } else {
        DocV::Concat(Box::new(join_docs(ds.drop_last(), sep)), Box::new(DocV::Concat(Box::new(sep), Box::new(ds.last()))))
    }
}

/// The views of a list of documents.
pub open spec fn docs_view(ds: Seq<Doc>) -> Seq<DocV> {
    ds.map_values(|d: Doc| d@)
}

/// A copy of a document.
pub fn clone_doc(d: &Doc) -> (r: Doc)
    ensures
        r@ == d@,
    decreases d,
{
    match d {
        Doc::Nil => Doc::Nil,
        Doc::Text(s) => Doc::Text(s.clone()),
        Doc::Line => Doc::Line,
        Doc::HardLine => Doc::HardLine,
        Doc::Concat(a, b) => Doc::Concat(Box::new(clone_doc(a)), Box::new(clone_doc(b))),
        Doc::Nest(n, x) => Doc::Nest(*n, Box::new(clone_doc(x))),
        Doc::Group(x) => Doc::Group(Box::new(clone_doc(x))),
    }
}

/// Text.
pub fn text(s: String) -> (r: Doc)
    ensures
        r@ == DocV::Text(s@),
{
    Doc::Text(s)
}

/// Text from a literal.
pub fn text_str(s: &str) -> (r: Doc)
    ensures
        r@ == DocV::Text(s@),
{
    Doc::Text(String::from_str(s))
}

/// One document after another.
pub fn concat(a: Doc, b: Doc) -> (r: Doc)
    ensures
        r@ == DocV::Concat(Box::new(a@), Box::new(b@)),
{
    Doc::Concat(Box::new(a), Box::new(b))
}

/// A document whose line breaks are indented by `n` more columns.
pub fn nest(n: usize, d: Doc) -> (r: Doc)
    ensures
        r@ == DocV::Nest(n as nat, Box::new(d@)),
{
    Doc::Nest(n, Box::new(d))
}

/// A document laid out on one line when it fits.
pub fn group(d: Doc) -> (r: Doc)
    ensures
        r@ == DocV::Group(Box::new(d@)),
{
    Doc::Group(Box::new(d))
}

/// A space, or a line break when its group does not fit.
pub fn line() -> (r: Doc)
    ensures
        r@ == DocV::Line,
{
    Doc::Line
}

/// A line break.
pub fn hardline() -> (r: Doc)
    ensures
        r@ == DocV::HardLine,
{
    Doc::HardLine
}

/// The empty document.
pub fn nil() -> (r: Doc)
    ensures
        r@ == DocV::Nil,
{
    Doc::Nil
}

/// A space.
pub fn space() -> (r: Doc)
    ensures
        r@ == DocV::Text(" "@),
{
    text_str(" ")
}

/// Documents joined by a separator.
pub fn punctuate(sep: &Doc, docs: &Vec<Doc>) -> (r: Doc)
    ensures
        r@ == join_docs(docs_view(docs@), sep@),
{
    let ghost dv = docs_view(docs@);
    if docs.len() == 0 {
        return Doc::Nil;
    }
    let mut acc = clone_doc(&docs[0]);
    let mut i: usize = 1;
    assert(join_docs(dv.subrange(0, 1), sep@) == dv.subrange(0, 1)[0]);
    while i < docs.len()
        invariant
            1 <= i <= docs.len(),
            dv == docs_view(docs@),
            dv.len() == docs.len(),
            acc@ == join_docs(dv.subrange(0, i as int), sep@),
        decreases docs.len() - i,
    {
        let ghost next = dv.subrange(0, i + 1);
        assert(next.drop_last() =~= dv.subrange(0, i as int));
        assert(next.last() == docs@[i as int]@);
        let tail = concat(clone_doc(sep), clone_doc(&docs[i]));
        acc = concat(acc, tail);
        assert(acc@ == join_docs(next, sep@));
        i = i + 1;
    }
    assert(dv.subrange(0, docs.len() as int) =~= dv);
    acc
}

} // verus!
