//! The grammar of types and expressions, over the characters of the source.
//! A parser takes a position and gives back what it recognised and the
//! position after it, or nothing. Alternatives are tried in order and the
//! first that succeeds wins; repetitions stop at the first item that does not
//! parse.
use vstd::prelude::*;
use crate::ast::{ctors_view, exprs_view, lemma_ctors_view, lemma_exprs_view, types_view, Expression, ExprV, Name, Type, TypeV};
use crate::adt::{canonical_ctors, sort_constructors};
use crate::text::push_char;

verus! {

/// Spaces, tabs and line breaks.
pub open spec fn is_space(c: char) -> bool {
    c == ' ' || c == '\t' || c == '\n' || c == '\r'
}

/// ASCII letters.
pub open spec fn is_alpha(c: char) -> bool {
    ('a' <= c && c <= 'z') || ('A' <= c && c <= 'Z')
}

/// ASCII digits.
pub open spec fn is_digit(c: char) -> bool {
    '0' <= c && c <= '9'
}

/// The characters of identifiers: letters, digits and `_`.
pub open spec fn is_ident_char(c: char) -> bool {
    is_alpha(c) || is_digit(c) || c == '_'
}

/// The position after the white space at `i`.
pub open spec fn skip_ws(s: Seq<char>, i: int) -> int
    decreases s.len() - i,
{
    if 0 <= i < s.len() && is_space(s[i]) {
        skip_ws(s, i + 1)
    } else {
        i
    }
}

/// The position after the identifier characters at `i`.
pub open spec fn ident_end(s: Seq<char>, i: int) -> int
    decreases s.len() - i,
{
    if 0 <= i < s.len() && is_ident_char(s[i]) {
        ident_end(s, i + 1)
    } else {
        i
    }
}

/// The position after the digits at `i`.
pub open spec fn digits_end(s: Seq<char>, i: int) -> int
    decreases s.len() - i,
{
    if 0 <= i < s.len() && is_digit(s[i]) {
        digits_end(s, i + 1)
    } else {
        i
    }
}

/// The character `c` stands at `i`.
pub open spec fn char_at(s: Seq<char>, i: int, c: char) -> bool {
    0 <= i < s.len() && s[i] == c
}

/// The text `t` stands at `i`.
pub open spec fn text_at(s: Seq<char>, i: int, t: Seq<char>) -> bool {
    0 <= i && i + t.len() <= s.len() && s.subrange(i, i + t.len()) == t
}

/// The reserved words, which are no identifiers.
pub open spec fn keywords() -> Seq<Seq<char>> {
    seq![
        "if"@, "elif"@, "else"@, "while"@, "for"@, "in"@, "def"@, "return"@, "var"@, "val"@,
        "end"@, "and"@, "or"@, "not"@, "True"@, "False"@, "data"@, "match"@, "assert"@,
        "asserteq"@, "assertneq"@, "asserttrue"@, "assertfalse"@, "test"@, "lambda"@, "Int"@,
        "Real"@, "Boolean"@, "String"@, "Unit"@, "Any"@, "Maybe"@, "Result"@,
    ]
}

/// A keyword, after optional white space, not followed by an identifier
/// character; the white space after it is consumed too.
pub open spec fn keyword_at(s: Seq<char>, i: int, kw: Seq<char>) -> Option<int> {
    let j = skip_ws(s, i);
    let e = j + kw.len();
    if text_at(s, j, kw) && !(0 <= e < s.len() && is_ident_char(s[e])) {
        Some(skip_ws(s, e))
    } else {
        None
    }
}

/// An identifier after optional white space: a letter or `_`, then letters,
/// digits and `_`, as long as possible; reserved words are refused.
pub open spec fn identifier_at(s: Seq<char>, i: int) -> Option<(Seq<char>, int)> {
    let j = skip_ws(s, i);
    if 0 <= j < s.len() && (is_alpha(s[j]) || s[j] == '_') {
        let e = ident_end(s, j);
        let w = s.subrange(j, e);
        if keywords().contains(w) {
            None
        } else {
            Some((w, e))
        }
    } else {
        None
    }
}

/// A character between optional white space: the position after the
/// white space that follows it.
pub open spec fn separator_at(s: Seq<char>, i: int, c: char) -> Option<int> {
    let j = skip_ws(s, i);
    if char_at(s, j, c) {
        Some(skip_ws(s, j + 1))
    } else {
        None
    }
}

/// A symbol after optional white space; the white space after it is
/// consumed too.
pub open spec fn symbol_at(s: Seq<char>, i: int, t: Seq<char>) -> Option<int> {
    let j = skip_ws(s, i);
    if text_at(s, j, t) {
        Some(skip_ws(s, j + t.len()))
    } else {
        None
    }
}

/// The position after the letters at `i`.
pub open spec fn alpha_end(s: Seq<char>, i: int) -> int
    decreases s.len() - i,
{
    if 0 <= i < s.len() && is_alpha(s[i]) {
        alpha_end(s, i + 1)
    } else {
        i
    }
}

/// One piece of a word at `i`: a run of letters, a single `_`, or a run of
/// digits; the position after it.
pub open spec fn word_piece_at(s: Seq<char>, i: int) -> Option<int> {
    if 0 <= i < s.len() {
        if is_alpha(s[i]) {
            Some(alpha_end(s, i))
        } else if s[i] == '_' {
            Some(i + 1)
        } else if is_digit(s[i]) {
            Some(digits_end(s, i))
        } else {
            None
        }
    } else {
        None
    }
}

/// The basic types: `Int`, `Real`, `Boolean`, `String`, `Unit`, `Any`.
pub open spec fn basic_type_at(s: Seq<char>, i: int) -> Option<(TypeV, int)> {
    if keyword_at(s, i, "Int"@) is Some {
        Some((TypeV::TInteger, keyword_at(s, i, "Int"@).unwrap()))
    } else if keyword_at(s, i, "Real"@) is Some {
        Some((TypeV::TReal, keyword_at(s, i, "Real"@).unwrap()))
    } else if keyword_at(s, i, "Boolean"@) is Some {
        Some((TypeV::TBool, keyword_at(s, i, "Boolean"@).unwrap()))
    } else if keyword_at(s, i, "String"@) is Some {
        Some((TypeV::TString, keyword_at(s, i, "String"@).unwrap()))
    } else if keyword_at(s, i, "Unit"@) is Some {
        Some((TypeV::TVoid, keyword_at(s, i, "Unit"@).unwrap()))
    } else if keyword_at(s, i, "Any"@) is Some {
        Some((TypeV::TAny, keyword_at(s, i, "Any"@).unwrap()))
    } else {
        None
    }
}

/// A type, after optional white space: a basic type, `[T]`, a tuple
/// `(T, ..)` of at least one type, `Maybe [T]`, `Result [T, E]`, a function
/// type `(T, ..) -> R`, or `data N: | C T .. end`; the first of these that
/// parses wins.
pub open spec fn type_at(s: Seq<char>, i: int) -> Option<(TypeV, int)>
    decreases s.len() - i, 1int,
{
    if !(0 <= i <= s.len()) {
        None
    } else if basic_type_at(s, i) is Some {
        basic_type_at(s, i)
    } else if list_type_at(s, i) is Some {
        list_type_at(s, i)
    } else if tuple_type_at(s, i) is Some {
        tuple_type_at(s, i)
    } else if maybe_type_at(s, i) is Some {
        maybe_type_at(s, i)
    } else if result_type_at(s, i) is Some {
        result_type_at(s, i)
    } else if function_type_at(s, i) is Some {
        function_type_at(s, i)
    } else {
        adt_type_at(s, i)
    }
}

/// `[T]`.
pub open spec fn list_type_at(s: Seq<char>, i: int) -> Option<(TypeV, int)>
    decreases s.len() - i, 0int,
{
    let j = skip_ws(s, i);
    let k = skip_ws(s, j + 1);
    if 0 <= i <= j && char_at(s, j, '[') && j < k <= s.len() {
        match type_at(s, k) {
            Some((t, m)) => {
                let n = skip_ws(s, m);
                if char_at(s, n, ']') {
                    Some((TypeV::TList(Box::new(t)), n + 1))
                } else {
                    None
                }
            },
            None => None,
        }
    } else {
        None
    }
}

/// `(T, ..)` with at least one type.
pub open spec fn tuple_type_at(s: Seq<char>, i: int) -> Option<(TypeV, int)>
    decreases s.len() - i, 0int,
{
    let j = skip_ws(s, i);
    let k = skip_ws(s, j + 1);
    if 0 <= i <= j && char_at(s, j, '(') && j < k <= s.len() {
        match type_list_at(s, k) {
            Some((ts, m)) => if ts.len() > 0 && char_at(s, skip_ws(s, m), ')') {
                Some((TypeV::TTuple(ts), skip_ws(s, m) + 1))
            } else {
                None
            },
            None => None,
        }
    } else {
        None
    }
}

/// `Maybe [T]`.
pub open spec fn maybe_type_at(s: Seq<char>, i: int) -> Option<(TypeV, int)>
    decreases s.len() - i, 0int,
{
    match keyword_at(s, skip_ws(s, i), "Maybe"@) {
        Some(j0) => {
            let j = skip_ws(s, j0);
            let k = skip_ws(s, j + 1);
            if 0 <= i < j && char_at(s, j, '[') && i < k <= s.len() {
                match type_at(s, k) {
                    Some((t, m)) => if char_at(s, skip_ws(s, m), ']') {
                        Some((TypeV::TMaybe(Box::new(t)), skip_ws(s, m) + 1))
                    } else {
                        None
                    },
                    None => None,
                }
            } else {
                None
            }
        },
        None => None,
    }
}

/// `Result [T, E]`.
pub open spec fn result_type_at(s: Seq<char>, i: int) -> Option<(TypeV, int)>
    decreases s.len() - i, 0int,
{
    match keyword_at(s, skip_ws(s, i), "Result"@) {
        Some(j0) => {
            let j = skip_ws(s, j0);
            let k = skip_ws(s, j + 1);
            if 0 <= i < j && char_at(s, j, '[') && i < k <= s.len() {
                match type_at(s, k) {
                    Some((t, m)) => {
                        let c = skip_ws(s, m);
                        let d = skip_ws(s, c + 1);
                        if char_at(s, c, ',') && c < d <= s.len() && i < d {
                            match type_at(s, d) {
                                Some((e, n)) => if char_at(s, skip_ws(s, n), ']') {
                                    Some(
                                        (
                                            TypeV::TResult(Box::new(t), Box::new(e)),
                                            skip_ws(s, n) + 1,
                                        ),
                                    )
                                } else {
                                    None
                                },
                                None => None,
                            }
                        } else {
                            None
                        }
                    },
                    None => None,
                }
            } else {
                None
            }
        },
        None => None,
    }
}

/// `(T, ..) -> R`, with any number of parameter types.
pub open spec fn function_type_at(s: Seq<char>, i: int) -> Option<(TypeV, int)>
    decreases s.len() - i, 0int,
{
    let j = skip_ws(s, i);
    let k = skip_ws(s, j + 1);
    if 0 <= i <= j && char_at(s, j, '(') && j < k <= s.len() {
        let (ts, m) = match type_list_at(s, k) {
            Some(x) => x,
            None => (seq![], k),
        };
        let c = skip_ws(s, m);
        let a = skip_ws(s, c + 1);
        let b = skip_ws(s, a + 2);
        if char_at(s, c, ')') && text_at(s, a, "->"@) && i < b <= s.len() {
            match type_at(s, b) {
                Some((r, n)) => Some((TypeV::TFunction(Box::new(r), ts), n)),
                None => None,
            }
        } else {
            None
        }
    } else {
        None
    }
}

/// Types separated by commas (with optional white space around them),
/// at least one; none when the first does not parse.
pub open spec fn type_list_at(s: Seq<char>, i: int) -> Option<(Seq<TypeV>, int)>
    decreases s.len() - i, 2int,
{
    if !(0 <= i <= s.len()) {
        None
    } else {
        match type_at(s, i) {
            Some((t, j)) => if i < j <= s.len() {
                Some(type_list_rest(s, j, seq![t]))
            } else {
                Some((seq![t], j))
            },
            None => None,
        }
    }
}

/// More types of a list, each after a comma; the list stops before a comma
/// that no type follows.
pub open spec fn type_list_rest(s: Seq<char>, j: int, acc: Seq<TypeV>) -> (Seq<TypeV>, int)
    decreases s.len() - j, 3int,
{
    match separator_at(s, j, ',') {
        Some(k) => if 0 <= j < k <= s.len() {
            match type_at(s, k) {
                Some((t, m)) => if k <= m <= s.len() {
                    type_list_rest(s, m, acc.push(t))
                } else {
                    (acc, j)
                },
                None => (acc, j),
            }
        } else {
            (acc, j)
        },
        None => (acc, j),
    }
}

/// `data N: | C T .. | .. end`: an algebraic data type with at least one
/// constructor, each with the types of its fields. The type holds its
/// constructors sorted by name, each name once (a later constructor of a
/// name replaces an earlier one), so that two such types are equal exactly
/// when they define the same constructors.
pub open spec fn adt_type_at(s: Seq<char>, i: int) -> Option<(TypeV, int)>
    decreases s.len() - i, 0int,
{
    match keyword_at(s, i, "data"@) {
        Some(j) => match identifier_at(s, skip_ws(s, j)) {
            Some((name, k)) => {
                let c = skip_ws(s, k);
                if char_at(s, c, ':') && i < c + 1 <= s.len() {
                    match ctors_at(s, c + 1) {
                        Some((cs, m)) => if cs.len() > 0 && keyword_at(s, skip_ws(s, m), "end"@) is Some {
                            Some(
                                (
                                    TypeV::TAlgebraicData(name, canonical_ctors(cs)),
                                    keyword_at(s, skip_ws(s, m), "end"@).unwrap(),
                                ),
                            )
                        } else {
                            None
                        },
                        None => None,
                    }
                } else {
                    None
                }
            },
            None => None,
        },
        None => None,
    }
}

/// Constructors one after another, as many as parse.
pub open spec fn ctors_at(s: Seq<char>, i: int) -> Option<(Seq<(Seq<char>, Seq<TypeV>)>, int)>
    decreases s.len() - i, 2int,
{
    if !(0 <= i <= s.len()) {
        None
    } else {
        match ctor_at(s, i) {
            Some((c, j)) => if i < j <= s.len() {
                match ctors_at(s, j) {
                    Some((cs, k)) => Some((seq![c] + cs, k)),
                    None => Some((seq![c], j)),
                }
            } else {
                Some((seq![c], j))
            },
            None => Some((seq![], i)),
        }
    }
}

/// `| C T ..`: a constructor and the types of its fields, separated by white
/// space; a field type directly after another, without white space, makes
/// the constructor fail.
pub open spec fn ctor_at(s: Seq<char>, i: int) -> Option<((Seq<char>, Seq<TypeV>), int)>
    decreases s.len() - i, 1int,
{
    let j = skip_ws(s, i);
    if 0 <= i <= j && char_at(s, j, '|') && j + 1 <= s.len() {
        match identifier_at(s, skip_ws(s, j + 1)) {
            Some((name, k)) => if i < k <= s.len() {
                match field_types_at(s, k) {
                    Some((ts, m)) => Some(((name, ts), m)),
                    None => None,
                }
            } else {
                None
            },
            None => None,
        }
    } else {
        None
    }
}

/// Field types separated by white space: none when the first does not
/// parse.
pub open spec fn field_types_at(s: Seq<char>, i: int) -> Option<(Seq<TypeV>, int)>
    decreases s.len() - i, 2int,
{
    if !(0 <= i <= s.len()) {
        None
    } else {
        match type_at(s, i) {
            Some((t, j)) => if i < j <= s.len() {
                field_types_rest(s, j, seq![t])
            } else {
                Some((seq![t], j))
            },
            None => Some((seq![], i)),
        }
    }
}

/// More field types, each after white space.
pub open spec fn field_types_rest(s: Seq<char>, j: int, acc: Seq<TypeV>) -> Option<(Seq<TypeV>, int)>
    decreases s.len() - j, 3int,
{
    let k = skip_ws(s, j);
    if k == j {
        None
    } else if 0 <= j < k <= s.len() {
        match type_at(s, k) {
            Some((t, m)) => if k <= m <= s.len() {
                field_types_rest(s, m, acc.push(t))
            } else {
                Some((acc, j))
            },
            None => Some((acc, j)),
        }
    } else {
        Some((acc, j))
    }
}

/// White space never goes back, nor past the end.
pub proof fn lemma_skip_ws(s: Seq<char>, i: int)
    requires
        0 <= i <= s.len(),
    ensures
        i <= skip_ws(s, i) <= s.len(),
        skip_ws(s, skip_ws(s, i)) == skip_ws(s, i),
    decreases s.len() - i,
{
    if i < s.len() && is_space(s[i]) {
        lemma_skip_ws(s, i + 1);
    }
}

/// The end of a run of identifier characters lies ahead, within the text.
pub proof fn lemma_ident_end(s: Seq<char>, i: int)
    requires
        0 <= i <= s.len(),
    ensures
        i <= ident_end(s, i) <= s.len(),
        forall|k: int| i <= k < ident_end(s, i) ==> is_ident_char(#[trigger] s[k]),
    decreases s.len() - i,
{
    if i < s.len() && is_ident_char(s[i]) {
        lemma_ident_end(s, i + 1);
    }
}

/// The end of a run of digits lies ahead, within the text.
pub proof fn lemma_digits_end(s: Seq<char>, i: int)
    requires
        0 <= i <= s.len(),
    ensures
        i <= digits_end(s, i) <= s.len(),
        forall|k: int| i <= k < digits_end(s, i) ==> is_digit(#[trigger] s[k]),
    decreases s.len() - i,
{
    if i < s.len() && is_digit(s[i]) {
        lemma_digits_end(s, i + 1);
    }
}

/// The end of a run of letters lies ahead, within the text.
pub proof fn lemma_alpha_end(s: Seq<char>, i: int)
    requires
        0 <= i <= s.len(),
    ensures
        i <= alpha_end(s, i) <= s.len(),
    decreases s.len() - i,
{
    if i < s.len() && is_alpha(s[i]) {
        lemma_alpha_end(s, i + 1);
    }
}

/// The position after the white space at `i`.
pub(crate) fn skip_ws_exec(s: &Vec<char>, i: usize) -> (r: usize)
    requires
        i <= s.len(),
    ensures
        r as int == skip_ws(s@, i as int),
        i <= r <= s.len(),
{
    proof {
        lemma_skip_ws(s@, i as int);
    }
    let mut k = i;
    while k < s.len() && (s[k] == ' ' || s[k] == '\t' || s[k] == '\n' || s[k] == '\r')
        invariant
            i <= k <= s.len(),
            skip_ws(s@, k as int) == skip_ws(s@, i as int),
        decreases s.len() - k,
    {
        k = k + 1;
    }
    k
}

/// Whether a character is a letter, a digit or `_`.
fn ident_char(c: char) -> (r: bool)
    ensures
        r == is_ident_char(c),
{
    ('a' <= c && c <= 'z') || ('A' <= c && c <= 'Z') || ('0' <= c && c <= '9') || c == '_'
}

/// The position after the identifier characters at `i`.
fn ident_end_exec(s: &Vec<char>, i: usize) -> (r: usize)
    requires
        i <= s.len(),
    ensures
        r as int == ident_end(s@, i as int),
        i <= r <= s.len(),
{
    proof {
        lemma_ident_end(s@, i as int);
    }
    let mut k = i;
    while k < s.len() && ident_char(s[k])
        invariant
            i <= k <= s.len(),
            ident_end(s@, k as int) == ident_end(s@, i as int),
        decreases s.len() - k,
    {
        k = k + 1;
    }
    k
}

/// The position after the digits at `i`.
fn digits_end_exec(s: &Vec<char>, i: usize) -> (r: usize)
    requires
        i <= s.len(),
    ensures
        r as int == digits_end(s@, i as int),
        i <= r <= s.len(),
{
    proof {
        lemma_digits_end(s@, i as int);
    }
    let mut k = i;
    while k < s.len() && '0' <= s[k] && s[k] <= '9'
        invariant
            i <= k <= s.len(),
            digits_end(s@, k as int) == digits_end(s@, i as int),
        decreases s.len() - k,
    {
        k = k + 1;
    }
    k
}

/// Whether the character `c` stands at `i`.
pub(crate) fn char_at_exec(s: &Vec<char>, i: usize, c: char) -> (r: bool)
    ensures
        r == char_at(s@, i as int, c),
{
    i < s.len() && s[i] == c
}

/// Whether the text `t` stands at `i`.
pub(crate) fn text_at_exec(s: &Vec<char>, i: usize, t: &str) -> (r: bool)
    requires
        i <= s.len(),
    ensures
        r == text_at(s@, i as int, t@),
{
    let n = t.unicode_len();
    if n > s.len() - i {
        return false;
    }
    let mut k: usize = 0;
    while k < n
        invariant
            n == t@.len(),
            i + n <= s.len(),
            k <= n,
            forall|m: int| 0 <= m < k ==> s@[i + m] == #[trigger] t@[m],
        decreases n - k,
    {
        if s[i + k] != t.get_char(k) {
            assert(s@.subrange(i as int, i + n)[k as int] != t@[k as int]);
            return false;
        }
        k = k + 1;
    }
    assert(s@.subrange(i as int, i + n) =~= t@);
    true
}

/// A keyword at `i`, as [`keyword_at`] states.
pub(crate) fn keyword_exec(s: &Vec<char>, i: usize, kw: &str) -> (r: Option<usize>)
    requires
        i <= s.len(),
        kw@.len() > 0,
    ensures
        match r {
            Some(k) => keyword_at(s@, i as int, kw@) == Some(k as int) && i < k <= s.len(),
            None => keyword_at(s@, i as int, kw@) is None,
        },
{
    let j = skip_ws_exec(s, i);
    if !text_at_exec(s, j, kw) {
        return None;
    }
    let e = j + kw.unicode_len();
    if e < s.len() && ident_char(s[e]) {
        return None;
    }
    Some(skip_ws_exec(s, e))
}

/// The reserved words.
fn keyword_list() -> (r: Vec<&'static str>)
    ensures
        r@.map_values(|k: &str| k@) == keywords(),
{
    let r = vec![
        "if", "elif", "else", "while", "for", "in", "def", "return", "var", "val", "end", "and",
        "or", "not", "True", "False", "data", "match", "assert", "asserteq", "assertneq",
        "asserttrue", "assertfalse", "test", "lambda", "Int", "Real", "Boolean", "String", "Unit",
        "Any", "Maybe", "Result",
    ];
    assert(r@.map_values(|k: &str| k@) =~= keywords());
    r
}

/// Whether the characters from `j` to `e` form a reserved word.
fn is_keyword_exec(s: &Vec<char>, j: usize, e: usize) -> (r: bool)
    requires
        j <= e <= s.len(),
    ensures
        r == keywords().contains(s@.subrange(j as int, e as int)),
{
    let ks = keyword_list();
    let ghost w = s@.subrange(j as int, e as int);
    let mut k: usize = 0;
    while k < ks.len()
        invariant
            k <= ks.len(),
            j <= e <= s.len(),
            w == s@.subrange(j as int, e as int),
            ks@.map_values(|x: &str| x@) == keywords(),
            forall|m: int| 0 <= m < k ==> keywords()[m] != w,
        decreases ks.len() - k,
    {
        let kw = ks[k];
        assert(keywords()[k as int] == kw@);
        if kw.unicode_len() == e - j && text_at_exec(s, j, kw) {
            assert(keywords()[k as int] == w);
            return true;
        }
        assert(keywords()[k as int] != w) by {
            if keywords()[k as int] == w {
                assert(kw@.len() == e - j);
            }
        }
        k = k + 1;
    }
    assert(!keywords().contains(w)) by {
        if keywords().contains(w) {
            let m = choose|m: int| 0 <= m < keywords().len() && keywords()[m] == w;
            assert(keywords()[m] != w);
        }
    }
    false
}

/// The characters from `j` to `e` as a string.
fn chars_text(s: &Vec<char>, j: usize, e: usize) -> (r: String)
    requires
        j <= e <= s.len(),
    ensures
        r@ == s@.subrange(j as int, e as int),
{
    let mut r = String::new();
    let mut k = j;
    while k < e
        invariant
            j <= k <= e <= s.len(),
            r@ == s@.subrange(j as int, k as int),
        decreases e - k,
    {
        push_char(&mut r, s[k]);
        assert(r@ =~= s@.subrange(j as int, k + 1));
        k = k + 1;
    }
    r
}

/// An identifier at `i`, as [`identifier_at`] states.
pub(crate) fn identifier_exec(s: &Vec<char>, i: usize) -> (r: Option<(String, usize)>)
    requires
        i <= s.len(),
    ensures
        match r {
            Some((w, k)) => identifier_at(s@, i as int) == Some((w@, k as int)) && i < k <= s.len(),
            None => identifier_at(s@, i as int) is None,
        },
{
    let j = skip_ws_exec(s, i);
    if !(j < s.len() && (('a' <= s[j] && s[j] <= 'z') || ('A' <= s[j] && s[j] <= 'Z') || s[j] == '_')) {
        return None;
    }
    let e = ident_end_exec(s, j);
    proof {
        assert(is_ident_char(s@[j as int]));
        lemma_ident_end(s@, j + 1);
        assert(ident_end(s@, j as int) == ident_end(s@, j + 1));
    }
    if is_keyword_exec(s, j, e) {
        return None;
    }
    Some((chars_text(s, j, e), e))
}

/// A separator character at `i`, as [`separator_at`] states.
pub(crate) fn separator_exec(s: &Vec<char>, i: usize, c: char) -> (r: Option<usize>)
    requires
        i <= s.len(),
    ensures
        match r {
            Some(k) => separator_at(s@, i as int, c) == Some(k as int) && i < k <= s.len(),
            None => separator_at(s@, i as int, c) is None,
        },
{
    let j = skip_ws_exec(s, i);
    if char_at_exec(s, j, c) {
        Some(skip_ws_exec(s, j + 1))
    } else {
        None
    }
}

/// A symbol at `i`, as [`symbol_at`] states.
fn symbol_exec(s: &Vec<char>, i: usize, t: &str) -> (r: Option<usize>)
    requires
        i <= s.len(),
    ensures
        match r {
            Some(k) => symbol_at(s@, i as int, t@) == Some(k as int) && i <= k <= s.len(),
            None => symbol_at(s@, i as int, t@) is None,
        },
{
    let j = skip_ws_exec(s, i);
    if text_at_exec(s, j, t) {
        Some(skip_ws_exec(s, j + t.unicode_len()))
    } else {
        None
    }
}

/// The position after the letters at `i`.
fn alpha_end_exec(s: &Vec<char>, i: usize) -> (r: usize)
    requires
        i <= s.len(),
    ensures
        r as int == alpha_end(s@, i as int),
        i <= r <= s.len(),
{
    proof {
        lemma_alpha_end(s@, i as int);
    }
    let mut k = i;
    while k < s.len() && (('a' <= s[k] && s[k] <= 'z') || ('A' <= s[k] && s[k] <= 'Z'))
        invariant
            i <= k <= s.len(),
            alpha_end(s@, k as int) == alpha_end(s@, i as int),
        decreases s.len() - k,
    {
        k = k + 1;
    }
    k
}

/// What a parse of a type gives back.
pub open spec fn type_res(r: Option<(Type, usize)>) -> Option<(TypeV, int)> {
    match r {
        Some((t, j)) => Some((t@, j as int)),
        None => None,
    }
}

/// What a parse of a list of types gives back.
pub open spec fn types_res(r: Option<(Vec<Type>, usize)>) -> Option<(Seq<TypeV>, int)> {
    match r {
        Some((ts, j)) => Some((types_view(ts@), j as int)),
        None => None,
    }
}

/// A parse that succeeds moves forward, within the text.
pub open spec fn advances<T>(r: Option<(T, usize)>, i: int, n: int) -> bool {
    r matches Some((_, j)) ==> i < j <= n
}

/// The basic types.
fn basic_type_exec(s: &Vec<char>, i: usize) -> (r: Option<(Type, usize)>)
    requires
        i <= s.len(),
    ensures
        type_res(r) == basic_type_at(s@, i as int),
        advances(r, i as int, s.len() as int),
{
    proof {
        reveal_strlit("Int");
    }
    if let Some(k) = keyword_exec(s, i, "Int") {
        return Some((Type::TInteger, k));
    }
    proof {
        reveal_strlit("Real");
    }
    if let Some(k) = keyword_exec(s, i, "Real") {
        return Some((Type::TReal, k));
    }
    proof {
        reveal_strlit("Boolean");
    }
    if let Some(k) = keyword_exec(s, i, "Boolean") {
        return Some((Type::TBool, k));
    }
    proof {
        reveal_strlit("String");
    }
    if let Some(k) = keyword_exec(s, i, "String") {
        return Some((Type::TString, k));
    }
    proof {
        reveal_strlit("Unit");
    }
    if let Some(k) = keyword_exec(s, i, "Unit") {
        return Some((Type::TVoid, k));
    }
    proof {
        reveal_strlit("Any");
    }
    if let Some(k) = keyword_exec(s, i, "Any") {
        return Some((Type::TAny, k));
    }
    None
}

/// A type at `i`, as [`type_at`] states.
pub(crate) fn type_exec(s: &Vec<char>, i: usize) -> (r: Option<(Type, usize)>)
    requires
        i <= s.len(),
    ensures
        type_res(r) == type_at(s@, i as int),
        advances(r, i as int, s.len() as int),
    decreases s.len() - i, 1int,
{
    if let Some(x) = basic_type_exec(s, i) {
        return Some(x);
    }
    if let Some(x) = list_type_exec(s, i) {
        return Some(x);
    }
    if let Some(x) = tuple_type_exec(s, i) {
        return Some(x);
    }
    if let Some(x) = maybe_type_exec(s, i) {
        return Some(x);
    }
    if let Some(x) = result_type_exec(s, i) {
        return Some(x);
    }
    if let Some(x) = function_type_exec(s, i) {
        return Some(x);
    }
    adt_type_exec(s, i)
}

/// `[T]`.
fn list_type_exec(s: &Vec<char>, i: usize) -> (r: Option<(Type, usize)>)
    requires
        i <= s.len(),
    ensures
        type_res(r) == list_type_at(s@, i as int),
        advances(r, i as int, s.len() as int),
    decreases s.len() - i, 0int,
{
    let j = skip_ws_exec(s, i);
    if !char_at_exec(s, j, '[') {
        return None;
    }
    let k = skip_ws_exec(s, j + 1);
    match type_exec(s, k) {
        Some((t, m)) => {
            let n = skip_ws_exec(s, m);
            if char_at_exec(s, n, ']') {
                Some((Type::TList(Box::new(t)), n + 1))
            } else {
                None
            }
        },
        None => None,
    }
}

/// `(T, ..)` with at least one type.
fn tuple_type_exec(s: &Vec<char>, i: usize) -> (r: Option<(Type, usize)>)
    requires
        i <= s.len(),
    ensures
        type_res(r) == tuple_type_at(s@, i as int),
        advances(r, i as int, s.len() as int),
    decreases s.len() - i, 0int,
{
    let j = skip_ws_exec(s, i);
    if !char_at_exec(s, j, '(') {
        return None;
    }
    let k = skip_ws_exec(s, j + 1);
    match type_list_exec(s, k) {
        Some((ts, m)) => {
            let c = skip_ws_exec(s, m);
            proof {
                crate::ast::lemma_types_view(ts@);
            }
            if ts.len() > 0 && char_at_exec(s, c, ')') {
                Some((Type::TTuple(ts), c + 1))
            } else {
                None
            }
        },
        None => None,
    }
}

/// `Maybe [T]`.
fn maybe_type_exec(s: &Vec<char>, i: usize) -> (r: Option<(Type, usize)>)
    requires
        i <= s.len(),
    ensures
        type_res(r) == maybe_type_at(s@, i as int),
        advances(r, i as int, s.len() as int),
    decreases s.len() - i, 0int,
{
    let i0 = skip_ws_exec(s, i);
    proof {
        reveal_strlit("Maybe");
    }
    let j0 = match keyword_exec(s, i0, "Maybe") {
        Some(j0) => j0,
        None => {
            return None;
        },
    };
    let j = skip_ws_exec(s, j0);
    if !char_at_exec(s, j, '[') {
        return None;
    }
    let k = skip_ws_exec(s, j + 1);
    match type_exec(s, k) {
        Some((t, m)) => {
            let n = skip_ws_exec(s, m);
            if char_at_exec(s, n, ']') {
                Some((Type::TMaybe(Box::new(t)), n + 1))
            } else {
                None
            }
        },
        None => None,
    }
}

/// `Result [T, E]`.
fn result_type_exec(s: &Vec<char>, i: usize) -> (r: Option<(Type, usize)>)
    requires
        i <= s.len(),
    ensures
        type_res(r) == result_type_at(s@, i as int),
        advances(r, i as int, s.len() as int),
    decreases s.len() - i, 0int,
{
    let i0 = skip_ws_exec(s, i);
    proof {
        reveal_strlit("Result");
    }
    let j0 = match keyword_exec(s, i0, "Result") {
        Some(j0) => j0,
        None => {
            return None;
        },
    };
    let j = skip_ws_exec(s, j0);
    if !char_at_exec(s, j, '[') {
        return None;
    }
    let k = skip_ws_exec(s, j + 1);
    let (t, m) = match type_exec(s, k) {
        Some(x) => x,
        None => {
            return None;
        },
    };
    let c = skip_ws_exec(s, m);
    if !char_at_exec(s, c, ',') {
        return None;
    }
    let d = skip_ws_exec(s, c + 1);
    match type_exec(s, d) {
        Some((e, n0)) => {
            let n = skip_ws_exec(s, n0);
            if char_at_exec(s, n, ']') {
                Some((Type::TResult(Box::new(t), Box::new(e)), n + 1))
            } else {
                None
            }
        },
        None => None,
    }
}

/// `(T, ..) -> R`.
fn function_type_exec(s: &Vec<char>, i: usize) -> (r: Option<(Type, usize)>)
    requires
        i <= s.len(),
    ensures
        type_res(r) == function_type_at(s@, i as int),
        advances(r, i as int, s.len() as int),
    decreases s.len() - i, 0int,
{
    let j = skip_ws_exec(s, i);
    if !char_at_exec(s, j, '(') {
        return None;
    }
    let k = skip_ws_exec(s, j + 1);
    let (ts, m) = match type_list_exec(s, k) {
        Some(x) => x,
        None => (Vec::new(), k),
    };
    proof {
        crate::ast::lemma_types_view(ts@);
    }
    let c = skip_ws_exec(s, m);
    if !char_at_exec(s, c, ')') {
        return None;
    }
    let a = skip_ws_exec(s, c + 1);
    if !text_at_exec(s, a, "->") {
        return None;
    }
    proof {
        reveal_strlit("->");
    }
    let b = skip_ws_exec(s, a + 2);
    match type_exec(s, b) {
        Some((rt, n)) => Some((Type::TFunction(Box::new(rt), ts), n)),
        None => None,
    }
}

/// Types separated by commas, at least one.
fn type_list_exec(s: &Vec<char>, i: usize) -> (r: Option<(Vec<Type>, usize)>)
    requires
        i <= s.len(),
    ensures
        types_res(r) == type_list_at(s@, i as int),
        advances(r, i as int, s.len() as int),
    decreases s.len() - i, 2int,
{
    match type_exec(s, i) {
        Some((t, j)) => {
            let mut acc: Vec<Type> = Vec::new();
            acc.push(t);
            proof {
                crate::ast::lemma_types_view(acc@);
                assert(types_view(acc@) =~= seq![acc@[0]@]);
            }
            Some(type_list_rest_exec(s, j, acc))
        },
        None => None,
    }
}

/// More types of a list, each after a comma.
fn type_list_rest_exec(s: &Vec<char>, j: usize, acc: Vec<Type>) -> (r: (Vec<Type>, usize))
    requires
        j <= s.len(),
    ensures
        (types_view(r.0@), r.1 as int) == type_list_rest(s@, j as int, types_view(acc@)),
        j <= r.1 <= s.len(),
    decreases s.len() - j, 3int,
{
    let k = match separator_exec(s, j, ',') {
        Some(k) => k,
        None => {
            return (acc, j);
        },
    };
    match type_exec(s, k) {
        Some((t, m)) => {
            let mut acc = acc;
            let ghost before = acc@;
            acc.push(t);
            proof {
                crate::ast::lemma_types_view(acc@);
                crate::ast::lemma_types_view(before);
                assert(acc@.drop_last() == before);
            }
            type_list_rest_exec(s, m, acc)
        },
        None => (acc, j),
    }
}

/// What a parse of constructors gives back.
pub open spec fn ctors_res(r: Option<(Vec<(Name, Vec<Type>)>, usize)>) -> Option<(Seq<(Seq<char>, Seq<TypeV>)>, int)> {
    match r {
        Some((cs, j)) => Some((ctors_view(cs@), j as int)),
        None => None,
    }
}

/// `data N: | C T .. end`.
fn adt_type_exec(s: &Vec<char>, i: usize) -> (r: Option<(Type, usize)>)
    requires
        i <= s.len(),
    ensures
        type_res(r) == adt_type_at(s@, i as int),
        advances(r, i as int, s.len() as int),
    decreases s.len() - i, 0int,
{
    proof {
        reveal_strlit("data");
    }
    let j = match keyword_exec(s, i, "data") {
        Some(j) => j,
        None => {
            return None;
        },
    };
    let j1 = skip_ws_exec(s, j);
    let (name, k) = match identifier_exec(s, j1) {
        Some(x) => x,
        None => {
            return None;
        },
    };
    let c = skip_ws_exec(s, k);
    if !char_at_exec(s, c, ':') {
        return None;
    }
    let (cs, m) = match ctors_exec(s, c + 1) {
        Some(x) => x,
        None => {
            return None;
        },
    };
    proof {
        lemma_ctors_view(cs@);
    }
    if cs.len() == 0 {
        return None;
    }
    let m1 = skip_ws_exec(s, m);
    proof {
        reveal_strlit("end");
    }
    match keyword_exec(s, m1, "end") {
        Some(e) => Some((Type::TAlgebraicData(name, sort_constructors(cs)), e)),
        None => None,
    }
}

/// Constructors one after another.
fn ctors_exec(s: &Vec<char>, i: usize) -> (r: Option<(Vec<(Name, Vec<Type>)>, usize)>)
    requires
        i <= s.len(),
    ensures
        ctors_res(r) == ctors_at(s@, i as int),
        r matches Some((_, j)) && i <= j <= s.len(),
    decreases s.len() - i, 2int,
{
    match ctor_exec(s, i) {
        Some((c, j)) => {
            let mut rest = match ctors_exec(s, j) {
                Some((cs, _)) => cs,
                None => Vec::new(),
            };
            let end = match ctors_exec(s, j) {
                Some((_, k)) => k,
                None => j,
            };
            let ghost cv = (c.0@, types_view(c.1@));
            let ghost before = rest@;
            rest.insert(0, c);
            proof {
                lemma_ctors_view(rest@);
                lemma_ctors_view(before);
                assert(ctors_view(rest@) =~= seq![cv] + ctors_view(before));
            }
            Some((rest, end))
        },
        None => Some((Vec::new(), i)),
    }
}

/// `| C T ..`.
fn ctor_exec(s: &Vec<char>, i: usize) -> (r: Option<((Name, Vec<Type>), usize)>)
    requires
        i <= s.len(),
    ensures
        match r {
            Some((c, j)) => ctor_at(s@, i as int) == Some(((c.0@, types_view(c.1@)), j as int)) && i < j <= s.len(),
            None => ctor_at(s@, i as int) is None,
        },
    decreases s.len() - i, 1int,
{
    let j = skip_ws_exec(s, i);
    if !char_at_exec(s, j, '|') {
        return None;
    }
    let j1 = skip_ws_exec(s, j + 1);
    let (name, k) = match identifier_exec(s, j1) {
        Some(x) => x,
        None => {
            return None;
        },
    };
    match field_types_exec(s, k) {
        Some((ts, m)) => Some(((name, ts), m)),
        None => None,
    }
}

/// Field types separated by white space.
fn field_types_exec(s: &Vec<char>, i: usize) -> (r: Option<(Vec<Type>, usize)>)
    requires
        i <= s.len(),
    ensures
        types_res(r) == field_types_at(s@, i as int),
        r matches Some((_, j)) ==> i <= j <= s.len(),
    decreases s.len() - i, 2int,
{
    match type_exec(s, i) {
        Some((t, j)) => {
            let mut acc: Vec<Type> = Vec::new();
            acc.push(t);
            proof {
                crate::ast::lemma_types_view(acc@);
                assert(types_view(acc@) =~= seq![acc@[0]@]);
            }
            field_types_rest_exec(s, j, acc)
        },
        None => Some((Vec::new(), i)),
    }
}

/// More field types, each after white space.
fn field_types_rest_exec(s: &Vec<char>, j: usize, acc: Vec<Type>) -> (r: Option<(Vec<Type>, usize)>)
    requires
        j <= s.len(),
    ensures
        types_res(r) == field_types_rest(s@, j as int, types_view(acc@)),
        r matches Some((_, m)) ==> j <= m <= s.len(),
    decreases s.len() - j, 3int,
{
    let k = skip_ws_exec(s, j);
    if k == j {
        return None;
    }
    match type_exec(s, k) {
        Some((t, m)) => {
            let mut acc = acc;
            let ghost before = acc@;
            acc.push(t);
            proof {
                crate::ast::lemma_types_view(acc@);
                crate::ast::lemma_types_view(before);
                assert(acc@.drop_last() == before);
            }
            field_types_rest_exec(s, m, acc)
        },
        None => Some((acc, j)),
    }
}

/// The value of a run of decimal digits.
pub open spec fn decimal_value(w: Seq<char>) -> int
    decreases w.len(),
{
    if w.len() == 0 {
        0
    } else {
        decimal_value(w.drop_last()) * 10 + (w.last() as int - '0' as int)
    }
}

/// The characters that may stand inside a string literal.
pub open spec fn string_char(c: char) -> bool {
    c != '"' && !crate::lexical::is_control(c)
}

/// The position after the string characters at `i`.
pub open spec fn string_end(s: Seq<char>, i: int) -> int
    decreases s.len() - i,
{
    if 0 <= i < s.len() && string_char(s[i]) {
        string_end(s, i + 1)
    } else {
        i
    }
}

/// `True` or `False`.
pub open spec fn bool_at(s: Seq<char>, i: int) -> Option<(ExprV, int)> {
    if keyword_at(s, i, "True"@) is Some {
        Some((ExprV::CTrue, keyword_at(s, i, "True"@).unwrap()))
    } else if keyword_at(s, i, "False"@) is Some {
        Some((ExprV::CFalse, keyword_at(s, i, "False"@).unwrap()))
    } else {
        None
    }
}

/// A number, with an optional `-` and no white space before it: digits, a
/// point and digits make a real, kept as written; digits alone make an
/// integer, which must fit in 32 bits.
pub open spec fn number_at(s: Seq<char>, i: int) -> Option<(ExprV, int)> {
    let neg = char_at(s, i, '-');
    let a = if neg { i + 1 } else { i };
    let d = digits_end(s, a);
    let f = digits_end(s, d + 1);
    if !(0 <= i <= s.len()) || d <= a {
        None
    } else if char_at(s, d, '.') && f > d + 1 {
        Some((ExprV::CReal(s.subrange(i, f)), f))
    } else {
        let v = if neg {
            -decimal_value(s.subrange(a, d))
        } else {
            decimal_value(s.subrange(a, d))
        };
        if i32::MIN <= v <= i32::MAX {
            Some((ExprV::CInt(v as i32), d))
        } else {
            None
        }
    }
}

/// A string literal between double quotes, with optional white space
/// around it.
pub open spec fn string_at(s: Seq<char>, i: int) -> Option<(ExprV, int)> {
    let j = skip_ws(s, i);
    let e = string_end(s, j + 1);
    if char_at(s, j, '"') && char_at(s, e, '"') {
        Some((ExprV::CString(s.subrange(j + 1, e)), skip_ws(s, e + 1)))
    } else {
        None
    }
}

/// A literal: a boolean, a number or a string.
pub open spec fn literal_at(s: Seq<char>, i: int) -> Option<(ExprV, int)> {
    if bool_at(s, i) is Some {
        bool_at(s, i)
    } else if number_at(s, i) is Some {
        number_at(s, i)
    } else {
        string_at(s, i)
    }
}

/// The comparison operators, tried in this order.
pub open spec fn rel_ops() -> Seq<Seq<char>> {
    seq!["<="@, "<"@, ">="@, ">"@, "=="@, "!="@]
}

/// The operators of a group: 0 for the comparisons, 1 for `+ -`, 2 for
/// `* /`.
pub open spec fn group_ops(g: int) -> Seq<Seq<char>> {
    if g == 0 {
        rel_ops()
    } else if g == 1 {
        seq!["+"@, "-"@]
    } else {
        seq!["*"@, "/"@]
    }
}

/// The first operator of the list, from the `k`th on, that stands at `i`
/// after optional white space: its index, and the position after it and
/// the white space that follows.
pub open spec fn op_index_at(s: Seq<char>, i: int, ops: Seq<Seq<char>>, k: int) -> Option<(int, int)>
    decreases ops.len() - k,
{
    if !(0 <= k < ops.len()) {
        None
    } else if text_at(s, skip_ws(s, i), ops[k]) {
        Some((k, skip_ws(s, skip_ws(s, i) + ops[k].len())))
    } else {
        op_index_at(s, i, ops, k + 1)
    }
}

/// The binary expression that the `k`th operator of group `g` builds.
pub open spec fn binary_of(g: int, k: int, l: ExprV, r: ExprV) -> ExprV {
    let (l, r) = (Box::new(l), Box::new(r));
    if g == 0 {
        if k == 0 {
            ExprV::LTE(l, r)
        } else if k == 1 {
            ExprV::LT(l, r)
        } else if k == 2 {
            ExprV::GTE(l, r)
        } else if k == 3 {
            ExprV::GT(l, r)
        } else if k == 4 {
            ExprV::EQ(l, r)
        } else {
            ExprV::NEQ(l, r)
        }
    } else if g == 1 {
        if k == 0 {
            ExprV::Add(l, r)
        } else {
            ExprV::Sub(l, r)
        }
    } else {
        if k == 0 {
            ExprV::Mul(l, r)
        } else {
            ExprV::Div(l, r)
        }
    }
}

/// An expression: `or` binds least, then `and`, `not`, the comparisons,
/// `+ -` and `* /`; binary operators of one level group to the left.
pub open spec fn expr_at(s: Seq<char>, i: int) -> Option<(ExprV, int)>
    decreases s.len() - i, 9int,
{
    if !(0 <= i <= s.len()) {
        None
    } else {
        or_at(s, i)
    }
}

/// `and` expressions separated by `or`.
pub open spec fn or_at(s: Seq<char>, i: int) -> Option<(ExprV, int)>
    decreases s.len() - i, 8int,
{
    match and_at(s, i) {
        Some((e, j)) => if 0 <= i < j <= s.len() {
            Some(or_rest(s, j, e))
        } else {
            Some((e, j))
        },
        None => None,
    }
}

/// More `or` operands.
pub open spec fn or_rest(s: Seq<char>, j: int, acc: ExprV) -> (ExprV, int)
    decreases s.len() - j, 11int,
{
    match keyword_at(s, j, "or"@) {
        Some(k) => if 0 <= j < k <= s.len() {
            match and_at(s, k) {
                Some((e, m)) => if k <= m <= s.len() {
                    or_rest(s, m, ExprV::Or(Box::new(acc), Box::new(e)))
                } else {
                    (acc, j)
                },
                None => (acc, j),
            }
        } else {
            (acc, j)
        },
        None => (acc, j),
    }
}

/// `not` expressions separated by `and`.
pub open spec fn and_at(s: Seq<char>, i: int) -> Option<(ExprV, int)>
    decreases s.len() - i, 7int,
{
    match not_at(s, i) {
        Some((e, j)) => if 0 <= i < j <= s.len() {
            Some(and_rest(s, j, e))
        } else {
            Some((e, j))
        },
        None => None,
    }
}

/// More `and` operands.
pub open spec fn and_rest(s: Seq<char>, j: int, acc: ExprV) -> (ExprV, int)
    decreases s.len() - j, 11int,
{
    match keyword_at(s, j, "and"@) {
        Some(k) => if 0 <= j < k <= s.len() {
            match not_at(s, k) {
                Some((e, m)) => if k <= m <= s.len() {
                    and_rest(s, m, ExprV::And(Box::new(acc), Box::new(e)))
                } else {
                    (acc, j)
                },
                None => (acc, j),
            }
        } else {
            (acc, j)
        },
        None => (acc, j),
    }
}

/// `not` before a `not` expression, or else a comparison.
pub open spec fn not_at(s: Seq<char>, i: int) -> Option<(ExprV, int)>
    decreases s.len() - i, 6int,
{
    if !(0 <= i <= s.len()) {
        None
    } else {
        match keyword_at(s, i, "not"@) {
            Some(k) => if i < k <= s.len() {
                match not_at(s, k) {
                    Some((e, j)) => Some((ExprV::Not(Box::new(e)), j)),
                    None => rel_at(s, i),
                }
            } else {
                rel_at(s, i)
            },
            None => rel_at(s, i),
        }
    }
}

/// Sums separated by comparison operators.
pub open spec fn rel_at(s: Seq<char>, i: int) -> Option<(ExprV, int)>
    decreases s.len() - i, 5int,
{
    match add_at(s, i) {
        Some((e, j)) => if 0 <= i < j <= s.len() {
            Some(ops_rest(s, j, 0, e))
        } else {
            Some((e, j))
        },
        None => None,
    }
}

/// Terms separated by `+` and `-`.
pub open spec fn add_at(s: Seq<char>, i: int) -> Option<(ExprV, int)>
    decreases s.len() - i, 4int,
{
    match term_at(s, i) {
        Some((e, j)) => if 0 <= i < j <= s.len() {
            Some(ops_rest(s, j, 1, e))
        } else {
            Some((e, j))
        },
        None => None,
    }
}

/// Factors separated by `*` and `/`.
pub open spec fn term_at(s: Seq<char>, i: int) -> Option<(ExprV, int)>
    decreases s.len() - i, 3int,
{
    match factor_at(s, i) {
        Some((e, j)) => if 0 <= i < j <= s.len() {
            Some(ops_rest(s, j, 2, e))
        } else {
            Some((e, j))
        },
        None => None,
    }
}

/// The operand of an operator group: a sum after a comparison, a term
/// after `+ -`, a factor after `* /`.
pub open spec fn operand_at(s: Seq<char>, i: int, g: int) -> Option<(ExprV, int)>
    decreases s.len() - i, 5int,
{
    if g == 0 {
        add_at(s, i)
    } else if g == 1 {
        term_at(s, i)
    } else {
        factor_at(s, i)
    }
}

/// More operands after operators of a group, grouped to the left.
pub open spec fn ops_rest(s: Seq<char>, j: int, g: int, acc: ExprV) -> (ExprV, int)
    decreases s.len() - j, 11int,
{
    match op_index_at(s, j, group_ops(g), 0) {
        Some((k, p)) => if 0 <= j < p <= s.len() {
            match operand_at(s, p, g) {
                Some((e, m)) => if p <= m <= s.len() {
                    ops_rest(s, m, g, binary_of(g, k, acc, e))
                } else {
                    (acc, j)
                },
                None => (acc, j),
            }
        } else {
            (acc, j)
        },
        None => (acc, j),
    }
}

/// A factor: a literal, a list, a call, a variable, or an expression or
/// tuple in parentheses; the first of these that parses wins.
pub open spec fn factor_at(s: Seq<char>, i: int) -> Option<(ExprV, int)>
    decreases s.len() - i, 2int,
{
    if literal_at(s, i) is Some {
        literal_at(s, i)
    } else if list_at(s, i) is Some {
        list_at(s, i)
    } else if call_at(s, i) is Some {
        call_at(s, i)
    } else if var_at(s, i) is Some {
        var_at(s, i)
    } else {
        paren_at(s, i)
    }
}

/// A variable.
pub open spec fn var_at(s: Seq<char>, i: int) -> Option<(ExprV, int)> {
    match identifier_at(s, i) {
        Some((n, j)) => Some((ExprV::Var(n), j)),
        None => None,
    }
}

/// `[e, ..]`, with white space allowed around the items and after the
/// closing bracket.
pub open spec fn list_at(s: Seq<char>, i: int) -> Option<(ExprV, int)>
    decreases s.len() - i, 1int,
{
    let j = skip_ws(s, i);
    let k = skip_ws(s, j + 1);
    if 0 <= i <= j && char_at(s, j, '[') && j < k <= s.len() {
        match exprs_at(s, k) {
            Some((es, m)) => {
                let c = skip_ws(s, m);
                if char_at(s, c, ']') {
                    Some((ExprV::ListValue(es), skip_ws(s, c + 1)))
                } else {
                    None
                }
            },
            None => None,
        }
    } else {
        None
    }
}

/// `f(e, ..)`: a name and its arguments in parentheses.
pub open spec fn call_at(s: Seq<char>, i: int) -> Option<(ExprV, int)>
    decreases s.len() - i, 1int,
{
    match identifier_at(s, i) {
        Some((n, j)) => if 0 <= i < j <= s.len() {
            match args_at(s, j) {
                Some((es, k)) => Some((ExprV::FuncCall(n, es), k)),
                None => None,
            }
        } else {
            None
        },
        None => None,
    }
}

/// Arguments: `(e, ..)` after optional white space.
pub open spec fn args_at(s: Seq<char>, i: int) -> Option<(Seq<ExprV>, int)>
    decreases s.len() - i, 1int,
{
    let j = skip_ws(s, i);
    if 0 <= i <= j && char_at(s, j, '(') && j + 1 <= s.len() {
        match exprs_at(s, j + 1) {
            Some((es, m)) => {
                let c = skip_ws(s, m);
                if char_at(s, c, ')') {
                    Some((es, c + 1))
                } else {
                    None
                }
            },
            None => None,
        }
    } else {
        None
    }
}

/// `(e)` is `e`; `()` is the empty tuple; `(e,)` and `(e, f, ..)` are
/// tuples.
pub open spec fn paren_at(s: Seq<char>, i: int) -> Option<(ExprV, int)>
    decreases s.len() - i, 1int,
{
    let a = skip_ws(s, i + 1);
    if !(0 <= i < s.len()) || !char_at(s, i, '(') || !(i < a <= s.len()) {
        None
    } else {
        let (res, d) = paren_body_at(s, i, a);
        let f = skip_ws(s, d);
        if char_at(s, f, ')') {
            Some((res, f + 1))
        } else {
            None
        }
    }
}

/// What stands inside parentheses that open at `i`, from `a` on: nothing
/// (the empty tuple), an expression, or an expression, a comma and more
/// expressions (a tuple); and the position after it.
pub open spec fn paren_body_at(s: Seq<char>, i: int, a: int) -> (ExprV, int)
    decreases s.len() - i, 0int,
{
    if !(0 <= i < a <= s.len()) {
        (ExprV::Tuple(seq![]), a)
    } else {
        match expr_at(s, a) {
            None => (ExprV::Tuple(seq![]), skip_ws(s, a)),
            Some((e, b)) => if a < b <= s.len() {
                paren_tail_at(s, i, e, b)
            } else {
                (e, b)
            },
        }
    }
}

/// After the first expression `e` inside parentheses that open at `i`,
/// ending at `b`: a comma makes a tuple of `e` and the expressions that
/// follow; otherwise `e` stands alone.
pub open spec fn paren_tail_at(s: Seq<char>, i: int, e: ExprV, b: int) -> (ExprV, int)
    decreases s.len() - b, 0int,
{
    let c = skip_ws(s, b);
    match separator_at(s, c, ',') {
        Some(k) => if 0 <= b < k <= s.len() {
            match exprs_at(s, k) {
                Some((rest, m)) => (ExprV::Tuple(seq![e] + rest), m),
                None => (ExprV::Tuple(seq![e]), k),
            }
        } else {
            (e, c)
        },
        None => (e, c),
    }
}

/// Expressions separated by commas; none when the first does not parse.
pub open spec fn exprs_at(s: Seq<char>, i: int) -> Option<(Seq<ExprV>, int)>
    decreases s.len() - i, 10int,
{
    if !(0 <= i <= s.len()) {
        None
    } else {
        match expr_at(s, i) {
            Some((e, j)) => if i < j <= s.len() {
                Some(exprs_rest(s, j, seq![e]))
            } else {
                Some((seq![e], j))
            },
            None => Some((seq![], i)),
        }
    }
}

/// More expressions of a list, each after a comma.
pub open spec fn exprs_rest(s: Seq<char>, j: int, acc: Seq<ExprV>) -> (Seq<ExprV>, int)
    decreases s.len() - j, 11int,
{
    match separator_at(s, j, ',') {
        Some(k) => if 0 <= j < k <= s.len() {
            match expr_at(s, k) {
                Some((e, m)) => if k <= m <= s.len() {
                    exprs_rest(s, m, acc.push(e))
                } else {
                    (acc, j)
                },
                None => (acc, j),
            }
        } else {
            (acc, j)
        },
        None => (acc, j),
    }
}

/// What a parse of an expression gives back.
pub open spec fn expr_res(r: Option<(Expression, usize)>) -> Option<(ExprV, int)> {
    match r {
        Some((e, j)) => Some((e@, j as int)),
        None => None,
    }
}

/// What a parse of a list of expressions gives back.
pub open spec fn exprs_res(r: Option<(Vec<Expression>, usize)>) -> Option<(Seq<ExprV>, int)> {
    match r {
        Some((es, j)) => Some((exprs_view(es@), j as int)),
        None => None,
    }
}

/// The end of a run of string characters lies ahead, within the text.
pub proof fn lemma_string_end(s: Seq<char>, i: int)
    requires
        0 <= i <= s.len(),
    ensures
        i <= string_end(s, i) <= s.len(),
    decreases s.len() - i,
{
    if i < s.len() && string_char(s[i]) {
        lemma_string_end(s, i + 1);
    }
}

/// `True` or `False`.
fn bool_exec(s: &Vec<char>, i: usize) -> (r: Option<(Expression, usize)>)
    requires
        i <= s.len(),
    ensures
        expr_res(r) == bool_at(s@, i as int),
        advances(r, i as int, s.len() as int),
{
    proof {
        reveal_strlit("True");
    }
    if let Some(k) = keyword_exec(s, i, "True") {
        return Some((Expression::CTrue, k));
    }
    proof {
        reveal_strlit("False");
    }
    if let Some(k) = keyword_exec(s, i, "False") {
        return Some((Expression::CFalse, k));
    }
    None
}

/// A number, as [`number_at`] states.
fn number_exec(s: &Vec<char>, i: usize) -> (r: Option<(Expression, usize)>)
    requires
        i <= s.len(),
    ensures
        expr_res(r) == number_at(s@, i as int),
        advances(r, i as int, s.len() as int),
{
    let neg = char_at_exec(s, i, '-');
    let a = if neg {
        i + 1
    } else {
        i
    };
    let d = digits_end_exec(s, a);
    if d <= a {
        return None;
    }
    proof {
        lemma_digits_end(s@, a as int);
    }
    if char_at_exec(s, d, '.') {
        let f = digits_end_exec(s, d + 1);
        if f > d + 1 {
            return Some((Expression::CReal(chars_text(s, i, f)), f));
        }
    }
    let cap: u64 = 2147483649;
    let mut v: u64 = 0;
    let mut k = a;
    assert(s@.subrange(a as int, a as int) =~= Seq::<char>::empty());
    while k < d
        invariant
            a <= k <= d <= s.len(),
            forall|m: int| a <= m < d ==> is_digit(#[trigger] s@[m]),
            cap == 2147483649,
            decimal_value(s@.subrange(a as int, k as int)) >= 0,
            v as int == if decimal_value(s@.subrange(a as int, k as int)) < cap {
                decimal_value(s@.subrange(a as int, k as int))
            } else {
                cap as int
            },
        decreases d - k,
    {
        let ghost prev = decimal_value(s@.subrange(a as int, k as int));
        assert(s@.subrange(a as int, k + 1).drop_last() =~= s@.subrange(a as int, k as int));
        assert(is_digit(s@[k as int]));
        let digit = (s[k] as u32 - '0' as u32) as u64;
        assert(decimal_value(s@.subrange(a as int, k + 1)) == prev * 10 + digit);
        if v < cap {
            let next = v * 10 + digit;
            v = if next < cap {
                next
            } else {
                cap
            };
        }
        k = k + 1;
    }
    if neg {
        if v <= 2147483648 {
            let x: i64 = -(v as i64);
            Some((Expression::CInt(x as i32), d))
        } else {
            None
        }
    } else {
        if v <= 2147483647 {
            Some((Expression::CInt(v as i32), d))
        } else {
            None
        }
    }
}

/// A string literal, as [`string_at`] states.
fn string_exec(s: &Vec<char>, i: usize) -> (r: Option<(Expression, usize)>)
    requires
        i <= s.len(),
    ensures
        expr_res(r) == string_at(s@, i as int),
        advances(r, i as int, s.len() as int),
{
    let j = skip_ws_exec(s, i);
    if !char_at_exec(s, j, '"') {
        return None;
    }
    proof {
        lemma_string_end(s@, j + 1);
    }
    let mut e = j + 1;
    while e < s.len() && crate::lexical::is_string_char(s[e])
        invariant
            j + 1 <= e <= s.len(),
            string_end(s@, e as int) == string_end(s@, j + 1),
        decreases s.len() - e,
    {
        e = e + 1;
    }
    if !char_at_exec(s, e, '"') {
        return None;
    }
    let text = chars_text(s, j + 1, e);
    Some((Expression::CString(text), skip_ws_exec(s, e + 1)))
}

/// A literal.
fn literal_exec(s: &Vec<char>, i: usize) -> (r: Option<(Expression, usize)>)
    requires
        i <= s.len(),
    ensures
        expr_res(r) == literal_at(s@, i as int),
        advances(r, i as int, s.len() as int),
{
    if let Some(x) = bool_exec(s, i) {
        return Some(x);
    }
    if let Some(x) = number_exec(s, i) {
        return Some(x);
    }
    string_exec(s, i)
}

/// The operators of a group.
fn group_op_list(g: u8) -> (r: Vec<&'static str>)
    ensures
        r@.map_values(|x: &str| x@) == group_ops(g as int),
        forall|k: int| 0 <= k < r@.len() ==> (#[trigger] r@[k])@.len() > 0,
{
    proof {
        reveal_strlit("<=");
        reveal_strlit("<");
        reveal_strlit(">=");
        reveal_strlit(">");
        reveal_strlit("==");
        reveal_strlit("!=");
        reveal_strlit("+");
        reveal_strlit("-");
        reveal_strlit("*");
        reveal_strlit("/");
    }
    let r = if g == 0 {
        vec!["<=", "<", ">=", ">", "==", "!="]
    } else if g == 1 {
        vec!["+", "-"]
    } else {
        vec!["*", "/"]
    };
    assert(r@.map_values(|x: &str| x@) =~= group_ops(g as int));
    r
}

/// The first operator of a group at `i`.
fn op_index_exec(s: &Vec<char>, i: usize, g: u8) -> (r: Option<(usize, usize)>)
    requires
        i <= s.len(),
    ensures
        match r {
            Some((k, p)) => op_index_at(s@, i as int, group_ops(g as int), 0) == Some((k as int, p as int))
                && i < p <= s.len(),
            None => op_index_at(s@, i as int, group_ops(g as int), 0) is None,
        },
{
    let ops = group_op_list(g);
    let ghost ov = group_ops(g as int);
    let j = skip_ws_exec(s, i);
    let mut k: usize = 0;
    while k < ops.len()
        invariant
            k <= ops.len(),
            i <= j <= s.len(),
            j as int == skip_ws(s@, i as int),
            ov == group_ops(g as int),
            ops@.map_values(|x: &str| x@) == ov,
            forall|m: int| 0 <= m < ops@.len() ==> (#[trigger] ops@[m])@.len() > 0,
            op_index_at(s@, i as int, ov, 0) == op_index_at(s@, i as int, ov, k as int),
        decreases ops.len() - k,
    {
        let op = ops[k];
        assert(ov[k as int] == op@);
        if text_at_exec(s, j, op) {
            let p = skip_ws_exec(s, j + op.unicode_len());
            return Some((k, p));
        }
        k = k + 1;
    }
    None
}

/// The binary expression that an operator builds.
fn binary_exec(g: u8, k: usize, l: Expression, r: Expression) -> (e: Expression)
    ensures
        e@ == binary_of(g as int, k as int, l@, r@),
{
    let (l, r) = (Box::new(l), Box::new(r));
    if g == 0 {
        if k == 0 {
            Expression::LTE(l, r)
        } else if k == 1 {
            Expression::LT(l, r)
        } else if k == 2 {
            Expression::GTE(l, r)
        } else if k == 3 {
            Expression::GT(l, r)
        } else if k == 4 {
            Expression::EQ(l, r)
        } else {
            Expression::NEQ(l, r)
        }
    } else if g == 1 {
        if k == 0 {
            Expression::Add(l, r)
        } else {
            Expression::Sub(l, r)
        }
    } else {
        if k == 0 {
            Expression::Mul(l, r)
        } else {
            Expression::Div(l, r)
        }
    }
}

/// A variable.
fn var_exec(s: &Vec<char>, i: usize) -> (r: Option<(Expression, usize)>)
    requires
        i <= s.len(),
    ensures
        expr_res(r) == var_at(s@, i as int),
        advances(r, i as int, s.len() as int),
{
    match identifier_exec(s, i) {
        Some((n, j)) => Some((Expression::Var(n), j)),
        None => None,
    }
}

/// An expression at `i`, as [`expr_at`] states.
pub(crate) fn expr_exec(s: &Vec<char>, i: usize) -> (r: Option<(Expression, usize)>)
    requires
        i <= s.len(),
    ensures
        expr_res(r) == expr_at(s@, i as int),
        advances(r, i as int, s.len() as int),
    decreases s.len() - i, 9int,
{
    or_exec(s, i)
}

/// `and` expressions separated by `or`.
fn or_exec(s: &Vec<char>, i: usize) -> (r: Option<(Expression, usize)>)
    requires
        i <= s.len(),
    ensures
        expr_res(r) == or_at(s@, i as int),
        advances(r, i as int, s.len() as int),
    decreases s.len() - i, 8int,
{
    match and_exec(s, i) {
        Some((e, j)) => Some(or_rest_exec(s, j, e)),
        None => None,
    }
}

/// More `or` operands.
fn or_rest_exec(s: &Vec<char>, j: usize, acc: Expression) -> (r: (Expression, usize))
    requires
        j <= s.len(),
    ensures
        (r.0@, r.1 as int) == or_rest(s@, j as int, acc@),
        j <= r.1 <= s.len(),
    decreases s.len() - j, 11int,
{
    proof {
        reveal_strlit("or");
    }
    match keyword_exec(s, j, "or") {
        Some(k) => match and_exec(s, k) {
            Some((e, m)) => or_rest_exec(s, m, Expression::Or(Box::new(acc), Box::new(e))),
            None => (acc, j),
        },
        None => (acc, j),
    }
}

/// `not` expressions separated by `and`.
fn and_exec(s: &Vec<char>, i: usize) -> (r: Option<(Expression, usize)>)
    requires
        i <= s.len(),
    ensures
        expr_res(r) == and_at(s@, i as int),
        advances(r, i as int, s.len() as int),
    decreases s.len() - i, 7int,
{
    match not_exec(s, i) {
        Some((e, j)) => Some(and_rest_exec(s, j, e)),
        None => None,
    }
}

/// More `and` operands.
fn and_rest_exec(s: &Vec<char>, j: usize, acc: Expression) -> (r: (Expression, usize))
    requires
        j <= s.len(),
    ensures
        (r.0@, r.1 as int) == and_rest(s@, j as int, acc@),
        j <= r.1 <= s.len(),
    decreases s.len() - j, 11int,
{
    proof {
        reveal_strlit("and");
    }
    match keyword_exec(s, j, "and") {
        Some(k) => match not_exec(s, k) {
            Some((e, m)) => and_rest_exec(s, m, Expression::And(Box::new(acc), Box::new(e))),
            None => (acc, j),
        },
        None => (acc, j),
    }
}

/// `not` before a `not` expression, or a comparison.
fn not_exec(s: &Vec<char>, i: usize) -> (r: Option<(Expression, usize)>)
    requires
        i <= s.len(),
    ensures
        expr_res(r) == not_at(s@, i as int),
        advances(r, i as int, s.len() as int),
    decreases s.len() - i, 6int,
{
    proof {
        reveal_strlit("not");
    }
    match keyword_exec(s, i, "not") {
        Some(k) => match not_exec(s, k) {
            Some((e, j)) => Some((Expression::Not(Box::new(e)), j)),
            None => rel_exec(s, i),
        },
        None => rel_exec(s, i),
    }
}

/// Sums separated by comparisons.
fn rel_exec(s: &Vec<char>, i: usize) -> (r: Option<(Expression, usize)>)
    requires
        i <= s.len(),
    ensures
        expr_res(r) == rel_at(s@, i as int),
        advances(r, i as int, s.len() as int),
    decreases s.len() - i, 5int,
{
    match add_exec(s, i) {
        Some((e, j)) => Some(ops_rest_exec(s, j, 0, e)),
        None => None,
    }
}

/// Terms separated by `+ -`.
fn add_exec(s: &Vec<char>, i: usize) -> (r: Option<(Expression, usize)>)
    requires
        i <= s.len(),
    ensures
        expr_res(r) == add_at(s@, i as int),
        advances(r, i as int, s.len() as int),
    decreases s.len() - i, 4int,
{
    match term_exec(s, i) {
        Some((e, j)) => Some(ops_rest_exec(s, j, 1, e)),
        None => None,
    }
}

/// Factors separated by `* /`.
fn term_exec(s: &Vec<char>, i: usize) -> (r: Option<(Expression, usize)>)
    requires
        i <= s.len(),
    ensures
        expr_res(r) == term_at(s@, i as int),
        advances(r, i as int, s.len() as int),
    decreases s.len() - i, 3int,
{
    match factor_exec(s, i) {
        Some((e, j)) => Some(ops_rest_exec(s, j, 2, e)),
        None => None,
    }
}

/// The operand of an operator group.
fn operand_exec(s: &Vec<char>, i: usize, g: u8) -> (r: Option<(Expression, usize)>)
    requires
        i <= s.len(),
    ensures
        expr_res(r) == operand_at(s@, i as int, g as int),
        advances(r, i as int, s.len() as int),
    decreases s.len() - i, 5int,
{
    if g == 0 {
        add_exec(s, i)
    } else if g == 1 {
        term_exec(s, i)
    } else {
        factor_exec(s, i)
    }
}

/// More operands after operators of a group.
fn ops_rest_exec(s: &Vec<char>, j: usize, g: u8, acc: Expression) -> (r: (Expression, usize))
    requires
        j <= s.len(),
    ensures
        (r.0@, r.1 as int) == ops_rest(s@, j as int, g as int, acc@),
        j <= r.1 <= s.len(),
    decreases s.len() - j, 11int,
{
    match op_index_exec(s, j, g) {
        Some((k, p)) => match operand_exec(s, p, g) {
            Some((e, m)) => ops_rest_exec(s, m, g, binary_exec(g, k, acc, e)),
            None => (acc, j),
        },
        None => (acc, j),
    }
}

/// A factor.
fn factor_exec(s: &Vec<char>, i: usize) -> (r: Option<(Expression, usize)>)
    requires
        i <= s.len(),
    ensures
        expr_res(r) == factor_at(s@, i as int),
        advances(r, i as int, s.len() as int),
    decreases s.len() - i, 2int,
{
    if let Some(x) = literal_exec(s, i) {
        return Some(x);
    }
    if let Some(x) = list_exec(s, i) {
        return Some(x);
    }
    if let Some(x) = call_exec(s, i) {
        return Some(x);
    }
    if let Some(x) = var_exec(s, i) {
        return Some(x);
    }
    paren_exec(s, i)
}

/// `[e, ..]`.
fn list_exec(s: &Vec<char>, i: usize) -> (r: Option<(Expression, usize)>)
    requires
        i <= s.len(),
    ensures
        expr_res(r) == list_at(s@, i as int),
        advances(r, i as int, s.len() as int),
    decreases s.len() - i, 1int,
{
    let j = skip_ws_exec(s, i);
    if !char_at_exec(s, j, '[') {
        return None;
    }
    let k = skip_ws_exec(s, j + 1);
    match exprs_exec(s, k) {
        Some((es, m)) => {
            let c = skip_ws_exec(s, m);
            if char_at_exec(s, c, ']') {
                Some((Expression::ListValue(es), skip_ws_exec(s, c + 1)))
            } else {
                None
            }
        },
        None => None,
    }
}

/// `f(e, ..)`.
fn call_exec(s: &Vec<char>, i: usize) -> (r: Option<(Expression, usize)>)
    requires
        i <= s.len(),
    ensures
        expr_res(r) == call_at(s@, i as int),
        advances(r, i as int, s.len() as int),
    decreases s.len() - i, 1int,
{
    match identifier_exec(s, i) {
        Some((n, j)) => match args_exec(s, j) {
            Some((es, k)) => Some((Expression::FuncCall(n, es), k)),
            None => None,
        },
        None => None,
    }
}

/// `(e, ..)` after optional white space.
fn args_exec(s: &Vec<char>, i: usize) -> (r: Option<(Vec<Expression>, usize)>)
    requires
        i <= s.len(),
    ensures
        exprs_res(r) == args_at(s@, i as int),
        advances(r, i as int, s.len() as int),
    decreases s.len() - i, 1int,
{
    let j = skip_ws_exec(s, i);
    if !char_at_exec(s, j, '(') {
        return None;
    }
    match exprs_exec(s, j + 1) {
        Some((es, m)) => {
            let c = skip_ws_exec(s, m);
            if char_at_exec(s, c, ')') {
                Some((es, c + 1))
            } else {
                None
            }
        },
        None => None,
    }
}

/// An expression or a tuple in parentheses, as [`paren_at`] states.
fn paren_exec(s: &Vec<char>, i: usize) -> (r: Option<(Expression, usize)>)
    requires
        i <= s.len(),
    ensures
        expr_res(r) == paren_at(s@, i as int),
        advances(r, i as int, s.len() as int),
    decreases s.len() - i, 1int,
{
    if !char_at_exec(s, i, '(') {
        return None;
    }
    let a = skip_ws_exec(s, i + 1);
    let (res, d) = paren_body_exec(s, i, a);
    let f = skip_ws_exec(s, d);
    if char_at_exec(s, f, ')') {
        Some((res, f + 1))
    } else {
        None
    }
}

/// What stands inside parentheses, as [`paren_body_at`] states.
fn paren_body_exec(s: &Vec<char>, i: usize, a: usize) -> (r: (Expression, usize))
    requires
        i < a <= s.len(),
    ensures
        (r.0@, r.1 as int) == paren_body_at(s@, i as int, a as int),
        a <= r.1 <= s.len(),
    decreases s.len() - i, 0int,
{
    match expr_exec(s, a) {
        None => {
            let v: Vec<Expression> = Vec::new();
            assert(exprs_view(v@) =~= Seq::<ExprV>::empty());
            (Expression::Tuple(v), skip_ws_exec(s, a))
        },
        Some((e, b)) => paren_tail_exec(s, i, e, b),
    }
}

/// After the first expression inside parentheses, as [`paren_tail_at`]
/// states.
fn paren_tail_exec(s: &Vec<char>, i: usize, e: Expression, b: usize) -> (r: (Expression, usize))
    requires
        i < b <= s.len(),
    ensures
        (r.0@, r.1 as int) == paren_tail_at(s@, i as int, e@, b as int),
        b <= r.1 <= s.len(),
    decreases s.len() - b, 0int,
{
    let c = skip_ws_exec(s, b);
    match separator_exec(s, c, ',') {
        Some(k) => {
            let (rest, m) = match exprs_exec(s, k) {
                Some(x) => x,
                None => (Vec::new(), k),
            };
            let ghost ev = e@;
            let ghost rv = exprs_view(rest@);
            let mut elements = rest;
            elements.insert(0, e);
            proof {
                lemma_exprs_view(elements@);
                lemma_exprs_view(rest@);
                assert(exprs_view(elements@) =~= seq![ev] + rv);
            }
            (Expression::Tuple(elements), m)
        },
        None => (e, c),
    }
}

/// Expressions separated by commas, possibly none.
pub(crate) fn exprs_exec(s: &Vec<char>, i: usize) -> (r: Option<(Vec<Expression>, usize)>)
    requires
        i <= s.len(),
    ensures
        exprs_res(r) == exprs_at(s@, i as int),
        r matches Some((_, j)) && i <= j <= s.len(),
    decreases s.len() - i, 10int,
{
    match expr_exec(s, i) {
        Some((e, j)) => {
            let mut acc: Vec<Expression> = Vec::new();
            acc.push(e);
            proof {
                lemma_exprs_view(acc@);
                assert(exprs_view(acc@) =~= seq![acc@[0]@]);
            }
            let (es, k) = exprs_rest_exec(s, j, acc);
            Some((es, k))
        },
        None => Some((Vec::new(), i)),
    }
}

/// More expressions of a list, each after a comma.
fn exprs_rest_exec(s: &Vec<char>, j: usize, acc: Vec<Expression>) -> (r: (Vec<Expression>, usize))
    requires
        j <= s.len(),
    ensures
        (exprs_view(r.0@), r.1 as int) == exprs_rest(s@, j as int, exprs_view(acc@)),
        j <= r.1 <= s.len(),
    decreases s.len() - j, 11int,
{
    let k = match separator_exec(s, j, ',') {
        Some(k) => k,
        None => {
            return (acc, j);
        },
    };
    match expr_exec(s, k) {
        Some((e, m)) => {
            let mut acc = acc;
            let ghost before = acc@;
            acc.push(e);
            proof {
                lemma_exprs_view(acc@);
                lemma_exprs_view(before);
                assert(acc@.drop_last() == before);
            }
            exprs_rest_exec(s, m, acc)
        },
        None => (acc, j),
    }
}

/// A parse that failed.
#[derive(Debug, PartialEq, Eq)]
pub struct ParseError;

/// The text after position `j`.
pub open spec fn rest_of(input: Seq<char>, j: int) -> Seq<char> {
    input.subrange(j, input.len() as int)
}

/// A parse's result: what the grammar recognised and the text after it, or
/// an error where the grammar recognises nothing.
pub open spec fn outcome<T: View>(input: Seq<char>, r: Result<(String, T), ParseError>, p: Option<(T::V, int)>) -> bool {
    match p {
        Some((v, j)) => r matches Ok((rest, x)) && x@ == v && rest@ == rest_of(input, j),
        None => r is Err,
    }
}

/// The characters of a text.
pub(crate) fn chars_of(input: &str) -> (r: Vec<char>)
    ensures
        r@ == input@,
{
    let n = input.unicode_len();
    let mut r: Vec<char> = Vec::new();
    let mut k: usize = 0;
    while k < n
        invariant
            n == input@.len(),
            k <= n,
            r@ == input@.subrange(0, k as int),
        decreases n - k,
    {
        r.push(input.get_char(k));
        assert(r@ =~= input@.subrange(0, k + 1));
        k = k + 1;
    }
    assert(input@.subrange(0, n as int) =~= input@);
    r
}

/// The text after position `j`.
pub(crate) fn rest_text(s: &Vec<char>, j: usize) -> (r: String)
    requires
        j <= s.len(),
    ensures
        r@ == rest_of(s@, j as int),
{
    chars_text(s, j, s.len())
}

/// Parses a type at the start of the input, as [`type_at`] states.
pub fn parse_type(input: &str) -> (r: Result<(String, Type), ParseError>)
    ensures
        outcome(input@, r, type_at(input@, 0)),
{
    let s = chars_of(input);
    match type_exec(&s, 0) {
        Some((t, j)) => Ok((rest_text(&s, j), t)),
        None => Err(ParseError),
    }
}

/// Parses a basic type, as [`basic_type_at`] states.
pub fn parse_basic_types(input: &str) -> (r: Result<(String, Type), ParseError>)
    ensures
        outcome(input@, r, basic_type_at(input@, 0)),
{
    let s = chars_of(input);
    match basic_type_exec(&s, 0) {
        Some((t, j)) => Ok((rest_text(&s, j), t)),
        None => Err(ParseError),
    }
}

/// Parses a list type, as [`list_type_at`] states.
pub fn parse_list_type(input: &str) -> (r: Result<(String, Type), ParseError>)
    ensures
        outcome(input@, r, list_type_at(input@, 0)),
{
    let s = chars_of(input);
    match list_type_exec(&s, 0) {
        Some((t, j)) => Ok((rest_text(&s, j), t)),
        None => Err(ParseError),
    }
}

/// Parses a tuple type, as [`tuple_type_at`] states.
pub fn parse_tuple_type(input: &str) -> (r: Result<(String, Type), ParseError>)
    ensures
        outcome(input@, r, tuple_type_at(input@, 0)),
{
    let s = chars_of(input);
    match tuple_type_exec(&s, 0) {
        Some((t, j)) => Ok((rest_text(&s, j), t)),
        None => Err(ParseError),
    }
}

/// Parses a maybe type, as [`maybe_type_at`] states.
pub fn parse_maybe_type(input: &str) -> (r: Result<(String, Type), ParseError>)
    ensures
        outcome(input@, r, maybe_type_at(input@, 0)),
{
    let s = chars_of(input);
    match maybe_type_exec(&s, 0) {
        Some((t, j)) => Ok((rest_text(&s, j), t)),
        None => Err(ParseError),
    }
}

/// Parses a result type, as [`result_type_at`] states.
pub fn parse_result_type(input: &str) -> (r: Result<(String, Type), ParseError>)
    ensures
        outcome(input@, r, result_type_at(input@, 0)),
{
    let s = chars_of(input);
    match result_type_exec(&s, 0) {
        Some((t, j)) => Ok((rest_text(&s, j), t)),
        None => Err(ParseError),
    }
}

/// Parses a function type, as [`function_type_at`] states.
pub fn parse_function_type(input: &str) -> (r: Result<(String, Type), ParseError>)
    ensures
        outcome(input@, r, function_type_at(input@, 0)),
{
    let s = chars_of(input);
    match function_type_exec(&s, 0) {
        Some((t, j)) => Ok((rest_text(&s, j), t)),
        None => Err(ParseError),
    }
}

/// Parses an algebraic data type, as [`adt_type_at`] states.
pub fn parse_adt_type(input: &str) -> (r: Result<(String, Type), ParseError>)
    ensures
        outcome(input@, r, adt_type_at(input@, 0)),
{
    let s = chars_of(input);
    match adt_type_exec(&s, 0) {
        Some((t, j)) => Ok((rest_text(&s, j), t)),
        None => Err(ParseError),
    }
}

/// Parses an expression at the start of the input, as [`expr_at`] states.
pub fn parse_expression(input: &str) -> (r: Result<(String, Expression), ParseError>)
    ensures
        outcome(input@, r, expr_at(input@, 0)),
{
    let s = chars_of(input);
    match expr_exec(&s, 0) {
        Some((e, j)) => Ok((rest_text(&s, j), e)),
        None => Err(ParseError),
    }
}

/// Parses a literal, as [`literal_at`] states.
pub fn parse_literal_expression(input: &str) -> (r: Result<(String, Expression), ParseError>)
    ensures
        outcome(input@, r, literal_at(input@, 0)),
{
    let s = chars_of(input);
    match literal_exec(&s, 0) {
        Some((e, j)) => Ok((rest_text(&s, j), e)),
        None => Err(ParseError),
    }
}

/// Parses a list expression, as [`list_at`] states.
pub fn parse_list(input: &str) -> (r: Result<(String, Expression), ParseError>)
    ensures
        outcome(input@, r, list_at(input@, 0)),
{
    let s = chars_of(input);
    match list_exec(&s, 0) {
        Some((e, j)) => Ok((rest_text(&s, j), e)),
        None => Err(ParseError),
    }
}

/// Parses the arguments of a call, as [`args_at`] states.
pub fn parse_actual_arguments(input: &str) -> (r: Result<(String, Vec<Expression>), ParseError>)
    ensures
        match args_at(input@, 0) {
            Some((es, j)) => r matches Ok((rest, x)) && exprs_view(x@) == es && rest@ == rest_of(input@, j),
            None => r is Err,
        },
{
    let s = chars_of(input);
    match args_exec(&s, 0) {
        Some((es, j)) => Ok((rest_text(&s, j), es)),
        None => Err(ParseError),
    }
}

/// Parses a literal pattern: a literal.
pub fn parse_literal_pattern(input: &str) -> (r: Result<(String, Expression), ParseError>)
    ensures
        outcome(input@, r, literal_at(input@, 0)),
{
    parse_literal_expression(input)
}

/// Parses a pattern argument: a literal, or else a name as a variable.
pub fn parse_pattern_argument(input: &str) -> (r: Result<(String, Expression), ParseError>)
    ensures
        outcome(
            input@,
            r,
            if literal_at(input@, 0) is Some {
                literal_at(input@, 0)
            } else {
                var_at(input@, 0)
            },
        ),
{
    let s = chars_of(input);
    if let Some((e, j)) = literal_exec(&s, 0) {
        return Ok((rest_text(&s, j), e));
    }
    match var_exec(&s, 0) {
        Some((e, j)) => Ok((rest_text(&s, j), e)),
        None => Err(ParseError),
    }
}

/// Parses an identifier, as [`identifier_at`] states: the name, and the
/// text after it.
pub fn identifier(input: &str) -> (r: Result<(String, String), ParseError>)
    ensures
        match identifier_at(input@, 0) {
            Some((w, j)) => r matches Ok((rest, x)) && x@ == w && rest@ == rest_of(input@, j),
            None => r is Err,
        },
{
    let s = chars_of(input);
    match identifier_exec(&s, 0) {
        Some((w, j)) => Ok((rest_text(&s, j), w)),
        None => Err(ParseError),
    }
}

/// Parses a keyword, as [`keyword_at`] states: the keyword, and the text
/// after it and the white space that follows.
pub fn keyword(input: &str, kw: &str) -> (r: Result<(String, String), ParseError>)
    ensures
        match keyword_at(input@, 0, kw@) {
            Some(j) => r matches Ok((rest, x)) && x@ == kw@ && rest@ == rest_of(input@, j),
            None => r is Err,
        },
{
    let s = chars_of(input);
    let j = skip_ws_exec(&s, 0);
    if !text_at_exec(&s, j, kw) {
        return Err(ParseError);
    }
    let e = j + kw.unicode_len();
    if e < s.len() && ident_char(s[e]) {
        return Err(ParseError);
    }
    Ok((rest_text(&s, skip_ws_exec(&s, e)), String::from_str(kw)))
}

/// Parses a separator, as [`symbol_at`] states: the symbol, and the text
/// after it and the white space that follows.
pub fn separator(input: &str, sep: &str) -> (r: Result<(String, String), ParseError>)
    ensures
        match symbol_at(input@, 0, sep@) {
            Some(j) => r matches Ok((rest, x)) && x@ == sep@ && rest@ == rest_of(input@, j),
            None => r is Err,
        },
{
    let s = chars_of(input);
    match symbol_exec(&s, 0, sep) {
        Some(j) => Ok((rest_text(&s, j), String::from_str(sep))),
        None => Err(ParseError),
    }
}

/// Parses a keyword that may run into what follows it (a name or an
/// expression), as [`symbol_at`] states: the keyword, and the text after it
/// and the white space that follows.
pub fn flexible_keyword(input: &str, kw: &str) -> (r: Result<(String, String), ParseError>)
    ensures
        match symbol_at(input@, 0, kw@) {
            Some(j) => r matches Ok((rest, x)) && x@ == kw@ && rest@ == rest_of(input@, j),
            None => r is Err,
        },
{
    separator(input, kw)
}

/// Parses one piece of an identifier, as [`word_piece_at`] states: the
/// piece, and the text after it.
pub fn identifier_start_or_continue(input: &str) -> (r: Result<(String, String), ParseError>)
    ensures
        match word_piece_at(input@, 0) {
            Some(j) => r matches Ok((rest, x)) && x@ == input@.subrange(0, j) && rest@ == rest_of(input@, j),
            None => r is Err,
        },
{
    let s = chars_of(input);
    if s.len() == 0 {
        return Err(ParseError);
    }
    let c = s[0];
    let j = if ('a' <= c && c <= 'z') || ('A' <= c && c <= 'Z') {
        alpha_end_exec(&s, 0)
    } else if c == '_' {
        1
    } else if '0' <= c && c <= '9' {
        proof {
            lemma_digits_end(s@, 0);
        }
        digits_end_exec(&s, 0)
    } else {
        return Err(ParseError);
    };
    Ok((rest_text(&s, j), chars_text(&s, 0, j)))
}

/// A keyword never matches the front of a longer word: the keyword followed
/// by a letter, a digit or `_` is refused.
pub proof fn law_keyword_needs_boundary(kw: Seq<char>, rest: Seq<char>)
    requires
        kw.len() > 0,
        !is_space(kw[0]),
        rest.len() > 0,
        is_ident_char(rest[0]),
    ensures
        keyword_at(kw + rest, 0, kw) is None,
{
    let s = kw + rest;
    assert(skip_ws(s, 0) == 0);
    assert(s[kw.len() as int] == rest[0]);
}

/// A keyword followed by the end of the text, or by a character that cannot
/// continue a word, is recognised, and the white space after it is consumed.
pub proof fn law_keyword_at_boundary(kw: Seq<char>, rest: Seq<char>)
    requires
        kw.len() > 0,
        !is_space(kw[0]),
        rest.len() == 0 || !is_ident_char(rest[0]),
    ensures
        keyword_at(kw + rest, 0, kw) == Some(skip_ws(kw + rest, kw.len() as int)),
{
    let s = kw + rest;
    assert(skip_ws(s, 0) == 0);
    assert(s.subrange(0, kw.len() as int) =~= kw);
    if rest.len() > 0 {
        assert(s[kw.len() as int] == rest[0]);
    }
}

/// What is recognised as an identifier is never a reserved word, and is not
/// empty.
pub proof fn law_identifier_is_no_keyword(s: Seq<char>, i: int)
    ensures
        identifier_at(s, i) matches Some((w, _)) ==> !keywords().contains(w) && w.len() > 0,
{
    let j = skip_ws(s, i);
    if 0 <= j < s.len() && (is_alpha(s[j]) || s[j] == '_') {
        if i >= 0 && i <= s.len() {
            lemma_skip_ws(s, i);
        }
        assert(is_ident_char(s[j]));
        lemma_ident_end(s, j + 1);
        assert(ident_end(s, j) == ident_end(s, j + 1));
    }
}

/// The operator list, searched from the `i`-th entry, finds the `k`-th
/// operator when it stands at the position and none between does.
pub(crate) proof fn lemma_op_index_finds(s: Seq<char>, j: int, ops: Seq<Seq<char>>, i: int, k: int)
    requires
        0 <= i <= k < ops.len(),
        text_at(s, skip_ws(s, j), ops[k]),
        forall|a: int| i <= a < k ==> !text_at(s, skip_ws(s, j), #[trigger] ops[a]),
    ensures
        op_index_at(s, j, ops, i) == Some((k, skip_ws(s, skip_ws(s, j) + ops[k].len()))),
    decreases k - i,
{
    if i < k {
        lemma_op_index_finds(s, j, ops, i + 1, k);
    }
}

/// A binary operator applies to the operand before it first and to the
/// operand after it second, and parsing goes on with the result as the left
/// operand of the next operator of the level (operators of one level group
/// to the left): after `acc`, the text `<= < >= > == !=`, `+ -` or `* /`
/// followed by an operand `e` builds the comparison, sum, difference,
/// product or quotient of `acc` and `e`, in that order.
pub proof fn law_operator_applies_left_then_right(
    s: Seq<char>,
    j: int,
    g: int,
    k: int,
    acc: ExprV,
    e: ExprV,
    m: int,
)
    requires
        0 <= j <= s.len(),
        0 <= g <= 2,
        0 <= k < group_ops(g).len(),
        text_at(s, skip_ws(s, j), group_ops(g)[k]),
        group_ops(g)[k].len() == 1 ==> !text_at(s, skip_ws(s, j) + 1, "="@),
        operand_at(s, skip_ws(s, skip_ws(s, j) + group_ops(g)[k].len()), g) == Some((e, m)),
        skip_ws(s, skip_ws(s, j) + group_ops(g)[k].len()) <= m <= s.len(),
    ensures
        ({
            let sym = group_ops(g)[k];
            let next = ops_rest(s, j, g, acc);
            let (l, r) = (Box::new(acc), Box::new(e));
            &&& sym == "<="@ ==> next == ops_rest(s, m, g, ExprV::LTE(l, r))
            &&& sym == "<"@ ==> next == ops_rest(s, m, g, ExprV::LT(l, r))
            &&& sym == ">="@ ==> next == ops_rest(s, m, g, ExprV::GTE(l, r))
            &&& sym == ">"@ ==> next == ops_rest(s, m, g, ExprV::GT(l, r))
            &&& sym == "=="@ ==> next == ops_rest(s, m, g, ExprV::EQ(l, r))
            &&& sym == "!="@ ==> next == ops_rest(s, m, g, ExprV::NEQ(l, r))
            &&& sym == "+"@ ==> next == ops_rest(s, m, g, ExprV::Add(l, r))
            &&& sym == "-"@ ==> next == ops_rest(s, m, g, ExprV::Sub(l, r))
            &&& sym == "*"@ ==> next == ops_rest(s, m, g, ExprV::Mul(l, r))
            &&& sym == "/"@ ==> next == ops_rest(s, m, g, ExprV::Div(l, r))
        }),
{
    let q = skip_ws(s, j);
    let ops = group_ops(g);
    let sym = ops[k];
    lemma_skip_ws(s, j);
    reveal_strlit("<=");
    reveal_strlit("<");
    reveal_strlit(">=");
    reveal_strlit(">");
    reveal_strlit("==");
    reveal_strlit("!=");
    reveal_strlit("+");
    reveal_strlit("-");
    reveal_strlit("*");
    reveal_strlit("/");
    reveal_strlit("=");
    assert(s.subrange(q, q + sym.len())[0] == s[q]);
    assert forall|a: int| 0 <= a < k implies !text_at(s, q, #[trigger] ops[a]) by {
        if text_at(s, q, ops[a]) {
            assert(s.subrange(q, q + ops[a].len())[0] == s[q]);
            if ops[a].len() == 2 {
                assert(s.subrange(q, q + 2)[1] == s[q + 1]);
                assert(s.subrange(q + 1, q + 2)[0] == s[q + 1]);
                assert(s.subrange(q + 1, q + 2) =~= "="@);
            }
        }
    }
    lemma_op_index_finds(s, j, ops, 0, k);
    lemma_skip_ws(s, q + sym.len());
}

/// `and` and `or` apply to the operand before them first and to the operand
/// after them second, and parsing goes on with the result as the left
/// operand (they group to the left).
pub proof fn law_connective_applies_left_then_right(s: Seq<char>, j: int, k: int, acc: ExprV, e: ExprV, m: int)
    requires
        0 <= j < k <= s.len(),
        k <= m <= s.len(),
    ensures
        keyword_at(s, j, "and"@) == Some(k) && not_at(s, k) == Some((e, m)) ==> and_rest(s, j, acc) == and_rest(
            s,
            m,
            ExprV::And(Box::new(acc), Box::new(e)),
        ),
        keyword_at(s, j, "or"@) == Some(k) && and_at(s, k) == Some((e, m)) ==> or_rest(s, j, acc) == or_rest(
            s,
            m,
            ExprV::Or(Box::new(acc), Box::new(e)),
        ),
{
}

} // verus!
