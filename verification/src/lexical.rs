//! Character classes of the concrete syntax.
use vstd::prelude::*;

verus! {

/// Control characters: the Unicode category `Cc`, that is U+0000 to U+001F
/// and U+007F to U+009F.
pub open spec fn is_control(c: char) -> bool {
    (c as u32) <= 0x1f || (0x7f <= (c as u32) && (c as u32) <= 0x9f)
}

/// Characters that may stand inside a string literal: anything but the
/// double quote and the control characters.
pub fn is_string_char(c: char) -> (r: bool)
    ensures
        r == (c != '"' && !is_control(c)),
{
    let code = c as u32;
    c != '"' && !(code <= 0x1f || (0x7f <= code && code <= 0x9f))
}

/// White space as `str::trim` knows it: the characters with the Unicode
/// property `White_Space`.
pub open spec fn is_white_space(c: char) -> bool {
    let u = c as u32;
    (0x09 <= u && u <= 0x0d) || u == 0x20 || u == 0x85 || u == 0xa0 || u == 0x1680 || (0x2000 <= u && u
        <= 0x200a) || u == 0x2028 || u == 0x2029 || u == 0x202f || u == 0x205f || u == 0x3000
}

/// Whether a text holds nothing but white space (the empty text included):
/// what parsing leaves of a program must be such a text for the whole input
/// to have been read.
pub fn only_white_space(rest: &str) -> (r: bool)
    ensures
        r == (forall|i: int| 0 <= i < rest@.len() ==> is_white_space(#[trigger] rest@[i])),
{
    let n = rest.unicode_len();
    let mut k: usize = 0;
    while k < n
        invariant
            n == rest@.len(),
            k <= n,
            forall|i: int| 0 <= i < k ==> is_white_space(#[trigger] rest@[i]),
        decreases n - k,
    {
        let c = rest.get_char(k);
        let u = c as u32;
        let ws = (0x09 <= u && u <= 0x0d) || u == 0x20 || u == 0x85 || u == 0xa0 || u == 0x1680 || (0x2000 <= u
            && u <= 0x200a) || u == 0x2028 || u == 0x2029 || u == 0x202f || u == 0x205f || u == 0x3000;
        if !ws {
            assert(!is_white_space(rest@[k as int]));
            return false;
        }
        k = k + 1;
    }
    true
}

} // verus!
