//! Recognizing source files by their extension.
use vstd::prelude::*;

verus! {

/// The extension of a path as `std::path::Path::extension` finds it: the part
/// of the file name after its last `.`, if the name has a `.` that is not its
/// first character.
pub uninterp spec fn path_extension_of(path: Seq<char>) -> Option<Seq<char>>;

/// `std::path::Path::extension`, with the extension as text. What it returns
/// is named, not stated: it depends on the path alone.
#[verifier::external_body]
fn path_extension(path: &str) -> (r: Option<String>)
    ensures
        match r {
            Some(e) => path_extension_of(path@) == Some(e@),
            None => path_extension_of(path@) is None,
        },
{
    std::path::Path::new(path).extension().and_then(|e| e.to_str()).map(|e| e.to_string())
}

/// The lower-case form of an ASCII letter; other characters stay as they are.
pub open spec fn ascii_lower(c: char) -> char {
    if 'A' <= c && c <= 'Z' {
        ((c as u32) + 32) as char
    } else {
        c
    }
}

/// Two texts are equal when ASCII letters are compared without case.
pub open spec fn eq_ignore_ascii_case(a: Seq<char>, b: Seq<char>) -> bool {
    a.len() == b.len() && forall|i: int| 0 <= i < a.len() ==> ascii_lower(#[trigger] a[i]) == ascii_lower(b[i])
}

fn lower(c: char) -> (r: char)
    ensures
        r == ascii_lower(c),
{
    if 'A' <= c && c <= 'Z' {
        let code = (c as u32) + 32;
        if code == 97 { 'a' } else if code == 98 { 'b' } else if code == 99 { 'c' } else if code == 100 { 'd' }
        else if code == 101 { 'e' } else if code == 102 { 'f' } else if code == 103 { 'g' } else if code == 104 { 'h' }
        else if code == 105 { 'i' } else if code == 106 { 'j' } else if code == 107 { 'k' } else if code == 108 { 'l' }
        else if code == 109 { 'm' } else if code == 110 { 'n' } else if code == 111 { 'o' } else if code == 112 { 'p' }
        else if code == 113 { 'q' } else if code == 114 { 'r' } else if code == 115 { 's' } else if code == 116 { 't' }
        else if code == 117 { 'u' } else if code == 118 { 'v' } else if code == 119 { 'w' } else if code == 120 { 'x' }
        else if code == 121 { 'y' } else { 'z' }
    } else {
        c
    }
}

/// Whether an extension is `rpy` in any mix of cases.
pub fn is_rpy_extension(ext: Option<&str>) -> (r: bool)
    ensures
        r == match ext {
            Some(e) => eq_ignore_ascii_case(e@, "rpy"@),
            None => false,
        },
{
    match ext {
        None => false,
        Some(e) => {
            let rpy = "rpy";
            proof {
                reveal_strlit("rpy");
            }
            let n = e.unicode_len();
            if n != 3 {
                return false;
            }
            let mut i: usize = 0;
            while i < 3
                invariant
                    ext == Some(e),
                    i <= 3,
                    n == e@.len(),
                    n == 3,
                    rpy@ == "rpy"@,
                    rpy@.len() == 3,
                    forall|j: int| 0 <= j < i ==> ascii_lower(#[trigger] e@[j]) == ascii_lower(rpy@[j]),
                decreases 3 - i,
            {
                let a = e.get_char(i);
                let b = rpy.get_char(i);
                if lower(a) != lower(b) {
                    assert(ascii_lower(e@[i as int]) != ascii_lower(rpy@[i as int]));
                    return false;
                }
                i = i + 1;
            }
            true
        },
    }
}

/// Whether a path names an RPython source file: its extension is `rpy`, in
/// any mix of cases.
pub fn has_rpy_extension(path: &str) -> (r: bool)
    ensures
        r == match path_extension_of(path@) {
            Some(e) => eq_ignore_ascii_case(e, "rpy"@),
            None => false,
        },
{
    match path_extension(path) {
        Some(e) => is_rpy_extension(Some(e.as_str())),
        None => is_rpy_extension(None),
    }
}

} // verus!
