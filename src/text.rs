use vstd::prelude::*;
use vstd::string::*;

verus! {

/// A character equal to `lit` when ASCII letters are compared without case.
/// `lit` is expected in lower case.
pub open spec fn char_eq_ci(c: char, lit: char) -> bool {
    c == lit || ('a' <= lit && lit <= 'z' && c as u32 + 32 == lit as u32)
}

/// `s` equals the lower-case word `lit` when ASCII letters are compared without case.
pub open spec fn eq_ci(s: Seq<char>, lit: Seq<char>) -> bool {
    s.len() == lit.len() && forall|i: int| 0 <= i < s.len() ==> char_eq_ci(#[trigger] s[i], lit[i])
}

/// Whitespace: the characters of Unicode's White_Space property, those
/// for which `char::is_whitespace` holds.
pub open spec fn is_space(c: char) -> bool {
    let u = c as u32;
    ||| 9 <= u <= 13
    ||| u == 32
    ||| u == 0x85
    ||| u == 0xA0
    ||| u == 0x1680
    ||| 0x2000 <= u <= 0x200A
    ||| u == 0x2028
    ||| u == 0x2029
    ||| u == 0x202F
    ||| u == 0x205F
    ||| u == 0x3000
}

pub fn is_space_exec(c: char) -> (r: bool)
    ensures
        r == is_space(c),
{
    let u = c as u32;
    (9 <= u && u <= 13) || u == 32 || u == 0x85 || u == 0xA0 || u == 0x1680 || (0x2000 <= u && u
        <= 0x200A) || u == 0x2028 || u == 0x2029 || u == 0x202F || u == 0x205F || u == 0x3000
}

/// Compares `s` with the lower-case word `lit`, ignoring the case of ASCII letters.
pub fn str_eq_ci(s: &str, lit: &str) -> (r: bool)
    ensures
        r == eq_ci(s@, lit@),
{
    let n = s.unicode_len();
    if n != lit.unicode_len() {
        return false;
    }
    let mut i: usize = 0;
    while i < n
        invariant
            n == s@.len(),
            n == lit@.len(),
            i <= n,
            forall|j: int| 0 <= j < i ==> char_eq_ci(#[trigger] s@[j], lit@[j]),
        decreases n - i,
    {
        let c = s.get_char(i);
        let l = lit.get_char(i);
        let ok = c == l || ('a' <= l && l <= 'z' && (c as u32) + 32 == l as u32);
        if !ok {
            assert(!char_eq_ci(s@[i as int], lit@[i as int]));
            return false;
        }
        i += 1;
    }
    true
}


/// What `{:?}` writes for a text: the text in double quotes, with the
/// characters that std's Debug escapes written as escapes.
pub uninterp spec fn debug_of(s: Seq<char>) -> Seq<char>;

/// Relies on std's `Debug` for `str`, through `format!("{:?}", s)`: the
/// quoted, escaped form of the text, which depends on the text alone.
#[verifier::external_body]
pub(crate) fn debug_str(s: &str) -> (r: String)
    ensures
        r@ == debug_of(s@),
{
    format!("{:?}", s)
}

} // verus!
