//! Character-level text helpers shared by the commands and the renderers.

use vstd::prelude::*;

verus! {

/// The characters that mark an argument as a glob pattern.
pub open spec fn is_glob_char(c: char) -> bool {
    c == '*' || c == '?' || c == '[' || c == '{'
}

/// `s` holds at least one glob metacharacter.
pub open spec fn has_glob_char(s: Seq<char>) -> bool {
    exists|i: int| 0 <= i < s.len() && is_glob_char(#[trigger] s[i])
}

/// The characters of `s`, in order.
pub fn chars_of(s: &str) -> (r: Vec<char>)
    ensures
        r@ == s@,
{
    broadcast use vstd::string::group_string_axioms;
    let mut r: Vec<char> = Vec::new();
    for c in it: s.chars()
        invariant
            r@ == it.seq().take(it.index() as int),
    {
        r.push(c);
    }
    r
}

/// Whether `cs` holds a glob metacharacter.
pub(crate) fn chars_have_glob(cs: &Vec<char>) -> (r: bool)
    ensures
        r == has_glob_char(cs@),
{
    let n = cs.len();
    for i in 0..n
        invariant
            n == cs@.len(),
            forall|j: int| 0 <= j < i ==> !is_glob_char(#[trigger] cs@[j]),
    {
        let c = cs[i];
        if c == '*' || c == '?' || c == '[' || c == '{' {
            return true;
        }
    }
    false
}

/// Returns true when `s` contains any glob metacharacter (`*`, `?`, `[`, `{`).
pub fn has_glob_chars(s: &str) -> (r: bool)
    ensures
        r == has_glob_char(s@),
{
    let cs = chars_of(s);
    chars_have_glob(&cs)
}

/// The text made of the characters `cs`, through `String`'s
/// `FromIterator<char>` (which appends the characters in order).
#[verifier::external_body]
pub(crate) fn string_from_chars(cs: &Vec<char>) -> (r: String)
    ensures
        r@ == cs@,
{
    cs.iter().collect()
}

} // verus!
