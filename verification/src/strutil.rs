//! Small string helpers shared by the path-handling modules.

use vstd::prelude::*;

verus! {

/// The position of the last path separator in `s`, if any.
pub fn rfind_slash(s: &str) -> (r: Option<usize>)
    ensures
        r matches Some(p) ==> p < s@.len() && s@[p as int] == '/' && (forall|i: int|
            p < i < s@.len() ==> s@[i] != '/'),
        r is None ==> forall|i: int| 0 <= i < s@.len() ==> s@[i] != '/',
{
    let n = s.unicode_len();
    let mut i: usize = n;
    while i > 0
        invariant
            i <= n,
            n == s@.len(),
            forall|j: int| i <= j < n ==> s@[j] != '/',
        decreases i,
    {
        i = i - 1;
        if s.get_char(i) == '/' {
            return Some(i);
        }
    }
    None
}

/// `s` ends with `suffix`.
pub open spec fn ends_with(s: Seq<char>, suffix: Seq<char>) -> bool {
    s.len() >= suffix.len() && s.subrange(s.len() - suffix.len(), s.len() as int) == suffix
}

/// Tests whether `s` ends with `suffix`.
pub fn ends_with_exec(s: &str, suffix: &str) -> (r: bool)
    ensures
        r == ends_with(s@, suffix@),
{
    let n = s.unicode_len();
    let k = suffix.unicode_len();
    if n < k {
        return false;
    }
    let tail = s.substring_char(n - k, n).to_owned();
    let suffix_string = suffix.to_owned();
    tail.eq(&suffix_string)
}

} // verus!
