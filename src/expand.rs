//! The decision of the input expander: which tokens are glob patterns.
use vstd::prelude::*;

verus! {

pub open spec fn is_glob_char(c: char) -> bool {
    c == '*' || c == '?' || c == '['
}

/// Whether `s` holds `*`, `?` or `[`, and so is expanded as a glob pattern
/// rather than taken as a literal token.
pub fn has_glob_meta(s: &str) -> (r: bool)
    ensures
        r == exists|i: int| 0 <= i < s@.len() && is_glob_char(#[trigger] s@[i]),
{
    let n = s.unicode_len();
    let mut i: usize = 0;
    while i < n
        invariant
            n == s@.len(),
            i <= n,
            forall|j: int| 0 <= j < i ==> !is_glob_char(#[trigger] s@[j]),
        decreases n - i,
    {
        let c = s.get_char(i);
        if c == '*' || c == '?' || c == '[' {
            return true;
        }
        i = i + 1;
    }
    false
}

} // verus!
