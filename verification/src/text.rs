//! Small helpers for reading text character by character.

use vstd::prelude::*;
use vstd::string::StrSliceExecFns;

verus! {

/// The characters of `s`, in order.
pub fn chars_of(s: &str) -> (chars: Vec<char>)
    ensures
        chars@ == s@,
{
    let n = s.unicode_len();
    let mut chars: Vec<char> = Vec::new();
    let mut i: usize = 0;
    while i < n
        invariant
            n == s@.len(),
            i <= n,
            chars@ == s@.take(i as int),
        decreases n - i,
    {
        let c = s.get_char(i);
        chars.push(c);
        i = i + 1;
        assert(chars@ =~= s@.take(i as int));
    }
    assert(chars@ =~= s@);
    chars
}

} // verus!
