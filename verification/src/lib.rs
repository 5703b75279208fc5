use vstd::prelude::*;

pub mod backend;
pub mod errors;
pub mod keygen;
pub mod memory;
pub mod util;

verus! {

/// A key has a given prefix when its first characters spell that prefix.
pub open spec fn has_prefix(prefix: Seq<char>, key: Seq<char>) -> bool {
    prefix.len() <= key.len() && key.subrange(0, prefix.len() as int) == prefix
}

/// Checks whether one string starts with another, character by character.
pub fn str_has_prefix(prefix: &str, s: &str) -> (r: bool)
    ensures
        r == has_prefix(prefix@, s@),
{
    let n = prefix.unicode_len();
    let m = s.unicode_len();
    if n > m {
        assert(!has_prefix(prefix@, s@));
        return false;
    }
    let mut i: usize = 0;
    while i < n
        invariant
            0 <= i <= n,
            n == prefix@.len(),
            m == s@.len(),
            n <= m,
            forall|j: int| 0 <= j < i ==> prefix@[j] == s@[j],
        decreases n - i,
    {
        if prefix.get_char(i) != s.get_char(i) {
            assert(!has_prefix(prefix@, s@)) by {
                if has_prefix(prefix@, s@) {
                    assert(s@.subrange(0, n as int)[i as int] == s@[i as int]);
                }
            }
            return false;
        }
        i += 1;
    }
    assert(s@.subrange(0, n as int) =~= prefix@);
    true
}

} // verus!
