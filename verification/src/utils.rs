use vstd::prelude::*;

verus! {

use vstd::string::StrSliceExecFns;

/// Drops the first `n` characters of `s`; if `s` has fewer than `n`
/// characters, the result is empty.
pub fn remove_first_n_chars(s: &str, n: usize) -> (r: String)
    ensures
        n <= s@.len() ==> r@ == s@.subrange(n as int, s@.len() as int),
        n > s@.len() ==> r@ == Seq::<char>::empty(),
{
    let len = s.unicode_len();
    if n <= len {
        s.substring_char(n, len).to_owned()
    } else {
        let r = String::new();
        proof {
            assert(r@ =~= Seq::<char>::empty());
        }
        r
    }
}

/// Drops the last `n` characters of `s`; if `s` has fewer than `n`
/// characters, the result is empty.
pub fn remove_last_n_chars(s: &str, n: usize) -> (r: String)
    ensures
        n <= s@.len() ==> r@ == s@.subrange(0, s@.len() - n),
        n > s@.len() ==> r@ == Seq::<char>::empty(),
{
    let len = s.unicode_len();
    if n <= len {
        s.substring_char(0, len - n).to_owned()
    } else {
        let r = String::new();
        proof {
            assert(r@ =~= Seq::<char>::empty());
        }
        r
    }
}

} // verus!
