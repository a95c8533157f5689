//! Small shared helpers for user-visible reporting.

use vstd::prelude::*;

use crate::text::{dec_rep, u64_to_dec};

verus! {

/// Writes a counted noun: the number, the word, and a plural `s` for any
/// count but one.
pub fn count(size: usize, word: &str) -> (r: String)
    ensures
        r@ == dec_rep(size as int) + seq![' '] + word@ + if size == 1 {
            Seq::<char>::empty()
        } else {
            seq!['s']
        },
{
    let mut out = u64_to_dec(size as u64);
    out.append(" ");
    out.append(word);
    if size != 1 {
        out.append("s");
    }
    proof {
        reveal_strlit(" ");
        reveal_strlit("s");
        assert(" "@ =~= seq![' ']);
        assert("s"@ =~= seq!['s']);
        assert(out@ =~= dec_rep(size as int) + seq![' '] + word@ + if size == 1 {
            Seq::<char>::empty()
        } else {
            seq!['s']
        });
    }
    out
}

} // verus!
