//! Text helpers for the messages that get printed.
use vstd::prelude::*;

verus! {

/// The first `max_chars` characters of `s`, or all of it when it is shorter.
pub fn truncate(s: &str, max_chars: usize) -> (r: &str)
    ensures
        r@ == if s@.len() <= max_chars {
            s@
        } else {
            s@.subrange(0, max_chars as int)
        },
{
    let n = s.unicode_len();
    if n <= max_chars {
        s
    } else {
        s.substring_char(0, max_chars)
    }
}

} // verus!
