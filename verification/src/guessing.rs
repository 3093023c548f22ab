//! The word-guessing round: revealing the guessed letter in the
//! partially-uncovered word.

use crate::strutil::push_char;
use vstd::prelude::*;

verus! {

/// The uncovered word after guessing `ch`: wherever the target holds `ch`
/// that position is revealed, every other position keeps what was shown
/// before. The shown word itself is left unchanged; the new one is returned.
pub fn update_so_far(so_far: &mut String, target: &String, ch: char) -> (r: String)
    requires
        old(so_far)@.len() == target@.len(),
    ensures
        final(so_far)@ == old(so_far)@,
        r@.len() == target@.len(),
        forall|i: int|
            0 <= i < target@.len() ==> r@[i] == (if target@[i] == ch {
                ch
            } else {
                old(so_far)@[i]
            }),
{
    let len = target.as_str().unicode_len();
    let mut out = String::new();
    let mut i: usize = 0;
    while i < len
        invariant
            i <= len,
            len == target@.len(),
            so_far@ == old(so_far)@,
            so_far@.len() == target@.len(),
            out@.len() == i,
            forall|j: int|
                0 <= j < i ==> out@[j] == (if target@[j] == ch {
                    ch
                } else {
                    so_far@[j]
                }),
        decreases len - i,
    {
        let t = target.as_str().get_char(i);
        if t == ch {
            push_char(&mut out, ch);
        } else {
            let s = so_far.as_str().get_char(i);
            push_char(&mut out, s);
        }
        i += 1;
    }
    out
}

} // verus!
