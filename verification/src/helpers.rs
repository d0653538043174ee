//! Small path-text helpers.

use vstd::prelude::*;

verus! {

/// `s` with every leading Windows extended-length prefix `\\?\` removed.
pub open spec fn strip_extended_prefix(s: Seq<char>) -> Seq<char>
    decreases s.len(),
{
    if s.len() >= 4 && s.subrange(0, 4) == seq!['\\', '\\', '?', '\\'] {
        strip_extended_prefix(s.skip(4))
    } else {
        s
    }
}

/// Removes the Windows extended-length prefix `\\?\` from the front of a
/// path, as often as it occurs there.
pub fn remove_extended_prefix(path: String) -> (r: String)
    ensures
        r@ == strip_extended_prefix(path@),
    decreases path@.len(),
{
    let s = path.as_str();
    let n = s.unicode_len();
    if n >= 4 && s.get_char(0) == '\\' && s.get_char(1) == '\\' && s.get_char(2) == '?'
        && s.get_char(3) == '\\' {
        proof {
            assert(path@.subrange(0, 4) =~= seq!['\\', '\\', '?', '\\']);
        }
        let rest = s.substring_char(4, n);
        proof {
            assert(rest@ =~= path@.skip(4));
        }
        let owned = String::from_str(rest);
        remove_extended_prefix(owned)
    } else {
        proof {
            if path@.len() >= 4 {
                assert(path@.subrange(0, 4)[0] == path@[0]);
                assert(path@.subrange(0, 4)[1] == path@[1]);
                assert(path@.subrange(0, 4)[2] == path@[2]);
                assert(path@.subrange(0, 4)[3] == path@[3]);
            }
        }
        path
    }
}

} // verus!
