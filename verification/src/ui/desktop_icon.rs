//! Desktop icon labels.
use vstd::prelude::*;
use crate::paths::{last_segment, last_segment_of};
use crate::text::{ends_with, seq_ends_with, string_from_chars, to_chars};

verus! {

/// The label of an icon: the path's last component without a `.desktop`
/// suffix.
pub open spec fn short_name_of(path: Seq<char>) -> Seq<char> {
    let base = last_segment(path);
    if seq_ends_with(base, ".desktop"@) {
        base.take(base.len() - 8)
    } else {
        base
    }
}

/// The label of an icon: the path's last component without a `.desktop`
/// suffix.
pub fn short_name(path: &str) -> (r: String)
    ensures
        r@ == short_name_of(path@),
{
    let base = last_segment_of(path);
    if ends_with(base.as_str(), ".desktop") {
        let v = to_chars(base.as_str());
        proof {
            reveal_strlit(".desktop");
        }
        let n = v.len() - 8;
        let mut keep: Vec<char> = Vec::new();
        let mut i: usize = 0;
        while i < n
            invariant
                n == v@.len() - 8,
                i <= n,
                keep@ == v@.take(i as int),
            decreases n - i,
        {
            keep.push(v[i]);
            assert(keep@ =~= v@.take(i + 1));
            i += 1;
        }
        string_from_chars(keep.as_slice())
    } else {
        base
    }
}

} // verus!
