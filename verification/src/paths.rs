//! Paths as text, with `/` between their segments.

use vstd::prelude::*;
use vstd::string::{StrSliceExecFns, StringExecFns};

verus! {

/// `base` with `segment` added as a further path segment. A segment that
/// starts at the root stands alone; otherwise one `/` parts the two, unless
/// `base` is empty or ends in one already.
pub open spec fn path_join(base: Seq<char>, segment: Seq<char>) -> Seq<char> {
    if segment.len() > 0 && segment[0] == '/' {
        segment
    } else if base.len() == 0 || base.last() == '/' {
        base + segment
    } else {
        base.push('/') + segment
    }
}

/// Adds `segment` to the path `base`.
pub fn join_path(base: &str, segment: &str) -> (r: String)
    ensures
        r@ == path_join(base@, segment@),
{
    if !segment.is_empty() && segment.get_char(0) == '/' {
        return segment.to_owned();
    }
    let mut out = base.to_owned();
    let n: usize = base.unicode_len();
    if n > 0 && base.get_char(n - 1) != '/' {
        proof {
            reveal_strlit("/");
            assert("/"@ =~= seq!['/']);
        }
        out.append("/");
        assert(out@ =~= base@.push('/'));
    }
    out.append(segment);
    out
}

} // verus!
