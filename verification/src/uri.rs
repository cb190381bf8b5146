//! Building the upstream URI: the configured base and the inbound
//! request's path-and-query, concatenated, with a duplicate path separator
//! at the join point collapsed.

use vstd::prelude::*;
use crate::text::chars_to_string;
use crate::text::str_to_chars;

verus! {

/// The joined URI: base then path-and-query; when the base ends in `/`
/// and the path starts with one, the pair collapses to a single `/`.
/// Separators elsewhere — a scheme's `//`, one inside the path — are kept.
pub open spec fn spec_join_uri(base: Seq<char>, path: Seq<char>) -> Seq<char> {
    if base.len() > 0 && base.last() == '/' && path.len() > 0 && path[0] == '/' {
        base + path.skip(1)
    } else {
        base + path
    }
}

/// Joins the configured upstream base and a request's path-and-query.
pub fn upstream_uri(base: &str, path_and_query: &str) -> (r: String)
    ensures
        r@ == spec_join_uri(base@, path_and_query@),
{
    let b = str_to_chars(base);
    let p = str_to_chars(path_and_query);
    let mut out: Vec<char> = Vec::new();
    let mut i: usize = 0;
    while i < b.len()
        invariant
            i <= b@.len(),
            b@ == base@,
            out@ == b@.take(i as int),
        decreases b@.len() - i,
    {
        out.push(b[i]);
        i = i + 1;
        assert(out@ =~= b@.take(i as int));
    }
    proof {
        assert(b@.take(b@.len() as int) =~= b@);
    }
    let collapse = b.len() > 0 && p.len() > 0 && b[b.len() - 1] == '/' && p[0] == '/';
    let mut j: usize = if collapse {
        1
    } else {
        0
    };
    let ghost start = j as int;
    proof {
        assert(p@.subrange(start, start) =~= Seq::<char>::empty());
        assert(out@ =~= b@ + p@.subrange(start, start));
    }
    while j < p.len()
        invariant
            0 <= start <= j as int <= p@.len(),
            p@ == path_and_query@,
            b@ == base@,
            out@ == b@ + p@.subrange(start, j as int),
        decreases p@.len() - j,
    {
        out.push(p[j]);
        j = j + 1;
        assert(out@ =~= b@ + p@.subrange(start, j as int));
    }
    proof {
        if collapse {
            assert(p@.subrange(1, p@.len() as int) =~= p@.skip(1));
        } else {
            assert(p@.subrange(0, p@.len() as int) =~= p@);
        }
        assert(out@ =~= spec_join_uri(base@, path_and_query@));
    }
    chars_to_string(&out)
}

} // verus!
