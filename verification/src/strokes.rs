//! Straight strokes between integer screen points, as path data.
use vstd::prelude::*;
use vstd::string::*;
use crate::text::push_int;

verus! {

use crate::text::sdec;

/// A screen point as path coordinates.
pub open spec fn at(p: (i64, i64)) -> Seq<char> {
    sdec(p.0 as int) + " "@ + sdec(p.1 as int)
}

/// A line segment as a subpath.
pub open spec fn line(a: (i64, i64), b: (i64, i64)) -> Seq<char> {
    "M"@ + at(a) + "L"@ + at(b)
}

/// Append path coordinates.
pub fn push_at(out: &mut String, p: (i64, i64))
    ensures
        final(out)@ == old(out)@ + at(p),
{
    push_int(out, p.0);
    out.append(" ");
    push_int(out, p.1);
    proof {
        assert(out@ =~= old(out)@ + at(p));
    }
}

/// Append a line segment.
pub fn push_line(out: &mut String, a: (i64, i64), b: (i64, i64))
    ensures
        final(out)@ == old(out)@ + line(a, b),
{
    out.append("M");
    push_at(out, a);
    out.append("L");
    push_at(out, b);
    proof {
        assert(out@ =~= old(out)@ + line(a, b));
    }
}

} // verus!
