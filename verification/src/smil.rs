//! Looping path animation: one element that morphs a path through its
//! frames.
use vstd::prelude::*;
use vstd::string::*;
use crate::doc::Doc;
use crate::table::join;

verus! {

use crate::table::{interleaved, texts};

/// How long the loop lasts, in seconds with two decimals, and where in
/// it each frame falls, as fractions with four decimals.
#[derive(Debug, Clone, PartialEq)]
pub struct Timing {
    pub dur: String,
    pub key_times: Vec<String>,
}

/// The animation element.
pub open spec fn animate_parts(indent: Seq<char>, t: Timing, frames: Seq<String>) -> Seq<Seq<char>> {
    seq![
        indent,
        "<animate attributeName=\"d\" calcMode=\"linear\" dur=\""@,
        t.dur@,
        "s\" repeatCount=\"indefinite\" keyTimes=\""@,
        interleaved(texts(t.key_times@), ";"@),
        "\" values=\""@,
        interleaved(texts(frames), ";"@),
        "\"/>\n"@,
    ]
}

/// The animation of a path: nothing without timing or with a single
/// frame.
pub open spec fn motion_parts(indent: Seq<char>, t: Option<Timing>, frames: Seq<String>) -> Seq<
    Seq<char>,
> {
    match t {
        Some(timing) => if frames.len() > 1 {
            animate_parts(indent, timing, frames)
        } else {
            Seq::empty()
        },
        None => Seq::empty(),
    }
}

/// Append the animation of a path.
pub fn put_motion(d: &mut Doc, indent: &str, t: &Option<Timing>, frames: &Vec<String>)
    requires
        old(d).wf(),
    ensures
        final(d).wf(),
        final(d)@ == old(d)@ + motion_parts(indent@, *t, frames@),
{
    match t {
        Some(timing) => {
            if frames.len() > 1 {
                let keys = join(&timing.key_times, ";");
                let values = join(frames, ";");
                d.put(indent);
                d.put("<animate attributeName=\"d\" calcMode=\"linear\" dur=\"");
                d.put(timing.dur.as_str());
                d.put("s\" repeatCount=\"indefinite\" keyTimes=\"");
                d.put(keys.as_str());
                d.put("\" values=\"");
                d.put(values.as_str());
                d.put("\"/>\n");
                proof {
                    assert(d@ =~= old(d)@ + animate_parts(indent@, *timing, frames@));
                }
            }
        },
        None => {},
    }
    proof {
        assert(d@ =~= old(d)@ + motion_parts(indent@, *t, frames@));
    }
}

} // verus!
