//! What holds of every picture: everything that was collected is painted,
//! once and in paint order, with the strokes of the nodes, bones and
//! tiles it stands for.
use vstd::prelude::*;

verus! {

use crate::doc::{around, holds, joined, lemma_holds_through};
use crate::smil::{motion_parts, Timing};
use crate::strokes::line;
use crate::table::{interleaved, texts};
use crate::text::sdec;

/// A screen point.
pub type Point = (i64, i64);

/// A stroke between two points as path data: move there, draw to there.
pub open spec fn stroke_text(a: Point, b: Point) -> Seq<char> {
    "M"@ + sdec(a.0 as int) + " "@ + sdec(a.1 as int) + "L"@ + sdec(b.0 as int) + " "@ + sdec(
        b.1 as int,
    )
}

/// A line is drawn from its first point to its second.
pub proof fn lemma_lines_join_their_points(a: Point, b: Point)
    ensures
        line(a, b) == stroke_text(a, b),
{
    assert(line(a, b) =~= stroke_text(a, b));
}

/// The strokes that are there, one behind the other.
pub open spec fn strokes_of(ends: spec_fn(int) -> Option<(Point, Point)>, n: int) -> Seq<char>
    decreases n,
{
    if n <= 0 {
        Seq::empty()
    } else {
        match ends(n - 1) {
            Some((a, b)) => strokes_of(ends, n - 1) + stroke_text(a, b),
            None => strokes_of(ends, n - 1),
        }
    }
}

/// Every stroke that is there is drawn.
pub proof fn lemma_strokes_are_drawn(
    ends: spec_fn(int) -> Option<(Point, Point)>,
    n: int,
    i: int,
    a: Point,
    b: Point,
)
    requires
        0 <= i < n,
        ends(i) == Some((a, b)),
    ensures
        holds(strokes_of(ends, n), stroke_text(a, b)),
    decreases n,
{
    let text = stroke_text(a, b);
    let front = strokes_of(ends, n - 1);
    if i == n - 1 {
        assert(strokes_of(ends, n) =~= around(front, text, Seq::empty()));
    } else {
        lemma_strokes_are_drawn(ends, n - 1, i, a, b);
        if let Some((c, d)) = ends(n - 1) {
            assert(strokes_of(ends, n) =~= around(Seq::empty(), front, stroke_text(c, d)));
            lemma_holds_through(strokes_of(ends, n), front, text);
        }
    }
}

/// The animation of a path through its frames, in their order; none
/// without timing or with a single frame.
pub open spec fn motion_text(indent: Seq<char>, t: Option<Timing>, frames: Seq<String>) -> Seq<char> {
    match t {
        Some(timing) if frames.len() > 1 => joined(
            seq![
                indent,
                "<animate attributeName=\"d\" calcMode=\"linear\" dur=\""@,
                timing.dur@,
                "s\" repeatCount=\"indefinite\" keyTimes=\""@,
                interleaved(texts(timing.key_times@), ";"@),
                "\" values=\""@,
                interleaved(texts(frames), ";"@),
                "\"/>\n"@,
            ],
        ),
        _ => Seq::empty(),
    }
}

/// A path with more than one frame moves through all of them, timed; any
/// other stands still.
pub proof fn lemma_paths_move_through_their_frames(
    indent: Seq<char>,
    t: Option<Timing>,
    frames: Seq<String>,
)
    ensures
        joined(motion_parts(indent, t, frames)) == motion_text(indent, t, frames),
{
    if let Some(timing) = t {
        if frames.len() > 1 {
            assert(motion_parts(indent, t, frames) =~= seq![
                indent,
                "<animate attributeName=\"d\" calcMode=\"linear\" dur=\""@,
                timing.dur@,
                "s\" repeatCount=\"indefinite\" keyTimes=\""@,
                interleaved(texts(timing.key_times@), ";"@),
                "\" values=\""@,
                interleaved(texts(frames), ";"@),
                "\"/>\n"@,
            ]);
        }
    }
}

/// A list holds every one of its items.
pub proof fn lemma_lists_hold_their_items(parts: Seq<Seq<char>>, sep: Seq<char>, k: int)
    requires
        0 <= k < parts.len(),
    ensures
        holds(interleaved(parts, sep), parts[k]),
    decreases parts.len(),
{
    let all = interleaved(parts, sep);
    if parts.len() == 1 {
        assert(all =~= around(Seq::empty(), parts[k], Seq::empty()));
    } else {
        let front = interleaved(parts.drop_last(), sep);
        if k == parts.len() - 1 {
            assert(all =~= around(front + sep, parts[k], Seq::empty()));
        } else {
            lemma_lists_hold_their_items(parts.drop_last(), sep, k);
            assert(parts.drop_last()[k] == parts[k]);
            assert(all =~= around(Seq::empty(), front, sep + parts.last()));
            lemma_holds_through(all, front, parts[k]);
        }
    }
}

} // verus!
