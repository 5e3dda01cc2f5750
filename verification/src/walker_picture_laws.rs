//! What holds of every picture of walkers: the ground in view, then every
//! figure's shadow, limbs and head, frame by frame.
use vstd::prelude::*;

verus! {

use crate::bits::f32_lt_spec;
use crate::doc::{joined, lemma_joined_append, lemma_single};
use crate::picture_laws::{
    lemma_lines_join_their_points, lemma_paths_move_through_their_frames, motion_text, stroke_text,
    strokes_of, Point,
};
use crate::smil::{motion_parts, Timing};
use crate::strokes::{at, line};
use crate::table::interleaved;
use crate::text::{dec, escaped, sdec};
use crate::walker_svg::{
    caption_parts, corner_path, element_parts, elements_parts, figure_shown, head_ball, head_motion,
    head_parts, head_shown, head_values, limb_parts, limb_path, line_elements, plate_elements,
    scene_shown, shadow_parts, shadow_path, walker_document, BoneSample, Drawn, Element,
    FigureSample, Ground, Head, LineSample, RenderMeta,
};

// ---------------------------------------------------------------------------
// Painting
// ---------------------------------------------------------------------------

/// A moving path: its first frame in a style, and its motion.
pub open spec fn moving_path(frames: Seq<String>, style: Seq<char>, t: Option<Timing>) -> Seq<char> {
    if frames.len() == 0 {
        Seq::empty()
    } else {
        joined(
            seq!["  <path d=\""@, frames[0]@, style, motion_text("    "@, t, frames), "  </path>\n"@],
        )
    }
}

/// One attribute of a head through its frames.
pub open spec fn moving_attribute(name: Seq<char>, values: Seq<Seq<char>>, t: Timing) -> Seq<char> {
    joined(
        seq![
            "    <animate attributeName=\""@,
            name,
            "\" calcMode=\"linear\" dur=\""@,
            t.dur@,
            "s\" repeatCount=\"indefinite\" values=\""@,
            interleaved(values, ";"@),
            "\"/>\n"@,
        ],
    )
}

/// A head: a ball at its first center, whose center and radius move.
pub open spec fn moving_head(heads: Seq<Head>, t: Option<Timing>) -> Seq<char> {
    if heads.len() == 0 {
        Seq::empty()
    } else {
        joined(
            seq![
                "  <circle cx=\""@,
                heads[0].cx_round@,
                "\" cy=\""@,
                heads[0].cy_round@,
                "\" r=\""@,
                heads[0].r@,
                "\" fill=\"#25324a\">\n"@,
            ],
        ) + (match t {
            Some(timing) if heads.len() > 1 => moving_attribute(
                "cx"@,
                heads.map_values(|h: Head| h.cx@),
                timing,
            ) + moving_attribute("cy"@, heads.map_values(|h: Head| h.cy@), timing)
                + moving_attribute("r"@, heads.map_values(|h: Head| h.r@), timing),
            _ => Seq::empty(),
        }) + "  </circle>\n"@
    }
}

/// How an element is painted: the plate filled, grid lines strong or
/// faint, and of a figure the shadow, then the limbs, then the head.
pub open spec fn painted(e: Element, t: Option<Timing>) -> Seq<char> {
    match e {
        Element::Plate(p) => joined(seq!["  <path d=\""@, p@, "\" fill=\"#57a244\"/>\n"@]),
        Element::Line(major, p) => joined(
            seq![
                "  <path d=\""@,
                p@,
                if major {
                    "\" fill=\"none\" stroke=\"#4d8e3b\" stroke-width=\"2.0\" opacity=\"0.90\">\n  </path>\n"@
                } else {
                    "\" fill=\"none\" stroke=\"#63a84c\" stroke-width=\"1.0\" opacity=\"0.55\">\n  </path>\n"@
                },
            ],
        ),
        Element::Figure(shadows, limbs, heads) => moving_path(
            shadows@,
            "\" fill=\"none\" stroke=\"#1e2a17\" stroke-width=\"5.0\" opacity=\"0.16\">\n"@,
            t,
        ) + moving_path(
            limbs@,
            "\" fill=\"none\" stroke=\"#3d4d6b\" stroke-width=\"3.2\" stroke-linecap=\"round\">\n"@,
            t,
        ) + moving_head(heads@, t),
    }
}

/// The first `n` elements, painted in order.
pub open spec fn all_painted(elements: Seq<Element>, t: Option<Timing>, n: int) -> Seq<char>
    decreases n,
{
    if n <= 0 {
        Seq::empty()
    } else {
        all_painted(elements, t, n - 1) + painted(elements[n - 1], t)
    }
}

proof fn lemma_moving_path(frames: Seq<String>, style: Seq<char>, t: Option<Timing>)
    requires
        frames.len() > 0,
    ensures
        joined(
            seq!["  <path d=\""@, frames[0]@, style] + motion_parts("    "@, t, frames) + seq![
                "  </path>\n"@,
            ],
        ) == moving_path(frames, style, t),
{
    let a = seq!["  <path d=\""@, frames[0]@, style];
    let m = motion_parts("    "@, t, frames);
    let z = seq!["  </path>\n"@];
    lemma_paths_move_through_their_frames("    "@, t, frames);
    lemma_joined_append(a + m, z);
    lemma_joined_append(a, m);
    let one = seq![joined(m)];
    lemma_single(joined(m));
    lemma_joined_append(a + one, z);
    lemma_joined_append(a, one);
    assert(a + one + z =~= seq![
        "  <path d=\""@,
        frames[0]@,
        style,
        joined(m),
        "  </path>\n"@,
    ]);
}

proof fn lemma_moving_head(heads: Seq<Head>, t: Option<Timing>)
    requires
        heads.len() > 0,
    ensures
        joined(head_ball(heads, t)) == moving_head(heads, t),
{
    let a = seq![
        "  <circle cx=\""@,
        heads[0].cx_round@,
        "\" cy=\""@,
        heads[0].cy_round@,
        "\" r=\""@,
        heads[0].r@,
        "\" fill=\"#25324a\">\n"@,
    ];
    let z = seq!["  </circle>\n"@];
    lemma_single("  </circle>\n"@);
    let none = Seq::<Seq<char>>::empty();
    if t is Some && heads.len() > 1 {
        let timing = t->0;
        let x = head_motion(heads, timing, 0);
        let y = head_motion(heads, timing, 1);
        let r = head_motion(heads, timing, 2);
        assert(head_values(heads, 0) =~= heads.map_values(|h: Head| h.cx@));
        assert(head_values(heads, 1) =~= heads.map_values(|h: Head| h.cy@));
        assert(head_values(heads, 2) =~= heads.map_values(|h: Head| h.r@));
        lemma_joined_append(a + (x + y + r), z);
        lemma_joined_append(a, x + y + r);
        lemma_joined_append(x + y, r);
        lemma_joined_append(x, y);
    } else {
        lemma_joined_append(a + none, z);
        lemma_joined_append(a, none);
        assert(joined(none) =~= Seq::<char>::empty());
    }
}

proof fn lemma_painted(e: Element, t: Option<Timing>)
    ensures
        joined(element_parts(e, t)) == painted(e, t),
{
    if let Element::Figure(s, l, h) = e {
        let none = Seq::<Seq<char>>::empty();
        assert(joined(none) =~= Seq::<char>::empty());
        let a = if s@.len() > 0 {
            shadow_parts(s@, t)
        } else {
            none
        };
        let b = if l@.len() > 0 {
            limb_parts(l@, t)
        } else {
            none
        };
        let c = if h@.len() > 0 {
            head_ball(h@, t)
        } else {
            none
        };
        lemma_joined_append(a + b, c);
        lemma_joined_append(a, b);
        if s@.len() > 0 {
            lemma_moving_path(
                s@,
                "\" fill=\"none\" stroke=\"#1e2a17\" stroke-width=\"5.0\" opacity=\"0.16\">\n"@,
                t,
            );
        }
        if l@.len() > 0 {
            lemma_moving_path(
                l@,
                "\" fill=\"none\" stroke=\"#3d4d6b\" stroke-width=\"3.2\" stroke-linecap=\"round\">\n"@,
                t,
            );
        }
        if h@.len() > 0 {
            lemma_moving_head(h@, t);
        }
    }
}

proof fn lemma_all_painted(elements: Seq<Element>, t: Option<Timing>, n: int)
    requires
        0 <= n <= elements.len(),
    ensures
        joined(elements_parts(elements, t, n)) == all_painted(elements, t, n),
    decreases n,
{
    if n > 0 {
        lemma_all_painted(elements, t, n - 1);
        lemma_painted(elements[n - 1], t);
        lemma_joined_append(elements_parts(elements, t, n - 1), element_parts(elements[n - 1], t));
    }
}

/// The picture opens with its scene and seed, paints every element once
/// and in order, and closes with a caption that names both again.
pub proof fn lemma_every_element_is_painted_in_order(
    elements: Seq<Element>,
    meta: RenderMeta,
    t: Option<Timing>,
)
    ensures
        walker_document(elements, meta, t) == joined(
            seq![
                "<svg xmlns=\"http://www.w3.org/2000/svg\" viewBox=\"-1460 -920 2920 1840\" width=\"2920\" height=\"1840\">\n  <title>bw-walker-gallery: "@,
                escaped(meta.scene@),
                "</title>\n  <desc>Procedural walk cycle (stick figure, 13 bones, speed-driven gait blend), perspective camera fov 40deg at (13.0, 6.0, 13.0), seed "@,
                dec(meta.seed as nat),
                ".</desc>\n  <defs><linearGradient id=\"sky\" x1=\"0\" y1=\"0\" x2=\"0\" y2=\"1\">\n    <stop offset=\"0\" stop-color=\"#cfe7f7\"/>\n    <stop offset=\"1\" stop-color=\"#eef8e6\"/>\n  </linearGradient></defs>\n  <rect x=\"-1460\" y=\"-920\" width=\"2920\" height=\"1840\" fill=\"url(#sky)\"/>\n"@,
            ],
        ) + all_painted(elements, t, elements.len() as int) + joined(
            seq![
                "  <text x=\"-1420\" y=\"900\" font-family=\"monospace\" font-size=\"15\" fill=\"#33402a\">"@,
                escaped(meta.scene@),
                " &#183; seed "@,
                dec(meta.seed as nat),
                " &#183; procedural gait &#183; fov 40&#176; at (13, 6, 13)</text>\n</svg>\n"@,
            ],
        ),
{
    let body = elements_parts(elements, t, elements.len() as int);
    lemma_all_painted(elements, t, elements.len() as int);
    lemma_joined_append(head_parts(meta) + body, caption_parts(meta));
    lemma_joined_append(head_parts(meta), body);
}

// ---------------------------------------------------------------------------
// Collecting
// ---------------------------------------------------------------------------

/// The shadow of a bone, where both its ends project.
pub open spec fn shadow_ends(bones: Seq<BoneSample>) -> spec_fn(int) -> Option<(Point, Point)> {
    |b: int|
        match (bones[b].shadow_start, bones[b].shadow_tip) {
            (Some(p), Some(q)) => Some((p, q)),
            _ => None,
        }
}

/// A bone, where both its ends project; the head is no stick.
pub open spec fn limb_ends(bones: Seq<BoneSample>) -> spec_fn(int) -> Option<(Point, Point)> {
    |b: int|
        match (bones[b].start, bones[b].tip) {
            (Some(p), Some(q)) if b != 2 => Some((p, q)),
            _ => None,
        }
}

proof fn lemma_bone_strokes(bones: Seq<BoneSample>, n: int)
    ensures
        shadow_path(bones, n) == strokes_of(shadow_ends(bones), n),
        limb_path(bones, n) == strokes_of(limb_ends(bones), n),
    decreases n,
{
    if n > 0 {
        lemma_bone_strokes(bones, n - 1);
        let b = bones[n - 1];
        if let (Some(p), Some(q)) = (b.shadow_start, b.shadow_tip) {
            lemma_lines_join_their_points(p, q);
        }
        if let (Some(p), Some(q)) = (b.start, b.tip) {
            lemma_lines_join_their_points(p, q);
        }
    }
}

/// Every figure is drawn behind the ground, one element each and in
/// order: in every frame its shadow has a stroke for each bone, its limbs
/// a stroke for each bone but the head, and the head is a ball, of no
/// size where it does not project.
pub proof fn lemma_every_figure_is_drawn(
    g: Ground,
    figures: Seq<Vec<FigureSample>>,
    elements: Seq<Element>,
    i: int,
    k: int,
)
    requires
        scene_shown(g, figures, elements),
        0 <= i < figures.len(),
        0 <= k < figures[i]@.len(),
    ensures
        figures.len() <= elements.len(),
        ({
            let e = elements[elements.len() - figures.len() + i];
            let frame = figures[i]@[k];
            let n = frame.bones@.len() as int;
            &&& e is Figure
            &&& e matches Element::Figure(shadows, limbs, heads) ==> {
                &&& shadows@.len() == figures[i]@.len()
                &&& limbs@.len() == figures[i]@.len()
                &&& heads@.len() == figures[i]@.len()
                &&& shadows@[k]@ == strokes_of(shadow_ends(frame.bones@), n)
                &&& limbs@[k]@ == strokes_of(limb_ends(frame.bones@), n)
                &&& frame.head matches Some(h) ==> heads@[k].cx@ == h.cx@ && heads@[k].cy@ == h.cy@
                    && heads@[k].r@ == h.r@ && heads@[k].cx_round@ == h.cx_round@
                    && heads@[k].cy_round@ == h.cy_round@
                &&& frame.head is None ==> heads@[k].r@ == "0.0"@
            }
        }),
{
    let still = plate_elements(g) + line_elements(g.lines@, g.lines@.len() as int);
    assert(figure_shown(figures[i]@, elements[still.len() + i]@));
    let frames = figures[i]@;
    lemma_bone_strokes(frames[k].bones@, frames[k].bones@.len() as int);
    let e = elements[still.len() + i];
    if let Element::Figure(s, l, h) = e {
        assert(e@ == Drawn::Figure(crate::table::texts(s@), crate::table::texts(l@), h@));
        assert(crate::table::texts(s@)[k] == s@[k]@);
        assert(crate::table::texts(l@)[k] == l@[k]@);
        assert(head_shown(frames[k], h@[k]));
    }
}

/// A point as path data.
pub open spec fn point_text(p: Point) -> Seq<char> {
    sdec(p.0 as int) + " "@ + sdec(p.1 as int)
}

/// The further corners that project.
pub open spec fn corners_text(corners: Seq<Option<Point>>, k: int) -> Seq<char>
    decreases corners.len() - k,
{
    if k >= corners.len() {
        Seq::empty()
    } else {
        (match corners[k] {
            Some(p) => "L"@ + point_text(p),
            None => Seq::empty(),
        }) + corners_text(corners, k + 1)
    }
}

proof fn lemma_corners(corners: Seq<Option<Point>>, k: int)
    ensures
        corner_path(corners, k) == corners_text(corners, k),
    decreases corners.len() - k,
{
    if k < corners.len() {
        lemma_corners(corners, k + 1);
        match corners[k] {
            Some(p) => {
                assert(at(p) =~= point_text(p));
            },
            None => {
                assert(Seq::<char>::empty() + corners_text(corners, k + 1) =~= corners_text(
                    corners,
                    k + 1,
                ));
            },
        }
    }
}

/// The plate comes first: from its first corner through the others that
/// project and back. It is left out where the first does not project.
pub proof fn lemma_the_plate_comes_first(
    g: Ground,
    figures: Seq<Vec<FigureSample>>,
    elements: Seq<Element>,
)
    requires
        scene_shown(g, figures, elements),
        g.corners@.len() > 0,
    ensures
        g.corners@[0] matches Some(p) ==> elements.len() > figures.len() && elements[0]@
            == Drawn::Plate(
            "M"@ + point_text(p) + corners_text(g.corners@, 1) + "L"@ + point_text(p),
        ),
        g.corners@[0] is None ==> forall|i: int|
            0 <= i < elements.len() - figures.len() ==> (#[trigger] elements[i]) is Line,
{
    let lines = line_elements(g.lines@, g.lines@.len() as int);
    let still = plate_elements(g) + lines;
    lemma_corners(g.corners@, 1);
    if let Some(p) = g.corners@[0] {
        assert(at(p) =~= point_text(p));
        assert(elements[0]@ == still[0]);
        let a = "M"@ + at(p) + corner_path(g.corners@, 1);
        assert(a + ("L"@ + at(p)) =~= a + "L"@ + at(p));
    } else {
        lemma_lines_are_lines(g.lines@, g.lines@.len() as int);
        assert forall|i: int| 0 <= i < elements.len() - figures.len() implies (
        #[trigger] elements[i]) is Line by {
            assert(elements[i]@ == still[i]);
            assert(still[i] == lines[i]);
        }
    }
}

proof fn lemma_lines_are_lines(lines: Seq<LineSample>, n: int)
    ensures
        forall|i: int|
            0 <= i < line_elements(lines, n).len() ==> (#[trigger] line_elements(lines, n)[i]) is Line,
    decreases n,
{
    if n > 0 {
        lemma_lines_are_lines(lines, n - 1);
    }
}

/// A grid line is drawn exactly when both its ends project from at least
/// the near guard; every second meter's is strong.
pub proof fn lemma_grid_lines_in_view_are_drawn(lines: Seq<LineSample>, n: int)
    requires
        0 < n <= lines.len(),
    ensures
        ({
            let s = lines[n - 1];
            let before = line_elements(lines, n - 1);
            let seen = !f32_lt_spec(s.depth_a, 0x3F00_0000) && !f32_lt_spec(s.depth_b, 0x3F00_0000);
            &&& !seen || s.a is None || s.b is None ==> line_elements(lines, n) == before
            &&& seen ==> (s.a matches Some(a) ==> (s.b matches Some(b) ==> line_elements(lines, n)
                == before.push(Drawn::Line(((n - 1) / 2 - 13) % 2 == 0, stroke_text(a, b)))))
            &&& line_elements(lines, 0).len() == 0
        }),
{
    let s = lines[n - 1];
    if let (Some(a), Some(b)) = (s.a, s.b) {
        lemma_lines_join_their_points(a, b);
        assert(line(a, b) == stroke_text(a, b));
    }
}

} // verus!
