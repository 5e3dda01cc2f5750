//! The walkers' animated render as a document: the ground plate and its
//! grid, then each figure's shadow, limbs, and head. Points arrive
//! projected by the camera and rounded to screen units; a point behind
//! the camera has no projection.
use vstd::prelude::*;
use vstd::string::*;
use crate::bits::f32_lt;
use crate::character::HEAD;
use crate::doc::Doc;
use crate::smil::{put_motion, Timing};
use crate::strokes::{push_at, push_line};
use crate::table::join;
use crate::text::xml_escape;

verus! {

use crate::bits::f32_lt_spec;
use crate::doc::joined;
use crate::smil::motion_parts;
use crate::strokes::{at, line};
use crate::table::{interleaved, texts};
use crate::text::{dec, escaped};

/// Grid lines run from this many meters before the origin to as many
/// behind it.
pub const GRID: i64 = 13;

/// The depth nearer than which a grid line is left out: one half.
pub const NEAR: u32 = 0x3F00_0000;

/// Provenance carried into the rendered file.
pub struct RenderMeta<'a> {
    pub scene: &'a str,
    pub seed: u64,
    pub fps: u32,
}

/// A screen point.
pub type Point = (i64, i64);

/// One grid line under the camera: the depths of its ends, as bit
/// patterns of singles, and their projections.
#[derive(Debug, Clone, Copy, PartialEq, Eq)]
pub struct LineSample {
    pub depth_a: u32,
    pub depth_b: u32,
    pub a: Option<Point>,
    pub b: Option<Point>,
}

/// The ground under the camera: the plate's four corners in turn, and
/// for every line from `-GRID` to `GRID` the one along z and the one
/// along x.
pub struct Ground {
    pub corners: Vec<Option<Point>>,
    pub lines: Vec<LineSample>,
}

/// One bone under the camera: its ends, and their shadows.
#[derive(Debug, Clone, Copy, PartialEq, Eq)]
pub struct BoneSample {
    pub start: Option<Point>,
    pub tip: Option<Point>,
    pub shadow_start: Option<Point>,
    pub shadow_tip: Option<Point>,
}

/// A head ball: center and radius with one decimal, and the center with
/// none.
#[derive(Debug, Clone, PartialEq)]
pub struct Head {
    pub cx: String,
    pub cy: String,
    pub r: String,
    pub cx_round: String,
    pub cy_round: String,
}

/// One figure at one frame.
pub struct FigureSample {
    pub bones: Vec<BoneSample>,
    pub head: Option<Head>,
}

/// One drawn element.
pub enum Element {
    /// The plate under the grid.
    Plate(String),
    /// A grid line, every second one major.
    Line(bool, String),
    /// A figure: its shadow, limbs, and head, frame by frame.
    Figure(Vec<String>, Vec<String>, Vec<Head>),
}

/// An element, as texts.
pub enum Drawn {
    Plate(Seq<char>),
    Line(bool, Seq<char>),
    Figure(Seq<Seq<char>>, Seq<Seq<char>>, Seq<Head>),
}

impl View for Element {
    type V = Drawn;

    open spec fn view(&self) -> Drawn {
        match self {
            Element::Plate(p) => Drawn::Plate(p@),
            Element::Line(m, p) => Drawn::Line(*m, p@),
            Element::Figure(s, l, h) => Drawn::Figure(texts(s@), texts(l@), h@),
        }
    }
}

// ---------------------------------------------------------------------------
// Collecting
// ---------------------------------------------------------------------------

/// The visible corners from `k` on, each as a line.
pub open spec fn corner_path(corners: Seq<Option<Point>>, k: int) -> Seq<char>
    decreases corners.len() - k,
{
    if k >= corners.len() {
        Seq::empty()
    } else {
        match corners[k] {
            Some(p) => "L"@ + at(p) + corner_path(corners, k + 1),
            None => corner_path(corners, k + 1),
        }
    }
}

/// The plate, when its first corner is visible: the outline through the
/// visible corners and back.
pub open spec fn plate_elements(g: Ground) -> Seq<Drawn> {
    match g.corners@[0] {
        Some(p) => seq![
            Drawn::Plate("M"@ + at(p) + corner_path(g.corners@, 1) + ("L"@ + at(p))),
        ],
        None => Seq::empty(),
    }
}

/// Whether a grid line is drawn: in front of the near guard and
/// projected at both ends.
pub open spec fn in_view(s: LineSample) -> bool {
    &&& !f32_lt_spec(s.depth_a, NEAR)
    &&& !f32_lt_spec(s.depth_b, NEAR)
    &&& s.a is Some
    &&& s.b is Some
}

/// The first `n` grid lines that are in view. Line `k` of the sample
/// lies at `k / 2 - GRID` meters, and even meters are major.
pub open spec fn line_elements(lines: Seq<LineSample>, n: int) -> Seq<Drawn>
    decreases n,
{
    if n <= 0 {
        Seq::empty()
    } else {
        let front = line_elements(lines, n - 1);
        let s = lines[n - 1];
        if in_view(s) {
            front.push(
                Drawn::Line(((n - 1) / 2 - GRID) % 2 == 0, line(s.a->Some_0, s.b->Some_0)),
            )
        } else {
            front
        }
    }
}

/// The shadows of the first `n` bones whose ends both project.
pub open spec fn shadow_path(bones: Seq<BoneSample>, n: int) -> Seq<char>
    decreases n,
{
    if n <= 0 {
        Seq::empty()
    } else {
        let b = bones[n - 1];
        let front = shadow_path(bones, n - 1);
        if b.shadow_start is Some && b.shadow_tip is Some {
            front + line(b.shadow_start->Some_0, b.shadow_tip->Some_0)
        } else {
            front
        }
    }
}

/// The first `n` bones whose ends both project, but for the head, which
/// is a ball and not a stick.
pub open spec fn limb_path(bones: Seq<BoneSample>, n: int) -> Seq<char>
    decreases n,
{
    if n <= 0 {
        Seq::empty()
    } else {
        let b = bones[n - 1];
        let front = limb_path(bones, n - 1);
        if n - 1 != HEAD && b.start is Some && b.tip is Some {
            front + line(b.start->Some_0, b.tip->Some_0)
        } else {
            front
        }
    }
}

/// The head that is drawn: a ball of no size at the origin when it does
/// not project.
pub open spec fn head_shown(s: FigureSample, h: Head) -> bool {
    match s.head {
        Some(x) => {
            &&& h.cx@ == x.cx@
            &&& h.cy@ == x.cy@
            &&& h.r@ == x.r@
            &&& h.cx_round@ == x.cx_round@
            &&& h.cy_round@ == x.cy_round@
        },
        None => {
            &&& h.cx@ == "0.0"@
            &&& h.cy@ == "0.0"@
            &&& h.r@ == "0.0"@
            &&& h.cx_round@ == "0"@
            &&& h.cy_round@ == "0"@
        },
    }
}

/// The element shows the figure.
pub open spec fn figure_shown(frames: Seq<FigureSample>, e: Drawn) -> bool {
    e matches Drawn::Figure(shadows, limbs, heads) && shadows.len() == frames.len() && limbs.len()
        == frames.len() && heads.len() == frames.len() && forall|k: int|
        #![trigger frames[k]]
        0 <= k < frames.len() ==> shadows[k] == shadow_path(
            frames[k].bones@,
            frames[k].bones@.len() as int,
        ) && limbs[k] == limb_path(frames[k].bones@, frames[k].bones@.len() as int) && head_shown(
            frames[k],
            heads[k],
        )
}

/// The elements show the scene: plate, lines, then one element per
/// figure.
pub open spec fn scene_shown(
    g: Ground,
    figures: Seq<Vec<FigureSample>>,
    elements: Seq<Element>,
) -> bool {
    let still = plate_elements(g) + line_elements(g.lines@, g.lines@.len() as int);
    &&& elements.len() == still.len() + figures.len()
    &&& forall|i: int| 0 <= i < still.len() ==> (#[trigger] elements[i])@ == still[i]
    &&& forall|i: int|
        0 <= i < figures.len() ==> figure_shown(
            (#[trigger] figures[i])@,
            elements[still.len() + i]@,
        )
}

fn plate_path(corners: &Vec<Option<Point>>, first: Point) -> (r: String)
    requires
        corners@.len() > 0,
    ensures
        r@ == "M"@ + at(first) + corner_path(corners@, 1) + ("L"@ + at(first)),
{
    let mut out = String::new();
    out.append("M");
    push_at(&mut out, first);
    let ghost head = "M"@ + at(first);
    proof {
        assert(out@ =~= head);
    }
    let mut k: usize = 1;
    while k < corners.len()
        invariant
            1 <= k <= corners@.len(),
            out@ + corner_path(corners@, k as int) == head + corner_path(corners@, 1),
        decreases corners@.len() - k,
    {
        let ghost before = out@;
        match corners[k] {
            Some(p) => {
                out.append("L");
                push_at(&mut out, p);
                proof {
                    assert(out@ + corner_path(corners@, k + 1) =~= before + ("L"@ + at(p)
                        + corner_path(corners@, k + 1)));
                }
            },
            None => {},
        }
        k = k + 1;
    }
    proof {
        assert(out@ + Seq::<char>::empty() =~= out@);
    }
    out.append("L");
    push_at(&mut out, first);
    proof {
        assert(out@ =~= head + corner_path(corners@, 1) + ("L"@ + at(first)));
    }
    out
}

fn shadows(bones: &Vec<BoneSample>) -> (r: String)
    ensures
        r@ == shadow_path(bones@, bones@.len() as int),
{
    let mut out = String::new();
    let mut b: usize = 0;
    while b < bones.len()
        invariant
            b <= bones@.len(),
            out@ == shadow_path(bones@, b as int),
        decreases bones@.len() - b,
    {
        match (bones[b].shadow_start, bones[b].shadow_tip) {
            (Some(p), Some(q)) => push_line(&mut out, p, q),
            _ => {},
        }
        b = b + 1;
    }
    out
}

fn limbs(bones: &Vec<BoneSample>) -> (r: String)
    ensures
        r@ == limb_path(bones@, bones@.len() as int),
{
    let mut out = String::new();
    let mut b: usize = 0;
    while b < bones.len()
        invariant
            b <= bones@.len(),
            out@ == limb_path(bones@, b as int),
        decreases bones@.len() - b,
    {
        if b != HEAD {
            match (bones[b].start, bones[b].tip) {
                (Some(p), Some(q)) => push_line(&mut out, p, q),
                _ => {},
            }
        }
        b = b + 1;
    }
    out
}

fn head_of(s: &FigureSample) -> (r: Head)
    ensures
        head_shown(*s, r),
{
    match &s.head {
        Some(h) => Head {
            cx: h.cx.as_str().to_owned(),
            cy: h.cy.as_str().to_owned(),
            r: h.r.as_str().to_owned(),
            cx_round: h.cx_round.as_str().to_owned(),
            cy_round: h.cy_round.as_str().to_owned(),
        },
        None => Head {
            cx: "0.0".to_owned(),
            cy: "0.0".to_owned(),
            r: "0.0".to_owned(),
            cx_round: "0".to_owned(),
            cy_round: "0".to_owned(),
        },
    }
}

fn figure(frames: &Vec<FigureSample>) -> (r: Element)
    ensures
        figure_shown(frames@, r@),
{
    let mut shadow_frames: Vec<String> = Vec::with_capacity(frames.len());
    let mut limb_frames: Vec<String> = Vec::with_capacity(frames.len());
    let mut head_frames: Vec<Head> = Vec::with_capacity(frames.len());
    let mut k: usize = 0;
    while k < frames.len()
        invariant
            k <= frames@.len(),
            shadow_frames@.len() == k,
            limb_frames@.len() == k,
            head_frames@.len() == k,
            forall|i: int|
                #![trigger frames@[i]]
                0 <= i < k ==> shadow_frames@[i]@ == shadow_path(
                    frames@[i].bones@,
                    frames@[i].bones@.len() as int,
                ) && limb_frames@[i]@ == limb_path(
                    frames@[i].bones@,
                    frames@[i].bones@.len() as int,
                ) && head_shown(frames@[i], head_frames@[i]),
        decreases frames@.len() - k,
    {
        shadow_frames.push(shadows(&frames[k].bones));
        limb_frames.push(limbs(&frames[k].bones));
        head_frames.push(head_of(&frames[k]));
        k = k + 1;
    }
    Element::Figure(shadow_frames, limb_frames, head_frames)
}

/// Collect the scene's elements in paint order.
pub fn collect(ground: &Ground, figures: &Vec<Vec<FigureSample>>) -> (r: Vec<Element>)
    requires
        ground.corners@.len() == 4,
        ground.lines@.len() == 2 * (2 * GRID + 1),
    ensures
        scene_shown(*ground, figures@, r@),
{
    let mut out: Vec<Element> = Vec::new();
    let ghost plate = plate_elements(*ground);
    match ground.corners[0] {
        Some(first) => {
            out.push(Element::Plate(plate_path(&ground.corners, first)));
        },
        None => {},
    }
    let mut n: usize = 0;
    while n < ground.lines.len()
        invariant
            n <= ground.lines@.len(),
            ground.lines@.len() == 2 * (2 * GRID + 1),
            out@.len() == plate.len() + line_elements(ground.lines@, n as int).len(),
            forall|i: int|
                0 <= i < out@.len() ==> (#[trigger] out@[i])@ == (plate + line_elements(
                    ground.lines@,
                    n as int,
                ))[i],
        decreases ground.lines@.len() - n,
    {
        let s = ground.lines[n];
        let ghost before = out@;
        let near: bool = f32_lt(s.depth_a, NEAR) || f32_lt(s.depth_b, NEAR);
        if !near {
            match (s.a, s.b) {
                (Some(p), Some(q)) => {
                    let mut path = String::new();
                    push_line(&mut path, p, q);
                    let major: bool = (n as i64 / 2 - GRID) % 2 == 0;
                    proof {
                        assert(path@ =~= line(p, q));
                        assert(major == ((n as int / 2 - GRID) % 2 == 0));
                    }
                    out.push(Element::Line(major, path));
                },
                _ => {},
            }
        }
        proof {
            let now = plate + line_elements(ground.lines@, n + 1);
            assert forall|i: int| 0 <= i < out@.len() implies (#[trigger] out@[i])@ == now[i] by {
                if i < before.len() {
                    assert(out@[i] == before[i]);
                    assert((plate + line_elements(ground.lines@, n as int))[i] == now[i]);
                }
            }
        }
        n = n + 1;
    }
    let ghost still = plate + line_elements(ground.lines@, ground.lines@.len() as int);
    let mut w: usize = 0;
    while w < figures.len()
        invariant
            w <= figures@.len(),
            out@.len() == still.len() + w,
            forall|i: int| 0 <= i < still.len() ==> (#[trigger] out@[i])@ == still[i],
            forall|i: int|
                0 <= i < w ==> figure_shown((#[trigger] figures@[i])@, out@[still.len() + i]@),
        decreases figures@.len() - w,
    {
        out.push(figure(&figures[w]));
        w = w + 1;
    }
    out
}

// ---------------------------------------------------------------------------
// Writing
// ---------------------------------------------------------------------------

/// Everything before the elements.
pub open spec fn head_parts(meta: RenderMeta) -> Seq<Seq<char>> {
    seq![
        "<svg xmlns=\"http://www.w3.org/2000/svg\" viewBox=\"-1460 -920 2920 1840\" width=\"2920\" height=\"1840\">\n  <title>bw-walker-gallery: "@,
        escaped(meta.scene@),
        "</title>\n  <desc>Procedural walk cycle (stick figure, 13 bones, speed-driven gait blend), perspective camera fov 40deg at (13.0, 6.0, 13.0), seed "@,
        dec(meta.seed as nat),
        ".</desc>\n  <defs><linearGradient id=\"sky\" x1=\"0\" y1=\"0\" x2=\"0\" y2=\"1\">\n    <stop offset=\"0\" stop-color=\"#cfe7f7\"/>\n    <stop offset=\"1\" stop-color=\"#eef8e6\"/>\n  </linearGradient></defs>\n  <rect x=\"-1460\" y=\"-920\" width=\"2920\" height=\"1840\" fill=\"url(#sky)\"/>\n"@,
    ]
}

/// A path that never moves.
pub open spec fn still_parts(path: Seq<char>, style: Seq<char>) -> Seq<Seq<char>> {
    seq!["  <path d=\""@, path, style]
}

/// A shadow: a faint stroke that moves with its figure.
pub open spec fn shadow_parts(frames: Seq<String>, t: Option<Timing>) -> Seq<Seq<char>> {
    seq![
        "  <path d=\""@,
        frames[0]@,
        "\" fill=\"none\" stroke=\"#1e2a17\" stroke-width=\"5.0\" opacity=\"0.16\">\n"@,
    ] + motion_parts("    "@, t, frames) + seq!["  </path>\n"@]
}

/// How a grid line is painted.
pub open spec fn line_style(major: bool) -> Seq<char> {
    if major {
        "\" fill=\"none\" stroke=\"#4d8e3b\" stroke-width=\"2.0\" opacity=\"0.90\">\n  </path>\n"@
    } else {
        "\" fill=\"none\" stroke=\"#63a84c\" stroke-width=\"1.0\" opacity=\"0.55\">\n  </path>\n"@
    }
}

/// The limbs: round strokes that move.
pub open spec fn limb_parts(frames: Seq<String>, t: Option<Timing>) -> Seq<Seq<char>> {
    seq![
        "  <path d=\""@,
        frames[0]@,
        "\" fill=\"none\" stroke=\"#3d4d6b\" stroke-width=\"3.2\" stroke-linecap=\"round\">\n"@,
    ] + motion_parts("    "@, t, frames) + seq!["  </path>\n"@]
}

/// One attribute of a head ball through its frames.
pub open spec fn head_values(heads: Seq<Head>, attr: int) -> Seq<Seq<char>> {
    heads.map_values(
        |h: Head|
            if attr == 0 {
                h.cx@
            } else if attr == 1 {
                h.cy@
            } else {
                h.r@
            },
    )
}

/// The name of a head ball's attribute.
pub open spec fn head_attr(attr: int) -> Seq<char> {
    if attr == 0 {
        "cx"@
    } else if attr == 1 {
        "cy"@
    } else {
        "r"@
    }
}

/// The animation of one attribute.
pub open spec fn head_motion(heads: Seq<Head>, t: Timing, attr: int) -> Seq<Seq<char>> {
    seq![
        "    <animate attributeName=\""@,
        head_attr(attr),
        "\" calcMode=\"linear\" dur=\""@,
        t.dur@,
        "s\" repeatCount=\"indefinite\" values=\""@,
        interleaved(head_values(heads, attr), ";"@),
        "\"/>\n"@,
    ]
}

/// The head ball.
pub open spec fn head_ball(heads: Seq<Head>, t: Option<Timing>) -> Seq<Seq<char>> {
    seq![
        "  <circle cx=\""@,
        heads[0].cx_round@,
        "\" cy=\""@,
        heads[0].cy_round@,
        "\" r=\""@,
        heads[0].r@,
        "\" fill=\"#25324a\">\n"@,
    ] + (match t {
        Some(timing) => if heads.len() > 1 {
            head_motion(heads, timing, 0) + head_motion(heads, timing, 1) + head_motion(
                heads,
                timing,
                2,
            )
        } else {
            Seq::empty()
        },
        None => Seq::empty(),
    }) + seq!["  </circle>\n"@]
}

/// One element.
pub open spec fn element_parts(e: Element, t: Option<Timing>) -> Seq<Seq<char>> {
    match e {
        Element::Plate(p) => still_parts(p@, "\" fill=\"#57a244\"/>\n"@),
        Element::Line(major, p) => still_parts(p@, line_style(major)),
        Element::Figure(s, l, h) => (if s@.len() > 0 {
            shadow_parts(s@, t)
        } else {
            Seq::empty()
        }) + (if l@.len() > 0 {
            limb_parts(l@, t)
        } else {
            Seq::empty()
        }) + (if h@.len() > 0 {
            head_ball(h@, t)
        } else {
            Seq::empty()
        }),
    }
}

/// The first `n` elements.
pub open spec fn elements_parts(elements: Seq<Element>, t: Option<Timing>, n: int) -> Seq<Seq<char>>
    decreases n,
{
    if n <= 0 {
        Seq::empty()
    } else {
        elements_parts(elements, t, n - 1) + element_parts(elements[n - 1], t)
    }
}

/// The caption and the end of the document.
pub open spec fn caption_parts(meta: RenderMeta) -> Seq<Seq<char>> {
    seq![
        "  <text x=\"-1420\" y=\"900\" font-family=\"monospace\" font-size=\"15\" fill=\"#33402a\">"@,
        escaped(meta.scene@),
        " &#183; seed "@,
        dec(meta.seed as nat),
        " &#183; procedural gait &#183; fov 40&#176; at (13, 6, 13)</text>\n</svg>\n"@,
    ]
}

/// The whole render.
pub open spec fn walker_document(
    elements: Seq<Element>,
    meta: RenderMeta,
    t: Option<Timing>,
) -> Seq<char> {
    joined(
        head_parts(meta) + elements_parts(elements, t, elements.len() as int) + caption_parts(meta),
    )
}

fn put_head(d: &mut Doc, meta: &RenderMeta)
    requires
        old(d).wf(),
    ensures
        final(d).wf(),
        final(d)@ == old(d)@ + head_parts(*meta),
{
    let scene = xml_escape(meta.scene);
    d.put(
        "<svg xmlns=\"http://www.w3.org/2000/svg\" viewBox=\"-1460 -920 2920 1840\" width=\"2920\" height=\"1840\">\n  <title>bw-walker-gallery: ",
    );
    d.put(scene.as_str());
    d.put(
        "</title>\n  <desc>Procedural walk cycle (stick figure, 13 bones, speed-driven gait blend), perspective camera fov 40deg at (13.0, 6.0, 13.0), seed ",
    );
    d.put_dec(meta.seed);
    d.put(
        ".</desc>\n  <defs><linearGradient id=\"sky\" x1=\"0\" y1=\"0\" x2=\"0\" y2=\"1\">\n    <stop offset=\"0\" stop-color=\"#cfe7f7\"/>\n    <stop offset=\"1\" stop-color=\"#eef8e6\"/>\n  </linearGradient></defs>\n  <rect x=\"-1460\" y=\"-920\" width=\"2920\" height=\"1840\" fill=\"url(#sky)\"/>\n",
    );
    proof {
        assert(d@ =~= old(d)@ + head_parts(*meta));
    }
}

fn put_still(d: &mut Doc, path: &str, style: &str)
    requires
        old(d).wf(),
    ensures
        final(d).wf(),
        final(d)@ == old(d)@ + still_parts(path@, style@),
{
    d.put("  <path d=\"");
    d.put(path);
    d.put(style);
    proof {
        assert(d@ =~= old(d)@ + still_parts(path@, style@));
    }
}

fn put_shadow(d: &mut Doc, frames: &Vec<String>, t: &Option<Timing>)
    requires
        old(d).wf(),
        frames@.len() > 0,
    ensures
        final(d).wf(),
        final(d)@ == old(d)@ + shadow_parts(frames@, *t),
{
    d.put("  <path d=\"");
    d.put(frames[0].as_str());
    d.put("\" fill=\"none\" stroke=\"#1e2a17\" stroke-width=\"5.0\" opacity=\"0.16\">\n");
    put_motion(d, "    ", t, frames);
    d.put("  </path>\n");
    proof {
        assert(d@ =~= old(d)@ + shadow_parts(frames@, *t));
    }
}

fn put_limbs(d: &mut Doc, frames: &Vec<String>, t: &Option<Timing>)
    requires
        old(d).wf(),
        frames@.len() > 0,
    ensures
        final(d).wf(),
        final(d)@ == old(d)@ + limb_parts(frames@, *t),
{
    d.put("  <path d=\"");
    d.put(frames[0].as_str());
    d.put("\" fill=\"none\" stroke=\"#3d4d6b\" stroke-width=\"3.2\" stroke-linecap=\"round\">\n");
    put_motion(d, "    ", t, frames);
    d.put("  </path>\n");
    proof {
        assert(d@ =~= old(d)@ + limb_parts(frames@, *t));
    }
}

fn head_column(heads: &Vec<Head>, attr: u8) -> (r: Vec<String>)
    ensures
        texts(r@) == head_values(heads@, attr as int),
{
    let mut out: Vec<String> = Vec::with_capacity(heads.len());
    let mut k: usize = 0;
    while k < heads.len()
        invariant
            k <= heads@.len(),
            out@.len() == k,
            forall|i: int| 0 <= i < k ==> (#[trigger] out@[i])@ == head_values(heads@, attr as int)[i],
        decreases heads@.len() - k,
    {
        let v = if attr == 0 {
            heads[k].cx.as_str()
        } else if attr == 1 {
            heads[k].cy.as_str()
        } else {
            heads[k].r.as_str()
        };
        out.push(v.to_owned());
        k = k + 1;
    }
    proof {
        assert(texts(out@) =~= head_values(heads@, attr as int));
    }
    out
}

fn put_head_motion(d: &mut Doc, heads: &Vec<Head>, t: &Timing, attr: u8)
    requires
        old(d).wf(),
        attr < 3,
    ensures
        final(d).wf(),
        final(d)@ == old(d)@ + head_motion(heads@, *t, attr as int),
{
    let values = join(&head_column(heads, attr), ";");
    d.put("    <animate attributeName=\"");
    if attr == 0 {
        d.put("cx");
    } else if attr == 1 {
        d.put("cy");
    } else {
        d.put("r");
    }
    d.put("\" calcMode=\"linear\" dur=\"");
    d.put(t.dur.as_str());
    d.put("s\" repeatCount=\"indefinite\" values=\"");
    d.put(values.as_str());
    d.put("\"/>\n");
    proof {
        assert(d@ =~= old(d)@ + head_motion(heads@, *t, attr as int));
    }
}

fn put_head_ball(d: &mut Doc, heads: &Vec<Head>, t: &Option<Timing>)
    requires
        old(d).wf(),
        heads@.len() > 0,
    ensures
        final(d).wf(),
        final(d)@ == old(d)@ + head_ball(heads@, *t),
{
    d.put("  <circle cx=\"");
    d.put(heads[0].cx_round.as_str());
    d.put("\" cy=\"");
    d.put(heads[0].cy_round.as_str());
    d.put("\" r=\"");
    d.put(heads[0].r.as_str());
    d.put("\" fill=\"#25324a\">\n");
    match t {
        Some(timing) => {
            if heads.len() > 1 {
                put_head_motion(d, heads, timing, 0);
                put_head_motion(d, heads, timing, 1);
                put_head_motion(d, heads, timing, 2);
            }
        },
        None => {},
    }
    d.put("  </circle>\n");
    proof {
        assert(d@ =~= old(d)@ + head_ball(heads@, *t));
    }
}

fn put_element(d: &mut Doc, e: &Element, t: &Option<Timing>)
    requires
        old(d).wf(),
    ensures
        final(d).wf(),
        final(d)@ == old(d)@ + element_parts(*e, *t),
{
    match e {
        Element::Plate(p) => {
            put_still(d, p.as_str(), "\" fill=\"#57a244\"/>\n");
        },
        Element::Line(major, p) => {
            if *major {
                put_still(
                    d,
                    p.as_str(),
                    "\" fill=\"none\" stroke=\"#4d8e3b\" stroke-width=\"2.0\" opacity=\"0.90\">\n  </path>\n",
                );
            } else {
                put_still(
                    d,
                    p.as_str(),
                    "\" fill=\"none\" stroke=\"#63a84c\" stroke-width=\"1.0\" opacity=\"0.55\">\n  </path>\n",
                );
            }
        },
        Element::Figure(s, l, h) => {
            if s.len() > 0 {
                put_shadow(d, s, t);
            }
            if l.len() > 0 {
                put_limbs(d, l, t);
            }
            if h.len() > 0 {
                put_head_ball(d, h, t);
            }
            proof {
                assert(d@ =~= old(d)@ + element_parts(*e, *t));
            }
        },
    }
}

fn put_caption(d: &mut Doc, meta: &RenderMeta)
    requires
        old(d).wf(),
    ensures
        final(d).wf(),
        final(d)@ == old(d)@ + caption_parts(*meta),
{
    let scene = xml_escape(meta.scene);
    d.put("  <text x=\"-1420\" y=\"900\" font-family=\"monospace\" font-size=\"15\" fill=\"#33402a\">");
    d.put(scene.as_str());
    d.put(" &#183; seed ");
    d.put_dec(meta.seed);
    d.put(" &#183; procedural gait &#183; fov 40&#176; at (13, 6, 13)</text>\n</svg>\n");
    proof {
        assert(d@ =~= old(d)@ + caption_parts(*meta));
    }
}

/// Write the document. Without timing, the first frame stands still.
pub fn emit(elements: &Vec<Element>, meta: &RenderMeta, t: &Option<Timing>) -> (r: String)
    ensures
        r@ == walker_document(elements@, *meta, *t),
{
    let mut d = Doc::new();
    put_head(&mut d, meta);
    let ghost head = head_parts(*meta);
    proof {
        assert(d@ =~= head + elements_parts(elements@, *t, 0));
    }
    let mut n: usize = 0;
    while n < elements.len()
        invariant
            n <= elements@.len(),
            d.wf(),
            d@ == head + elements_parts(elements@, *t, n as int),
        decreases elements@.len() - n,
    {
        put_element(&mut d, &elements[n], t);
        n = n + 1;
        proof {
            assert(d@ =~= head + elements_parts(elements@, *t, n as int));
        }
    }
    put_caption(&mut d, meta);
    d.finish()
}

/// The document shows the scene.
pub open spec fn renders(
    ground: Ground,
    figures: Seq<Vec<FigureSample>>,
    meta: RenderMeta,
    t: Option<Timing>,
    r: Seq<char>,
) -> bool {
    exists|elements: Seq<Element>|
        #![trigger walker_document(elements, meta, t)]
        scene_shown(ground, figures, elements) && r == walker_document(elements, meta, t)
}

/// Render the walk cycle as one self-contained looping document. A scene
/// without walkers is refused.
pub fn render_animation(
    ground: &Ground,
    figures: &Vec<Vec<FigureSample>>,
    meta: &RenderMeta,
    timing: Timing,
) -> (r: Result<String, String>)
    requires
        ground.corners@.len() == 4,
        ground.lines@.len() == 2 * (2 * GRID + 1),
    ensures
        match r {
            Ok(svg) => figures@.len() > 0 && renders(
                *ground,
                figures@,
                *meta,
                Some(timing),
                svg@,
            ),
            Err(e) => figures@.len() == 0 && e@ == "no walkers to render"@,
        },
{
    if figures.len() == 0 {
        return Err("no walkers to render".to_owned());
    }
    let elements = collect(ground, figures);
    Ok(emit(&elements, meta, &Some(timing)))
}

/// Render one frame that stands still.
pub fn render_frame(ground: &Ground, figures: &Vec<Vec<FigureSample>>, meta: &RenderMeta) -> (r:
    String)
    requires
        ground.corners@.len() == 4,
        ground.lines@.len() == 2 * (2 * GRID + 1),
    ensures
        renders(*ground, figures@, *meta, None, r@),
{
    let elements = collect(ground, figures);
    emit(&elements, meta, &None)
}

} // verus!
