//! The trees' animated render as a document: the checkerboard ground,
//! then shadows, branches, and the two canopy layers. Branches are
//! grouped by depth so each group is one moving path. Branch ends arrive
//! projected and rounded to screen units; the printed frame, tile
//! corners, and stroke widths arrive as text.
use vstd::prelude::*;
use vstd::string::*;
use crate::doc::Doc;
use crate::smil::{put_motion, Timing};
use crate::strokes::push_line;
use crate::text::{hex_pair, xml_escape};

verus! {

use crate::doc::joined;
use crate::smil::motion_parts;
use crate::strokes::line;
use crate::text::{dec, escaped, hex};

/// Provenance carried into the rendered file.
pub struct RenderMeta<'a> {
    pub scene: &'a str,
    pub seed: u64,
    pub fps: u32,
}

/// A screen point.
pub type Point = (i64, i64);

/// A projected segment.
pub type Stroke = (Point, Point);

/// One tree at one frame: for every node its shadow, its branch, and the
/// two canopy strokes at its tip.
pub struct TreeFrame {
    pub shadow: Vec<Stroke>,
    pub branch: Vec<Stroke>,
    pub dark: Vec<Stroke>,
    pub light: Vec<Stroke>,
}

/// One tree: node depths and leaf flags, the printed stroke widths of
/// each depth (shadow, then branch), and its frames.
pub struct TreeSample {
    pub depths: Vec<u8>,
    pub leaves: Vec<bool>,
    pub widths: Vec<(String, String)>,
    pub frames: Vec<TreeFrame>,
}

/// Paint order.
#[derive(Debug, Clone, Copy, PartialEq, Eq, Structural)]
pub enum Group {
    Shadow,
    Branch,
    CanopyDark,
    CanopyLight,
}

/// One path element: fixed styling and one path per frame.
pub struct Element {
    pub group: Group,
    pub stroke: String,
    pub width: String,
    pub frames: Vec<String>,
}

/// The printed frame of the document and the caption's place.
pub struct Frame {
    pub min_x: String,
    pub min_y: String,
    pub width: String,
    pub height: String,
    pub caption_x: String,
    pub caption_y: String,
}

/// A printed ground tile: four corners in turn.
pub struct TileQuad {
    pub x0: String,
    pub y0: String,
    pub x1: String,
    pub y1: String,
    pub x2: String,
    pub y2: String,
    pub x3: String,
    pub y3: String,
}

// ---------------------------------------------------------------------------
// Collecting
// ---------------------------------------------------------------------------

/// The deepest of the first `n` nodes.
pub open spec fn deepest(depths: Seq<u8>, n: int) -> int
    decreases n,
{
    if n <= 0 {
        0
    } else {
        let front = deepest(depths, n - 1);
        if depths[n - 1] > front {
            depths[n - 1] as int
        } else {
            front
        }
    }
}

/// The strokes of the first `n` nodes that lie at a depth.
pub open spec fn depth_path(strokes: Seq<Stroke>, depths: Seq<u8>, d: int, n: int) -> Seq<char>
    decreases n,
{
    if n <= 0 {
        Seq::empty()
    } else {
        let front = depth_path(strokes, depths, d, n - 1);
        if depths[n - 1] == d {
            front + line(strokes[n - 1].0, strokes[n - 1].1)
        } else {
            front
        }
    }
}

/// The strokes of the first `n` nodes that are leaves.
pub open spec fn leaf_path(strokes: Seq<Stroke>, leaves: Seq<bool>, n: int) -> Seq<char>
    decreases n,
{
    if n <= 0 {
        Seq::empty()
    } else {
        let front = leaf_path(strokes, leaves, n - 1);
        if leaves[n - 1] {
            front + line(strokes[n - 1].0, strokes[n - 1].1)
        } else {
            front
        }
    }
}

/// One channel of trunk brown fading toward twig olive.
pub open spec fn fade(a: int, b: int, d: int, shade: int) -> int {
    a + (b - a) * d / shade
}

/// The color of branches at depth `d` of `shade`: trunk brown at 0,
/// leafy olive at `shade`.
pub open spec fn branch_shade(d: int, shade: int) -> Seq<char> {
    "#"@ + hex(fade(0x6b, 0x86, d, shade) as nat, 2) + hex(fade(0x4a, 0x70, d, shade) as nat, 2)
        + hex(fade(0x2f, 0x3d, d, shade) as nat, 2)
}

/// The color of branches at a depth.
pub fn branch_color(d: u8, shade: u8) -> (r: String)
    requires
        d <= shade,
        shade > 0,
    ensures
        r@ == branch_shade(d as int, shade as int),
{
    let mut out = String::new();
    out.append("#");
    let red: u64 = 0x6b + 27 * d as u64 / shade as u64;
    let green: u64 = 0x4a + 38 * d as u64 / shade as u64;
    let blue: u64 = 0x2f + 14 * d as u64 / shade as u64;
    proof {
        assert(27 * d / (shade as int) <= 27 && 38 * d / (shade as int) <= 38 && 14 * d / (
        shade as int) <= 14) by (nonlinear_arith)
            requires
                d <= shade,
                shade > 0,
        ;
    }
    hex_pair(&mut out, red as u8);
    hex_pair(&mut out, green as u8);
    hex_pair(&mut out, blue as u8);
    proof {
        assert(out@ =~= branch_shade(d as int, shade as int));
    }
    out
}

/// Some node lies at a depth.
pub open spec fn peopled(depths: Seq<u8>, d: int) -> bool {
    exists|i: int| 0 <= i < depths.len() && #[trigger] depths[i] == d
}

/// What an element is: its group, and a depth where the group has one.
pub struct Slot {
    pub group: Group,
    pub depth: int,
}

/// The limb elements of the depths below `d`: for each depth with nodes,
/// a shadow and a branch.
pub open spec fn limb_slots(depths: Seq<u8>, d: int) -> Seq<Slot>
    decreases d,
{
    if d <= 0 {
        Seq::empty()
    } else {
        let front = limb_slots(depths, d - 1);
        if peopled(depths, d - 1) {
            front.push(Slot { group: Group::Shadow, depth: d - 1 }).push(
                Slot { group: Group::Branch, depth: d - 1 },
            )
        } else {
            front
        }
    }
}

/// The elements of one tree: its limbs by depth, and the two canopy
/// layers.
pub open spec fn tree_slots(depths: Seq<u8>) -> Seq<Slot> {
    limb_slots(depths, deepest(depths, depths.len() as int) + 1).push(
        Slot { group: Group::CanopyDark, depth: 0 },
    ).push(Slot { group: Group::CanopyLight, depth: 0 })
}

/// The depth that colors are measured against.
pub open spec fn shade_of(depths: Seq<u8>) -> int {
    let m = deepest(depths, depths.len() as int);
    if m < 1 {
        1
    } else {
        m
    }
}

/// The path of an element at one frame.
pub open spec fn slot_path(t: TreeSample, s: Slot, k: int) -> Seq<char> {
    let n = t.depths@.len() as int;
    let f = t.frames@[k];
    match s.group {
        Group::Shadow => depth_path(f.shadow@, t.depths@, s.depth, n),
        Group::Branch => depth_path(f.branch@, t.depths@, s.depth, n),
        Group::CanopyDark => leaf_path(f.dark@, t.leaves@, n),
        Group::CanopyLight => leaf_path(f.light@, t.leaves@, n),
    }
}

/// An element's stroke color.
pub open spec fn slot_stroke(t: TreeSample, s: Slot) -> Seq<char> {
    match s.group {
        Group::Shadow => "#1e2a17"@,
        Group::Branch => branch_shade(s.depth, shade_of(t.depths@)),
        Group::CanopyDark => "#3e7c34"@,
        Group::CanopyLight => "#57a244"@,
    }
}

/// An element's printed stroke width.
pub open spec fn slot_width(t: TreeSample, s: Slot) -> Seq<char> {
    match s.group {
        Group::Shadow => t.widths@[s.depth].0@,
        Group::Branch => t.widths@[s.depth].1@,
        Group::CanopyDark => "26.0"@,
        Group::CanopyLight => "13.0"@,
    }
}

/// The element shows its slot of the tree.
pub open spec fn slot_shown(t: TreeSample, s: Slot, e: Element) -> bool {
    &&& e.group == s.group
    &&& e.stroke@ == slot_stroke(t, s)
    &&& e.width@ == slot_width(t, s)
    &&& e.frames@.len() == t.frames@.len()
    &&& forall|k: int|
        0 <= k < t.frames@.len() ==> (#[trigger] e.frames@[k])@ == slot_path(t, s, k)
}

/// Elements from `from` on show the tree.
pub open spec fn tree_shown(t: TreeSample, elements: Seq<Element>, from: int) -> bool {
    let slots = tree_slots(t.depths@);
    from + slots.len() <= elements.len() && forall|i: int|
        0 <= i < slots.len() ==> slot_shown(t, #[trigger] slots[i], elements[from + i])
}

/// How many elements the first `n` trees have.
pub open spec fn slots_before(trees: Seq<TreeSample>, n: int) -> int
    decreases n,
{
    if n <= 0 {
        0
    } else {
        slots_before(trees, n - 1) + tree_slots(trees[n - 1].depths@).len()
    }
}

/// The elements show the trees in order.
pub open spec fn scene_shown(trees: Seq<TreeSample>, elements: Seq<Element>) -> bool {
    &&& elements.len() == slots_before(trees, trees.len() as int)
    &&& forall|t: int|
        0 <= t < trees.len() ==> tree_shown(#[trigger] trees[t], elements, slots_before(trees, t))
}

/// A sampled tree is complete: a flag, and in every frame four strokes,
/// for each node; a width pair for each depth; and at least one frame.
pub open spec fn complete(t: TreeSample) -> bool {
    let n = t.depths@.len();
    &&& t.leaves@.len() == n
    &&& t.widths@.len() == deepest(t.depths@, n as int) + 1
    &&& t.frames@.len() > 0
    &&& forall|k: int|
        #![trigger t.frames@[k]]
        0 <= k < t.frames@.len() ==> t.frames@[k].shadow@.len() == n && t.frames@[k].branch@.len()
            == n && t.frames@[k].dark@.len() == n && t.frames@[k].light@.len() == n
}

proof fn lemma_deepest(depths: Seq<u8>, n: int)
    requires
        0 <= n <= depths.len(),
    ensures
        0 <= deepest(depths, n) <= 255,
        forall|i: int| 0 <= i < n ==> #[trigger] depths[i] <= deepest(depths, n),
    decreases n,
{
    if n > 0 {
        lemma_deepest(depths, n - 1);
    }
}

fn max_depth(depths: &Vec<u8>) -> (r: u8)
    ensures
        r == deepest(depths@, depths@.len() as int),
{
    let mut m: u8 = 0;
    let mut i: usize = 0;
    while i < depths.len()
        invariant
            i <= depths@.len(),
            m == deepest(depths@, i as int),
        decreases depths@.len() - i,
    {
        if depths[i] > m {
            m = depths[i];
        }
        i = i + 1;
    }
    m
}

fn has_depth(depths: &Vec<u8>, d: u8) -> (r: bool)
    ensures
        r == peopled(depths@, d as int),
{
    let mut i: usize = 0;
    while i < depths.len()
        invariant
            i <= depths@.len(),
            forall|j: int| 0 <= j < i ==> #[trigger] depths@[j] != d,
        decreases depths@.len() - i,
    {
        if depths[i] == d {
            return true;
        }
        i = i + 1;
    }
    false
}

fn segment_paths(strokes: &Vec<Stroke>, depths: &Vec<u8>, d: u8) -> (r: String)
    requires
        strokes@.len() == depths@.len(),
    ensures
        r@ == depth_path(strokes@, depths@, d as int, depths@.len() as int),
{
    let mut out = String::new();
    let mut i: usize = 0;
    while i < depths.len()
        invariant
            i <= depths@.len(),
            strokes@.len() == depths@.len(),
            out@ == depth_path(strokes@, depths@, d as int, i as int),
        decreases depths@.len() - i,
    {
        if depths[i] == d {
            push_line(&mut out, strokes[i].0, strokes[i].1);
        }
        i = i + 1;
    }
    out
}

fn canopy_path(strokes: &Vec<Stroke>, leaves: &Vec<bool>) -> (r: String)
    requires
        strokes@.len() == leaves@.len(),
    ensures
        r@ == leaf_path(strokes@, leaves@, leaves@.len() as int),
{
    let mut out = String::new();
    let mut i: usize = 0;
    while i < leaves.len()
        invariant
            i <= leaves@.len(),
            strokes@.len() == leaves@.len(),
            out@ == leaf_path(strokes@, leaves@, i as int),
        decreases leaves@.len() - i,
    {
        if leaves[i] {
            push_line(&mut out, strokes[i].0, strokes[i].1);
        }
        i = i + 1;
    }
    out
}

fn element(t: &TreeSample, group: Group, d: u8, shade: u8) -> (r: Element)
    requires
        complete(*t),
        d < t.widths@.len(),
        shade == shade_of(t.depths@),
    ensures
        slot_shown(*t, (Slot { group, depth: d as int }), r),
{
    let ghost s = Slot { group, depth: d as int };
    let mut frames: Vec<String> = Vec::with_capacity(t.frames.len());
    let mut k: usize = 0;
    while k < t.frames.len()
        invariant
            k <= t.frames@.len(),
            complete(*t),
            s == (Slot { group, depth: d as int }),
            frames@.len() == k,
            forall|j: int| 0 <= j < k ==> (#[trigger] frames@[j])@ == slot_path(*t, s, j),
        decreases t.frames@.len() - k,
    {
        let f = &t.frames[k];
        proof {
            assert(t.frames@[k as int].shadow@.len() == t.depths@.len());
        }
        let path = match group {
            Group::Shadow => segment_paths(&f.shadow, &t.depths, d),
            Group::Branch => segment_paths(&f.branch, &t.depths, d),
            Group::CanopyDark => canopy_path(&f.dark, &t.leaves),
            Group::CanopyLight => canopy_path(&f.light, &t.leaves),
        };
        frames.push(path);
        k = k + 1;
    }
    proof {
        lemma_deepest(t.depths@, t.depths@.len() as int);
    }
    let (stroke, width) = match group {
        Group::Shadow => ("#1e2a17".to_owned(), t.widths[d as usize].0.as_str().to_owned()),
        Group::Branch => (branch_color(d, shade), t.widths[d as usize].1.as_str().to_owned()),
        Group::CanopyDark => ("#3e7c34".to_owned(), "26.0".to_owned()),
        Group::CanopyLight => ("#57a244".to_owned(), "13.0".to_owned()),
    };
    Element { group, stroke, width, frames }
}

/// Elements from `from` on show the slots.
spec fn slots_shown(t: TreeSample, slots: Seq<Slot>, elements: Seq<Element>, from: int) -> bool {
    elements.len() == from + slots.len() && forall|i: int|
        0 <= i < slots.len() ==> slot_shown(t, #[trigger] slots[i], elements[from + i])
}

proof fn lemma_slot_added(
    t: TreeSample,
    slots: Seq<Slot>,
    s: Slot,
    elements: Seq<Element>,
    e: Element,
    from: int,
)
    requires
        0 <= from,
        slots_shown(t, slots, elements, from),
        slot_shown(t, s, e),
    ensures
        slots_shown(t, slots.push(s), elements.push(e), from),
{
    let more = slots.push(s);
    let all = elements.push(e);
    assert forall|i: int| 0 <= i < more.len() implies slot_shown(
        t,
        #[trigger] more[i],
        all[from + i],
    ) by {
        if i < slots.len() {
            assert(more[i] == slots[i]);
            assert(all[from + i] == elements[from + i]);
        }
    }
}

fn collect_tree(t: &TreeSample, out: &mut Vec<Element>)
    requires
        complete(*t),
    ensures
        final(out)@.len() == old(out)@.len() + tree_slots(t.depths@).len(),
        forall|i: int| 0 <= i < old(out)@.len() ==> #[trigger] final(out)@[i] == old(out)@[i],
        tree_shown(*t, final(out)@, old(out)@.len() as int),
{
    let deep: u8 = max_depth(&t.depths);
    let shade: u8 = if deep < 1 {
        1
    } else {
        deep
    };
    let ghost from = out@.len() as int;
    let mut d: u16 = 0;
    while d <= deep as u16
        invariant
            d <= deep + 1,
            deep == deepest(t.depths@, t.depths@.len() as int),
            shade == shade_of(t.depths@),
            complete(*t),
            from == old(out)@.len(),
            slots_shown(*t, limb_slots(t.depths@, d as int), out@, from),
            forall|i: int| 0 <= i < from ==> #[trigger] out@[i] == old(out)@[i],
        decreases deep + 1 - d,
    {
        let depth: u8 = d as u8;
        if has_depth(&t.depths, depth) {
            let shadow = element(t, Group::Shadow, depth, shade);
            proof {
                lemma_slot_added(
                    *t,
                    limb_slots(t.depths@, d as int),
                    Slot { group: Group::Shadow, depth: d as int },
                    out@,
                    shadow,
                    from,
                );
            }
            out.push(shadow);
            let branch = element(t, Group::Branch, depth, shade);
            proof {
                lemma_slot_added(
                    *t,
                    limb_slots(t.depths@, d as int).push(
                        Slot { group: Group::Shadow, depth: d as int },
                    ),
                    Slot { group: Group::Branch, depth: d as int },
                    out@,
                    branch,
                    from,
                );
            }
            out.push(branch);
        }
        d = d + 1;
    }
    let ghost limbs = limb_slots(t.depths@, d as int);
    let dark = element(t, Group::CanopyDark, 0, shade);
    proof {
        lemma_slot_added(
            *t,
            limbs,
            Slot { group: Group::CanopyDark, depth: 0 },
            out@,
            dark,
            from,
        );
    }
    out.push(dark);
    let light = element(t, Group::CanopyLight, 0, shade);
    proof {
        lemma_slot_added(
            *t,
            limbs.push(Slot { group: Group::CanopyDark, depth: 0 }),
            Slot { group: Group::CanopyLight, depth: 0 },
            out@,
            light,
            from,
        );
    }
    out.push(light);
}

/// Collect the trees' elements, each tree with its ground anchor.
pub fn collect(trees: &Vec<TreeSample>, anchors: &Vec<(i32, i32)>) -> (r: Result<
    Vec<Element>,
    String,
>)
    requires
        forall|t: int| 0 <= t < trees@.len() ==> complete(#[trigger] trees@[t]),
    ensures
        match r {
            Ok(elements) => trees@.len() == anchors@.len() && trees@.len() > 0 && scene_shown(
                trees@,
                elements@,
            ),
            Err(e) => if trees@.len() != anchors@.len() {
                e@ == "trees, poses, and anchors must be parallel arrays"@
            } else {
                trees@.len() == 0 && e@ == "no trees to render"@
            },
        },
{
    if trees.len() != anchors.len() {
        return Err("trees, poses, and anchors must be parallel arrays".to_owned());
    }
    if trees.len() == 0 {
        return Err("no trees to render".to_owned());
    }
    let mut out: Vec<Element> = Vec::new();
    let mut n: usize = 0;
    while n < trees.len()
        invariant
            n <= trees@.len(),
            forall|t: int| 0 <= t < trees@.len() ==> complete(#[trigger] trees@[t]),
            out@.len() == slots_before(trees@, n as int),
            forall|t: int|
                0 <= t < n ==> tree_shown(#[trigger] trees@[t], out@, slots_before(trees@, t)),
        decreases trees@.len() - n,
    {
        let ghost before = out@;
        collect_tree(&trees[n], &mut out);
        proof {
            assert forall|t: int| 0 <= t < n + 1 implies tree_shown(
                #[trigger] trees@[t],
                out@,
                slots_before(trees@, t),
            ) by {
                if t < n {
                    let slots = tree_slots(trees@[t].depths@);
                    let from = slots_before(trees@, t);
                    assert(tree_shown(trees@[t], before, from));
                    lemma_slots_ascend(trees@, t);
                    assert forall|i: int| 0 <= i < slots.len() implies slot_shown(
                        trees@[t],
                        #[trigger] slots[i],
                        out@[from + i],
                    ) by {
                        assert(out@[from + i] == before[from + i]);
                    }
                }
            }
        }
        n = n + 1;
    }
    Ok(out)
}

proof fn lemma_slots_ascend(trees: Seq<TreeSample>, n: int)
    ensures
        slots_before(trees, n) >= 0,
    decreases n,
{
    if n > 0 {
        lemma_slots_ascend(trees, n - 1);
    }
}

// ---------------------------------------------------------------------------
// Bounds and tiles
// ---------------------------------------------------------------------------

/// A box of screen points: least and greatest x and y.
#[derive(Debug, Clone, Copy, PartialEq, Eq, Structural)]
pub struct Extent {
    pub min_x: i64,
    pub min_y: i64,
    pub max_x: i64,
    pub max_y: i64,
}

/// The box grown to hold a point.
pub open spec fn grown(e: Option<Extent>, p: Point) -> Option<Extent> {
    match e {
        None => Some(Extent { min_x: p.0, min_y: p.1, max_x: p.0, max_y: p.1 }),
        Some(b) => Some(
            Extent {
                min_x: if p.0 < b.min_x {
                    p.0
                } else {
                    b.min_x
                },
                min_y: if p.1 < b.min_y {
                    p.1
                } else {
                    b.min_y
                },
                max_x: if p.0 > b.max_x {
                    p.0
                } else {
                    b.max_x
                },
                max_y: if p.1 > b.max_y {
                    p.1
                } else {
                    b.max_y
                },
            },
        ),
    }
}

/// The box grown over both ends of a stroke.
pub open spec fn grown_stroke(e: Option<Extent>, s: Stroke) -> Option<Extent> {
    grown(grown(e, s.0), s.1)
}

/// The box grown over the drawn strokes of the first `n` nodes of a
/// frame: shadow and branch of every node, canopy of the leaves.
pub open spec fn grown_nodes(e: Option<Extent>, f: TreeFrame, leaves: Seq<bool>, n: int) -> Option<
    Extent,
>
    decreases n,
{
    if n <= 0 {
        e
    } else {
        let limbs = grown_stroke(
            grown_stroke(grown_nodes(e, f, leaves, n - 1), f.shadow@[n - 1]),
            f.branch@[n - 1],
        );
        if leaves[n - 1] {
            grown_stroke(grown_stroke(limbs, f.dark@[n - 1]), f.light@[n - 1])
        } else {
            limbs
        }
    }
}

/// The box grown over the first `n` frames of a tree.
pub open spec fn grown_frames(e: Option<Extent>, t: TreeSample, n: int) -> Option<Extent>
    decreases n,
{
    if n <= 0 {
        e
    } else {
        grown_nodes(
            grown_frames(e, t, n - 1),
            t.frames@[n - 1],
            t.leaves@,
            t.leaves@.len() as int,
        )
    }
}

/// The box of everything the first `n` trees draw in any frame.
pub open spec fn drawn_extent(trees: Seq<TreeSample>, n: int) -> Option<Extent>
    decreases n,
{
    if n <= 0 {
        None
    } else {
        grown_frames(drawn_extent(trees, n - 1), trees[n - 1], trees[n - 1].frames@.len() as int)
    }
}

/// A growing box keeps what it held and holds the new point.
pub proof fn lemma_grown_holds(e: Option<Extent>, p: Point)
    ensures
        grown(e, p) matches Some(b) && b.min_x <= p.0 <= b.max_x && b.min_y <= p.1 <= b.max_y,
        e matches Some(a) ==> grown(e, p)->Some_0.min_x <= a.min_x && a.max_x <= grown(
            e,
            p,
        )->Some_0.max_x && grown(e, p)->Some_0.min_y <= a.min_y && a.max_y <= grown(
            e,
            p,
        )->Some_0.max_y,
{
}

fn grow(e: Option<Extent>, p: Point) -> (r: Option<Extent>)
    ensures
        r == grown(e, p),
{
    match e {
        None => Some(Extent { min_x: p.0, min_y: p.1, max_x: p.0, max_y: p.1 }),
        Some(b) => Some(
            Extent {
                min_x: if p.0 < b.min_x {
                    p.0
                } else {
                    b.min_x
                },
                min_y: if p.1 < b.min_y {
                    p.1
                } else {
                    b.min_y
                },
                max_x: if p.0 > b.max_x {
                    p.0
                } else {
                    b.max_x
                },
                max_y: if p.1 > b.max_y {
                    p.1
                } else {
                    b.max_y
                },
            },
        ),
    }
}

fn grow_stroke(e: Option<Extent>, s: Stroke) -> (r: Option<Extent>)
    ensures
        r == grown_stroke(e, s),
{
    grow(grow(e, s.0), s.1)
}

fn grow_frame(e: Option<Extent>, f: &TreeFrame, leaves: &Vec<bool>) -> (r: Option<Extent>)
    requires
        f.shadow@.len() == leaves@.len(),
        f.branch@.len() == leaves@.len(),
        f.dark@.len() == leaves@.len(),
        f.light@.len() == leaves@.len(),
    ensures
        r == grown_nodes(e, *f, leaves@, leaves@.len() as int),
{
    let mut b = e;
    let mut i: usize = 0;
    while i < leaves.len()
        invariant
            i <= leaves@.len(),
            f.shadow@.len() == leaves@.len(),
            f.branch@.len() == leaves@.len(),
            f.dark@.len() == leaves@.len(),
            f.light@.len() == leaves@.len(),
            b == grown_nodes(e, *f, leaves@, i as int),
        decreases leaves@.len() - i,
    {
        b = grow_stroke(b, f.shadow[i]);
        b = grow_stroke(b, f.branch[i]);
        if leaves[i] {
            b = grow_stroke(b, f.dark[i]);
            b = grow_stroke(b, f.light[i]);
        }
        i = i + 1;
    }
    b
}

/// The box of everything the trees draw in any frame.
pub fn extent(trees: &Vec<TreeSample>) -> (r: Option<Extent>)
    requires
        forall|t: int| 0 <= t < trees@.len() ==> complete(#[trigger] trees@[t]),
    ensures
        r == drawn_extent(trees@, trees@.len() as int),
{
    let mut b: Option<Extent> = None;
    let mut n: usize = 0;
    while n < trees.len()
        invariant
            n <= trees@.len(),
            forall|t: int| 0 <= t < trees@.len() ==> complete(#[trigger] trees@[t]),
            b == drawn_extent(trees@, n as int),
        decreases trees@.len() - n,
    {
        let t = &trees[n];
        let ghost start = b;
        let mut k: usize = 0;
        while k < t.frames.len()
            invariant
                k <= t.frames@.len(),
                complete(*t),
                b == grown_frames(start, *t, k as int),
            decreases t.frames@.len() - k,
        {
            proof {
                assert(t.frames@[k as int].shadow@.len() == t.depths@.len());
            }
            b = grow_frame(b, &t.frames[k], &t.leaves);
            k = k + 1;
        }
        n = n + 1;
    }
    b
}

/// Lexicographic order of tiles.
pub open spec fn tile_less(a: (i32, i32), b: (i32, i32)) -> bool {
    a.0 < b.0 || (a.0 == b.0 && a.1 < b.1)
}

/// A tile lies within a square ring of an anchor.
pub open spec fn near(anchor: (i32, i32), radius: int, t: (i32, i32)) -> bool {
    anchor.0 - radius <= t.0 <= anchor.0 + radius && anchor.1 - radius <= t.1 <= anchor.1 + radius
}

/// Strictly ascending tiles.
pub open spec fn tiles_ascend(tiles: Seq<(i32, i32)>) -> bool {
    forall|i: int, j: int| 0 <= i < j < tiles.len() ==> tile_less(#[trigger] tiles[i], #[trigger] tiles[j])
}

/// A tile lies near one of the anchors.
pub open spec fn on_ground(anchors: Seq<(i32, i32)>, radius: int, t: (i32, i32)) -> bool {
    exists|k: int| 0 <= k < anchors.len() && near(#[trigger] anchors[k], radius, t)
}

fn insert_tile(tiles: &mut Vec<(i32, i32)>, t: (i32, i32))
    requires
        tiles_ascend(old(tiles)@),
    ensures
        tiles_ascend(final(tiles)@),
        forall|x: (i32, i32)|
            #[trigger] final(tiles)@.contains(x) <==> (old(tiles)@.contains(x) || x == t),
{
    let mut i: usize = 0;
    while i < tiles.len() && (tiles[i].0 < t.0 || (tiles[i].0 == t.0 && tiles[i].1 < t.1))
        invariant
            i <= tiles@.len(),
            tiles@ == old(tiles)@,
            forall|j: int| 0 <= j < i ==> tile_less(#[trigger] tiles@[j], t),
        decreases tiles@.len() - i,
    {
        i = i + 1;
    }
    let ghost before = tiles@;
    if i < tiles.len() && tiles[i].0 == t.0 && tiles[i].1 == t.1 {
        proof {
            assert(before[i as int] == t);
        }
        return;
    }
    tiles.insert(i, t);
    proof {
        let after = tiles@;
        assert forall|x: int| 0 <= x < after.len() && x != i implies (#[trigger] after[x]) == (if x
            < i {
            before[x]
        } else {
            before[x - 1]
        }) by {}
        assert forall|a: int, b: int| 0 <= a < b < after.len() implies tile_less(
            #[trigger] after[a],
            #[trigger] after[b],
        ) by {
            let ai = if a < i {
                a
            } else {
                a - 1
            };
            let bi = if b < i {
                b
            } else {
                b - 1
            };
            if a == i {
                assert(tile_less(t, before[i as int]));
                if bi > i {
                    assert(tile_less(before[i as int], before[bi]));
                }
            } else if b == i {
                assert(tile_less(before[ai], t));
            } else {
                assert(tile_less(before[ai], before[bi]));
            }
        }
        assert forall|x: (i32, i32)| #[trigger] after.contains(x) <==> (before.contains(x) || x
            == t) by {
            if before.contains(x) {
                let k = choose|k: int| 0 <= k < before.len() && before[k] == x;
                assert(after[if k < i {
                    k
                } else {
                    k + 1
                }] == x);
            }
            if x == t {
                assert(after[i as int] == t);
            }
            if after.contains(x) {
                let k = choose|k: int| 0 <= k < after.len() && after[k] == x;
                if k != i {
                    assert(before[if k < i {
                        k
                    } else {
                        k - 1
                    }] == x);
                }
            }
        }
    }
}

/// The ground tiles: every tile within the radius of an anchor, once
/// each, in ascending order.
pub fn ground_tiles(anchors: &Vec<(i32, i32)>, radius: i32) -> (r: Vec<(i32, i32)>)
    requires
        0 <= radius,
        forall|k: int|
            #![trigger anchors@[k]]
            0 <= k < anchors@.len() ==> i32::MIN <= anchors@[k].0 - radius && anchors@[k].0 + radius
                < i32::MAX && i32::MIN <= anchors@[k].1 - radius && anchors@[k].1 + radius < i32::MAX,
    ensures
        tiles_ascend(r@),
        forall|t: (i32, i32)| #[trigger] r@.contains(t) <==> on_ground(anchors@, radius as int, t),
{
    let mut out: Vec<(i32, i32)> = Vec::new();
    let mut k: usize = 0;
    while k < anchors.len()
        invariant
            k <= anchors@.len(),
            0 <= radius,
            forall|k: int|
                #![trigger anchors@[k]]
                0 <= k < anchors@.len() ==> i32::MIN <= anchors@[k].0 - radius && anchors@[k].0
                    + radius < i32::MAX && i32::MIN <= anchors@[k].1 - radius && anchors@[k].1
                    + radius < i32::MAX,
            tiles_ascend(out@),
            forall|t: (i32, i32)|
                #[trigger] out@.contains(t) <==> on_ground(
                    anchors@.take(k as int),
                    radius as int,
                    t,
                ),
        decreases anchors@.len() - k,
    {
        let a = anchors[k];
        let ghost done = anchors@.take(k as int);
        let mut i: i32 = a.0 - radius;
        while i <= a.0 + radius
            invariant
                a == anchors@[k as int],
                k < anchors@.len(),
                0 <= radius,
                i32::MIN <= a.0 - radius,
                a.0 + radius < i32::MAX,
                i32::MIN <= a.1 - radius,
                a.1 + radius < i32::MAX,
                a.0 - radius <= i <= a.0 + radius + 1,
                tiles_ascend(out@),
                forall|t: (i32, i32)|
                    #[trigger] out@.contains(t) <==> (on_ground(done, radius as int, t) || (near(
                        a,
                        radius as int,
                        t,
                    ) && t.0 < i)),
            decreases a.0 + radius + 1 - i,
        {
            let mut j: i32 = a.1 - radius;
            while j <= a.1 + radius
                invariant
                    a == anchors@[k as int],
                    0 <= radius,
                    i32::MIN <= a.0 - radius,
                    a.0 + radius < i32::MAX,
                    i32::MIN <= a.1 - radius,
                    a.1 + radius < i32::MAX,
                    a.0 - radius <= i <= a.0 + radius,
                    a.1 - radius <= j <= a.1 + radius + 1,
                    tiles_ascend(out@),
                    forall|t: (i32, i32)|
                        #[trigger] out@.contains(t) <==> (on_ground(done, radius as int, t) || (near(
                            a,
                            radius as int,
                            t,
                        ) && (t.0 < i || (t.0 == i && t.1 < j)))),
                decreases a.1 + radius + 1 - j,
            {
                insert_tile(&mut out, (i, j));
                j = j + 1;
            }
            i = i + 1;
        }
        proof {
            let more = anchors@.take(k + 1);
            assert(more =~= done.push(a));
            assert forall|t: (i32, i32)| on_ground(more, radius as int, t) <==> (#[trigger] on_ground(
                done,
                radius as int,
                t,
            ) || near(a, radius as int, t)) by {
                if on_ground(done, radius as int, t) {
                    let m = choose|m: int|
                        0 <= m < done.len() && near(#[trigger] done[m], radius as int, t);
                    assert(more[m] == done[m]);
                }
                if near(a, radius as int, t) {
                    assert(more[k as int] == a);
                }
                if on_ground(more, radius as int, t) {
                    let m = choose|m: int|
                        0 <= m < more.len() && near(#[trigger] more[m], radius as int, t);
                    if m < k {
                        assert(done[m] == more[m]);
                    }
                }
            }
            assert forall|t: (i32, i32)| #[trigger] out@.contains(t) <==> on_ground(
                more,
                radius as int,
                t,
            ) by {
                assert(on_ground(more, radius as int, t) <==> (on_ground(done, radius as int, t)
                    || near(a, radius as int, t)));
            }
        }
        k = k + 1;
    }
    proof {
        assert(anchors@.take(k as int) =~= anchors@);
    }
    out
}

// ---------------------------------------------------------------------------
// Writing
// ---------------------------------------------------------------------------

/// The root element and provenance.
pub open spec fn head_parts(meta: RenderMeta, f: Frame) -> Seq<Seq<char>> {
    seq![
        "<svg xmlns=\"http://www.w3.org/2000/svg\" viewBox=\""@,
        f.min_x@,
        " "@,
        f.min_y@,
        " "@,
        f.width@,
        " "@,
        f.height@,
        "\" width=\""@,
        f.width@,
        "\" height=\""@,
        f.height@,
        "\">\n  <title>bw-tree-gallery: "@,
        escaped(meta.scene@),
        "</title>\n  <desc>Procedural golden-ratio tree (fork spread pi-137.5deg = 42.49deg, side length ratio 1/phi), tactical camera pitch 36deg yaw 45deg, seed "@,
        dec(meta.seed as nat),
        ".</desc>\n"@,
    ]
}

/// The sky and the start of the ground.
pub open spec fn sky_parts(f: Frame) -> Seq<Seq<char>> {
    seq![
        "  <defs><linearGradient id=\"sky\" x1=\"0\" y1=\"0\" x2=\"0\" y2=\"1\">\n    <stop offset=\"0\" stop-color=\"#cfe7f7\"/>\n    <stop offset=\"1\" stop-color=\"#eef8e6\"/>\n  </linearGradient></defs>\n  <rect x=\""@,
        f.min_x@,
        "\" y=\""@,
        f.min_y@,
        "\" width=\""@,
        f.width@,
        "\" height=\""@,
        f.height@,
        "\" fill=\"url(#sky)\"/>\n  <g stroke=\"#3f7534\" stroke-width=\"1.5\">\n"@,
    ]
}

/// A checkerboard fill.
pub open spec fn tile_fill(t: (i32, i32)) -> Seq<char> {
    if (t.0 + t.1) % 2 == 0 {
        "#63a84c"@
    } else {
        "#4d8e3b"@
    }
}

/// One ground tile.
pub open spec fn tile_parts(t: (i32, i32), q: TileQuad) -> Seq<Seq<char>> {
    seq![
        "    <polygon points=\""@,
        q.x0@,
        ","@,
        q.y0@,
        " "@,
        q.x1@,
        ","@,
        q.y1@,
        " "@,
        q.x2@,
        ","@,
        q.y2@,
        " "@,
        q.x3@,
        ","@,
        q.y3@,
        "\" fill=\""@,
        tile_fill(t),
        "\"/>\n"@,
    ]
}

/// The first `n` ground tiles.
pub open spec fn tiles_parts(tiles: Seq<(i32, i32)>, quads: Seq<TileQuad>, n: int) -> Seq<Seq<char>>
    decreases n,
{
    if n <= 0 {
        Seq::empty()
    } else {
        tiles_parts(tiles, quads, n - 1) + tile_parts(tiles[n - 1], quads[n - 1])
    }
}

/// The opacity of a group.
pub open spec fn group_opacity(g: Group) -> Seq<char> {
    match g {
        Group::Shadow => "0.16"@,
        Group::Branch => "1.00"@,
        Group::CanopyDark => "0.90"@,
        Group::CanopyLight => "0.95"@,
    }
}

/// One element; nothing when it has no frames.
pub open spec fn element_parts(e: Element, t: Option<Timing>) -> Seq<Seq<char>> {
    if e.frames@.len() == 0 {
        Seq::empty()
    } else {
        seq![
            "    <path d=\""@,
            e.frames@[0]@,
            "\" stroke=\""@,
            e.stroke@,
            "\" stroke-width=\""@,
            e.width@,
            "\" opacity=\""@,
            group_opacity(e.group),
            "\">\n"@,
        ] + motion_parts("      "@, t, e.frames@) + seq!["    </path>\n"@]
    }
}

/// The elements of one group among the first `n`.
pub open spec fn group_parts(elements: Seq<Element>, g: Group, t: Option<Timing>, n: int) -> Seq<
    Seq<char>,
>
    decreases n,
{
    if n <= 0 {
        Seq::empty()
    } else {
        let front = group_parts(elements, g, t, n - 1);
        if elements[n - 1].group == g {
            front + element_parts(elements[n - 1], t)
        } else {
            front
        }
    }
}

/// One group, wrapped.
pub open spec fn layer_parts(elements: Seq<Element>, g: Group, t: Option<Timing>) -> Seq<Seq<char>> {
    seq!["  <g fill=\"none\" stroke-linecap=\"round\" stroke-linejoin=\"round\">\n"@] + group_parts(
        elements,
        g,
        t,
        elements.len() as int,
    ) + seq!["  </g>\n"@]
}

/// The caption and the end of the document.
pub open spec fn caption_parts(meta: RenderMeta, f: Frame) -> Seq<Seq<char>> {
    seq![
        "  <text x=\""@,
        f.caption_x@,
        "\" y=\""@,
        f.caption_y@,
        "\" font-family=\"monospace\" font-size=\"15\" fill=\"#33402a\">"@,
        escaped(meta.scene@),
        " &#183; seed "@,
        dec(meta.seed as nat),
        " &#183; golden-angle forking &#183; pitch 36&#176; yaw 45&#176;</text>\n</svg>\n"@,
    ]
}

/// The whole render.
pub open spec fn tree_document(
    elements: Seq<Element>,
    tiles: Seq<(i32, i32)>,
    quads: Seq<TileQuad>,
    f: Frame,
    meta: RenderMeta,
    t: Option<Timing>,
) -> Seq<char> {
    joined(
        head_parts(meta, f) + sky_parts(f) + tiles_parts(tiles, quads, tiles.len() as int) + seq![
            "  </g>\n"@,
        ] + layer_parts(elements, Group::Shadow, t) + layer_parts(elements, Group::Branch, t)
            + layer_parts(elements, Group::CanopyDark, t) + layer_parts(
            elements,
            Group::CanopyLight,
            t,
        ) + caption_parts(meta, f),
    )
}

fn put_head(d: &mut Doc, meta: &RenderMeta, f: &Frame)
    requires
        old(d).wf(),
    ensures
        final(d).wf(),
        final(d)@ == old(d)@ + head_parts(*meta, *f),
{
    let scene = xml_escape(meta.scene);
    d.put("<svg xmlns=\"http://www.w3.org/2000/svg\" viewBox=\"");
    d.put(f.min_x.as_str());
    d.put(" ");
    d.put(f.min_y.as_str());
    d.put(" ");
    d.put(f.width.as_str());
    d.put(" ");
    d.put(f.height.as_str());
    d.put("\" width=\"");
    d.put(f.width.as_str());
    d.put("\" height=\"");
    d.put(f.height.as_str());
    d.put("\">\n  <title>bw-tree-gallery: ");
    d.put(scene.as_str());
    d.put(
        "</title>\n  <desc>Procedural golden-ratio tree (fork spread pi-137.5deg = 42.49deg, side length ratio 1/phi), tactical camera pitch 36deg yaw 45deg, seed ",
    );
    d.put_dec(meta.seed);
    d.put(".</desc>\n");
    proof {
        assert(d@ =~= old(d)@ + head_parts(*meta, *f));
    }
}

fn put_sky(d: &mut Doc, f: &Frame)
    requires
        old(d).wf(),
    ensures
        final(d).wf(),
        final(d)@ == old(d)@ + sky_parts(*f),
{
    d.put(
        "  <defs><linearGradient id=\"sky\" x1=\"0\" y1=\"0\" x2=\"0\" y2=\"1\">\n    <stop offset=\"0\" stop-color=\"#cfe7f7\"/>\n    <stop offset=\"1\" stop-color=\"#eef8e6\"/>\n  </linearGradient></defs>\n  <rect x=\"",
    );
    d.put(f.min_x.as_str());
    d.put("\" y=\"");
    d.put(f.min_y.as_str());
    d.put("\" width=\"");
    d.put(f.width.as_str());
    d.put("\" height=\"");
    d.put(f.height.as_str());
    d.put("\" fill=\"url(#sky)\"/>\n  <g stroke=\"#3f7534\" stroke-width=\"1.5\">\n");
    proof {
        assert(d@ =~= old(d)@ + sky_parts(*f));
    }
}

fn put_tile(d: &mut Doc, t: (i32, i32), q: &TileQuad)
    requires
        old(d).wf(),
    ensures
        final(d).wf(),
        final(d)@ == old(d)@ + tile_parts(t, *q),
{
    d.put("    <polygon points=\"");
    d.put(q.x0.as_str());
    d.put(",");
    d.put(q.y0.as_str());
    d.put(" ");
    d.put(q.x1.as_str());
    d.put(",");
    d.put(q.y1.as_str());
    d.put(" ");
    d.put(q.x2.as_str());
    d.put(",");
    d.put(q.y2.as_str());
    d.put(" ");
    d.put(q.x3.as_str());
    d.put(",");
    d.put(q.y3.as_str());
    d.put("\" fill=\"");
    if (t.0 as i64 + t.1 as i64) % 2 == 0 {
        d.put("#63a84c");
    } else {
        d.put("#4d8e3b");
    }
    d.put("\"/>\n");
    proof {
        assert(d@ =~= old(d)@ + tile_parts(t, *q));
    }
}

fn opacity(g: Group) -> (r: &'static str)
    ensures
        r@ == group_opacity(g),
{
    match g {
        Group::Shadow => "0.16",
        Group::Branch => "1.00",
        Group::CanopyDark => "0.90",
        Group::CanopyLight => "0.95",
    }
}

fn put_element(d: &mut Doc, e: &Element, t: &Option<Timing>)
    requires
        old(d).wf(),
    ensures
        final(d).wf(),
        final(d)@ == old(d)@ + element_parts(*e, *t),
{
    if e.frames.len() == 0 {
        proof {
            assert(d@ =~= old(d)@ + element_parts(*e, *t));
        }
        return;
    }
    d.put("    <path d=\"");
    d.put(e.frames[0].as_str());
    d.put("\" stroke=\"");
    d.put(e.stroke.as_str());
    d.put("\" stroke-width=\"");
    d.put(e.width.as_str());
    d.put("\" opacity=\"");
    d.put(opacity(e.group));
    d.put("\">\n");
    put_motion(d, "      ", t, &e.frames);
    d.put("    </path>\n");
    proof {
        assert(d@ =~= old(d)@ + element_parts(*e, *t));
    }
}

fn put_layer(d: &mut Doc, elements: &Vec<Element>, g: Group, t: &Option<Timing>)
    requires
        old(d).wf(),
    ensures
        final(d).wf(),
        final(d)@ == old(d)@ + layer_parts(elements@, g, *t),
{
    d.put("  <g fill=\"none\" stroke-linecap=\"round\" stroke-linejoin=\"round\">\n");
    let ghost start = d@;
    proof {
        assert(d@ =~= start + group_parts(elements@, g, *t, 0));
    }
    let mut n: usize = 0;
    while n < elements.len()
        invariant
            n <= elements@.len(),
            d.wf(),
            d@ == start + group_parts(elements@, g, *t, n as int),
        decreases elements@.len() - n,
    {
        if elements[n].group == g {
            put_element(d, &elements[n], t);
        }
        n = n + 1;
        proof {
            assert(d@ =~= start + group_parts(elements@, g, *t, n as int));
        }
    }
    d.put("  </g>\n");
    proof {
        assert(d@ =~= old(d)@ + layer_parts(elements@, g, *t));
    }
}

fn put_caption(d: &mut Doc, meta: &RenderMeta, f: &Frame)
    requires
        old(d).wf(),
    ensures
        final(d).wf(),
        final(d)@ == old(d)@ + caption_parts(*meta, *f),
{
    let scene = xml_escape(meta.scene);
    d.put("  <text x=\"");
    d.put(f.caption_x.as_str());
    d.put("\" y=\"");
    d.put(f.caption_y.as_str());
    d.put("\" font-family=\"monospace\" font-size=\"15\" fill=\"#33402a\">");
    d.put(scene.as_str());
    d.put(" &#183; seed ");
    d.put_dec(meta.seed);
    d.put(" &#183; golden-angle forking &#183; pitch 36&#176; yaw 45&#176;</text>\n</svg>\n");
    proof {
        assert(d@ =~= old(d)@ + caption_parts(*meta, *f));
    }
}

/// Write the document. Without timing, the first frame stands still.
pub fn emit(
    elements: &Vec<Element>,
    tiles: &Vec<(i32, i32)>,
    quads: &Vec<TileQuad>,
    frame: &Frame,
    meta: &RenderMeta,
    t: &Option<Timing>,
) -> (r: String)
    requires
        tiles@.len() == quads@.len(),
    ensures
        r@ == tree_document(elements@, tiles@, quads@, *frame, *meta, *t),
{
    let mut d = Doc::new();
    put_head(&mut d, meta, frame);
    put_sky(&mut d, frame);
    let ghost start = head_parts(*meta, *frame) + sky_parts(*frame);
    proof {
        assert(d@ =~= start + tiles_parts(tiles@, quads@, 0));
    }
    let mut n: usize = 0;
    while n < tiles.len()
        invariant
            n <= tiles@.len(),
            tiles@.len() == quads@.len(),
            d.wf(),
            d@ == start + tiles_parts(tiles@, quads@, n as int),
        decreases tiles@.len() - n,
    {
        put_tile(&mut d, tiles[n], &quads[n]);
        n = n + 1;
        proof {
            assert(d@ =~= start + tiles_parts(tiles@, quads@, n as int));
        }
    }
    d.put("  </g>\n");
    put_layer(&mut d, elements, Group::Shadow, t);
    put_layer(&mut d, elements, Group::Branch, t);
    put_layer(&mut d, elements, Group::CanopyDark, t);
    put_layer(&mut d, elements, Group::CanopyLight, t);
    put_caption(&mut d, meta, frame);
    proof {
        let ground = tiles_parts(tiles@, quads@, tiles@.len() as int);
        assert((start + ground).push("  </g>\n"@) =~= start + ground + seq!["  </g>\n"@]);
    }
    d.finish()
}

} // verus!
