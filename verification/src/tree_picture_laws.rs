//! What holds of every picture of trees: all branches, shadows and leaves
//! are drawn, in four layers, over a checkered ground, inside the frame.
use vstd::prelude::*;

verus! {

use crate::doc::{
    holds, joined, lemma_ends_are_held, lemma_holds_through, lemma_joined_append,
    lemma_runs_are_held, lemma_single,
};
use crate::picture_laws::{
    lemma_lines_join_their_points, lemma_paths_move_through_their_frames, motion_text, strokes_of,
    Point,
};
use crate::smil::{motion_parts, Timing};
use crate::text::hex;
use crate::tree_svg::{
    branch_shade, caption_parts, complete, deepest, depth_path, drawn_extent, element_parts, fade,
    group_parts, grown_frames, grown_nodes, head_parts, layer_parts, leaf_path, limb_slots, peopled,
    scene_shown, shade_of, sky_parts, slot_shown, slots_before, tile_fill, tile_parts, tiles_parts,
    tree_document, tree_shown, tree_slots, Element, Extent, Frame, Group, RenderMeta, Slot, Stroke,
    TileQuad, TreeFrame, TreeSample,
};

// ---------------------------------------------------------------------------
// Painting
// ---------------------------------------------------------------------------

/// How an element is painted: its first frame in its color and width, at
/// the opacity of its layer, moving through its frames.
pub open spec fn painted(e: Element, t: Option<Timing>) -> Seq<char> {
    let opacity = match e.group {
        Group::Shadow => "0.16"@,
        Group::Branch => "1.00"@,
        Group::CanopyDark => "0.90"@,
        Group::CanopyLight => "0.95"@,
    };
    if e.frames@.len() == 0 {
        Seq::empty()
    } else {
        joined(
            seq![
                "    <path d=\""@,
                e.frames@[0]@,
                "\" stroke=\""@,
                e.stroke@,
                "\" stroke-width=\""@,
                e.width@,
                "\" opacity=\""@,
                opacity,
                "\">\n"@,
                motion_text("      "@, t, e.frames@),
                "    </path>\n"@,
            ],
        )
    }
}

/// The elements of one layer among the first `n`, painted in order.
pub open spec fn layer(elements: Seq<Element>, g: Group, t: Option<Timing>, n: int) -> Seq<char>
    decreases n,
{
    if n <= 0 {
        Seq::empty()
    } else {
        layer(elements, g, t, n - 1) + if elements[n - 1].group == g {
            painted(elements[n - 1], t)
        } else {
            Seq::empty()
        }
    }
}

/// A layer with its wrapping.
pub open spec fn wrapped(elements: Seq<Element>, g: Group, t: Option<Timing>) -> Seq<char> {
    "  <g fill=\"none\" stroke-linecap=\"round\" stroke-linejoin=\"round\">\n"@ + layer(
        elements,
        g,
        t,
        elements.len() as int,
    ) + "  </g>\n"@
}

proof fn lemma_painted(e: Element, t: Option<Timing>)
    ensures
        joined(element_parts(e, t)) == painted(e, t),
{
    if e.frames@.len() > 0 {
        let a = seq![
            "    <path d=\""@,
            e.frames@[0]@,
            "\" stroke=\""@,
            e.stroke@,
            "\" stroke-width=\""@,
            e.width@,
            "\" opacity=\""@,
            crate::tree_svg::group_opacity(e.group),
            "\">\n"@,
        ];
        let m = motion_parts("      "@, t, e.frames@);
        let z = seq!["    </path>\n"@];
        lemma_paths_move_through_their_frames("      "@, t, e.frames@);
        lemma_joined_append(a + m, z);
        lemma_joined_append(a, m);
        let one = seq![joined(m)];
        lemma_single(joined(m));
        lemma_joined_append(a + one, z);
        lemma_joined_append(a, one);
        assert(a + one + z =~= seq![
            "    <path d=\""@,
            e.frames@[0]@,
            "\" stroke=\""@,
            e.stroke@,
            "\" stroke-width=\""@,
            e.width@,
            "\" opacity=\""@,
            crate::tree_svg::group_opacity(e.group),
            "\">\n"@,
            joined(m),
            "    </path>\n"@,
        ]);
    }
}

proof fn lemma_layer(elements: Seq<Element>, g: Group, t: Option<Timing>, n: int)
    requires
        0 <= n <= elements.len(),
    ensures
        joined(group_parts(elements, g, t, n)) == layer(elements, g, t, n),
    decreases n,
{
    if n > 0 {
        lemma_layer(elements, g, t, n - 1);
        lemma_painted(elements[n - 1], t);
        let front = group_parts(elements, g, t, n - 1);
        lemma_joined_append(front, element_parts(elements[n - 1], t));
        assert(joined(front) + Seq::<char>::empty() =~= joined(front));
    }
}

proof fn lemma_wrapped(elements: Seq<Element>, g: Group, t: Option<Timing>)
    ensures
        joined(layer_parts(elements, g, t)) == wrapped(elements, g, t),
{
    let open = "  <g fill=\"none\" stroke-linecap=\"round\" stroke-linejoin=\"round\">\n"@;
    let close = "  </g>\n"@;
    let all = group_parts(elements, g, t, elements.len() as int);
    lemma_layer(elements, g, t, elements.len() as int);
    lemma_joined_append(seq![open] + all, seq![close]);
    lemma_joined_append(seq![open], all);
    lemma_single(open);
    lemma_single(close);
}

/// The picture is the ground, then shadows, branches, dark canopy and
/// light canopy, then the caption: every element is painted in its layer
/// and in no other.
pub proof fn lemma_layers_are_painted_in_order(
    elements: Seq<Element>,
    tiles: Seq<(i32, i32)>,
    quads: Seq<TileQuad>,
    f: Frame,
    meta: RenderMeta,
    t: Option<Timing>,
)
    ensures
        tree_document(elements, tiles, quads, f, meta, t) == joined(
            head_parts(meta, f) + sky_parts(f) + tiles_parts(tiles, quads, tiles.len() as int),
        ) + "  </g>\n"@ + wrapped(elements, Group::Shadow, t) + wrapped(elements, Group::Branch, t)
            + wrapped(elements, Group::CanopyDark, t) + wrapped(elements, Group::CanopyLight, t)
            + joined(caption_parts(meta, f)),
{
    let ground = head_parts(meta, f) + sky_parts(f) + tiles_parts(tiles, quads, tiles.len() as int);
    let close = seq!["  </g>\n"@];
    let a = layer_parts(elements, Group::Shadow, t);
    let b = layer_parts(elements, Group::Branch, t);
    let c = layer_parts(elements, Group::CanopyDark, t);
    let d = layer_parts(elements, Group::CanopyLight, t);
    let z = caption_parts(meta, f);
    lemma_single("  </g>\n"@);
    lemma_wrapped(elements, Group::Shadow, t);
    lemma_wrapped(elements, Group::Branch, t);
    lemma_wrapped(elements, Group::CanopyDark, t);
    lemma_wrapped(elements, Group::CanopyLight, t);
    lemma_joined_append(ground, close);
    lemma_joined_append(ground + close, a);
    lemma_joined_append(ground + close + a, b);
    lemma_joined_append(ground + close + a + b, c);
    lemma_joined_append(ground + close + a + b + c, d);
    lemma_joined_append(ground + close + a + b + c + d, z);
}

/// Every collected element with a frame is painted.
pub proof fn lemma_every_element_is_painted(
    elements: Seq<Element>,
    tiles: Seq<(i32, i32)>,
    quads: Seq<TileQuad>,
    f: Frame,
    meta: RenderMeta,
    t: Option<Timing>,
    k: int,
)
    requires
        0 <= k < elements.len(),
    ensures
        holds(tree_document(elements, tiles, quads, f, meta, t), painted(elements[k], t)),
{
    let doc = tree_document(elements, tiles, quads, f, meta, t);
    let g = elements[k].group;
    let open = "  <g fill=\"none\" stroke-linecap=\"round\" stroke-linejoin=\"round\">\n"@;
    let ground = head_parts(meta, f) + sky_parts(f) + tiles_parts(tiles, quads, tiles.len() as int)
        + seq!["  </g>\n"@];
    let a = layer_parts(elements, Group::Shadow, t);
    let b = layer_parts(elements, Group::Branch, t);
    let c = layer_parts(elements, Group::CanopyDark, t);
    let d = layer_parts(elements, Group::CanopyLight, t);
    let z = caption_parts(meta, f);
    let all = ground + a + b + c + d + z;
    lemma_runs_are_held(ground, a, b + c + d + z);
    assert(ground + a + (b + c + d + z) =~= all);
    lemma_runs_are_held(ground + a, b, c + d + z);
    assert(ground + a + b + (c + d + z) =~= all);
    lemma_runs_are_held(ground + a + b, c, d + z);
    assert(ground + a + b + c + (d + z) =~= all);
    lemma_runs_are_held(ground + a + b + c, d, z);
    assert(holds(doc, joined(layer_parts(elements, g, t))));
    let inner = group_parts(elements, g, t, elements.len() as int);
    lemma_runs_are_held(seq![open], inner, seq!["  </g>\n"@]);
    lemma_holds_through(doc, joined(layer_parts(elements, g, t)), joined(inner));
    lemma_element_held(elements, g, t, elements.len() as int, k);
    lemma_holds_through(doc, joined(inner), painted(elements[k], t));
}

proof fn lemma_element_held(elements: Seq<Element>, g: Group, t: Option<Timing>, n: int, k: int)
    requires
        0 <= k < n <= elements.len(),
        elements[k].group == g,
    ensures
        holds(joined(group_parts(elements, g, t, n)), painted(elements[k], t)),
    decreases n,
{
    let front = group_parts(elements, g, t, n - 1);
    let last = element_parts(elements[n - 1], t);
    lemma_ends_are_held(front, last);
    if k == n - 1 {
        lemma_painted(elements[k], t);
    } else {
        lemma_element_held(elements, g, t, n - 1, k);
        if elements[n - 1].group == g {
            lemma_holds_through(
                joined(group_parts(elements, g, t, n)),
                joined(front),
                painted(elements[k], t),
            );
        }
    }
}

/// Every ground tile is painted with its four corners.
pub proof fn lemma_every_tile_is_painted(
    elements: Seq<Element>,
    tiles: Seq<(i32, i32)>,
    quads: Seq<TileQuad>,
    f: Frame,
    meta: RenderMeta,
    t: Option<Timing>,
    k: int,
)
    requires
        0 <= k < tiles.len(),
    ensures
        ({
            let q = quads[k];
            holds(
                tree_document(elements, tiles, quads, f, meta, t),
                joined(
                    seq![
                        "    <polygon points=\""@, q.x0@, ","@, q.y0@, " "@, q.x1@, ","@, q.y1@,
                        " "@, q.x2@, ","@, q.y2@, " "@, q.x3@, ","@, q.y3@, "\" fill=\""@,
                        tile_fill(tiles[k]), "\"/>\n"@,
                    ],
                ),
            )
        }),
{
    let doc = tree_document(elements, tiles, quads, f, meta, t);
    let before = head_parts(meta, f) + sky_parts(f);
    let all = tiles_parts(tiles, quads, tiles.len() as int);
    let rest = seq!["  </g>\n"@] + layer_parts(elements, Group::Shadow, t) + layer_parts(
        elements,
        Group::Branch,
        t,
    ) + layer_parts(elements, Group::CanopyDark, t) + layer_parts(elements, Group::CanopyLight, t)
        + caption_parts(meta, f);
    lemma_runs_are_held(before, all, rest);
    assert(before + all + rest =~= before + all + seq!["  </g>\n"@] + layer_parts(
        elements,
        Group::Shadow,
        t,
    ) + layer_parts(elements, Group::Branch, t) + layer_parts(elements, Group::CanopyDark, t)
        + layer_parts(elements, Group::CanopyLight, t) + caption_parts(meta, f));
    lemma_tile_held(tiles, quads, tiles.len() as int, k);
    lemma_holds_through(doc, joined(all), joined(tile_parts(tiles[k], quads[k])));
}

proof fn lemma_tile_held(tiles: Seq<(i32, i32)>, quads: Seq<TileQuad>, n: int, k: int)
    requires
        0 <= k < n <= tiles.len(),
    ensures
        holds(joined(tiles_parts(tiles, quads, n)), joined(tile_parts(tiles[k], quads[k]))),
    decreases n,
{
    let front = tiles_parts(tiles, quads, n - 1);
    lemma_ends_are_held(front, tile_parts(tiles[n - 1], quads[n - 1]));
    if k < n - 1 {
        lemma_tile_held(tiles, quads, n - 1, k);
        lemma_holds_through(
            joined(tiles_parts(tiles, quads, n)),
            joined(front),
            joined(tile_parts(tiles[k], quads[k])),
        );
    }
}

/// The ground is a checkerboard of two greens: tiles that share an edge
/// never share a fill, tiles that share a corner do.
pub proof fn lemma_the_ground_is_checkered(t: (i32, i32), u: (i32, i32))
    ensures
        (t.0 + t.1) % 2 == 0 ==> tile_fill(t) == "#63a84c"@,
        (t.0 + t.1) % 2 != 0 ==> tile_fill(t) == "#4d8e3b"@,
        u.0 == t.0 + 1 && u.1 == t.1 || u.0 == t.0 && u.1 == t.1 + 1 ==> tile_fill(t) != tile_fill(
            u,
        ),
        u.0 == t.0 + 1 && u.1 == t.1 + 1 ==> tile_fill(t) == tile_fill(u),
{
    reveal_strlit("#63a84c");
    reveal_strlit("#4d8e3b");
    assert("#63a84c"@[1] != "#4d8e3b"@[1]);
}

// ---------------------------------------------------------------------------
// Collecting
// ---------------------------------------------------------------------------

/// The strokes of the nodes that lie at a depth.
pub open spec fn at_depth(strokes: Seq<Stroke>, depths: Seq<u8>, d: int) -> spec_fn(int) -> Option<
    (Point, Point),
> {
    |i: int|
        if depths[i] == d {
            Some(strokes[i])
        } else {
            None
        }
}

/// The strokes of the nodes that are leaves.
pub open spec fn at_leaves(strokes: Seq<Stroke>, leaves: Seq<bool>) -> spec_fn(int) -> Option<
    (Point, Point),
> {
    |i: int|
        if leaves[i] {
            Some(strokes[i])
        } else {
            None
        }
}

proof fn lemma_depth_strokes(strokes: Seq<Stroke>, depths: Seq<u8>, d: int, n: int)
    ensures
        depth_path(strokes, depths, d, n) == strokes_of(at_depth(strokes, depths, d), n),
    decreases n,
{
    if n > 0 {
        lemma_depth_strokes(strokes, depths, d, n - 1);
        lemma_lines_join_their_points(strokes[n - 1].0, strokes[n - 1].1);
    }
}

proof fn lemma_leaf_strokes(strokes: Seq<Stroke>, leaves: Seq<bool>, n: int)
    ensures
        leaf_path(strokes, leaves, n) == strokes_of(at_leaves(strokes, leaves), n),
    decreases n,
{
    if n > 0 {
        lemma_leaf_strokes(strokes, leaves, n - 1);
        lemma_lines_join_their_points(strokes[n - 1].0, strokes[n - 1].1);
    }
}

/// An element that stands for some strokes of every frame.
pub open spec fn draws(
    e: Element,
    group: Group,
    stroke: Seq<char>,
    width: Seq<char>,
    frames: int,
    path: spec_fn(int) -> Seq<char>,
) -> bool {
    &&& e.group == group
    &&& e.stroke@ == stroke
    &&& e.width@ == width
    &&& e.frames@.len() == frames
    &&& forall|k: int| 0 <= k < frames ==> (#[trigger] e.frames@[k])@ == path(k)
}

/// The shadows of a tree at a depth, frame by frame.
pub open spec fn shadow_paths(t: TreeSample, d: int) -> spec_fn(int) -> Seq<char> {
    |k: int|
        strokes_of(at_depth(t.frames@[k].shadow@, t.depths@, d), t.depths@.len() as int)
}

/// The branches of a tree at a depth, frame by frame.
pub open spec fn branch_paths(t: TreeSample, d: int) -> spec_fn(int) -> Seq<char> {
    |k: int|
        strokes_of(at_depth(t.frames@[k].branch@, t.depths@, d), t.depths@.len() as int)
}

/// The dark strokes of a tree's leaves, frame by frame.
pub open spec fn dark_paths(t: TreeSample) -> spec_fn(int) -> Seq<char> {
    |k: int| strokes_of(at_leaves(t.frames@[k].dark@, t.leaves@), t.depths@.len() as int)
}

/// The light strokes of a tree's leaves, frame by frame.
pub open spec fn light_paths(t: TreeSample) -> spec_fn(int) -> Seq<char> {
    |k: int| strokes_of(at_leaves(t.frames@[k].light@, t.leaves@), t.depths@.len() as int)
}

/// The limbs of a tree at a depth are drawn: one shadow and one branch
/// element, each with the strokes of all nodes at that depth and of no
/// others, frame by frame, the branch in the color of its depth.
pub proof fn lemma_limbs_are_drawn_by_depth(
    trees: Seq<TreeSample>,
    elements: Seq<Element>,
    i: int,
    node: int,
)
    requires
        scene_shown(trees, elements),
        0 <= i < trees.len(),
        0 <= node < trees[i].depths@.len(),
    ensures
        ({
            let t = trees[i];
            let d = t.depths@[node] as int;
            &&& exists|e: int|
                0 <= e < elements.len() && #[trigger] draws(
                    elements[e],
                    Group::Shadow,
                    "#1e2a17"@,
                    t.widths@[d].0@,
                    t.frames@.len() as int,
                    shadow_paths(t, d),
                )
            &&& exists|e: int|
                0 <= e < elements.len() && #[trigger] draws(
                    elements[e],
                    Group::Branch,
                    branch_shade(d, shade_of(t.depths@)),
                    t.widths@[d].1@,
                    t.frames@.len() as int,
                    branch_paths(t, d),
                )
        }),
{
    let t = trees[i];
    let d = t.depths@[node] as int;
    let n = t.depths@.len() as int;
    let slots = tree_slots(t.depths@);
    let from = slots_before(trees, i);
    lemma_slots_nonnegative(trees, i);
    assert(tree_shown(t, elements, from));
    lemma_deep_enough(t.depths@, n, node);
    assert(peopled(t.depths@, d));
    let at = lemma_limb_slots(t.depths@, deepest(t.depths@, n) + 1, d);
    assert(slots[at] == Slot { group: Group::Shadow, depth: d });
    assert(slots[at + 1] == Slot { group: Group::Branch, depth: d });
    let s = elements[from + at];
    let b = elements[from + (at + 1)];
    assert(slot_shown(t, slots[at], s));
    assert(slot_shown(t, slots[at + 1], b));
    let shadow = shadow_paths(t, d);
    let branch = branch_paths(t, d);
    assert forall|k: int| 0 <= k < t.frames@.len() implies (#[trigger] s.frames@[k])@ == shadow(
        k,
    ) by {
        lemma_depth_strokes(t.frames@[k].shadow@, t.depths@, d, n);
    }
    assert forall|k: int| 0 <= k < t.frames@.len() implies (#[trigger] b.frames@[k])@ == branch(
        k,
    ) by {
        lemma_depth_strokes(t.frames@[k].branch@, t.depths@, d, n);
    }
    assert(draws(
        s,
        Group::Shadow,
        "#1e2a17"@,
        t.widths@[d].0@,
        t.frames@.len() as int,
        shadow,
    ));
    assert(draws(
        b,
        Group::Branch,
        branch_shade(d, shade_of(t.depths@)),
        t.widths@[d].1@,
        t.frames@.len() as int,
        branch,
    ));
}

/// The canopy of a tree is drawn twice over: a wide dark and a narrow
/// light element, each with the strokes of all leaves and of no others.
pub proof fn lemma_canopies_are_drawn(trees: Seq<TreeSample>, elements: Seq<Element>, i: int)
    requires
        scene_shown(trees, elements),
        0 <= i < trees.len(),
    ensures
        ({
            let t = trees[i];
            &&& exists|e: int|
                0 <= e < elements.len() && #[trigger] draws(
                    elements[e],
                    Group::CanopyDark,
                    "#3e7c34"@,
                    "26.0"@,
                    t.frames@.len() as int,
                    dark_paths(t),
                )
            &&& exists|e: int|
                0 <= e < elements.len() && #[trigger] draws(
                    elements[e],
                    Group::CanopyLight,
                    "#57a244"@,
                    "13.0"@,
                    t.frames@.len() as int,
                    light_paths(t),
                )
        }),
{
    let t = trees[i];
    let n = t.depths@.len() as int;
    let slots = tree_slots(t.depths@);
    let from = slots_before(trees, i);
    lemma_slots_nonnegative(trees, i);
    assert(tree_shown(t, elements, from));
    let at = slots.len() - 2;
    assert(slots[at].group == Group::CanopyDark);
    assert(slots[at + 1].group == Group::CanopyLight);
    let s = elements[from + at];
    let b = elements[from + (at + 1)];
    assert(slot_shown(t, slots[at], s));
    assert(slot_shown(t, slots[at + 1], b));
    let dark = dark_paths(t);
    let light = light_paths(t);
    assert forall|k: int| 0 <= k < t.frames@.len() implies (#[trigger] s.frames@[k])@ == dark(
        k,
    ) by {
        lemma_leaf_strokes(t.frames@[k].dark@, t.leaves@, n);
    }
    assert forall|k: int| 0 <= k < t.frames@.len() implies (#[trigger] b.frames@[k])@ == light(
        k,
    ) by {
        lemma_leaf_strokes(t.frames@[k].light@, t.leaves@, n);
    }
    assert(draws(s, Group::CanopyDark, "#3e7c34"@, "26.0"@, t.frames@.len() as int, dark));
    assert(draws(b, Group::CanopyLight, "#57a244"@, "13.0"@, t.frames@.len() as int, light));
}

/// The depths below `d` at which some node lies.
pub open spec fn depths_below(depths: Seq<u8>, d: int) -> Set<int> {
    Set::new(
        |x: int| 0 <= x < d && exists|i: int| 0 <= i < depths.len() && #[trigger] depths[i] == x,
    )
}

/// A tree has two elements for each depth at which a node lies, and two
/// for its canopy.
pub proof fn lemma_trees_have_no_other_elements(depths: Seq<u8>)
    ensures
        depths_below(depths, 256).finite(),
        tree_slots(depths).len() == 2 * depths_below(depths, 256).len() + 2,
{
    let m = deepest(depths, depths.len() as int) + 1;
    lemma_limb_count(depths, m);
    assert(depths_below(depths, 256) =~= depths_below(depths, m)) by {
        assert forall|x: int| depths_below(depths, 256).contains(x) implies depths_below(
            depths,
            m,
        ).contains(x) by {
            let i = choose|i: int| 0 <= i < depths.len() && #[trigger] depths[i] == x;
            lemma_deep_enough(depths, depths.len() as int, i);
        }
        lemma_deepest_bounded(depths, depths.len() as int);
    }
}

proof fn lemma_deepest_bounded(depths: Seq<u8>, n: int)
    ensures
        0 <= deepest(depths, n) <= 255,
    decreases n,
{
    if n > 0 {
        lemma_deepest_bounded(depths, n - 1);
    }
}

proof fn lemma_limb_count(depths: Seq<u8>, d: int)
    requires
        0 <= d,
    ensures
        depths_below(depths, d).finite(),
        limb_slots(depths, d).len() == 2 * depths_below(depths, d).len(),
    decreases d,
{
    if d == 0 {
        assert(depths_below(depths, 0) =~= Set::empty());
    } else {
        lemma_limb_count(depths, d - 1);
        if peopled(depths, d - 1) {
            assert(depths_below(depths, d) =~= depths_below(depths, d - 1).insert(d - 1));
        } else {
            assert(depths_below(depths, d) =~= depths_below(depths, d - 1));
        }
    }
}

proof fn lemma_deep_enough(depths: Seq<u8>, n: int, i: int)
    requires
        0 <= i < n <= depths.len(),
    ensures
        depths[i] <= deepest(depths, n),
        deepest(depths, n) >= 0,
    decreases n,
{
    if i < n - 1 {
        lemma_deep_enough(depths, n - 1, i);
    }
}

proof fn lemma_slots_nonnegative(trees: Seq<TreeSample>, n: int)
    ensures
        slots_before(trees, n) >= 0,
    decreases n,
{
    if n > 0 {
        lemma_slots_nonnegative(trees, n - 1);
    }
}

proof fn lemma_limb_slots(depths: Seq<u8>, upto: int, d: int) -> (at: int)
    requires
        0 <= d < upto,
        peopled(depths, d),
    ensures
        0 <= at,
        at + 1 < limb_slots(depths, upto).len(),
        limb_slots(depths, upto)[at] == (Slot { group: Group::Shadow, depth: d }),
        limb_slots(depths, upto)[at + 1] == (Slot { group: Group::Branch, depth: d }),
    decreases upto,
{
    if d == upto - 1 {
        limb_slots(depths, upto - 1).len() as int
    } else {
        let at = lemma_limb_slots(depths, upto - 1, d);
        assert(limb_slots(depths, upto)[at] == limb_slots(depths, upto - 1)[at]);
        assert(limb_slots(depths, upto)[at + 1] == limb_slots(depths, upto - 1)[at + 1]);
        at
    }
}

/// Branches fade from trunk brown at depth zero to leafy olive at the
/// deepest.
pub proof fn lemma_branches_fade_with_depth(shade: int)
    requires
        shade > 0,
    ensures
        branch_shade(0, shade) == "#"@ + hex(0x6b, 2) + hex(0x4a, 2) + hex(0x2f, 2),
        branch_shade(shade, shade) == "#"@ + hex(0x86, 2) + hex(0x70, 2) + hex(0x3d, 2),
{
    assert(fade(0x6b, 0x86, 0, shade) == 0x6b && fade(0x4a, 0x70, 0, shade) == 0x4a && fade(
        0x2f,
        0x3d,
        0,
        shade,
    ) == 0x2f) by {
        assert(0int / shade == 0) by (nonlinear_arith)
            requires
                shade > 0,
        ;
    }
    assert(27 * shade / shade == 27 && 38 * shade / shade == 38 && 14 * shade / shade == 14)
        by (nonlinear_arith)
        requires
            shade > 0,
    ;
}

/// A channel lies as far between two values as a depth between zero and
/// the deepest, rounded down.
pub open spec fn part_way(channel: int, from: int, to: int, d: int, shade: int) -> bool {
    shade * (channel - from) <= (to - from) * d < shade * (channel - from + 1)
}

/// In between, every channel fades evenly.
pub proof fn lemma_branches_fade_evenly(d: int, shade: int)
    requires
        0 <= d <= shade,
        shade > 0,
    ensures
        exists|r: int, g: int, b: int|
            {
                &&& #[trigger] part_way(r, 0x6b, 0x86, d, shade)
                &&& #[trigger] part_way(g, 0x4a, 0x70, d, shade)
                &&& #[trigger] part_way(b, 0x2f, 0x3d, d, shade)
                &&& branch_shade(d, shade) == "#"@ + hex(r as nat, 2) + hex(g as nat, 2) + hex(
                    b as nat,
                    2,
                )
            },
{
    lemma_fades(0x6b, 0x86, d, shade);
    lemma_fades(0x4a, 0x70, d, shade);
    lemma_fades(0x2f, 0x3d, d, shade);
    let (r, g, b) = (
        fade(0x6b, 0x86, d, shade),
        fade(0x4a, 0x70, d, shade),
        fade(0x2f, 0x3d, d, shade),
    );
    assert(part_way(r, 0x6b, 0x86, d, shade));
    assert(part_way(g, 0x4a, 0x70, d, shade));
    assert(part_way(b, 0x2f, 0x3d, d, shade));
}

proof fn lemma_fades(from: int, to: int, d: int, shade: int)
    requires
        shade > 0,
    ensures
        part_way(fade(from, to, d, shade), from, to, d, shade),
{
    let x = (to - from) * d;
    assert(shade * (x / shade) <= x < shade * (x / shade + 1)) by (nonlinear_arith)
        requires
            shade > 0,
    ;
}

/// The deepest branch of a tree has the last color, and no branch lies
/// beyond it.
pub proof fn lemma_the_deepest_branch_has_the_last_color(depths: Seq<u8>, node: int)
    requires
        0 <= node < depths.len(),
    ensures
        shade_of(depths) >= depths[node],
        shade_of(depths) >= 1,
        shade_of(depths) > 1 ==> peopled(depths, shade_of(depths)),
{
    lemma_deep_enough(depths, depths.len() as int, node);
    lemma_deepest_is_peopled(depths, depths.len() as int);
}

proof fn lemma_deepest_is_peopled(depths: Seq<u8>, n: int)
    requires
        0 <= n <= depths.len(),
    ensures
        deepest(depths, n) > 0 ==> exists|i: int|
            0 <= i < n && #[trigger] depths[i] == deepest(depths, n),
    decreases n,
{
    if n > 0 {
        lemma_deepest_is_peopled(depths, n - 1);
    }
}

// ---------------------------------------------------------------------------
// The frame
// ---------------------------------------------------------------------------

/// A box holds a point.
pub open spec fn inside(b: Extent, p: Point) -> bool {
    b.min_x <= p.0 <= b.max_x && b.min_y <= p.1 <= b.max_y
}

/// A box holds both ends of a stroke.
pub open spec fn holds_stroke(e: Option<Extent>, s: Stroke) -> bool {
    e matches Some(b) && inside(b, s.0) && inside(b, s.1)
}

/// A box that is nowhere smaller.
pub open spec fn wider(a: Option<Extent>, b: Option<Extent>) -> bool {
    a matches Some(x) ==> (b matches Some(y) && y.min_x <= x.min_x && x.max_x <= y.max_x && y.min_y
        <= x.min_y && x.max_y <= y.max_y)
}

proof fn lemma_nodes_widen(e: Option<Extent>, f: TreeFrame, leaves: Seq<bool>, n: int)
    ensures
        wider(e, grown_nodes(e, f, leaves, n)),
    decreases n,
{
    if n > 0 {
        lemma_nodes_widen(e, f, leaves, n - 1);
    }
}

proof fn lemma_nodes_inside(e: Option<Extent>, f: TreeFrame, leaves: Seq<bool>, n: int, i: int)
    requires
        0 <= i < n,
    ensures
        ({
            let b = grown_nodes(e, f, leaves, n);
            &&& holds_stroke(b, f.shadow@[i])
            &&& holds_stroke(b, f.branch@[i])
            &&& leaves[i] ==> holds_stroke(b, f.dark@[i]) && holds_stroke(b, f.light@[i])
        }),
    decreases n,
{
    if i < n - 1 {
        lemma_nodes_inside(e, f, leaves, n - 1, i);
    }
}

proof fn lemma_frames_inside(e: Option<Extent>, t: TreeSample, n: int, k: int, i: int)
    requires
        0 <= k < n <= t.frames@.len(),
        0 <= i < t.leaves@.len(),
    ensures
        ({
            let b = grown_frames(e, t, n);
            let f = t.frames@[k];
            &&& holds_stroke(b, f.shadow@[i])
            &&& holds_stroke(b, f.branch@[i])
            &&& t.leaves@[i] ==> holds_stroke(b, f.dark@[i]) && holds_stroke(b, f.light@[i])
        }),
    decreases n,
{
    let len = t.leaves@.len() as int;
    let front = grown_frames(e, t, n - 1);
    if k == n - 1 {
        lemma_nodes_inside(front, t.frames@[k], t.leaves@, len, i);
    } else {
        lemma_frames_inside(e, t, n - 1, k, i);
        lemma_nodes_widen(front, t.frames@[n - 1], t.leaves@, len);
    }
}

proof fn lemma_frames_widen(e: Option<Extent>, t: TreeSample, n: int)
    requires
        0 <= n <= t.frames@.len(),
    ensures
        wider(e, grown_frames(e, t, n)),
    decreases n,
{
    if n > 0 {
        lemma_frames_widen(e, t, n - 1);
        lemma_nodes_widen(
            grown_frames(e, t, n - 1),
            t.frames@[n - 1],
            t.leaves@,
            t.leaves@.len() as int,
        );
    }
}

/// Everything drawn lies inside the box: shadow and branch of every node
/// of every frame of every tree, and the canopy of its leaves.
pub proof fn lemma_everything_is_inside_the_box(
    trees: Seq<TreeSample>,
    n: int,
    i: int,
    k: int,
    node: int,
)
    requires
        0 <= i < n <= trees.len(),
        0 <= k < trees[i].frames@.len(),
        0 <= node < trees[i].leaves@.len(),
    ensures
        ({
            let b = drawn_extent(trees, n);
            let f = trees[i].frames@[k];
            &&& holds_stroke(b, f.shadow@[node])
            &&& holds_stroke(b, f.branch@[node])
            &&& trees[i].leaves@[node] ==> holds_stroke(b, f.dark@[node]) && holds_stroke(
                b,
                f.light@[node],
            )
        }),
    decreases n,
{
    let front = drawn_extent(trees, n - 1);
    let last = trees[n - 1];
    if i == n - 1 {
        lemma_frames_inside(front, last, last.frames@.len() as int, k, node);
    } else {
        lemma_everything_is_inside_the_box(trees, n - 1, i, k, node);
        lemma_frames_widen(front, last, last.frames@.len() as int);
    }
}

} // verus!
