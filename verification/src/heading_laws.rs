//! What every picture says of itself: the box it shows, the sky that
//! fills it, the scene and the seed it was made from, and which ground
//! lies under the trees.
use vstd::prelude::*;

verus! {

use crate::doc::{holds, joined, lemma_holds_through, lemma_runs_are_held, lemma_stretches_are_held};
use crate::map::MapModel;
use crate::map_gallery::Layers;
use crate::map_svg::map_document;
use crate::smil::Timing;
use crate::text::{dec, escaped, hex, sdec};
use crate::tree_svg::{on_ground, tiles_ascend, tree_document, Frame, Group, TileQuad};
use crate::walker_svg::walker_document;

/// A document holds a stretch of one of its sections.
proof fn lemma_stretch(
    front: Seq<Seq<char>>,
    section: Seq<Seq<char>>,
    rest: Seq<Seq<char>>,
    from: int,
    to: int,
    stretch: Seq<Seq<char>>,
)
    requires
        0 <= from <= to <= section.len(),
        section.subrange(from, to) == stretch,
    ensures
        holds(joined(front + section + rest), joined(stretch)),
{
    lemma_runs_are_held(front, section, rest);
    lemma_stretches_are_held(section, from, to);
    lemma_holds_through(joined(front + section + rest), joined(section), joined(stretch));
}

/// The picture of trees shows the frame's box: it is the view, its width
/// and height are the picture's, and the sky fills it. It tells the scene
/// and the seed at its head and in its caption.
pub proof fn lemma_tree_pictures_say_what_they_show(
    elements: Seq<crate::tree_svg::Element>,
    tiles: Seq<(i32, i32)>,
    quads: Seq<TileQuad>,
    f: Frame,
    meta: crate::tree_svg::RenderMeta,
    t: Option<Timing>,
)
    ensures
        ({
            let doc = tree_document(elements, tiles, quads, f, meta, t);
            &&& holds(
                doc,
                joined(
                    seq![
                        "<svg xmlns=\"http://www.w3.org/2000/svg\" viewBox=\""@,
                        f.min_x@,
                        " "@,
                        f.min_y@,
                        " "@,
                        f.width@,
                        " "@,
                        f.height@,
                        "\" width=\""@,
                        f.width@,
                        "\" height=\""@,
                        f.height@,
                        "\">\n  <title>bw-tree-gallery: "@,
                        escaped(meta.scene@),
                    ],
                ),
            )
            &&& holds(
                doc,
                joined(
                    seq![
                        "</title>\n  <desc>Procedural golden-ratio tree (fork spread pi-137.5deg = 42.49deg, side length ratio 1/phi), tactical camera pitch 36deg yaw 45deg, seed "@,
                        dec(meta.seed as nat),
                        ".</desc>\n"@,
                    ],
                ),
            )
            &&& holds(
                doc,
                joined(
                    seq![
                        f.min_x@,
                        "\" y=\""@,
                        f.min_y@,
                        "\" width=\""@,
                        f.width@,
                        "\" height=\""@,
                        f.height@,
                        "\" fill=\"url(#sky)\"/>\n  <g stroke=\"#3f7534\" stroke-width=\"1.5\">\n"@,
                    ],
                ),
            )
            &&& holds(
                doc,
                joined(
                    seq![
                        "  <text x=\""@,
                        f.caption_x@,
                        "\" y=\""@,
                        f.caption_y@,
                        "\" font-family=\"monospace\" font-size=\"15\" fill=\"#33402a\">"@,
                        escaped(meta.scene@),
                        " &#183; seed "@,
                        dec(meta.seed as nat),
                        " &#183; golden-angle forking &#183; pitch 36&#176; yaw 45&#176;</text>\n</svg>\n"@,
                    ],
                ),
            )
        }),
{
    let none = Seq::<Seq<char>>::empty();
    let a = crate::tree_svg::head_parts(meta, f);
    let b = crate::tree_svg::sky_parts(f);
    let c = crate::tree_svg::tiles_parts(tiles, quads, tiles.len() as int) + seq!["  </g>\n"@]
        + crate::tree_svg::layer_parts(elements, Group::Shadow, t)
        + crate::tree_svg::layer_parts(elements, Group::Branch, t)
        + crate::tree_svg::layer_parts(elements, Group::CanopyDark, t)
        + crate::tree_svg::layer_parts(elements, Group::CanopyLight, t);
    let d = crate::tree_svg::caption_parts(meta, f);
    let all = crate::tree_svg::head_parts(meta, f) + crate::tree_svg::sky_parts(f)
        + crate::tree_svg::tiles_parts(tiles, quads, tiles.len() as int) + seq!["  </g>\n"@]
        + crate::tree_svg::layer_parts(elements, Group::Shadow, t)
        + crate::tree_svg::layer_parts(elements, Group::Branch, t)
        + crate::tree_svg::layer_parts(elements, Group::CanopyDark, t)
        + crate::tree_svg::layer_parts(elements, Group::CanopyLight, t)
        + crate::tree_svg::caption_parts(meta, f);
    assert(all =~= none + a + (b + c + d));
    assert(all =~= a + b + (c + d));
    assert(all =~= (a + b + c) + d + none);
    lemma_stretch(none, a, b + c + d, 0, 14, a.subrange(0, 14));
    assert(a.subrange(0, 14) =~= seq![
        "<svg xmlns=\"http://www.w3.org/2000/svg\" viewBox=\""@,
        f.min_x@,
        " "@,
        f.min_y@,
        " "@,
        f.width@,
        " "@,
        f.height@,
        "\" width=\""@,
        f.width@,
        "\" height=\""@,
        f.height@,
        "\">\n  <title>bw-tree-gallery: "@,
        escaped(meta.scene@),
    ]);
    lemma_stretch(none, a, b + c + d, 14, 17, a.subrange(14, 17));
    assert(a.subrange(14, 17) =~= seq![
        "</title>\n  <desc>Procedural golden-ratio tree (fork spread pi-137.5deg = 42.49deg, side length ratio 1/phi), tactical camera pitch 36deg yaw 45deg, seed "@,
        dec(meta.seed as nat),
        ".</desc>\n"@,
    ]);
    lemma_stretch(a, b, c + d, 1, 9, b.subrange(1, 9));
    assert(b.subrange(1, 9) =~= seq![
        f.min_x@,
        "\" y=\""@,
        f.min_y@,
        "\" width=\""@,
        f.width@,
        "\" height=\""@,
        f.height@,
        "\" fill=\"url(#sky)\"/>\n  <g stroke=\"#3f7534\" stroke-width=\"1.5\">\n"@,
    ]);
    assert(d.subrange(0, 9) =~= d);
    lemma_stretch(a + b + c, d, none, 0, 9, d);
}

/// The ground under the trees is every tile within the ring of an anchor,
/// as far along either axis, and no other; row by row, each once.
pub proof fn lemma_ground_lies_around_the_anchors(
    anchors: Seq<(i32, i32)>,
    radius: int,
    tiles: Seq<(i32, i32)>,
    t: (i32, i32),
    i: int,
    j: int,
)
    requires
        tiles_ascend(tiles),
        0 <= i < j < tiles.len(),
    ensures
        on_ground(anchors, radius, t) <==> exists|k: int|
            #![trigger anchors[k]]
            0 <= k < anchors.len() && -radius <= t.0 - anchors[k].0 <= radius && -radius <= t.1
                - anchors[k].1 <= radius,
        tiles[i].0 <= tiles[j].0,
        tiles[i].0 == tiles[j].0 ==> tiles[i].1 < tiles[j].1,
{
    if on_ground(anchors, radius, t) {
        let k = choose|k: int|
            0 <= k < anchors.len() && crate::tree_svg::near(#[trigger] anchors[k], radius, t);
        assert(-radius <= t.0 - anchors[k].0 <= radius);
    }
    assert(crate::tree_svg::tile_less(tiles[i], tiles[j]));
}

/// The picture of walkers tells the scene and the seed at its head and in
/// its caption.
pub proof fn lemma_walker_pictures_say_what_they_show(
    elements: Seq<crate::walker_svg::Element>,
    meta: crate::walker_svg::RenderMeta,
    t: Option<Timing>,
)
    ensures
        ({
            let doc = walker_document(elements, meta, t);
            &&& holds(
                doc,
                joined(
                    seq![
                        "<svg xmlns=\"http://www.w3.org/2000/svg\" viewBox=\"-1460 -920 2920 1840\" width=\"2920\" height=\"1840\">\n  <title>bw-walker-gallery: "@,
                        escaped(meta.scene@),
                        "</title>\n  <desc>Procedural walk cycle (stick figure, 13 bones, speed-driven gait blend), perspective camera fov 40deg at (13.0, 6.0, 13.0), seed "@,
                        dec(meta.seed as nat),
                    ],
                ),
            )
            &&& holds(
                doc,
                joined(
                    seq![
                        "  <text x=\"-1420\" y=\"900\" font-family=\"monospace\" font-size=\"15\" fill=\"#33402a\">"@,
                        escaped(meta.scene@),
                        " &#183; seed "@,
                        dec(meta.seed as nat),
                        " &#183; procedural gait &#183; fov 40&#176; at (13, 6, 13)</text>\n</svg>\n"@,
                    ],
                ),
            )
        }),
{
    let none = Seq::<Seq<char>>::empty();
    let a = crate::walker_svg::head_parts(meta);
    let b = crate::walker_svg::elements_parts(elements, t, elements.len() as int);
    let c = crate::walker_svg::caption_parts(meta);
    assert(a + b + c =~= none + a + (b + c));
    assert(a + b + c =~= (a + b) + c + none);
    lemma_stretch(none, a, b + c, 0, 4, a.subrange(0, 4));
    assert(a.subrange(0, 4) =~= seq![
        "<svg xmlns=\"http://www.w3.org/2000/svg\" viewBox=\"-1460 -920 2920 1840\" width=\"2920\" height=\"1840\">\n  <title>bw-walker-gallery: "@,
        escaped(meta.scene@),
        "</title>\n  <desc>Procedural walk cycle (stick figure, 13 bones, speed-driven gait blend), perspective camera fov 40deg at (13.0, 6.0, 13.0), seed "@,
        dec(meta.seed as nat),
    ]);
    assert(c.subrange(0, 5) =~= c);
    lemma_stretch(a + b, c, none, 0, 5, c);
}

/// The picture of a map shows the plate's box: it is the view, and its
/// width and height are the picture's. The description ends in the seed
/// and the checksum, and the caption stands where the plate has it.
pub proof fn lemma_map_pictures_say_what_they_show(
    m: MapModel,
    s: Layers,
    meta: crate::map_svg::RenderMeta,
    p: crate::map_svg::Plate,
)
    ensures
        ({
            let doc = map_document(m, s, meta, p);
            &&& holds(
                doc,
                joined(
                    seq![
                        "<svg xmlns=\"http://www.w3.org/2000/svg\" viewBox=\""@,
                        sdec(p.min_x as int),
                        " "@,
                        sdec(p.min_y as int),
                        " "@,
                        sdec(p.width as int),
                        " "@,
                        sdec(p.height as int),
                        "\" width=\""@,
                        sdec(p.width as int),
                        "\" height=\""@,
                        sdec(p.height as int),
                    ],
                ),
            )
            &&& holds(
                doc,
                joined(
                    seq![
                        " water). Orthographic projection at azimuth 49&#176; / elevation 15.5&#176; (ADR 0006), seed "@,
                        dec(meta.seed as nat),
                        ", checksum "@,
                        hex(s.checksum as nat, 16),
                        ".</desc>\n"@,
                    ],
                ),
            )
            &&& holds(
                doc,
                joined(
                    seq![
                        "  <text x=\""@,
                        sdec(p.caption_x as int),
                        "\" y=\""@,
                        sdec(p.caption_y as int),
                        "\" font-family=\"monospace\" font-size=\"15\" fill=\"#4a4636\">"@,
                        escaped(meta.scene@),
                    ],
                ),
            )
        }),
{
    let none = Seq::<Seq<char>>::empty();
    let a = crate::map_svg::head_parts(meta, p);
    let b = crate::map_svg::desc_parts(m, s, meta);
    let stone = crate::map_svg::layer_parts(
        crate::map_svg::layer_path(m, p.points@, crate::map::Terrain::Stone, m.tiles()),
        crate::map_svg::stone_style(),
    );
    let water = crate::map_svg::layer_parts(
        crate::map_svg::layer_path(m, p.points@, crate::map::Terrain::Water, m.tiles()),
        crate::map_svg::water_style(),
    );
    let plate = crate::map_svg::plate_parts(m, p);
    let lines = crate::map_svg::line_parts(m, p);
    let c = plate + stone + water + lines;
    let d = crate::map_svg::caption_parts(s, meta, p);
    let all = a + b + plate + stone + water + lines + d;
    assert(all =~= none + a + (b + c + d));
    assert(all =~= a + b + (c + d));
    assert(all =~= (a + b + c) + d + none);
    lemma_stretch(none, a, b + c + d, 0, 12, a.subrange(0, 12));
    assert(a.subrange(0, 12) =~= seq![
        "<svg xmlns=\"http://www.w3.org/2000/svg\" viewBox=\""@,
        sdec(p.min_x as int),
        " "@,
        sdec(p.min_y as int),
        " "@,
        sdec(p.width as int),
        " "@,
        sdec(p.height as int),
        "\" width=\""@,
        sdec(p.width as int),
        "\" height=\""@,
        sdec(p.height as int),
    ]);
    lemma_stretch(a, b, c + d, 14, 19, b.subrange(14, 19));
    assert(b.subrange(14, 19) =~= seq![
        " water). Orthographic projection at azimuth 49&#176; / elevation 15.5&#176; (ADR 0006), seed "@,
        dec(meta.seed as nat),
        ", checksum "@,
        hex(s.checksum as nat, 16),
        ".</desc>\n"@,
    ]);
    lemma_stretch(a + b + c, d, none, 0, 6, d.subrange(0, 6));
    assert(d.subrange(0, 6) =~= seq![
        "  <text x=\""@,
        sdec(p.caption_x as int),
        "\" y=\""@,
        sdec(p.caption_y as int),
        "\" font-family=\"monospace\" font-size=\"15\" fill=\"#4a4636\">"@,
        escaped(meta.scene@),
    ]);
}

} // verus!
