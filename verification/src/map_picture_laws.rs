//! What holds of every picture of a map: each stone and water tile is
//! painted where it lies, every grid line is drawn, and the caption tells
//! the map's provenance and counts.
use vstd::prelude::*;

verus! {

use crate::doc::{
    holds, joined, lemma_ends_are_held, lemma_holds_through, lemma_runs_are_held,
    lemma_stretches_are_held, around,
};
use crate::map::{MapModel, Terrain};
use crate::map_gallery::Layers;
use crate::map_svg::{
    caption_parts, column_lines, corner, desc_parts, grid_path, head_parts, layer_parts, layer_path,
    line_parts, map_document, outline, plate_parts, row_lines, stone_style, tile_quad, water_style,
    Plate, RenderMeta,
};
use crate::picture_laws::{lemma_lines_join_their_points, stroke_text, Point};
use crate::route::{col, row};
use crate::strokes::at;
use crate::text::{dec, escaped, hex, sdec};

/// The outline of a tile: its four projected corners, closed. Corners
/// stand row by row, one more to a row than there are tiles.
pub open spec fn tile_outline(points: Seq<Point>, w: int, x: int, z: int) -> Seq<char> {
    let a = points[z * (w + 1) + x];
    let b = points[z * (w + 1) + x + 1];
    let c = points[(z + 1) * (w + 1) + x + 1];
    let d = points[(z + 1) * (w + 1) + x];
    stroke_text(a, b) + "L"@ + sdec(c.0 as int) + " "@ + sdec(c.1 as int) + "L"@ + sdec(d.0 as int)
        + " "@ + sdec(d.1 as int) + "Z"@
}

proof fn lemma_quad(points: Seq<Point>, w: int, x: int, z: int)
    ensures
        tile_quad(points, w, x, z) == tile_outline(points, w, x, z),
{
    let a = corner(points, w, x, z);
    let b = corner(points, w, x + 1, z);
    lemma_lines_join_their_points(a, b);
    assert(z * (w + 1) + (x + 1) == z * (w + 1) + x + 1);
    assert(tile_quad(points, w, x, z) =~= tile_outline(points, w, x, z));
}

/// The tiles of one terrain among the first `n`, outlined in order.
pub open spec fn tiles_of(m: MapModel, points: Seq<Point>, kind: Terrain, n: int) -> Seq<char>
    decreases n,
{
    if n <= 0 {
        Seq::empty()
    } else {
        tiles_of(m, points, kind, n - 1) + if m.terrain[n - 1] == kind {
            tile_outline(points, m.width(), (n - 1) % m.width(), (n - 1) / m.width())
        } else {
            Seq::empty()
        }
    }
}

proof fn lemma_layer(m: MapModel, points: Seq<Point>, kind: Terrain, n: int)
    ensures
        layer_path(m, points, kind, n) == tiles_of(m, points, kind, n),
    decreases n,
{
    if n > 0 {
        lemma_layer(m, points, kind, n - 1);
        lemma_quad(points, m.width(), col(m, n - 1), row(m, n - 1));
        let front = tiles_of(m, points, kind, n - 1);
        assert(front + Seq::<char>::empty() =~= front);
    }
}

proof fn lemma_sections(m: MapModel, s: Layers, meta: RenderMeta, p: Plate)
    ensures
        ({
            let doc = map_document(m, s, meta, p);
            &&& holds(doc, joined(head_parts(meta, p)))
            &&& holds(doc, joined(desc_parts(m, s, meta)))
            &&& holds(doc, joined(plate_parts(m, p)))
            &&& holds(
                doc,
                joined(
                    layer_parts(layer_path(m, p.points@, Terrain::Stone, m.tiles()), stone_style()),
                ),
            )
            &&& holds(
                doc,
                joined(
                    layer_parts(layer_path(m, p.points@, Terrain::Water, m.tiles()), water_style()),
                ),
            )
            &&& holds(doc, joined(line_parts(m, p)))
            &&& holds(doc, joined(caption_parts(s, meta, p)))
        }),
{
    let a = head_parts(meta, p);
    let b = desc_parts(m, s, meta);
    let c = plate_parts(m, p);
    let d = layer_parts(layer_path(m, p.points@, Terrain::Stone, m.tiles()), stone_style());
    let e = layer_parts(layer_path(m, p.points@, Terrain::Water, m.tiles()), water_style());
    let f = line_parts(m, p);
    let g = caption_parts(s, meta, p);
    let all = a + b + c + d + e + f + g;
    lemma_ends_are_held(a, b + c + d + e + f + g);
    assert(a + (b + c + d + e + f + g) =~= all);
    lemma_runs_are_held(a, b, c + d + e + f + g);
    assert(a + b + (c + d + e + f + g) =~= all);
    lemma_runs_are_held(a + b, c, d + e + f + g);
    assert(a + b + c + (d + e + f + g) =~= all);
    lemma_runs_are_held(a + b + c, d, e + f + g);
    assert(a + b + c + d + (e + f + g) =~= all);
    lemma_runs_are_held(a + b + c + d, e, f + g);
    assert(a + b + c + d + e + (f + g) =~= all);
    lemma_runs_are_held(a + b + c + d + e, f, g);
    lemma_ends_are_held(a + b + c + d + e + f, g);
}

/// All stone tiles are one gray path and all water tiles one blue path,
/// each with the outlines of just those tiles; a terrain that the map
/// does not have is left out.
pub proof fn lemma_terrains_are_painted(m: MapModel, s: Layers, meta: RenderMeta, p: Plate)
    ensures
        ({
            let doc = map_document(m, s, meta, p);
            let stone = tiles_of(m, p.points@, Terrain::Stone, m.tiles());
            let water = tiles_of(m, p.points@, Terrain::Water, m.tiles());
            &&& stone.len() > 0 ==> holds(
                doc,
                joined(
                    seq![
                        "  <path d=\""@,
                        stone,
                        "\" fill=\"#a89f8c\" stroke=\"#8d8471\" stroke-width=\"1.0\" stroke-linejoin=\"round\"/>\n"@,
                    ],
                ),
            )
            &&& water.len() > 0 ==> holds(
                doc,
                joined(
                    seq![
                        "  <path d=\""@,
                        water,
                        "\" fill=\"#49799c\" stroke=\"#395f80\" stroke-width=\"1.2\" stroke-linejoin=\"round\"/>\n"@,
                    ],
                ),
            )
        }),
{
    lemma_sections(m, s, meta, p);
    lemma_layer(m, p.points@, Terrain::Stone, m.tiles());
    lemma_layer(m, p.points@, Terrain::Water, m.tiles());
}

/// Every tile of a terrain is in that terrain's path, at its own column
/// and row.
pub proof fn lemma_every_tile_of_a_terrain_is_outlined(
    m: MapModel,
    points: Seq<Point>,
    kind: Terrain,
    n: int,
    i: int,
)
    requires
        0 <= i < n,
        m.terrain[i] == kind,
    ensures
        holds(
            layer_path(m, points, kind, n),
            tile_outline(points, m.width(), i % m.width(), i / m.width()),
        ),
    decreases n,
{
    let text = tile_outline(points, m.width(), i % m.width(), i / m.width());
    let all = layer_path(m, points, kind, n);
    let front = layer_path(m, points, kind, n - 1);
    if i == n - 1 {
        lemma_quad(points, m.width(), col(m, i), row(m, i));
        assert(all =~= around(front, text, Seq::empty()));
    } else {
        lemma_every_tile_of_a_terrain_is_outlined(m, points, kind, n - 1, i);
        if m.terrain[n - 1] == kind {
            assert(all =~= around(
                Seq::empty(),
                front,
                tile_quad(points, m.width(), col(m, n - 1), row(m, n - 1)),
            ));
            lemma_holds_through(all, front, text);
        }
    }
}

proof fn lemma_columns(points: Seq<Point>, w: int, h: int, sector: bool, n: int, g: int)
    requires
        0 <= g < n,
        (g % 8 == 0) == sector,
    ensures
        holds(
            column_lines(points, w, h, sector, n),
            stroke_text(points[g], points[h * (w + 1) + g]),
        ),
    decreases n,
{
    let text = stroke_text(points[g], points[h * (w + 1) + g]);
    let all = column_lines(points, w, h, sector, n);
    let front = column_lines(points, w, h, sector, n - 1);
    assert(0 * (w + 1) == 0) by (nonlinear_arith);
    if g == n - 1 {
        lemma_lines_join_their_points(points[g], points[h * (w + 1) + g]);
        assert(all =~= around(front, text, Seq::empty()));
    } else {
        lemma_columns(points, w, h, sector, n - 1, g);
        if ((n - 1) % 8 == 0) == sector {
            assert(all =~= around(
                Seq::empty(),
                front,
                crate::strokes::line(corner(points, w, n - 1, 0), corner(points, w, n - 1, h)),
            ));
            lemma_holds_through(all, front, text);
        }
    }
}

proof fn lemma_rows(points: Seq<Point>, w: int, h: int, sector: bool, n: int, g: int)
    requires
        0 <= g < n,
        (g % 8 == 0) == sector,
    ensures
        holds(
            row_lines(points, w, h, sector, n),
            stroke_text(points[g * (w + 1)], points[g * (w + 1) + w]),
        ),
    decreases n,
{
    let text = stroke_text(points[g * (w + 1)], points[g * (w + 1) + w]);
    let all = row_lines(points, w, h, sector, n);
    let front = row_lines(points, w, h, sector, n - 1);
    if g == n - 1 {
        lemma_lines_join_their_points(points[g * (w + 1)], points[g * (w + 1) + w]);
        assert(all =~= around(front, text, Seq::empty()));
    } else {
        lemma_rows(points, w, h, sector, n - 1, g);
        if ((n - 1) % 8 == 0) == sector {
            assert(all =~= around(
                Seq::empty(),
                front,
                crate::strokes::line(corner(points, w, 0, n - 1), corner(points, w, w, n - 1)),
            ));
            lemma_holds_through(all, front, text);
        }
    }
}

/// Every grid line runs across the whole map, along each column and each
/// row: every eighth among the sector lines, the others among the fine
/// ones.
pub proof fn lemma_every_grid_line_is_drawn(points: Seq<Point>, w: int, h: int, g: int)
    ensures
        0 <= g <= w ==> holds(
            grid_path(points, w, h, g % 8 == 0),
            stroke_text(points[g], points[h * (w + 1) + g]),
        ),
        0 <= g <= h ==> holds(
            grid_path(points, w, h, g % 8 == 0),
            stroke_text(points[g * (w + 1)], points[g * (w + 1) + w]),
        ),
{
    let sector = g % 8 == 0;
    let all = grid_path(points, w, h, sector);
    let a = column_lines(points, w, h, sector, w + 1);
    let b = row_lines(points, w, h, sector, h + 1);
    if 0 <= g <= w {
        lemma_columns(points, w, h, sector, w + 1, g);
        assert(all =~= around(Seq::empty(), a, b));
        lemma_holds_through(all, a, stroke_text(points[g], points[h * (w + 1) + g]));
    }
    if 0 <= g <= h {
        lemma_rows(points, w, h, sector, h + 1, g);
        assert(all =~= around(a, b, Seq::empty()));
        lemma_holds_through(
            all,
            b,
            stroke_text(points[g * (w + 1)], points[g * (w + 1) + w]),
        );
    }
}

/// The plate is outlined by the map's four corners, filled with soil, and
/// bordered; the fine grid is faint and the sector lines stronger.
pub proof fn lemma_plate_and_grid_are_painted(m: MapModel, s: Layers, meta: RenderMeta, p: Plate)
    ensures
        ({
            let doc = map_document(m, s, meta, p);
            let (w, h) = (m.width(), m.height());
            let points = p.points@;
            let c = points[h * (w + 1) + w];
            let d = points[h * (w + 1)];
            let edge = stroke_text(points[0], points[w]) + "L"@ + sdec(c.0 as int) + " "@ + sdec(
                c.1 as int,
            ) + "L"@ + sdec(d.0 as int) + " "@ + sdec(d.1 as int) + "Z"@;
            &&& holds(doc, joined(seq!["\" fill=\"#e9e4d4\"/>\n  <path d=\""@, edge, "\" fill=\"#5d9c4b\"/>\n"@]))
            &&& holds(
                doc,
                joined(
                    seq![
                        "  <path d=\""@,
                        grid_path(points, w, h, false),
                        "\" fill=\"none\" stroke=\"#2c3540\" stroke-width=\"0.5\" opacity=\"0.10\"/>\n  <path d=\""@,
                        grid_path(points, w, h, true),
                        "\" fill=\"none\" stroke=\"#2c3540\" stroke-width=\"1.2\" opacity=\"0.22\"/>\n  <path d=\""@,
                        edge,
                        "\" fill=\"none\" stroke=\"#2c3540\" stroke-width=\"3.0\" stroke-linejoin=\"round\"/>\n"@,
                    ],
                ),
            )
        }),
{
    let doc = map_document(m, s, meta, p);
    let (w, h) = (m.width(), m.height());
    let points = p.points@;
    let c = points[h * (w + 1) + w];
    let d = points[h * (w + 1)];
    let edge = stroke_text(points[0], points[w]) + "L"@ + sdec(c.0 as int) + " "@ + sdec(c.1 as int)
        + "L"@ + sdec(d.0 as int) + " "@ + sdec(d.1 as int) + "Z"@;
    lemma_sections(m, s, meta, p);
    assert(0 * (w + 1) == 0) by (nonlinear_arith);
    lemma_lines_join_their_points(points[0], points[w]);
    assert(outline(points, w, h) =~= edge);
    let plate = plate_parts(m, p);
    lemma_stretches_are_held(plate, 8, 11);
    assert(plate.subrange(8, 11) =~= seq![
        "\" fill=\"#e9e4d4\"/>\n  <path d=\""@,
        edge,
        "\" fill=\"#5d9c4b\"/>\n"@,
    ]);
    lemma_holds_through(doc, joined(plate), joined(plate.subrange(8, 11)));
}

/// The picture tells what it shows: scene, seed and checksum, and how
/// many tiles there are, can be walked, and are of each terrain.
pub proof fn lemma_provenance_is_told(m: MapModel, s: Layers, meta: RenderMeta, p: Plate)
    ensures
        ({
            let doc = map_document(m, s, meta, p);
            &&& holds(
                doc,
                joined(seq!["\">\n  <title>bw-map-gallery: "@, escaped(meta.scene@), "</title>\n"@]),
            )
            &&& holds(
                doc,
                joined(
                    seq![
                        "  <desc>Seeded value-noise tile map, "@,
                        dec(m.width() as nat),
                        "&#215;"@,
                        dec(m.height() as nat),
                        " m: "@,
                        dec(s.walkable as nat),
                        " walkable of "@,
                        dec(s.tiles as nat),
                        " tiles ("@,
                        dec(s.soil as nat),
                        " soil / "@,
                        dec(s.stone as nat),
                        " stone / "@,
                        dec(s.water as nat),
                    ],
                ),
            )
            &&& holds(
                doc,
                joined(
                    seq![
                        escaped(meta.scene@),
                        " &#183; seed "@,
                        dec(meta.seed as nat),
                        " &#183; checksum "@,
                        hex(s.checksum as nat, 16),
                        " &#183; "@,
                        dec(s.walkable as nat),
                        "/"@,
                        dec(s.tiles as nat),
                        " walkable &#183; ortho 49&#176;/15.5&#176;</text>\n</svg>\n"@,
                    ],
                ),
            )
        }),
{
    let doc = map_document(m, s, meta, p);
    lemma_sections(m, s, meta, p);
    let a = head_parts(meta, p);
    lemma_stretches_are_held(a, 12, 15);
    assert(a.subrange(12, 15) =~= seq![
        "\">\n  <title>bw-map-gallery: "@,
        escaped(meta.scene@),
        "</title>\n"@,
    ]);
    lemma_holds_through(doc, joined(a), joined(a.subrange(12, 15)));
    let b = desc_parts(m, s, meta);
    lemma_stretches_are_held(b, 0, 14);
    assert(b.subrange(0, 14) =~= seq![
        "  <desc>Seeded value-noise tile map, "@,
        dec(m.width() as nat),
        "&#215;"@,
        dec(m.height() as nat),
        " m: "@,
        dec(s.walkable as nat),
        " walkable of "@,
        dec(s.tiles as nat),
        " tiles ("@,
        dec(s.soil as nat),
        " soil / "@,
        dec(s.stone as nat),
        " stone / "@,
        dec(s.water as nat),
    ]);
    lemma_holds_through(doc, joined(b), joined(b.subrange(0, 14)));
    let c = caption_parts(s, meta, p);
    lemma_stretches_are_held(c, 5, 15);
    assert(c.subrange(5, 15) =~= seq![
        escaped(meta.scene@),
        " &#183; seed "@,
        dec(meta.seed as nat),
        " &#183; checksum "@,
        hex(s.checksum as nat, 16),
        " &#183; "@,
        dec(s.walkable as nat),
        "/"@,
        dec(s.tiles as nat),
        " walkable &#183; ortho 49&#176;/15.5&#176;</text>\n</svg>\n"@,
    ]);
    lemma_holds_through(doc, joined(c), joined(c.subrange(5, 15)));
}

} // verus!
