//! The tactical map render as a document: terrain as one combined path
//! per kind over a soil plate, the tile grid and sector lines, and a
//! caption with full provenance. Grid corners arrive already projected
//! and rounded to screen units.
use vstd::prelude::*;
use vstd::string::*;
use crate::doc::Doc;
use crate::map::{Terrain, Tile, TileMap};
use crate::map_gallery::{count_layers, Layers};
use crate::strokes::{push_at, push_line};
use crate::text::xml_escape;

verus! {

use crate::doc::joined;
use crate::map::MapModel;
use crate::map_gallery::counts;
use crate::strokes::{at, line};
use crate::route::{col, lemma_position, row, tile_at};
use crate::text::{dec, escaped, hex, sdec};

/// Sector lines every eight tiles.
pub const SECTOR: u32 = 8;

/// Provenance carried into the rendered file.
pub struct RenderMeta<'a> {
    pub scene: &'a str,
    pub seed: u64,
}

/// The projected plate: every grid corner in screen units, row-major
/// over `width + 1` columns and `height + 1` rows, and the frame fitted
/// around them.
pub struct Plate {
    pub points: Vec<(i64, i64)>,
    pub min_x: i64,
    pub min_y: i64,
    pub width: i64,
    pub height: i64,
    pub caption_x: i64,
    pub caption_y: i64,
}

/// The projected corner at column `x`, row `z`.
pub open spec fn corner(points: Seq<(i64, i64)>, w: int, x: int, z: int) -> (i64, i64) {
    points[z * (w + 1) + x]
}

/// A tile as a closed subpath.
pub open spec fn tile_quad(points: Seq<(i64, i64)>, w: int, x: int, z: int) -> Seq<char> {
    line(corner(points, w, x, z), corner(points, w, x + 1, z)) + "L"@ + at(
        corner(points, w, x + 1, z + 1),
    ) + "L"@ + at(corner(points, w, x, z + 1)) + "Z"@
}

/// The tiles of one terrain among the first `n` positions.
pub open spec fn layer_path(m: MapModel, points: Seq<(i64, i64)>, kind: Terrain, n: int) -> Seq<char>
    decreases n,
{
    if n <= 0 {
        Seq::empty()
    } else {
        let front = layer_path(m, points, kind, n - 1);
        if m.terrain[n - 1] == kind {
            front + tile_quad(points, m.width(), col(m, n - 1), row(m, n - 1))
        } else {
            front
        }
    }
}

/// The grid lines along columns `0..n` that are (or are not) sector
/// lines.
pub open spec fn column_lines(points: Seq<(i64, i64)>, w: int, h: int, sector: bool, n: int) -> Seq<
    char,
>
    decreases n,
{
    if n <= 0 {
        Seq::empty()
    } else {
        let front = column_lines(points, w, h, sector, n - 1);
        if ((n - 1) % 8 == 0) == sector {
            front + line(corner(points, w, n - 1, 0), corner(points, w, n - 1, h))
        } else {
            front
        }
    }
}

/// The grid lines along rows `0..n`, likewise.
pub open spec fn row_lines(points: Seq<(i64, i64)>, w: int, h: int, sector: bool, n: int) -> Seq<char>
    decreases n,
{
    if n <= 0 {
        Seq::empty()
    } else {
        let front = row_lines(points, w, h, sector, n - 1);
        if ((n - 1) % 8 == 0) == sector {
            front + line(corner(points, w, 0, n - 1), corner(points, w, w, n - 1))
        } else {
            front
        }
    }
}

/// All grid lines of one strength: columns, then rows.
pub open spec fn grid_path(points: Seq<(i64, i64)>, w: int, h: int, sector: bool) -> Seq<char> {
    column_lines(points, w, h, sector, w + 1) + row_lines(points, w, h, sector, h + 1)
}

/// The plate's outline as a closed path.
pub open spec fn outline(points: Seq<(i64, i64)>, w: int, h: int) -> Seq<char> {
    line(corner(points, w, 0, 0), corner(points, w, w, 0)) + "L"@ + at(corner(points, w, w, h))
        + "L"@ + at(corner(points, w, 0, h)) + "Z"@
}

/// The root element and title.
pub open spec fn head_parts(meta: RenderMeta, p: Plate) -> Seq<Seq<char>> {
    seq![
        "<svg xmlns=\"http://www.w3.org/2000/svg\" viewBox=\""@,
        sdec(p.min_x as int),
        " "@,
        sdec(p.min_y as int),
        " "@,
        sdec(p.width as int),
        " "@,
        sdec(p.height as int),
        "\" width=\""@,
        sdec(p.width as int),
        "\" height=\""@,
        sdec(p.height as int),
        "\">\n  <title>bw-map-gallery: "@,
        escaped(meta.scene@),
        "</title>\n"@,
    ]
}

/// The description.
pub open spec fn desc_parts(m: MapModel, s: Layers, meta: RenderMeta) -> Seq<Seq<char>> {
    seq![
        "  <desc>Seeded value-noise tile map, "@,
        dec(m.width() as nat),
        "&#215;"@,
        dec(m.height() as nat),
        " m: "@,
        dec(s.walkable as nat),
        " walkable of "@,
        dec(s.tiles as nat),
        " tiles ("@,
        dec(s.soil as nat),
        " soil / "@,
        dec(s.stone as nat),
        " stone / "@,
        dec(s.water as nat),
        " water). Orthographic projection at azimuth 49&#176; / elevation 15.5&#176; (ADR 0006), seed "@,
        dec(meta.seed as nat),
        ", checksum "@,
        hex(s.checksum as nat, 16),
        ".</desc>\n"@,
    ]
}

/// The paper and the soil plate.
pub open spec fn plate_parts(m: MapModel, p: Plate) -> Seq<Seq<char>> {
    seq![
        "  <rect x=\""@,
        sdec(p.min_x as int),
        "\" y=\""@,
        sdec(p.min_y as int),
        "\" width=\""@,
        sdec(p.width as int),
        "\" height=\""@,
        sdec(p.height as int),
        "\" fill=\"#e9e4d4\"/>\n  <path d=\""@,
        outline(p.points@, m.width(), m.height()),
        "\" fill=\"#5d9c4b\"/>\n"@,
    ]
}

/// One terrain layer; nothing when the map has none of it.
pub open spec fn layer_parts(path: Seq<char>, style: Seq<char>) -> Seq<Seq<char>> {
    if path.len() == 0 {
        Seq::empty()
    } else {
        seq!["  <path d=\""@, path, style]
    }
}

/// How stone is painted.
pub open spec fn stone_style() -> Seq<char> {
    "\" fill=\"#a89f8c\" stroke=\"#8d8471\" stroke-width=\"1.0\" stroke-linejoin=\"round\"/>\n"@
}

/// How water is painted.
pub open spec fn water_style() -> Seq<char> {
    "\" fill=\"#49799c\" stroke=\"#395f80\" stroke-width=\"1.2\" stroke-linejoin=\"round\"/>\n"@
}

/// The grid and the border.
pub open spec fn line_parts(m: MapModel, p: Plate) -> Seq<Seq<char>> {
    seq![
        "  <path d=\""@,
        grid_path(p.points@, m.width(), m.height(), false),
        "\" fill=\"none\" stroke=\"#2c3540\" stroke-width=\"0.5\" opacity=\"0.10\"/>\n  <path d=\""@,
        grid_path(p.points@, m.width(), m.height(), true),
        "\" fill=\"none\" stroke=\"#2c3540\" stroke-width=\"1.2\" opacity=\"0.22\"/>\n  <path d=\""@,
        outline(p.points@, m.width(), m.height()),
        "\" fill=\"none\" stroke=\"#2c3540\" stroke-width=\"3.0\" stroke-linejoin=\"round\"/>\n"@,
    ]
}

/// The caption and the end of the document.
pub open spec fn caption_parts(s: Layers, meta: RenderMeta, p: Plate) -> Seq<Seq<char>> {
    seq![
        "  <text x=\""@,
        sdec(p.caption_x as int),
        "\" y=\""@,
        sdec(p.caption_y as int),
        "\" font-family=\"monospace\" font-size=\"15\" fill=\"#4a4636\">"@,
        escaped(meta.scene@),
        " &#183; seed "@,
        dec(meta.seed as nat),
        " &#183; checksum "@,
        hex(s.checksum as nat, 16),
        " &#183; "@,
        dec(s.walkable as nat),
        "/"@,
        dec(s.tiles as nat),
        " walkable &#183; ortho 49&#176;/15.5&#176;</text>\n</svg>\n"@,
    ]
}

/// The whole render.
pub open spec fn map_document(m: MapModel, s: Layers, meta: RenderMeta, p: Plate) -> Seq<char> {
    joined(
        head_parts(meta, p) + desc_parts(m, s, meta) + plate_parts(m, p) + layer_parts(
            layer_path(m, p.points@, Terrain::Stone, m.tiles()),
            stone_style(),
        ) + layer_parts(layer_path(m, p.points@, Terrain::Water, m.tiles()), water_style())
            + line_parts(m, p) + caption_parts(s, meta, p),
    )
}

/// The plate has a corner for every grid point of the map.
pub open spec fn plate_fits(m: MapModel, p: Plate) -> bool {
    p.points@.len() == (m.width() + 1) * (m.height() + 1)
}

/// A corner of the plate has its place among the points.
proof fn lemma_corner_in_range(w: int, h: int, x: int, z: int)
    requires
        0 <= x <= w,
        0 <= z <= h,
    ensures
        0 <= z * (w + 1),
        0 <= z * (w + 1) + x < (w + 1) * (h + 1),
{
    assert(0 <= z * (w + 1) && z * (w + 1) + x < (w + 1) * (h + 1)) by (nonlinear_arith)
        requires
            0 <= x <= w,
            0 <= z <= h,
    ;
}

/// The projected corner at column `x`, row `z`.
fn corner_at(points: &Vec<(i64, i64)>, w: u32, x: u32, z: u32, Ghost(h): Ghost<int>) -> (r: (
    i64,
    i64,
))
    requires
        points@.len() == (w + 1) * (h + 1),
        x <= w,
        z <= h,
        w < u32::MAX,
    ensures
        r == corner(points@, w as int, x as int, z as int),
{
    let n: usize = points.len();
    proof {
        lemma_corner_in_range(w as int, h, x as int, z as int);
        assert(n == points@.len());
    }
    points[z as usize * (w as usize + 1) + x as usize]
}

/// Append a closed quadrilateral.
fn push_quad(out: &mut String, a: (i64, i64), b: (i64, i64), c: (i64, i64), d: (i64, i64))
    ensures
        final(out)@ == old(out)@ + (line(a, b) + "L"@ + at(c) + "L"@ + at(d) + "Z"@),
{
    push_line(out, a, b);
    out.append("L");
    push_at(out, c);
    out.append("L");
    push_at(out, d);
    out.append("Z");
    proof {
        assert(out@ =~= old(out)@ + (line(a, b) + "L"@ + at(c) + "L"@ + at(d) + "Z"@));
    }
}

/// The combined path of one terrain.
fn layer(map: &TileMap, plate: &Plate, kind: Terrain) -> (r: String)
    requires
        map.wf(),
        plate_fits(map@, *plate),
    ensures
        r@ == layer_path(map@, plate.points@, kind, map@.tiles()),
{
    let ghost m = map@;
    proof {
        map.lemma_cache_is_fresh();
    }
    let w: u32 = map.width();
    let n: usize = map.tile_count();
    let mut out = String::new();
    let mut i: usize = 0;
    while i < n
        invariant
            map.wf(),
            m == map@,
            m.wf(),
            w == m.width(),
            n == m.tiles(),
            i <= n,
            plate_fits(m, *plate),
            out@ == layer_path(m, plate.points@, kind, i as int),
        decreases n - i,
    {
        proof {
            lemma_position(m, i as int);
        }
        let x: u32 = (i % w as usize) as u32;
        let z: u32 = (i / w as usize) as u32;
        let tile: Tile = Tile { x: x as i32, z: z as i32 };
        proof {
            assert(tile == tile_at(m, i as int));
        }
        match map.terrain_at(tile) {
            Some(t) => {
                if t == kind {
                    let ghost h = m.height();
                    let a = corner_at(&plate.points, w, x, z, Ghost(h));
                    let b = corner_at(&plate.points, w, x + 1, z, Ghost(h));
                    let c = corner_at(&plate.points, w, x + 1, z + 1, Ghost(h));
                    let d = corner_at(&plate.points, w, x, z + 1, Ghost(h));
                    push_quad(&mut out, a, b, c, d);
                }
            },
            None => {},
        }
        i = i + 1;
    }
    out
}

/// The combined path of the grid lines of one strength.
fn grid(map: &TileMap, plate: &Plate, sector: bool) -> (r: String)
    requires
        map.wf(),
        plate_fits(map@, *plate),
    ensures
        r@ == grid_path(plate.points@, map@.width(), map@.height(), sector),
{
    let ghost m = map@;
    proof {
        map.lemma_cache_is_fresh();
        let wi = m.width();
        let hi = m.height();
        assert(wi <= wi * hi && hi <= wi * hi) by (nonlinear_arith)
            requires
                wi > 0,
                hi > 0,
        ;
    }
    let w: u32 = map.width();
    let h: u32 = map.height();
    let mut out = String::new();
    let mut g: u32 = 0;
    while g <= w
        invariant
            w == m.width(),
            h == m.height(),
            w <= crate::map::MAX_TILES,
            h <= crate::map::MAX_TILES,
            plate_fits(m, *plate),
            g <= w + 1,
            out@ == column_lines(plate.points@, w as int, h as int, sector, g as int),
        decreases w + 1 - g,
    {
        if (g % SECTOR == 0) == sector {
            let a = corner_at(&plate.points, w, g, 0, Ghost(h as int));
            let b = corner_at(&plate.points, w, g, h, Ghost(h as int));
            push_line(&mut out, a, b);
        }
        g = g + 1;
    }
    let ghost columns = column_lines(plate.points@, w as int, h as int, sector, w + 1);
    g = 0;
    proof {
        assert(out@ =~= columns + row_lines(plate.points@, w as int, h as int, sector, 0));
    }
    while g <= h
        invariant
            w == m.width(),
            h == m.height(),
            w <= crate::map::MAX_TILES,
            h <= crate::map::MAX_TILES,
            plate_fits(m, *plate),
            g <= h + 1,
            out@ == columns + row_lines(plate.points@, w as int, h as int, sector, g as int),
        decreases h + 1 - g,
    {
        if (g % SECTOR == 0) == sector {
            let a = corner_at(&plate.points, w, 0, g, Ghost(h as int));
            let b = corner_at(&plate.points, w, w, g, Ghost(h as int));
            push_line(&mut out, a, b);
            proof {
                assert(out@ =~= columns + row_lines(
                    plate.points@,
                    w as int,
                    h as int,
                    sector,
                    g + 1,
                ));
            }
        }
        g = g + 1;
    }
    out
}

/// The plate's outline.
fn border(map: &TileMap, plate: &Plate) -> (r: String)
    requires
        map.wf(),
        plate_fits(map@, *plate),
    ensures
        r@ == outline(plate.points@, map@.width(), map@.height()),
{
    proof {
        map.lemma_cache_is_fresh();
        let wi = map@.width();
        let hi = map@.height();
        assert(wi <= wi * hi) by (nonlinear_arith)
            requires
                wi > 0,
                hi > 0,
        ;
    }
    let w: u32 = map.width();
    let h: u32 = map.height();
    let a = corner_at(&plate.points, w, 0, 0, Ghost(h as int));
    let b = corner_at(&plate.points, w, w, 0, Ghost(h as int));
    let c = corner_at(&plate.points, w, w, h, Ghost(h as int));
    let d = corner_at(&plate.points, w, 0, h, Ghost(h as int));
    let mut out = String::new();
    push_quad(&mut out, a, b, c, d);
    proof {
        assert(out@ =~= outline(plate.points@, map@.width(), map@.height()));
    }
    out
}

/// Append the root element and title.
fn put_head(d: &mut Doc, meta: &RenderMeta, plate: &Plate)
    requires
        old(d).wf(),
    ensures
        final(d).wf(),
        final(d)@ == old(d)@ + head_parts(*meta, *plate),
{
    let scene = xml_escape(meta.scene);
    d.put("<svg xmlns=\"http://www.w3.org/2000/svg\" viewBox=\"");
    d.put_int(plate.min_x);
    d.put(" ");
    d.put_int(plate.min_y);
    d.put(" ");
    d.put_int(plate.width);
    d.put(" ");
    d.put_int(plate.height);
    d.put("\" width=\"");
    d.put_int(plate.width);
    d.put("\" height=\"");
    d.put_int(plate.height);
    d.put("\">\n  <title>bw-map-gallery: ");
    d.put(scene.as_str());
    d.put("</title>\n");
    proof {
        assert(d@ =~= old(d)@ + head_parts(*meta, *plate));
    }
}

/// Append the description.
fn put_desc(d: &mut Doc, map: &TileMap, s: &Layers, meta: &RenderMeta)
    requires
        old(d).wf(),
    ensures
        final(d).wf(),
        final(d)@ == old(d)@ + desc_parts(map@, *s, *meta),
{
    d.put("  <desc>Seeded value-noise tile map, ");
    d.put_dec(map.width() as u64);
    d.put("&#215;");
    d.put_dec(map.height() as u64);
    d.put(" m: ");
    d.put_dec(s.walkable as u64);
    d.put(" walkable of ");
    d.put_dec(s.tiles as u64);
    d.put(" tiles (");
    d.put_dec(s.soil as u64);
    d.put(" soil / ");
    d.put_dec(s.stone as u64);
    d.put(" stone / ");
    d.put_dec(s.water as u64);
    d.put(
        " water). Orthographic projection at azimuth 49&#176; / elevation 15.5&#176; (ADR 0006), seed ",
    );
    d.put_dec(meta.seed);
    d.put(", checksum ");
    d.put_hex(s.checksum);
    d.put(".</desc>\n");
    proof {
        assert(d@ =~= old(d)@ + desc_parts(map@, *s, *meta));
    }
}

/// Append the paper and the soil plate.
fn put_plate(d: &mut Doc, map: &TileMap, plate: &Plate)
    requires
        old(d).wf(),
        map.wf(),
        plate_fits(map@, *plate),
    ensures
        final(d).wf(),
        final(d)@ == old(d)@ + plate_parts(map@, *plate),
{
    let edge = border(map, plate);
    d.put("  <rect x=\"");
    d.put_int(plate.min_x);
    d.put("\" y=\"");
    d.put_int(plate.min_y);
    d.put("\" width=\"");
    d.put_int(plate.width);
    d.put("\" height=\"");
    d.put_int(plate.height);
    d.put("\" fill=\"#e9e4d4\"/>\n  <path d=\"");
    d.put(edge.as_str());
    d.put("\" fill=\"#5d9c4b\"/>\n");
    proof {
        assert(d@ =~= old(d)@ + plate_parts(map@, *plate));
    }
}

/// Append a terrain layer, if the map has any of it.
fn put_layer(d: &mut Doc, path: &str, style: &str)
    requires
        old(d).wf(),
    ensures
        final(d).wf(),
        final(d)@ == old(d)@ + layer_parts(path@, style@),
{
    if !path.is_empty() {
        d.put("  <path d=\"");
        d.put(path);
        d.put(style);
    }
    proof {
        assert(d@ =~= old(d)@ + layer_parts(path@, style@));
    }
}

/// Append the grid and the border.
fn put_lines(d: &mut Doc, map: &TileMap, plate: &Plate)
    requires
        old(d).wf(),
        map.wf(),
        plate_fits(map@, *plate),
    ensures
        final(d).wf(),
        final(d)@ == old(d)@ + line_parts(map@, *plate),
{
    let tiles = grid(map, plate, false);
    let sectors = grid(map, plate, true);
    let edge = border(map, plate);
    d.put("  <path d=\"");
    d.put(tiles.as_str());
    d.put(
        "\" fill=\"none\" stroke=\"#2c3540\" stroke-width=\"0.5\" opacity=\"0.10\"/>\n  <path d=\"",
    );
    d.put(sectors.as_str());
    d.put(
        "\" fill=\"none\" stroke=\"#2c3540\" stroke-width=\"1.2\" opacity=\"0.22\"/>\n  <path d=\"",
    );
    d.put(edge.as_str());
    d.put(
        "\" fill=\"none\" stroke=\"#2c3540\" stroke-width=\"3.0\" stroke-linejoin=\"round\"/>\n",
    );
    proof {
        assert(d@ =~= old(d)@ + line_parts(map@, *plate));
    }
}

/// Append the caption and end the document.
fn put_caption(d: &mut Doc, s: &Layers, meta: &RenderMeta, plate: &Plate)
    requires
        old(d).wf(),
    ensures
        final(d).wf(),
        final(d)@ == old(d)@ + caption_parts(*s, *meta, *plate),
{
    let scene = xml_escape(meta.scene);
    d.put("  <text x=\"");
    d.put_int(plate.caption_x);
    d.put("\" y=\"");
    d.put_int(plate.caption_y);
    d.put("\" font-family=\"monospace\" font-size=\"15\" fill=\"#4a4636\">");
    d.put(scene.as_str());
    d.put(" &#183; seed ");
    d.put_dec(meta.seed);
    d.put(" &#183; checksum ");
    d.put_hex(s.checksum);
    d.put(" &#183; ");
    d.put_dec(s.walkable as u64);
    d.put("/");
    d.put_dec(s.tiles as u64);
    d.put(" walkable &#183; ortho 49&#176;/15.5&#176;</text>\n</svg>\n");
    proof {
        assert(d@ =~= old(d)@ + caption_parts(*s, *meta, *plate));
    }
}

/// The render as a string: a pure function of map, provenance and plate.
pub fn render_string(map: &TileMap, meta: &RenderMeta, plate: &Plate) -> (r: String)
    requires
        map.wf(),
        plate_fits(map@, *plate),
    ensures
        exists|s: Layers| #[trigger]
            counts(s, map@) && r@ == map_document(map@, s, *meta, *plate),
{
    let s: Layers = count_layers(map);
    let stone = layer(map, plate, Terrain::Stone);
    let water = layer(map, plate, Terrain::Water);
    let mut d = Doc::new();
    put_head(&mut d, meta, plate);
    proof {
        assert(Seq::<Seq<char>>::empty() + head_parts(*meta, *plate) =~= head_parts(*meta, *plate));
    }
    put_desc(&mut d, map, &s, meta);
    put_plate(&mut d, map, plate);
    put_layer(
        &mut d,
        stone.as_str(),
        "\" fill=\"#a89f8c\" stroke=\"#8d8471\" stroke-width=\"1.0\" stroke-linejoin=\"round\"/>\n",
    );
    put_layer(
        &mut d,
        water.as_str(),
        "\" fill=\"#49799c\" stroke=\"#395f80\" stroke-width=\"1.2\" stroke-linejoin=\"round\"/>\n",
    );
    put_lines(&mut d, map, plate);
    put_caption(&mut d, &s, meta, plate);
    proof {
        assert(counts(s, map@));
    }
    d.finish()
}

} // verus!
