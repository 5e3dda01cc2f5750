//! What the readouts say: every line of a block stands in it, and the
//! lines tell the scene, the state and the figure they are about.
use vstd::prelude::*;

verus! {

use crate::bits::f32_lt_spec;
use crate::character::Carry;
use crate::doc::{around, holds, joined, lemma_holds_through};
use crate::mandala_view::MandalaView;
use crate::picture_laws::lemma_lists_hold_their_items;
use crate::text::dec;
use crate::tree_view::Playground;
use crate::view::{block_of, padded, widest};
use crate::walker_view::{Doing, Figure, Viewer};

/// A block holds every one of its lines.
pub proof fn lemma_blocks_hold_their_lines(lines: Seq<Seq<char>>, i: int)
    requires
        0 <= i < lines.len(),
    ensures
        holds(block_of(lines), lines[i]),
{
    let filled = lines.map_values(|s: Seq<char>| padded(s, widest(lines)));
    let line = padded(lines[i], widest(lines));
    assert(filled[i] == line);
    lemma_lists_hold_their_items(filled, "\n"@, i);
    let rest = line.skip(lines[i].len() as int);
    assert(line =~= around(Seq::empty(), lines[i], rest));
    lemma_holds_through(block_of(lines), line, lines[i]);
}

/// The walkers' readout tells the scene and seed, who is selected and
/// under which camera; the speed and the gait it makes, standing below
/// fifteen hundredths and running from two and a tenth; what the figure
/// does and carries; and whether time runs.
pub proof fn lemma_walker_readouts_tell_the_figure(
    scene: Seq<char>,
    seed: u64,
    v: Viewer,
    f: Figure,
    n: crate::walker_view::Printed,
    tick: u64,
    figures: u64,
)
    ensures
        ({
            let block = block_of(
                crate::walker_view::readout_lines(scene, seed, v, f, n, tick, figures),
            );
            let who = match f.id {
                None => "player"@,
                Some(id) => "#"@ + dec(id as nat),
            };
            let gait = if f32_lt_spec(f.speed, 0x3E19_999A) {
                "idle"@
            } else if f32_lt_spec(f.speed, 0x4006_6666) {
                "walk"@
            } else {
                "run"@
            };
            let doing = match f.doing {
                Doing::Air(m) => joined(seq!["air "@, m@, " m"@]),
                Doing::Punch(p) => joined(seq!["punch "@, p@, "%"@]),
                Doing::Reach(p) => joined(seq!["reach "@, p@, "%"@]),
                Doing::Gait => "\u{2014}"@,
            };
            let carry = match f.carry {
                Carry::Chest => joined(seq!["chest "@, n.carry@, "%"@]),
                Carry::Side => joined(seq!["side "@, n.carry@, "%"@]),
                Carry::Nothing => if f32_lt_spec(0x3C23_D70A, f.carry_blend) {
                    joined(seq!["set down "@, n.carry@, "%"@])
                } else {
                    "\u{2014}"@
                },
            };
            &&& holds(
                block,
                joined(
                    seq![
                        "walker-playground  scene "@,
                        scene,
                        "  seed "@,
                        dec(seed as nat),
                        "  sel "@,
                        who,
                        "  "@,
                        if v.ortho {
                            "ortho"@
                        } else {
                            "persp"@
                        },
                    ],
                ),
            )
            &&& holds(
                block,
                joined(
                    seq![
                        "speed "@,
                        n.speed@,
                        " m/s  gait "@,
                        gait,
                        "  action "@,
                        doing,
                        "  carry "@,
                        carry,
                        "  ["@,
                        if v.paused {
                            "PAUSED"@
                        } else {
                            "running"@
                        },
                        "]"@,
                    ],
                ),
            )
            &&& holds(
                block,
                joined(
                    seq![
                        "t "@,
                        n.t@,
                        "s  tick "@,
                        dec(tick as nat),
                        "  alpha "@,
                        n.alpha@,
                        "  heel strikes "@,
                        dec(f.footfalls as nat),
                        "  figures "@,
                        dec(figures as nat),
                    ],
                ),
            )
        }),
{
    let lines = crate::walker_view::readout_lines(scene, seed, v, f, n, tick, figures);
    lemma_blocks_hold_their_lines(lines, 0);
    lemma_blocks_hold_their_lines(lines, 1);
    lemma_blocks_hold_their_lines(lines, 2);
}

/// The trees' readout tells the scene and seed, every knob under its own
/// name, whether time runs, and the clock.
pub proof fn lemma_tree_readouts_tell_the_knobs(
    scene: Seq<char>,
    p: Playground,
    n: crate::tree_view::Printed,
)
    ensures
        ({
            let block = block_of(crate::tree_view::readout_lines(scene, p, n));
            &&& holds(
                block,
                joined(seq!["tree-playground  scene "@, scene, "  seed "@, dec(p.seed as nat)]),
            )
            &&& holds(block, joined(seq!["spread "@, n.spread@, "deg  fork jitter "@, n.jitter@]))
            &&& holds(
                block,
                joined(
                    seq![
                        "wind amp "@,
                        n.amp@,
                        " rad  freq "@,
                        n.freq@,
                        "  canopy "@,
                        n.canopy@,
                        "x  ["@,
                        if p.paused {
                            "PAUSED"@
                        } else {
                            "running"@
                        },
                        "]"@,
                    ],
                ),
            )
            &&& holds(
                block,
                joined(seq!["t "@, n.t@, "s  tick "@, dec(p.ticks as nat), "  alpha "@, n.alpha@]),
            )
        }),
{
    let lines = crate::tree_view::readout_lines(scene, p, n);
    lemma_blocks_hold_their_lines(lines, 0);
    lemma_blocks_hold_their_lines(lines, 1);
    lemma_blocks_hold_their_lines(lines, 2);
    lemma_blocks_hold_their_lines(lines, 3);
}

/// The mandala's readout tells the scene, how many figures walk how many
/// loops, the clock and whether it runs, and how much is drawn: thirteen
/// bones a figure, and one more for its tile.
pub proof fn lemma_mandala_readouts_tell_the_field(
    scene: Seq<char>,
    v: MandalaView,
    loops: u64,
    seed: u64,
    n: crate::mandala_view::Printed,
)
    ensures
        ({
            let block = block_of(crate::mandala_view::readout_lines(scene, v, loops, seed, n));
            &&& holds(
                block,
                joined(
                    seq![
                        "mandala-view  scene "@,
                        scene,
                        "  "@,
                        dec(v.count as nat),
                        " figures  "@,
                        dec(loops as nat),
                        " loops"@,
                    ],
                ),
            )
            &&& holds(
                block,
                joined(
                    seq![
                        "t "@,
                        n.t@,
                        "s  tick "@,
                        n.tick@,
                        "  ["@,
                        if v.paused {
                            "PAUSED"@
                        } else {
                            "running"@
                        },
                        "]  painting re-forms in "@,
                        n.reforms_in@,
                        "s"@,
                    ],
                ),
            )
            &&& holds(
                block,
                joined(
                    seq![
                        dec((v.count * 13) as nat),
                        " bone segments  "@,
                        dec((v.count * 14) as nat),
                        " draw entities  speed "@,
                        n.speed@,
                        " m/s  seed "@,
                        dec(seed as nat),
                    ],
                ),
            )
        }),
{
    let lines = crate::mandala_view::readout_lines(scene, v, loops, seed, n);
    lemma_blocks_hold_their_lines(lines, 0);
    lemma_blocks_hold_their_lines(lines, 1);
    lemma_blocks_hold_their_lines(lines, 2);
}

} // verus!
