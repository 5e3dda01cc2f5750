use vstd::prelude::*;

pub mod args;
pub mod backlog;
pub mod bits;
pub mod budget_laws;
pub mod budgets;
pub mod calendar;
pub mod character;
pub mod chars;
pub mod counting;
pub mod crowd_laws;
pub mod demo;
pub mod digest;
pub mod doc;
pub mod eval;
pub mod figure_laws;
pub mod finding_laws;
pub mod gait;
pub mod gallery;
pub mod gallery_laws;
pub mod grid;
pub mod grid_laws;
pub mod grove;
pub mod grove_laws;
pub mod heading_laws;
pub mod heap;
pub mod mandala;
pub mod mandala_view;
pub mod map;
pub mod map_gallery;
pub mod map_laws;
pub mod map_picture_laws;
pub mod map_svg;
pub mod movement;
pub mod packages;
pub mod particle_laws;
pub mod path;
pub mod perf;
pub mod perf_laws;
pub mod picture_laws;
pub mod playback;
pub mod probe;
pub mod reading_laws;
pub mod readout_laws;
pub mod record;
pub mod report;
pub mod report_laws;
pub mod rng;
pub mod route;
pub mod sim;
pub mod singles;
pub mod smil;
pub mod stats;
pub mod strokes;
pub mod table;
pub mod text;
pub mod text_laws;
pub mod tiles;
pub mod time;
pub mod tree;
pub mod tree_gallery;
pub mod tree_laws;
pub mod tree_picture_laws;
pub mod tree_svg;
pub mod tree_view;
pub mod view;
pub mod viewer_laws;
pub mod walker_picture_laws;
pub mod walker_svg;
pub mod walker_view;
pub mod walkers;
pub mod world_laws;

verus! {

} // verus!
