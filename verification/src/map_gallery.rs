//! The map gallery's scenes: pure parameter sets, and the summary that
//! a headless pass reports of a map.
use vstd::prelude::*;
use crate::map::{GenParams, Terrain, TileMap};
use crate::text::same;

verus! {

use crate::eval::{steady, value};
use crate::map::{count_kind, running_sum, MapModel};

/// The parameters of the dry, paved scene.
pub open spec fn badlands() -> GenParams {
    GenParams {
        width: 64,
        height: 64,
        octaves: 4,
        scale: 0x4120_0000,
        stone_threshold: 0x3EF5_C28F,
        water_fraction: 0x3CA3_D70A,
        temp_base_c: 0x41E0_0000,
        temp_span_c: 0x4100_0000,
        temp_noise_c: 0x4040_0000,
    }
}

/// The parameters of the wet, tropical scene.
pub open spec fn archipelago() -> GenParams {
    GenParams {
        width: 64,
        height: 64,
        octaves: 3,
        scale: 0x40A0_0000,
        stone_threshold: 0x3F2E_147B,
        water_fraction: 0x3E61_47AE,
        temp_base_c: 0x41C0_0000,
        temp_span_c: 0x4080_0000,
        temp_noise_c: 0x3FC0_0000,
    }
}

/// The parameters of the default scene.
pub open spec fn meadow() -> GenParams {
    GenParams {
        width: 64,
        height: 64,
        octaves: 4,
        scale: 0x4100_0000,
        stone_threshold: 0x3F19_999A,
        water_fraction: 0x3DA3_D70A,
        temp_base_c: 0x4170_0000,
        temp_span_c: 0x4160_0000,
        temp_noise_c: 0x4020_0000,
    }
}

/// The scene table: id to parameters.
pub open spec fn scene_params(id: Seq<char>) -> Option<GenParams> {
    if id == "meadow"@ {
        Some(meadow())
    } else if id == "archipelago"@ {
        Some(archipelago())
    } else if id == "badlands"@ {
        Some(badlands())
    } else if id == "blank"@ {
        Some(crate::map::blank_params_spec(64, 64))
    } else {
        None
    }
}

/// The scene ids, in listing order.
pub fn scene_ids() -> (r: Vec<&'static str>)
    ensures
        r@.len() == 4,
        r@[0]@ == "meadow"@,
        r@[1]@ == "archipelago"@,
        r@[2]@ == "badlands"@,
        r@[3]@ == "blank"@,
{
    vec!["meadow", "archipelago", "badlands", "blank"]
}

/// Scene lookup by id. Every scene's parameters can generate a map.
pub fn scene_preset(id: &str) -> (r: Option<GenParams>)
    ensures
        r == scene_params(id@),
        r matches Some(p) ==> p.spec_valid(),
{
    if same(id, "meadow") {
        Some(GenParams::default())
    } else if same(id, "archipelago") {
        Some(
            GenParams {
                width: 64,
                height: 64,
                octaves: 3,
                scale: 0x40A0_0000,
                stone_threshold: 0x3F2E_147B,
                water_fraction: 0x3E61_47AE,
                temp_base_c: 0x41C0_0000,
                temp_span_c: 0x4080_0000,
                temp_noise_c: 0x3FC0_0000,
            },
        )
    } else if same(id, "badlands") {
        Some(
            GenParams {
                width: 64,
                height: 64,
                octaves: 4,
                scale: 0x4120_0000,
                stone_threshold: 0x3EF5_C28F,
                water_fraction: 0x3CA3_D70A,
                temp_base_c: 0x41E0_0000,
                temp_span_c: 0x4100_0000,
                temp_noise_c: 0x4040_0000,
            },
        )
    } else if same(id, "blank") {
        Some(crate::map::blank_params(64, 64))
    } else {
        None
    }
}

/// The layer counts of a map and its checksum.
#[derive(Debug, Clone, Copy, PartialEq, Eq, Structural)]
pub struct Layers {
    pub tiles: usize,
    pub walkable: usize,
    pub soil: usize,
    pub stone: usize,
    pub water: usize,
    pub checksum: u64,
}

/// The counts are those of a map.
pub open spec fn counts(l: Layers, m: MapModel) -> bool {
    &&& l.tiles == m.tiles()
    &&& l.walkable == m.open_count(m.tiles())
    &&& l.soil == count_kind(m.terrain, Terrain::Soil)
    &&& l.stone == count_kind(m.terrain, Terrain::Stone)
    &&& l.water == count_kind(m.terrain, Terrain::Water)
    &&& l.checksum == m.checksum()
}

/// What the headless pass reports: layer counts, the means of the two
/// channels over all tiles as bit patterns, and the map checksum.
#[derive(Debug, Clone, Copy, PartialEq, Eq, Structural)]
pub struct SceneSummary {
    pub tiles: usize,
    pub walkable: usize,
    pub soil: usize,
    pub stone: usize,
    pub water: usize,
    pub mean_temperature_c: u32,
    pub mean_fertility: u32,
    pub checksum: u64,
}

impl SceneSummary {
    /// The summary without the means.
    pub open spec fn layers(&self) -> Layers {
        Layers {
            tiles: self.tiles,
            walkable: self.walkable,
            soil: self.soil,
            stone: self.stone,
            water: self.water,
            checksum: self.checksum,
        }
    }
}

/// The mean of a channel: the sum over the tiles in order, divided by
/// their number, or by one when there is none.
pub open spec fn mean_of<P: Fn((u32, u32)) -> u32, Q: Fn((u32, usize)) -> u32>(
    values: Seq<u32>,
    tiles: usize,
    plus: P,
    over: Q,
) -> u32 {
    value(
        over,
        (
            running_sum(values, plus),
            if tiles == 0 {
                1
            } else {
                tiles
            },
        ),
    )
}

/// The summary of a map.
pub open spec fn summarizes<P: Fn((u32, u32)) -> u32, Q: Fn((u32, usize)) -> u32>(
    s: SceneSummary,
    m: MapModel,
    plus: P,
    over: Q,
) -> bool {
    &&& counts(s.layers(), m)
    &&& s.mean_temperature_c == mean_of(m.temperature, s.tiles, plus, over)
    &&& s.mean_fertility == mean_of(m.fertility, s.tiles, plus, over)
}

/// Summarize a map. `plus` adds two numbers, `over` divides one by a
/// count.
pub fn summarize<P: Fn((u32, u32)) -> u32, Q: Fn((u32, usize)) -> u32>(
    map: &TileMap,
    plus: &P,
    over: &Q,
) -> (r: SceneSummary)
    requires
        map.wf(),
        steady(*plus),
        steady(*over),
    ensures
        summarizes(r, map@, *plus, *over),
{
    let l = count_layers(map);
    let n: usize = if l.tiles == 0 {
        1
    } else {
        l.tiles
    };
    let temperature: u32 = map.temperature_sum(plus);
    let fertility: u32 = map.fertility_sum(plus);
    SceneSummary {
        tiles: l.tiles,
        walkable: l.walkable,
        soil: l.soil,
        stone: l.stone,
        water: l.water,
        mean_temperature_c: (*over)((temperature, n)),
        mean_fertility: (*over)((fertility, n)),
        checksum: l.checksum,
    }
}

/// Count the layers of a map.
pub fn count_layers(map: &TileMap) -> (r: Layers)
    requires
        map.wf(),
    ensures
        counts(r, map@),
{
    Layers {
        tiles: map.tile_count(),
        walkable: map.walkable_count(),
        soil: map.terrain_count(Terrain::Soil),
        stone: map.terrain_count(Terrain::Stone),
        water: map.terrain_count(Terrain::Water),
        checksum: map.checksum(),
    }
}

/// The three terrains partition a layer.
pub proof fn lemma_terrains_partition(layer: Seq<Terrain>)
    ensures
        count_kind(layer, Terrain::Soil) + count_kind(layer, Terrain::Stone) + count_kind(
            layer,
            Terrain::Water,
        ) == layer.len(),
    decreases layer.len(),
{
    if layer.len() > 0 {
        lemma_terrains_partition(layer.drop_last());
    }
}

/// Where nothing stands, the walkable tiles are all but the water.
proof fn lemma_open_is_dry(m: MapModel, n: int)
    requires
        0 <= n <= m.terrain.len(),
        m.occupancy.len() == m.terrain.len(),
        forall|i: int| 0 <= i < m.occupancy.len() ==> #[trigger] m.occupancy[i].spec_bits() == 0,
    ensures
        m.open_count(n) + count_kind(m.terrain.take(n), Terrain::Water) == n,
    decreases n,
{
    if n > 0 {
        lemma_open_is_dry(m, n - 1);
        assert(m.terrain.take(n).drop_last() =~= m.terrain.take(n - 1));
        assert(m.occupancy[n - 1].spec_bits() == 0);
    } else {
        assert(m.terrain.take(0) =~= Seq::<Terrain>::empty());
    }
}

/// Summaries add up: the three terrains partition the tiles, and on a
/// map without occupancy the walkable tiles are all but the water.
pub proof fn lemma_summary_adds_up(s: SceneSummary, m: MapModel)
    requires
        m.wf(),
        counts(s.layers(), m),
    ensures
        s.soil + s.stone + s.water == s.tiles,
        (forall|i: int| 0 <= i < m.tiles() ==> #[trigger] m.occupancy[i].spec_bits() == 0)
            ==> s.walkable == s.tiles - s.water,
{
    lemma_terrains_partition(m.terrain);
    if forall|i: int| 0 <= i < m.tiles() ==> #[trigger] m.occupancy[i].spec_bits() == 0 {
        lemma_open_is_dry(m, m.tiles());
        assert(m.terrain.take(m.tiles()) =~= m.terrain);
    }
}

} // verus!
