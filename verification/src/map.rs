//! The tile map: one row-major index space with terrain, event-driven
//! occupancy, two scalar channels and a derived cost cache that every
//! mutation rebuilds whole. Tile `(x, z)` covers `[x, x+1) x [z, z+1)`.
use vstd::prelude::*;
use crate::bits::{f32_finite, f32_ge, f32_unit, F32_ONE, F32_ZERO};
use crate::digest::{step, FNV_OFFSET};
use crate::rng::{hold, splitmix_mix, GOLDEN_GAMMA};
use crate::singles::one_minus;

verus! {

use crate::bits::{f32_ge_spec, f32_in_unit, f32_is_finite, f32_key};
use crate::digest::{fold_words, lemma_fold_push, two64};
use crate::eval::{steady, value};
use crate::rng::{held, splitmix_mix_spec};
use crate::singles::complement;

/// Largest map, in tiles.
pub const MAX_TILES: u32 = 0x0100_0000;

/// A tile address in map-local grid coordinates.
#[derive(Debug, Clone, Copy, PartialEq, Eq, Hash, PartialOrd, Ord, Default, Structural)]
pub struct Tile {
    pub x: i32,
    pub z: i32,
}

/// The ground itself.
#[derive(Debug, Clone, Copy, PartialEq, Eq, Default, Structural)]
pub enum Terrain {
    /// Default ground.
    #[default]
    Soil,
    /// Paved: slightly faster to walk.
    Stone,
    /// Ponds: blocking.
    Water,
}

impl Terrain {
    /// The fixed-point step cost (tenths); zero means blocked.
    pub open spec fn spec_cost(self) -> u8 {
        match self {
            Terrain::Soil => 10,
            Terrain::Stone => 9,
            Terrain::Water => 0,
        }
    }

    /// The layer code folded into checksums.
    pub open spec fn spec_code(self) -> u64 {
        match self {
            Terrain::Soil => 0,
            Terrain::Stone => 1,
            Terrain::Water => 2,
        }
    }

    /// Pathfinding cost in fixed point (tenths: 10 is one full step).
    /// Zero is reserved for blocked ground.
    pub fn cost(self) -> (r: u8)
        ensures
            r == self.spec_cost(),
    {
        match self {
            Terrain::Soil => 10,
            Terrain::Stone => 9,
            Terrain::Water => 0,
        }
    }

    /// The layer code folded into checksums.
    pub fn code(self) -> (r: u64)
        ensures
            r == self.spec_code(),
    {
        match self {
            Terrain::Soil => 0,
            Terrain::Stone => 1,
            Terrain::Water => 2,
        }
    }
}

/// Event-driven state on top of terrain, as bit flags.
#[derive(Debug, Clone, Copy, PartialEq, Eq, Default, Structural)]
pub struct Occupancy(u8);

impl Occupancy {
    /// The raw flag bits.
    pub closed spec fn spec_bits(self) -> u8 {
        self.0
    }

    /// The value with no flags.
    pub closed spec fn spec_empty() -> Occupancy {
        Occupancy(0)
    }

    /// Flags are identified by their bits, and the empty value has none.
    pub proof fn lemma_bits_identify(a: Occupancy, b: Occupancy)
        ensures
            a.spec_bits() == b.spec_bits() ==> a == b,
            Occupancy::spec_empty().spec_bits() == 0,
    {
    }

    /// No flags.
    pub fn empty() -> (r: Occupancy)
        ensures
            r == Occupancy::spec_empty(),
            r.spec_bits() == 0,
    {
        Occupancy(0)
    }

    /// A completed building footprint: unwalkable.
    pub fn blocked() -> (r: Occupancy)
        ensures
            r.spec_bits() == 1,
    {
        Occupancy(1)
    }

    /// A construction reservation: a ghost, but paths already avoid it.
    pub fn reserved() -> (r: Occupancy)
        ensures
            r.spec_bits() == 2,
    {
        Occupancy(2)
    }

    /// No flag is set.
    pub fn is_empty(self) -> (r: bool)
        ensures
            r == (self.spec_bits() == 0),
    {
        self.0 == 0
    }

    /// Every flag of `other` is set.
    pub fn contains(self, other: Occupancy) -> (r: bool)
        ensures
            r == (self.spec_bits() & other.spec_bits() == other.spec_bits()),
    {
        self.0 & other.0 == other.0
    }

    /// Both sets of flags.
    pub fn insert(self, other: Occupancy) -> (r: Occupancy)
        ensures
            r.spec_bits() == self.spec_bits() | other.spec_bits(),
    {
        Occupancy(self.0 | other.0)
    }

    /// These flags without those of `other`.
    pub fn remove(self, other: Occupancy) -> (r: Occupancy)
        ensures
            r.spec_bits() == self.spec_bits() & !other.spec_bits(),
    {
        Occupancy(self.0 & !other.0)
    }

    /// Raw bits, for checksums and tests.
    pub fn bits(self) -> (r: u8)
        ensures
            r == self.spec_bits(),
    {
        self.0
    }
}

impl std::ops::BitOr for Occupancy {
    type Output = Occupancy;

    fn bitor(self, rhs: Occupancy) -> (r: Occupancy)
        ensures
            r.spec_bits() == self.spec_bits() | rhs.spec_bits(),
    {
        Occupancy(self.0 | rhs.0)
    }
}

impl vstd::std_specs::ops::BitOrSpecImpl for Occupancy {
    open spec fn obeys_bitor_spec() -> bool {
        true
    }

    open spec fn bitor_req(self, rhs: Occupancy) -> bool {
        true
    }

    closed spec fn bitor_spec(self, rhs: Occupancy) -> Occupancy {
        Occupancy(self.0 | rhs.0)
    }
}

impl std::ops::BitOrAssign for Occupancy {
    fn bitor_assign(&mut self, rhs: Occupancy)
        ensures
            final(self).spec_bits() == old(self).spec_bits() | rhs.spec_bits(),
    {
        self.0 = self.0 | rhs.0;
    }
}

/// Generation parameters. The fractional ones are single-precision bit
/// patterns. Every field takes part in the map checksum.
#[derive(Debug, Clone, Copy, PartialEq, Eq, Structural)]
pub struct GenParams {
    /// Grid extents in tiles.
    pub width: u32,
    pub height: u32,
    /// Value-noise octaves per channel.
    pub octaves: u32,
    /// Base feature size in tiles.
    pub scale: u32,
    /// Stone where the stone channel rises to this threshold.
    pub stone_threshold: u32,
    /// Approximate water coverage.
    pub water_fraction: u32,
    /// Temperature at the north edge, in degrees Celsius.
    pub temp_base_c: u32,
    /// North to south temperature span.
    pub temp_span_c: u32,
    /// Temperature noise amplitude.
    pub temp_noise_c: u32,
}

impl GenParams {
    /// What a map can be generated from: positive extent within the tile
    /// cap, 1 to 16 octaves, a positive finite scale, thresholds that are
    /// fractions and finite temperatures with non-negative noise.
    pub open spec fn spec_valid(self) -> bool {
        &&& self.width > 0
        &&& self.height > 0
        &&& self.width as int * self.height as int <= MAX_TILES
        &&& 0 < self.octaves <= 16
        &&& f32_is_finite(self.scale)
        &&& f32_key(self.scale) > 0
        &&& f32_in_unit(self.stone_threshold)
        &&& f32_in_unit(self.water_fraction)
        &&& f32_is_finite(self.temp_base_c)
        &&& f32_is_finite(self.temp_span_c)
        &&& f32_is_finite(self.temp_noise_c)
        &&& f32_key(self.temp_noise_c) >= 0
    }

    /// Whether a map can be generated from these parameters.
    pub fn is_valid(&self) -> (r: bool)
        ensures
            r == self.spec_valid(),
    {
        proof {
            let w = self.width as int;
            let h = self.height as int;
            assert(w * h <= u32::MAX * u32::MAX) by (nonlinear_arith)
                requires
                    0 <= w <= u32::MAX,
                    0 <= h <= u32::MAX,
            ;
        }
        self.width > 0 && self.height > 0 && self.width as u64 * self.height as u64
            <= MAX_TILES as u64 && 0 < self.octaves && self.octaves <= 16 && f32_finite(self.scale)
            && !f32_ge(F32_ZERO, self.scale) && f32_unit(self.stone_threshold) && f32_unit(
            self.water_fraction,
        ) && f32_finite(self.temp_base_c) && f32_finite(self.temp_span_c) && f32_finite(
            self.temp_noise_c,
        ) && f32_ge(self.temp_noise_c, F32_ZERO)
    }
}

impl Default for GenParams {
    /// A 64 by 64 map: four octaves of 8-tile features, stone from 0.60,
    /// 8% water, 15 to 29 degrees with 2.5 degrees of noise.
    fn default() -> (r: GenParams)
        ensures
            r.spec_valid(),
            r == (GenParams {
                width: 64,
                height: 64,
                octaves: 4,
                scale: 0x4100_0000,
                stone_threshold: 0x3F19_999A,
                water_fraction: 0x3DA3_D70A,
                temp_base_c: 0x4170_0000,
                temp_span_c: 0x4160_0000,
                temp_noise_c: 0x4020_0000,
            }),
    {
        GenParams {
            width: 64,
            height: 64,
            octaves: 4,
            scale: 0x4100_0000,
            stone_threshold: 0x3F19_999A,
            water_fraction: 0x3DA3_D70A,
            temp_base_c: 0x4170_0000,
            temp_span_c: 0x4160_0000,
            temp_noise_c: 0x4020_0000,
        }
    }
}

/// The parameters of an all-soil map: a stone threshold no sample reaches
/// and no water budget, the defaults otherwise.
pub open spec fn blank_params_spec(width: u32, height: u32) -> GenParams {
    GenParams {
        width,
        height,
        octaves: 4,
        scale: 0x4100_0000,
        stone_threshold: F32_ONE,
        water_fraction: F32_ZERO,
        temp_base_c: 0x4170_0000,
        temp_span_c: 0x4160_0000,
        temp_noise_c: 0x4020_0000,
    }
}

/// The parameters of an all-soil map of the given size.
pub fn blank_params(width: u32, height: u32) -> (r: GenParams)
    ensures
        r == blank_params_spec(width, height),
{
    let d: GenParams = GenParams::default();
    GenParams { width, height, stone_threshold: F32_ONE, water_fraction: F32_ZERO, ..d }
}

/// What the noise channels say about one tile, as bit patterns: the
/// pooled water value, the stone value, the temperature, and the
/// fertility it would have under each terrain.
#[derive(Debug, Clone, Copy, PartialEq, Eq, Structural)]
pub struct TileSample {
    pub pooled: u32,
    pub stone: u32,
    pub temperature: u32,
    pub fertility_soil: u32,
    pub fertility_stone: u32,
    pub fertility_water: u32,
}

/// The sign-extended 64-bit pattern of a coordinate.
pub open spec fn sign_extended(v: i32) -> u64 {
    (v as int % two64()) as u64
}

/// The coordinate hash behind a lattice point.
pub open spec fn lattice_hash(seed: u64, channel: u32, x: i32, z: i32) -> u64 {
    seed ^ ((sign_extended(x) as int * 0xBF58_476D_1CE4_E5B9int % two64()) as u64) ^ ((
    sign_extended(z) as int * 0x94D0_49BB_1331_11EBint % two64()) as u64) ^ ((channel as int
        * GOLDEN_GAMMA as int % two64()) as u64)
}

/// The 24-bit lattice value at a grid point.
pub open spec fn lattice_spec(seed: u64, channel: u32, x: i32, z: i32) -> u64 {
    splitmix_mix_spec(lattice_hash(seed, channel, x, z)) >> 40
}

/// Sign-extend a coordinate.
fn sign_extend(v: i32) -> (r: u64)
    ensures
        r == sign_extended(v),
{
    if v >= 0 {
        v as u64
    } else {
        let m: u64 = (-(v as i64)) as u64;
        0u64.wrapping_sub(m)
    }
}

/// Random-access lattice value: the numerator over 2^24 of a value in
/// `[0, 1)`, a pure function of seed, channel and grid point.
pub fn lattice(seed: u64, channel: u32, x: i32, z: i32) -> (r: u32)
    ensures
        r as u64 == lattice_spec(seed, channel, x, z),
        r < 0x0100_0000,
{
    let h: u64 = seed ^ sign_extend(x).wrapping_mul(0xBF58_476D_1CE4_E5B9) ^ sign_extend(
        z,
    ).wrapping_mul(0x94D0_49BB_1331_11EB) ^ (channel as u64).wrapping_mul(GOLDEN_GAMMA);
    let m: u64 = splitmix_mix(h);
    assert(m >> 40 < 0x0100_0000) by (bit_vector);
    (m >> 40) as u32
}

/// A channel value, held strictly inside the `[0, 1)` that the noise
/// blends: a threshold of zero takes every value, one of one takes none.
pub open spec fn channel_value(v: u32) -> u32 {
    held(v, F32_ZERO, F32_ONE)
}

/// Water where the pooled channel reaches the cut, else stone where the
/// stone channel reaches its threshold, else soil.
pub open spec fn terrain_from(sample: TileSample, water_cut: u32, stone_threshold: u32) -> Terrain {
    if f32_ge_spec(channel_value(sample.pooled), water_cut) {
        Terrain::Water
    } else if f32_ge_spec(channel_value(sample.stone), stone_threshold) {
        Terrain::Stone
    } else {
        Terrain::Soil
    }
}

/// The fertility a tile takes under its terrain.
pub open spec fn fertility_from(sample: TileSample, terrain: Terrain) -> u32 {
    match terrain {
        Terrain::Soil => sample.fertility_soil,
        Terrain::Stone => sample.fertility_stone,
        Terrain::Water => sample.fertility_water,
    }
}

/// Decide a tile's terrain from its samples.
pub fn pick_terrain(sample: TileSample, water_cut: u32, stone_threshold: u32) -> (r: Terrain)
    ensures
        r == terrain_from(sample, water_cut, stone_threshold),
{
    if f32_ge(hold(sample.pooled, F32_ZERO, F32_ONE), water_cut) {
        Terrain::Water
    } else if f32_ge(hold(sample.stone, F32_ZERO, F32_ONE), stone_threshold) {
        Terrain::Stone
    } else {
        Terrain::Soil
    }
}

/// What a map is: provenance and four layers over one row-major index
/// space.
#[verifier::ext_equal]
pub struct MapModel {
    pub seed: u64,
    pub params: GenParams,
    pub terrain: Seq<Terrain>,
    pub occupancy: Seq<Occupancy>,
    pub temperature: Seq<u32>,
    pub fertility: Seq<u32>,
}

impl MapModel {
    /// Columns.
    pub open spec fn width(self) -> int {
        self.params.width as int
    }

    /// Rows.
    pub open spec fn height(self) -> int {
        self.params.height as int
    }

    /// Number of tiles.
    pub open spec fn tiles(self) -> int {
        self.width() * self.height()
    }

    /// The layers cover the grid, which is within the cap.
    pub open spec fn wf(self) -> bool {
        &&& self.params.spec_valid()
        &&& self.terrain.len() == self.tiles()
        &&& self.occupancy.len() == self.tiles()
        &&& self.temperature.len() == self.tiles()
        &&& self.fertility.len() == self.tiles()
    }

    /// The tile lies on the grid.
    pub open spec fn in_bounds(self, t: Tile) -> bool {
        0 <= t.x < self.width() && 0 <= t.z < self.height()
    }

    /// Row-major position of a tile.
    pub open spec fn index(self, t: Tile) -> int {
        t.z * self.width() + t.x
    }

    /// The walkability law at a position: not water, nothing on it.
    pub open spec fn open_at(self, i: int) -> bool {
        self.terrain[i] != Terrain::Water && self.occupancy[i].spec_bits() == 0
    }

    /// The cost law at a position: zero when blocked.
    pub open spec fn cost_at(self, i: int) -> u8 {
        if self.open_at(i) {
            self.terrain[i].spec_cost()
        } else {
            0
        }
    }

    /// The walkability law: out of bounds is not walkable.
    pub open spec fn walkable(self, t: Tile) -> bool {
        self.in_bounds(t) && self.open_at(self.index(t))
    }

    /// The cost of entering a tile: zero when blocked or out of bounds.
    pub open spec fn cost(self, t: Tile) -> u8 {
        if self.in_bounds(t) {
            self.cost_at(self.index(t))
        } else {
            0
        }
    }

    /// Walkable positions among the first `n`.
    pub open spec fn open_count(self, n: int) -> int
        decreases n,
    {
        if n <= 0 {
            0
        } else {
            self.open_count(n - 1) + if self.open_at(n - 1) {
                1int
            } else {
                0
            }
        }
    }

    /// The terrain of a tile, none out of bounds.
    pub open spec fn terrain_seen(self, t: Tile) -> Option<Terrain> {
        if self.in_bounds(t) {
            Some(self.terrain[self.index(t)])
        } else {
            None
        }
    }

    /// The occupancy of a tile, none out of bounds.
    pub open spec fn occupancy_seen(self, t: Tile) -> Option<Occupancy> {
        if self.in_bounds(t) {
            Some(self.occupancy[self.index(t)])
        } else {
            None
        }
    }

    /// The temperature of a tile, none out of bounds.
    pub open spec fn temperature_seen(self, t: Tile) -> Option<u32> {
        if self.in_bounds(t) {
            Some(self.temperature[self.index(t)])
        } else {
            None
        }
    }

    /// The fertility of a tile, none out of bounds.
    pub open spec fn fertility_seen(self, t: Tile) -> Option<u32> {
        if self.in_bounds(t) {
            Some(self.fertility[self.index(t)])
        } else {
            None
        }
    }

    /// The words that identify where the map came from.
    pub open spec fn provenance_words(self) -> Seq<u64> {
        seq![
            self.seed,
            self.params.width as u64,
            self.params.height as u64,
            self.params.octaves as u64,
            self.params.scale as u64,
            self.params.stone_threshold as u64,
            self.params.water_fraction as u64,
            self.params.temp_base_c as u64,
            self.params.temp_span_c as u64,
            self.params.temp_noise_c as u64,
        ]
    }

    /// The word stream of the checksum: provenance, then each layer
    /// behind its tag.
    pub open spec fn words(self) -> Seq<u64> {
        self.provenance_words().push(TAG_TERRAIN) + self.terrain.map_values(
            |t: Terrain| t.spec_code(),
        ).push(TAG_OCCUPANCY) + self.occupancy.map_values(
            |o: Occupancy| o.spec_bits() as u64,
        ).push(TAG_TEMPERATURE) + self.temperature.map_values(|v: u32| v as u64).push(TAG_FERTILITY)
            + self.fertility.map_values(|v: u32| v as u64)
    }

    /// The digest of provenance and layers.
    pub open spec fn checksum(self) -> u64 {
        fold_words(FNV_OFFSET, self.words())
    }
}

/// The map with one tile's occupancy replaced.
pub open spec fn occupied(m: MapModel, t: Tile, occ: Occupancy) -> MapModel {
    MapModel { occupancy: m.occupancy.update(m.index(t), occ), ..m }
}

/// The map with one tile's temperature replaced.
pub open spec fn warmed(m: MapModel, t: Tile, celsius: u32) -> MapModel {
    MapModel { temperature: m.temperature.update(m.index(t), celsius), ..m }
}

/// The map with one tile's fertility replaced.
pub open spec fn tilled(m: MapModel, t: Tile, fraction: u32) -> MapModel {
    MapModel { fertility: m.fertility.update(m.index(t), fraction), ..m }
}

/// How many entries of a layer are of one terrain.
pub open spec fn count_kind(layer: Seq<Terrain>, kind: Terrain) -> int
    decreases layer.len(),
{
    if layer.len() == 0 {
        0
    } else {
        count_kind(layer.drop_last(), kind) + if layer.last() == kind {
            1int
        } else {
            0
        }
    }
}

/// Layer tag: the ASCII bytes of `TERRAIN0`, big-endian.
pub const TAG_TERRAIN: u64 = 0x5445_5252_4149_4E30;

/// Layer tag: the ASCII bytes of `OCCUPANC`, big-endian.
pub const TAG_OCCUPANCY: u64 = 0x4F43_4355_5041_4E43;

/// Layer tag: the ASCII bytes of `TEMPERAT`, big-endian.
pub const TAG_TEMPERATURE: u64 = 0x5445_4D50_4552_4154;

/// Layer tag: the ASCII bytes of `FERTILIT`, big-endian.
pub const TAG_FERTILITY: u64 = 0x4645_5254_494C_4954;

/// The map that a seed, parameters, a water cut and samples generate.
pub open spec fn generated(
    seed: u64,
    params: GenParams,
    water_cut: u32,
    samples: Seq<TileSample>,
) -> MapModel {
    let terrain = samples.map_values(
        |s: TileSample| terrain_from(s, water_cut, params.stone_threshold),
    );
    MapModel {
        seed,
        params,
        terrain,
        occupancy: Seq::new(samples.len(), |i: int| Occupancy::spec_empty()),
        temperature: samples.map_values(|s: TileSample| s.temperature),
        fertility: Seq::new(samples.len(), |i: int| fertility_from(samples[i], terrain[i])),
    }
}

/// Numbers added up in order, from zero.
pub open spec fn running_sum<P: Fn((u32, u32)) -> u32>(values: Seq<u32>, plus: P) -> u32
    decreases values.len(),
{
    if values.len() == 0 {
        F32_ZERO
    } else {
        value(plus, (running_sum(values.drop_last(), plus), values.last()))
    }
}

fn sum_up<P: Fn((u32, u32)) -> u32>(values: &Vec<u32>, plus: &P) -> (r: u32)
    requires
        steady(*plus),
    ensures
        r == running_sum(values@, *plus),
{
    let mut sum: u32 = F32_ZERO;
    let mut i: usize = 0;
    proof {
        assert(values@.take(0) =~= Seq::<u32>::empty());
    }
    while i < values.len()
        invariant
            i <= values@.len(),
            steady(*plus),
            sum == running_sum(values@.take(i as int), *plus),
        decreases values@.len() - i,
    {
        sum = (*plus)((sum, values[i]));
        proof {
            assert(values@.take(i + 1).drop_last() =~= values@.take(i as int));
        }
        i = i + 1;
    }
    proof {
        assert(values@.take(i as int) =~= values@);
    }
    sum
}

/// A tile on the grid has its own position below the tile count.
pub proof fn lemma_index_in_range(m: MapModel, t: Tile)
    requires
        m.in_bounds(t),
    ensures
        0 <= m.index(t) < m.tiles(),
{
    let w = m.width();
    let h = m.height();
    let x = t.x as int;
    let z = t.z as int;
    assert(0 <= z * w + x < w * h) by (nonlinear_arith)
        requires
            0 <= x < w,
            0 <= z < h,
    ;
}

/// Distinct tiles of the grid have distinct positions.
pub proof fn lemma_index_injective(m: MapModel, a: Tile, b: Tile)
    requires
        m.in_bounds(a),
        m.in_bounds(b),
        m.index(a) == m.index(b),
    ensures
        a == b,
{
    let w = m.width();
    let (ax, az, bx, bz) = (a.x as int, a.z as int, b.x as int, b.z as int);
    assert(az == bz && ax == bx) by (nonlinear_arith)
        requires
            0 <= ax < w,
            0 <= bx < w,
            az * w + ax == bz * w + bx,
    ;
}

/// The tile map.
#[derive(Debug, Clone, PartialEq)]
pub struct TileMap {
    seed: u64,
    params: GenParams,
    terrain: Vec<Terrain>,
    occupancy: Vec<Occupancy>,
    temperature: Vec<u32>,
    fertility: Vec<u32>,
    cost: Vec<u8>,
}

impl View for TileMap {
    type V = MapModel;

    closed spec fn view(&self) -> MapModel {
        MapModel {
            seed: self.seed,
            params: self.params,
            terrain: self.terrain@,
            occupancy: self.occupancy@,
            temperature: self.temperature@,
            fertility: self.fertility@,
        }
    }
}

impl TileMap {
    /// The layers cover the grid and the cost cache is what a fresh
    /// derivation would give.
    pub closed spec fn wf(&self) -> bool {
        &&& self@.wf()
        &&& self.cost@ == Seq::new(self@.tiles() as nat, |i: int| self@.cost_at(i))
    }

    /// The cached costs.
    pub closed spec fn cost_cache(&self) -> Seq<u8> {
        self.cost@
    }

    /// The cache is a fresh derivation of the layers.
    pub proof fn lemma_cache_is_fresh(&self)
        requires
            self.wf(),
        ensures
            self@.wf(),
            self.cost_cache() == Seq::new(self@.tiles() as nat, |i: int| self@.cost_at(i)),
    {
    }

    /// An all-soil map of the given size, over samples that stay below
    /// one.
    pub fn blank(width: u32, height: u32, samples: &[TileSample]) -> (m: TileMap)
        requires
            blank_params_spec(width, height).spec_valid(),
            samples@.len() == width as int * height as int,
        ensures
            m.wf(),
            m@ == generated(0, blank_params_spec(width, height), F32_ONE, samples@),
    {
        proof {
            crate::singles::lemma_complement_falls(0, 0);
        }
        TileMap::generate(0, blank_params(width, height), samples)
    }

    /// Seeded, pure, checksummed: ponds where the water channel pools
    /// above one minus the water fraction, stone patches where the stone channel crosses its
    /// threshold, water winning where both fire; temperature and
    /// fertility as sampled, nothing occupied.
    pub fn generate(
        seed: u64,
        params: GenParams,
        samples: &[TileSample],
    ) -> (m: TileMap)
        requires
            params.spec_valid(),
            samples@.len() == params.width as int * params.height as int,
        ensures
            m.wf(),
            m@ == generated(seed, params, complement(params.water_fraction), samples@),
    {
        let water_cut: u32 = one_minus(params.water_fraction);
        let tiles: usize = samples.len();
        let mut terrain: Vec<Terrain> = Vec::with_capacity(tiles);
        let mut occupancy: Vec<Occupancy> = Vec::with_capacity(tiles);
        let mut temperature: Vec<u32> = Vec::with_capacity(tiles);
        let mut fertility: Vec<u32> = Vec::with_capacity(tiles);
        let ghost goal = generated(seed, params, water_cut, samples@);
        let mut i: usize = 0;
        while i < tiles
            invariant
                tiles == samples@.len(),
                i <= tiles,
                goal == generated(seed, params, water_cut, samples@),
                terrain@ == goal.terrain.take(i as int),
                occupancy@ == goal.occupancy.take(i as int),
                temperature@ == goal.temperature.take(i as int),
                fertility@ == goal.fertility.take(i as int),
            decreases tiles - i,
        {
            let sample: TileSample = samples[i];
            let t: Terrain = pick_terrain(sample, water_cut, params.stone_threshold);
            let f: u32 = match t {
                Terrain::Soil => sample.fertility_soil,
                Terrain::Stone => sample.fertility_stone,
                Terrain::Water => sample.fertility_water,
            };
            terrain.push(t);
            occupancy.push(Occupancy::empty());
            temperature.push(sample.temperature);
            fertility.push(f);
            proof {
                assert(goal.terrain.take(i + 1) =~= goal.terrain.take(i as int).push(t));
                assert(goal.occupancy.take(i + 1) =~= goal.occupancy.take(i as int).push(
                    Occupancy::spec_empty(),
                ));
                assert(goal.temperature.take(i + 1) =~= goal.temperature.take(i as int).push(
                    sample.temperature,
                ));
                assert(goal.fertility.take(i + 1) =~= goal.fertility.take(i as int).push(f));
            }
            i = i + 1;
        }
        proof {
            assert(goal.terrain.take(i as int) =~= goal.terrain);
            assert(goal.occupancy.take(i as int) =~= goal.occupancy);
            assert(goal.temperature.take(i as int) =~= goal.temperature);
            assert(goal.fertility.take(i as int) =~= goal.fertility);
        }
        let mut map = TileMap {
            seed,
            params,
            terrain,
            occupancy,
            temperature,
            fertility,
            cost: Vec::with_capacity(tiles),
        };
        map.rebuild_cost();
        map
    }

    /// Columns.
    pub fn width(&self) -> (r: u32)
        ensures
            r == self@.width(),
    {
        self.params.width
    }

    /// Rows.
    pub fn height(&self) -> (r: u32)
        ensures
            r == self@.height(),
    {
        self.params.height
    }

    /// Number of tiles.
    pub fn tile_count(&self) -> (r: usize)
        requires
            self.wf(),
        ensures
            r == self@.tiles(),
    {
        self.terrain.len()
    }

    /// Whether the tile lies on the grid.
    pub fn in_bounds(&self, tile: Tile) -> (r: bool)
        ensures
            r == self@.in_bounds(tile),
    {
        tile.x >= 0 && tile.z >= 0 && (tile.x as u32) < self.params.width && (tile.z as u32)
            < self.params.height
    }

    /// The tile's position in the layers, when it is on the grid.
    fn index_of(&self, tile: Tile) -> (r: Option<usize>)
        requires
            self.wf(),
        ensures
            match r {
                Some(i) => self@.in_bounds(tile) && i == self@.index(tile) && i < self@.tiles(),
                None => !self@.in_bounds(tile),
            },
    {
        if self.in_bounds(tile) {
            proof {
                lemma_index_in_range(self@, tile);
                let w = self@.width();
                let z = tile.z as int;
                assert(0 <= z * w) by (nonlinear_arith)
                    requires
                        0 <= z,
                        0 <= w,
                ;
            }
            Some(tile.z as usize * self.params.width as usize + tile.x as usize)
        } else {
            None
        }
    }

    /// Terrain at a tile; `None` out of bounds.
    pub fn terrain_at(&self, tile: Tile) -> (r: Option<Terrain>)
        requires
            self.wf(),
        ensures
            r == self@.terrain_seen(tile),
    {
        match self.index_of(tile) {
            Some(i) => Some(self.terrain[i]),
            None => None,
        }
    }

    /// Occupancy at a tile; `None` out of bounds.
    pub fn occupancy_at(&self, tile: Tile) -> (r: Option<Occupancy>)
        requires
            self.wf(),
        ensures
            r == self@.occupancy_seen(tile),
    {
        match self.index_of(tile) {
            Some(i) => Some(self.occupancy[i]),
            None => None,
        }
    }

    /// Pathfinding cost from the derived cache: 0 is blocked or out of
    /// bounds.
    pub fn cost(&self, tile: Tile) -> (r: u8)
        requires
            self.wf(),
        ensures
            r == self@.cost(tile),
    {
        match self.index_of(tile) {
            Some(i) => self.cost[i],
            None => 0,
        }
    }

    /// The walkability law, read from the layers: not water and nothing
    /// on it. Out of bounds is not walkable.
    pub fn walkable(&self, tile: Tile) -> (r: bool)
        requires
            self.wf(),
        ensures
            r == self@.walkable(tile),
    {
        match self.index_of(tile) {
            Some(i) => self.terrain[i] != Terrain::Water && self.occupancy[i].is_empty(),
            None => false,
        }
    }

    /// Number of walkable tiles.
    pub fn walkable_count(&self) -> (r: usize)
        requires
            self.wf(),
        ensures
            r == self@.open_count(self@.tiles()),
    {
        let mut n: usize = 0;
        let mut i: usize = 0;
        while i < self.terrain.len()
            invariant
                self.wf(),
                i <= self.terrain@.len(),
                n == self@.open_count(i as int),
                n <= i,
            decreases self.terrain@.len() - i,
        {
            if self.terrain[i] != Terrain::Water && self.occupancy[i].is_empty() {
                n = n + 1;
            }
            i = i + 1;
        }
        n
    }

    /// The temperatures, summed over the tiles in order.
    pub fn temperature_sum<P: Fn((u32, u32)) -> u32>(&self, plus: &P) -> (r: u32)
        requires
            steady(*plus),
        ensures
            r == running_sum(self@.temperature, *plus),
    {
        sum_up(&self.temperature, plus)
    }

    /// The fertilities, summed over the tiles in order.
    pub fn fertility_sum<P: Fn((u32, u32)) -> u32>(&self, plus: &P) -> (r: u32)
        requires
            steady(*plus),
        ensures
            r == running_sum(self@.fertility, *plus),
    {
        sum_up(&self.fertility, plus)
    }

    /// Number of tiles of one terrain.
    pub fn terrain_count(&self, kind: Terrain) -> (r: usize)
        ensures
            r == count_kind(self@.terrain, kind),
    {
        let mut n: usize = 0;
        let mut i: usize = 0;
        while i < self.terrain.len()
            invariant
                i <= self.terrain@.len(),
                n == count_kind(self.terrain@.take(i as int), kind),
                n <= i,
            decreases self.terrain@.len() - i,
        {
            proof {
                let next = self.terrain@.take(i + 1);
                assert(next.drop_last() =~= self.terrain@.take(i as int));
                assert(next.last() == self.terrain@[i as int]);
            }
            if self.terrain[i] == kind {
                n = n + 1;
            }
            i = i + 1;
        }
        proof {
            assert(self.terrain@.take(i as int) =~= self.terrain@);
        }
        n
    }

    /// Set a tile's occupancy and rebuild the cost cache. False, with
    /// nothing changed, out of bounds.
    pub fn set_occupancy(&mut self, tile: Tile, occ: Occupancy) -> (r: bool)
        requires
            old(self).wf(),
        ensures
            final(self).wf(),
            r == old(self)@.in_bounds(tile),
            final(self)@ == if r {
                occupied(old(self)@, tile, occ)
            } else {
                old(self)@
            },
    {
        match self.index_of(tile) {
            Some(i) => {
                self.occupancy.set(i, occ);
                self.rebuild_cost();
                true
            },
            None => false,
        }
    }

    /// Temperature at a tile, as bits; `None` out of bounds.
    pub fn temperature_at(&self, tile: Tile) -> (r: Option<u32>)
        requires
            self.wf(),
        ensures
            r == self@.temperature_seen(tile),
    {
        match self.index_of(tile) {
            Some(i) => Some(self.temperature[i]),
            None => None,
        }
    }

    /// Write a finite temperature. False, with nothing changed, out of
    /// bounds.
    pub fn set_temperature(&mut self, tile: Tile, celsius: u32) -> (r: bool)
        requires
            old(self).wf(),
            f32_is_finite(celsius),
        ensures
            final(self).wf(),
            r == old(self)@.in_bounds(tile),
            final(self)@ == if r {
                warmed(old(self)@, tile, celsius)
            } else {
                old(self)@
            },
    {
        match self.index_of(tile) {
            Some(i) => {
                self.temperature.set(i, celsius);
                proof {
                    assert(self.cost@ =~= Seq::new(
                        self@.tiles() as nat,
                        |k: int| self@.cost_at(k),
                    ));
                }
                true
            },
            None => false,
        }
    }

    /// Fertility at a tile, as bits; `None` out of bounds.
    pub fn fertility_at(&self, tile: Tile) -> (r: Option<u32>)
        requires
            self.wf(),
        ensures
            r == self@.fertility_seen(tile),
    {
        match self.index_of(tile) {
            Some(i) => Some(self.fertility[i]),
            None => None,
        }
    }

    /// Write a fertility fraction. False, with nothing changed, out of
    /// bounds.
    pub fn set_fertility(&mut self, tile: Tile, fraction: u32) -> (r: bool)
        requires
            old(self).wf(),
            f32_in_unit(fraction),
        ensures
            final(self).wf(),
            r == old(self)@.in_bounds(tile),
            final(self)@ == if r {
                tilled(old(self)@, tile, fraction)
            } else {
                old(self)@
            },
    {
        match self.index_of(tile) {
            Some(i) => {
                self.fertility.set(i, fraction);
                proof {
                    assert(self.cost@ =~= Seq::new(
                        self@.tiles() as nat,
                        |k: int| self@.cost_at(k),
                    ));
                }
                true
            },
            None => false,
        }
    }

    /// Derive the cost cache from terrain and occupancy, whole.
    fn rebuild_cost(&mut self)
        requires
            old(self)@.wf(),
        ensures
            final(self).wf(),
            final(self)@ == old(self)@,
    {
        let n: usize = self.terrain.len();
        let mut cost: Vec<u8> = Vec::with_capacity(n);
        let mut i: usize = 0;
        while i < n
            invariant
                self@.wf(),
                n == self@.tiles(),
                i <= n,
                cost@ == Seq::new(i as nat, |k: int| self@.cost_at(k)),
            decreases n - i,
        {
            let t: Terrain = self.terrain[i];
            let c: u8 = if t == Terrain::Water || !self.occupancy[i].is_empty() {
                0
            } else {
                t.cost()
            };
            cost.push(c);
            proof {
                assert(cost@ =~= Seq::new((i + 1) as nat, |k: int| self@.cost_at(k)));
            }
            i = i + 1;
        }
        self.cost = cost;
        proof {
            assert(self.cost@ =~= Seq::new(self@.tiles() as nat, |k: int| self@.cost_at(k)));
        }
    }

    /// Digest of provenance and layers: the same seed, parameters and
    /// mutations give the same checksum.
    pub fn checksum(&self) -> (r: u64)
        ensures
            r == self@.checksum(),
    {
        let p: GenParams = self.params;
        let mut h: u64 = FNV_OFFSET;
        let ghost mut done: Seq<u64> = Seq::empty();
        let words: [u64; 11] = [
            self.seed,
            p.width as u64,
            p.height as u64,
            p.octaves as u64,
            p.scale as u64,
            p.stone_threshold as u64,
            p.water_fraction as u64,
            p.temp_base_c as u64,
            p.temp_span_c as u64,
            p.temp_noise_c as u64,
            TAG_TERRAIN,
        ];
        h = crate::digest::fold(h, words.as_slice());
        let ghost head = self@.provenance_words().push(TAG_TERRAIN);
        assert(words@ =~= head);
        let ghost terrain = self.terrain@.map_values(|t: Terrain| t.spec_code());
        let mut i: usize = 0;
        while i < self.terrain.len()
            invariant
                i <= self.terrain@.len(),
                terrain == self.terrain@.map_values(|t: Terrain| t.spec_code()),
                h == fold_words(FNV_OFFSET, head + terrain.take(i as int)),
            decreases self.terrain@.len() - i,
        {
            proof {
                lemma_fold_next(head, terrain, i as int);
            }
            h = step(h, self.terrain[i].code());
            i = i + 1;
        }
        assert(terrain.take(i as int) =~= terrain);
        proof {
            lemma_fold_push(FNV_OFFSET, head + terrain, TAG_OCCUPANCY);
        }
        h = step(h, TAG_OCCUPANCY);
        let ghost head2 = (head + terrain).push(TAG_OCCUPANCY);
        let ghost occ = self.occupancy@.map_values(|o: Occupancy| o.spec_bits() as u64);
        assert(head2 + occ.take(0) =~= head2);
        i = 0;
        while i < self.occupancy.len()
            invariant
                i <= self.occupancy@.len(),
                occ == self.occupancy@.map_values(|o: Occupancy| o.spec_bits() as u64),
                h == fold_words(FNV_OFFSET, head2 + occ.take(i as int)),
            decreases self.occupancy@.len() - i,
        {
            proof {
                lemma_fold_next(head2, occ, i as int);
            }
            h = step(h, self.occupancy[i].bits() as u64);
            i = i + 1;
        }
        assert(occ.take(i as int) =~= occ);
        proof {
            lemma_fold_push(FNV_OFFSET, head2 + occ, TAG_TEMPERATURE);
        }
        h = step(h, TAG_TEMPERATURE);
        let ghost head3 = (head2 + occ).push(TAG_TEMPERATURE);
        let ghost temp = self.temperature@.map_values(|v: u32| v as u64);
        assert(head3 + temp.take(0) =~= head3);
        i = 0;
        while i < self.temperature.len()
            invariant
                i <= self.temperature@.len(),
                temp == self.temperature@.map_values(|v: u32| v as u64),
                h == fold_words(FNV_OFFSET, head3 + temp.take(i as int)),
            decreases self.temperature@.len() - i,
        {
            proof {
                lemma_fold_next(head3, temp, i as int);
            }
            h = step(h, self.temperature[i] as u64);
            i = i + 1;
        }
        assert(temp.take(i as int) =~= temp);
        proof {
            lemma_fold_push(FNV_OFFSET, head3 + temp, TAG_FERTILITY);
        }
        h = step(h, TAG_FERTILITY);
        let ghost head4 = (head3 + temp).push(TAG_FERTILITY);
        let ghost fert = self.fertility@.map_values(|v: u32| v as u64);
        assert(head4 + fert.take(0) =~= head4);
        i = 0;
        while i < self.fertility.len()
            invariant
                i <= self.fertility@.len(),
                fert == self.fertility@.map_values(|v: u32| v as u64),
                h == fold_words(FNV_OFFSET, head4 + fert.take(i as int)),
            decreases self.fertility@.len() - i,
        {
            proof {
                lemma_fold_next(head4, fert, i as int);
            }
            h = step(h, self.fertility[i] as u64);
            i = i + 1;
        }
        proof {
            assert(fert.take(i as int) =~= fert);
            assert(head4 + fert =~= self@.words());
        }
        h
    }
}

/// Folding the next word of a layer behind `head`.
proof fn lemma_fold_next(head: Seq<u64>, layer: Seq<u64>, i: int)
    requires
        0 <= i < layer.len(),
    ensures
        fold_words(FNV_OFFSET, head + layer.take(i + 1)) == crate::digest::step_spec(
            fold_words(FNV_OFFSET, head + layer.take(i)),
            layer[i],
        ),
{
    lemma_fold_push(FNV_OFFSET, head + layer.take(i), layer[i]);
    assert(head + layer.take(i + 1) =~= (head + layer.take(i)).push(layer[i]));
}

} // verus!
