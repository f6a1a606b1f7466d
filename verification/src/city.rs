//! City placement on a planet's continents and the fixed district/block layout
//! of each city. Grid positions are whole cells; the renderer scales them.

use rand_chacha::ChaCha8Rng;
use vstd::prelude::*;
use crate::planet::{ContinentData, PlanetData, continent_cells};
use crate::rng::{below, seeded};

verus! {

/// How many cities a planet gets at most.
pub const CITY_COUNT_TARGET: usize = 8;
/// Smallest distance, in grid cells, between two city centres.
pub const CITY_MIN_DISTANCE: i32 = 6;
pub const DISTRICTS_PER_CITY: usize = 4;
pub const BLOCKS_PER_DISTRICT: usize = 9;
/// Placement draws before giving up on reaching the target.
pub const MAX_ATTEMPTS: u32 = 1000;

/// A street block, by its corner cell.
#[derive(Clone, Copy, PartialEq, Eq, Debug, Structural)]
pub struct BlockData {
    pub x: i32,
    pub z: i32,
}

/// A district: a 3x3 grid of blocks from its corner cell.
pub struct DistrictData {
    pub x: i32,
    pub z: i32,
    pub blocks: Vec<BlockData>,
}

/// A city: a 2x2 grid of districts, 3 cells apart, from its centre cell.
pub struct CityData {
    pub lat: i32,
    pub lon: i32,
    pub districts: Vec<DistrictData>,
}

/// Squared distance between two cells.
pub open spec fn dist2(a: (int, int), b: (int, int)) -> int {
    (a.0 - b.0) * (a.0 - b.0) + (a.1 - b.1) * (a.1 - b.1)
}

proof fn lemma_dist2_symmetric(a: (int, int), b: (int, int))
    ensures
        dist2(a, b) == dist2(b, a),
{
    assert((a.0 - b.0) * (a.0 - b.0) == (b.0 - a.0) * (b.0 - a.0)) by (nonlinear_arith);
    assert((a.1 - b.1) * (a.1 - b.1) == (b.1 - a.1) * (b.1 - a.1)) by (nonlinear_arith);
}

/// Two centres at least `CITY_MIN_DISTANCE` apart.
pub open spec fn far_apart(a: (int, int), b: (int, int)) -> bool {
    dist2(a, b) >= CITY_MIN_DISTANCE * CITY_MIN_DISTANCE
}

pub open spec fn centre(c: CityData) -> (int, int) {
    (c.lat as int, c.lon as int)
}

/// District `i` of a city centred at `(lat, lon)`.
pub open spec fn district_corner(lat: int, lon: int, i: int) -> (int, int) {
    (lat + 3 * (i / 2), lon + 3 * (i % 2))
}

/// Block `j` of a district cornered at `(x, z)`.
pub open spec fn block_corner(x: int, z: int, j: int) -> (int, int) {
    (x + j / 3, z + j % 3)
}

/// The blocks of a district cornered at `(x, z)`, row by row.
pub open spec fn laid_out_blocks(x: int, z: int, blocks: Seq<BlockData>) -> bool {
    &&& blocks.len() == BLOCKS_PER_DISTRICT
    &&& forall|j: int|
        0 <= j < blocks.len() ==> ((#[trigger] blocks[j]).x as int, blocks[j].z as int) == block_corner(x, z, j)
}

/// The districts of a city centred at `(lat, lon)`, each with its blocks.
pub open spec fn laid_out(c: CityData) -> bool {
    &&& c.districts@.len() == DISTRICTS_PER_CITY
    &&& forall|i: int|
        0 <= i < c.districts@.len() ==> {
            let d = #[trigger] c.districts@[i];
            &&& (d.x as int, d.z as int) == district_corner(c.lat as int, c.lon as int, i)
            &&& laid_out_blocks(d.x as int, d.z as int, d.blocks@)
        }
}

/// A centre coordinate that leaves room, within `i32`, for the layout's
/// offsets (districts 3 cells on, blocks 2 more).
pub open spec fn small(v: int) -> bool {
    v + 5 <= i32::MAX
}

/// The 3x3 blocks of a district cornered at `(x, z)`.
pub fn generate_blocks(x: i32, z: i32) -> (blocks: Vec<BlockData>)
    requires
        x + 2 <= i32::MAX,
        z + 2 <= i32::MAX,
    ensures
        laid_out_blocks(x as int, z as int, blocks@),
{
    let mut blocks: Vec<BlockData> = Vec::new();
    let mut bx: i32 = 0;
    while bx < 3
        invariant
            0 <= bx <= 3,
            x + 2 <= i32::MAX,
            z + 2 <= i32::MAX,
            blocks@.len() == 3 * bx,
            forall|j: int|
                0 <= j < blocks@.len() ==> ((#[trigger] blocks@[j]).x as int, blocks@[j].z as int)
                    == block_corner(x as int, z as int, j),
        decreases 3 - bx,
    {
        let mut bz: i32 = 0;
        while bz < 3
            invariant
                0 <= bx < 3,
                0 <= bz <= 3,
                x + 2 <= i32::MAX,
                z + 2 <= i32::MAX,
                blocks@.len() == 3 * bx + bz,
                forall|j: int|
                    0 <= j < blocks@.len() ==> ((#[trigger] blocks@[j]).x as int, blocks@[j].z as int)
                        == block_corner(x as int, z as int, j),
            decreases 3 - bz,
        {
            blocks.push(BlockData { x: x + bx, z: z + bz });
            assert((3 * bx + bz) / 3 == bx && (3 * bx + bz) % 3 == bz);
            bz += 1;
        }
        bx += 1;
    }
    blocks
}

/// The 2x2 districts of a city centred at `(lat, lon)`, 3 cells apart.
pub fn generate_districts(lat: i32, lon: i32) -> (districts: Vec<DistrictData>)
    requires
        small(lat as int),
        small(lon as int),
    ensures
        districts@.len() == DISTRICTS_PER_CITY,
        forall|i: int|
            0 <= i < districts@.len() ==> {
                let d = #[trigger] districts@[i];
                &&& (d.x as int, d.z as int) == district_corner(lat as int, lon as int, i)
                &&& laid_out_blocks(d.x as int, d.z as int, d.blocks@)
            },
{
    let mut districts: Vec<DistrictData> = Vec::new();
    let mut dx: i32 = 0;
    while dx < 2
        invariant
            0 <= dx <= 2,
            small(lat as int),
            small(lon as int),
            districts@.len() == 2 * dx,
            forall|i: int|
                0 <= i < districts@.len() ==> {
                    let d = #[trigger] districts@[i];
                    &&& (d.x as int, d.z as int) == district_corner(lat as int, lon as int, i)
                    &&& laid_out_blocks(d.x as int, d.z as int, d.blocks@)
                },
        decreases 2 - dx,
    {
        let mut dz: i32 = 0;
        while dz < 2
            invariant
                0 <= dx < 2,
                0 <= dz <= 2,
                small(lat as int),
                small(lon as int),
                districts@.len() == 2 * dx + dz,
                forall|i: int|
                    0 <= i < districts@.len() ==> {
                        let d = #[trigger] districts@[i];
                        &&& (d.x as int, d.z as int) == district_corner(lat as int, lon as int, i)
                        &&& laid_out_blocks(d.x as int, d.z as int, d.blocks@)
                    },
            decreases 2 - dz,
        {
            let x = lat + dx * 3;
            let z = lon + dz * 3;
            let blocks = generate_blocks(x, z);
            districts.push(DistrictData { x, z, blocks });
            assert((2 * dx + dz) / 2 == dx && (2 * dx + dz) % 2 == dz);
            dz += 1;
        }
        dx += 1;
    }
    districts
}

/// Whether a city centred at `(lat, lon)` would sit closer than
/// `CITY_MIN_DISTANCE` to one already placed.
pub fn too_close(cities: &Vec<CityData>, lat: i32, lon: i32) -> (close: bool)
    ensures
        close == exists|i: int|
            0 <= i < cities@.len() && !far_apart(centre(#[trigger] cities@[i]), (lat as int, lon as int)),
{
    let mut i: usize = 0;
    while i < cities.len()
        invariant
            i <= cities@.len(),
            forall|j: int| 0 <= j < i ==> far_apart(centre(#[trigger] cities@[j]), (lat as int, lon as int)),
        decreases cities@.len() - i,
    {
        let c = &cities[i];
        let dx: i128 = c.lat as i128 - lat as i128;
        let dz: i128 = c.lon as i128 - lon as i128;
        assert(-0x1_0000_0000 <= dx <= 0x1_0000_0000 && -0x1_0000_0000 <= dz <= 0x1_0000_0000);
        assert(0 <= dx * dx <= 0x1_0000_0000_0000_0000 && 0 <= dz * dz <= 0x1_0000_0000_0000_0000)
            by (nonlinear_arith)
            requires
                -0x1_0000_0000 <= dx <= 0x1_0000_0000,
                -0x1_0000_0000 <= dz <= 0x1_0000_0000,
        ;
        if dx * dx + dz * dz < 36 {
            assert(!far_apart(centre(cities@[i as int]), (lat as int, lon as int)));
            return true;
        }
        i += 1;
    }
    false
}

/// The cities are placed well: few enough, each on a land cell, each pair far
/// enough apart, and each laid out in districts and blocks.
pub open spec fn well_placed(cities: Seq<CityData>, land: Seq<(int, int)>) -> bool {
    &&& cities.len() <= CITY_COUNT_TARGET
    &&& forall|i: int| 0 <= i < cities.len() ==> land.contains(centre(#[trigger] cities[i]))
    &&& forall|i: int| 0 <= i < cities.len() ==> small((#[trigger] cities[i]).lat as int) && small(
        cities[i].lon as int,
    )
    &&& forall|i: int, j: int|
        0 <= i < j < cities.len() ==> far_apart(centre(#[trigger] cities[i]), centre(#[trigger] cities[j]))
    &&& forall|i: int| 0 <= i < cities.len() ==> laid_out(#[trigger] cities[i])
}

/// One placement attempt at land cell `cell`: a city goes there unless one
/// already placed is too close.
pub fn try_place(cities: &mut Vec<CityData>, cell: (i32, i32))
    requires
        small(cell.0 as int),
        small(cell.1 as int),
    ensures
        ({
            let p = (cell.0 as int, cell.1 as int);
            if exists|i: int| 0 <= i < old(cities)@.len() && !far_apart(centre(#[trigger] old(cities)@[i]), p) {
                final(cities)@ == old(cities)@
            } else {
                &&& final(cities)@.len() == old(cities)@.len() + 1
                &&& final(cities)@.take(old(cities)@.len() as int) == old(cities)@
                &&& centre(final(cities)@.last()) == p
                &&& laid_out(final(cities)@.last())
            }
        }),
{
    let (lat, lon) = cell;
    if !too_close(cities, lat, lon) {
        let districts = generate_districts(lat, lon);
        cities.push(CityData { lat, lon, districts });
        assert(cities@.take(old(cities)@.len() as int) =~= old(cities)@);
    }
}

/// All land cells of the planet's continents, continent by continent.
pub open spec fn land_cells_of(continents: Seq<ContinentData>) -> Seq<(int, int)>
    decreases continents.len(),
{
    if continents.len() == 0 {
        Seq::empty()
    } else {
        land_cells_of(continents.drop_last()) + continent_cells(continents.last())
    }
}

/// The land cells of a planet, continent by continent.
pub fn land_cells(planet: &PlanetData) -> (cells: Vec<(i32, i32)>)
    ensures
        cells@.map_values(|c: (i32, i32)| (c.0 as int, c.1 as int)) == land_cells_of(planet.continents@),
{
    let mut cells: Vec<(i32, i32)> = Vec::new();
    let mut i: usize = 0;
    while i < planet.continents.len()
        invariant
            i <= planet.continents@.len(),
            cells@.map_values(|c: (i32, i32)| (c.0 as int, c.1 as int)) == land_cells_of(
                planet.continents@.take(i as int),
            ),
        decreases planet.continents@.len() - i,
    {
        let ghost before = cells@;
        let cont = &planet.continents[i];
        let mut j: usize = 0;
        while j < cont.cells.len()
            invariant
                j <= cont.cells@.len(),
                cells@ == before + cont.cells@.take(j as int),
            decreases cont.cells@.len() - j,
        {
            cells.push(cont.cells[j]);
            assert(cells@ =~= before + cont.cells@.take(j as int + 1));
            j += 1;
        }
        proof {
            let t = planet.continents@.take(i as int + 1);
            assert(t.drop_last() =~= planet.continents@.take(i as int));
            assert(t.last() == planet.continents@[i as int]);
            assert(cont.cells@.take(cont.cells@.len() as int) =~= cont.cells@);
            assert(cells@.map_values(|c: (i32, i32)| (c.0 as int, c.1 as int)) =~= land_cells_of(t));
        }
        i += 1;
    }
    assert(planet.continents@.take(planet.continents@.len() as int) =~= planet.continents@);
    cells
}

/// The city centres that successive draws of land cells (by index) place:
/// each drawn cell gets a city unless one already placed is too close to it.
pub open spec fn placed(land: Seq<(int, int)>, draws: Seq<int>) -> Seq<(int, int)>
    decreases draws.len(),
{
    if draws.len() == 0 {
        Seq::empty()
    } else {
        let before = placed(land, draws.drop_last());
        let p = land[draws.last()];
        if exists|i: int| 0 <= i < before.len() && !far_apart(#[trigger] before[i], p) {
            before
        } else {
            before.push(p)
        }
    }
}

/// Draws of land cells that lie pairwise at least `CITY_MIN_DISTANCE` apart
/// are all accepted: each drawn cell gets its city, in draw order.
pub proof fn lemma_far_apart_draws_all_placed(land: Seq<(int, int)>, draws: Seq<int>)
    requires
        forall|i: int| 0 <= i < draws.len() ==> 0 <= #[trigger] draws[i] < land.len(),
        forall|i: int, j: int|
            0 <= i < j < draws.len() ==> far_apart(land[#[trigger] draws[i]], land[#[trigger] draws[j]]),
    ensures
        placed(land, draws) == draws.map_values(|d: int| land[d]),
    decreases draws.len(),
{
    if draws.len() > 0 {
        let front = draws.drop_last();
        lemma_far_apart_draws_all_placed(land, front);
        let before = placed(land, front);
        let p = land[draws.last()];
        assert forall|i: int| 0 <= i < before.len() implies far_apart(#[trigger] before[i], p) by {
            assert(before[i] == land[front[i]]);
            assert(front[i] == draws[i]);
            assert(far_apart(land[draws[i]], land[draws[draws.len() - 1]]));
        }
        assert(placed(land, draws) == before.push(p));
        assert(draws.map_values(|d: int| land[d]) =~= front.map_values(|d: int| land[d]).push(p));
    }
}

/// The centres of the cities, in order.
pub open spec fn centres(cities: Seq<CityData>) -> Seq<(int, int)> {
    cities.map_values(|c: CityData| centre(c))
}

/// `cities` is what placement makes of the land-cell draws `draws`: every draw
/// names a land cell, the draws stop after `MAX_ATTEMPTS` or as soon as
/// `CITY_COUNT_TARGET` cities stand, and the cities are centred where `placed`
/// puts them.
pub open spec fn placed_by(cities: Seq<CityData>, land: Seq<(int, int)>, draws: Seq<int>) -> bool {
    &&& draws.len() <= MAX_ATTEMPTS
    &&& forall|i: int| 0 <= i < draws.len() ==> 0 <= #[trigger] draws[i] < land.len()
    &&& centres(cities) == placed(land, draws)
    &&& (draws.len() == MAX_ATTEMPTS || cities.len() == CITY_COUNT_TARGET)
    &&& forall|k: int| 0 <= k < draws.len() ==> (#[trigger] placed(land, draws.take(k))).len() < CITY_COUNT_TARGET
}

/// Places up to `CITY_COUNT_TARGET` cities on random land cells, drawing with a
/// generator seeded from `seed + 1` and skipping draws too close to a city
/// already placed, for at most `MAX_ATTEMPTS` draws. A planet without land gets
/// no cities. Cell coordinates must leave room for the city layout in `i32`.
pub fn generate(planet: &PlanetData, seed: u64) -> (cities: Vec<CityData>)
    requires
        forall|p: (int, int)| land_cells_of(planet.continents@).contains(p) ==> small(p.0) && small(p.1),
    ensures
        well_placed(cities@, land_cells_of(planet.continents@)),
        land_cells_of(planet.continents@).len() == 0 ==> cities@.len() == 0,
        land_cells_of(planet.continents@).len() > 0 ==> exists|draws: Seq<int>|
            #[trigger] placed_by(cities@, land_cells_of(planet.continents@), draws),
{
    let ghost land = land_cells_of(planet.continents@);
    let mut rng: ChaCha8Rng = seeded(seed.wrapping_add(1));
    let cells = land_cells(planet);
    if cells.len() == 0 {
        return Vec::new();
    }
    let mut cities: Vec<CityData> = Vec::new();
    let mut attempts: u32 = 0;
    let ghost mut draws: Seq<int> = Seq::empty();
    assert(centres(cities@) =~= placed(land, draws));
    while cities.len() < CITY_COUNT_TARGET && attempts < MAX_ATTEMPTS
        invariant
            cells@.map_values(|c: (i32, i32)| (c.0 as int, c.1 as int)) == land,
            forall|p: (int, int)| land.contains(p) ==> small(p.0) && small(p.1),
            cells@.len() > 0,
            well_placed(cities@, land),
            draws.len() == attempts,
            attempts <= MAX_ATTEMPTS,
            forall|i: int| 0 <= i < draws.len() ==> 0 <= #[trigger] draws[i] < land.len(),
            centres(cities@) == placed(land, draws),
            forall|k: int| 0 <= k < draws.len() ==> (#[trigger] placed(land, draws.take(k))).len() < CITY_COUNT_TARGET,
        decreases MAX_ATTEMPTS - attempts,
    {
        attempts += 1;
        let idx = below(&mut rng, cells.len());
        let cell = cells[idx];
        let ghost p = (cell.0 as int, cell.1 as int);
        assert(land[idx as int] == p);
        assert(land.contains(p));
        let ghost before = cities@;
        let ghost old_draws = draws;
        try_place(&mut cities, cell);
        proof {
            draws = draws.push(idx as int);
            assert(draws.drop_last() =~= old_draws);
            assert(draws.take(old_draws.len() as int) =~= old_draws);
            assert forall|k: int| 0 <= k < draws.len() implies (#[trigger] placed(land, draws.take(k))).len() < CITY_COUNT_TARGET by {
                if k < old_draws.len() {
                    assert(draws.take(k) =~= old_draws.take(k));
                }
            }
            assert forall|i: int| 0 <= i < draws.len() implies 0 <= #[trigger] draws[i] < land.len() by {
                if i < old_draws.len() {
                    assert(draws[i] == old_draws[i]);
                }
            }
            let pb = placed(land, old_draws);
            assert(pb == centres(before));
            if exists|i: int| 0 <= i < before.len() && !far_apart(centre(#[trigger] before[i]), p) {
                let i = choose|i: int| 0 <= i < before.len() && !far_apart(centre(#[trigger] before[i]), p);
                assert(pb[i] == centre(before[i]));
                assert(placed(land, draws) == pb);
            } else {
                assert forall|i: int| 0 <= i < pb.len() implies far_apart(#[trigger] pb[i], p) by {
                    assert(pb[i] == centre(before[i]));
                }
                assert(placed(land, draws) == pb.push(p));
                assert(cities@.take(before.len() as int) == before);
                assert(centres(cities@) =~= pb.push(p)) by {
                    assert forall|i: int| 0 <= i < before.len() implies centres(cities@)[i] == pb[i] by {
                        assert(cities@[i] == cities@.take(before.len() as int)[i]);
                    }
                }
            }
        }
        proof {
            if cities@.len() > before.len() {
                assert forall|i: int| 0 <= i < cities@.len() implies land.contains(centre(#[trigger] cities@[i]))
                    && small(cities@[i].lat as int) && small(cities@[i].lon as int) && laid_out(cities@[i]) by {
                    if i < before.len() {
                        assert(cities@[i] == cities@.take(before.len() as int)[i]);
                    }
                }
                assert forall|i: int, j: int|
                    0 <= i < j < cities@.len() implies far_apart(centre(#[trigger] cities@[i]), centre(#[trigger] cities@[j])) by {
                    assert(cities@[i] == before[i]);
                    if j < before.len() {
                        assert(cities@[j] == before[j]);
                    } else {
                        assert(far_apart(centre(before[i]), p));
                        lemma_dist2_symmetric(centre(before[i]), p);
                    }
                }
            }
        }
    }
    assert(placed_by(cities@, land, draws));
    cities
}

/// The seed a block's buildings are drawn from: the world seed plus the block's
/// x scaled by 1000 and its z by 997 (negative coordinates count as 0), with
/// wrap-around. The products are exact; computed in single-precision floating
/// point they agree with this for coordinates up to 16777 (x) and 16827 (z),
/// past which `f32` rounds them.
pub fn block_seed(seed: u64, x: i32, z: i32) -> (s: u64)
    ensures
        s == vstd::wrapping::u64_specs::wrapping_add(
            vstd::wrapping::u64_specs::wrapping_add(seed, (if x > 0 { x * 1000 } else { 0 }) as u64),
            (if z > 0 { z * 997 } else { 0 }) as u64,
        ),
{
    let a: u64 = if x > 0 { (x as u64) * 1000 } else { 0 };
    let b: u64 = if z > 0 { (z as u64) * 997 } else { 0 };
    seed.wrapping_add(a).wrapping_add(b)
}

} // verus!
