use galaxy_roamer::city::{block_seed, generate, CityData, CITY_MIN_DISTANCE};
use galaxy_roamer::galaxy::{planet_type, planet_type_for_roll, PlanetType};
use galaxy_roamer::planet::{bfs, flood_fill_continents, PlanetData, GRID_SIZE};
use galaxy_roamer::rng::seeded;
use noise::{NoiseFn, Simplex};
use std::collections::HashSet;

/// The land grid a planet of `seed` is generated from.
fn land_grid(seed: u64) -> Vec<Vec<bool>> {
    let noise = Simplex::new(seed as u32);
    let n = GRID_SIZE as usize;
    let mut land = vec![vec![false; n]; n];
    for x in 0..GRID_SIZE {
        for z in 0..GRID_SIZE {
            let nx = x as f64 / GRID_SIZE as f64 * 4.0;
            let nz = z as f64 / GRID_SIZE as f64 * 4.0;
            land[x as usize][z as usize] = noise.get([nx, nz]) > 0.0;
        }
    }
    land
}

fn planet(seed: u64) -> PlanetData {
    PlanetData { continents: flood_fill_continents(&land_grid(seed)) }
}

fn test_planet() -> PlanetData {
    planet(42)
}

fn grid(rows: &[&str]) -> Vec<Vec<bool>> {
    rows.iter().map(|r| r.chars().map(|c| c == '#').collect()).collect()
}

#[test]
fn planet_has_continents() {
    let planet = planet(42);
    assert!(!planet.continents.is_empty(), "seed 42 should produce at least one continent");
}

#[test]
fn continents_have_minimum_size() {
    let planet = planet(42);
    for c in &planet.continents {
        assert!(c.cells.len() >= 4, "all continents must have at least 4 cells");
    }
}

#[test]
fn planet_generation_is_deterministic() {
    let a = planet(42);
    let b = planet(42);
    assert_eq!(a.continents.len(), b.continents.len());
    assert_eq!(a.continents[0].cells.len(), b.continents[0].cells.len());
}

#[test]
fn continents_are_disjoint_and_on_land() {
    let land = land_grid(42);
    let planet = planet(42);
    let mut seen = HashSet::new();
    for c in &planet.continents {
        for &(x, z) in &c.cells {
            assert!(land[x as usize][z as usize], "({x}, {z}) is land");
            assert!(seen.insert((x, z)), "({x}, {z}) belongs to one continent");
        }
    }
}

#[test]
fn flood_fill_drops_small_islands() {
    let land = grid(&[
        "##....",
        "##....",
        "....#.",
        "......",
        "..###.",
        "..#...",
    ]);
    let cs = flood_fill_continents(&land);
    assert_eq!(cs.len(), 2);
    assert_eq!(cs[0].cells, vec![(0, 0), (1, 0), (0, 1), (1, 1)]);
    let mut second = cs[1].cells.clone();
    second.sort();
    assert_eq!(second, vec![(4, 2), (4, 3), (4, 4), (5, 2)]);
}

#[test]
fn flood_fill_connects_only_sideways() {
    // Diagonal neighbours are separate landmasses.
    let land = grid(&["#.#.", ".#.#", "#.#.", ".#.#"]);
    assert!(flood_fill_continents(&land).is_empty());
    assert!(flood_fill_continents(&grid(&["....", "....", "....", "...."])).is_empty());
    let full = flood_fill_continents(&grid(&["###", "###", "###"]));
    assert_eq!(full.len(), 1);
    assert_eq!(full[0].cells.len(), 9);
}

#[test]
fn bfs_visits_in_breadth_first_order_and_marks_cells() {
    let land = grid(&["###", ".#.", "..."]);
    let mut visited = vec![vec![false; 3]; 3];
    let cells = bfs(&land, &mut visited, 0, 0, 3);
    assert_eq!(cells, vec![(0, 0), (0, 1), (1, 1), (0, 2)]);
    assert_eq!(visited, grid(&["###", ".#.", "..."]));
    // Already visited cells are not reached again.
    let again = bfs(&land, &mut visited, 1, 1, 3);
    assert_eq!(again, vec![(1, 1)]);
}

#[test]
fn cities_placed_on_land() {
    let planet = test_planet();
    let land_set: HashSet<(i32, i32)> = planet
        .continents
        .iter()
        .flat_map(|c| c.cells.iter().cloned())
        .collect();
    let cities = generate(&planet, 42);
    for city in &cities {
        assert!(
            land_set.contains(&(city.lat, city.lon)),
            "city at ({}, {}) is not on land",
            city.lat,
            city.lon
        );
    }
}

#[test]
fn cities_are_minimum_distance_apart() {
    let planet = test_planet();
    let cities = generate(&planet, 42);
    for i in 0..cities.len() {
        for j in (i + 1)..cities.len() {
            let dx = (cities[i].lat - cities[j].lat) as f32;
            let dz = (cities[i].lon - cities[j].lon) as f32;
            let dist = (dx * dx + dz * dz).sqrt();
            assert!(dist >= CITY_MIN_DISTANCE as f32, "cities {} and {} are too close: {}", i, j, dist);
        }
    }
}

#[test]
fn city_generation_is_deterministic() {
    let planet = test_planet();
    let a = generate(&planet, 42);
    let b = generate(&planet, 42);
    assert_eq!(a.len(), b.len());
}

#[test]
fn cities_are_laid_out_in_districts_and_blocks() {
    let cities: Vec<CityData> = generate(&test_planet(), 7);
    assert!(!cities.is_empty());
    assert!(cities.len() <= 8);
    for c in &cities {
        assert_eq!(c.districts.len(), 4);
        let corners: Vec<(i32, i32)> = c.districts.iter().map(|d| (d.x, d.z)).collect();
        assert_eq!(
            corners,
            vec![(c.lat, c.lon), (c.lat, c.lon + 3), (c.lat + 3, c.lon), (c.lat + 3, c.lon + 3)]
        );
        for d in &c.districts {
            assert_eq!(d.blocks.len(), 9);
            assert_eq!((d.blocks[0].x, d.blocks[0].z), (d.x, d.z));
            assert_eq!((d.blocks[5].x, d.blocks[5].z), (d.x + 1, d.z + 2));
            assert_eq!((d.blocks[8].x, d.blocks[8].z), (d.x + 2, d.z + 2));
        }
    }
}

#[test]
fn no_land_means_no_cities() {
    let empty = PlanetData { continents: Vec::new() };
    assert!(generate(&empty, 42).is_empty());
}

#[test]
fn block_seed_scales_and_wraps() {
    assert_eq!(block_seed(5, 2, 3), 5 + 2000 + 2991);
    assert_eq!(block_seed(5, -2, -3), 5);
    assert_eq!(block_seed(u64::MAX, 1, 0), 999);
    assert_eq!(block_seed(0, 100_000, 0), 100_000_000);
}

#[test]
fn planet_types_follow_the_roll() {
    assert_eq!(planet_type_for_roll(0), PlanetType::Rock);
    assert_eq!(planet_type_for_roll(1), PlanetType::Fire);
    assert_eq!(planet_type_for_roll(2), PlanetType::Water);
}

#[test]
fn planet_type_draws_are_deterministic_per_seed() {
    let mut a = seeded(9);
    let mut b = seeded(9);
    let xs: Vec<PlanetType> = (0..20).map(|_| planet_type(&mut a)).collect();
    let ys: Vec<PlanetType> = (0..20).map(|_| planet_type(&mut b)).collect();
    assert_eq!(xs, ys);
}

#[test]
fn planet_type_draws_cover_all_types() {
    let mut rng = seeded(42);
    let draws: Vec<PlanetType> = (0..60).map(|_| planet_type(&mut rng)).collect();
    for t in [PlanetType::Rock, PlanetType::Fire, PlanetType::Water] {
        assert!(draws.contains(&t), "{t:?} drawn");
    }
}

#[test]
fn bfs_keeps_the_grid_shape_and_skips_diagonals() {
    let land = vec![vec![true, true], vec![false, true]];
    let mut visited = vec![vec![false, false], vec![false, false]];
    assert_eq!(bfs(&land, &mut visited, 0, 0, 2), vec![(0, 0), (0, 1), (1, 1)]);
    assert_eq!(visited, vec![vec![true, true], vec![false, true]]);
    let land = vec![vec![true, false], vec![false, true]];
    let mut visited = vec![vec![false, false], vec![false, false]];
    assert_eq!(bfs(&land, &mut visited, 0, 0, 2), vec![(0, 0)]);
    assert_eq!(visited, vec![vec![true, false], vec![false, false]]);
}
