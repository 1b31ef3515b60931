use cajal::cell::{Cell, CellType, Chromosome, Gate, Permissions};
use cajal::page::{within, neighbor_index, GrowthPhase, Page, PageError};
use cajal::zorder::xy_to_z;
use cajal::Cajal;

fn uniform(p: Permissions) -> Vec<Permissions> {
    vec![p; 4096]
}

fn grown(cell_type: CellType, gate: Gate) -> Cell {
    let mut c = Cell::new();
    c.set_cell_type(cell_type);
    c.set_gate(gate);
    c
}

#[test]
fn two_cell_scenario_north() {
    let mut data = vec![Cell::new(), Cell::new()];
    let before = data.clone();
    let change = Page::grow_local(&mut data, 0, 0, CellType::Axon, Chromosome::North);
    assert_eq!(change, Some(grown(CellType::Axon, Gate::South)));
    assert_eq!(neighbor_index(0, 0, Chromosome::North), xy_to_z(0, 1));
    assert_eq!(neighbor_index(0, 0, Chromosome::North), 1);
    assert_eq!(data, before);
}

#[test]
fn grow_local_gate_is_opposite_in_all_directions() {
    let mut data = vec![Cell::new(); 4096];
    for (d, g) in [
        (Chromosome::North, Gate::South),
        (Chromosome::South, Gate::North),
        (Chromosome::East, Gate::West),
        (Chromosome::West, Gate::East),
    ] {
        let change = Page::grow_local(&mut data, 10, 20, CellType::Dendrite, d);
        assert_eq!(change, Some(grown(CellType::Dendrite, g)));
    }
}

#[test]
fn grow_local_skips_occupied_neighbor() {
    let mut data = vec![Cell::new(); 4];
    data[1].set_cell_type(CellType::Dendrite);
    data[1].set_gate(Gate::East);
    let before = data.clone();
    let change = Page::grow_local(&mut data, 0, 0, CellType::Axon, Chromosome::North);
    assert_eq!(change, None);
    let again = Page::grow_local(&mut data, 0, 0, CellType::Axon, Chromosome::North);
    assert_eq!(again, None);
    assert_eq!(data, before);
    assert_eq!(data[1].get_cell_type(), CellType::Dendrite);
    assert_eq!(data[1].get_gate(), Gate::East);
}

#[test]
fn boundary_rule() {
    assert!(!within(0, 63, Chromosome::North));
    assert!(within(0, 62, Chromosome::North));
    assert!(!within(63, 0, Chromosome::East));
    assert!(within(62, 0, Chromosome::East));
    assert!(!within(5, 0, Chromosome::South));
    assert!(within(5, 1, Chromosome::South));
    assert!(!within(0, 5, Chromosome::West));
    assert!(within(1, 5, Chromosome::West));
    assert!(!within(64, 5, Chromosome::West));
    assert!(!within(5, 64, Chromosome::South));
}

#[test]
fn neighbor_indices() {
    assert_eq!(neighbor_index(5, 5, Chromosome::North), xy_to_z(5, 6));
    assert_eq!(neighbor_index(5, 5, Chromosome::South), xy_to_z(5, 4));
    assert_eq!(neighbor_index(5, 5, Chromosome::East), xy_to_z(6, 5));
    assert_eq!(neighbor_index(5, 5, Chromosome::West), xy_to_z(4, 5));
}

#[test]
fn from_samples_rejects_wrong_cell_count() {
    let genes = vec![Permissions::all(); 4095];
    assert_eq!(Page::from_samples(&genes, &vec![]).err(), Some(PageError::WrongCellCount));
    let genes = vec![Permissions::all(); 4097];
    assert_eq!(Page::from_samples(&genes, &vec![(4096, Gate::North)]).err(), Some(PageError::WrongCellCount));
}

#[test]
fn from_samples_rejects_seed_outside_page() {
    let genes = uniform(Permissions::all());
    let samples = vec![(3, Gate::North), (4096, Gate::South)];
    assert_eq!(Page::from_samples(&genes, &samples).err(), Some(PageError::SeedOutOfRange));
    assert!(Page::from_samples(&genes, &vec![(4095, Gate::South)]).is_ok());
}

#[test]
fn new_rejects_too_many_seeds() {
    assert_eq!(Page::new(4097).err(), Some(PageError::TooManySeeds));
    assert_eq!(Cajal::with_seeds(4097).err().map(|e| e), Some(PageError::TooManySeeds));
    assert!(Page::new(4096).is_ok());
}

#[test]
fn seeding_with_replacement() {
    let mut genes = uniform(Permissions::none());
    genes[7] = Permissions::from_bits(9);
    let samples = vec![(7, Gate::East), (100, Gate::South), (7, Gate::West)];
    let page = Page::from_samples(&genes, &samples).unwrap();
    assert_eq!(page.active_len(), 2);
    assert_eq!(page.active_indices(), vec![7, 100]);
    assert_eq!(page.pending_len(), 0);
    let seven = *page.cell_at(7);
    assert_eq!(seven.get_cell_type(), CellType::Body);
    assert_eq!(seven.get_gate(), Gate::West);
    assert_eq!(seven.get_chromosome(), Permissions::from_bits(9));
    assert_eq!(page.cell_at(100).get_gate(), Gate::South);
    assert_eq!(*page.cell_at(8), Cell::new());
    for i in 0..4096u32 {
        let body = page.cell_at(i).get_cell_type() == CellType::Body;
        assert_eq!(body, page.is_active(i));
        assert_eq!(body, i == 7 || i == 100);
    }
}

#[test]
fn seeding_distinct_samples_fills_the_count() {
    let genes = uniform(Permissions::all());
    let samples = vec![(1, Gate::North), (2, Gate::North), (3, Gate::North)];
    let page = Page::from_samples(&genes, &samples).unwrap();
    assert_eq!(page.active_len(), 3);
}

#[test]
fn random_page_honours_the_seed_count() {
    for seeds in [0u32, 1, 17, 205, 4096] {
        let page = Page::new(seeds).unwrap();
        assert!(page.active_len() <= seeds);
        if seeds > 0 {
            assert!(page.active_len() > 0);
        }
        let mut bodies = 0;
        for i in 0..4096u32 {
            let t = page.cell_at(i).get_cell_type();
            assert!(t == CellType::Body || t == CellType::Empty);
            assert_eq!(t == CellType::Body, page.is_active(i));
            if t == CellType::Body {
                bodies += 1;
            }
        }
        assert_eq!(bodies, page.active_len());
        assert!(page.active_indices().iter().all(|i| *i < 4096));
        assert_eq!(page.pending_len(), 0);
    }
}

#[test]
fn empty_page_is_exhausted() {
    let mut page = Page::new(0).unwrap();
    assert!(page.is_exhausted());
    assert_eq!(page.active_len(), 0);
    assert_eq!(page.grow(GrowthPhase::Axon), 0);
}

#[test]
fn grow_on_empty_frontier_changes_nothing() {
    let genes = uniform(Permissions::none());
    let mut page = Page::from_samples(&genes, &vec![(50, Gate::North)]).unwrap();
    assert_eq!(page.grow(GrowthPhase::Axon), 0);
    page.update();
    assert!(page.is_exhausted());
    let cells: Vec<Cell> = (0..4096u32).map(|i| *page.cell_at(i)).collect();
    assert_eq!(page.grow(GrowthPhase::Axon), 0);
    assert_eq!(page.grow(GrowthPhase::Dendrite), 0);
    let after: Vec<Cell> = (0..4096u32).map(|i| *page.cell_at(i)).collect();
    assert_eq!(cells, after);
    assert!(page.is_exhausted());
    assert_eq!(page.pending_len(), 0);
}

#[test]
fn one_seed_grows_in_four_directions() {
    let genes = uniform(Permissions::all());
    let seed = xy_to_z(5, 5);
    let mut page = Page::from_samples(&genes, &vec![(seed, Gate::North)]).unwrap();
    assert_eq!(page.grow(GrowthPhase::Axon), 4);
    assert_eq!(page.pending_len(), 4);
    assert_eq!(page.pending_change(xy_to_z(5, 6)), Some(grown(CellType::Axon, Gate::South)));
    assert_eq!(page.pending_change(xy_to_z(5, 4)), Some(grown(CellType::Axon, Gate::North)));
    assert_eq!(page.pending_change(xy_to_z(6, 5)), Some(grown(CellType::Axon, Gate::West)));
    assert_eq!(page.pending_change(xy_to_z(4, 5)), Some(grown(CellType::Axon, Gate::East)));
    assert_eq!(page.pending_change(seed), None);
    let mut expected = vec![xy_to_z(5, 6), xy_to_z(5, 4), xy_to_z(6, 5), xy_to_z(4, 5)];
    expected.sort();
    assert_eq!(page.active_indices(), expected);
    // the grid itself is untouched until the commit
    assert_eq!(page.cell_at(xy_to_z(5, 6)).get_cell_type(), CellType::Empty);
    page.update();
    assert_eq!(page.pending_len(), 0);
    let north = *page.get_cell(5, 6);
    assert_eq!(north.get_cell_type(), CellType::Axon);
    assert_eq!(north.get_gate(), Gate::South);
    assert_eq!(north.get_chromosome(), Permissions::all());
    assert_eq!(page.get_cell(5, 5).get_cell_type(), CellType::Body);
    assert_eq!(page.active_indices(), expected);
}

#[test]
fn dendrite_phase_grows_dendrites() {
    let genes = uniform(Permissions::from_bits(1));
    let mut page = Page::from_samples(&genes, &vec![(xy_to_z(9, 9), Gate::North)]).unwrap();
    assert_eq!(page.grow(GrowthPhase::Dendrite), 1);
    assert_eq!(page.pending_change(xy_to_z(9, 10)), Some(grown(CellType::Dendrite, Gate::South)));
    assert_eq!(page.active_indices(), vec![xy_to_z(9, 10)]);
}

#[test]
fn growth_stops_at_the_edge() {
    let genes = uniform(Permissions::all());
    let mut page = Page::from_samples(&genes, &vec![(xy_to_z(63, 63), Gate::North)]).unwrap();
    assert_eq!(page.grow(GrowthPhase::Axon), 2);
    assert_eq!(page.pending_change(xy_to_z(63, 62)), Some(grown(CellType::Axon, Gate::North)));
    assert_eq!(page.pending_change(xy_to_z(62, 63)), Some(grown(CellType::Axon, Gate::East)));
    let mut page = Page::from_samples(&genes, &vec![(xy_to_z(0, 0), Gate::North)]).unwrap();
    assert_eq!(page.grow(GrowthPhase::Axon), 2);
    assert_eq!(page.pending_change(xy_to_z(0, 1)), Some(grown(CellType::Axon, Gate::South)));
    assert_eq!(page.pending_change(xy_to_z(1, 0)), Some(grown(CellType::Axon, Gate::West)));
}

#[test]
fn occupied_neighbors_get_no_proposal() {
    let genes = uniform(Permissions::all());
    let a = xy_to_z(5, 5);
    let b = xy_to_z(6, 5);
    let mut page = Page::from_samples(&genes, &vec![(a, Gate::North), (b, Gate::South)]).unwrap();
    assert_eq!(page.grow(GrowthPhase::Axon), 6);
    assert_eq!(page.pending_change(a), None);
    assert_eq!(page.pending_change(b), None);
    page.update();
    assert_eq!(page.cell_at(a).get_cell_type(), CellType::Body);
    assert_eq!(page.cell_at(a).get_gate(), Gate::North);
    assert_eq!(page.cell_at(b).get_cell_type(), CellType::Body);
    assert_eq!(page.cell_at(b).get_gate(), Gate::South);
}

#[test]
fn larger_source_index_wins_a_conflict() {
    let genes = uniform(Permissions::all());
    let low = xy_to_z(0, 0);
    let high = xy_to_z(2, 0);
    assert!(low < high);
    let target = xy_to_z(1, 0);
    let mut page =
        Page::from_samples(&genes, &vec![(high, Gate::North), (low, Gate::North)]).unwrap();
    page.grow(GrowthPhase::Axon);
    // pushed east by the low source and west by the high one: the high one decides
    assert_eq!(page.pending_change(target), Some(grown(CellType::Axon, Gate::East)));
    // (1, 1) is above the target; (0, 1) has index 1 and (1, 2) none of the sources
    let low = xy_to_z(1, 0);
    let high = xy_to_z(0, 1);
    assert!(high < low);
    let target = xy_to_z(1, 1);
    let mut page =
        Page::from_samples(&genes, &vec![(high, Gate::North), (low, Gate::North)]).unwrap();
    page.grow(GrowthPhase::Axon);
    // pushed north by (1, 0), index 2, and east by (0, 1), index 1
    assert_eq!(page.pending_change(target), Some(grown(CellType::Axon, Gate::South)));
}

#[test]
fn permissions_limit_growth() {
    let mut genes = uniform(Permissions::none());
    let seed = xy_to_z(30, 30);
    genes[seed as usize] = Permissions::from_bits(4 + 2);
    let mut page = Page::from_samples(&genes, &vec![(seed, Gate::North)]).unwrap();
    assert_eq!(page.grow(GrowthPhase::Axon), 2);
    assert_eq!(page.active_indices().len(), 2);
    assert!(page.is_active(xy_to_z(31, 30)));
    assert!(page.is_active(xy_to_z(30, 29)));
    page.update();
    // the new cells have no permissions of their own: growth ends
    assert_eq!(page.grow(GrowthPhase::Axon), 0);
    assert!(page.is_exhausted());
    assert_eq!(page.pending_len(), 0);
}

#[test]
fn each_grow_starts_with_a_fresh_buffer() {
    let genes = uniform(Permissions::from_bits(1));
    let seed = xy_to_z(3, 3);
    let mut page = Page::from_samples(&genes, &vec![(seed, Gate::North)]).unwrap();
    assert_eq!(page.grow(GrowthPhase::Axon), 1);
    page.update();
    assert_eq!(page.grow(GrowthPhase::Axon), 1);
    assert_eq!(page.pending_len(), 1);
    assert_eq!(page.pending_change(xy_to_z(3, 4)), None);
    assert_eq!(page.pending_change(xy_to_z(3, 5)), Some(grown(CellType::Axon, Gate::South)));
    // without a commit in between the next step replaces the proposals
    assert_eq!(page.grow(GrowthPhase::Axon), 1);
    assert_eq!(page.pending_len(), 1);
    assert_eq!(page.pending_change(xy_to_z(3, 5)), None);
    assert_eq!(page.pending_change(xy_to_z(3, 6)), Some(grown(CellType::Axon, Gate::South)));
    assert_eq!(page.cell_at(xy_to_z(3, 5)).get_cell_type(), CellType::Empty);
}

#[test]
fn update_commits_and_keeps_permissions() {
    let mut genes = uniform(Permissions::from_bits(8));
    let seed = xy_to_z(10, 10);
    genes[xy_to_z(9, 10) as usize] = Permissions::from_bits(3);
    let mut page = Page::from_samples(&genes, &vec![(seed, Gate::East)]).unwrap();
    assert_eq!(page.grow(GrowthPhase::Dendrite), 1);
    page.update();
    let cell = *page.get_cell(9, 10);
    assert_eq!(cell.get_cell_type(), CellType::Dendrite);
    assert_eq!(cell.get_gate(), Gate::East);
    assert_eq!(cell.get_chromosome(), Permissions::from_bits(3));
    assert_eq!(page.pending_len(), 0);
    assert_eq!(page.active_indices(), vec![xy_to_z(9, 10)]);
    // a second commit has nothing to write
    page.update();
    assert_eq!(*page.get_cell(9, 10), cell);
}

#[test]
fn memory_estimate() {
    let genes = uniform(Permissions::all());
    let samples = vec![(1, Gate::North), (2, Gate::North), (3, Gate::North)];
    let mut page = Page::from_samples(&genes, &samples).unwrap();
    assert_eq!(page.memory(), 65536 + 24);
    let count = page.grow(GrowthPhase::Axon);
    assert_eq!(page.memory(), 65536 + 8 * count + 16 * count);
}

#[test]
fn simulation_steps_commit_at_once() {
    let genes = uniform(Permissions::all());
    let page = Page::from_samples(&genes, &vec![(xy_to_z(5, 5), Gate::North)]).unwrap();
    let mut sim = Cajal::from_page(page, GrowthPhase::Axon);
    assert_eq!(sim.active_len(), 1);
    assert_eq!(sim.grow_step(), 4);
    assert_eq!(sim.get_cell(5, 6).get_cell_type(), CellType::Axon);
    assert_eq!(sim.get_cell(5, 6).get_gate(), Gate::South);
    assert_eq!(sim.grow_step(), 8);
    assert_eq!(sim.get_cell(5, 7).get_cell_type(), CellType::Axon);
    assert_eq!(sim.get_cell(6, 6).get_cell_type(), CellType::Axon);
    sim.set_phase(GrowthPhase::Dendrite);
    assert_eq!(sim.grow_step(), 12);
    assert_eq!(sim.get_cell(5, 8).get_cell_type(), CellType::Dendrite);
}

#[test]
fn simulation_grows_to_the_end() {
    let genes = uniform(Permissions::all());
    let page = Page::from_samples(&genes, &vec![(xy_to_z(0, 0), Gate::North)]).unwrap();
    let mut sim = Cajal::from_page(page, GrowthPhase::Axon);
    sim.grow();
    assert_eq!(sim.active_len(), 0);
    assert_eq!(sim.grow_step(), 0);
    for x in 0..64 {
        for y in 0..64 {
            let t = sim.get_cell(x, y).get_cell_type();
            if x == 0 && y == 0 {
                assert_eq!(t, CellType::Body);
            } else {
                assert_eq!(t, CellType::Axon);
            }
        }
    }
    // reached from (63, 62), index 4094, and from (62, 63), index 4093
    assert_eq!(sim.get_cell(63, 63).get_gate(), Gate::South);
}

#[test]
fn growth_takes_one_step_per_cell_of_distance() {
    let genes = uniform(Permissions::all());
    let page = Page::from_samples(&genes, &vec![(xy_to_z(0, 0), Gate::North)]).unwrap();
    let mut sim = Cajal::from_page(page, GrowthPhase::Axon);
    let mut steps = 0;
    let mut grown_cells = 0;
    loop {
        let count = sim.grow_step();
        if count == 0 {
            break;
        }
        steps += 1;
        grown_cells += count;
        assert!(steps <= 4096);
    }
    assert_eq!(steps, 126);
    assert_eq!(grown_cells, 4095);
}

#[test]
fn random_simulation_ends() {
    let mut sim = Cajal::with_seeds(205).unwrap();
    let occupied_before = (0..64u32)
        .flat_map(|x| (0..64u32).map(move |y| (x, y)))
        .filter(|(x, y)| sim.get_cell(*x, *y).get_cell_type() != CellType::Empty)
        .count() as u32;
    assert_eq!(occupied_before, sim.active_len());
    sim.grow();
    assert_eq!(sim.active_len(), 0);
    assert_eq!(sim.grow_step(), 0);
}

#[test]
fn serpentine_growth_takes_a_step_per_cell() {
    // one path through every cell: east along even rows, west along odd ones
    let mut genes = uniform(Permissions::none());
    for y in 0..64u32 {
        for x in 0..64u32 {
            let at_end = if y % 2 == 0 { x == 63 } else { x == 0 };
            let bits = if at_end {
                1
            } else if y % 2 == 0 {
                4
            } else {
                8
            };
            genes[xy_to_z(x, y) as usize] = Permissions::from_bits(bits);
        }
    }
    let page = Page::from_samples(&genes, &vec![(xy_to_z(0, 0), Gate::North)]).unwrap();
    let mut sim = Cajal::from_page(page, GrowthPhase::Axon);
    let mut steps = 0;
    while sim.grow_step() > 0 {
        steps += 1;
        assert!(steps <= 4095);
    }
    assert_eq!(steps, 4095);
    assert_eq!(sim.get_cell(0, 63).get_cell_type(), CellType::Axon);
    assert_eq!(sim.get_cell(0, 63).get_gate(), Gate::East);
}

#[test]
fn seeded_simulation_has_a_frontier_of_bodies() {
    for seeds in [1u32, 5, 205, 4096] {
        let sim = Cajal::with_seeds(seeds).unwrap();
        let n = sim.active_len();
        assert!(n >= 1 && n <= seeds);
        let mut bodies = 0;
        for x in 0..64 {
            for y in 0..64 {
                let t = sim.get_cell(x, y).get_cell_type();
                assert!(t == CellType::Body || t == CellType::Empty);
                if t == CellType::Body {
                    bodies += 1;
                }
            }
        }
        assert_eq!(bodies, n);
    }
    let sim = Cajal::default();
    assert!(sim.active_len() >= 1 && sim.active_len() <= 205);
    assert_eq!(Cajal::with_seeds(0).unwrap().active_len(), 0);
}

#[test]
fn simulation_memory_estimate() {
    let genes = uniform(Permissions::all());
    let samples = vec![(1, Gate::North), (2, Gate::North), (3, Gate::North)];
    let page = Page::from_samples(&genes, &samples).unwrap();
    let mut sim = Cajal::from_page(page, GrowthPhase::Axon);
    assert_eq!(sim.memory(), 65536 + 24);
    let count = sim.grow_step();
    assert_eq!(sim.memory(), 65536 + 8 * count);
}

#[test]
fn no_growth_across_an_edge() {
    let genes = uniform(Permissions::all());
    // a full top row: it grows south only, and nothing appears in row 0
    let top: Vec<(u32, Gate)> = (0..64u32).map(|x| (xy_to_z(x, 63), Gate::North)).collect();
    let mut page = Page::from_samples(&genes, &top).unwrap();
    assert_eq!(page.grow(GrowthPhase::Axon), 64);
    for x in 0..64u32 {
        assert_eq!(page.pending_change(xy_to_z(x, 0)), None);
        assert_eq!(page.pending_change(xy_to_z(x, 62)), Some(grown(CellType::Axon, Gate::North)));
    }
    // a full right column: it grows west only, and nothing appears in column 0
    let right: Vec<(u32, Gate)> = (0..64u32).map(|y| (xy_to_z(63, y), Gate::North)).collect();
    let mut page = Page::from_samples(&genes, &right).unwrap();
    assert_eq!(page.grow(GrowthPhase::Axon), 64);
    for y in 0..64u32 {
        assert_eq!(page.pending_change(xy_to_z(0, y)), None);
        assert_eq!(page.pending_change(xy_to_z(62, y)), Some(grown(CellType::Axon, Gate::East)));
    }
}
