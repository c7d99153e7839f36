use std::sync::Arc;
use std::sync::mpsc::sync_channel;
use rust_game_of_life::board::Board;
use rust_game_of_life::board::Cell;
use rust_game_of_life::section::BoardSection;
use rust_game_of_life::section::BoardSectionSide;
use rust_game_of_life::section::LocalBoardSection;
use rust_game_of_life::whole::Whole;

const GLIDER: [(u32, u32); 5] = [(6, 5), (7, 5), (8, 5), (8, 4), (7, 3)];

#[test]
fn whole_reports_global_dimensions() {
    let seed = vec![(3, 5), (4, 5), (5, 5), (5, 4), (4, 3)];
    let (sections, _edges, _registerers) =
        Whole::<LocalBoardSection>::create_sections(10, 10, 2, &seed);
    let whole = Whole::new(sections);

    assert_eq!(whole.sections_width(), 2);
    assert_eq!(whole.sections_height(), 2);
    // Two sections of ten columns overlap by two: 2 * 8 + 2 columns remain.
    assert_eq!(whole.columns_count(), 18);
    assert_eq!(whole.rows_count(), 18);
}

#[test]
fn registerers_cover_the_section_regions() {
    let seed: Vec<(u32, u32)> = Vec::new();
    let (_sections, _edges, registerers) =
        Whole::<LocalBoardSection>::create_sections(6, 4, 2, &seed);

    assert_eq!(registerers.len(), 4);
    let expected = [(0, 0), (0, 4), (6, 0), (6, 4)];
    for (k, (area, _sender)) in registerers.iter().enumerate() {
        assert_eq!(area.get_start_x(), expected[k].0);
        assert_eq!(area.get_start_y(), expected[k].1);
        assert_eq!(area.get_end_x(), expected[k].0 + 6);
        assert_eq!(area.get_end_y(), expected[k].1 + 4);
    }
}

#[test]
fn foreach_cell_lists_every_global_coordinate_once() {
    let seed = vec![(3, 3)];
    let (sections, _edges, _registerers) =
        Whole::<LocalBoardSection>::create_sections(6, 6, 2, &seed);
    let whole = Whole::new(sections);

    let cells = whole.foreach_cell();
    assert_eq!(cells.len(), 100);
    let rows = whole.rows_count() as u32;
    for (k, entry) in cells.iter().enumerate() {
        assert_eq!(entry.1, k as u32 / rows);
        assert_eq!(entry.2, k as u32 % rows);
    }
    // The seed lives in the first section, at identical global coordinates.
    assert!(cells[(3 * 10 + 3) as usize].0.alive);
    assert!(!cells[0].0.alive);
}

#[test]
fn advance_all_advances_every_section() {
    let seed = vec![(3, 3), (4, 3), (5, 3)];
    let (sections, _edges, _registerers) =
        Whole::<LocalBoardSection>::create_sections(8, 8, 2, &seed);
    let mut whole = Whole::new(sections);

    whole.advance_all(1);
    // Interior cells of every section advanced one generation.
    for sx in 0..2 {
        for sy in 0..2 {
            let board = whole.get_section(sx, sy).get_board();
            assert_eq!(board.get_cell(3, 3).get_iteration(), 1);
        }
    }
    // A blinker spins: the horizontal triple becomes a vertical one.
    let board = whole.get_section(0, 0).get_board();
    assert!(!board.get_cell(3, 3).alive);
    assert!(board.get_cell(4, 2).alive);
    assert!(board.get_cell(4, 3).alive);
    assert!(board.get_cell(4, 4).alive);
}

fn feed_dead_edges(
    edges: &rust_game_of_life::whole::EdgeSenders,
    span: usize,
    generation: usize,
) {
    let row = Arc::new(vec![Cell::new(false, generation, false); span]);
    for tx in edges.top.iter() {
        let _ = tx.try_send(row.clone());
    }
    for tx in edges.bottom.iter() {
        let _ = tx.try_send(row.clone());
    }
    for tx in edges.left.iter() {
        let _ = tx.try_send(row.clone());
    }
    for tx in edges.right.iter() {
        let _ = tx.try_send(row.clone());
    }
}

#[test]
fn partitioned_run_matches_monolithic_run() {
    let seed: Vec<(u32, u32)> = GLIDER.to_vec();
    let target = 3;

    // Monolithic: one section covering the whole 18x18 global grid, its
    // boundary fed with dead cells of the current generation.
    let (mut mono, _reg) = LocalBoardSection::create(Board::new(18, 18, &seed));
    let (mono_top, rx) = sync_channel(1);
    mono.add_receiver(BoardSectionSide::Top, rx);
    let (mono_bottom, rx) = sync_channel(1);
    mono.add_receiver(BoardSectionSide::Bottom, rx);
    let (mono_left, rx) = sync_channel(1);
    mono.add_receiver(BoardSectionSide::Left, rx);
    let (mono_right, rx) = sync_channel(1);
    mono.add_receiver(BoardSectionSide::Right, rx);

    // Partitioned: the same pattern on a 2x2 mesh of 10x10 sections, the
    // glider sitting against the vertical seam.
    let (sections, edges, _registerers) =
        Whole::<LocalBoardSection>::create_sections(10, 10, 2, &seed);
    let mut whole = Whole::new(sections);
    assert_eq!(whole.columns_count(), 18);
    assert_eq!(whole.rows_count(), 18);

    for generation in 1..=target {
        for _ in 0..10 {
            let row = Arc::new(vec![Cell::new(false, generation, false); 18]);
            let _ = mono_top.try_send(row.clone());
            let _ = mono_bottom.try_send(row.clone());
            let _ = mono_left.try_send(row.clone());
            let _ = mono_right.try_send(row.clone());
            mono.try_iteration(generation);

            feed_dead_edges(&edges, 10, generation);
            whole.advance_all(generation);
        }
    }

    // Both runs have converged on the target generation everywhere; the
    // alive pattern must agree cell for cell.
    let cells = whole.foreach_cell();
    assert_eq!(cells.len(), 18 * 18);
    let mono_board = mono.get_board();
    for (cell, gx, gy) in cells.iter() {
        let reference = mono_board.get_cell(*gx, *gy);
        assert_eq!(
            cell.get_iteration(),
            target,
            "cell ({}, {}) did not reach the target generation",
            gx,
            gy
        );
        assert_eq!(reference.get_iteration(), target);
        assert_eq!(
            cell.alive, reference.alive,
            "cell ({}, {}) disagrees with the monolithic run",
            gx, gy
        );
    }
    // The glider actually moved: the pattern is not the seed any more.
    let moved = GLIDER
        .iter()
        .any(|&(x, y)| !cells[(x as usize) * 18 + (y as usize)].0.alive);
    assert!(moved);
}
