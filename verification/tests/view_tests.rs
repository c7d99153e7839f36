use rust_game_of_life::section::LocalBoardSection;
use rust_game_of_life::view::BoardView;
use rust_game_of_life::view::Rectangle;
use rust_game_of_life::whole::Whole;

#[test]
fn rectangle_reports_its_edges() {
    let r = Rectangle::new(3, 7, 10, 20);
    assert_eq!(r.get_start_x(), 3);
    assert_eq!(r.get_end_x(), 13);
    assert_eq!(r.get_start_y(), 7);
    assert_eq!(r.get_end_y(), 27);
}

#[test]
fn view_shows_nothing_before_the_first_snapshot() {
    let seed = vec![(2, 2), (3, 2), (2, 3), (3, 3)];
    let (_sections, _edges, registerers) =
        Whole::<LocalBoardSection>::create_sections(6, 6, 2, &seed);
    let view_rect = Rectangle::new(0, 0, 10, 10);
    let mut view = BoardView::new(view_rect, registerers);

    let cells = view.foreach_cell();
    assert_eq!(cells.len(), 100);
    assert!(cells.iter().all(|entry| entry.0.is_none()));
}

#[test]
fn view_reflects_published_snapshots() {
    // A block still life in the first section; one tick publishes snapshots
    // to the freshly registered view.
    let seed = vec![(2, 2), (3, 2), (2, 3), (3, 3)];
    let (sections, _edges, registerers) =
        Whole::<LocalBoardSection>::create_sections(6, 6, 2, &seed);
    let view_rect = Rectangle::new(0, 0, 10, 10);
    let mut view = BoardView::new(view_rect, registerers);
    let mut whole = Whole::new(sections);

    whole.advance_all(0);
    let cells = view.foreach_cell();
    assert_eq!(cells.len(), 100);
    assert!(cells.iter().all(|entry| entry.0.is_some()));
    for &(cell, x, y) in cells.iter() {
        let expected = seed.contains(&(x, y));
        if x < 6 && y < 6 {
            assert_eq!(cell.unwrap().alive, expected, "at ({}, {})", x, y);
        }
    }
}

#[test]
fn view_keeps_the_latest_snapshot() {
    let seed = vec![(2, 2)];
    let (sections, _edges, registerers) =
        Whole::<LocalBoardSection>::create_sections(6, 6, 1, &seed);
    let view_rect = Rectangle::new(0, 0, 6, 6);
    let mut view = BoardView::new(view_rect, registerers);
    let mut whole = Whole::new(sections);

    whole.advance_all(0);
    let before = view.foreach_cell();
    let lonely_before = before
        .iter()
        .find(|entry| entry.1 == 2 && entry.2 == 2)
        .unwrap()
        .0
        .unwrap();
    assert!(lonely_before.alive);
    assert_eq!(lonely_before.get_iteration(), 0);

    // One real generation: the lonely cell dies; the view sees the newer
    // snapshot on its next read.
    whole.advance_all(1);
    let after = view.foreach_cell();
    let lonely_after = after
        .iter()
        .find(|entry| entry.1 == 2 && entry.2 == 2)
        .unwrap()
        .0
        .unwrap();
    assert!(!lonely_after.alive);
    assert_eq!(lonely_after.get_iteration(), 1);
}

#[test]
fn view_clips_to_its_window() {
    // A window that covers only the upper-left 4x4 of a single section.
    let seed: Vec<(u32, u32)> = Vec::new();
    let (sections, _edges, registerers) =
        Whole::<LocalBoardSection>::create_sections(6, 6, 1, &seed);
    let view_rect = Rectangle::new(0, 0, 4, 4);
    let mut view = BoardView::new(view_rect, registerers);
    let mut whole = Whole::new(sections);
    whole.advance_all(0);

    let cells = view.foreach_cell();
    assert_eq!(cells.len(), 16);
    for entry in cells.iter() {
        assert!(entry.1 < 4 && entry.2 < 4);
    }

    // An empty Cell is still reported: the window shows dead cells too.
    assert!(cells.iter().all(|entry| entry.0.is_some()));
    assert!(cells.iter().all(|entry| !entry.0.unwrap().alive));
}
