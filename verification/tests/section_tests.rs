use std::sync::Arc;
use std::sync::mpsc::channel;
use std::sync::mpsc::sync_channel;
use rust_game_of_life::board::Board;
use rust_game_of_life::board::Cell;
use rust_game_of_life::channel::SendAttempt;
use rust_game_of_life::section::BoardSection;
use rust_game_of_life::section::BoardSectionSide;
use rust_game_of_life::section::CellStateCallback;
use rust_game_of_life::section::LocalBoardSection;

#[test]
fn halo_propagates_from_publisher_to_subscriber() {
    // Two sections share a vertical edge: L publishes its right edge, R
    // receives it on its left side. After one advance of L and one drain of
    // R, R's left halo column mirrors L's published column.
    let board_l = Board::new(4, 4, &vec![(1, 1), (2, 1), (2, 2)]);
    let (mut left, _reg_l) = LocalBoardSection::create(board_l);
    let (mut right, _reg_r) = LocalBoardSection::create(Board::new(4, 4, &vec![]));

    let (tx, rx) = sync_channel(1);
    left.subscribe(BoardSectionSide::Right, CellStateCallback::new((1, 0), tx));
    right.add_receiver(BoardSectionSide::Left, rx);

    left.try_iteration(1);
    let expected: Vec<Cell> = (0..4).map(|y| left.get_board().get_cell(2, y)).collect();

    right.try_iteration(0);
    for y in 0..4 {
        assert_eq!(right.get_board().get_cell(0, y), expected[y as usize]);
    }
}

#[test]
fn publish_sends_post_advance_edge() {
    // The published edge is the state after this tick's advance, not before.
    let (mut section, _reg) = LocalBoardSection::create(
        Board::new(4, 4, &vec![(1, 1), (1, 2), (2, 1), (2, 2)]),
    );
    let (tx, rx) = sync_channel(1);
    section.subscribe(BoardSectionSide::Top, CellStateCallback::new((0, 0), tx));

    section.try_iteration(1);

    let edge = rx.try_recv().expect("the publish phase should have sent the top edge");
    assert_eq!(edge.len(), 4);
    for x in 0..4 {
        assert_eq!(edge[x as usize], section.get_board().get_cell(x, 1));
    }
    // The block of four live cells is a still life: its cells survive.
    assert!(edge[1].alive);
    assert_eq!(edge[1].get_iteration(), 1);
}

#[test]
fn full_channel_drops_the_edge_silently() {
    let (mut section, _reg) = LocalBoardSection::create(Board::new(3, 3, &vec![]));
    let (tx, rx) = sync_channel(1);
    section.subscribe(BoardSectionSide::Left, CellStateCallback::new((0, 0), tx));

    section.try_iteration(0);
    section.try_iteration(0);  // buffer still full: this publish is dropped

    assert!(rx.try_recv().is_ok());
    assert!(rx.try_recv().is_err());
}

#[test]
fn second_subscriber_with_same_identity_is_ignored() {
    let (mut section, _reg) = LocalBoardSection::create(Board::new(3, 3, &vec![]));
    let (tx1, rx1) = sync_channel(2);
    let (tx2, rx2) = sync_channel(2);
    section.subscribe(BoardSectionSide::Right, CellStateCallback::new((0, 0), tx1));
    section.subscribe(BoardSectionSide::Right, CellStateCallback::new((0, 0), tx2));

    section.try_iteration(0);

    assert!(rx1.try_recv().is_ok());
    assert!(rx2.try_recv().is_err());
}

#[test]
fn unsubscribe_stops_publication() {
    let (mut section, _reg) = LocalBoardSection::create(Board::new(3, 3, &vec![]));
    let (tx, rx) = sync_channel(4);
    let callback = CellStateCallback::new((2, 3), tx);
    let handle = CellStateCallback::new((2, 3), {
        let (spare, _spare_rx) = sync_channel(1);
        spare
    });
    section.subscribe(BoardSectionSide::Bottom, callback);
    section.try_iteration(0);
    assert!(rx.try_recv().is_ok());

    // Unsubscribing goes by the identity, not by the channel.
    section.unsubscribe(BoardSectionSide::Bottom, &handle);
    section.try_iteration(0);
    assert!(rx.try_recv().is_err());
}

#[test]
fn snapshot_observer_receives_whole_board() {
    let (mut section, registerer) = LocalBoardSection::create(Board::new(3, 3, &vec![(1, 1)]));
    let (tx, rx) = channel();
    registerer.send(tx).unwrap();

    section.try_iteration(0);

    let snapshot = rx.try_recv().expect("the observer should have received a snapshot");
    assert_eq!(snapshot.len(), 3);
    assert_eq!(snapshot[0].len(), 3);
    assert!(snapshot[1][1].alive);
    assert!(!snapshot[0][0].alive);
}

#[test]
fn not_ready_cell_is_left_unchanged_and_retried() {
    // On a 5x5 board the centre cell touches no halo, while (2,1) touches
    // the top halo row only. With the halo lagging, the centre runs ahead
    // and (2,1) stays bit-for-bit unchanged until the halo catches up.
    let (mut section, _reg) = LocalBoardSection::create(Board::new(5, 5, &vec![]));
    section.try_iteration(2);
    section.try_iteration(2);
    assert_eq!(section.get_board().get_cell(2, 1).get_iteration(), 1);
    assert_eq!(section.get_board().get_cell(2, 2).get_iteration(), 2);
}

#[test]
fn lagging_halo_self_heals_once_fed() {
    let (mut section, _reg) = LocalBoardSection::create(Board::new(5, 5, &vec![]));
    let (feeder, rx) = sync_channel(1);
    section.add_receiver(BoardSectionSide::Top, rx);

    section.try_iteration(2);
    section.try_iteration(2);
    // Blocked by the generation-0 halo row above it.
    assert_eq!(section.get_board().get_cell(2, 1).get_iteration(), 1);

    // Feed the halo a generation-1 row; the blocked cell advances with no
    // error and no special handling.
    feeder.try_send(std::sync::Arc::new(vec![Cell::new(false, 1, false); 5])).unwrap();
    section.try_iteration(2);
    assert_eq!(section.get_board().get_cell(2, 1).get_iteration(), 2);
}

#[test]
fn advance_stops_at_target_generation() {
    let (mut section, _reg) = LocalBoardSection::create(Board::new(4, 4, &vec![(1, 1)]));
    section.try_iteration(0);
    assert_eq!(section.get_board().get_cell(1, 1).get_iteration(), 0);
    section.try_iteration(3);
    // One call advances each ready interior cell one step; the halo ring is
    // not computed locally and stays put.
    assert_eq!(section.get_board().get_cell(1, 1).get_iteration(), 1);
    assert_eq!(section.get_board().get_cell(0, 0).get_iteration(), 0);
    // With the halo still at generation 0, a later call cannot push the
    // interior further: the section throttles itself.
    section.try_iteration(3);
    assert_eq!(section.get_board().get_cell(1, 1).get_iteration(), 1);
}

#[test]
fn disconnected_inbound_channel_is_skipped() {
    let (mut section, _reg) = LocalBoardSection::create(Board::new(4, 4, &vec![(1, 1)]));
    let (feeder, rx) = sync_channel::<Arc<Vec<Cell>>>(1);
    section.add_receiver(BoardSectionSide::Top, rx);
    drop(feeder);

    // The gone peer only means this side receives nothing; advancing goes on.
    section.try_iteration(1);
    assert_eq!(section.get_board().get_cell(1, 1).get_iteration(), 1);
}

#[test]
fn gone_observer_is_dropped_without_failing() {
    let (mut section, registerer) = LocalBoardSection::create(Board::new(3, 3, &vec![]));
    let (tx, rx) = channel();
    registerer.send(tx).unwrap();
    section.try_iteration(0);
    assert!(rx.try_recv().is_ok());

    drop(rx);
    section.try_iteration(0);
    section.try_iteration(0);
}

#[test]
fn try_send_reports_each_outcome() {
    let (tx, rx) = sync_channel(1);
    let callback = CellStateCallback::new((0, 0), tx);
    assert_eq!(callback.try_send(Arc::new(Vec::new())), SendAttempt::Accepted);
    assert_eq!(callback.try_send(Arc::new(Vec::new())), SendAttempt::Full);
    drop(rx);
    assert_eq!(callback.try_send(Arc::new(Vec::new())), SendAttempt::Disconnected);
}
