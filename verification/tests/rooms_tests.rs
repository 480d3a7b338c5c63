use rust_eze::rooms::{
    check_room_transition, current_doors, generate_new_rooms, CurrentRoom, Direction, RoomGraph,
    RoomId,
};

#[test]
fn new_graph_has_only_an_unlinked_central_room() {
    let g = RoomGraph::new();
    let central = g.get_room(RoomId::Central).expect("central room");
    assert_eq!(central.id, RoomId::Central);
    assert!(central.north.is_none() && central.south.is_none());
    assert!(central.east.is_none() && central.west.is_none());
    assert!(g.get_room(RoomId::Generated(0)).is_none());
    assert!(g.get_room(RoomId::Generated(usize::MAX)).is_none());
}

#[test]
fn default_graph_equals_new_graph() {
    let g = RoomGraph::default();
    assert!(g.get_room(RoomId::Central).is_some());
    assert!(g.get_room(RoomId::Generated(0)).is_none());
}

#[test]
fn default_ids_and_current_room_are_central() {
    assert_eq!(RoomId::default(), RoomId::Central);
    let c = CurrentRoom::default();
    assert_eq!(c.id, RoomId::Central);
    assert!(c.entered_from.is_none());
}

#[test]
fn add_room_links_both_ways_with_fresh_ids() {
    let mut g = RoomGraph::new();
    assert_eq!(g.add_room(RoomId::Central, Direction::North), Some(RoomId::Generated(0)));
    assert_eq!(g.add_room(RoomId::Central, Direction::East), Some(RoomId::Generated(1)));
    assert_eq!(g.add_room(RoomId::Generated(0), Direction::West), Some(RoomId::Generated(2)));
    let central = g.get_room(RoomId::Central).unwrap();
    assert_eq!(central.north, Some(RoomId::Generated(0)));
    assert_eq!(central.east, Some(RoomId::Generated(1)));
    let north = g.get_room(RoomId::Generated(0)).unwrap();
    assert_eq!(north.id, RoomId::Generated(0));
    assert_eq!(north.south, Some(RoomId::Central));
    assert_eq!(north.west, Some(RoomId::Generated(2)));
    let east = g.get_room(RoomId::Generated(1)).unwrap();
    assert_eq!(east.west, Some(RoomId::Central));
    assert!(east.north.is_none() && east.south.is_none() && east.east.is_none());
    let far = g.get_room(RoomId::Generated(2)).unwrap();
    assert_eq!(far.east, Some(RoomId::Generated(0)));
}

#[test]
fn add_room_south_and_west_link_back_north_and_east() {
    let mut g = RoomGraph::new();
    assert_eq!(g.add_room(RoomId::Central, Direction::South), Some(RoomId::Generated(0)));
    assert_eq!(g.add_room(RoomId::Central, Direction::West), Some(RoomId::Generated(1)));
    assert_eq!(g.get_room(RoomId::Generated(0)).unwrap().north, Some(RoomId::Central));
    assert_eq!(g.get_room(RoomId::Generated(1)).unwrap().east, Some(RoomId::Central));
}

#[test]
fn add_room_on_a_used_side_fails_and_changes_nothing() {
    let mut g = RoomGraph::new();
    assert_eq!(g.add_room(RoomId::Central, Direction::North), Some(RoomId::Generated(0)));
    assert_eq!(g.add_room(RoomId::Central, Direction::North), None);
    assert!(g.get_room(RoomId::Generated(1)).is_none());
    assert_eq!(g.get_room(RoomId::Central).unwrap().north, Some(RoomId::Generated(0)));
    // the failed attempt did not consume a number
    assert_eq!(g.add_room(RoomId::Central, Direction::South), Some(RoomId::Generated(1)));
}

#[test]
fn add_room_to_a_missing_parent_fails() {
    let mut g = RoomGraph::new();
    assert_eq!(g.add_room(RoomId::Generated(7), Direction::East), None);
    assert_eq!(g.add_room(RoomId::Generated(usize::MAX), Direction::East), None);
    assert!(g.get_room(RoomId::Generated(0)).is_none());
}

#[test]
fn has_connection_follows_links() {
    let mut g = RoomGraph::new();
    g.add_room(RoomId::Central, Direction::West);
    let central = g.get_room(RoomId::Central).unwrap();
    assert!(central.has_connection(Direction::West));
    assert!(!central.has_connection(Direction::East));
    assert!(!central.has_connection(Direction::North));
    assert!(!central.has_connection(Direction::South));
}

#[test]
fn generate_new_rooms_adds_east_room_once() {
    let mut g = RoomGraph::new();
    let c = CurrentRoom::default();
    generate_new_rooms(&mut g, &c);
    assert_eq!(g.get_room(RoomId::Central).unwrap().east, Some(RoomId::Generated(0)));
    assert_eq!(g.get_room(RoomId::Generated(0)).unwrap().west, Some(RoomId::Central));
    generate_new_rooms(&mut g, &c);
    assert!(g.get_room(RoomId::Generated(1)).is_none());
}

#[test]
fn generate_new_rooms_in_a_missing_room_does_nothing() {
    let mut g = RoomGraph::new();
    let c = CurrentRoom { id: RoomId::Generated(4), entered_from: None };
    generate_new_rooms(&mut g, &c);
    assert!(g.get_room(RoomId::Generated(0)).is_none());
}

#[test]
fn transition_west_enters_from_east_and_leads_back() {
    let mut g = RoomGraph::new();
    g.add_room(RoomId::Central, Direction::West);
    let mut c = CurrentRoom::default();
    check_room_transition(&mut c, &g, &vec![true]);
    assert_eq!(c.id, RoomId::Generated(0));
    assert_eq!(c.entered_from, Some(Direction::East));
    assert_eq!(g.get_room(c.id).unwrap().east, Some(RoomId::Central));
}

#[test]
fn no_transition_without_a_west_room_or_a_player_past_the_edge() {
    let mut g = RoomGraph::new();
    let mut c = CurrentRoom::default();
    check_room_transition(&mut c, &g, &vec![true]);
    assert_eq!(c.id, RoomId::Central);
    assert!(c.entered_from.is_none());
    g.add_room(RoomId::Central, Direction::West);
    check_room_transition(&mut c, &g, &vec![false]);
    assert_eq!(c.id, RoomId::Central);
    check_room_transition(&mut c, &g, &vec![]);
    assert_eq!(c.id, RoomId::Central);
}

#[test]
fn each_player_past_the_edge_moves_one_room_west() {
    let mut g = RoomGraph::new();
    g.add_room(RoomId::Central, Direction::West);
    g.add_room(RoomId::Generated(0), Direction::West);
    let mut c = CurrentRoom::default();
    check_room_transition(&mut c, &g, &vec![true, false, true, true]);
    // two steps lead to the second west room; the third finds no west room
    assert_eq!(c.id, RoomId::Generated(1));
    assert_eq!(c.entered_from, Some(Direction::East));
}

#[test]
fn doors_list_every_linked_side_in_order() {
    let mut g = RoomGraph::new();
    let c = CurrentRoom::default();
    assert!(current_doors(&g, &c).is_empty());
    g.add_room(RoomId::Central, Direction::West);
    g.add_room(RoomId::Central, Direction::South);
    g.add_room(RoomId::Central, Direction::East);
    g.add_room(RoomId::Central, Direction::North);
    let doors = current_doors(&g, &c);
    assert_eq!(doors.len(), 4);
    assert_eq!((doors[0].direction, doors[0].room_id), (Direction::North, RoomId::Generated(3)));
    assert_eq!((doors[1].direction, doors[1].room_id), (Direction::South, RoomId::Generated(1)));
    assert_eq!((doors[2].direction, doors[2].room_id), (Direction::East, RoomId::Generated(2)));
    assert_eq!((doors[3].direction, doors[3].room_id), (Direction::West, RoomId::Generated(0)));
    let missing = CurrentRoom { id: RoomId::Generated(9), entered_from: None };
    assert!(current_doors(&g, &missing).is_empty());
}

#[test]
fn generated_room_gets_a_door_both_ways() {
    let mut g = RoomGraph::new();
    let c = CurrentRoom::default();
    generate_new_rooms(&mut g, &c);
    let doors = current_doors(&g, &c);
    assert_eq!(doors.len(), 1);
    assert_eq!((doors[0].direction, doors[0].room_id), (Direction::East, RoomId::Generated(0)));
    let east = CurrentRoom { id: RoomId::Generated(0), entered_from: Some(Direction::West) };
    let back = current_doors(&g, &east);
    assert_eq!(back.len(), 1);
    assert_eq!((back[0].direction, back[0].room_id), (Direction::West, RoomId::Central));
}
