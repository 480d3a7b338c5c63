//! The graph of rooms: which rooms exist, how they connect, and the room
//! the player is in.
use vstd::prelude::*;
use std::collections::HashMap;

verus! {

broadcast use vstd::std_specs::hash::group_hash_axioms;

/// Identifies a room: the central room, or a room generated during play.
#[derive(Clone, Copy, Debug, PartialEq, Eq, Hash, Structural)]
pub enum RoomId {
    Central,
    Generated(usize),
}

impl Default for RoomId {
    fn default() -> (id: Self)
        ensures
            id == RoomId::Central,
    {
        RoomId::Central
    }
}

/// A compass direction, naming a side of a room.
#[derive(Clone, Copy, Debug, PartialEq, Eq, Hash, Structural)]
pub enum Direction {
    North,
    South,
    East,
    West,
}

impl Direction {
    /// The side of a neighbouring room that faces back along this direction.
    pub open spec fn opposite(self) -> Direction {
        match self {
            Direction::North => Direction::South,
            Direction::South => Direction::North,
            Direction::East => Direction::West,
            Direction::West => Direction::East,
        }
    }
}

/// A room with its connection, if any, on each side.
#[derive(Clone, Copy, Debug)]
pub struct Room {
    pub id: RoomId,
    pub north: Option<RoomId>,
    pub south: Option<RoomId>,
    pub east: Option<RoomId>,
    pub west: Option<RoomId>,
}

impl Room {
    /// The room connected on side `direction`, if any.
    pub open spec fn link(self, direction: Direction) -> Option<RoomId> {
        match direction {
            Direction::North => self.north,
            Direction::South => self.south,
            Direction::East => self.east,
            Direction::West => self.west,
        }
    }

    /// This room with the connection on side `direction` replaced by `target`.
    pub open spec fn with_link(self, direction: Direction, target: Option<RoomId>) -> Room {
        match direction {
            Direction::North => Room { north: target, ..self },
            Direction::South => Room { south: target, ..self },
            Direction::East => Room { east: target, ..self },
            Direction::West => Room { west: target, ..self },
        }
    }

    /// A room with the given id and no connection on any side.
    pub open spec fn unlinked(id: RoomId) -> Room {
        Room { id, north: None, south: None, east: None, west: None }
    }

    /// Whether the room already has a connection on side `direction`.
    pub fn has_connection(&self, direction: Direction) -> (b: bool)
        ensures
            b == self.link(direction) is Some,
    {
        match direction {
            Direction::North => self.north.is_some(),
            Direction::South => self.south.is_some(),
            Direction::East => self.east.is_some(),
            Direction::West => self.west.is_some(),
        }
    }
}

/// A door leading out of the current room towards `room_id`.
#[derive(Clone, Copy, Debug)]
pub struct Door {
    pub direction: Direction,
    pub room_id: RoomId,
}

/// The room the player is in, and the side through which it was entered.
#[derive(Clone, Copy, Debug)]
pub struct CurrentRoom {
    pub id: RoomId,
    pub entered_from: Option<Direction>,
}

impl Default for CurrentRoom {
    fn default() -> (c: Self)
        ensures
            c.id == RoomId::Central,
            c.entered_from is None,
    {
        CurrentRoom { id: RoomId::Central, entered_from: None }
    }
}

/// Every room is stored under its own id, and every connection leads to a
/// stored room whose opposite side leads straight back.
pub open spec fn links_consistent(m: Map<RoomId, Room>) -> bool {
    &&& forall|id: RoomId| #[trigger] m.contains_key(id) ==> m[id].id == id
    &&& forall|id: RoomId, d: Direction|
        m.contains_key(id) && (#[trigger] m[id].link(d)) is Some ==> {
            let t = m[id].link(d)->0;
            &&& m.contains_key(t)
            &&& m[t].link(d.opposite()) == Some(id)
        }
}

/// The rooms are exactly the central room and the generated rooms numbered
/// below `next`.
pub open spec fn rooms_dense(m: Map<RoomId, Room>, next: nat) -> bool {
    &&& m.contains_key(RoomId::Central)
    &&& forall|n: usize| #[trigger] m.contains_key(RoomId::Generated(n)) <==> n < next
}

/// What adding a room on side `direction` of `parent` does to the rooms `m`
/// whose next fresh number is `next`: the new map, the next fresh number,
/// and the id of the new room, or `None` (and nothing changed) where
/// `parent` is absent or already has a connection on that side.
pub open spec fn add_room_result(m: Map<RoomId, Room>, next: nat, parent: RoomId, direction: Direction)
    -> (Map<RoomId, Room>, nat, Option<RoomId>)
{
    if m.contains_key(parent) && m[parent].link(direction) is None {
        let new_id = RoomId::Generated(next as usize);
        let new_room = Room::unlinked(new_id).with_link(direction.opposite(), Some(parent));
        (
            m.insert(parent, m[parent].with_link(direction, Some(new_id))).insert(new_id, new_room),
            next + 1,
            Some(new_id),
        )
    } else {
        (m, next, None)
    }
}

/// Adding a room keeps the rooms dense and consistently linked: the new
/// room links back to its parent, and no other link changes.
pub proof fn lemma_add_room_keeps_invariant(m: Map<RoomId, Room>, next: nat, parent: RoomId, direction: Direction)
    requires
        next <= usize::MAX,
        rooms_dense(m, next),
        links_consistent(m),
    ensures
        ({
            let (m2, next2, _) = add_room_result(m, next, parent, direction);
            rooms_dense(m2, next2) && links_consistent(m2)
        }),
{
    let (m2, next2, res) = add_room_result(m, next, parent, direction);
    if res is Some {
        let new_id = RoomId::Generated(next as usize);
        assert(!m.contains_key(new_id));
        let p2 = m[parent].with_link(direction, Some(new_id));
        let nr = Room::unlinked(new_id).with_link(direction.opposite(), Some(parent));
        assert(m2[parent] == p2);
        assert(m2[new_id] == nr);
        assert forall|n: usize| #[trigger] m2.contains_key(RoomId::Generated(n)) <==> n < next2 by {
            if n == next {
                assert(RoomId::Generated(n) == new_id);
            }
        }
        assert forall|id: RoomId| #[trigger] m2.contains_key(id) implies m2[id].id == id by {
            if id != new_id && id != parent {
                assert(m2[id] == m[id]);
            }
        }
        assert forall|id: RoomId, d: Direction|
            m2.contains_key(id) && (#[trigger] m2[id].link(d)) is Some implies {
                let t = m2[id].link(d)->0;
                &&& m2.contains_key(t)
                &&& m2[t].link(d.opposite()) == Some(id)
            } by {
            let t = m2[id].link(d)->0;
            if id == new_id {
                assert(d == direction.opposite());
                assert(t == parent);
                assert(d.opposite() == direction);
            } else if id == parent {
                if d != direction {
                    assert(m[parent].link(d) == Some(t));
                    assert(m.contains_key(t));
                    assert(m[t].link(d.opposite()) == Some(parent));
                    if t == parent {
                        assert(d.opposite() != direction);
                    }
                }
            } else {
                assert(m2[id] == m[id]);
                assert(m[id].link(d) == Some(t));
                assert(m.contains_key(t));
                assert(m[t].link(d.opposite()) == Some(id));
                if t == parent {
                    assert(d.opposite() != direction);
                }
            }
        }
    }
}

/// What holds of every room graph: the rooms are dense and consistently
/// linked, and a further room can still be numbered.
pub open spec fn graph_whole(m: Map<RoomId, Room>, next: nat) -> bool {
    &&& next < usize::MAX
    &&& rooms_dense(m, next)
    &&& links_consistent(m)
}

/// The rooms of a graph and the numbers of its generated rooms.
pub struct RoomGraph {
    rooms: HashMap<usize, Room>,
    next_id: usize,
}

/// The key under which a room is stored: 0 for the central room, `n + 1`
/// for the generated room `n`.
spec fn key_of(id: RoomId) -> int {
    match id {
        RoomId::Central => 0,
        RoomId::Generated(n) => n + 1,
    }
}

impl View for RoomGraph {
    type V = Map<RoomId, Room>;

    closed spec fn view(&self) -> Map<RoomId, Room> {
        Map::new(
            |id: RoomId| key_of(id) <= usize::MAX && self.rooms@.contains_key(key_of(id) as usize),
            |id: RoomId| self.rooms@[key_of(id) as usize],
        )
    }
}

impl RoomGraph {
    /// The number the next generated room will get.
    pub closed spec fn next_index(&self) -> nat {
        self.next_id as nat
    }

    /// The graph's invariant: its rooms are dense and consistently linked.
    #[verifier::type_invariant]
    spec fn wf(&self) -> bool {
        &&& forall|k: usize| #[trigger] self.rooms@.contains_key(k) <==> k <= self.next_id
        &&& self.rooms@.len() == self.next_id + 1
        &&& rooms_dense(self@, self.next_index())
        &&& links_consistent(self@)
    }

    /// A graph holding the central room alone, with no connection.
    pub fn new() -> (g: Self)
        ensures
            graph_whole(g@, g.next_index()),
            g@ == map![RoomId::Central => Room::unlinked(RoomId::Central)],
            g.next_index() == 0,
    {
        let mut rooms: HashMap<usize, Room> = HashMap::new();
        let central_room = Room { id: RoomId::Central, north: None, south: None, east: None, west: None };
        rooms.insert(0, central_room);
        let g = RoomGraph { rooms, next_id: 0 };
        proof {
            assert(g.rooms@ == map![0usize => central_room]);
            assert(g@ =~= map![RoomId::Central => Room::unlinked(RoomId::Central)]) by {
                assert forall|id: RoomId| #[trigger] g@.contains_key(id) <==> id == RoomId::Central by {
                    if id != RoomId::Central {
                        assert(key_of(id) != 0);
                    }
                }
            }
            assert(g.rooms@.len() == 1) by {
                assert(g.rooms@.dom() =~= set![0usize]);
            }
        }
        g
    }

    /// The room with id `id`, or `None` where the graph has no such room.
    pub fn get_room(&self, id: RoomId) -> (r: Option<&Room>)
        ensures
            graph_whole(self@, self.next_index()),
            match r {
                Some(room) => self@.contains_key(id) && *room == self@[id],
                None => !self@.contains_key(id),
            },
    {
        proof {
            use_type_invariant(self);
            lemma_wf_whole(self);
        }
        let key: usize = match id {
            RoomId::Central => 0,
            RoomId::Generated(n) => {
                if n == usize::MAX {
                    return None;
                }
                n + 1
            },
        };
        self.rooms.get(&key)
    }

    /// Adds a new room on side `direction` of the room `parent_id`, linked
    /// back to it on the opposite side, and returns its id; returns `None`
    /// and changes nothing where the parent is absent or already has a
    /// connection on that side.
    pub fn add_room(&mut self, parent_id: RoomId, direction: Direction) -> (result: Option<RoomId>)
        ensures
            graph_whole(final(self)@, final(self).next_index()),
            (final(self)@, final(self).next_index(), result) == add_room_result(
                old(self)@,
                old(self).next_index(),
                parent_id,
                direction,
            ),
            old(self)@.contains_key(parent_id) && old(self)@[parent_id].link(direction) is None ==> {
                &&& result == Some(RoomId::Generated(old(self).next_index() as usize))
                &&& !old(self)@.contains_key(result->0)
                &&& final(self)@[parent_id].link(direction) == result
                &&& final(self)@.contains_key(result->0)
                &&& final(self)@[result->0].link(direction.opposite()) == Some(parent_id)
                &&& final(self).next_index() == old(self).next_index() + 1
            },
            !(old(self)@.contains_key(parent_id) && old(self)@[parent_id].link(direction) is None) ==> {
                &&& result is None
                &&& final(self)@ == old(self)@
                &&& final(self).next_index() == old(self).next_index()
            },
    {
        proof {
            use_type_invariant(&*self);
            lemma_wf_whole(self);
            lemma_add_room_succeeds_on_free_side(self@, self.next_index(), parent_id, direction);
            lemma_add_room_fails_only_when_side_unavailable(self@, self.next_index(), parent_id, direction);
        }
        let parent_key: usize = match parent_id {
            RoomId::Central => 0,
            RoomId::Generated(n) => {
                if n == usize::MAX {
                    return None;
                }
                n + 1
            },
        };
        let mut parent_room = match self.rooms.get(&parent_key) {
            Some(r) => *r,
            None => {
                return None;
            },
        };
        if parent_room.has_connection(direction) {
            return None;
        }
        let ghost old_g = *self;
        proof {
            use_type_invariant(&*self);
            assert(vstd::std_specs::hash::spec_hash_map_len(&self.rooms) == self.rooms@.len());
            lemma_add_room_keeps_invariant(self@, self.next_index(), parent_id, direction);
        }
        // The graph is rebuilt from its parts, so that it is whole at every step.
        let mut taken = RoomGraph::new();
        std::mem::swap(&mut taken, self);
        let RoomGraph { mut rooms, next_id } = taken;
        let new_id = RoomId::Generated(next_id);
        let next_id = next_id + 1;
        let mut new_room = Room { id: new_id, north: None, south: None, east: None, west: None };
        match direction {
            Direction::North => {
                parent_room.north = Some(new_id);
                new_room.south = Some(parent_id);
            },
            Direction::South => {
                parent_room.south = Some(new_id);
                new_room.north = Some(parent_id);
            },
            Direction::East => {
                parent_room.east = Some(new_id);
                new_room.west = Some(parent_id);
            },
            Direction::West => {
                parent_room.west = Some(new_id);
                new_room.east = Some(parent_id);
            },
        }
        rooms.insert(parent_key, parent_room);
        rooms.insert(next_id, new_room);
        proof {
            let g2 = RoomGraph { rooms, next_id };
            let (m2, next2, _) = add_room_result(old_g@, old_g.next_index(), parent_id, direction);
            assert(rooms@ == old_g.rooms@.insert(parent_key, parent_room).insert(next_id, new_room));
            assert(g2@ =~= m2) by {
                assert forall|id: RoomId| #[trigger] g2@.contains_key(id) <==> m2.contains_key(id) by {
                    if key_of(id) == next_id as int {
                        assert(id == new_id);
                    }
                }
            }
            assert(rooms@.dom() =~= old_g.rooms@.dom().insert(next_id));
        }
        *self = RoomGraph { rooms, next_id };
        proof {
            use_type_invariant(&*self);
            lemma_wf_whole(self);
        }
        Some(new_id)
    }
}

impl Default for RoomGraph {
    fn default() -> (g: Self)
        ensures
            graph_whole(g@, g.next_index()),
            g@ == map![RoomId::Central => Room::unlinked(RoomId::Central)],
            g.next_index() == 0,
    {
        Self::new()
    }
}

/// The invariant gives the whole-graph facts.
proof fn lemma_wf_whole(g: &RoomGraph)
    requires
        g.wf(),
    ensures
        graph_whole(g@, g.next_index()),
{
    assert(vstd::std_specs::hash::spec_hash_map_len(&g.rooms) == g.rooms@.len());
}

/// A room just added is linked from its parent on the requested side, and
/// links back to the parent on the opposite side; its id is the next fresh
/// number, which no room had before.
pub proof fn lemma_add_room_links_both_ways(m: Map<RoomId, Room>, next: nat, parent: RoomId, direction: Direction)
    requires
        next <= usize::MAX,
        rooms_dense(m, next),
        add_room_result(m, next, parent, direction).2 is Some,
    ensures
        ({
            let (m2, next2, r) = add_room_result(m, next, parent, direction);
            let new_id = r->0;
            &&& new_id == RoomId::Generated(next as usize)
            &&& !m.contains_key(new_id)
            &&& m2.contains_key(new_id)
            &&& m2[parent].link(direction) == Some(new_id)
            &&& m2[new_id].link(direction.opposite()) == Some(parent)
            &&& next2 == next + 1
        }),
{
    assert(!m.contains_key(RoomId::Generated(next as usize)));
}

/// Adding a room removes no room and changes no room but the parent, and
/// the parent only on the requested side.
pub proof fn lemma_add_room_keeps_other_rooms(m: Map<RoomId, Room>, next: nat, parent: RoomId, direction: Direction)
    requires
        next <= usize::MAX,
        rooms_dense(m, next),
    ensures
        ({
            let (m2, _, _) = add_room_result(m, next, parent, direction);
            &&& forall|id: RoomId| #[trigger] m.contains_key(id) ==> m2.contains_key(id)
            &&& forall|id: RoomId| #[trigger] m.contains_key(id) && id != parent ==> m2[id] == m[id]
            &&& forall|d: Direction| d != direction && m.contains_key(parent) ==> #[trigger] m2[parent].link(d) == m[parent].link(d)
        }),
{
    assert(!m.contains_key(RoomId::Generated(next as usize)));
}

/// A side can be used once: once a room has been added on a side of a
/// parent, adding another on that same side fails and changes nothing.
pub proof fn lemma_side_used_once(m: Map<RoomId, Room>, next: nat, parent: RoomId, direction: Direction)
    requires
        next <= usize::MAX,
        rooms_dense(m, next),
        add_room_result(m, next, parent, direction).2 is Some,
    ensures
        ({
            let (m2, next2, _) = add_room_result(m, next, parent, direction);
            add_room_result(m2, next2, parent, direction) == (m2, next2, None::<RoomId>)
        }),
{
    assert(!m.contains_key(RoomId::Generated(next as usize)));
}

/// Adding a room on a free side of an existing parent always succeeds:
/// the new room gets the next fresh number, which no room had, the parent
/// links to it on that side, it links back on the opposite side, and the
/// next fresh number goes up by one.
pub proof fn lemma_add_room_succeeds_on_free_side(m: Map<RoomId, Room>, next: nat, parent: RoomId, direction: Direction)
    requires
        next <= usize::MAX,
        rooms_dense(m, next),
    ensures
        m.contains_key(parent) && m[parent].link(direction) is None ==> {
            let (m2, next2, r) = add_room_result(m, next, parent, direction);
            let new_id = RoomId::Generated(next as usize);
            &&& r == Some(new_id)
            &&& !m.contains_key(new_id)
            &&& m2.contains_key(new_id)
            &&& m2[parent].link(direction) == Some(new_id)
            &&& m2[new_id].link(direction.opposite()) == Some(parent)
            &&& next2 == next + 1
        },
{
    assert(!m.contains_key(RoomId::Generated(next as usize)));
}

/// Adding a room fails only when the parent is absent or its side is
/// already taken, and a failed attempt changes nothing.
pub proof fn lemma_add_room_fails_only_when_side_unavailable(
    m: Map<RoomId, Room>,
    next: nat,
    parent: RoomId,
    direction: Direction,
)
    ensures
        ({
            let (m2, next2, r) = add_room_result(m, next, parent, direction);
            &&& (r is None <==> !(m.contains_key(parent) && m[parent].link(direction) is None))
            &&& r is None ==> m2 == m && next2 == next
        }),
{
}

/// Generation grows a room without an east connection eastwards, whatever
/// its other sides hold: the room then links east to a room with the next
/// fresh number, which links back west, and the next fresh number goes up
/// by one; every other room is kept as it was.
pub proof fn lemma_generation_grows_east(m: Map<RoomId, Room>, next: nat, current: RoomId)
    requires
        next <= usize::MAX,
        rooms_dense(m, next),
    ensures
        m.contains_key(current) && m[current].east is None ==> {
            let (m2, next2) = generation_result(m, next, current);
            let new_id = RoomId::Generated(next as usize);
            &&& !m.contains_key(new_id)
            &&& m2[current].east == Some(new_id)
            &&& m2.contains_key(new_id)
            &&& m2[new_id].west == Some(current)
            &&& next2 == next + 1
            &&& forall|id: RoomId| #[trigger] m.contains_key(id) && id != current ==> m2.contains_key(id) && m2[id] == m[id]
        },
{
    assert(!m.contains_key(RoomId::Generated(next as usize)));
}

/// Generation changes nothing in a room that is absent or already has an
/// east connection.
pub proof fn lemma_generation_leaves_grown_rooms(m: Map<RoomId, Room>, next: nat, current: RoomId)
    ensures
        !(m.contains_key(current) && m[current].east is None) ==> generation_result(m, next, current) == (m, next),
{
}

/// The rooms and next fresh number after the room-generation step, run
/// while the player is in room `current`: a room is added east of it when
/// it exists and has no east connection.
pub open spec fn generation_result(m: Map<RoomId, Room>, next: nat, current: RoomId) -> (Map<RoomId, Room>, nat) {
    if m.contains_key(current) && m[current].east is None {
        let (m2, next2, _) = add_room_result(m, next, current, Direction::East);
        (m2, next2)
    } else {
        (m, next)
    }
}

/// Grows the graph while the player is in `current_room`: adds a room east
/// of it when it has none there.
pub fn generate_new_rooms(room_graph: &mut RoomGraph, current_room: &CurrentRoom)
    ensures
        graph_whole(final(room_graph)@, final(room_graph).next_index()),
        (final(room_graph)@, final(room_graph).next_index()) == generation_result(
            old(room_graph)@,
            old(room_graph).next_index(),
            current_room.id,
        ),
        old(room_graph)@.contains_key(current_room.id) && old(room_graph)@[current_room.id].east is None ==> {
            let new_id = RoomId::Generated(old(room_graph).next_index() as usize);
            &&& !old(room_graph)@.contains_key(new_id)
            &&& final(room_graph)@[current_room.id].east == Some(new_id)
            &&& final(room_graph)@.contains_key(new_id)
            &&& final(room_graph)@[new_id].west == Some(current_room.id)
            &&& final(room_graph).next_index() == old(room_graph).next_index() + 1
        },
        !(old(room_graph)@.contains_key(current_room.id) && old(room_graph)@[current_room.id].east is None) ==> {
            &&& final(room_graph)@ == old(room_graph)@
            &&& final(room_graph).next_index() == old(room_graph).next_index()
        },
{
    let current_room_id = current_room.id;
    let needs_room = match room_graph.get_room(current_room_id) {
        Some(room) => room.east.is_none(),
        None => false,
    };
    proof {
        lemma_generation_grows_east(room_graph@, room_graph.next_index(), current_room_id);
        lemma_generation_leaves_grown_rooms(room_graph@, room_graph.next_index(), current_room_id);
    }
    if needs_room {
        let _ = room_graph.add_room(current_room_id, Direction::East);
    }
}

/// Generating rooms twice in the same room does no more than once: after
/// the first step the room has an east connection.
pub proof fn lemma_generation_idempotent(m: Map<RoomId, Room>, next: nat, current: RoomId)
    requires
        next <= usize::MAX,
        rooms_dense(m, next),
    ensures
        ({
            let (m2, next2) = generation_result(m, next, current);
            generation_result(m2, next2, current) == (m2, next2)
        }),
{
    assert(!m.contains_key(RoomId::Generated(next as usize)));
}

/// Where the player stands after crossing the west edge of room `c.id`: in
/// the room connected on its west side, entered from the east, when there
/// is one; otherwise where they were.
pub open spec fn west_step(c: CurrentRoom, m: Map<RoomId, Room>) -> CurrentRoom {
    if m.contains_key(c.id) && m[c.id].west is Some {
        CurrentRoom { id: m[c.id].west->0, entered_from: Some(Direction::East) }
    } else {
        c
    }
}

/// The current room after checking each player in turn, where
/// `past_west_edge[i]` tells whether player `i` stands past the west edge.
pub open spec fn transitions(c: CurrentRoom, m: Map<RoomId, Room>, past_west_edge: Seq<bool>) -> CurrentRoom
    decreases past_west_edge.len(),
{
    if past_west_edge.len() == 0 {
        c
    } else {
        let c1 = transitions(c, m, past_west_edge.drop_last());
        if past_west_edge.last() {
            west_step(c1, m)
        } else {
            c1
        }
    }
}

/// Moves the player through west doors: for each player past the west edge
/// of the room, in turn, the current room becomes its west neighbour, if
/// it has one, entered from the east.
pub fn check_room_transition(current_room: &mut CurrentRoom, room_graph: &RoomGraph, past_west_edge: &Vec<bool>)
    ensures
        *final(current_room) == transitions(*old(current_room), room_graph@, past_west_edge@),
{
    let n = past_west_edge.len();
    let mut i: usize = 0;
    while i < n
        invariant
            n == past_west_edge@.len(),
            i <= n,
            *current_room == transitions(*old(current_room), room_graph@, past_west_edge@.take(i as int)),
        decreases n - i,
    {
        assert(past_west_edge@.take(i + 1).drop_last() =~= past_west_edge@.take(i as int));
        if past_west_edge[i] {
            let next_room = match room_graph.get_room(current_room.id) {
                Some(room) => room.west,
                None => None,
            };
            if let Some(next_room) = next_room {
                current_room.id = next_room;
                current_room.entered_from = Some(Direction::East);
            }
        }
        i += 1;
    }
    assert(past_west_edge@.take(n as int) =~= past_west_edge@);
}

/// Crossing a door keeps the player in the graph, and the side they entered
/// from leads straight back to the room they left.
pub proof fn lemma_west_step_leads_back(c: CurrentRoom, m: Map<RoomId, Room>)
    requires
        links_consistent(m),
        m.contains_key(c.id),
        m[c.id].west is Some,
    ensures
        m.contains_key(west_step(c, m).id),
        m[west_step(c, m).id].link(west_step(c, m).entered_from->0) == Some(c.id),
{
    assert(m[c.id].link(Direction::West) is Some);
}

/// Crossing the west edge of a room with a west neighbour leads into that
/// neighbour, entered from the east; without one the player stays where
/// they were.
pub proof fn lemma_west_step_moves_to_west_neighbour(c: CurrentRoom, m: Map<RoomId, Room>)
    ensures
        m.contains_key(c.id) && m[c.id].west is Some ==> west_step(c, m) == (CurrentRoom {
            id: m[c.id].west->0,
            entered_from: Some(Direction::East),
        }),
        !(m.contains_key(c.id) && m[c.id].west is Some) ==> west_step(c, m) == c,
{
}

/// When no player stands past the west edge, the current room stays as
/// it is; one player past it moves the player one room west.
pub proof fn lemma_transitions_need_a_crossing(c: CurrentRoom, m: Map<RoomId, Room>, past_west_edge: Seq<bool>)
    ensures
        (forall|i: int| 0 <= i < past_west_edge.len() ==> !#[trigger] past_west_edge[i]) ==> transitions(
            c,
            m,
            past_west_edge,
        ) == c,
        transitions(c, m, seq![true]) == west_step(c, m),
    decreases past_west_edge.len(),
{
    if past_west_edge.len() > 0 {
        let init = past_west_edge.drop_last();
        lemma_transitions_need_a_crossing(c, m, init);
        if forall|i: int| 0 <= i < past_west_edge.len() ==> !#[trigger] past_west_edge[i] {
            assert forall|i: int| 0 <= i < init.len() implies !#[trigger] init[i] by {
                assert(init[i] == past_west_edge[i]);
            }
            assert(!past_west_edge[past_west_edge.len() - 1]);
        }
    }
    assert(seq![true].drop_last() =~= Seq::<bool>::empty());
    assert(transitions(c, m, Seq::<bool>::empty()) == c);
    assert(seq![true].last());
}

/// However many players cross, the current room stays a room of the graph.
pub proof fn lemma_transitions_stay_in_graph(c: CurrentRoom, m: Map<RoomId, Room>, past_west_edge: Seq<bool>)
    requires
        links_consistent(m),
        m.contains_key(c.id),
    ensures
        m.contains_key(transitions(c, m, past_west_edge).id),
    decreases past_west_edge.len(),
{
    if past_west_edge.len() > 0 {
        lemma_transitions_stay_in_graph(c, m, past_west_edge.drop_last());
        let c1 = transitions(c, m, past_west_edge.drop_last());
        if m[c1.id].west is Some {
            assert(m[c1.id].link(Direction::West) is Some);
        }
    }
}

/// The door on side `direction` of `room`, if that side is linked.
pub open spec fn door_on(room: Room, direction: Direction) -> Seq<Door> {
    match room.link(direction) {
        Some(target) => seq![Door { direction, room_id: target }],
        None => Seq::empty(),
    }
}

/// The doors of room `current`: one for each linked side, in the order
/// north, south, east, west.
pub open spec fn door_list(m: Map<RoomId, Room>, current: RoomId) -> Seq<Door> {
    if m.contains_key(current) {
        let r = m[current];
        door_on(r, Direction::North) + door_on(r, Direction::South) + door_on(r, Direction::East)
            + door_on(r, Direction::West)
    } else {
        Seq::empty()
    }
}

/// The doors of the current room, one for each connection it has.
pub fn current_doors(room_graph: &RoomGraph, current_room: &CurrentRoom) -> (doors: Vec<Door>)
    ensures
        doors@ == door_list(room_graph@, current_room.id),
{
    let mut doors: Vec<Door> = Vec::new();
    if let Some(room) = room_graph.get_room(current_room.id) {
        if let Some(north_id) = room.north {
            doors.push(Door { direction: Direction::North, room_id: north_id });
        }
        if let Some(south_id) = room.south {
            doors.push(Door { direction: Direction::South, room_id: south_id });
        }
        if let Some(east_id) = room.east {
            doors.push(Door { direction: Direction::East, room_id: east_id });
        }
        if let Some(west_id) = room.west {
            doors.push(Door { direction: Direction::West, room_id: west_id });
        }
    }
    proof {
        assert(doors@ =~= door_list(room_graph@, current_room.id));
    }
    doors
}

/// Every linked side of the current room has a door leading to the room
/// linked there, and every door is such a side.
pub proof fn lemma_doors_match_links(m: Map<RoomId, Room>, current: RoomId)
    requires
        m.contains_key(current),
    ensures
        forall|d: Direction| #[trigger] m[current].link(d) is Some ==> door_list(m, current).contains(
            Door { direction: d, room_id: m[current].link(d)->0 },
        ),
        forall|k: int| 0 <= k < door_list(m, current).len() ==> m[current].link(
            (#[trigger] door_list(m, current)[k]).direction,
        ) == Some(door_list(m, current)[k].room_id),
{
    let r = m[current];
    let doors = door_list(m, current);
    let n = door_on(r, Direction::North);
    let so = door_on(r, Direction::South);
    let e = door_on(r, Direction::East);
    let w = door_on(r, Direction::West);
    assert(doors == n + so + e + w);
    assert forall|d: Direction| #[trigger] m[current].link(d) is Some implies doors.contains(
        Door { direction: d, room_id: m[current].link(d)->0 },
    ) by {
        let door = Door { direction: d, room_id: r.link(d)->0 };
        match d {
            Direction::North => {
                assert(doors[0] == door);
            },
            Direction::South => {
                assert(doors[n.len() as int] == door);
            },
            Direction::East => {
                assert(doors[(n.len() + so.len()) as int] == door);
            },
            Direction::West => {
                assert(doors[(n.len() + so.len() + e.len()) as int] == door);
            },
        }
    }
}

} // verus!
