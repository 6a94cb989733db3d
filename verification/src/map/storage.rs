use vstd::prelude::*;

use std::collections::HashMap;
use std::sync::Arc;

use smallvec::SmallVec;

use crate::agent::AgentId;
use crate::items::{spec_has_flag, Item, ItemFlag};
use crate::map::position::{lemma_position_key_injective, position_key, Position};

verus! {

broadcast use vstd::std_specs::hash::group_hash_axioms;

/// A tile's agents, kept inline in a `smallvec::SmallVec` since most tiles
/// hold at most one.
#[verifier::external_body]
pub struct TileAgents {
    list: SmallVec<[AgentId; 1]>,
}

/// The agents a tile's inline list holds, first arrival first.
pub uninterp spec fn tile_agents_seq(v: TileAgents) -> Seq<AgentId>;

/// An empty list. Calls `SmallVec::new`, which builds a vector of length zero.
#[verifier::external_body]
fn agents_new() -> (v: TileAgents)
    ensures
        tile_agents_seq(v) == Seq::<AgentId>::empty(),
{
    TileAgents { list: SmallVec::new() }
}

/// Calls `SmallVec::push`, which appends `id` at the end.
#[verifier::external_body]
fn agents_push(v: &mut TileAgents, id: AgentId)
    ensures
        tile_agents_seq(*final(v)) == tile_agents_seq(*old(v)).push(id),
{
    v.list.push(id)
}

/// Whether `a` stays when `id` is removed.
fn is_other_agent(a: &AgentId, id: AgentId) -> (b: bool)
    ensures
        b == (*a != id),
{
    a.0 != id.0
}

/// Calls `SmallVec::retain`, which keeps, in order, exactly the elements the
/// predicate accepts; the predicate is `is_other_agent`.
#[verifier::external_body]
fn agents_remove_all(v: &mut TileAgents, id: AgentId)
    ensures
        tile_agents_seq(*final(v)) == tile_agents_seq(*old(v)).filter(|a: AgentId| a != id),
{
    v.list.retain(|a| is_other_agent(a, id))
}

/// Calls `SmallVec::to_vec`, which copies the elements in order.
#[verifier::external_body]
fn agents_to_vec(v: &TileAgents) -> (r: Vec<AgentId>)
    ensures
        r@ == tile_agents_seq(*v),
{
    v.list.to_vec()
}

fn stack_has_flag(items: &Vec<Arc<Item>>, flag: ItemFlag) -> (b: bool)
    ensures
        b == any_flag(items@, flag),
{
    let mut i: usize = 0;
    while i < items.len()
        invariant
            i <= items@.len(),
            forall|j: int| 0 <= j < i ==> !spec_has_flag(*items@[j].config, flag),
        decreases items@.len() - i,
    {
        if items[i].config.has_flag(flag) {
            return true;
        }
        i = i + 1;
    }
    false
}

/// A copy of a stack, sharing each item.
fn clone_stack(items: &Vec<Arc<Item>>) -> (r: Vec<Arc<Item>>)
    ensures
        r@ == items@,
{
    let mut r: Vec<Arc<Item>> = Vec::new();
    let mut i: usize = 0;
    while i < items.len()
        invariant
            i <= items@.len(),
            r@ == items@.subrange(0, i as int),
        decreases items@.len() - i,
    {
        r.push(items[i].clone());
        i = i + 1;
    }
    assert(items@.subrange(0, items@.len() as int) =~= items@);
    r
}

/// One tile: its item stack, bottom first, and the agents standing on it in
/// arrival order (topmost last).
pub struct MapTile {
    pub items: Vec<Arc<Item>>,
    pub agents: TileAgents,
}

/// What a tile holds, as sequences.
pub struct TileView {
    pub items: Seq<Arc<Item>>,
    pub agents: Seq<AgentId>,
}

pub open spec fn tile_view(t: MapTile) -> TileView {
    TileView { items: t.items@, agents: tile_agents_seq(t.agents) }
}

/// Whether some item of the stack carries `flag`.
pub open spec fn any_flag(items: Seq<Arc<Item>>, flag: ItemFlag) -> bool {
    exists|i: int| 0 <= i < items.len() && #[trigger] spec_has_flag(*items[i].config, flag)
}

/// The friction of the first item from index `i` up that has one.
pub open spec fn friction_from(items: Seq<Arc<Item>>, i: int) -> Option<u16>
    decreases items.len() - i,
{
    if i < 0 || i >= items.len() {
        None
    } else if items[i].config.friction is Some {
        items[i].config.friction
    } else {
        friction_from(items, i + 1)
    }
}

/// The minimap colour of the topmost of the first `n` items that has one.
pub open spec fn color_below(items: Seq<Arc<Item>>, n: int) -> Option<u8>
    decreases n,
{
    if n <= 0 || n > items.len() {
        None
    } else if items[n - 1].config.minimap_color is Some {
        items[n - 1].config.minimap_color
    } else {
        color_below(items, n - 1)
    }
}

/// The sum of the first `n` elevations found from index `i` up.
pub open spec fn elevation_from(items: Seq<Arc<Item>>, i: int, n: nat) -> int
    decreases items.len() - i,
{
    if i < 0 || i >= items.len() || n == 0 {
        0
    } else {
        match items[i].config.elevation {
            Some(e) => e + elevation_from(items, i + 1, (n - 1) as nat),
            None => elevation_from(items, i + 1, n),
        }
    }
}

pub open spec fn spec_can_walk(t: Option<TileView>) -> bool {
    match t {
        Some(v) => any_flag(v.items, ItemFlag::Ground) && !any_flag(v.items, ItemFlag::Unpass),
        None => false,
    }
}

/// The tiles the client knows, the agents it has spawned, and where each
/// agent stands.
pub struct WorldMap {
    tiles: HashMap<u64, MapTile>,
    agents: HashMap<u16, u64>,
    agent_tiles: HashMap<u16, Position>,
}

/// The tile at `p` in a key-indexed tile store.
pub open spec fn tile_of(tiles: Map<u64, MapTile>, p: Position) -> Option<TileView> {
    if tiles.contains_key(position_key(p)) {
        Some(tile_view(tiles[position_key(p)]))
    } else {
        None
    }
}

pub open spec fn agents_of(tiles: Map<u64, MapTile>, p: Position) -> Seq<AgentId> {
    match tile_of(tiles, p) {
        Some(t) => t.agents,
        None => Seq::empty(),
    }
}

pub open spec fn agent_tile_of(agent_tiles: Map<u16, Position>, id: AgentId) -> Option<Position> {
    if agent_tiles.contains_key(id.0) {
        Some(agent_tiles[id.0])
    } else {
        None
    }
}

/// The tile index is consistent: every indexed agent is listed, once, on the
/// tile it is indexed at, and every listed agent is indexed there.
pub open spec fn index_consistent(tiles: Map<u64, MapTile>, agent_tiles: Map<u16, Position>) -> bool {
    &&& forall|id: AgentId| #[trigger] agent_tile_of(agent_tiles, id) matches Some(p) ==> agents_of(tiles, p).contains(id)
    &&& forall|p: Position, i: int| 0 <= i < agents_of(tiles, p).len() ==> agent_tile_of(
        agent_tiles,
        #[trigger] agents_of(tiles, p)[i],
    ) == Some(p)
    &&& forall|p: Position| #[trigger] agents_of(tiles, p).no_duplicates()
    &&& forall|k: u64| #[trigger] tiles.contains_key(k) ==> exists|p: Position| position_key(p) == k
}

impl WorldMap {
    /// The tile at `p`, if the client knows it.
    pub closed spec fn tile(&self, p: Position) -> Option<TileView> {
        tile_of(self.tiles@, p)
    }

    /// The agents standing on `p`, topmost last.
    pub open spec fn spec_agents_on(&self, p: Position) -> Seq<AgentId> {
        match self.tile(p) {
            Some(t) => t.agents,
            None => Seq::empty(),
        }
    }

    /// The items on `p`, bottom first; empty for an unknown tile.
    pub open spec fn spec_items_on(&self, p: Position) -> Seq<Arc<Item>> {
        match self.tile(p) {
            Some(t) => t.items,
            None => Seq::empty(),
        }
    }

    /// Where the tile index last recorded `id` standing.
    pub closed spec fn agent_tile(&self, id: AgentId) -> Option<Position> {
        agent_tile_of(self.agent_tiles@, id)
    }

    /// The entity (as its bits) spawned for `id`.
    pub closed spec fn agent_entity(&self, id: AgentId) -> Option<u64> {
        if self.agents@.contains_key(id.0) {
            Some(self.agents@[id.0])
        } else {
            None
        }
    }

    /// The tile index is consistent.
    pub closed spec fn wf(&self) -> bool {
        index_consistent(self.tiles@, self.agent_tiles@)
    }

    /// In a consistent map an agent is listed on one tile at most, once
    /// there, and that tile is where the index places it; every listed agent
    /// is indexed.
    pub proof fn lemma_agent_stands_on_one_tile(self, id: AgentId, p: Position, q: Position)
        requires
            self.wf(),
        ensures
            self.spec_agents_on(p).no_duplicates(),
            self.spec_agents_on(p).contains(id) <==> self.agent_tile(id) == Some(p),
            self.spec_agents_on(p).contains(id) && self.spec_agents_on(q).contains(id) ==> p == q,
    {
        if self.spec_agents_on(p).contains(id) {
            let i = choose|i: int| 0 <= i < self.spec_agents_on(p).len() && self.spec_agents_on(p)[i] == id;
            assert(agent_tile_of(self.agent_tiles@, agents_of(self.tiles@, p)[i]) == Some(p));
        }
        if self.spec_agents_on(q).contains(id) {
            let j = choose|j: int| 0 <= j < self.spec_agents_on(q).len() && self.spec_agents_on(q)[j] == id;
            assert(agent_tile_of(self.agent_tiles@, agents_of(self.tiles@, q)[j]) == Some(q));
        }
        if self.agent_tile(id) == Some(p) {
            assert(agent_tile_of(self.agent_tiles@, id) matches Some(t) ==> agents_of(self.tiles@, t).contains(id));
        }
        assert(agents_of(self.tiles@, p).no_duplicates());
    }

    pub fn new() -> (m: WorldMap)
        ensures
            m.wf(),
            forall|p: Position| m.tile(p) is None,
            forall|id: AgentId| m.agent_tile(id) is None && m.agent_entity(id) is None,
    {
        WorldMap { tiles: HashMap::new(), agents: HashMap::new(), agent_tiles: HashMap::new() }
    }

    pub fn add_agent(&mut self, id: AgentId, agent: u64)
        ensures
            forall|a: AgentId| final(self).agent_entity(a) == if a == id {
                Some(agent)
            } else {
                old(self).agent_entity(a)
            },
            forall|p: Position| final(self).tile(p) == old(self).tile(p),
            forall|a: AgentId| final(self).agent_tile(a) == old(self).agent_tile(a),
            old(self).wf() ==> final(self).wf(),
    {
        self.agents.insert(id.0, agent);
    }

    pub fn remove_agent(&mut self, id: AgentId)
        ensures
            forall|a: AgentId| final(self).agent_entity(a) == if a == id {
                None
            } else {
                old(self).agent_entity(a)
            },
            forall|p: Position| final(self).tile(p) == old(self).tile(p),
            forall|a: AgentId| final(self).agent_tile(a) == old(self).agent_tile(a),
            old(self).wf() ==> final(self).wf(),
    {
        self.agents.remove(&id.0);
    }

    pub fn get_agent(&self, id: AgentId) -> (e: Option<u64>)
        ensures
            e == self.agent_entity(id),
    {
        match self.agents.get(&id.0) {
            Some(e) => Some(*e),
            None => None,
        }
    }

    /// Replaces the items on `pos`, keeping whoever stands there.
    pub fn replace_tile(&mut self, items: Vec<Arc<Item>>, pos: &Position)
        ensures
            forall|p: Position| #[trigger] final(self).tile(p) == if p == *pos {
                Some(TileView { items: items@, agents: old(self).spec_agents_on(*pos) })
            } else {
                old(self).tile(p)
            },
            forall|a: AgentId| #[trigger] final(self).agent_tile(a) == old(self).agent_tile(a),
            forall|a: AgentId| #[trigger] final(self).agent_entity(a) == old(self).agent_entity(a),
            old(self).wf() ==> final(self).wf(),
    {
        let k = pos.key();
        let ghost old_tiles = self.tiles@;
        let tile = match self.tiles.remove(&k) {
            Some(t) => MapTile { items, agents: t.agents },
            None => MapTile { items, agents: agents_new() },
        };
        self.tiles.insert(k, tile);
        proof {
            lemma_keys_distinct(*pos);
            assert forall|p: Position| #[trigger] agents_of(self.tiles@, p) == agents_of(old_tiles, p) by {
                if p != *pos {
                    lemma_position_key_injective(p, *pos);
                }
            }
            if index_consistent(old_tiles, self.agent_tiles@) {
                assert forall|kk: u64| #[trigger] self.tiles@.contains_key(kk) implies exists|p: Position|
                    position_key(p) == kk by {
                    if kk == k {
                        assert(position_key(*pos) == kk);
                    } else {
                        assert(old_tiles.contains_key(kk));
                    }
                }
            }
        }
    }

    /// The agents standing on `pos`, topmost last.
    pub fn agents_on(&self, pos: &Position) -> (a: Vec<AgentId>)
        ensures
            a@ == self.spec_agents_on(*pos),
    {
        match self.tiles.get(&pos.key()) {
            Some(t) => agents_to_vec(&t.agents),
            None => Vec::new(),
        }
    }

    /// Moves `id`'s tile-index entry to `pos`, first removing it from wherever
    /// the index says it was. A no-op when it is already indexed at `pos`,
    /// which keeps the arrival order of co-located agents from churning.
    pub fn index_agent(&mut self, id: AgentId, pos: &Position)
        ensures
            old(self).agent_tile(id) == Some(*pos) ==> {
                &&& forall|p: Position| #[trigger] final(self).tile(p) == old(self).tile(p)
                &&& forall|a: AgentId| #[trigger] final(self).agent_tile(a) == old(self).agent_tile(a)
            },
            old(self).agent_tile(id) != Some(*pos) ==> {
                &&& forall|a: AgentId| #[trigger] final(self).agent_tile(a) == if a == id {
                    Some(*pos)
                } else {
                    old(self).agent_tile(a)
                }
                &&& forall|p: Position| #[trigger] final(self).tile(p) == if p == *pos {
                    Some(TileView { items: old(self).spec_items_on(p), agents: old(self).spec_agents_on(p).push(id) })
                } else if old(self).agent_tile(id) == Some(p) && old(self).tile(p) is Some {
                    Some(
                        TileView {
                            items: old(self).spec_items_on(p),
                            agents: old(self).spec_agents_on(p).filter(|a: AgentId| a != id),
                        },
                    )
                } else {
                    old(self).tile(p)
                }
            },
            forall|a: AgentId| #[trigger] final(self).agent_entity(a) == old(self).agent_entity(a),
            old(self).wf() ==> final(self).wf(),
    {
        let ghost old_tiles = self.tiles@;
        let ghost old_at = self.agent_tiles@;
        match self.agent_tiles.get(&id.0) {
            Some(p) => {
                if *p == *pos {
                    return;
                }
            },
            None => {},
        }
        let ghost prev = agent_tile_of(old_at, id);
        if let Some(prev_pos) = self.agent_tiles.remove(&id.0) {
            let ok = prev_pos.key();
            if let Some(tile) = self.tiles.remove(&ok) {
                let mut tile = tile;
                agents_remove_all(&mut tile.agents, id);
                self.tiles.insert(ok, tile);
            }
        }
        let ghost mid_tiles = self.tiles@;
        let k = pos.key();
        let mut tile = match self.tiles.remove(&k) {
            Some(t) => t,
            None => MapTile { items: Vec::new(), agents: agents_new() },
        };
        agents_push(&mut tile.agents, id);
        self.tiles.insert(k, tile);
        self.agent_tiles.insert(id.0, *pos);
        proof {
            lemma_keys_distinct(*pos);
            assert forall|p: Position| #[trigger] tile_of(self.tiles@, p) == if p == *pos {
                Some(TileView { items: match tile_of(old_tiles, p) { Some(t) => t.items, None => Seq::empty() }, agents: agents_of(old_tiles, p).push(id) })
            } else if prev == Some(p) && tile_of(old_tiles, p) is Some {
                Some(TileView { items: tile_of(old_tiles, p).unwrap().items, agents: agents_of(old_tiles, p).filter(|a: AgentId| a != id) })
            } else {
                tile_of(old_tiles, p)
            } by {
                if p != *pos {
                    lemma_position_key_injective(p, *pos);
                }
                if let Some(q) = prev {
                    if p != q {
                        lemma_position_key_injective(p, q);
                    }
                    if q != *pos {
                        lemma_position_key_injective(q, *pos);
                    }
                }
            }
            assert forall|a: AgentId| #[trigger] agent_tile_of(self.agent_tiles@, a) == if a == id {
                Some(*pos)
            } else {
                agent_tile_of(old_at, a)
            } by {
                if a != id {
                    assert(a.0 != id.0);
                }
            }
            if index_consistent(old_tiles, old_at) {
                self.lemma_index_step_consistent(old_tiles, old_at, id, *pos, prev);
            }
        }
    }

    proof fn lemma_index_step_consistent(
        &self,
        old_tiles: Map<u64, MapTile>,
        old_at: Map<u16, Position>,
        id: AgentId,
        pos: Position,
        prev: Option<Position>,
    )
        requires
            index_consistent(old_tiles, old_at),
            prev == agent_tile_of(old_at, id),
            prev != Some(pos),
            self.tiles@.contains_key(position_key(pos)),
            forall|kk: u64| #[trigger] self.tiles@.contains_key(kk) ==> (old_tiles.contains_key(kk) || kk == position_key(pos)),
            forall|p: Position| #[trigger] tile_of(self.tiles@, p) == if p == pos {
                Some(TileView { items: match tile_of(old_tiles, p) { Some(t) => t.items, None => Seq::empty() }, agents: agents_of(old_tiles, p).push(id) })
            } else if prev == Some(p) && tile_of(old_tiles, p) is Some {
                Some(TileView { items: tile_of(old_tiles, p).unwrap().items, agents: agents_of(old_tiles, p).filter(|a: AgentId| a != id) })
            } else {
                tile_of(old_tiles, p)
            },
            forall|a: AgentId| #[trigger] agent_tile_of(self.agent_tiles@, a) == if a == id {
                Some(pos)
            } else {
                agent_tile_of(old_at, a)
            },
        ensures
            index_consistent(self.tiles@, self.agent_tiles@),
    {
        let tiles = self.tiles@;
        let at = self.agent_tiles@;
        let pred = |a: AgentId| a != id;
        assert forall|p: Position| #[trigger] agents_of(tiles, p) == if p == pos {
            agents_of(old_tiles, p).push(id)
        } else if prev == Some(p) {
            agents_of(old_tiles, p).filter(pred)
        } else {
            agents_of(old_tiles, p)
        } by {
            assert(tile_of(tiles, p) == tile_of(tiles, p));
            if p != pos && prev == Some(p) && tile_of(old_tiles, p) is None {
                reveal(Seq::filter);
                assert(agents_of(old_tiles, p).filter(pred) =~= Seq::<AgentId>::empty());
            }
        }
        // Nobody other than `id` changes tile, and `id` was on no other list.
        assert forall|a: AgentId| #[trigger] agent_tile_of(at, a) is Some implies agents_of(tiles, agent_tile_of(at, a).unwrap()).contains(a) by {
            let p = agent_tile_of(at, a).unwrap();
            if a == id {
                assert(agents_of(tiles, pos) == agents_of(old_tiles, pos).push(id));
                assert(agents_of(tiles, pos).last() == id);
            } else {
                assert(agent_tile_of(old_at, a) == Some(p));
                assert(agents_of(old_tiles, p).contains(a));
                let j = choose|j: int| 0 <= j < agents_of(old_tiles, p).len() && agents_of(old_tiles, p)[j] == a;
                if p == pos {
                    assert(agents_of(tiles, p)[j] == a);
                } else if prev == Some(p) {
                    agents_of(old_tiles, p).lemma_filter_contains(pred, j);
                } else {
                }
            }
        }
        assert forall|p: Position, i: int| 0 <= i < agents_of(tiles, p).len() implies agent_tile_of(
            at,
            #[trigger] agents_of(tiles, p)[i],
        ) == Some(p) by {
            let a = agents_of(tiles, p)[i];
            if p == pos {
                if i == agents_of(old_tiles, p).len() {
                    assert(a == id);
                } else {
                    assert(a == agents_of(old_tiles, p)[i]);
                    assert(agent_tile_of(old_at, a) == Some(p));
                    assert(a != id);
                }
            } else if prev == Some(p) {
                agents_of(old_tiles, p).lemma_filter_pred(pred, i);
                assert(agents_of(tiles, p).contains(a));
                agents_of(old_tiles, p).lemma_filter_contains_rev(pred, a);
                let j = choose|j: int| 0 <= j < agents_of(old_tiles, p).len() && agents_of(old_tiles, p)[j] == a;
                assert(agent_tile_of(old_at, agents_of(old_tiles, p)[j]) == Some(p));
            } else {
                assert(a == agents_of(old_tiles, p)[i]);
                assert(agent_tile_of(old_at, a) == Some(p));
                if a == id {
                    assert(prev == Some(p));
                }
            }
        }
        assert forall|p: Position| #[trigger] agents_of(tiles, p).no_duplicates() by {
            assert(agents_of(old_tiles, p).no_duplicates());
            if p == pos {
                if agents_of(old_tiles, p).contains(id) {
                    let j = choose|j: int| 0 <= j < agents_of(old_tiles, p).len() && agents_of(old_tiles, p)[j] == id;
                    assert(agent_tile_of(old_at, agents_of(old_tiles, p)[j]) == Some(p));
                }
                lemma_push_no_dup(agents_of(old_tiles, p), id);
            } else if prev == Some(p) {
                lemma_filter_no_dup(agents_of(old_tiles, p), id);
            }
        }
        assert forall|kk: u64| #[trigger] tiles.contains_key(kk) implies exists|p: Position| position_key(p) == kk by {
            if kk == position_key(pos) {
            } else {
                assert(old_tiles.contains_key(kk));
            }
        }
    }

    /// Removes `id` from wherever the index last recorded it standing.
    pub fn unindex_agent(&mut self, id: AgentId)
        ensures
            forall|a: AgentId| #[trigger] final(self).agent_tile(a) == if a == id {
                None
            } else {
                old(self).agent_tile(a)
            },
            forall|p: Position| #[trigger] final(self).tile(p) == if old(self).agent_tile(id) == Some(p)
                && old(self).tile(p) is Some {
                Some(
                    TileView {
                        items: old(self).spec_items_on(p),
                        agents: old(self).spec_agents_on(p).filter(|a: AgentId| a != id),
                    },
                )
            } else {
                old(self).tile(p)
            },
            forall|a: AgentId| #[trigger] final(self).agent_entity(a) == old(self).agent_entity(a),
            old(self).wf() ==> final(self).wf(),
    {
        let ghost old_tiles = self.tiles@;
        let ghost old_at = self.agent_tiles@;
        let ghost prev = agent_tile_of(old_at, id);
        if let Some(prev_pos) = self.agent_tiles.remove(&id.0) {
            let ok = prev_pos.key();
            if let Some(tile) = self.tiles.remove(&ok) {
                let mut tile = tile;
                agents_remove_all(&mut tile.agents, id);
                self.tiles.insert(ok, tile);
            }
        }
        proof {
            assert forall|p: Position| #[trigger] tile_of(self.tiles@, p) == if prev == Some(p) && tile_of(old_tiles, p) is Some {
                Some(TileView { items: tile_of(old_tiles, p).unwrap().items, agents: agents_of(old_tiles, p).filter(|a: AgentId| a != id) })
            } else {
                tile_of(old_tiles, p)
            } by {
                if let Some(q) = prev {
                    if p != q {
                        lemma_position_key_injective(p, q);
                    }
                }
            }
            assert forall|a: AgentId| #[trigger] agent_tile_of(self.agent_tiles@, a) == if a == id {
                None
            } else {
                agent_tile_of(old_at, a)
            } by {
                if a != id {
                    assert(a.0 != id.0);
                }
            }
            if index_consistent(old_tiles, old_at) {
                self.lemma_unindex_consistent(old_tiles, old_at, id, prev);
            }
        }
    }

    proof fn lemma_unindex_consistent(
        &self,
        old_tiles: Map<u64, MapTile>,
        old_at: Map<u16, Position>,
        id: AgentId,
        prev: Option<Position>,
    )
        requires
            index_consistent(old_tiles, old_at),
            prev == agent_tile_of(old_at, id),
            forall|kk: u64| #[trigger] self.tiles@.contains_key(kk) ==> old_tiles.contains_key(kk),
            forall|p: Position| #[trigger] tile_of(self.tiles@, p) == if prev == Some(p) && tile_of(old_tiles, p) is Some {
                Some(TileView { items: tile_of(old_tiles, p).unwrap().items, agents: agents_of(old_tiles, p).filter(|a: AgentId| a != id) })
            } else {
                tile_of(old_tiles, p)
            },
            forall|a: AgentId| #[trigger] agent_tile_of(self.agent_tiles@, a) == if a == id {
                None
            } else {
                agent_tile_of(old_at, a)
            },
        ensures
            index_consistent(self.tiles@, self.agent_tiles@),
    {
        let tiles = self.tiles@;
        let at = self.agent_tiles@;
        let pred = |a: AgentId| a != id;
        assert forall|p: Position| #[trigger] agents_of(tiles, p) == if prev == Some(p) {
            agents_of(old_tiles, p).filter(pred)
        } else {
            agents_of(old_tiles, p)
        } by {
            assert(tile_of(tiles, p) == tile_of(tiles, p));
            if prev == Some(p) && tile_of(old_tiles, p) is None {
                reveal(Seq::filter);
                assert(agents_of(old_tiles, p).filter(pred) =~= Seq::<AgentId>::empty());
            }
        }
        assert forall|a: AgentId| #[trigger] agent_tile_of(at, a) is Some implies agents_of(tiles, agent_tile_of(at, a).unwrap()).contains(a) by {
            let p = agent_tile_of(at, a).unwrap();
            assert(a != id);
            assert(agents_of(old_tiles, p).contains(a));
            let j = choose|j: int| 0 <= j < agents_of(old_tiles, p).len() && agents_of(old_tiles, p)[j] == a;
            if prev == Some(p) {
                agents_of(old_tiles, p).lemma_filter_contains(pred, j);
            }
        }
        assert forall|p: Position, i: int| 0 <= i < agents_of(tiles, p).len() implies agent_tile_of(
            at,
            #[trigger] agents_of(tiles, p)[i],
        ) == Some(p) by {
            let a = agents_of(tiles, p)[i];
            if prev == Some(p) {
                agents_of(old_tiles, p).lemma_filter_pred(pred, i);
                assert(agents_of(tiles, p).contains(a));
                agents_of(old_tiles, p).lemma_filter_contains_rev(pred, a);
                let j = choose|j: int| 0 <= j < agents_of(old_tiles, p).len() && agents_of(old_tiles, p)[j] == a;
                assert(agent_tile_of(old_at, agents_of(old_tiles, p)[j]) == Some(p));
            } else {
                assert(a == agents_of(old_tiles, p)[i]);
                assert(agent_tile_of(old_at, a) == Some(p));
                if a == id {
                    assert(prev == Some(p));
                }
            }
        }
        assert forall|p: Position| #[trigger] agents_of(tiles, p).no_duplicates() by {
            assert(agents_of(old_tiles, p).no_duplicates());
            if prev == Some(p) {
                lemma_filter_no_dup(agents_of(old_tiles, p), id);
            }
        }
        assert forall|kk: u64| #[trigger] tiles.contains_key(kk) implies exists|p: Position| position_key(p) == kk by {
            assert(old_tiles.contains_key(kk));
        }
    }
}

proof fn lemma_keys_distinct(pos: Position)
    ensures
        forall|p: Position| p != pos ==> #[trigger] position_key(p) != position_key(pos),
{
    assert forall|p: Position| p != pos implies #[trigger] position_key(p) != position_key(pos) by {
        lemma_position_key_injective(p, pos);
    }
}

proof fn lemma_push_no_dup(s: Seq<AgentId>, id: AgentId)
    requires
        s.no_duplicates(),
        !s.contains(id),
    ensures
        s.push(id).no_duplicates(),
{
    assert forall|i: int, j: int| 0 <= i < s.push(id).len() && 0 <= j < s.push(id).len() && i != j implies s.push(id)[i]
        != s.push(id)[j] by {
        if i < s.len() && j < s.len() {
        } else if i == s.len() {
            assert(s.push(id)[j] == s[j]);
        } else {
            assert(s.push(id)[i] == s[i]);
        }
    }
}

proof fn lemma_filter_no_dup(s: Seq<AgentId>, id: AgentId)
    requires
        s.no_duplicates(),
    ensures
        s.filter(|a: AgentId| a != id).no_duplicates(),
    decreases s.len(),
{
    reveal(Seq::filter);
    let pred = |a: AgentId| a != id;
    if s.len() > 0 {
        let rest = s.drop_last();
        assert(rest.no_duplicates());
        lemma_filter_no_dup(rest, id);
        if pred(s.last()) {
            let f = rest.filter(pred);
            if f.contains(s.last()) {
                rest.lemma_filter_contains_rev(pred, s.last());
                let j = choose|j: int| 0 <= j < rest.len() && rest[j] == s.last();
                assert(s[j] == s[s.len() - 1]);
            }
            lemma_push_no_dup(f, s.last());
        }
    }
}


impl WorldMap {
    /// Whether a creature can step onto `pos`: a known tile with ground and
    /// nothing that blocks.
    pub fn can_walk(&self, pos: &Position) -> (b: bool)
        ensures
            b == spec_can_walk(self.tile(*pos)),
    {
        match self.tiles.get(&pos.key()) {
            None => false,
            Some(tile) => {
                if !stack_has_flag(&tile.items, ItemFlag::Ground) {
                    return false;
                }
                !stack_has_flag(&tile.items, ItemFlag::Unpass)
            },
        }
    }

    /// Whether an item can be dropped on `pos`.
    pub fn can_drop_item(&self, pos: &Position) -> (b: bool)
        ensures
            b == match self.tile(*pos) {
                Some(t) => any_flag(t.items, ItemFlag::FullBank) && !any_flag(t.items, ItemFlag::Bottom),
                None => false,
            },
    {
        match self.tiles.get(&pos.key()) {
            None => false,
            Some(tile) => stack_has_flag(&tile.items, ItemFlag::FullBank) && !stack_has_flag(
                &tile.items,
                ItemFlag::Bottom,
            ),
        }
    }

    /// The topmost item on `pos` and its stack index.
    pub fn peek_item(&self, pos: &Position) -> (r: Option<(Arc<Item>, usize)>)
        ensures
            r == match self.tile(*pos) {
                Some(t) => if t.items.len() > 0 {
                    Some((t.items.last(), (t.items.len() - 1) as usize))
                } else {
                    None
                },
                None => None,
            },
    {
        match self.tiles.get(&pos.key()) {
            None => None,
            Some(tile) => {
                let n = tile.items.len();
                if n == 0 {
                    None
                } else {
                    Some((tile.items[n - 1].clone(), n - 1))
                }
            },
        }
    }

    /// The item at stack `index` on `pos`.
    pub fn item_at(&self, pos: &Position, index: usize) -> (r: Option<Arc<Item>>)
        ensures
            r == match self.tile(*pos) {
                Some(t) => if index < t.items.len() {
                    Some(t.items[index as int])
                } else {
                    None
                },
                None => None,
            },
    {
        match self.tiles.get(&pos.key()) {
            None => None,
            Some(tile) => if index < tile.items.len() {
                Some(tile.items[index].clone())
            } else {
                None
            },
        }
    }

    /// The friction a step onto `pos` costs: the first item's that carries
    /// one, and none for an unknown or unwalkable tile.
    #[verifier::loop_isolation(false)]
    pub fn get_tile_friction(&self, pos: &Position) -> (f: Option<u16>)
        ensures
            f == if spec_can_walk(self.tile(*pos)) {
                friction_from(self.spec_items_on(*pos), 0)
            } else {
                None
            },
    {
        if !self.can_walk(pos) {
            return None;
        }
        match self.tiles.get(&pos.key()) {
            None => None,
            Some(tile) => {
                let mut i: usize = 0;
                while i < tile.items.len()
                    invariant
                        i <= tile.items@.len(),
                        friction_from(tile.items@, 0) == friction_from(tile.items@, i as int),
                    decreases tile.items@.len() - i,
                {
                    if let Some(f) = tile.items[i].config.friction {
                        assert(friction_from(tile.items@, i as int) == Some(f));
                        return Some(f);
                    }
                    i = i + 1;
                }
                None
            },
        }
    }

    /// The items on `pos`, bottom first, or `None` for an unknown tile.
    pub fn get_items(&self, pos: &Position) -> (r: Option<Vec<Arc<Item>>>)
        ensures
            r matches Some(v) ==> self.tile(*pos) matches Some(t) && v@ == t.items,
            r is None <==> self.tile(*pos) is None,
    {
        match self.tiles.get(&pos.key()) {
            None => None,
            Some(tile) => Some(clone_stack(&tile.items)),
        }
    }

    /// The minimap colour of the topmost item that has one.
    #[verifier::loop_isolation(false)]
    pub fn get_minimap_color(&self, pos: &Position) -> (c: Option<u8>)
        ensures
            c == color_below(self.spec_items_on(*pos), self.spec_items_on(*pos).len() as int),
    {
        match self.tiles.get(&pos.key()) {
            None => None,
            Some(tile) => {
                let mut n: usize = tile.items.len();
                while n > 0
                    invariant
                        n <= tile.items@.len(),
                        color_below(tile.items@, tile.items@.len() as int) == color_below(tile.items@, n as int),
                    decreases n,
                {
                    if let Some(c) = tile.items[n - 1].config.minimap_color {
                        assert(color_below(tile.items@, n as int) == Some(c));
                        return Some(c);
                    }
                    n = n - 1;
                }
                None
            },
        }
    }

    /// Whether pathing should avoid `pos`; an unknown tile is avoided.
    pub fn avoid(&self, pos: &Position) -> (b: bool)
        ensures
            b == match self.tile(*pos) {
                Some(t) => any_flag(t.items, ItemFlag::Avoid),
                None => true,
            },
    {
        match self.tiles.get(&pos.key()) {
            None => true,
            Some(tile) => stack_has_flag(&tile.items, ItemFlag::Avoid),
        }
    }

    /// How far the stack on `pos` lifts what stands on it: the sum of its
    /// first three elevations.
    #[verifier::loop_isolation(false)]
    pub fn get_elevation(&self, pos: &Position) -> (e: u8)
        requires
            elevation_from(self.spec_items_on(*pos), 0, 3) <= 255,
        ensures
            e == elevation_from(self.spec_items_on(*pos), 0, 3),
    {
        match self.tiles.get(&pos.key()) {
            None => 0,
            Some(tile) => {
                let mut i: usize = 0;
                let mut left: u8 = 3;
                let mut sum: u8 = 0;
                while i < tile.items.len() && left > 0
                    invariant
                        i <= tile.items@.len(),
                        left <= 3,
                        sum + elevation_from(tile.items@, i as int, left as nat) == elevation_from(tile.items@, 0, 3),
                        elevation_from(tile.items@, 0, 3) <= 255,
                    decreases tile.items@.len() - i,
                {
                    proof {
                        lemma_elevation_nonneg(tile.items@, i as int + 1, left as nat);
                        lemma_elevation_nonneg(tile.items@, i as int + 1, (left - 1) as nat);
                    }
                    if let Some(e) = tile.items[i].config.elevation {
                        sum = sum + e;
                        left = left - 1;
                    }
                    i = i + 1;
                }
                sum
            },
        }
    }

    /// The elevation of `pos` where it fits in a byte; `None` where the first
    /// three elevations of the stack add up past 255.
    #[verifier::loop_isolation(false)]
    pub fn checked_elevation(&self, pos: &Position) -> (e: Option<u8>)
        ensures
            elevation_from(self.spec_items_on(*pos), 0, 3) <= 255 ==> e == Some(
                elevation_from(self.spec_items_on(*pos), 0, 3) as u8,
            ),
            elevation_from(self.spec_items_on(*pos), 0, 3) > 255 ==> e is None,
    {
        match self.tiles.get(&pos.key()) {
            None => Some(0),
            Some(tile) => {
                let mut i: usize = 0;
                let mut left: u8 = 3;
                let mut sum: u16 = 0;
                while i < tile.items.len() && left > 0
                    invariant
                        i <= tile.items@.len(),
                        left <= 3,
                        sum <= 255 * (3 - left),
                        sum + elevation_from(tile.items@, i as int, left as nat) == elevation_from(tile.items@, 0, 3),
                    decreases tile.items@.len() - i,
                {
                    if let Some(e) = tile.items[i].config.elevation {
                        sum = sum + e as u16;
                        left = left - 1;
                    }
                    i = i + 1;
                }
                if sum <= 255 {
                    Some(sum as u8)
                } else {
                    None
                }
            },
        }
    }

    /// Whether `pos` has ground or a border.
    #[verifier::loop_isolation(false)]
    pub fn is_ground(&self, pos: &Position) -> (b: bool)
        ensures
            b == match self.tile(*pos) {
                Some(t) => any_flag(t.items, ItemFlag::Ground) || any_flag(t.items, ItemFlag::Border),
                None => false,
            },
    {
        match self.tiles.get(&pos.key()) {
            None => false,
            Some(tile) => {
                let mut i: usize = 0;
                while i < tile.items.len()
                    invariant
                        i <= tile.items@.len(),
                        forall|j: int| 0 <= j < i ==> !spec_has_flag(*tile.items@[j].config, ItemFlag::Ground)
                            && !spec_has_flag(*tile.items@[j].config, ItemFlag::Border),
                    decreases tile.items@.len() - i,
                {
                    if tile.items[i].config.has_flag(ItemFlag::Ground) || tile.items[i].config.has_flag(
                        ItemFlag::Border,
                    ) {
                        assert(spec_has_flag(*tile.items@[i as int].config, ItemFlag::Ground) || spec_has_flag(
                            *tile.items@[i as int].config,
                            ItemFlag::Border,
                        ));
                        return true;
                    }
                    i = i + 1;
                }
                false
            },
        }
    }

    pub fn is_bottom(&self, pos: &Position) -> (b: bool)
        ensures
            b == match self.tile(*pos) {
                Some(t) => any_flag(t.items, ItemFlag::Bottom),
                None => false,
            },
    {
        match self.tiles.get(&pos.key()) {
            None => false,
            Some(tile) => stack_has_flag(&tile.items, ItemFlag::Bottom),
        }
    }

    pub fn block_sight(&self, pos: &Position) -> (b: bool)
        ensures
            b == match self.tile(*pos) {
                Some(t) => any_flag(t.items, ItemFlag::BlockSight),
                None => false,
            },
    {
        match self.tiles.get(&pos.key()) {
            None => false,
            Some(tile) => stack_has_flag(&tile.items, ItemFlag::BlockSight),
        }
    }
}

proof fn lemma_elevation_nonneg(items: Seq<Arc<Item>>, i: int, n: nat)
    ensures
        0 <= elevation_from(items, i, n),
    decreases items.len() - i,
{
    if !(i < 0 || i >= items.len() || n == 0) {
        lemma_elevation_nonneg(items, i + 1, n);
        if n > 0 {
            lemma_elevation_nonneg(items, i + 1, (n - 1) as nat);
        }
    }
}

} // verus!
