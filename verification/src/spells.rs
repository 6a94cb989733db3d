//! Spells: the book the server sends, their groups, and the cooldowns that
//! shade their slots.

use std::collections::HashMap;

use vstd::prelude::*;

use crate::agent::AgentId;
use crate::conf::GROUP_SHEET_COLUMNS;
use crate::map::position::Position;

verus! {

#[derive(Copy, Clone, Eq, PartialEq, Hash, Debug, Structural)]
pub struct SpellId(pub u16);

#[derive(Clone, Copy, Debug, PartialEq, Eq, Structural)]
pub enum SpellTarget {
    /// No target at all.
    Untargeted,
    Agent(AgentId),
    Position(Position),
}

/// The server's spell groups, in the order of their wire ids.
#[derive(Clone, Copy, Debug, PartialEq, Eq, Hash, Structural)]
pub enum SpellGroup {
    Attack,
    Healing,
    Support,
}

pub const SPELL_GROUP_COUNT: usize = 3;

pub open spec fn group_index(g: SpellGroup) -> int {
    match g {
        SpellGroup::Attack => 0,
        SpellGroup::Healing => 1,
        SpellGroup::Support => 2,
    }
}

impl SpellGroup {
    /// Every group, in wire order.
    pub fn all() -> (a: [SpellGroup; 3])
        ensures
            a@ == seq![SpellGroup::Attack, SpellGroup::Healing, SpellGroup::Support],
    {
        let a = [SpellGroup::Attack, SpellGroup::Healing, SpellGroup::Support];
        proof {
            assert(a@ =~= seq![SpellGroup::Attack, SpellGroup::Healing, SpellGroup::Support]);
        }
        a
    }

    pub fn from_id(id: u8) -> (g: Option<SpellGroup>)
        ensures
            id < 3 ==> (g matches Some(x) && group_index(x) == id),
            id >= 3 ==> g is None,
    {
        match id {
            0 => Some(SpellGroup::Attack),
            1 => Some(SpellGroup::Healing),
            2 => Some(SpellGroup::Support),
            _ => None,
        }
    }

    pub fn index(self) -> (i: usize)
        ensures
            i == group_index(self),
    {
        match self {
            SpellGroup::Attack => 0,
            SpellGroup::Healing => 1,
            SpellGroup::Support => 2,
        }
    }
}

/// A group's index is its wire id, and each wire id names one group.
pub proof fn lemma_group_ids_round_trip(g: SpellGroup, h: SpellGroup)
    ensures
        0 <= group_index(g) < 3,
        group_index(g) == group_index(h) ==> g == h,
{
}

#[derive(Clone, Debug)]
pub struct SpellInfo {
    pub id: SpellId,
    pub name: String,
    pub words: String,
    pub level: u16,
    /// 1-based cell in the spell icon sheet.
    pub icon: u16,
    pub aimable: bool,
    pub group: SpellGroup,
}

/// The player's spells; `None` until the server's list arrives, which is not
/// the same as an empty list.
#[derive(Debug)]
pub struct SpellBook(pub Option<Vec<SpellInfo>>);

impl SpellBook {
    pub fn default() -> (b: SpellBook)
        ensures
            b.0 is None,
    {
        SpellBook(None)
    }

    pub fn new(spells: Vec<SpellInfo>) -> (b: SpellBook)
        ensures
            b.0 == Some(spells),
    {
        SpellBook(Some(spells))
    }

    pub fn spells(&self) -> (s: Option<&[SpellInfo]>)
        ensures
            self.0 is None ==> s is None,
            self.0 matches Some(v) ==> (s matches Some(sl) && sl@ == v@),
    {
        match &self.0 {
            None => None,
            Some(v) => Some(v.as_slice()),
        }
    }

    /// The first spell in the book with `id`.
    pub fn get(&self, id: SpellId) -> (s: Option<&SpellInfo>)
        ensures
            s == match self.0 {
                None => None,
                Some(v) => match first_with_id(v@, id) {
                    Some(i) => Some(&v@[i]),
                    None => None,
                },
            },
    {
        match &self.0 {
            None => None,
            Some(v) => {
                let mut i: usize = 0;
                while i < v.len()
                    invariant
                        self.0 == Some(*v),
                        i <= v@.len(),
                        first_with_id(v@.take(i as int), id) is None,
                    decreases v@.len() - i,
                {
                    proof {
                        assert(v@.take(i as int + 1).drop_last() =~= v@.take(i as int));
                    }
                    if v[i].id == id {
                        proof {
                            lemma_first_with_id_extends(v@, id, i as int);
                        }
                        return Some(&v[i]);
                    }
                    i = i + 1;
                }
                proof {
                    assert(v@.take(i as int) =~= v@);
                }
                None
            },
        }
    }
}

/// Where the first spell with `id` stands in `v`, if any.
pub open spec fn first_with_id(v: Seq<SpellInfo>, id: SpellId) -> Option<int>
    decreases v.len(),
{
    if v.len() == 0 {
        None
    } else {
        match first_with_id(v.drop_last(), id) {
            Some(i) => Some(i),
            None => if v.last().id == id {
                Some(v.len() - 1)
            } else {
                None
            },
        }
    }
}

/// The first spell with `id` does have it.
pub proof fn lemma_first_with_id_has_id(v: Seq<SpellInfo>, id: SpellId)
    ensures
        first_with_id(v, id) matches Some(i) ==> 0 <= i < v.len() && v[i].id == id,
    decreases v.len(),
{
    if v.len() > 0 {
        lemma_first_with_id_has_id(v.drop_last(), id);
    }
}

proof fn lemma_first_with_id_extends(v: Seq<SpellInfo>, id: SpellId, i: int)
    requires
        0 <= i < v.len(),
        first_with_id(v.take(i), id) is None,
        v[i].id == id,
    ensures
        first_with_id(v, id) == Some(i),
    decreases v.len() - i,
{
    if v.len() == i + 1 {
        assert(v.drop_last() =~= v.take(i));
    } else {
        assert(v.drop_last().take(i) =~= v.take(i));
        lemma_first_with_id_extends(v.drop_last(), id, i);
    }
}

/// A cooldown as it stands at some moment: how long is left, out of how long.
/// What fraction has recovered is `1 - remaining / length`.
#[derive(Clone, Copy, Debug, PartialEq, Eq, Structural)]
pub struct CooldownState {
    pub remaining_ns: u64,
    pub length_ns: u64,
}

#[derive(Clone, Copy, Debug, PartialEq, Eq, Structural)]
pub struct Cooldown {
    pub start_ns: u64,
    pub length_ns: u64,
}

/// When a cooldown ends; a start and length past the clock's range end at its top.
pub open spec fn cooldown_end(c: Cooldown) -> int {
    if c.start_ns + c.length_ns > u64::MAX {
        u64::MAX as int
    } else {
        c.start_ns + c.length_ns
    }
}

/// A cooldown at `now`: running while its end is still ahead.
pub open spec fn cooldown_state(c: Cooldown, now: u64) -> Option<CooldownState> {
    if cooldown_end(c) > now {
        Some(CooldownState { remaining_ns: (cooldown_end(c) - now) as u64, length_ns: c.length_ns })
    } else {
        None
    }
}

impl Cooldown {
    pub fn state(&self, now_ns: u64) -> (s: Option<CooldownState>)
        ensures
            s == cooldown_state(*self, now_ns),
    {
        let end = self.start_ns.saturating_add(self.length_ns);
        if end > now_ns {
            Some(CooldownState { remaining_ns: end - now_ns, length_ns: self.length_ns })
        } else {
            None
        }
    }
}

/// The later-ending of two optional cooldown states; on a tie, the second.
pub open spec fn later_of(a: Option<CooldownState>, b: Option<CooldownState>) -> Option<CooldownState> {
    match (a, b) {
        (Some(x), Some(y)) => if x.remaining_ns > y.remaining_ns {
            Some(x)
        } else {
            Some(y)
        },
        (Some(x), None) => Some(x),
        (None, y) => y,
    }
}

/// The running cooldowns, per spell and per group. Instants are nanoseconds of
/// real elapsed time.
#[derive(Debug)]
pub struct SpellCooldowns {
    pub spells: HashMap<u16, Cooldown>,
    pub groups: [Option<Cooldown>; 3],
}

impl SpellCooldowns {
    pub fn default() -> (c: SpellCooldowns)
        ensures
            c.spells@ == Map::<u16, Cooldown>::empty(),
            c.groups@ == seq![None::<Cooldown>, None, None],
    {
        let c = SpellCooldowns { spells: HashMap::new(), groups: [None, None, None] };
        proof {
            assert(c.groups@ =~= seq![None::<Cooldown>, None, None]);
        }
        c
    }

    /// Starts the spell's own cooldown; a zero length starts nothing.
    pub fn start_spell(&mut self, id: SpellId, now_ns: u64, length_ns: u64)
        ensures
            length_ns == 0 ==> final(self).spells@ == old(self).spells@,
            length_ns != 0 ==> final(self).spells@ == old(self).spells@.insert(
                id.0,
                Cooldown { start_ns: now_ns, length_ns },
            ),
            final(self).groups == old(self).groups,
    {
        if length_ns != 0 {
            self.spells.insert(id.0, Cooldown { start_ns: now_ns, length_ns });
        }
    }

    /// Starts a group's cooldown, replacing the one it had; a zero length starts
    /// nothing.
    pub fn start_group(&mut self, group: SpellGroup, now_ns: u64, length_ns: u64)
        ensures
            length_ns == 0 ==> final(self).groups == old(self).groups,
            length_ns != 0 ==> final(self).groups@ == old(self).groups@.update(
                group_index(group),
                Some(Cooldown { start_ns: now_ns, length_ns }),
            ),
            final(self).spells@ == old(self).spells@,
    {
        if length_ns != 0 {
            self.groups[group.index()] = Some(Cooldown { start_ns: now_ns, length_ns });
        }
    }

    pub open spec fn spec_group(&self, group: SpellGroup, now: u64) -> Option<CooldownState> {
        match self.groups@[group_index(group)] {
            Some(c) => cooldown_state(c, now),
            None => None,
        }
    }

    pub fn group(&self, group: SpellGroup, now_ns: u64) -> (s: Option<CooldownState>)
        ensures
            s == self.spec_group(group, now_ns),
    {
        match self.groups[group.index()] {
            Some(c) => c.state(now_ns),
            None => None,
        }
    }

    /// The later-ending of the spell's own cooldown and its group's.
    pub fn spell(&self, id: SpellId, group: SpellGroup, now_ns: u64) -> (s: Option<CooldownState>)
        ensures
            s == later_of(
                if self.spells@.contains_key(id.0) {
                    cooldown_state(self.spells@[id.0], now_ns)
                } else {
                    None
                },
                self.spec_group(group, now_ns),
            ),
    {
        let own = match self.spells.get(&id.0) {
            Some(c) => c.state(now_ns),
            None => None,
        };
        let grp = self.group(group, now_ns);
        match (own, grp) {
            (Some(x), Some(y)) => if x.remaining_ns > y.remaining_ns {
                Some(x)
            } else {
                Some(y)
            },
            (Some(x), None) => Some(x),
            (None, y) => y,
        }
    }
}

/// What starting a group's cooldown at `s` for `l` nanoseconds does to what the
/// groups report at any later `now`: a zero length changes nothing; otherwise
/// the group runs, with `l` as its length, until `s + l` (the clock's top where
/// that is past it), replacing whatever it ran before, with at most `l` and more
/// than nothing left while it runs; every other group reports what it did.
pub proof fn lemma_group_cooldown_runs_from_its_latest_start(
    before: SpellCooldowns,
    after: SpellCooldowns,
    g: SpellGroup,
    s: u64,
    l: u64,
    now: u64,
)
    requires
        l == 0 ==> after.groups == before.groups,
        l != 0 ==> after.groups@ == before.groups@.update(
            group_index(g),
            Some(Cooldown { start_ns: s, length_ns: l }),
        ),
        s <= now,
    ensures
        l == 0 ==> forall|h: SpellGroup| #[trigger] after.spec_group(h, now) == before.spec_group(h, now),
        l != 0 ==> forall|h: SpellGroup| h != g ==> #[trigger] after.spec_group(h, now) == before.spec_group(h, now),
        l != 0 ==> (after.spec_group(g, now) is None <==> now >= cooldown_end(
            Cooldown { start_ns: s, length_ns: l },
        )),
        l != 0 ==> (after.spec_group(g, now) matches Some(st) ==> {
            &&& st.length_ns == l
            &&& st.remaining_ns == cooldown_end(Cooldown { start_ns: s, length_ns: l }) - now
            &&& 0 < st.remaining_ns <= l
        }),
        s + l <= u64::MAX ==> cooldown_end(Cooldown { start_ns: s, length_ns: l }) == s + l,
{
    assert(forall|h: SpellGroup| h != g ==> group_index(h) != group_index(g));
}

/// What a shaded overlay tracks: one spell, with the group it belongs to, or a
/// whole group.
#[derive(Clone, Copy, Debug, PartialEq, Eq, Structural)]
pub enum CooldownOverlay {
    Spell { id: SpellId, group: SpellGroup },
    Group(SpellGroup),
}

impl CooldownOverlay {
    /// The cooldown the overlay shows at `now_ns`.
    pub fn state(self, cooldowns: &SpellCooldowns, now_ns: u64) -> (s: Option<CooldownState>)
        ensures
            self matches CooldownOverlay::Spell { id, group } ==> s == later_of(
                if cooldowns.spells@.contains_key(id.0) {
                    cooldown_state(cooldowns.spells@[id.0], now_ns)
                } else {
                    None
                },
                cooldowns.spec_group(group, now_ns),
            ),
            self matches CooldownOverlay::Group(group) ==> s == cooldowns.spec_group(group, now_ns),
    {
        match self {
            CooldownOverlay::Spell { id, group } => cooldowns.spell(id, group, now_ns),
            CooldownOverlay::Group(group) => cooldowns.group(group, now_ns),
        }
    }
}

/// A group's icon on the cooldown sheet: its cell in the second, coloured row.
pub fn group_icon_index(group: SpellGroup) -> (i: usize)
    ensures
        i == GROUP_SHEET_COLUMNS + group_index(group),
{
    GROUP_SHEET_COLUMNS as usize + group.index()
}

/// A spell's slot is shaded exactly while its own cooldown or its group's runs,
/// and never shows less time left than either.
pub proof fn lemma_slot_follows_the_later_cooldown(a: Option<CooldownState>, b: Option<CooldownState>)
    ensures
        later_of(a, b) is Some <==> (a is Some || b is Some),
        a matches Some(x) ==> later_of(a, b).unwrap().remaining_ns >= x.remaining_ns,
        b matches Some(y) ==> later_of(a, b).unwrap().remaining_ns >= y.remaining_ns,
        later_of(a, b) == a || later_of(a, b) == b,
{
}

/// The status bits the server sends, one per condition.
#[derive(Clone, Copy, Debug, PartialEq, Eq, Structural)]
pub enum PlayerStatus {
    LogoutBlock,
    Hungry,
    Paralysed,
    Burning,
    Poisoned,
    Electrified,
    Hasted,
    MagicShield,
}

pub open spec fn status_bit_index(s: PlayerStatus) -> u32 {
    match s {
        PlayerStatus::LogoutBlock => 0,
        PlayerStatus::Hungry => 1,
        PlayerStatus::Paralysed => 2,
        PlayerStatus::Burning => 3,
        PlayerStatus::Poisoned => 4,
        PlayerStatus::Electrified => 5,
        PlayerStatus::Hasted => 6,
        PlayerStatus::MagicShield => 7,
    }
}

impl PlayerStatus {
    /// Every status, in the order of its bit.
    pub fn all() -> (a: [PlayerStatus; 8])
        ensures
            forall|i: int| 0 <= i < 8 ==> status_bit_index(#[trigger] a@[i]) == i,
    {
        [
            PlayerStatus::LogoutBlock,
            PlayerStatus::Hungry,
            PlayerStatus::Paralysed,
            PlayerStatus::Burning,
            PlayerStatus::Poisoned,
            PlayerStatus::Electrified,
            PlayerStatus::Hasted,
            PlayerStatus::MagicShield,
        ]
    }

    pub fn bit(self) -> (b: u32)
        ensures
            b == 1u32 << status_bit_index(self),
    {
        let n: u32 = match self {
            PlayerStatus::LogoutBlock => 0,
            PlayerStatus::Hungry => 1,
            PlayerStatus::Paralysed => 2,
            PlayerStatus::Burning => 3,
            PlayerStatus::Poisoned => 4,
            PlayerStatus::Electrified => 5,
            PlayerStatus::Hasted => 6,
            PlayerStatus::MagicShield => 7,
        };
        1u32 << n
    }
}

/// The player's conditions as the server's bit set.
#[derive(Clone, Copy, Debug, PartialEq, Eq, Default, Structural)]
pub struct PlayerStatuses(pub u32);

impl PlayerStatuses {
    pub fn contains(self, status: PlayerStatus) -> (b: bool)
        ensures
            b == (self.0 & (1u32 << status_bit_index(status)) != 0),
    {
        self.0 & status.bit() != 0
    }
}

/// Every status, in the order of its bit.
pub open spec fn all_statuses() -> Seq<PlayerStatus> {
    seq![
        PlayerStatus::LogoutBlock,
        PlayerStatus::Hungry,
        PlayerStatus::Paralysed,
        PlayerStatus::Burning,
        PlayerStatus::Poisoned,
        PlayerStatus::Electrified,
        PlayerStatus::Hasted,
        PlayerStatus::MagicShield,
    ]
}

pub open spec fn spec_has_status(statuses: PlayerStatuses, s: PlayerStatus) -> bool {
    statuses.0 & (1u32 << status_bit_index(s)) != 0
}

/// The cell of the status sheet that draws `status`: the position of its bit.
pub fn status_icon_index(status: PlayerStatus) -> (i: usize)
    ensures
        i == status_bit_index(status),
{
    match status {
        PlayerStatus::LogoutBlock => 0,
        PlayerStatus::Hungry => 1,
        PlayerStatus::Paralysed => 2,
        PlayerStatus::Burning => 3,
        PlayerStatus::Poisoned => 4,
        PlayerStatus::Electrified => 5,
        PlayerStatus::Hasted => 6,
        PlayerStatus::MagicShield => 7,
    }
}

/// The statuses whose icons the status bar shows: those whose bits are set,
/// in bit order.
pub fn shown_statuses(statuses: PlayerStatuses) -> (v: Vec<PlayerStatus>)
    ensures
        v@ == all_statuses().filter(|s: PlayerStatus| spec_has_status(statuses, s)),
{
    let all = PlayerStatus::all();
    let ghost pred = |s: PlayerStatus| spec_has_status(statuses, s);
    proof {
        assert(all@ =~= all_statuses()) by {
            assert forall|i: int| 0 <= i < 8 implies all@[i] == all_statuses()[i] by {
                assert(status_bit_index(all@[i]) == i);
            }
        }
    }
    let mut v: Vec<PlayerStatus> = Vec::new();
    let mut i: usize = 0;
    while i < 8
        invariant
            i <= 8,
            all@ == all_statuses(),
            pred == (|s: PlayerStatus| spec_has_status(statuses, s)),
            v@ == all_statuses().take(i as int).filter(pred),
        decreases 8 - i,
    {
        let s = all[i];
        proof {
            assert(all_statuses().take(i as int + 1).drop_last() =~= all_statuses().take(i as int));
            reveal(Seq::filter);
        }
        if statuses.contains(s) {
            v.push(s);
        }
        i = i + 1;
    }
    proof {
        assert(all_statuses().take(8) =~= all_statuses());
    }
    v
}

} // verus!
