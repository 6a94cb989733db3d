use std::collections::BTreeMap;

use vstd::prelude::*;
use vstd::laws_cmp::obeys_cmp;
use vstd::std_specs::btree::increasing_seq;
use vstd::std_specs::cmp::OrdSpec;
use vstd::std_specs::iter::IteratorSpec;

use crate::items::ItemId;
use crate::spells::SpellId;

verus! {

broadcast use vstd::laws_cmp::group_laws_cmp;

#[derive(Clone, Copy, Debug, PartialEq, Eq, Structural)]
pub enum Aim {
    Yourself,
    Target,
    Crosshair,
}

#[derive(Clone, Copy, Debug, PartialEq, Eq, Structural)]
pub enum SlotAction {
    /// `aim` is `Some` only for an aimable spell.
    Spell { id: SpellId, aim: Option<Aim> },
    /// `aim` is `Some` for a use-with, `None` for a plain use.
    Item { item_id: ItemId, aim: Option<Aim> },
}

/// A key combination: a key, by the number the input layer gives it, and its
/// modifiers.
#[derive(Clone, Copy, Debug, PartialEq, Eq, Structural)]
pub struct Hotkey {
    pub key: u16,
    pub ctrl: bool,
    pub shift: bool,
    pub alt: bool,
}

impl Hotkey {
    pub fn new(key: u16, ctrl: bool, shift: bool, alt: bool) -> (h: Hotkey)
        ensures
            h == (Hotkey { key, ctrl, shift, alt }),
    {
        Hotkey { key, ctrl, shift, alt }
    }

    /// The key alone, with no modifier held.
    pub fn plain(key: u16) -> (h: Hotkey)
        ensures
            h == (Hotkey { key, ctrl: false, shift: false, alt: false }),
    {
        Hotkey { key, ctrl: false, shift: false, alt: false }
    }
}

#[derive(Clone, Copy, Debug, PartialEq, Eq, Structural)]
pub struct ActionSlot {
    pub action: Option<SlotAction>,
    pub hotkey: Option<Hotkey>,
}

impl ActionSlot {
    pub fn default() -> (s: ActionSlot)
        ensures
            s == (ActionSlot { action: None, hotkey: None }),
    {
        ActionSlot { action: None, hotkey: None }
    }

    pub fn is_empty(&self) -> (b: bool)
        ensures
            b == (self.action is None && self.hotkey is None),
    {
        self.action.is_none() && self.hotkey.is_none()
    }
}

/// Which hotkey each action slot is bound to, and the combinations the game keeps
/// for itself. A hotkey is bound to at most one slot.
#[derive(Debug)]
pub struct Keybinds {
    pub slot_binds: BTreeMap<u16, Hotkey>,
    pub reserved: Vec<Hotkey>,
}

impl Keybinds {
    pub open spec fn binds(&self) -> Map<u16, Hotkey> {
        self.slot_binds@
    }

    /// No hotkey is bound to two slots.
    pub open spec fn wf(&self) -> bool {
        forall|a: u16, b: u16|
            #[trigger] self.binds().contains_key(a) && #[trigger] self.binds().contains_key(b) && a
                != b ==> self.binds()[a] != self.binds()[b]
    }

    pub fn new(reserved: Vec<Hotkey>) -> (k: Keybinds)
        ensures
            k.binds() == Map::<u16, Hotkey>::empty(),
            k.reserved@ == reserved@,
            k.wf(),
    {
        Keybinds { slot_binds: BTreeMap::new(), reserved }
    }

    pub fn slot_hotkey(&self, slot: u16) -> (h: Option<Hotkey>)
        ensures
            h == if self.binds().contains_key(slot) {
                Some(self.binds()[slot])
            } else {
                None
            },
    {
        match self.slot_binds.get(&slot) {
            Some(h) => Some(*h),
            None => None,
        }
    }

    /// Every slot's bind.
    pub fn slot_list(&self) -> (binds: Vec<(u16, Hotkey)>)
        ensures
            binds@.no_duplicates(),
            forall|i: int, j: int| 0 <= i < j < binds@.len() ==> binds@[i].0 < binds@[j].0,
            forall|i: int|
                0 <= i < binds@.len() ==> #[trigger] self.binds().contains_key(binds@[i].0)
                    && self.binds()[binds@[i].0] == binds@[i].1,
            forall|s: u16| #[trigger]
                self.binds().contains_key(s) ==> exists|i: int|
                    0 <= i < binds@.len() && #[trigger] binds@[i].0 == s,
    {
        let ghost keys = vstd::std_specs::btree::spec_keys_iter(&self.slot_binds).remaining();
        let mut out: Vec<(u16, Hotkey)> = Vec::new();
        for k in it: self.slot_binds.keys()
            invariant
                it.seq() == keys,
                keys.unref().to_set() == self.binds().dom(),
                keys.no_duplicates(),
                out@.len() == it.index(),
                forall|i: int|
                    0 <= i < it.index() ==> (#[trigger] out@[i]).0 == *keys[i] && self.binds().contains_key(
                        out@[i].0,
                    ) && self.binds()[out@[i].0] == out@[i].1,
        {
            let h = *self.slot_binds.get(k).unwrap();
            out.push((*k, h));
        }
        proof {
            assert(increasing_seq(keys));
            assert forall|i: int, j: int| 0 <= i < j < out@.len() implies out@[i].0 < out@[j].0 by {
                assert(out@[i].0 == *keys[i] && out@[j].0 == *keys[j]);
                lemma_keys_ascend(keys, i, j);
            }
            assert forall|i: int, j: int| 0 <= i < j < out@.len() implies out@[i] != out@[j] by {
                assert(out@[i].0 == *keys[i] && out@[j].0 == *keys[j]);
                assert(keys.unref()[i] != keys.unref()[j]);
            }
            assert forall|s: u16| #[trigger] self.binds().contains_key(s) implies exists|i: int|
                0 <= i < out@.len() && #[trigger] out@[i].0 == s by {
                assert(keys.unref().to_set().contains(s));
                let i = choose|i: int| 0 <= i < keys.unref().len() && keys.unref()[i] == s;
                assert(out@[i].0 == s);
            }
        }
        out
    }

    pub fn reserves(&self, hotkey: &Hotkey) -> (b: bool)
        ensures
            b == self.reserved@.contains(*hotkey),
    {
        let mut i: usize = 0;
        while i < self.reserved.len()
            invariant
                i <= self.reserved@.len(),
                forall|j: int| 0 <= j < i ==> self.reserved@[j] != *hotkey,
            decreases self.reserved@.len() - i,
        {
            if self.reserved[i] == *hotkey {
                return true;
            }
            i = i + 1;
        }
        false
    }

    /// The slot `hotkey` is bound to, if any.
    pub fn slot_with_hotkey(&self, hotkey: &Hotkey) -> (s: Option<u16>)
        ensures
            s matches Some(slot) ==> self.binds().contains_key(slot) && self.binds()[slot] == *hotkey,
            s is None ==> forall|slot: u16| #[trigger]
                self.binds().contains_key(slot) ==> self.binds()[slot] != *hotkey,
    {
        let binds = self.slot_list();
        let mut i: usize = 0;
        while i < binds.len()
            invariant
                i <= binds@.len(),
                forall|j: int| 0 <= j < i ==> (#[trigger] binds@[j]).1 != *hotkey,
                forall|j: int|
                    0 <= j < binds@.len() ==> #[trigger] self.binds().contains_key(binds@[j].0)
                        && self.binds()[binds@[j].0] == binds@[j].1,
            decreases binds@.len() - i,
        {
            if binds[i].1 == *hotkey {
                return Some(binds[i].0);
            }
            i = i + 1;
        }
        proof {
            assert forall|slot: u16| #[trigger] self.binds().contains_key(slot) implies self.binds()[slot]
                != *hotkey by {
                let j = choose|j: int| 0 <= j < binds@.len() && #[trigger] binds@[j].0 == slot;
                assert(binds@[j].1 != *hotkey);
            }
        }
        None
    }

    /// Binds `hotkey` to `slot`, taking it from whichever slot held it.
    pub fn bind_slot(&mut self, slot: u16, hotkey: Hotkey)
        requires
            old(self).wf(),
        ensures
            final(self).wf(),
            final(self).binds() == old(self).binds().remove_keys(
                old(self).binds().dom().filter(|s: u16| old(self).binds()[s] == hotkey),
            ).insert(slot, hotkey),
            final(self).reserved@ == old(self).reserved@,
    {
        match self.slot_with_hotkey(&hotkey) {
            Some(other) => {
                self.slot_binds.remove(&other);
                proof {
                    assert(old(self).binds().dom().filter(|s: u16| old(self).binds()[s] == hotkey)
                        =~= set![other]);
                }
            },
            None => {
                proof {
                    assert(old(self).binds().dom().filter(|s: u16| old(self).binds()[s] == hotkey)
                        =~= Set::<u16>::empty());
                }
            },
        }
        self.slot_binds.insert(slot, hotkey);
        proof {
            let expected = old(self).binds().remove_keys(
                old(self).binds().dom().filter(|s: u16| old(self).binds()[s] == hotkey),
            ).insert(slot, hotkey);
            assert(self.binds() =~= expected);
        }
    }

    pub fn unbind_slot(&mut self, slot: u16)
        ensures
            final(self).binds() == old(self).binds().remove(slot),
            final(self).reserved@ == old(self).reserved@,
            old(self).wf() ==> final(self).wf(),
    {
        self.slot_binds.remove(&slot);
        proof {
            assert forall|a: u16, b: u16|
                #[trigger] final(self).binds().contains_key(a) && #[trigger] final(self).binds().contains_key(b)
                    && a != b && old(self).wf() implies final(self).binds()[a] != final(self).binds()[b] by {
                assert(old(self).binds().contains_key(a) && old(self).binds().contains_key(b));
            }
        }
    }
}

/// A map's keys come out of its key iterator in increasing order.
proof fn lemma_keys_ascend(keys: Seq<&u16>, a: int, b: int)
    requires
        increasing_seq(keys),
        0 <= a < b < keys.len(),
    ensures
        *keys[a] < *keys[b],
{
    broadcast use vstd::std_specs::btree::axiom_increasing_seq_meaning;

    assert(obeys_cmp::<&u16>());
    assert(OrdSpec::cmp_spec(&keys[a], &keys[b]) is Less);
}

/// What a slot shows: its action, if any, and its hotkey, if any.
pub open spec fn slot_of(actions: Map<u16, SlotAction>, binds: Map<u16, Hotkey>, index: u16) -> ActionSlot {
    ActionSlot {
        action: if actions.contains_key(index) {
            Some(actions[index])
        } else {
            None
        },
        hotkey: if binds.contains_key(index) {
            Some(binds[index])
        } else {
            None
        },
    }
}

/// Each slot's action, sparse. A slot's hotkey is its bind in `Keybinds`.
#[derive(Debug)]
pub struct ActionBar {
    pub actions: BTreeMap<u16, SlotAction>,
    pub spells_checked: bool,
}

impl ActionBar {
    pub open spec fn view_actions(&self) -> Map<u16, SlotAction> {
        self.actions@
    }

    pub fn default() -> (b: ActionBar)
        ensures
            b.view_actions() == Map::<u16, SlotAction>::empty(),
            !b.spells_checked,
    {
        ActionBar { actions: BTreeMap::new(), spells_checked: false }
    }

    pub fn from_actions(actions: BTreeMap<u16, SlotAction>) -> (b: ActionBar)
        ensures
            b.view_actions() == actions@,
            !b.spells_checked,
    {
        ActionBar { actions, spells_checked: false }
    }

    pub fn action(&self, index: u16) -> (a: Option<SlotAction>)
        ensures
            a == if self.view_actions().contains_key(index) {
                Some(self.view_actions()[index])
            } else {
                None
            },
    {
        match self.actions.get(&index) {
            Some(a) => Some(*a),
            None => None,
        }
    }

    pub fn slot(&self, keybinds: &Keybinds, index: u16) -> (s: ActionSlot)
        ensures
            s == slot_of(self.view_actions(), keybinds.binds(), index),
    {
        ActionSlot { action: self.action(index), hotkey: keybinds.slot_hotkey(index) }
    }

    /// Every slot with an action or a hotkey.
    pub fn slots(&self, keybinds: &Keybinds) -> (slots: BTreeMap<u16, ActionSlot>)
        ensures
            slots@.dom() == self.view_actions().dom().union(keybinds.binds().dom()),
            forall|i: u16| #[trigger]
                slots@.contains_key(i) ==> slots@[i] == slot_of(self.view_actions(), keybinds.binds(), i),
    {
        let mut slots: BTreeMap<u16, ActionSlot> = BTreeMap::new();
        let ghost keys = vstd::std_specs::btree::spec_keys_iter(&self.actions).remaining();
        for k in it: self.actions.keys()
            invariant
                it.seq() == keys,
                keys.unref().to_set() == self.view_actions().dom(),
                slots@.dom() == keys.unref().take(it.index() as int).to_set(),
                forall|i: u16| #[trigger]
                    slots@.contains_key(i) ==> slots@[i] == (ActionSlot {
                        action: Some(self.view_actions()[i]),
                        hotkey: None,
                    }) && self.view_actions().contains_key(i),
        {
            proof {
                assert(keys.unref().take(it.index() as int + 1) =~= keys.unref().take(
                    it.index() as int,
                ).push(*k));
                assert(keys.unref().to_set().contains(*k));
            }
            let a = *self.actions.get(k).unwrap();
            slots.insert(*k, ActionSlot { action: Some(a), hotkey: None });
            proof {
                let t0 = keys.unref().take(it.index() as int);
                let t1 = keys.unref().take(it.index() as int + 1);
                assert forall|x: u16| #[trigger] t1.to_set().contains(x) <==> slots@.dom().contains(x) by {
                    if t1.contains(x) {
                        let j = choose|j: int| 0 <= j < t1.len() && t1[j] == x;
                        if j < t0.len() {
                            assert(t0[j] == x);
                            assert(t0.contains(x));
                        }
                    }
                    if slots@.dom().contains(x) && x != *k {
                        assert(t0.to_set().contains(x));
                        let j = choose|j: int| 0 <= j < t0.len() && t0[j] == x;
                        assert(t1[j] == x);
                    }
                    if x == *k {
                        assert(t1[it.index() as int] == x);
                    }
                }
                assert(slots@.dom() =~= t1.to_set());
            }
        }
        proof {
            assert(keys.unref().take(keys.len() as int) =~= keys.unref());
            assert(slots@.dom() =~= self.view_actions().dom());
        }
        let binds = keybinds.slot_list();
        let mut j: usize = 0;
        while j < binds.len()
            invariant
                j <= binds@.len(),
                binds@.no_duplicates(),
                forall|i: int|
                    0 <= i < binds@.len() ==> #[trigger] keybinds.binds().contains_key(binds@[i].0)
                        && keybinds.binds()[binds@[i].0] == binds@[i].1,
                forall|s: u16| #[trigger]
                    keybinds.binds().contains_key(s) ==> exists|i: int|
                        0 <= i < binds@.len() && #[trigger] binds@[i].0 == s,
                forall|i: u16| #[trigger]
                    slots@.contains_key(i) <==> (self.view_actions().contains_key(i) || exists|k: int|
                        0 <= k < j && #[trigger] binds@[k].0 == i),
                forall|i: u16| #[trigger]
                    slots@.contains_key(i) ==> slots@[i].action == slot_of(
                        self.view_actions(),
                        keybinds.binds(),
                        i,
                    ).action && slots@[i].hotkey == if exists|k: int|
                        0 <= k < j && #[trigger] binds@[k].0 == i {
                        slot_of(self.view_actions(), keybinds.binds(), i).hotkey
                    } else {
                        None
                    },
            decreases binds@.len() - j,
        {
            let (index, hotkey) = binds[j];
            let current = match slots.get(&index) {
                Some(s) => *s,
                None => ActionSlot { action: None, hotkey: None },
            };
            proof {
                assert(binds@[j as int].0 == index);
                assert(!(exists|k: int| 0 <= k < j && #[trigger] binds@[k].0 == index)) by {
                    if exists|k: int| 0 <= k < j && #[trigger] binds@[k].0 == index {
                        let k = choose|k: int| 0 <= k < j && #[trigger] binds@[k].0 == index;
                        assert(binds@[k] == binds@[j as int]);
                    }
                }
            }
            slots.insert(index, ActionSlot { action: current.action, hotkey: Some(hotkey) });
            proof {
                assert forall|i: u16| #[trigger] slots@.contains_key(i) <==> (self.view_actions().contains_key(
                    i,
                ) || exists|k: int| 0 <= k < j + 1 && #[trigger] binds@[k].0 == i) by {
                    if i == index {
                        assert(binds@[j as int].0 == i);
                    }
                    if exists|k: int| 0 <= k < j + 1 && #[trigger] binds@[k].0 == i {
                        let k = choose|k: int| 0 <= k < j + 1 && #[trigger] binds@[k].0 == i;
                        if k < j {
                        } else {
                            assert(i == index);
                        }
                    }
                }
                assert forall|i: u16| #[trigger] slots@.contains_key(i) implies slots@[i].hotkey == if exists|
                    k: int,
                | 0 <= k < j + 1 && #[trigger] binds@[k].0 == i {
                    slot_of(self.view_actions(), keybinds.binds(), i).hotkey
                } else {
                    None
                } by {
                    if i == index {
                        assert(binds@[j as int].0 == i);
                    } else {
                        if exists|k: int| 0 <= k < j + 1 && #[trigger] binds@[k].0 == i {
                            let k = choose|k: int| 0 <= k < j + 1 && #[trigger] binds@[k].0 == i;
                            assert(k < j);
                        }
                    }
                }
            }
            j = j + 1;
        }
        proof {
            assert forall|i: u16| #[trigger] slots@.contains_key(i) implies slots@[i] == slot_of(
                self.view_actions(),
                keybinds.binds(),
                i,
            ) by {
                if keybinds.binds().contains_key(i) {
                    let k = choose|k: int| 0 <= k < binds@.len() && #[trigger] binds@[k].0 == i;
                    assert(binds@[k].0 == i);
                } else {
                    if exists|k: int| 0 <= k < binds@.len() && #[trigger] binds@[k].0 == i {
                        let k = choose|k: int| 0 <= k < binds@.len() && #[trigger] binds@[k].0 == i;
                        assert(keybinds.binds().contains_key(binds@[k].0));
                    }
                }
            }
            assert forall|i: u16| #[trigger] slots@.dom().contains(i) <==> self.view_actions().dom().union(
                keybinds.binds().dom(),
            ).contains(i) by {
                if keybinds.binds().contains_key(i) {
                    let k = choose|k: int| 0 <= k < binds@.len() && #[trigger] binds@[k].0 == i;
                    assert(binds@[k].0 == i);
                }
                if exists|k: int| 0 <= k < binds@.len() && #[trigger] binds@[k].0 == i {
                    let k = choose|k: int| 0 <= k < binds@.len() && #[trigger] binds@[k].0 == i;
                    assert(keybinds.binds().contains_key(binds@[k].0));
                }
            }
            assert(slots@.dom() =~= self.view_actions().dom().union(keybinds.binds().dom()));
        }
        slots
    }

    pub fn set_action(&mut self, index: u16, action: SlotAction)
        ensures
            final(self).view_actions() == old(self).view_actions().insert(index, action),
            final(self).spells_checked == old(self).spells_checked,
    {
        self.actions.insert(index, action);
    }

    pub fn clear_action(&mut self, index: u16)
        ensures
            final(self).view_actions() == old(self).view_actions().remove(index),
            final(self).spells_checked == old(self).spells_checked,
    {
        self.actions.remove(&index);
    }

    /// Drops every action `keep` rejects and returns the slots it was in.
    pub fn retain_actions<F: Fn(&SlotAction) -> bool>(&mut self, keep: F) -> (cleared: Vec<u16>)
        requires
            forall|a: &SlotAction| #[trigger] keep.requires((a,)),
        ensures
            final(self).spells_checked == old(self).spells_checked,
            cleared@.no_duplicates(),
            forall|i: int, j: int| 0 <= i < j < cleared@.len() ==> cleared@[i] < cleared@[j],
            forall|i: int|
                0 <= i < cleared@.len() ==> old(self).view_actions().contains_key(#[trigger] cleared@[i])
                    && keep.ensures((&old(self).view_actions()[cleared@[i]],), false),
            forall|s: u16| #[trigger]
                final(self).view_actions().contains_key(s) ==> old(self).view_actions().contains_key(s)
                    && final(self).view_actions()[s] == old(self).view_actions()[s] && keep.ensures(
                    (&old(self).view_actions()[s],),
                    true,
                ),
            forall|s: u16|
                old(self).view_actions().contains_key(s) ==> (#[trigger] final(self).view_actions().contains_key(s) <==> !cleared@.contains(s)),
    {
        let ghost keys = vstd::std_specs::btree::spec_keys_iter(&self.actions).remaining();
        let ghost before = self.actions@;
        let mut cleared: Vec<u16> = Vec::new();
        let mut kept: Vec<u16> = Vec::new();
        for k in it: self.actions.keys()
            invariant
                it.seq() == keys,
                keys.unref().to_set() == before.dom(),
                keys.no_duplicates(),
                before == self.actions@,
                self.spells_checked == old(self).spells_checked,
                forall|a: &SlotAction| #[trigger] keep.requires((a,)),
                cleared@.len() + kept@.len() == it.index(),
                forall|i: int|
                    0 <= i < cleared@.len() ==> keys.unref().take(it.index() as int).contains(
                        #[trigger] cleared@[i],
                    ) && keep.ensures((&before[cleared@[i]],), false),
                forall|i: int|
                    0 <= i < kept@.len() ==> keys.unref().take(it.index() as int).contains(
                        #[trigger] kept@[i],
                    ) && keep.ensures((&before[kept@[i]],), true),
                forall|s: u16|
                    keys.unref().take(it.index() as int).contains(s) ==> (#[trigger] cleared@.contains(s)
                        || kept@.contains(s)),
                cleared@.no_duplicates(),
                increasing_seq(keys),
                forall|i: int, j: int| 0 <= i < j < cleared@.len() ==> cleared@[i] < cleared@[j],
        {
            proof {
                assert(keys.unref().take(it.index() as int + 1) =~= keys.unref().take(
                    it.index() as int,
                ).push(*k));
                assert(keys.unref().to_set().contains(*k));
                assert(!keys.unref().take(it.index() as int).contains(*k)) by {
                    if keys.unref().take(it.index() as int).contains(*k) {
                        let j = choose|j: int|
                            0 <= j < it.index() && keys.unref().take(it.index() as int)[j] == *k;
                        assert(keys.unref()[j] == keys.unref()[it.index() as int]);
                    }
                }
            }
            let ghost c_old = cleared@;
            let ghost k_old = kept@;
            let a = self.actions.get(k).unwrap();
            if keep(a) {
                kept.push(*k);
            } else {
                cleared.push(*k);
            }
            proof {
                let t1 = keys.unref().take(it.index() as int + 1);
                let t0 = keys.unref().take(it.index() as int);
                assert forall|x: u16| t1.contains(x) implies (#[trigger] cleared@.contains(x) || kept@.contains(x)) by {
                    let j = choose|j: int| 0 <= j < t1.len() && t1[j] == x;
                    if j < t0.len() {
                        assert(t0[j] == x);
                        assert(t0.contains(x));
                        assert(c_old.contains(x) || k_old.contains(x));
                        if c_old.contains(x) {
                            let m = choose|m: int| 0 <= m < c_old.len() && c_old[m] == x;
                            assert(cleared@[m] == x);
                        } else {
                            let m = choose|m: int| 0 <= m < k_old.len() && k_old[m] == x;
                            assert(kept@[m] == x);
                        }
                    }
                    if x == *k {
                        if cleared@.len() > 0 && cleared@.last() == *k {
                            assert(cleared@[cleared@.len() - 1] == x);
                        } else {
                            assert(kept@[kept@.len() - 1] == x);
                        }
                    }
                }
                assert forall|x: int, y: int| 0 <= x < y < cleared@.len() implies cleared@[x]
                    < cleared@[y] by {
                    if y == cleared@.len() - 1 && cleared@.len() > c_old.len() {
                        let t0 = keys.unref().take(it.index() as int);
                        assert(c_old[x] == cleared@[x]);
                        assert(t0.contains(cleared@[x]));
                        let m = choose|m: int| 0 <= m < t0.len() && t0[m] == cleared@[x];
                        assert(keys[m] == t0[m]);
                        lemma_keys_ascend(keys, m, it.index() as int);
                    } else {
                        assert(cleared@[x] == c_old[x] && cleared@[y] == c_old[y]);
                    }
                }
                assert forall|x: int, y: int| 0 <= x < y < cleared@.len() implies cleared@[x]
                    != cleared@[y] by {
                    if y == cleared@.len() - 1 && cleared@[y] == *k {
                        assert(keys.unref().take(it.index() as int).contains(cleared@[x]));
                    }
                }
                assert forall|i: int| 0 <= i < cleared@.len() implies t1.contains(#[trigger] cleared@[i]) by {
                    if cleared@[i] != *k {
                        let t0 = keys.unref().take(it.index() as int);
                        assert(t0.contains(cleared@[i]));
                        let j = choose|j: int| 0 <= j < t0.len() && t0[j] == cleared@[i];
                        assert(t1[j] == t0[j]);
                    } else {
                        assert(t1[it.index() as int] == *k);
                    }
                }
                assert forall|i: int| 0 <= i < kept@.len() implies t1.contains(#[trigger] kept@[i]) by {
                    if kept@[i] != *k {
                        let t0 = keys.unref().take(it.index() as int);
                        assert(t0.contains(kept@[i]));
                        let j = choose|j: int| 0 <= j < t0.len() && t0[j] == kept@[i];
                        assert(t1[j] == t0[j]);
                    } else {
                        assert(t1[it.index() as int] == *k);
                    }
                }
            }
        }
        proof {
            assert(keys.unref().take(keys.len() as int) =~= keys.unref());
        }
        let mut i: usize = 0;
        while i < cleared.len()
            invariant
                self.spells_checked == old(self).spells_checked,
                i <= cleared@.len(),
                forall|s: u16| #[trigger]
                    self.actions@.contains_key(s) <==> (before.contains_key(s) && !cleared@.take(
                        i as int,
                    ).contains(s)),
                forall|s: u16| #[trigger] self.actions@.contains_key(s) ==> self.actions@[s] == before[s],
            decreases cleared@.len() - i,
        {
            self.actions.remove(&cleared[i]);
            proof {
                let c0 = cleared@.take(i as int);
                let c1 = cleared@.take(i as int + 1);
                assert(c1 =~= c0.push(cleared@[i as int]));
                assert forall|s: u16| #[trigger] self.actions@.contains_key(s) <==> (before.contains_key(s)
                    && !c1.contains(s)) by {
                    if c1.contains(s) {
                        let j = choose|j: int| 0 <= j < c1.len() && c1[j] == s;
                        if j < c0.len() {
                            assert(c0[j] == s);
                        }
                    }
                    if c0.contains(s) {
                        let j = choose|j: int| 0 <= j < c0.len() && c0[j] == s;
                        assert(c1[j] == s);
                    }
                    if s == cleared@[i as int] {
                        assert(c1[i as int] == s);
                    }
                }
            }
            i = i + 1;
        }
        proof {
            assert(cleared@.take(cleared@.len() as int) =~= cleared@);
            assert forall|s: u16| #[trigger] self.actions@.contains_key(s) implies keep.ensures(
                (&before[s],),
                true,
            ) by {
                assert(keys.unref().to_set().contains(s));
                assert(keys.unref().contains(s));
                if cleared@.contains(s) {
                } else {
                    assert(kept@.contains(s));
                    let j = choose|j: int| 0 <= j < kept@.len() && kept@[j] == s;
                    assert(keep.ensures((&before[kept@[j]],), true));
                }
            }
        }
        cleared
    }

    pub fn mark_spells_checked(&mut self)
        ensures
            final(self).spells_checked,
            final(self).view_actions() == old(self).view_actions(),
    {
        self.spells_checked = true;
    }
}


/// A slot shows the action last set in it and the hotkey last bound to it;
/// setting an action or binding a hotkey leaves every other slot as it was.
pub proof fn lemma_slot_reads_back_what_was_set(
    actions: Map<u16, SlotAction>,
    binds: Map<u16, Hotkey>,
    index: u16,
    action: SlotAction,
    hotkey: Hotkey,
    other: u16,
)
    ensures
        slot_of(actions.insert(index, action), binds, index).action == Some(action),
        slot_of(actions, binds.insert(index, hotkey), index).hotkey == Some(hotkey),
        other != index ==> slot_of(actions.insert(index, action), binds, other) == slot_of(actions, binds, other),
        other != index ==> slot_of(actions, binds.insert(index, hotkey), other) == slot_of(actions, binds, other),
        slot_of(actions.remove(index), binds.remove(index), index) == (ActionSlot { action: None, hotkey: None }),
{
}
} // verus!
