use std::collections::BTreeMap;

use vstd::prelude::*;
use vstd::std_specs::iter::IteratorSpec;

use crate::action_bar::state::{ActionBar, ActionSlot, Hotkey, SlotAction};
use crate::items::ItemId;
use crate::spells::{SpellBook, SpellInfo};
use crate::text::{decimal, push_decimal};

verus! {

broadcast use vstd::laws_cmp::group_laws_cmp;

/// `serde_json::Error`, the error a failed parse of a saved bar reports; it is
/// carried through untouched, so nothing inside it is read.
#[verifier::external_type_specification]
#[verifier::external_body]
pub struct ExJsonError(serde_json::Error);

/// The version of the saved-bar file this client reads and writes.
pub const FILE_VERSION: u32 = 1;

/// A saved bar: its version and every slot with an action or a hotkey.
#[derive(Debug)]
pub struct ActionBarFile {
    pub version: u32,
    pub slots: BTreeMap<u16, ActionSlot>,
}

/// Why a saved bar was not loaded.
#[derive(Debug)]
pub enum LoadError {
    /// The file is not a bar file at all.
    Parse(serde_json::Error),
    /// The file is a bar file of another version.
    Version(u32),
}

/// A file as JSON parsing left it, accepted only at this client's version.
pub fn parse(parsed: Result<ActionBarFile, serde_json::Error>) -> (r: Result<BTreeMap<u16, ActionSlot>, LoadError>)
    ensures
        match parsed {
            Err(_) => r matches Err(LoadError::Parse(_)),
            Ok(file) => if file.version == FILE_VERSION {
                r matches Ok(slots) && slots@ == file.slots@
            } else {
                r matches Err(LoadError::Version(v)) && v == file.version
            },
        },
{
    match parsed {
        Err(error) => Err(LoadError::Parse(error)),
        Ok(file) => {
            if file.version != FILE_VERSION {
                Err(LoadError::Version(file.version))
            } else {
                Ok(file.slots)
            }
        },
    }
}

/// The file a bar's slots are saved as, at this client's version.
pub fn file_for(slots: BTreeMap<u16, ActionSlot>) -> (f: ActionBarFile)
    ensures
        f.version == FILE_VERSION,
        f.slots@ == slots@,
{
    ActionBarFile { version: FILE_VERSION, slots }
}

/// A character's bar file name: its id in decimal, then `.json`.
pub fn file_name(character_id: u32) -> (name: String)
    ensures
        name@ == decimal(character_id as nat) + seq!['.', 'j', 's', 'o', 'n'],
{
    let mut name = String::new();
    push_decimal(&mut name, character_id as u64);
    name.append(".json");
    proof {
        reveal_strlit(".json");
        assert(name@ =~= decimal(character_id as nat) + seq!['.', 'j', 's', 'o', 'n']);
    }
    name
}

/// A saved bar's actions, slot by slot.
pub fn actions_of(slots: &BTreeMap<u16, ActionSlot>) -> (actions: BTreeMap<u16, SlotAction>)
    ensures
        forall|i: u16| #[trigger]
            actions@.contains_key(i) <==> (slots@.contains_key(i) && slots@[i].action is Some),
        forall|i: u16| #[trigger] actions@.contains_key(i) ==> Some(actions@[i]) == slots@[i].action,
{
    let mut actions: BTreeMap<u16, SlotAction> = BTreeMap::new();
    let ghost keys = vstd::std_specs::btree::spec_keys_iter(slots).remaining();
    for k in it: slots.keys()
        invariant
            it.seq() == keys,
            keys.unref().to_set() == slots@.dom(),
            forall|i: u16| #[trigger]
                actions@.contains_key(i) ==> slots@.contains_key(i) && Some(actions@[i])
                    == slots@[i].action,
            forall|i: u16|
                slots@.contains_key(i) && slots@[i].action is Some && keys.unref().take(
                    it.index() as int,
                ).contains(i) ==> #[trigger] actions@.contains_key(i),
    {
        proof {
            assert(keys.unref().take(it.index() as int + 1) =~= keys.unref().take(
                it.index() as int,
            ).push(*k));
            assert(keys.unref().to_set().contains(*k));
        }
        let slot = *slots.get(k).unwrap();
        match slot.action {
            Some(a) => {
                actions.insert(*k, a);
            },
            None => {},
        }
        proof {
            let t0 = keys.unref().take(it.index() as int);
            let t1 = keys.unref().take(it.index() as int + 1);
            assert forall|i: u16|
                slots@.contains_key(i) && slots@[i].action is Some && t1.contains(
                    i,
                ) implies #[trigger] actions@.contains_key(i) by {
                let j = choose|j: int| 0 <= j < t1.len() && t1[j] == i;
                if j < t0.len() {
                    assert(t0[j] == i);
                }
            }
        }
    }
    proof {
        assert(keys.unref().take(keys.len() as int) =~= keys.unref());
        assert forall|i: u16| slots@.contains_key(i) && slots@[i].action is Some implies #[trigger] actions@.contains_key(
            i,
        ) by {
            assert(keys.unref().to_set().contains(i));
        }
    }
    actions
}

/// Whether `action` names something the client knows: an item of the
/// catalogue; a spell always passes here.
pub open spec fn item_known(known_items: Seq<ItemId>, action: SlotAction) -> bool {
    match action {
        SlotAction::Item { item_id, .. } => known_items.contains(item_id),
        SlotAction::Spell { .. } => true,
    }
}

#[verifier::loop_isolation(false)]
fn is_item_known(known_items: &Vec<ItemId>, action: &SlotAction) -> (b: bool)
    ensures
        b == item_known(known_items@, *action),
{
    match action {
        SlotAction::Item { item_id, .. } => {
            let mut i: usize = 0;
            while i < known_items.len()
                invariant
                    i <= known_items@.len(),
                    forall|j: int| 0 <= j < i ==> known_items@[j] != *item_id,
                decreases known_items@.len() - i,
            {
                if known_items[i] == *item_id {
                    return true;
                }
                i = i + 1;
            }
            false
        },
        SlotAction::Spell { .. } => true,
    }
}

/// Whether `action` names a spell of the book's list; an item always passes.
pub open spec fn spell_known(spells: Seq<SpellInfo>, action: SlotAction) -> bool {
    match action {
        SlotAction::Spell { id, .. } => exists|i: int| 0 <= i < spells.len() && (#[trigger] spells[i]).id == id,
        SlotAction::Item { .. } => true,
    }
}

#[verifier::loop_isolation(false)]
fn is_spell_known(spells: &[SpellInfo], action: &SlotAction) -> (b: bool)
    ensures
        b == spell_known(spells@, *action),
{
    match action {
        SlotAction::Spell { id, .. } => {
            let mut i: usize = 0;
            while i < spells.len()
                invariant
                    i <= spells@.len(),
                    forall|j: int| 0 <= j < i ==> (#[trigger] spells@[j]).id != *id,
                decreases spells@.len() - i,
            {
                if spells[i].id == *id {
                    return true;
                }
                i = i + 1;
            }
            false
        },
        SlotAction::Item { .. } => true,
    }
}

/// Clears every slot whose item the catalogue lacks; returns those slots.
pub fn prune_unknown_items(bar: &mut ActionBar, known_items: &Vec<ItemId>) -> (cleared: Vec<u16>)
    ensures
        final(bar).spells_checked == old(bar).spells_checked,
        cleared@.no_duplicates(),
        forall|i: int, j: int| 0 <= i < j < cleared@.len() ==> cleared@[i] < cleared@[j],
        forall|s: u16| #[trigger]
            final(bar).view_actions().contains_key(s) <==> (old(bar).view_actions().contains_key(s)
                && item_known(known_items@, old(bar).view_actions()[s])),
        forall|s: u16| #[trigger]
            final(bar).view_actions().contains_key(s) ==> final(bar).view_actions()[s] == old(bar).view_actions()[s],
        forall|i: int|
            0 <= i < cleared@.len() ==> old(bar).view_actions().contains_key(#[trigger] cleared@[i])
                && !item_known(known_items@, old(bar).view_actions()[cleared@[i]]),
        forall|s: u16|
            old(bar).view_actions().contains_key(s) && !item_known(
                known_items@,
                old(bar).view_actions()[s],
            ) ==> #[trigger] cleared@.contains(s),
{
    let keep = |a: &SlotAction| -> (b: bool)
        ensures
            b == item_known(known_items@, *a),
        { is_item_known(known_items, a) };
    let cleared = bar.retain_actions(keep);
    proof {
        assert forall|s: u16|
            old(bar).view_actions().contains_key(s) && !item_known(
                known_items@,
                old(bar).view_actions()[s],
            ) implies #[trigger] cleared@.contains(s) by {
            if bar.view_actions().contains_key(s) {
                assert(keep.ensures((&old(bar).view_actions()[s],), true));
            }
        }
    }
    cleared
}

/// Once the spell list has arrived, clears, the first time only, every slot whose
/// spell the list lacks. Returns the cleared slots, or `None` when this pruning
/// has already run or the list has not arrived.
pub fn prune_unknown_spells(bar: &mut ActionBar, book: &SpellBook) -> (cleared: Option<Vec<u16>>)
    ensures
        (old(bar).spells_checked || book.0 is None) ==> cleared is None && final(bar).view_actions()
            == old(bar).view_actions() && final(bar).spells_checked == old(bar).spells_checked,
        !(old(bar).spells_checked || book.0 is None) ==> final(bar).spells_checked && (cleared matches Some(
            c,
        ) && c@.no_duplicates() && (forall|i: int, j: int| 0 <= i < j < c@.len() ==> c@[i] < c@[j]) && forall|i: int|
            0 <= i < c@.len() ==> old(bar).view_actions().contains_key(#[trigger] c@[i])
                && !spell_known(book.0.unwrap()@, old(bar).view_actions()[c@[i]])) && forall|s: u16|
            #[trigger] final(bar).view_actions().contains_key(s) <==> (old(bar).view_actions().contains_key(s) && spell_known(
                book.0.unwrap()@,
                old(bar).view_actions()[s],
            )),
        forall|s: u16| #[trigger]
            final(bar).view_actions().contains_key(s) ==> final(bar).view_actions()[s] == old(bar).view_actions()[s],
{
    if bar.spells_checked {
        return None;
    }
    let spells = match book.spells() {
        None => {
            return None;
        },
        Some(s) => s,
    };
    bar.mark_spells_checked();
    let keep = |a: &SlotAction| -> (b: bool)
        ensures
            b == spell_known(spells@, *a),
        { is_spell_known(spells, a) };
    let cleared = bar.retain_actions(keep);
    Some(cleared)
}

} // verus!
