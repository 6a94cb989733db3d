use vstd::prelude::*;

use crate::action_bar::state::{slot_of, ActionBar, ActionSlot, Aim, Hotkey, Keybinds, SlotAction};
use crate::conf::{SPELL_ICON_COLUMNS, SPELL_ICON_ROWS};
use crate::items::{spec_has_flag, ItemConfig, ItemFlag, ItemId};
use crate::text::{decimal, push_decimal, text_eq};
use crate::ui::{ContextMenuEntry, DialogButtonId};
use crate::spells::{first_with_id, lemma_first_with_id_has_id, CooldownOverlay, SpellBook, SpellId};

verus! {

/// What a captured key combination would do to the slot being edited.
#[derive(Debug, PartialEq, Eq, Clone, Copy, Structural)]
pub enum HotkeyVerdict {
    Free,
    Reserved,
    /// The combination is bound to this other slot, which would lose it.
    Overwrites(u16),
}

impl HotkeyVerdict {
    pub fn warning(&self) -> (w: &'static str)
        ensures
            *self == HotkeyVerdict::Free ==> w@ == ""@,
            *self == HotkeyVerdict::Reserved ==> w@ == "This hotkey is reserved and cannot be assigned."@,
            *self is Overwrites ==> w@ == "This hotkey is already in use and will be overwritten."@,
    {
        match self {
            HotkeyVerdict::Free => "",
            HotkeyVerdict::Reserved => "This hotkey is reserved and cannot be assigned.",
            HotkeyVerdict::Overwrites(_) => "This hotkey is already in use and will be overwritten.",
        }
    }
}

/// The verdict on binding `captured` to `slot`: nothing captured is free, a
/// reserved combination is refused, and one bound to another slot overwrites it.
pub fn verdict(captured: Option<Hotkey>, slot: u16, keybinds: &Keybinds) -> (v: HotkeyVerdict)
    requires
        keybinds.wf(),
    ensures
        captured is None ==> v == HotkeyVerdict::Free,
        captured matches Some(h) ==> {
            if keybinds.reserved@.contains(h) {
                v == HotkeyVerdict::Reserved
            } else if exists|other: u16|
                #[trigger] keybinds.binds().contains_key(other) && keybinds.binds()[other] == h
                    && other != slot {
                v matches HotkeyVerdict::Overwrites(other) && other != slot
                    && keybinds.binds().contains_key(other) && keybinds.binds()[other] == h
            } else {
                v == HotkeyVerdict::Free
            }
        },
{
    let hotkey = match captured {
        None => {
            return HotkeyVerdict::Free;
        },
        Some(h) => h,
    };
    if keybinds.reserves(&hotkey) {
        return HotkeyVerdict::Reserved;
    }
    match keybinds.slot_with_hotkey(&hotkey) {
        Some(other) => {
            if other != slot {
                HotkeyVerdict::Overwrites(other)
            } else {
                proof {
                    assert forall|o: u16|
                        #[trigger] keybinds.binds().contains_key(o) && keybinds.binds()[o] == hotkey
                            implies o == slot by {
                    }
                }
                HotkeyVerdict::Free
            }
        },
        None => HotkeyVerdict::Free,
    }
}

/// A slot's context menu: assigning a spell, an item or a hotkey always, and
/// clearing only when there is something to clear.
pub fn slot_menu_entries(slot: &ActionSlot) -> (entries: [ContextMenuEntry; 4])
    ensures
        entries@[0].label@ == "Assign Spell"@ && entries@[0].enabled,
        entries@[1].label@ == "Assign Item"@ && entries@[1].enabled,
        entries@[2].label@ == "Assign Hotkey"@ && entries@[2].enabled,
        entries@[3].label@ == "Clear"@ && entries@[3].enabled == !(slot.action is None
            && slot.hotkey is None),
{
    [
        ContextMenuEntry::new("Assign Spell", true),
        ContextMenuEntry::new("Assign Item", true),
        ContextMenuEntry::new("Assign Hotkey", true),
        ContextMenuEntry::new("Clear", !slot.is_empty()),
    ]
}

/// The lines of a slot's menu, by their index in `slot_menu_entries`.
pub const ASSIGN_SPELL: usize = 0;
pub const ASSIGN_ITEM: usize = 1;
pub const ASSIGN_HOTKEY: usize = 2;
pub const CLEAR: usize = 3;

/// What picking a line of a slot's menu does.
#[derive(Debug, Clone, Copy, PartialEq, Eq, Structural)]
pub enum SlotMenuPick {
    OpenSpellDialog,
    PickObject,
    OpenHotkeyDialog,
    Cleared,
    Nothing,
}

/// Carries out the pick of line `index` in `slot`'s menu: the dialogs and the
/// object crosshair are for the caller to open; clearing empties the slot of its
/// action and its hotkey here.
pub fn on_slot_menu_picked(bar: &mut ActionBar, keybinds: &mut Keybinds, slot: u16, index: usize) -> (pick:
    SlotMenuPick)
    requires
        old(keybinds).wf(),
    ensures
        final(keybinds).wf(),
        index == ASSIGN_SPELL ==> pick == SlotMenuPick::OpenSpellDialog,
        index == ASSIGN_ITEM ==> pick == SlotMenuPick::PickObject,
        index == ASSIGN_HOTKEY ==> pick == SlotMenuPick::OpenHotkeyDialog,
        index == CLEAR ==> pick == SlotMenuPick::Cleared,
        index > CLEAR ==> pick == SlotMenuPick::Nothing,
        index == CLEAR ==> final(bar).view_actions() == old(bar).view_actions().remove(slot)
            && final(keybinds).binds() == old(keybinds).binds().remove(slot),
        index != CLEAR ==> final(bar).view_actions() == old(bar).view_actions() && final(keybinds).binds()
            == old(keybinds).binds(),
        final(bar).spells_checked == old(bar).spells_checked,
        final(keybinds).reserved@ == old(keybinds).reserved@,
{
    match index {
        0 => SlotMenuPick::OpenSpellDialog,
        1 => SlotMenuPick::PickObject,
        2 => SlotMenuPick::OpenHotkeyDialog,
        3 => {
            bar.clear_action(slot);
            keybinds.unbind_slot(slot);
            SlotMenuPick::Cleared
        },
        _ => SlotMenuPick::Nothing,
    }
}

/// An assignment waiting for its aim to be chosen.
#[derive(Debug, Clone, Copy, PartialEq, Eq, Structural)]
pub enum PendingAssignment {
    Spell(SpellId),
    Item(ItemId),
}

impl PendingAssignment {
    pub open spec fn action_spec(self, aim: Option<Aim>) -> SlotAction {
        match self {
            PendingAssignment::Spell(id) => SlotAction::Spell { id, aim },
            PendingAssignment::Item(item_id) => SlotAction::Item { item_id, aim },
        }
    }

    pub fn into_action(self, aim: Option<Aim>) -> (a: SlotAction)
        ensures
            a == self.action_spec(aim),
    {
        match self {
            PendingAssignment::Spell(id) => SlotAction::Spell { id, aim },
            PendingAssignment::Item(item_id) => SlotAction::Item { item_id, aim },
        }
    }
}

/// What choosing a spell in the assign dialog leads to.
#[derive(Debug, Clone, Copy, PartialEq, Eq, Structural)]
pub enum SpellChoice {
    Assign(SlotAction),
    ChooseAim(PendingAssignment),
    Nothing,
}

/// A spell the book has is assigned outright, or, when it can be aimed, goes on
/// to the aim dialog; no selection, or one the book lacks, does nothing.
pub open spec fn choice_spec(selected: Option<SpellId>, book: SpellBook) -> SpellChoice {
    match (selected, book.0) {
        (Some(id), Some(v)) => match first_with_id(v@, id) {
            Some(i) => if v@[i].aimable {
                SpellChoice::ChooseAim(PendingAssignment::Spell(id))
            } else {
                SpellChoice::Assign(SlotAction::Spell { id, aim: None })
            },
            None => SpellChoice::Nothing,
        },
        _ => SpellChoice::Nothing,
    }
}

pub fn choice_for(selected: Option<SpellId>, book: &SpellBook) -> (c: SpellChoice)
    ensures
        c == choice_spec(selected, *book),
{
    let id = match selected {
        None => {
            return SpellChoice::Nothing;
        },
        Some(id) => id,
    };
    match book.get(id) {
        None => SpellChoice::Nothing,
        Some(spell) => {
            proof {
                lemma_first_with_id_has_id(book.0.unwrap()@, id);
            }
            if spell.aimable {
                SpellChoice::ChooseAim(PendingAssignment::Spell(spell.id))
            } else {
                SpellChoice::Assign(SlotAction::Spell { id: spell.id, aim: None })
            }
        },
    }
}

/// What the player is told when an object cannot go on the bar.
pub const NOT_USABLE: &'static str = "This object cannot be used.";

/// What picking an object for a slot comes to.
#[derive(Debug, Clone, Copy, PartialEq, Eq)]
pub enum ObjectPick {
    /// The aim dialog opens for this pending assignment.
    ChooseAim(PendingAssignment),
    /// The slot now holds a plain use of the object.
    Assigned,
    /// The player is told this, and nothing is assigned.
    Denied(&'static str),
}

/// Carries out picking an object of `config` for `slot`: a multi-use object waits
/// for its aim, a usable one is assigned as a plain use, anything else is refused.
pub fn on_object_picked(bar: &mut ActionBar, slot: u16, config: &ItemConfig) -> (pick: ObjectPick)
    ensures
        assignment_for_spec(*config) == ObjectAssignment::ChooseAim ==> pick == ObjectPick::ChooseAim(
            PendingAssignment::Item(config.id),
        ),
        assignment_for_spec(*config) == ObjectAssignment::PlainUse ==> pick == ObjectPick::Assigned
            && final(bar).view_actions() == old(bar).view_actions().insert(
            slot,
            SlotAction::Item { item_id: config.id, aim: None },
        ),
        assignment_for_spec(*config) == ObjectAssignment::NotUsable ==> pick == ObjectPick::Denied(
            NOT_USABLE,
        ),
        assignment_for_spec(*config) != ObjectAssignment::PlainUse ==> final(bar).view_actions()
            == old(bar).view_actions(),
        final(bar).spells_checked == old(bar).spells_checked,
{
    match assignment_for(config) {
        ObjectAssignment::ChooseAim => ObjectPick::ChooseAim(PendingAssignment::Item(config.id)),
        ObjectAssignment::PlainUse => {
            bar.set_action(slot, SlotAction::Item { item_id: config.id, aim: None });
            ObjectPick::Assigned
        },
        ObjectAssignment::NotUsable => ObjectPick::Denied(NOT_USABLE),
    }
}

/// The id the hotkey dialog's Clear button reports.
pub const HOTKEY_CLEAR: &'static str = "clear";

/// Whether `button` is the hotkey dialog's Clear button.
pub open spec fn is_clear_button(button: DialogButtonId) -> bool {
    button matches DialogButtonId::Custom(id) && id@ == HOTKEY_CLEAR@
}

/// Carries out a button of the hotkey dialog for `slot`, which had captured
/// `captured`: Ok binds the capture here (or unbinds the slot when nothing was
/// captured) unless it is reserved, Clear unbinds the slot, any other button
/// changes nothing. Returns whether the dialog closes: always, but for Ok on a
/// reserved combination.
pub fn on_hotkey_dialog_button(
    keybinds: &mut Keybinds,
    slot: u16,
    captured: Option<Hotkey>,
    button: DialogButtonId,
) -> (closes: bool)
    requires
        old(keybinds).wf(),
    ensures
        final(keybinds).wf(),
        final(keybinds).reserved@ == old(keybinds).reserved@,
        closes == !(button == DialogButtonId::Okay && (captured matches Some(h)
            && old(keybinds).reserved@.contains(h))),
        button == DialogButtonId::Okay && closes ==> match captured {
            Some(h) => final(keybinds).binds() == old(keybinds).binds().remove_keys(
                old(keybinds).binds().dom().filter(|s: u16| old(keybinds).binds()[s] == h),
            ).insert(slot, h),
            None => final(keybinds).binds() == old(keybinds).binds().remove(slot),
        },
        is_clear_button(button) ==> final(keybinds).binds() == old(keybinds).binds().remove(slot),
        !(button == DialogButtonId::Okay && closes) && !is_clear_button(button) ==> final(keybinds).binds() == old(keybinds).binds(),
{
    match button {
        DialogButtonId::Okay => {
            if verdict(captured, slot, keybinds) == HotkeyVerdict::Reserved {
                return false;
            }
            match captured {
                Some(h) => keybinds.bind_slot(slot, h),
                None => keybinds.unbind_slot(slot),
            }
            true
        },
        DialogButtonId::Custom(id) => {
            if text_eq(id, HOTKEY_CLEAR) {
                keybinds.unbind_slot(slot);
            }
            true
        },
        DialogButtonId::Cancel => true,
    }
}

/// What a button of the assign-spell dialog comes to.
#[derive(Debug, Clone, Copy, PartialEq, Eq, Structural)]
pub enum SpellDialogOutcome {
    /// Ok with nothing to assign: the dialog stays.
    KeepOpen,
    /// The dialog closes; any assignment has been made.
    Closed,
    /// The dialog closes and the aim dialog opens for this assignment.
    ChooseAim(PendingAssignment),
}

/// Carries out a button of the assign-spell dialog for `slot` with `selected`
/// chosen: Ok assigns the spell or hands it to the aim dialog, and does nothing
/// while nothing assignable is chosen; any other button just closes.
pub fn on_assign_spell_button(
    bar: &mut ActionBar,
    book: &SpellBook,
    slot: u16,
    selected: Option<SpellId>,
    button: DialogButtonId,
) -> (outcome: SpellDialogOutcome)
    ensures
        final(bar).spells_checked == old(bar).spells_checked,
        button != DialogButtonId::Okay ==> outcome == SpellDialogOutcome::Closed && final(bar).view_actions()
            == old(bar).view_actions(),
        button == DialogButtonId::Okay ==> match choice_spec(selected, *book) {
            SpellChoice::Nothing => outcome == SpellDialogOutcome::KeepOpen && final(bar).view_actions()
                == old(bar).view_actions(),
            SpellChoice::Assign(action) => outcome == SpellDialogOutcome::Closed && final(bar).view_actions()
                == old(bar).view_actions().insert(slot, action),
            SpellChoice::ChooseAim(pending) => outcome == SpellDialogOutcome::ChooseAim(pending)
                && final(bar).view_actions() == old(bar).view_actions(),
        },
{
    match button {
        DialogButtonId::Okay => match choice_for(selected, book) {
            SpellChoice::Nothing => SpellDialogOutcome::KeepOpen,
            SpellChoice::Assign(action) => {
                bar.set_action(slot, action);
                SpellDialogOutcome::Closed
            },
            SpellChoice::ChooseAim(pending) => SpellDialogOutcome::ChooseAim(pending),
        },
        _ => SpellDialogOutcome::Closed,
    }
}

/// Carries out a button of the aim dialog for `slot`: Ok assigns the pending
/// action with the chosen aim; the dialog closes on any button.
pub fn on_target_dialog_button(bar: &mut ActionBar, slot: u16, pending: PendingAssignment, aim: Aim, button: DialogButtonId)
    ensures
        final(bar).spells_checked == old(bar).spells_checked,
        button == DialogButtonId::Okay ==> final(bar).view_actions() == old(bar).view_actions().insert(
            slot,
            pending.action_spec(Some(aim)),
        ),
        button != DialogButtonId::Okay ==> final(bar).view_actions() == old(bar).view_actions(),
{
    match button {
        DialogButtonId::Okay => bar.set_action(slot, pending.into_action(Some(aim))),
        _ => {},
    }
}

/// How an object dropped on a slot is assigned.
#[derive(Debug, Clone, Copy, PartialEq, Eq, Structural)]
pub enum ObjectAssignment {
    ChooseAim,
    PlainUse,
    NotUsable,
}

/// A multi-use object asks for an aim, a usable one is used plainly, anything
/// else cannot go on the bar. Multi-use wins over usable, as it does on a click.
pub open spec fn assignment_for_spec(config: ItemConfig) -> ObjectAssignment {
    if spec_has_flag(config, ItemFlag::MultiUse) {
        ObjectAssignment::ChooseAim
    } else if spec_has_flag(config, ItemFlag::Usable) {
        ObjectAssignment::PlainUse
    } else {
        ObjectAssignment::NotUsable
    }
}

pub fn assignment_for(config: &ItemConfig) -> (a: ObjectAssignment)
    ensures
        a == assignment_for_spec(*config),
{
    if config.has_flag(ItemFlag::MultiUse) {
        ObjectAssignment::ChooseAim
    } else if config.has_flag(ItemFlag::Usable) {
        ObjectAssignment::PlainUse
    } else {
        ObjectAssignment::NotUsable
    }
}

/// The atlas index of a 1-based icon cell, if the sheet has that cell.
pub fn spell_icon_index(icon: u16) -> (i: Option<usize>)
    ensures
        1 <= icon <= SPELL_ICON_COLUMNS * SPELL_ICON_ROWS ==> i == Some((icon - 1) as usize),
        !(1 <= icon <= SPELL_ICON_COLUMNS * SPELL_ICON_ROWS) ==> i is None,
{
    if icon == 0 {
        return None;
    }
    let index = (icon - 1) as usize;
    if index < 132 {
        Some(index)
    } else {
        None
    }
}

/// The cooldown a slot's icon is shaded by: a spell the book knows, with its
/// group; nothing for an item or an unknown spell.
pub fn cooldown_overlay_for(action: SlotAction, book: &SpellBook) -> (o: Option<CooldownOverlay>)
    ensures
        o == match action {
            SlotAction::Spell { id, .. } => match book.0 {
                Some(v) => match first_with_id(v@, id) {
                    Some(i) => Some(CooldownOverlay::Spell { id, group: v@[i].group }),
                    None => None,
                },
                None => None,
            },
            SlotAction::Item { .. } => None,
        },
{
    match action {
        SlotAction::Spell { id, .. } => match book.get(id) {
            Some(spell) => Some(CooldownOverlay::Spell { id, group: spell.group }),
            None => None,
        },
        SlotAction::Item { .. } => None,
    }
}


/// A spell's row in the assign-spell dialog: its words, then its level.
pub fn spell_row_label(words: &str, level: u16) -> (s: String)
    ensures
        s@ == words@ + seq![' ', '\u{00B7}', ' ', 'l', 'e', 'v', 'e', 'l', ' '] + decimal(level as nat),
{
    let mut s = String::new();
    s.append(words);
    s.append(" \u{00B7} level ");
    push_decimal(&mut s, level as u64);
    proof {
        reveal_strlit(" \u{00B7} level ");
        assert(s@ =~= words@ + seq![' ', '\u{00B7}', ' ', 'l', 'e', 'v', 'e', 'l', ' '] + decimal(level as nat));
    }
    s
}
} // verus!
