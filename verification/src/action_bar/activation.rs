use std::sync::Arc;

use vstd::prelude::*;

use crate::action_bar::state::{Aim, SlotAction};
use crate::agent::AgentId;
use crate::items::{Item, ItemId, ItemPlacement};
use crate::map::position::Position;
use crate::map::storage::WorldMap;
use crate::spells::{SpellId, SpellTarget};

verus! {

/// What the player is told when an aim names the target and there is none.
pub const NO_TARGET: &'static str = "You have no target.";

/// A spell cast, as the player's input asks for it.
#[derive(Debug, Clone, Copy, PartialEq, Eq, Structural)]
pub struct CastSpellRequested {
    pub spell_id: SpellId,
    pub target: SpellTarget,
}

/// A use of an item, as the player's input asks for it.
#[derive(Debug, Clone, Copy, PartialEq, Eq, Structural)]
pub enum InteractionIntent {
    UseItem { target: ItemPlacement, item_id: ItemId, window_id: Option<u8> },
    UseItemWith {
        source: ItemPlacement,
        source_item_id: ItemId,
        target: ItemPlacement,
        target_item_id: ItemId,
        target_agent: Option<AgentId>,
    },
}

/// What a crosshair, once entered, will act for.
#[derive(Debug, Clone, Copy, PartialEq, Eq, Structural)]
pub enum TargetingSource {
    Spell(SpellId),
    Item { placement: ItemPlacement, item_id: ItemId },
    AssignObject { slot: u16 },
}

/// What firing a slot comes to.
#[derive(Debug, Clone, Copy, PartialEq, Eq)]
pub enum Activation {
    Cast(CastSpellRequested),
    Intent(InteractionIntent),
    Crosshair(TargetingSource),
    Deny(&'static str),
    Nothing,
}

/// The world a slot fires into: the player and the combat target, each with the
/// tile it stands on, and the map.
pub struct ActivationContext<'a> {
    pub player: Option<(AgentId, Position)>,
    pub target: Option<(AgentId, Position)>,
    pub map: &'a WorldMap,
}

/// The item a use-with names on `tile`: the top of its stack and its index, or
/// item id zero at index zero on an empty tile, which no item carries.
pub open spec fn top_item(map: &WorldMap, tile: Position) -> (ItemId, usize) {
    match map.tile(tile) {
        Some(t) => if t.items.len() > 0 {
            (t.items.last().config.id, (t.items.len() - 1) as usize)
        } else {
            (0, 0)
        },
        None => (0, 0),
    }
}

pub open spec fn use_with_spec(item_id: ItemId, agent: AgentId, tile: Position, map: &WorldMap) -> Activation {
    Activation::Intent(
        InteractionIntent::UseItemWith {
            source: ItemPlacement::Carried,
            source_item_id: item_id,
            target: ItemPlacement::OnMap { position: tile, index: top_item(map, tile).1 },
            target_item_id: top_item(map, tile).0,
            target_agent: Some(agent),
        },
    )
}

/// What a slot holding `action` does when fired. A spell casts untargeted, at
/// the player or at the target, or enters the crosshair; an item is used, used
/// with the top of the player's or the target's tile, or enters the crosshair
/// with the carried item as source. Aiming at a target with none is refused;
/// aiming at the player with no player does nothing.
pub open spec fn activation_spec(
    action: Option<SlotAction>,
    player: Option<(AgentId, Position)>,
    target: Option<(AgentId, Position)>,
    map: &WorldMap,
) -> Activation {
    match action {
        None => Activation::Nothing,
        Some(SlotAction::Spell { id, aim }) => match aim {
            None => Activation::Cast(CastSpellRequested { spell_id: id, target: SpellTarget::Untargeted }),
            Some(Aim::Yourself) => match player {
                Some((p, _)) => Activation::Cast(
                    CastSpellRequested { spell_id: id, target: SpellTarget::Agent(p) },
                ),
                None => Activation::Nothing,
            },
            Some(Aim::Target) => match target {
                Some((t, _)) => Activation::Cast(
                    CastSpellRequested { spell_id: id, target: SpellTarget::Agent(t) },
                ),
                None => Activation::Deny(NO_TARGET),
            },
            Some(Aim::Crosshair) => Activation::Crosshair(TargetingSource::Spell(id)),
        },
        Some(SlotAction::Item { item_id, aim }) => match aim {
            None => Activation::Intent(
                InteractionIntent::UseItem { target: ItemPlacement::Carried, item_id, window_id: None },
            ),
            Some(Aim::Yourself) => match player {
                Some((p, tile)) => use_with_spec(item_id, p, tile, map),
                None => Activation::Nothing,
            },
            Some(Aim::Target) => match target {
                Some((t, tile)) => use_with_spec(item_id, t, tile, map),
                None => Activation::Deny(NO_TARGET),
            },
            Some(Aim::Crosshair) => Activation::Crosshair(
                TargetingSource::Item { placement: ItemPlacement::Carried, item_id },
            ),
        },
    }
}

pub fn activation_for(action: Option<SlotAction>, ctx: &ActivationContext) -> (a: Activation)
    ensures
        a == activation_spec(action, ctx.player, ctx.target, ctx.map),
{
    match action {
        None => Activation::Nothing,
        Some(SlotAction::Spell { id, aim: None }) => Activation::Cast(
            CastSpellRequested { spell_id: id, target: SpellTarget::Untargeted },
        ),
        Some(SlotAction::Spell { id, aim: Some(Aim::Yourself) }) => match &ctx.player {
            Some((player, _)) => Activation::Cast(
                CastSpellRequested { spell_id: id, target: SpellTarget::Agent(*player) },
            ),
            None => Activation::Nothing,
        },
        Some(SlotAction::Spell { id, aim: Some(Aim::Target) }) => match &ctx.target {
            Some((target, _)) => Activation::Cast(
                CastSpellRequested { spell_id: id, target: SpellTarget::Agent(*target) },
            ),
            None => Activation::Deny(NO_TARGET),
        },
        Some(SlotAction::Spell { id, aim: Some(Aim::Crosshair) }) => Activation::Crosshair(
            TargetingSource::Spell(id),
        ),
        Some(SlotAction::Item { item_id, aim: None }) => Activation::Intent(
            InteractionIntent::UseItem { target: ItemPlacement::Carried, item_id, window_id: None },
        ),
        Some(SlotAction::Item { item_id, aim: Some(Aim::Yourself) }) => match &ctx.player {
            Some((player, tile)) => use_with(item_id, *player, tile, ctx.map),
            None => Activation::Nothing,
        },
        Some(SlotAction::Item { item_id, aim: Some(Aim::Target) }) => match &ctx.target {
            Some((target, tile)) => use_with(item_id, *target, tile, ctx.map),
            None => Activation::Deny(NO_TARGET),
        },
        Some(SlotAction::Item { item_id, aim: Some(Aim::Crosshair) }) => Activation::Crosshair(
            TargetingSource::Item { placement: ItemPlacement::Carried, item_id },
        ),
    }
}

fn use_with(item_id: ItemId, agent: AgentId, tile: &Position, map: &WorldMap) -> (a: Activation)
    ensures
        a == use_with_spec(item_id, agent, *tile, map),
{
    let (target_item_id, index) = match map.peek_item(tile) {
        Some((item, index)) => (item.config.id, index),
        None => (0, 0),
    };
    Activation::Intent(
        InteractionIntent::UseItemWith {
            source: ItemPlacement::Carried,
            source_item_id: item_id,
            target: ItemPlacement::OnMap { position: *tile, index },
            target_item_id,
            target_agent: Some(agent),
        },
    )
}

/// An item aimed at the player or the target is used with the topmost item of
/// the tile that one stands on: with `n > 0` items there, the target is stack
/// index `n - 1` and carries the id of the last item of the stack; on an empty
/// or unknown tile, index zero and item id zero. The carried item is the
/// source, and the aimed-at agent rides along.
pub proof fn lemma_use_with_names_the_top_of_the_stack(
    item_id: ItemId,
    aim_at_target: bool,
    player: Option<(AgentId, Position)>,
    target: Option<(AgentId, Position)>,
    map: &WorldMap,
)
    ensures
        ({
            let aim = if aim_at_target { Aim::Target } else { Aim::Yourself };
            let who = if aim_at_target { target } else { player };
            let a = activation_spec(Some(SlotAction::Item { item_id, aim: Some(aim) }), player, target, map);
            match who {
                Some((agent, tile)) => {
                    let items = map.spec_items_on(tile);
                    &&& items.len() > 0 ==> a == Activation::Intent(
                        InteractionIntent::UseItemWith {
                            source: ItemPlacement::Carried,
                            source_item_id: item_id,
                            target: ItemPlacement::OnMap { position: tile, index: (items.len() - 1) as usize },
                            target_item_id: items[items.len() - 1].config.id,
                            target_agent: Some(agent),
                        },
                    )
                    &&& items.len() == 0 ==> a == Activation::Intent(
                        InteractionIntent::UseItemWith {
                            source: ItemPlacement::Carried,
                            source_item_id: item_id,
                            target: ItemPlacement::OnMap { position: tile, index: 0 },
                            target_item_id: 0,
                            target_agent: Some(agent),
                        },
                    )
                },
                None => a == if aim_at_target {
                    Activation::Deny(NO_TARGET)
                } else {
                    Activation::Nothing
                },
            }
        }),
{
}

} // verus!
