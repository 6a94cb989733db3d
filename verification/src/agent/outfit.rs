use vstd::prelude::*;

use crate::appearance::animation::{sprite_at, sprite_id_for, sprite_index, MAX_LAYERS};
use crate::appearance::sprite::SpriteConfig;

verus! {

/// Whether an outfit draws addon row `addon`: the base row always, an addon
/// row when the creature's addon bits name it.
pub open spec fn addon_shown(addons: u32, addon: u32) -> bool {
    addon == 0 || (addons & addon) != 0
}

/// The sprite ids of one addon row, layer by layer.
pub open spec fn row_ids(cfg: SpriteConfig, phase: u32, direction: u32, mounted: u32, addon: u32) -> Seq<u32> {
    Seq::new(
        cfg.layers as nat,
        |l: int|
            sprite_at(
                cfg,
                sprite_index(cfg, phase as int, direction as int, addon as int, mounted as int, l),
            ),
    )
}

/// The sprite ids of the shown rows among the first `rows`, in order.
pub open spec fn outfit_ids(
    cfg: SpriteConfig,
    phase: u32,
    direction: u32,
    addons: u32,
    mounted: u32,
    rows: nat,
) -> Seq<u32>
    decreases rows,
{
    if rows == 0 {
        Seq::empty()
    } else {
        let before = outfit_ids(cfg, phase, direction, addons, mounted, (rows - 1) as nat);
        if addon_shown(addons, (rows - 1) as u32) {
            before + row_ids(cfg, phase, direction, mounted, (rows - 1) as u32)
        } else {
            before
        }
    }
}

/// Layer `l` of addon row `addon` is the id at flat index
/// `(((phase * pattern_z + mounted) * pattern_y + addon) * pattern_x + direction) * layers + l`:
/// phase first, then the mount, then the addon row, then the direction, then the
/// layer; zero past the end of the list.
pub proof fn lemma_row_reads_its_flat_index(
    cfg: SpriteConfig,
    phase: u32,
    direction: u32,
    mounted: u32,
    addon: u32,
    l: int,
)
    requires
        0 <= l < cfg.layers,
    ensures
        ({
            let idx = (((phase * cfg.pattern_z + mounted) * cfg.pattern_y + addon) * cfg.pattern_x + direction)
                * cfg.layers + l;
            &&& row_ids(cfg, phase, direction, mounted, addon).len() == cfg.layers
            &&& idx < cfg.sprite_ids@.len() ==> row_ids(cfg, phase, direction, mounted, addon)[l]
                == cfg.sprite_ids@[idx]
            &&& idx >= cfg.sprite_ids@.len() ==> row_ids(cfg, phase, direction, mounted, addon)[l] == 0
        }),
{
    crate::appearance::animation::lemma_sprite_ids_are_phase_major(
        cfg,
        phase as int,
        direction as int,
        addon as int,
        mounted as int,
        l,
    );
}

/// An outfit always draws its base row first: the first `layers` ids are the
/// base row's, whatever addons are worn.
pub proof fn lemma_outfit_starts_with_its_base_row(
    cfg: SpriteConfig,
    phase: u32,
    direction: u32,
    addons: u32,
    mounted: u32,
    rows: nat,
)
    requires
        rows >= 1,
    ensures
        outfit_ids(cfg, phase, direction, addons, mounted, rows).len() >= cfg.layers,
        outfit_ids(cfg, phase, direction, addons, mounted, rows).subrange(0, cfg.layers as int) == row_ids(
            cfg,
            phase,
            direction,
            mounted,
            0,
        ),
    decreases rows,
{
    if rows == 1 {
        assert(outfit_ids(cfg, phase, direction, addons, mounted, 0) == Seq::<u32>::empty());
        assert(outfit_ids(cfg, phase, direction, addons, mounted, 1) =~= row_ids(cfg, phase, direction, mounted, 0));
    } else {
        lemma_outfit_starts_with_its_base_row(cfg, phase, direction, addons, mounted, (rows - 1) as nat);
        let before = outfit_ids(cfg, phase, direction, addons, mounted, (rows - 1) as nat);
        if addon_shown(addons, (rows - 1) as u32) {
            let all = before + row_ids(cfg, phase, direction, mounted, (rows - 1) as u32);
            assert(all.subrange(0, cfg.layers as int) =~= before.subrange(0, cfg.layers as int));
        }
    }
}

/// Addon row `a` (past the base) is drawn after the rows before it exactly when
/// the creature's addon bits name it.
pub proof fn lemma_outfit_adds_a_worn_row(
    cfg: SpriteConfig,
    phase: u32,
    direction: u32,
    addons: u32,
    mounted: u32,
    a: u32,
)
    requires
        a >= 1,
    ensures
        (addons & a) != 0 ==> outfit_ids(cfg, phase, direction, addons, mounted, a as nat + 1) == outfit_ids(
            cfg,
            phase,
            direction,
            addons,
            mounted,
            a as nat,
        ) + row_ids(cfg, phase, direction, mounted, a),
        (addons & a) == 0 ==> outfit_ids(cfg, phase, direction, addons, mounted, a as nat + 1) == outfit_ids(
            cfg,
            phase,
            direction,
            addons,
            mounted,
            a as nat,
        ),
{
}

/// An outfit's sprite ids for a phase, facing direction, addon set and mount
/// state: the layers of every shown addon row, base row first, up to
/// `MAX_LAYERS` of them; the rest are zero. Also returns how many were filled.
pub fn resolve_agent_sprite_ids(config: &SpriteConfig, phase: u32, direction: u32, addons: u32, mounted: u32) -> (r:
    ([u32; 6], u32))
    ensures
        ({
            let all = outfit_ids(*config, phase, direction, addons, mounted, config.pattern_y as nat);
            let n = if all.len() < MAX_LAYERS {
                all.len() as int
            } else {
                MAX_LAYERS as int
            };
            &&& r.1 == n
            &&& forall|i: int| 0 <= i < 6 ==> #[trigger] r.0@[i] == if i < n {
                all[i]
            } else {
                0
            }
        }),
{
    let mut sprite_ids: [u32; 6] = [0, 0, 0, 0, 0, 0];
    let mut slot: usize = 0;
    let mut addon: u32 = 0;
    while addon < config.pattern_y
        invariant
            addon <= config.pattern_y,
            slot <= 6,
            ({
                let all = outfit_ids(*config, phase, direction, addons, mounted, addon as nat);
                &&& slot == if all.len() < 6 {
                    all.len() as int
                } else {
                    6
                }
                &&& forall|i: int| 0 <= i < 6 ==> #[trigger] sprite_ids@[i] == if i < slot {
                    all[i]
                } else {
                    0
                }
            }),
        decreases config.pattern_y - addon,
    {
        let ghost before = outfit_ids(*config, phase, direction, addons, mounted, addon as nat);
        if addon > 0 && (addons & addon) == 0 {
            addon = addon + 1;
            continue;
        }
        let ghost row = row_ids(*config, phase, direction, mounted, addon);
        let mut layer: u32 = 0;
        while layer < config.layers && slot < 6
            invariant
                layer <= config.layers,
                slot <= 6,
                row == row_ids(*config, phase, direction, mounted, addon),
                ({
                    let all = before + row.take(layer as int);
                    &&& slot == if all.len() < 6 {
                        all.len() as int
                    } else {
                        6
                    }
                    &&& forall|i: int| 0 <= i < 6 ==> #[trigger] sprite_ids@[i] == if i < slot {
                        all[i]
                    } else {
                        0
                    }
                }),
            decreases config.layers - layer,
        {
            let id = sprite_id_for(config, phase, direction, addon, mounted, layer);
            sprite_ids[slot] = id;
            slot = slot + 1;
            proof {
                assert((before + row.take(layer as int + 1)) =~= (before + row.take(layer as int)).push(
                    row[layer as int],
                ));
            }
            layer = layer + 1;
        }
        proof {
            let all_now = outfit_ids(*config, phase, direction, addons, mounted, (addon + 1) as nat);
            assert(addon_shown(addons, addon));
            assert(all_now == before + row);
            if layer == config.layers {
                assert(row.take(layer as int) =~= row);
            } else {
                let part = before + row.take(layer as int);
                assert forall|i: int| 0 <= i < part.len() implies part[i] == (before + row)[i] by {
                }
            }
        }
        addon = addon + 1;
    }
    (sprite_ids, slot as u32)
}

} // verus!
