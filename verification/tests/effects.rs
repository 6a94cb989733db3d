use std::sync::Arc;

use rustibia::appearance::animation::SpriteAnimator;
use rustibia::appearance::effects::{effect_tiles, instance_box, lifetime, pattern_for, Effect};
use rustibia::appearance::sprite::{AnimationLoop, SpriteAnimation, SpriteBox, SpriteConfig};
use rustibia::conf::STATIC_EFFECT_MS;
use rustibia::map::draw_order::{DrawLayer, DrawOrder, DrawOrigin, DrawRank};
use rustibia::map::position::Position;

fn config(pattern_x: u32, pattern_y: u32) -> SpriteConfig {
    SpriteConfig {
        id: 1,
        group: "effect-32-32-0".to_string(),
        pattern_x,
        pattern_y,
        pattern_z: 1,
        layers: 1,
        sprite_ids: vec![0],
        animation: SpriteAnimation::Static,
        boxes: Vec::new(),
        shift_x: 0,
        shift_y: 0,
    }
}

#[test]
fn an_empty_delta_paints_only_the_base_tile() {
    let tiles = effect_tiles(&Position::new(100, 200, 7), &vec![]);

    assert_eq!(tiles, vec![Position::new(100, 200, 7)]);
}

#[test]
fn deltas_paint_extra_tiles_around_the_base() {
    let tiles = effect_tiles(&Position::new(100, 200, 7), &vec![(1, 0), (0, -1), (-1, -1)]);

    assert_eq!(
        tiles,
        vec![
            Position::new(100, 200, 7),
            Position::new(101, 200, 7),
            Position::new(100, 199, 7),
            Position::new(99, 199, 7),
        ]
    );
}

#[test]
fn a_single_pattern_effect_always_draws_pattern_zero() {
    let sprite = config(1, 1);

    assert_eq!(pattern_for(&Position::new(100, 200, 7), &sprite), (0, 0));
    assert_eq!(pattern_for(&Position::new(101, 201, 7), &sprite), (0, 0));
}

#[test]
fn a_patterned_effect_walks_its_patterns_across_adjacent_tiles() {
    let sprite = config(3, 3);

    let row: Vec<(u32, u32)> = (99..102)
        .map(|x| pattern_for(&Position::new(x, 200, 7), &sprite))
        .collect();

    assert_eq!(row, vec![(0, 2), (1, 2), (2, 2)]);
}

#[test]
fn a_tiles_pattern_does_not_change_between_casts() {
    let sprite = config(3, 3);
    let position = Position::new(1028, 1029, 7);

    assert_eq!(pattern_for(&position, &sprite), (2, 0));
}

#[test]
fn a_rectangular_pattern_uses_the_matching_divisor_per_axis() {
    let sprite = config(2, 4);

    assert_eq!(pattern_for(&Position::new(5, 7, 0), &sprite), (1, 3));
}

#[test]
fn a_zero_pattern_dimension_does_not_panic() {
    let sprite = config(0, 0);

    assert_eq!(pattern_for(&Position::new(5, 7, 0), &sprite), (0, 0));
}

#[test]
fn init_instance_with_a_box_uses_its_max_as_the_size_verbatim() {
    let mut sprite = config(1, 1);
    sprite.boxes = vec![SpriteBox { min_x: 4, min_y: 6, max_x: 24, max_y: 20 }];
    sprite.shift_x = 1;
    sprite.shift_y = 2;

    let b = instance_box(&sprite, 32, 32, 0);

    assert_eq!((b.min_x, b.min_y), (4, 6));
    assert_eq!((b.max_x, b.max_y), (24, 20));
    assert_eq!((sprite.shift_x, sprite.shift_y), (1, 2));
}

#[test]
fn init_instance_without_a_box_falls_back_to_the_sheets_sprite_size() {
    let sprite = config(1, 1);

    let b = instance_box(&sprite, 64, 64, 0);

    assert_eq!((b.min_x, b.min_y), (0, 0));
    assert_eq!((b.max_x, b.max_y), (64, 64));
}

#[test]
fn a_box_is_picked_by_the_pattern_column() {
    let mut sprite = config(2, 1);
    sprite.boxes = vec![
        SpriteBox { min_x: 0, min_y: 0, max_x: 10, max_y: 10 },
        SpriteBox { min_x: 1, min_y: 2, max_x: 30, max_y: 31 },
    ];

    assert_eq!(instance_box(&sprite, 32, 32, 1), sprite.boxes[1]);
    assert_eq!(
        instance_box(&sprite, 32, 32, 2),
        SpriteBox { min_x: 0, min_y: 0, max_x: 32, max_y: 32 }
    );
}

#[test]
fn an_effect_sits_between_the_agent_and_the_top_item_planes() {
    let tile = Position::new(1000, 1000, 7);
    let origin = DrawOrigin::around(&tile);
    let effect = DrawOrder::new(tile.clone(), DrawRank::Standing, DrawLayer::Effect, 0).key(&origin);

    assert!(
        effect > DrawOrder::new(tile.clone(), DrawRank::Standing, DrawLayer::Creature, 0).key(&origin)
    );
    assert!(effect < DrawOrder::new(tile.clone(), DrawRank::Standing, DrawLayer::Top, 0).key(&origin));
}

#[test]
fn a_counted_effect_defers_to_its_animator() {
    let animation = SpriteAnimation::Uniform {
        loop_mode: AnimationLoop::Counted { count: 402 },
        phase_count: 2,
        phase_duration_ms: 4,
    };

    assert_eq!(lifetime(&animation), None);
}

#[test]
fn an_endless_effect_lives_exactly_one_pass() {
    let infinite = SpriteAnimation::Uniform {
        loop_mode: AnimationLoop::Infinite,
        phase_count: 8,
        phase_duration_ms: 100,
    };
    let pingpong = SpriteAnimation::Uniform {
        loop_mode: AnimationLoop::PingPong,
        phase_count: 4,
        phase_duration_ms: 50,
    };

    assert_eq!(lifetime(&infinite), Some(800));
    assert_eq!(lifetime(&pingpong), Some(200));
}

#[test]
fn a_static_effect_gets_the_fixed_duration() {
    assert_eq!(lifetime(&SpriteAnimation::Static), Some(STATIC_EFFECT_MS));
    assert_eq!(STATIC_EFFECT_MS, 300);
}

/// A counted animation, 2 phases of 100 ms, run once: finished after 200 ms.
fn counted_animator() -> SpriteAnimator {
    let mut sprite = config(1, 1);
    sprite.animation = SpriteAnimation::Uniform {
        loop_mode: AnimationLoop::Counted { count: 1 },
        phase_count: 2,
        phase_duration_ms: 100,
    };
    sprite.sprite_ids = vec![10, 20];
    SpriteAnimator::new(Arc::new(sprite), 0, 0, 0)
}

/// One frame: the animator advances first, then the effect decides whether it is done.
fn frame(effect: &mut Effect, animator: &mut SpriteAnimator, delta_ms: u64) -> bool {
    animator.tick(delta_ms);
    effect.tick(delta_ms, animator.is_finished())
}

#[test]
fn a_counted_effect_is_despawned_when_its_animation_finishes() {
    let mut effect = Effect::new(None);
    let mut animator = counted_animator();

    assert!(!frame(&mut effect, &mut animator, 100), "one phase still to run");
    assert!(frame(&mut effect, &mut animator, 100));
}

#[test]
fn an_effect_with_a_ttl_is_despawned_when_it_expires() {
    let mut effect = Effect::new(Some(300));
    let mut animator = counted_animator();

    assert!(!frame(&mut effect, &mut animator, 299));
    assert!(frame(&mut effect, &mut animator, 1));
}

#[test]
fn a_ttl_outranks_a_finished_animator() {
    let mut effect = Effect::new(Some(5000));
    let mut animator = counted_animator();

    assert!(!frame(&mut effect, &mut animator, 100));
    assert!(!frame(&mut effect, &mut animator, 100));
    assert!(animator.is_finished());
    assert!(!frame(&mut effect, &mut animator, 0), "the ttl decides, not the animator");
}

#[test]
fn a_ttl_fires_once_and_not_again() {
    let mut effect = Effect::new(Some(50));
    assert!(effect.tick(60, false));
    assert_eq!(effect.elapsed_ms, 50);
    assert!(!effect.tick(10, false));
}
