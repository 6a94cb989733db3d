use std::sync::Arc;

use rustibia::appearance::animation::SpriteAnimator;
use rustibia::appearance::sprite::{AnimationLoop, PhaseRange, SpriteAnimation, SpriteConfig};

const PHASE: u64 = 100;

fn sprite(sprite_ids: Vec<u32>, animation: SpriteAnimation) -> Arc<SpriteConfig> {
    Arc::new(SpriteConfig {
        id: 1,
        group: "test".to_string(),
        pattern_x: 1,
        pattern_y: 1,
        pattern_z: 1,
        layers: 1,
        sprite_ids,
        animation,
        boxes: Vec::new(),
        shift_x: 0,
        shift_y: 0,
    })
}

/// One layer, no patterns, so the sprite id is the phase index plus one, times ten.
fn config(phase_count: u32, loop_mode: AnimationLoop) -> Arc<SpriteConfig> {
    sprite(
        (0..phase_count).map(|p| (p + 1) * 10).collect(),
        SpriteAnimation::Uniform {
            loop_mode,
            phase_count,
            phase_duration_ms: PHASE,
        },
    )
}

fn ranges(pairs: &[(u32, u32)]) -> Vec<PhaseRange> {
    pairs
        .iter()
        .map(|&(min_ms, max_ms)| PhaseRange { min_ms, max_ms })
        .collect()
}

/// Hands the animator one full phase per frame and reports the phase after each,
/// with whether the animation had finished by then.
fn advance_phases(config: Arc<SpriteConfig>, steps: usize) -> Vec<(u32, bool)> {
    let mut animator = SpriteAnimator::new(config, 0, 0, 0);
    (0..steps)
        .map(|_| {
            animator.tick(PHASE);
            (animator.current_phase, animator.is_finished())
        })
        .collect()
}

#[test]
fn a_tick_without_a_phase_advance_is_not_a_change() {
    let mut animator = SpriteAnimator::new(config(2, AnimationLoop::Infinite), 0, 0, 0);

    let changed = animator.tick(PHASE / 10);

    assert!(!changed, "no phase advance, so no change");
    assert_eq!(animator.current_sprite_ids[0], 10, "still on the first phase");
}

#[test]
fn the_phase_advance_accumulates_and_is_reported_as_a_change() {
    let mut animator = SpriteAnimator::new(config(2, AnimationLoop::Infinite), 0, 0, 0);

    for _ in 0..4 {
        assert!(!animator.tick(PHASE / 5), "still short of a full phase");
        assert_eq!(animator.current_sprite_ids[0], 10);
    }

    assert!(animator.tick(PHASE / 5), "the phase advanced");
    assert_eq!(animator.current_sprite_ids[0], 20, "and the sprite followed it");
}

#[test]
fn an_infinite_animation_wraps_and_never_finishes() {
    let phases = advance_phases(config(3, AnimationLoop::Infinite), 7);

    assert_eq!(
        phases,
        vec![
            (1, false),
            (2, false),
            (0, false),
            (1, false),
            (2, false),
            (0, false),
            (1, false)
        ]
    );
}

#[test]
fn a_counted_animation_stops_on_its_last_phase() {
    let phases = advance_phases(config(3, AnimationLoop::Counted { count: 1 }), 4);

    assert_eq!(
        phases,
        vec![(1, false), (2, false), (2, true), (2, true)],
        "phases 0,1,2 then finished, holding 2"
    );
}

#[test]
fn a_counted_animation_runs_once_per_count() {
    let phases = advance_phases(config(2, AnimationLoop::Counted { count: 2 }), 5);

    assert_eq!(
        phases,
        vec![(1, false), (0, false), (1, false), (1, true), (1, true)],
        "0,1 then 0,1 -- two runs -- then finished"
    );
}

#[test]
fn a_single_phase_counted_animation_still_finishes() {
    let phases = advance_phases(config(1, AnimationLoop::Counted { count: 1 }), 2);

    assert_eq!(phases, vec![(0, true), (0, true)]);
}

#[test]
fn a_single_phase_endless_animation_holds_still() {
    assert_eq!(
        advance_phases(config(1, AnimationLoop::Infinite), 3),
        vec![(0, false), (0, false), (0, false)]
    );
    assert_eq!(
        advance_phases(config(1, AnimationLoop::PingPong), 3),
        vec![(0, false), (0, false), (0, false)]
    );
}

#[test]
fn a_pingpong_animation_walks_back_down() {
    let phases = advance_phases(config(4, AnimationLoop::PingPong), 8);

    assert_eq!(
        phases.iter().map(|(p, _)| *p).collect::<Vec<_>>(),
        vec![1, 2, 3, 2, 1, 0, 1, 2]
    );
    assert!(
        phases.iter().all(|(_, finished)| !*finished),
        "ping-pong never ends"
    );
}

fn non_uniform_config() -> Arc<SpriteConfig> {
    sprite(
        vec![10, 20, 30],
        SpriteAnimation::NonUniform {
            loop_mode: AnimationLoop::Counted { count: 1 },
            phases: ranges(&[(100, 100), (250, 250), (50, 50)]),
        },
    )
}

#[test]
fn a_non_uniform_animation_advances_on_each_phases_own_duration() {
    let mut animator = SpriteAnimator::new(non_uniform_config(), 0, 0, 0);
    let mut tick = |ms: u64| {
        animator.tick(ms);
        animator.current_sprite_ids[0]
    };

    assert_eq!(tick(99), 10);
    assert_eq!(tick(1), 20);

    assert_eq!(tick(100), 20);
    assert_eq!(tick(149), 20);
    assert_eq!(tick(1), 30);
}

#[test]
fn a_non_uniform_counted_animation_finishes_after_its_last_phase() {
    let mut animator = SpriteAnimator::new(non_uniform_config(), 0, 0, 0);

    animator.tick(100);
    animator.tick(250);
    animator.tick(49);
    assert!(!animator.is_finished(), "1 ms of the last phase still to run");

    animator.tick(1);
    assert!(animator.is_finished());
}

#[test]
fn a_zero_duration_tail_is_crossed_in_one_tick() {
    let config = sprite(
        vec![10, 20, 30, 40],
        SpriteAnimation::NonUniform {
            loop_mode: AnimationLoop::Counted { count: 1 },
            phases: ranges(&[(100, 100), (100, 100), (0, 0), (0, 0)]),
        },
    );
    let mut animator = SpriteAnimator::new(config, 0, 0, 0);

    animator.tick(100);
    animator.tick(100);

    assert!(
        animator.is_finished(),
        "the padded tail must not hold the animation open"
    );
    assert_eq!(
        animator.current_sprite_ids[0], 20,
        "must rest on phase 1's sprite, the last one the config timed"
    );
}

#[test]
fn a_leading_empty_phase_is_skipped_at_construction() {
    let config = sprite(
        vec![10, 20],
        SpriteAnimation::NonUniform {
            loop_mode: AnimationLoop::Infinite,
            phases: ranges(&[(0, 0), (100, 100)]),
        },
    );

    let animator = SpriteAnimator::new(config, 0, 0, 0);

    assert_eq!(animator.current_phase, 1);
    assert_eq!(animator.current_sprite_ids[0], 20);
}

#[test]
fn an_all_empty_animation_holds_still_without_spinning() {
    let config = sprite(
        vec![10, 20],
        SpriteAnimation::NonUniform {
            loop_mode: AnimationLoop::Infinite,
            phases: ranges(&[(0, 0), (0, 0)]),
        },
    );
    let mut animator = SpriteAnimator::new(config, 0, 0, 0);

    animator.tick(10_000);

    assert_eq!(animator.current_sprite_ids[0], 10, "nothing to advance to");
}

#[test]
fn a_pingpong_walk_recovers_a_timed_phase_past_the_short_bound() {
    let config = sprite(
        vec![10, 20, 30, 40],
        SpriteAnimation::NonUniform {
            loop_mode: AnimationLoop::PingPong,
            phases: ranges(&[(100, 100), (0, 0), (0, 0), (0, 0)]),
        },
    );
    let mut animator = SpriteAnimator::new(config, 0, 0, 0);

    animator.tick(100);

    assert_eq!(
        animator.current_sprite_ids[0], 10,
        "must recover phase 0, not strand on phase 1's padding"
    );
}

#[test]
fn a_finished_animator_stops_ticking() {
    let mut animator =
        SpriteAnimator::new(config(2, AnimationLoop::Counted { count: 1 }), 0, 0, 0);

    animator.tick(PHASE);
    animator.tick(PHASE);
    assert!(animator.is_finished());

    assert!(
        !animator.tick(PHASE * 10),
        "a finished animator reports no more changes"
    );
}

#[test]
fn a_static_animator_never_changes() {
    let mut animator = SpriteAnimator::new(sprite(vec![10], SpriteAnimation::Static), 0, 0, 0);

    assert!(!animator.tick(PHASE * 10));
    assert_eq!(animator.current_sprite_ids[0], 10);
}

#[test]
fn a_moving_animation_is_left_to_the_step_that_drives_it() {
    let mut animator = SpriteAnimator::new(config(3, AnimationLoop::Infinite), 0, 0, 0);
    animator.moving_animation = true;

    assert!(!animator.tick(PHASE * 3));
    assert_eq!(animator.current_phase, 0);
}

#[test]
fn patterns_and_layers_pick_their_sprite() {
    // Two phases, two directions, one addon row, one mount state, two layers.
    let config = Arc::new(SpriteConfig {
        id: 7,
        group: "outfit".to_string(),
        pattern_x: 2,
        pattern_y: 1,
        pattern_z: 1,
        layers: 2,
        sprite_ids: (0..8).collect(),
        animation: SpriteAnimation::Uniform {
            loop_mode: AnimationLoop::Infinite,
            phase_count: 2,
            phase_duration_ms: PHASE,
        },
        boxes: Vec::new(),
        shift_x: 0,
        shift_y: 0,
    });
    let mut animator = SpriteAnimator::new(config, 1, 0, 0);
    assert_eq!(&animator.current_sprite_ids[..2], &[2, 3]);
    assert_eq!(&animator.current_sprite_ids[2..], &[0, 0, 0, 0]);

    animator.tick(PHASE);
    assert_eq!(&animator.current_sprite_ids[..2], &[6, 7]);
}

#[test]
fn an_index_past_the_sprite_list_draws_sprite_zero() {
    let config = sprite(vec![10], SpriteAnimation::Static);
    let animator = SpriteAnimator::new(config, 3, 0, 0);
    assert_eq!(animator.current_sprite_ids[0], 0);
}
