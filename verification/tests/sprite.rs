use std::collections::HashSet;

use rustibia::appearance::config::{
    parse_sprite_sheets, parse_sprites_config, read_animation, read_sprite_config, read_sprites_config, Json,
};
use rustibia::appearance::sprite::{AnimationLoop, SpriteAnimation, SpriteBox};

/// A parsed JSON document in the library's own shape.
fn to_json(value: &serde_json::Value) -> Json {
    match value {
        serde_json::Value::Null => Json::Null,
        serde_json::Value::Bool(b) => Json::Bool(*b),
        serde_json::Value::Number(n) => match (n.as_u64(), n.as_i64()) {
            (Some(u), _) => Json::UInt(u),
            (None, Some(i)) => Json::NegInt(i),
            _ => Json::OtherNumber,
        },
        serde_json::Value::String(s) => Json::Str(s.clone()),
        serde_json::Value::Array(items) => Json::Array(items.iter().map(to_json).collect()),
        serde_json::Value::Object(fields) => {
            Json::Object(fields.iter().map(|(k, v)| (k.clone(), to_json(v))).collect())
        }
    }
}

fn parse(text: &str) -> Json {
    to_json(&serde_json::from_str::<serde_json::Value>(text).unwrap())
}

fn config_json(extra: &str) -> Json {
    parse(&format!(
        r#"{{
            "id": 1, "group": "g",
            "pattern_x": 4, "pattern_y": 1, "pattern_z": 1, "layers": 1,
            "sprite_ids": [0, 1, 2, 3],
            "animation": null,
            "boxes": [[0, 0, 32, 32], [0, 0, 32, 32], [0, 0, 32, 32], [0, 0, 32, 32]]
            {extra}
        }}"#
    ))
}

fn animation_json(body: &str) -> SpriteAnimation {
    read_animation(&parse(body)).expect("a well-formed animation")
}

#[test]
fn shift_is_read_from_the_config() {
    let config = read_sprite_config(&config_json(r#", "shift": [8, 8]"#)).unwrap();

    assert_eq!((config.shift_x, config.shift_y), (8, 8));
}

#[test]
fn a_missing_shift_is_zero() {
    let config = read_sprite_config(&config_json("")).unwrap();

    assert_eq!((config.shift_x, config.shift_y), (0, 0));
}

#[test]
fn the_rest_of_a_config_is_read_as_written() {
    let config = read_sprite_config(&config_json("")).unwrap();

    assert_eq!(config.id, 1);
    assert_eq!(config.group, "g");
    assert_eq!(
        (config.pattern_x, config.pattern_y, config.pattern_z, config.layers),
        (4, 1, 1, 1)
    );
    assert_eq!(config.sprite_ids, vec![0, 1, 2, 3]);
    assert!(matches!(config.animation, SpriteAnimation::Static));
    assert_eq!(
        config.boxes,
        vec![SpriteBox { min_x: 0, min_y: 0, max_x: 32, max_y: 32 }; 4]
    );
}

#[test]
fn a_config_missing_a_field_is_not_read() {
    let config = parse(r#"{"id": 1, "group": "g", "pattern_x": 4}"#);
    assert!(read_sprite_config(&config).is_none());
    assert!(read_sprite_config(&config_json(r#", "shift": [8]"#)).is_none());
}

#[test]
fn a_counted_animation_carries_its_count() {
    let animation = animation_json(
        r#"{"loop_type": "COUNTED", "loop_count": 5,
            "phase_count": 3, "phase_duration": 100, "phases": null}"#,
    );

    assert_eq!(animation.loop_mode(), AnimationLoop::Counted { count: 5 });
    assert_eq!(animation.total_animation_phases(), 3);
}

#[test]
fn the_endless_loop_types_are_distinguished() {
    let infinite = animation_json(
        r#"{"loop_type": "INFINITE", "loop_count": null,
            "phase_count": 2, "phase_duration": 100, "phases": null}"#,
    );
    let pingpong = animation_json(
        r#"{"loop_type": "PINGPONG", "loop_count": null,
            "phase_count": 2, "phase_duration": 100, "phases": null}"#,
    );

    assert_eq!(infinite.loop_mode(), AnimationLoop::Infinite);
    assert_eq!(pingpong.loop_mode(), AnimationLoop::PingPong);
}

#[test]
fn a_counted_animation_without_a_count_runs_once() {
    let animation = animation_json(
        r#"{"loop_type": "COUNTED", "loop_count": null,
            "phase_count": 2, "phase_duration": 100, "phases": null}"#,
    );

    assert_eq!(animation.loop_mode(), AnimationLoop::Counted { count: 1 });
}

#[test]
fn a_zero_count_is_treated_as_one_run() {
    let animation = animation_json(
        r#"{"loop_type": "COUNTED", "loop_count": 0,
            "phase_count": 2, "phase_duration": 100, "phases": null}"#,
    );

    assert_eq!(animation.loop_mode(), AnimationLoop::Counted { count: 1 });
}

#[test]
fn a_missing_animation_is_static() {
    let animation = animation_json("null");

    assert!(matches!(animation, SpriteAnimation::Static));
    assert_eq!(animation.total_animation_phases(), 1);
}

#[test]
fn an_unknown_loop_type_loops_forever() {
    let animation = animation_json(
        r#"{"loop_type": "SIDEWAYS", "loop_count": null,
            "phase_count": 2, "phase_duration": 100, "phases": null}"#,
    );
    assert_eq!(animation.loop_mode(), AnimationLoop::Infinite);
}

#[test]
fn a_uniform_animation_missing_its_count_is_not_read() {
    let animation = read_animation(&parse(
        r#"{"loop_type": "INFINITE", "loop_count": null,
            "phase_count": null, "phase_duration": 100, "phases": null}"#,
    ));
    assert!(animation.is_none());
}

#[test]
fn shift_does_not_disturb_the_boxes() {
    let shifted = read_sprite_config(&config_json(r#", "shift": [8, 8]"#)).unwrap();
    let unshifted = read_sprite_config(&config_json("")).unwrap();

    assert_eq!(shifted.boxes, unshifted.boxes);
}

#[test]
fn a_uniform_animation_reports_one_duration_for_every_phase() {
    let animation = animation_json(
        r#"{"loop_type": "INFINITE", "loop_count": null,
            "phase_count": 3, "phase_duration": 120, "phases": null}"#,
    );

    for phase in 0..3 {
        assert_eq!(animation.phase_duration(phase), 120);
    }
}

#[test]
fn a_non_uniform_animation_reports_each_phases_own_duration() {
    let animation = animation_json(
        r#"{"loop_type": "COUNTED", "loop_count": 1, "phase_count": null,
            "phase_duration": null, "phases": [[100, 100], [250, 250], [50, 50]]}"#,
    );

    assert_eq!(animation.phase_duration(0), 100);
    assert_eq!(animation.phase_duration(1), 250);
    assert_eq!(animation.phase_duration(2), 50);
}

#[test]
fn a_ranged_phase_samples_inside_its_range() {
    let animation = animation_json(
        r#"{"loop_type": "COUNTED", "loop_count": 1, "phase_count": null,
            "phase_duration": null, "phases": [[100, 400]]}"#,
    );

    let mut samples = HashSet::new();
    for _ in 0..64 {
        let sampled = animation.phase_duration(0);
        assert!(
            (100..=400).contains(&sampled),
            "sampled {sampled} outside [100, 400]"
        );
        samples.insert(sampled);
    }
    assert!(
        samples.len() > 1,
        "64 samples over a 301-value range all came back identical"
    );
}

#[test]
fn a_phase_is_untimed_only_when_its_whole_range_is_zero() {
    let animation = animation_json(
        r#"{"loop_type": "COUNTED", "loop_count": 1, "phase_count": null,
            "phase_duration": null, "phases": [[100, 100], [0, 0], [0, 250]]}"#,
    );

    assert!(!animation.phase_is_untimed(0));
    assert!(animation.phase_is_untimed(1));
    assert!(
        !animation.phase_is_untimed(2),
        "a [0, 250] phase can still take time"
    );
}

#[test]
fn a_uniform_phase_is_untimed_only_at_zero_duration() {
    let zero_duration = animation_json(
        r#"{"loop_type": "INFINITE", "loop_count": null,
            "phase_count": 2, "phase_duration": 0, "phases": null}"#,
    );
    let timed = animation_json(
        r#"{"loop_type": "INFINITE", "loop_count": null,
            "phase_count": 2, "phase_duration": 100, "phases": null}"#,
    );

    assert!(zero_duration.phase_is_untimed(0));
    assert!(!timed.phase_is_untimed(0));
}

#[test]
fn an_animation_with_no_timed_phase_never_advances() {
    let all_zero = animation_json(
        r#"{"loop_type": "COUNTED", "loop_count": 1, "phase_count": null,
            "phase_duration": null, "phases": [[0, 0], [0, 0]]}"#,
    );
    let padded_tail = animation_json(
        r#"{"loop_type": "COUNTED", "loop_count": 1, "phase_count": null,
            "phase_duration": null, "phases": [[100, 100], [0, 0]]}"#,
    );

    assert!(all_zero.never_advances());
    assert!(animation_json("null").never_advances(), "a static animation");
    assert!(!padded_tail.never_advances(), "effect 221's shape still runs");
}

#[test]
fn a_pass_sums_every_phase() {
    let uniform = animation_json(
        r#"{"loop_type": "INFINITE", "loop_count": null,
            "phase_count": 8, "phase_duration": 100, "phases": null}"#,
    );
    let non_uniform = animation_json(
        r#"{"loop_type": "COUNTED", "loop_count": 1, "phase_count": null,
            "phase_duration": null, "phases": [[100, 100], [250, 250]]}"#,
    );

    assert_eq!(uniform.pass_duration(), 800);
    assert_eq!(non_uniform.pass_duration(), 350);
    assert_eq!(animation_json("null").pass_duration(), 0);
}

#[test]
fn a_small_document_fills_every_category() {
    let doc = parse(&format!(
        r#"{{
            "items": [{item}],
            "outfits": [],
            "effects": [{item}],
            "missiles": []
        }}"#,
        item = r#"{"id": 1, "group": "g", "pattern_x": 1, "pattern_y": 1, "pattern_z": 1,
                   "layers": 1, "sprite_ids": [5], "animation": null, "boxes": []}"#
    ));
    let configs = read_sprites_config(&doc).expect("a well-formed document");
    assert_eq!(configs.items.len(), 1);
    assert_eq!(configs.outfits.len(), 0);
    assert_eq!(configs.effects.len(), 1);
    assert_eq!(configs.missiles.len(), 0);
    assert_eq!(configs.items[&1].sprite_ids, vec![5]);
}

#[test]
fn the_appearance_file_is_read_from_its_text() {
    let text = r#"{
        "items": [{"id": 7, "group": "g", "pattern_x": 1, "pattern_y": 1, "pattern_z": 1,
                   "layers": 1, "sprite_ids": [5, 6], "animation": null, "boxes": []}],
        "outfits": []
    }"#;
    let configs = parse_sprites_config(text).expect("a well-formed file");
    assert_eq!(configs.items.len(), 1);
    assert_eq!(configs.items[&7].sprite_ids, vec![5, 6]);
    assert!(configs.effects.is_empty(), "a file without effects has none");
    assert!(parse_sprites_config("{ not json").is_none());
    assert!(parse_sprites_config(r#"{"outfits": []}"#).is_none(), "items are required");
}

#[test]
fn the_sheet_list_is_read_from_its_text() {
    let text = r#"[{"sheet_name": "items-1.png", "group": "item-32-32-0",
                    "grid_size": [12, 12], "sprite_size": [32, 32]}]"#;
    let sheets = parse_sprite_sheets(text).expect("a well-formed list");
    assert_eq!(sheets.len(), 1);
    assert_eq!(sheets[0].sheet_name, "items-1.png");
    assert_eq!(sheets[0].group, "item-32-32-0");
    assert_eq!(sheets[0].grid_size, (12, 12));
    assert_eq!(sheets[0].sprite_size, (32, 32));
    assert!(parse_sprite_sheets("[").is_none());
    assert!(parse_sprite_sheets(r#"{"a": 1}"#).is_none(), "not a list");
}

#[test]
fn an_outfit_reads_its_still_and_moving_sprites_from_its_last_entry() {
    let text = r#"{
        "items": [],
        "outfits": [
            {"id": 3,
             "still_sprite": {"id": 3, "group": "g", "pattern_x": 1, "pattern_y": 1, "pattern_z": 1,
                              "layers": 1, "sprite_ids": [10], "animation": null, "boxes": []},
             "moving_sprite": {"id": 3, "group": "g", "pattern_x": 1, "pattern_y": 1, "pattern_z": 1,
                               "layers": 1, "sprite_ids": [11], "animation": null, "boxes": []}},
            {"id": 3,
             "still_sprite": {"id": 3, "group": "g", "pattern_x": 1, "pattern_y": 1, "pattern_z": 1,
                              "layers": 1, "sprite_ids": [20], "animation": null, "boxes": []},
             "moving_sprite": {"id": 3, "group": "g", "pattern_x": 1, "pattern_y": 1, "pattern_z": 1,
                               "layers": 1, "sprite_ids": [21, 22], "animation": null, "boxes": []}}
        ]
    }"#;
    let configs = parse_sprites_config(text).expect("a well-formed file");
    assert_eq!(configs.outfits.len(), 1);
    assert_eq!(configs.outfits[&3].still_sprite.sprite_ids, vec![20]);
    assert_eq!(configs.outfits[&3].moving_sprite.sprite_ids, vec![21, 22]);
}
