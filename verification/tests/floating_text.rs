use rustibia::chat::state::{local_channel_color, TextColor};
use rustibia::conf::{SPEECH_MAX_LINES, SPEECH_MAX_MS, SPEECH_MIN_MS};
use rustibia::floating_text::{
    line_duration, parse_hit_points, plan_hit_points, resolve_color, FloatingTextType, HpArrival,
    LiveHitPoints, SpeechBlock, SpeechBoard, SpeechKey, HP_MERGE_WINDOW_MS,
};
use rustibia::map::position::Position;
use rustibia::text::parse_i64;

const WHITE: TextColor = TextColor { r: 255, g: 255, b: 255 };
const BLACK: TextColor = TextColor { r: 0, g: 0, b: 0 };
const CREATURE_SAY_COLOR: TextColor = TextColor { r: 254, g: 101, b: 0 };

#[test]
fn an_explicit_colour_wins_over_the_default() {
    assert_eq!(
        resolve_color(FloatingTextType::HitPoints, Some((10, 20, 30))),
        TextColor { r: 10, g: 20, b: 30 }
    );
}

#[test]
fn hit_points_default_to_white() {
    assert_eq!(resolve_color(FloatingTextType::HitPoints, None), WHITE);
}

#[test]
fn speech_defaults_to_the_local_chat_colour() {
    assert_eq!(
        resolve_color(FloatingTextType::PlayerMessage, None),
        local_channel_color()
    );
}

#[test]
fn creature_say_is_orange_and_player_speech_is_not() {
    assert_eq!(
        resolve_color(FloatingTextType::CreatureSay, None),
        CREATURE_SAY_COLOR
    );
    assert_ne!(
        resolve_color(FloatingTextType::CreatureSay, None),
        resolve_color(FloatingTextType::PlayerMessage, None)
    );
}

#[test]
fn line_duration_is_clamped_at_both_ends() {
    assert_eq!(line_duration(1), SPEECH_MIN_MS);
    assert_eq!(line_duration(255), SPEECH_MAX_MS);
}

#[test]
fn line_duration_scales_between_the_bounds() {
    // 100 chars × 60 ms = 6000 ms, inside [3000, 8000].
    assert_eq!(line_duration(100), 6000);
}

#[test]
fn line_duration_survives_an_enormous_line() {
    assert_eq!(line_duration(usize::MAX), SPEECH_MAX_MS);
}

fn live(id: u64, value: Option<i64>, color: TextColor, elapsed_ms: u64, ms: u64) -> LiveHitPoints {
    LiveHitPoints {
        id,
        value,
        color,
        elapsed_ms,
        spawned_at_ns: ms * 1_000_000,
    }
}

#[test]
fn the_first_number_at_a_tile_just_spawns() {
    assert_eq!(plan_hit_points(&vec![], Some(5), WHITE), HpArrival::Spawn);
}

#[test]
fn merge_sums_two_numbers_of_the_same_colour() {
    let live = vec![live(1, Some(-12), WHITE, 100, 0)];
    match plan_hit_points(&live, Some(-8), WHITE) {
        HpArrival::Merge { target, sum } => {
            assert_eq!(target, 1);
            assert_eq!(sum, -20);
        }
        HpArrival::Spawn => panic!("expected a merge"),
    }
}

#[test]
fn a_different_colour_does_not_merge() {
    let live = vec![live(1, Some(12), WHITE, 0, 0)];
    assert_eq!(plan_hit_points(&live, Some(8), BLACK), HpArrival::Spawn);
}

#[test]
fn a_non_numeric_arrival_never_merges() {
    let live = vec![live(1, Some(12), WHITE, 0, 0)];
    assert_eq!(plan_hit_points(&live, None, WHITE), HpArrival::Spawn);
}

#[test]
fn a_non_numeric_existing_text_is_not_a_merge_target() {
    let live = vec![live(1, None, WHITE, 0, 0)];
    assert_eq!(plan_hit_points(&live, Some(8), WHITE), HpArrival::Spawn);
}

#[test]
fn merging_is_refused_past_the_window() {
    let live = vec![live(1, Some(12), WHITE, HP_MERGE_WINDOW_MS + 10, 0)];
    assert_eq!(plan_hit_points(&live, Some(8), WHITE), HpArrival::Spawn);
}

#[test]
fn the_last_moment_inside_the_window_still_merges() {
    let live = vec![live(1, Some(12), WHITE, HP_MERGE_WINDOW_MS - 1, 0)];
    assert_eq!(
        plan_hit_points(&live, Some(8), WHITE),
        HpArrival::Merge { target: 1, sum: 20 }
    );
    let at_the_edge = vec![live_at_edge()];
    assert_eq!(plan_hit_points(&at_the_edge, Some(8), WHITE), HpArrival::Spawn);
}

fn live_at_edge() -> LiveHitPoints {
    live(1, Some(12), WHITE, HP_MERGE_WINDOW_MS, 0)
}

#[test]
fn an_older_mergeable_text_is_used_when_the_newest_cannot_merge() {
    let live = vec![live(1, Some(3), WHITE, 100, 0), live(2, Some(4), BLACK, 100, 10)];
    match plan_hit_points(&live, Some(5), WHITE) {
        HpArrival::Merge { target, sum } => {
            assert_eq!(target, 1);
            assert_eq!(sum, 8);
        }
        HpArrival::Spawn => panic!("the older text was mergeable"),
    }
}

#[test]
fn the_newest_mergeable_text_wins() {
    let live = vec![live(1, Some(3), WHITE, 100, 0), live(2, Some(4), WHITE, 100, 10)];
    match plan_hit_points(&live, Some(5), WHITE) {
        HpArrival::Merge { target, sum } => {
            assert_eq!(target, 2);
            assert_eq!(sum, 9);
        }
        HpArrival::Spawn => panic!("expected a merge"),
    }
}

#[test]
fn a_merged_sum_reaches_the_ends_of_the_range() {
    let live = vec![live(1, Some(i64::MAX - 5), WHITE, 0, 0)];
    assert_eq!(
        plan_hit_points(&live, Some(5), WHITE),
        HpArrival::Merge { target: 1, sum: i64::MAX }
    );
    let live_low = vec![live_value(i64::MIN + 3)];
    assert_eq!(
        plan_hit_points(&live_low, Some(-3), WHITE),
        HpArrival::Merge { target: 1, sum: i64::MIN }
    );
}

fn live_value(value: i64) -> LiveHitPoints {
    live(1, Some(value), WHITE, 0, 0)
}

#[test]
fn two_mergeable_numbers_leave_one_entity_showing_the_sum() {
    let first = parse_hit_points("-12");
    let second = parse_hit_points("-8");
    assert_eq!(first, Some(-12));
    let live = vec![live(7, first, WHITE, 0, 0)];
    assert_eq!(
        plan_hit_points(&live, second, WHITE),
        HpArrival::Merge { target: 7, sum: -20 }
    );
}

#[test]
fn a_damage_text_is_read_after_trimming() {
    assert_eq!(parse_hit_points("  -25 \n"), Some(-25));
    assert_eq!(parse_hit_points("+7"), Some(7));
    assert_eq!(parse_hit_points("12 hp"), None);
    assert_eq!(parse_hit_points("   "), None);
    assert_eq!(parse_hit_points("-"), None);
}

#[test]
fn an_i64_is_read_to_its_limits_and_no_further() {
    assert_eq!(parse_i64("9223372036854775807"), Some(i64::MAX));
    assert_eq!(parse_i64("-9223372036854775808"), Some(i64::MIN));
    assert_eq!(parse_i64("9223372036854775808"), None);
    assert_eq!(parse_i64("99999999999999999999999"), None);
    assert_eq!(parse_i64(""), None);
    assert_eq!(parse_i64("0042"), Some(42));
}

#[test]
fn a_second_message_on_a_tile_queues_into_the_block() {
    let mut block = SpeechBlock::new("hi there");
    block.push_line("how are you");

    assert_eq!(block.lines.len(), 2, "one block, two lines");
    assert_eq!(block.compose(), "hi there\nhow are you");
}

#[test]
fn the_oldest_line_drops_at_the_cap() {
    let mut block = SpeechBlock::new("line 0");
    for i in 1..=SPEECH_MAX_LINES {
        block.push_line(&format!("line {i}"));
    }

    assert_eq!(block.lines.len(), SPEECH_MAX_LINES);
    assert!(
        !block.compose().contains("line 0"),
        "the first line must have been evicted, got {:?}",
        block.compose()
    );
    assert!(block.compose().contains("line 5"));
}

#[test]
fn an_expired_line_leaves_the_block_and_the_rest_stay() {
    let mut block = SpeechBlock::new("hi");
    block.push_line(&"x".repeat(200));

    assert!(block.tick(SPEECH_MIN_MS + 1));

    assert_eq!(block.lines.len(), 1, "the short line expired");
    assert!(block.compose().starts_with('x'));
}

#[test]
fn a_block_despawns_when_its_last_line_expires() {
    let mut block = SpeechBlock::new("hi");

    assert!(block.tick(SPEECH_MAX_MS + 1));

    assert!(block.lines.is_empty());
}

#[test]
fn ticking_without_an_expiry_does_not_touch_the_text() {
    let mut block = SpeechBlock::new("hi");

    assert!(!block.tick(100), "no line expired, so the text must not be rewritten");
    assert_eq!(block.lines[0].elapsed_ms, 100);
    assert_eq!(block.compose(), "hi");
}

#[test]
fn a_line_lives_exactly_its_duration() {
    let mut block = SpeechBlock::new("hi");
    assert_eq!(block.lines[0].duration_ms, SPEECH_MIN_MS);
    assert!(!block.tick(SPEECH_MIN_MS - 1));
    assert!(block.tick(1));
}

const SPEAKER: &str = "Rizael";

fn speaker_tile() -> Position {
    Position::new(10, 10, 7)
}

fn said(board: &mut SpeechBoard, speaker: &str, tile: Position, kind: FloatingTextType, text: &str) {
    board.on_speech(
        SpeechKey { anchor: tile, kind, speaker: Some(speaker.to_owned()) },
        text,
    );
}

#[test]
fn a_message_on_another_tile_starts_its_own_block() {
    let mut board = SpeechBoard::new();
    said(&mut board, SPEAKER, speaker_tile(), FloatingTextType::PlayerMessage, "hi");
    said(&mut board, "Kestrel", Position::new(11, 10, 7), FloatingTextType::PlayerMessage, "hello");

    assert_eq!(board.blocks.len(), 2);
}

#[test]
fn a_speaker_who_walks_away_leaves_the_text_behind() {
    let mut board = SpeechBoard::new();
    let walked_to = Position::new(speaker_tile().x + 1, speaker_tile().y, speaker_tile().z);
    for tile in [speaker_tile(), walked_to] {
        said(&mut board, SPEAKER, tile, FloatingTextType::PlayerMessage, "hi");
    }

    let anchors: Vec<Position> = board.keys.iter().map(|k| k.anchor).collect();
    assert_eq!(anchors.len(), 2, "the first block stayed where it was said");
    assert!(anchors.contains(&speaker_tile()));
    assert!(anchors.contains(&walked_to));
}

#[test]
fn a_creature_say_does_not_join_a_player_speech_block() {
    let mut board = SpeechBoard::new();
    for kind in [FloatingTextType::PlayerMessage, FloatingTextType::CreatureSay] {
        said(&mut board, SPEAKER, speaker_tile(), kind, "hi");
    }

    assert_eq!(board.blocks.len(), 2, "the two modes were merged into one block");
}

#[test]
fn two_speakers_on_one_tile_get_a_block_each() {
    let mut board = SpeechBoard::new();
    for speaker in [SPEAKER, "Kestrel"] {
        said(&mut board, speaker, speaker_tile(), FloatingTextType::PlayerMessage, "hi");
    }

    assert_eq!(board.blocks.len(), 2);
}

#[test]
fn the_same_speaker_in_the_same_mode_still_composes_one_block() {
    let mut board = SpeechBoard::new();
    for text in ["first", "second"] {
        said(&mut board, SPEAKER, speaker_tile(), FloatingTextType::CreatureSay, text);
    }

    assert_eq!(board.blocks.len(), 1);
    assert_eq!(board.blocks[0].lines.len(), 2);
    assert_eq!(board.blocks[0].compose(), "first\nsecond");
}

#[test]
fn a_board_block_drops_its_oldest_line_at_the_cap() {
    let mut board = SpeechBoard::new();
    for i in 0..=SPEECH_MAX_LINES {
        said(&mut board, SPEAKER, speaker_tile(), FloatingTextType::PlayerMessage, &format!("line {i}"));
    }

    assert_eq!(board.blocks.len(), 1);
    assert_eq!(board.blocks[0].lines.len(), SPEECH_MAX_LINES);
    assert!(board.blocks[0].compose().starts_with("line 1"));
}

#[test]
fn a_joining_line_leaves_the_earlier_lines_timers_alone() {
    let mut board = SpeechBoard::new();
    said(&mut board, SPEAKER, speaker_tile(), FloatingTextType::PlayerMessage, "first");
    board.blocks[0].lines[0].elapsed_ms = 700;
    let first_duration = board.blocks[0].lines[0].duration_ms;
    said(&mut board, SPEAKER, speaker_tile(), FloatingTextType::PlayerMessage, "second");

    assert_eq!(board.blocks.len(), 1);
    assert_eq!(board.blocks[0].lines[0].elapsed_ms, 700);
    assert_eq!(board.blocks[0].lines[0].duration_ms, first_duration);
    assert_eq!(board.blocks[0].lines[1].elapsed_ms, 0);
}
