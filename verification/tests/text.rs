use std::sync::Arc;

use rustibia::agent::outfit::resolve_agent_sprite_ids;
use rustibia::appearance::sprite::{SpriteAnimation, SpriteConfig};
use rustibia::chat::input::submitted_text;
use rustibia::chat::messages::ChatMessageType;
use rustibia::chat::network::{on_channel_list_received, on_chat_message_received, on_private_chat_opened};
use rustibia::chat::state::{ChannelId, ChatState};
use rustibia::text::{amount_label, decimal_text, ping_label, signed_decimal_text, text_eq, timer_label};

#[test]
fn a_number_is_written_in_decimal() {
    assert_eq!(decimal_text(0), "0");
    assert_eq!(decimal_text(7), "7");
    assert_eq!(decimal_text(1234567890), "1234567890");
    assert_eq!(decimal_text(u64::MAX), "18446744073709551615");
}

#[test]
fn a_signed_number_carries_its_sign() {
    assert_eq!(signed_decimal_text(-25), "-25");
    assert_eq!(signed_decimal_text(0), "0");
    assert_eq!(signed_decimal_text(i64::MIN), "-9223372036854775808");
    assert_eq!(signed_decimal_text(i64::MAX), "9223372036854775807");
}

#[test]
fn a_remaining_time_reads_to_the_tenth() {
    assert_eq!(timer_label(0), "0.0");
    assert_eq!(timer_label(1), "0.1");
    assert_eq!(timer_label(100_000_001), "0.2");
}

#[test]
fn labels_read_as_the_bars_and_the_ping_show_them() {
    assert_eq!(amount_label(150, 185), "150/185");
    assert_eq!(ping_label(42), "Ping: 42ms");
}

#[test]
fn two_texts_are_equal_when_their_characters_are() {
    assert!(text_eq("Rizael", "Rizael"));
    assert!(!text_eq("Rizael", "rizael"));
    assert!(!text_eq("Riz", "Rizael"));
}

#[test]
fn a_submitted_line_is_trimmed_and_a_blank_one_sends_nothing() {
    assert_eq!(submitted_text("  hello there \t"), Some("hello there".to_owned()));
    assert_eq!(submitted_text(" \u{3000} "), None);
    assert_eq!(submitted_text(""), None);
}

#[test]
fn the_channel_list_offers_every_channel_it_names() {
    let available = on_channel_list_received(&vec![(3, "Trade".to_owned()), (8, "Help".to_owned())]);

    assert_eq!(available.len(), 2);
    assert_eq!(available[0].id, ChannelId::Server(3));
    assert_eq!(available[0].name, "Trade");
    assert_eq!(available[1].id, ChannelId::Server(8));
    assert!(available[1].closeable);
}

#[test]
fn a_private_message_from_a_stranger_opens_a_tab_for_them() {
    let mut state = ChatState::default();

    let received = on_chat_message_received(&mut state, ChatMessageType::Private, 0, "Rizael", "hi", false)
        .expect("a private message always lands");

    assert!(received.opened);
    let tab = state.pm_tab("Rizael");
    assert_eq!(state.active_channel(), tab);
    assert_eq!(received.appended.len(), 1);
    assert_eq!(received.appended[0].channel_id, tab);
    let line = &state.channel(tab).unwrap().messages[0].message;
    assert_eq!(line.text, "hi");
    assert_eq!(line.author.as_deref(), Some("Rizael"));
}

#[test]
fn a_message_for_a_closed_channel_is_dropped() {
    let mut state = ChatState::default();

    assert!(on_chat_message_received(&mut state, ChatMessageType::Channel, 9, "Rizael", "hi", false).is_none());
    assert!(state.channel(ChannelId::Local).unwrap().messages.is_empty());
}

#[test]
fn local_speech_with_a_position_also_floats_over_the_speaker() {
    let mut state = ChatState::default();

    let received = on_chat_message_received(&mut state, ChatMessageType::Local, 0, "Rizael", "hi", true).unwrap();

    assert!(received.show_floating_text);
    assert!(!received.opened);
    assert_eq!(state.channel(ChannelId::Local).unwrap().messages.len(), 1);
}

#[test]
fn opening_a_private_chat_twice_opens_one_tab() {
    let mut state = ChatState::default();

    assert!(on_private_chat_opened(&mut state, "Kestrel"));
    assert!(!on_private_chat_opened(&mut state, "kestrel"));
    assert_eq!(state.channels.len(), 2);
}

fn outfit(layers: u32, addon_rows: u32) -> SpriteConfig {
    let count = 4 * addon_rows * layers;
    SpriteConfig {
        id: 128,
        group: "outfit".to_owned(),
        pattern_x: 4,
        pattern_y: addon_rows,
        pattern_z: 1,
        layers,
        sprite_ids: (0..count).map(|i| 1000 + i).collect(),
        animation: SpriteAnimation::Static,
        boxes: Vec::new(),
        shift_x: 8,
        shift_y: 8,
    }
}

#[test]
fn an_outfit_without_addons_draws_its_base_row_only() {
    let config = Arc::new(outfit(2, 3));

    let (ids, count) = resolve_agent_sprite_ids(&config, 0, 2, 0, 0);

    assert_eq!(count, 2);
    assert_eq!(&ids[2..], &[0, 0, 0, 0]);
    assert!(ids[0] != 0 && ids[1] != 0);
}

#[test]
fn each_addon_bit_adds_its_row() {
    let config = outfit(2, 3);

    let (base, _) = resolve_agent_sprite_ids(&config, 0, 2, 0, 0);
    let (with_first, first_count) = resolve_agent_sprite_ids(&config, 0, 2, 1, 0);
    let (with_both, both_count) = resolve_agent_sprite_ids(&config, 0, 2, 3, 0);

    assert_eq!(first_count, 4);
    assert_eq!(both_count, 6);
    assert_eq!(&with_first[..2], &base[..2], "the base row comes first");
    assert_eq!(&with_both[..4], &with_first[..4]);
}

#[test]
fn opening_a_private_chat_keeps_the_open_tabs_and_the_offered_channels() {
    let mut state = ChatState::default();
    state.set_available(on_channel_list_received(&vec![(3, "Trade".to_owned())]));
    let before: Vec<ChannelId> = state.channels.iter().map(|c| c.config.id).collect();

    assert!(on_private_chat_opened(&mut state, "Kestrel"));

    let after: Vec<ChannelId> = state.channels.iter().map(|c| c.config.id).collect();
    assert_eq!(&after[..before.len()], &before[..]);
    assert_eq!(state.channels.last().unwrap().config.name, "Kestrel");
    assert!(state.channels.last().unwrap().config.closeable);
    let offered = state.channels_to_offer();
    assert_eq!(offered.len(), 1);
    assert_eq!(offered[0].id, ChannelId::Server(3));
}
