use rustibia::chat::messages::{ChatMessageType, SayTarget, TextMessage, TextMessageType};
use rustibia::chat::routing::{channel_for, outbound_for, on_submit_chat_input};
use rustibia::chat::state::{
    on_activate_channel, on_append_chat_message, on_close_channel, on_open_channel, ChannelConfig, ChannelId,
    ChatMessage, ChatState, TextColor,
};

#[test]
fn local_speech_routes_to_the_local_tab() {
    let mut state = ChatState::default();
    assert_eq!(
        channel_for(&mut state, ChatMessageType::Local, 0, "Rizael"),
        ChannelId::Local
    );
}

#[test]
fn a_channel_message_routes_by_channel_not_author() {
    let mut state = ChatState::default();
    assert_eq!(
        channel_for(&mut state, ChatMessageType::Channel, 3, "Rizael"),
        ChannelId::Server(3)
    );
}

#[test]
fn a_private_message_routes_by_author_not_channel() {
    let mut state = ChatState::default();
    let tab = channel_for(&mut state, ChatMessageType::Private, 0, "Rizael");
    assert!(matches!(tab, ChannelId::Private(_)));
}

#[test]
fn a_correspondent_keeps_one_tab_and_two_do_not_share() {
    let mut state = ChatState::default();
    let first = channel_for(&mut state, ChatMessageType::Private, 0, "Rizael");
    let other = channel_for(&mut state, ChatMessageType::Private, 0, "Kestrel");
    let again = channel_for(&mut state, ChatMessageType::Private, 0, "rizael");

    assert_ne!(first, other);
    assert_eq!(first, again);
}

#[test]
fn local_is_sent_without_echo() {
    let state = ChatState::default();
    let out = outbound_for(&state, ChannelId::Local).expect("local always sends");
    assert_eq!(out.target, SayTarget::Local);
    assert!(
        !out.echo,
        "the server echoes local speech back to the speaker"
    );
}

#[test]
fn a_channel_is_sent_without_echo() {
    let state = ChatState::default();
    let out = outbound_for(&state, ChannelId::Server(4)).expect("a channel always sends");
    assert_eq!(out.target, SayTarget::Channel(4));
    assert!(!out.echo, "the sender is a member, so the server echoes");
}

#[test]
fn a_private_message_is_addressed_by_name_and_echoed_locally() {
    let mut state = ChatState::default();
    let tab = state.pm_tab("Rizael");

    let out = outbound_for(&state, tab).expect("a named correspondent sends");
    assert_eq!(out.target, SayTarget::Player("Rizael".to_owned()));
    assert!(
        out.echo,
        "the server delivers private messages only to the recipient"
    );
}

#[test]
fn a_private_tab_with_no_name_does_not_send() {
    let state = ChatState::default();
    assert!(outbound_for(&state, ChannelId::Private(9)).is_none());
}

fn line(text: &str, channel_id: Option<ChannelId>) -> ChatMessage {
    ChatMessage {
        text: text.to_owned(),
        channel_id,
        author: None,
    }
}

fn server_channel(id: u16, name: &str) -> ChannelConfig {
    ChannelConfig {
        id: ChannelId::Server(id),
        name: name.to_owned(),
        closeable: true,
        text_color: TextColor { r: 255, g: 255, b: 255 },
    }
}

#[test]
fn the_default_state_has_only_the_local_tab_and_it_is_active() {
    let state = ChatState::default();
    assert_eq!(state.channels.len(), 1);
    assert_eq!(state.active_channel(), ChannelId::Local);
    assert!(state.is_open(ChannelId::Local));
    assert!(!state.channels[0].config.closeable);
}

#[test]
fn a_tab_keeps_at_most_its_history_cap() {
    let mut state = ChatState::default();
    state.history_cap = 2;
    for text in ["one", "two", "three"] {
        on_append_chat_message(&mut state, &line(text, Some(ChannelId::Local)));
    }
    let local = state.channel(ChannelId::Local).expect("local is open");
    let kept: Vec<&str> = local.messages.iter().map(|m| m.message.text.as_str()).collect();
    assert_eq!(kept, ["two", "three"]);
    assert_eq!(local.messages[0].sequence, 1);
    assert_eq!(local.messages[1].sequence, 2);
}

#[test]
fn the_append_that_overflows_reports_the_line_it_trimmed() {
    let mut state = ChatState::default();
    state.history_cap = 1;
    let first = on_append_chat_message(&mut state, &line("one", Some(ChannelId::Local)));
    assert_eq!(first.len(), 1);
    assert_eq!(first[0].sequence, 0);
    assert_eq!(first[0].trimmed, None);
    let second = on_append_chat_message(&mut state, &line("two", Some(ChannelId::Local)));
    assert_eq!(second[0].sequence, 1);
    assert_eq!(second[0].trimmed, Some(0));
}

#[test]
fn a_line_with_no_tab_goes_to_every_open_tab() {
    let mut state = ChatState::default();
    assert!(on_open_channel(&mut state, server_channel(5, "Trade")));
    let appended = on_append_chat_message(&mut state, &line("server restart", None));
    assert_eq!(appended.len(), 2);
    assert_eq!(appended[0].channel_id, ChannelId::Local);
    assert_eq!(appended[1].channel_id, ChannelId::Server(5));
}

#[test]
fn a_line_for_a_tab_that_is_not_open_goes_nowhere() {
    let mut state = ChatState::default();
    let appended = on_append_chat_message(&mut state, &line("lost", Some(ChannelId::Server(7))));
    assert!(appended.is_empty());
    assert!(state.channel(ChannelId::Local).unwrap().messages.is_empty());
}

#[test]
fn a_line_in_an_inactive_tab_marks_it_unread() {
    let mut state = ChatState::default();
    on_open_channel(&mut state, server_channel(5, "Trade"));
    assert_eq!(state.active_channel(), ChannelId::Server(5), "a new tab opens active");
    on_activate_channel(&mut state, ChannelId::Local);
    on_append_chat_message(&mut state, &line("selling", Some(ChannelId::Server(5))));
    on_append_chat_message(&mut state, &line("hello", Some(ChannelId::Local)));
    assert!(state.channel(ChannelId::Server(5)).unwrap().unread);
    assert!(!state.channel(ChannelId::Local).unwrap().unread);
}

#[test]
fn opening_a_tab_twice_adds_it_once() {
    let mut state = ChatState::default();
    assert!(on_open_channel(&mut state, server_channel(5, "Trade")));
    assert!(!on_open_channel(&mut state, server_channel(5, "Trade")));
    assert_eq!(state.channels.len(), 2);
}

#[test]
fn the_local_tab_cannot_be_closed_and_a_server_tab_can() {
    let mut state = ChatState::default();
    on_open_channel(&mut state, server_channel(5, "Trade"));
    assert!(!on_close_channel(&mut state, ChannelId::Local));
    assert!(on_close_channel(&mut state, ChannelId::Server(5)));
    assert!(!state.is_open(ChannelId::Server(5)));
    assert_eq!(state.channels.len(), 1);
}

#[test]
fn a_correspondent_keeps_their_tab_id_after_it_is_closed() {
    let mut state = ChatState::default();
    let first = state.pm_tab("Rizael");
    let second = state.pm_tab("Kestrel");
    assert_eq!(state.pm_name(first), Some("Rizael"));
    assert_eq!(state.pm_name(second), Some("Kestrel"));
    assert_eq!(state.pm_tab("RIZAEL"), first);
    assert_eq!(state.pm_name(ChannelId::Private(42)), None);
}

#[test]
fn submitting_on_the_local_tab_says_it_locally() {
    let mut state = ChatState::default();
    assert_eq!(on_submit_chat_input(&mut state, "hi"), Some(SayTarget::Local));
}

#[test]
fn a_new_text_message_replaces_only_one_of_its_type() {
    let look = TextMessage::new(TextMessageType::Look);
    assert!(look.replaced_by(TextMessageType::Look));
    assert!(!look.replaced_by(TextMessageType::ActionDenied));
}
