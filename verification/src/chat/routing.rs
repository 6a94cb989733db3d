use vstd::prelude::*;

use crate::chat::messages::{ChatMessageType, SayTarget};
use crate::chat::state::{
    appended_to, local_channel_color, on_append_chat_message, on_open_channel, pm_tab_spec,
    spec_local_channel_color, Appended, ChannelConfig, ChannelId, ChatMessage, ChatState,
};

verus! {

/// Which tab an inbound message belongs in. A channel message is keyed by its
/// channel and a private one by its author: a private message carries channel 0,
/// so keying it by channel would funnel every conversation into one tab.
pub fn channel_for(state: &mut ChatState, message_type: ChatMessageType, channel: u16, author: &str) -> (id:
    ChannelId)
    ensures
        final(state).available_view() == old(state).available_view(),
        message_type == ChatMessageType::Local ==> id == ChannelId::Local && final(state).pm_names()
            == old(state).pm_names(),
        message_type == ChatMessageType::Channel ==> id == ChannelId::Server(channel) && final(state).pm_names() == old(state).pm_names(),
        message_type == ChatMessageType::Private ==> (final(state).pm_names(), id) == pm_tab_spec(
            old(state).pm_names(),
            author@,
        ),
        final(state).channels_view() == old(state).channels_view(),
        final(state).ids() == old(state).ids(),
        final(state).active_id() == old(state).active_id(),
        final(state).cap() == old(state).cap(),
        final(state).wf() == old(state).wf(),
{
    match message_type {
        ChatMessageType::Local => ChannelId::Local,
        ChatMessageType::Channel => ChannelId::Server(channel),
        ChatMessageType::Private => state.pm_tab(author),
    }
}

/// What to put on the wire for a message typed into a tab, and whether the client
/// must show its own copy.
#[derive(Debug)]
pub struct Outbound {
    pub target: SayTarget,
    /// True only for private messages: the server echoes local speech and channel
    /// messages back to their sender, but delivers a private message only to its
    /// recipient.
    pub echo: bool,
}

/// The outbound addressing of tab `id`. `None` for a private tab whose name this
/// client does not hold: a message sent to the wrong person is worse than one
/// that does not send.
pub fn outbound_for(state: &ChatState, id: ChannelId) -> (out: Option<Outbound>)
    ensures
        id == ChannelId::Local ==> (out matches Some(o) && o.target == SayTarget::Local && !o.echo),
        id matches ChannelId::Server(c) ==> (out matches Some(o) && o.target == SayTarget::Channel(c)
            && !o.echo),
        id matches ChannelId::Private(i) ==> if (i as int) < state.pm_names().len() {
            out matches Some(o) && o.echo && (o.target matches SayTarget::Player(name) && name@
                == state.pm_names()[i as int])
        } else {
            out is None
        },
{
    match id {
        ChannelId::Local => Some(Outbound { target: SayTarget::Local, echo: false }),
        ChannelId::Server(channel) => Some(
            Outbound { target: SayTarget::Channel(channel), echo: false },
        ),
        ChannelId::Private(_) => match state.pm_name(id) {
            Some(name) => Some(Outbound { target: SayTarget::Player(name.to_owned()), echo: true }),
            None => None,
        },
    }
}

/// Sends what the player typed into the active tab: returns where the `Say`
/// goes, or `None` when the tab cannot be addressed. A private message is also
/// shown at once, since the server will not echo it.
pub fn on_submit_chat_input(state: &mut ChatState, text: &str) -> (target: Option<SayTarget>)
    requires
        old(state).wf(),
        forall|k: int|
            0 <= k < old(state).channels_view().len() ==> #[trigger] old(state).channels_view()[k].next_sequence < u64::MAX,
    ensures
        final(state).available_view() == old(state).available_view(),
        final(state).wf(),
        final(state).ids() == old(state).ids(),
        final(state).active_id() == old(state).active_id(),
        final(state).pm_names() == old(state).pm_names(),
        old(state).active_id() == ChannelId::Local ==> target == Some(SayTarget::Local),
        old(state).active_id() matches ChannelId::Server(c) ==> target == Some(SayTarget::Channel(c)),
        old(state).active_id() matches ChannelId::Private(i) ==> if (i as int) < old(state).pm_names().len() {
            target matches Some(SayTarget::Player(name)) && name@ == old(state).pm_names()[i as int]
        } else {
            target is None
        },
        !(old(state).active_id() is Private && target is Some) ==> final(state).channels_view()
            == old(state).channels_view(),
        old(state).active_id() is Private && target is Some ==> forall|k: int|
            0 <= k < old(state).channels_view().len() ==> if old(state).ids()[k] == old(state).active_id() {
                appended_to(
                    old(state).channels_view()[k],
                    #[trigger] final(state).channels_view()[k],
                    (text@, Some(old(state).active_id()), None),
                    old(state).active_id(),
                    old(state).cap(),
                )
            } else {
                final(state).channels_view()[k] == old(state).channels_view()[k]
            },
{
    let active = state.active_channel();
    match outbound_for(state, active) {
        None => None,
        Some(out) => {
            if out.echo {
                let message = ChatMessage {
                    text: text.to_owned(),
                    channel_id: Some(active),
                    author: None,
                };
                on_append_chat_message(state, &message);
            }
            Some(out.target)
        },
    }
}

} // verus!
