use vstd::prelude::*;

use crate::chat::messages::ChatMessageType;
use crate::chat::routing::channel_for;
use crate::chat::state::{
    appended_to, lemma_ids_of, local_channel_color, message_view, on_append_chat_message, on_open_channel, pm_tab_spec,
    spec_local_channel_color, config_view, Appended, Channel, ChannelConfig, ChannelId, ChatMessage, ChatState,
};

verus! {

/// The server's channel list as tabs the player may open: each closeable, in
/// the local text colour, in the order listed.
pub fn on_channel_list_received(channels: &Vec<(u16, String)>) -> (available: Vec<ChannelConfig>)
    ensures
        available@.len() == channels@.len(),
        forall|i: int|
            0 <= i < channels@.len() ==> {
                let c = #[trigger] available@[i];
                &&& c.id == ChannelId::Server(channels@[i].0)
                &&& c.name@ == channels@[i].1@
                &&& c.closeable
                &&& c.text_color == spec_local_channel_color()
            },
{
    let mut out: Vec<ChannelConfig> = Vec::new();
    let mut i: usize = 0;
    while i < channels.len()
        invariant
            i <= channels@.len(),
            out@.len() == i,
            forall|k: int|
                0 <= k < i ==> {
                    let c = #[trigger] out@[k];
                    &&& c.id == ChannelId::Server(channels@[k].0)
                    &&& c.name@ == channels@[k].1@
                    &&& c.closeable
                    &&& c.text_color == spec_local_channel_color()
                },
        decreases channels@.len() - i,
    {
        let (id, name) = &channels[i];
        out.push(
            ChannelConfig {
                id: ChannelId::Server(*id),
                name: name.clone(),
                closeable: true,
                text_color: local_channel_color(),
            },
        );
        i = i + 1;
    }
    out
}

/// Opens, and makes active, the private tab for a conversation the player asked
/// to start. Returns whether a tab was added.
pub fn on_private_chat_opened(state: &mut ChatState, name: &str) -> (added: bool)
    requires
        old(state).wf(),
    ensures
        final(state).available_view() == old(state).available_view(),
        final(state).wf(),
        final(state).pm_names() == pm_tab_spec(old(state).pm_names(), name@).0,
        final(state).active_id() == pm_tab_spec(old(state).pm_names(), name@).1,
        added == !old(state).ids().contains(pm_tab_spec(old(state).pm_names(), name@).1),
        final(state).cap() == old(state).cap(),
        !added ==> final(state).ids() == old(state).ids() && forall|k: int|
            0 <= k < old(state).channels_view().len() ==> #[trigger] final(state).channels_view()[k]
                == if old(state).ids()[k] == pm_tab_spec(old(state).pm_names(), name@).1 {
                Channel { unread: false, scroll_pinned_bottom: true, ..old(state).channels_view()[k] }
            } else {
                old(state).channels_view()[k]
            },
        added ==> final(state).channels_view().len() == old(state).channels_view().len() + 1
            && final(state).channels_view().drop_last() == old(state).channels_view() && ({
            let c = final(state).channels_view().last();
            &&& config_view(c.config) == (
                pm_tab_spec(old(state).pm_names(), name@).1,
                name@,
                true,
                spec_local_channel_color(),
            )
            &&& c.messages@.len() == 0
            &&& !c.unread
            &&& c.scroll_pinned_bottom
            &&& c.next_sequence == 0
        }),
{
    let id = state.pm_tab(name);
    on_open_channel(
        state,
        ChannelConfig {
            id,
            name: name.to_owned(),
            closeable: true,
            text_color: local_channel_color(),
        },
    )
}

/// What an inbound chat message did: whether it opened a tab, whether it also
/// floats over the speaker's tile, and the line it appended.
pub struct Received {
    pub opened: bool,
    pub show_floating_text: bool,
    pub appended: Vec<Appended>,
}

/// Routes an inbound chat message. A private message from someone with no open
/// tab opens one, made active; a message for a closed channel tab (a race with
/// closing it) is dropped, giving `None`. Local speech with a position also
/// floats over the speaker. The line is appended to its tab, authored.
pub fn on_chat_message_received(
    state: &mut ChatState,
    message_type: ChatMessageType,
    channel: u16,
    author: &str,
    text: &str,
    has_position: bool,
) -> (received: Option<Received>)
    requires
        old(state).wf(),
        forall|k: int|
            0 <= k < old(state).channels_view().len() ==> #[trigger] old(state).channels_view()[k].next_sequence < u64::MAX,
    ensures
        final(state).available_view() == old(state).available_view(),
        final(state).wf(),
        ({
            let id = match message_type {
                ChatMessageType::Local => ChannelId::Local,
                ChatMessageType::Channel => ChannelId::Server(channel),
                ChatMessageType::Private => pm_tab_spec(old(state).pm_names(), author@).1,
            };
            &&& received is None <==> (message_type != ChatMessageType::Private && !old(state).ids().contains(id))
            &&& received is None ==> final(state).channels_view() == old(state).channels_view()
                && final(state).active_id() == old(state).active_id()
            &&& received matches Some(r) ==> {
                &&& r.opened == (message_type == ChatMessageType::Private && !old(state).ids().contains(id))
                &&& r.opened ==> final(state).active_id() == id
                &&& !r.opened ==> final(state).active_id() == old(state).active_id()
                &&& r.show_floating_text == (message_type == ChatMessageType::Local
                    && has_position)
                &&& r.appended@.len() == 1
                &&& r.appended@[0].channel_id == id
                &&& final(state).ids().contains(id)
                &&& forall|k: int|
                    0 <= k < old(state).channels_view().len() && old(state).ids()[k] == id
                        ==> appended_to(
                        old(state).channels_view()[k],
                        #[trigger] final(state).channels_view()[k],
                        (text@, Some(id), Some(author@)),
                        old(state).active_id(),
                        old(state).cap(),
                    )
            }
        }),
        message_type == ChatMessageType::Private ==> final(state).pm_names() == pm_tab_spec(
            old(state).pm_names(),
            author@,
        ).0,
        message_type != ChatMessageType::Private ==> final(state).pm_names() == old(state).pm_names(),
{
    let id = channel_for(state, message_type, channel, author);
    let mut opened = false;
    let is_private = match id {
        ChannelId::Private(_) => true,
        _ => false,
    };
    if is_private && !state.is_open(id) {
        opened = on_open_channel(
            state,
            ChannelConfig {
                id,
                name: author.to_owned(),
                closeable: true,
                text_color: local_channel_color(),
            },
        );
    } else if !state.is_open(id) {
        assert(message_type != ChatMessageType::Private);
        return None;
    }
    let show_floating_text = match message_type {
        ChatMessageType::Local => has_position,
        _ => false,
    };
    let ghost mid = *state;
    proof {
        lemma_ids_of(&*state);
        lemma_ids_of(old(state));
        if opened {
            assert(state.ids()[state.ids().len() - 1] == id);
        }
        assert(state.ids().contains(id));
        assert forall|k: int| 0 <= k < state.channels_view().len() implies #[trigger] state.channels_view()[k].next_sequence
            < u64::MAX by {
            if k < old(state).channels_view().len() {
                if !opened {
                } else {
                    assert(state.channels_view().drop_last()[k] == old(state).channels_view()[k]);
                }
            }
        }
    }
    let message = ChatMessage {
        text: text.to_owned(),
        channel_id: Some(id),
        author: Some(author.to_owned()),
    };
    let appended = on_append_chat_message(state, &message);
    proof {
        assert(message_view(&message) == (text@, Some(id), Some(author@)));
        if opened {
            assert forall|k: int| 0 <= k < old(state).channels_view().len() implies old(state).ids()[k] != id by {
                assert(!old(state).ids().contains(id));
            }
        } else {
            assert(mid.channels_view() == old(state).channels_view());
            assert(mid.ids() == old(state).ids());
        }
        assert(appended@.len() == 1);
        assert(appended@[0].channel_id == id);
        assert(state.ids().contains(id));
        assert(opened ==> state.active_id() == id);
        assert(!opened ==> state.active_id() == old(state).active_id());
    }
    Some(Received { opened, show_floating_text, appended })
}

} // verus!
