use std::collections::VecDeque;

use vstd::prelude::*;

use crate::conf::HISTORY_CAP_DEFAULT;

verus! {

/// A moment on the local clock: seconds and nanoseconds since the Unix epoch,
/// and the local time zone's offset from UTC at that moment, in seconds.
#[derive(Clone, Copy, PartialEq, Eq, Debug, Structural)]
pub struct Timestamp {
    pub unix_secs: i64,
    pub subsec_nanos: u32,
    pub utc_offset_secs: i32,
}

/// The wall-clock time in the machine's time zone. Calls `chrono::Local::now`
/// and reads the moment's Unix seconds, sub-second nanoseconds and UTC offset
/// off it; what comes back is the clock, so nothing is stated of it.
#[verifier::external_body]
fn local_now() -> Timestamp {
    let now = chrono::Local::now();
    Timestamp {
        unix_secs: now.timestamp(),
        subsec_nanos: now.timestamp_subsec_nanos(),
        utc_offset_secs: now.offset().local_minus_utc(),
    }
}

#[derive(Clone, Copy, PartialEq, Eq, Hash, Debug, Structural)]
pub enum ChannelId {
    /// Local speech: everything said in range. Always open, never closeable.
    Local,
    /// A server channel, keyed by the id from the server's channel list.
    Server(u16),
    /// A private conversation, keyed by an index this client mints into its list of
    /// correspondents. The server never sees it: it addresses everyone by name.
    Private(u16),
}

/// A text colour as 8-bit sRGB channels.
#[derive(Clone, Copy, PartialEq, Eq, Debug, Structural)]
pub struct TextColor {
    pub r: u8,
    pub g: u8,
    pub b: u8,
}

/// The colour local speech and every channel's text is drawn in.
pub open spec fn spec_local_channel_color() -> TextColor {
    TextColor { r: 240, g: 240, b: 0 }
}

pub fn local_channel_color() -> (c: TextColor)
    ensures
        c == spec_local_channel_color(),
{
    TextColor { r: 240, g: 240, b: 0 }
}

#[derive(Clone, Debug)]
pub struct ChannelConfig {
    pub id: ChannelId,
    pub name: String,
    pub closeable: bool,
    pub text_color: TextColor,
}

#[derive(Debug)]
pub struct ChatMessage {
    pub text: String,
    pub channel_id: Option<ChannelId>,
    /// Resolved at append time, not render time. `None` for lines the client makes.
    pub author: Option<String>,
}

#[derive(Debug)]
pub struct StoredMessage {
    pub timestamp: Timestamp,
    pub sequence: u64,
    pub message: ChatMessage,
}

#[derive(Debug)]
pub struct Channel {
    pub config: ChannelConfig,
    pub messages: VecDeque<StoredMessage>,
    pub unread: bool,
    pub scroll_pinned_bottom: bool,
    pub next_sequence: u64,
}

impl Channel {
    pub fn new(config: ChannelConfig) -> (c: Channel)
        ensures
            c.config == config,
            c.messages@.len() == 0,
            !c.unread,
            c.scroll_pinned_bottom,
            c.next_sequence == 0,
    {
        Channel {
            config,
            messages: VecDeque::new(),
            unread: false,
            scroll_pinned_bottom: true,
            next_sequence: 0,
        }
    }
}

/// The byte ASCII lower-cases to; every other byte is itself.
pub open spec fn ascii_lower(b: u8) -> u8 {
    if 65 <= b <= 90 {
        (b + 32) as u8
    } else {
        b
    }
}

/// Two names are one correspondent when their UTF-8 bytes match with ASCII
/// letters compared case-insensitively.
pub open spec fn same_name(a: Seq<char>, b: Seq<char>) -> bool {
    let x = vstd::utf8::encode_utf8(a);
    let y = vstd::utf8::encode_utf8(b);
    &&& x.len() == y.len()
    &&& forall|i: int| 0 <= i < x.len() ==> #[trigger] ascii_lower(x[i]) == ascii_lower(y[i])
}

/// The first known name that matches `name`, if any.
pub open spec fn first_match(names: Seq<Seq<char>>, name: Seq<char>) -> Option<nat>
    decreases names.len(),
{
    if names.len() == 0 {
        None
    } else {
        match first_match(names.drop_last(), name) {
            Some(i) => Some(i),
            None => if same_name(names.last(), name) {
                Some((names.len() - 1) as nat)
            } else {
                None
            },
        }
    }
}

/// The correspondents after asking for `name`'s tab, and the tab: a known name
/// keeps its index, a new one is appended. The id carries the index as a `u16`.
pub open spec fn pm_tab_spec(names: Seq<Seq<char>>, name: Seq<char>) -> (Seq<Seq<char>>, ChannelId) {
    match first_match(names, name) {
        Some(i) => (names, ChannelId::Private(i as u16)),
        None => (names.push(name), ChannelId::Private(names.len() as u16)),
    }
}

/// Whether two strings are the same name; see [`same_name`].
fn names_match(a: &str, b: &str) -> (m: bool)
    ensures
        m == same_name(a@, b@),
{
    let x = a.as_bytes();
    let y = b.as_bytes();
    if x.len() != y.len() {
        return false;
    }
    let mut i: usize = 0;
    while i < x.len()
        invariant
            x@ == vstd::utf8::encode_utf8(a@),
            y@ == vstd::utf8::encode_utf8(b@),
            x@.len() == y@.len(),
            i <= x@.len(),
            forall|k: int| 0 <= k < i ==> #[trigger] ascii_lower(x@[k]) == ascii_lower(y@[k]),
        decreases x@.len() - i,
    {
        let p = x[i];
        let q = y[i];
        let lp = if 65 <= p && p <= 90 {
            p + 32
        } else {
            p
        };
        let lq = if 65 <= q && q <= 90 {
            q + 32
        } else {
            q
        };
        if lp != lq {
            assert(ascii_lower(x@[i as int]) != ascii_lower(y@[i as int]));
            return false;
        }
        i = i + 1;
    }
    true
}

pub open spec fn channel_ids(channels: Seq<Channel>) -> Seq<ChannelId> {
    channels.map_values(|c: Channel| c.config.id)
}

#[derive(Debug)]
pub struct ChatState {
    pub channels: Vec<Channel>,
    pub active: ChannelId,
    pub history_cap: usize,
    pub available: Vec<ChannelConfig>,
    /// Correspondent names, in the order first heard from. A private tab's index
    /// points into this, so it only ever grows: removing a name would renumber
    /// every tab after it.
    pm_names: Vec<String>,
}

pub fn local_channel_config() -> (c: ChannelConfig)
    ensures
        c.id == ChannelId::Local,
        c.name@ == seq!['L', 'o', 'c', 'a', 'l'],
        !c.closeable,
        c.text_color == spec_local_channel_color(),
{
    let name = String::from_str("Local");
    proof {
        reveal_strlit("Local");
    }
    ChannelConfig {
        id: ChannelId::Local,
        name,
        closeable: false,
        text_color: local_channel_color(),
    }
}

impl ChatState {
    /// The correspondents' names, oldest first.
    pub closed spec fn pm_names(&self) -> Seq<Seq<char>> {
        self.pm_names@.map_values(|s: String| s@)
    }

    pub closed spec fn ids(&self) -> Seq<ChannelId> {
        channel_ids(self.channels@)
    }

    pub closed spec fn channels_view(&self) -> Seq<Channel> {
        self.channels@
    }

    pub closed spec fn active_id(&self) -> ChannelId {
        self.active
    }

    pub closed spec fn cap(&self) -> usize {
        self.history_cap
    }

    /// Every tab at most once, local speech always open and never closeable, and
    /// the active tab one of the open ones.
    pub closed spec fn wf(&self) -> bool {
        let ids = channel_ids(self.channels@);
        &&& forall|i: int, j: int| 0 <= i < j < ids.len() ==> ids[i] != ids[j]
        &&& ids.contains(ChannelId::Local)
        &&& forall|i: int|
            0 <= i < ids.len() && #[trigger] ids[i] == ChannelId::Local ==> !self.channels@[i].config.closeable
        &&& ids.contains(self.active)
    }

    pub fn default() -> (s: ChatState)
        ensures
            s.wf(),
            s.ids() == seq![ChannelId::Local],
            s.active_id() == ChannelId::Local,
            s.cap() == HISTORY_CAP_DEFAULT,
            s.pm_names() == Seq::<Seq<char>>::empty(),
            s.channels_view()[0].messages@.len() == 0,
    {
        let mut channels = Vec::new();
        channels.push(Channel::new(local_channel_config()));
        let s = ChatState {
            channels,
            active: ChannelId::Local,
            history_cap: HISTORY_CAP_DEFAULT,
            available: Vec::new(),
            pm_names: Vec::new(),
        };
        proof {
            assert(channel_ids(s.channels@) =~= seq![ChannelId::Local]);
            assert(channel_ids(s.channels@)[0] == ChannelId::Local);
            assert(s.pm_names@.map_values(|n: String| n@) =~= Seq::<Seq<char>>::empty());
        }
        s
    }

    /// The index of the open tab `id`, if it is open.
    fn position(&self, id: ChannelId) -> (p: Option<usize>)
        ensures
            p matches Some(i) ==> i < self.channels@.len() && self.channels@[i as int].config.id
                == id,
            p is None <==> !channel_ids(self.channels@).contains(id),
            p matches Some(i) ==> forall|j: int| 0 <= j < i ==> #[trigger] channel_ids(self.channels@)[j] != id,
    {
        let mut i: usize = 0;
        while i < self.channels.len()
            invariant
                i <= self.channels@.len(),
                forall|j: int| 0 <= j < i ==> #[trigger] self.channels@[j].config.id != id,
            decreases self.channels@.len() - i,
        {
            if self.channels[i].config.id == id {
                assert(channel_ids(self.channels@)[i as int] == id);
                return Some(i);
            }
            i = i + 1;
        }
        proof {
            assert forall|k: int| 0 <= k < channel_ids(self.channels@).len() implies channel_ids(
                self.channels@,
            )[k] != id by {
                assert(self.channels@[k].config.id != id);
            }
        }
        None
    }

    pub fn channel(&self, id: ChannelId) -> (c: Option<&Channel>)
        ensures
            c is None <==> !self.ids().contains(id),
            c matches Some(ch) ==> ch.config.id == id && self.channels_view().contains(*ch),
    {
        match self.position(id) {
            Some(i) => Some(&self.channels[i]),
            None => None,
        }
    }

    pub fn active_channel(&self) -> (id: ChannelId)
        ensures
            id == self.active_id(),
    {
        self.active
    }

    pub fn is_open(&self, id: ChannelId) -> (b: bool)
        ensures
            b == self.ids().contains(id),
    {
        self.position(id).is_some()
    }

    /// The private tab for `name`, minting one if this is the first we have heard
    /// of them. Matched case-insensitively, so a name typed in lower case and the
    /// name as the server spells it share one tab.
    pub fn pm_tab(&mut self, name: &str) -> (id: ChannelId)
        ensures
            final(self).available_view() == old(self).available_view(),
            (final(self).pm_names(), id) == pm_tab_spec(old(self).pm_names(), name@),
            final(self).channels_view() == old(self).channels_view(),
            final(self).ids() == old(self).ids(),
            final(self).active_id() == old(self).active_id(),
            final(self).cap() == old(self).cap(),
            final(self).wf() == old(self).wf(),
    {
        let ghost names = self.pm_names();
        let mut i: usize = 0;
        while i < self.pm_names.len()
            invariant
                names == self.pm_names(),
                i <= self.pm_names@.len(),
                first_match(names.take(i as int), name@) is None,
            decreases self.pm_names@.len() - i,
        {
            proof {
                assert(names.take(i as int + 1).drop_last() =~= names.take(i as int));
            }
            if names_match(self.pm_names[i].as_str(), name) {
                proof {
                    lemma_first_match_extends(names, name@, i as int);
                }
                return ChannelId::Private(i as u16);
            }
            i = i + 1;
        }
        proof {
            assert(names.take(i as int) =~= names);
        }
        self.pm_names.push(name.to_owned());
        proof {
            assert(self.pm_names() =~= names.push(name@));
        }
        ChannelId::Private((self.pm_names.len() - 1) as u16)
    }

    /// The correspondent behind a private tab, if this client minted it.
    pub fn pm_name(&self, id: ChannelId) -> (n: Option<&str>)
        ensures
            (match id {
                ChannelId::Private(i) => if (i as int) < self.pm_names().len() {
                    n matches Some(s) && s@ == self.pm_names()[i as int]
                } else {
                    n is None
                },
                _ => n is None,
            }),
    {
        match id {
            ChannelId::Private(index) => {
                if (index as usize) < self.pm_names.len() {
                    Some(self.pm_names[index as usize].as_str())
                } else {
                    None
                }
            },
            _ => None,
        }
    }
}

/// Once a name matched at `i` with none before, the first match in any longer
/// list is still `i`.
proof fn lemma_first_match_extends(names: Seq<Seq<char>>, name: Seq<char>, i: int)
    requires
        0 <= i < names.len(),
        first_match(names.take(i), name) is None,
        same_name(names[i], name),
    ensures
        first_match(names, name) == Some(i as nat),
    decreases names.len() - i,
{
    if names.len() == i + 1 {
        assert(names.drop_last() =~= names.take(i));
    } else {
        assert(names.drop_last().take(i) =~= names.take(i));
        lemma_first_match_extends(names.drop_last(), name, i);
    }
}

/// Makes `id` the active tab, if it is open: its unread mark clears and its view
/// scrolls back to the newest line. A tab that is not open changes nothing.
pub fn on_activate_channel(state: &mut ChatState, id: ChannelId)
    requires
        old(state).wf(),
    ensures
        final(state).available_view() == old(state).available_view(),
        !old(state).ids().contains(id) ==> final(state).channels_view() == old(state).channels_view()
            && final(state).active_id() == old(state).active_id(),
        old(state).ids().contains(id) ==> final(state).active_id() == id,
        final(state).ids() == old(state).ids(),
        forall|k: int|
            0 <= k < old(state).channels_view().len() ==> #[trigger] final(state).channels_view()[k]
                == if old(state).ids()[k] == id {
                Channel { unread: false, scroll_pinned_bottom: true, ..old(state).channels_view()[k] }
            } else {
                old(state).channels_view()[k]
            },
        final(state).pm_names() == old(state).pm_names(),
        final(state).cap() == old(state).cap(),
        final(state).wf(),
{
    match state.position(id) {
        None => {
            proof {
                assert forall|k: int| 0 <= k < old(state).channels@.len() implies old(state).channels@[k].config.id != id by {
                    assert(channel_ids(old(state).channels@)[k] == old(state).channels@[k].config.id);
                }
            }
        },
        Some(i) => {
            proof {
                assert forall|k: int| 0 <= k < old(state).channels@.len() && k != i implies old(state).channels@[k].config.id != id by {
                    assert(channel_ids(old(state).channels@)[k] == old(state).channels@[k].config.id);
                    assert(channel_ids(old(state).channels@)[i as int] == old(state).channels@[i as int].config.id);
                }
            }
            state.active = id;
            state.channels[i].unread = false;
            state.channels[i].scroll_pinned_bottom = true;
            proof {
                assert(channel_ids(state.channels@) =~= channel_ids(old(state).channels@));
            }
        },
    }
}

/// Opens the tab `config` describes and makes it active. A tab already open is
/// only activated. Returns whether a tab was added, which is when the tab strip
/// has to be rebuilt.
pub fn on_open_channel(state: &mut ChatState, config: ChannelConfig) -> (added: bool)
    requires
        old(state).wf(),
    ensures
        final(state).available_view() == old(state).available_view(),
        final(state).wf(),
        added == !old(state).ids().contains(config.id),
        final(state).active_id() == config.id,
        !added ==> final(state).ids() == old(state).ids() && forall|k: int|
            0 <= k < old(state).channels_view().len() ==> #[trigger] final(state).channels_view()[k]
                == if old(state).ids()[k] == config.id {
                Channel { unread: false, scroll_pinned_bottom: true, ..old(state).channels_view()[k] }
            } else {
                old(state).channels_view()[k]
            },
        added ==> final(state).channels_view().len() == old(state).channels_view().len() + 1
            && final(state).channels_view().drop_last() == old(state).channels_view() && ({
            let c = final(state).channels_view().last();
            &&& c.config == config
            &&& c.messages@.len() == 0
            &&& !c.unread
            &&& c.scroll_pinned_bottom
            &&& c.next_sequence == 0
        }),
        final(state).pm_names() == old(state).pm_names(),
        final(state).cap() == old(state).cap(),
{
    let id = config.id;
    if state.is_open(id) {
        on_activate_channel(state, id);
        return false;
    }
    let ghost before = state.channels@;
    state.channels.push(Channel::new(config));
    proof {
        assert(channel_ids(state.channels@) =~= channel_ids(before).push(id));
        assert(channel_ids(state.channels@)[before.len() as int] == id);
        assert forall|k: int| 0 <= k < before.len() implies #[trigger] channel_ids(before)[k] != id by {
        }
        assert(state.channels@.drop_last() =~= before);
        let ids = channel_ids(state.channels@);
        let ids0 = channel_ids(before);
        assert forall|a: int, b: int| 0 <= a < b < ids.len() implies ids[a] != ids[b] by {
            if b == before.len() {
                assert(ids[a] == ids0[a]);
            } else {
                assert(ids[a] == ids0[a] && ids[b] == ids0[b]);
            }
        }
        let li = ids0.index_of(ChannelId::Local);
        assert(ids[li] == ChannelId::Local);
        let ai = ids0.index_of(state.active);
        assert(ids[ai] == state.active);
        assert forall|k: int| 0 <= k < ids.len() && #[trigger] ids[k] == ChannelId::Local implies !state.channels@[k].config.closeable by {
            if k < before.len() {
                assert(ids0[k] == ChannelId::Local);
            }
        }
    }
    on_activate_channel(state, id);
    proof {
        assert(final(state).channels_view().drop_last() =~= before) by {
            assert forall|k: int| 0 <= k < before.len() implies final(state).channels_view()[k]
                == before[k] by {
                assert(channel_ids(before)[k] != id);
                assert(channel_ids(before)[k] == before[k].config.id);
            }
        }
    }
    true
}

/// Closes a closeable open tab; the local tab never closes. Closing the active
/// tab makes local speech active. Returns whether a tab was closed.
pub fn on_close_channel(state: &mut ChatState, id: ChannelId) -> (closed: bool)
    requires
        old(state).wf(),
    ensures
        final(state).available_view() == old(state).available_view(),
        final(state).wf(),
        closed == (old(state).ids().contains(id) && old(state).channels_view()[old(state).ids().index_of(id)].config.closeable),
        !closed ==> final(state).channels_view() == old(state).channels_view() && final(state).active_id() == old(state).active_id(),
        closed ==> id != ChannelId::Local,
        closed ==> final(state).ids() == old(state).ids().remove(old(state).ids().index_of(id)),
        closed && old(state).active_id() == id ==> final(state).active_id() == ChannelId::Local,
        closed && old(state).active_id() != id ==> final(state).active_id() == old(state).active_id()
            && final(state).channels_view() == old(state).channels_view().remove(
            old(state).ids().index_of(id),
        ),
        final(state).pm_names() == old(state).pm_names(),
        final(state).cap() == old(state).cap(),
{
    let ghost ids0 = channel_ids(state.channels@);
    match state.position(id) {
        None => {
            return false;
        },
        Some(i) => {
            proof {
                assert(ids0[i as int] == id);
                assert(ids0.contains(id));
                let j = ids0.index_of(id);
                assert(ids0[j] == id);
                assert(j == i);
            }
            if !state.channels[i].config.closeable {
                return false;
            }
            let was_active = state.active == id;
            let ghost before = state.channels@;
            state.channels.remove(i);
            proof {
                assert(channel_ids(state.channels@) =~= ids0.remove(i as int));
                assert(id != ChannelId::Local);
                let li = ids0.index_of(ChannelId::Local);
                if li < i {
                    assert(channel_ids(state.channels@)[li] == ChannelId::Local);
                } else {
                    assert(li != i);
                    assert(channel_ids(state.channels@)[li - 1] == ChannelId::Local);
                }
                assert forall|a: int, b: int|
                    0 <= a < b < channel_ids(state.channels@).len() implies channel_ids(
                    state.channels@,
                )[a] != channel_ids(state.channels@)[b] by {
                    let a0 = if a < i { a } else { a + 1 };
                    let b0 = if b < i { b } else { b + 1 };
                    assert(ids0[a0] != ids0[b0]);
                }
                assert forall|k: int|
                    0 <= k < channel_ids(state.channels@).len() && #[trigger] channel_ids(
                        state.channels@,
                    )[k] == ChannelId::Local implies !state.channels@[k].config.closeable by {
                    let k0 = if k < i { k } else { k + 1 };
                    assert(ids0[k0] == ChannelId::Local);
                }
                if !was_active {
                    let ai = ids0.index_of(state.active);
                    if ai < i {
                        assert(channel_ids(state.channels@)[ai] == state.active);
                    } else {
                        assert(ai != i);
                        assert(channel_ids(state.channels@)[ai - 1] == state.active);
                    }
                }
            }
            if was_active {
                state.active = ChannelId::Local;
                on_activate_channel(state, ChannelId::Local);
            }
            proof {
                assert(final(state).ids() =~= ids0.remove(i as int));
            }
            true
        },
    }
}

/// What one append did to one tab: the sequence number the new line took, and
/// the line that fell off the front to keep the tab within its history cap.
#[derive(Clone, Copy, PartialEq, Eq, Debug, Structural)]
pub struct Appended {
    pub channel_id: ChannelId,
    pub sequence: u64,
    pub trimmed: Option<u64>,
}

/// A message as its text, its tab and its author.
pub open spec fn message_view(m: &ChatMessage) -> (Seq<char>, Option<ChannelId>, Option<Seq<char>>) {
    (
        m.text@,
        m.channel_id,
        match m.author {
            Some(a) => Some(a@),
            None => None,
        },
    )
}

/// `stored` holds a copy of `message` under `sequence`.
pub open spec fn stores(
    stored: StoredMessage,
    message: (Seq<char>, Option<ChannelId>, Option<Seq<char>>),
    sequence: u64,
) -> bool {
    &&& stored.sequence == sequence
    &&& message_view(&stored.message) == message
}

/// A tab after `message` is appended to it: the line goes on the end under the
/// tab's next sequence number, the oldest line drops when that passes `cap`, and
/// the tab is marked unread unless it is the active one.
pub open spec fn appended_to(
    before: Channel,
    after: Channel,
    message: (Seq<char>, Option<ChannelId>, Option<Seq<char>>),
    active: ChannelId,
    cap: usize,
) -> bool {
    let grown: int = before.messages@.len() as int + 1;
    &&& after.config == before.config
    &&& after.scroll_pinned_bottom == before.scroll_pinned_bottom
    &&& after.next_sequence == before.next_sequence + 1
    &&& after.unread == (before.unread || before.config.id != active)
    &&& exists|m: StoredMessage| #[trigger]
        stores(m, message, before.next_sequence) && after.messages@ == if grown > cap {
            before.messages@.push(m).drop_first()
        } else {
            before.messages@.push(m)
        }
}

fn copy_message(message: &ChatMessage) -> (m: ChatMessage)
    ensures
        message_view(&m) == message_view(message),
{
    let author = match &message.author {
        Some(a) => Some(a.clone()),
        None => None,
    };
    ChatMessage { text: message.text.clone(), channel_id: message.channel_id, author }
}

impl ChatState {
    fn append_at(&mut self, k: usize, message: &ChatMessage) -> (r: Appended)
        requires
            old(self).wf(),
            k < old(self).channels@.len(),
            old(self).channels@[k as int].next_sequence < u64::MAX,
        ensures
            final(self).available@ == old(self).available@,
            final(self).wf(),
            final(self).channels@.len() == old(self).channels@.len(),
            appended_to(
                old(self).channels@[k as int],
                final(self).channels@[k as int],
                message_view(message),
                old(self).active,
                old(self).history_cap,
            ),
            forall|j: int|
                0 <= j < old(self).channels@.len() && j != k ==> #[trigger] final(self).channels@[j]
                    == old(self).channels@[j],
            final(self).active == old(self).active,
            final(self).history_cap == old(self).history_cap,
            final(self).pm_names@ == old(self).pm_names@,
            r.channel_id == old(self).channels@[k as int].config.id,
            r.sequence == old(self).channels@[k as int].next_sequence,
            r.trimmed is Some == (old(self).channels@[k as int].messages@.len() + 1
                > old(self).history_cap),
            r.trimmed matches Some(t) ==> t == if old(self).channels@[k as int].messages@.len() > 0 {
                old(self).channels@[k as int].messages@[0].sequence
            } else {
                old(self).channels@[k as int].next_sequence
            },
    {
        let cap = self.history_cap;
        let active = self.active;
        let mut channel = self.channels.remove(k);
        let sequence = channel.next_sequence;
        channel.next_sequence = channel.next_sequence + 1;
        let stored = StoredMessage { timestamp: local_now(), sequence, message: copy_message(message) };
        let ghost grown = channel.messages@.push(stored);
        channel.messages.push_back(stored);
        let mut trimmed: Option<u64> = None;
        if channel.messages.len() > cap {
            match channel.messages.pop_front() {
                Some(popped) => {
                    trimmed = Some(popped.sequence);
                },
                None => {},
            }
        }
        if channel.config.id != active {
            channel.unread = true;
        }
        let id = channel.config.id;
        let ghost ch = channel;
        self.channels.insert(k, channel);
        proof {
            assert(grown.len() > cap ==> ch.messages@ =~= grown.drop_first());
            assert(grown.len() <= cap ==> ch.messages@ =~= grown);
            assert(stores(stored, message_view(message), old(self).channels@[k as int].next_sequence));
            assert(channel_ids(self.channels@) =~= channel_ids(old(self).channels@));
        }
        Appended { channel_id: id, sequence, trimmed }
    }
}

/// Appends `message` to its tab, or, when it names none, to every open tab in
/// order. A tab it names that is not open takes nothing. Returns, per tab that
/// took the line, what happened there.
pub fn on_append_chat_message(state: &mut ChatState, message: &ChatMessage) -> (appended: Vec<
    Appended,
>)
    requires
        old(state).wf(),
        forall|k: int|
            0 <= k < old(state).channels_view().len() ==> #[trigger] old(state).channels_view()[k].next_sequence < u64::MAX,
    ensures
        final(state).available_view() == old(state).available_view(),
        final(state).wf(),
        final(state).ids() == old(state).ids(),
        final(state).active_id() == old(state).active_id(),
        final(state).pm_names() == old(state).pm_names(),
        final(state).cap() == old(state).cap(),
        forall|k: int|
            0 <= k < old(state).channels_view().len() ==> if message.channel_id is None
                || message.channel_id == Some(old(state).ids()[k]) {
                appended_to(
                    old(state).channels_view()[k],
                    #[trigger] final(state).channels_view()[k],
                    message_view(message),
                    old(state).active_id(),
                    old(state).cap(),
                )
            } else {
                final(state).channels_view()[k] == old(state).channels_view()[k]
            },
        message.channel_id matches Some(id) ==> appended@.len() == if old(state).ids().contains(id) {
            1int
        } else {
            0int
        },
        message.channel_id is None ==> appended@.len() == old(state).ids().len(),
        message.channel_id matches Some(id) ==> forall|i: int|
            0 <= i < appended@.len() ==> #[trigger] appended@[i].channel_id == id,
        message.channel_id is None ==> forall|i: int|
            0 <= i < appended@.len() ==> #[trigger] appended@[i].channel_id == old(state).ids()[i],
        forall|i: int|
            0 <= i < appended@.len() ==> old(state).ids().contains(#[trigger] appended@[i].channel_id),
{
    proof {
        assert forall|j: int| 0 <= j < old(state).channels@.len() implies #[trigger] old(state).channels@[j].next_sequence < u64::MAX by {
            assert(old(state).channels_view()[j] == old(state).channels@[j]);
        }
    }
    match message.channel_id {
        Some(id) => {
            let mut out: Vec<Appended> = Vec::new();
            match state.position(id) {
                Some(k) => {
                    let r = state.append_at(k, message);
                    out.push(r);
                    proof {
                        assert(old(state).ids().contains(id));
                        assert forall|j: int|
                            0 <= j < old(state).channels@.len() && j != k implies old(state).ids()[j] != id by {
                            assert(old(state).ids()[k as int] == id);
                        }
                        assert(channel_ids(state.channels@) =~= channel_ids(old(state).channels@));
                        assert(out@[0].channel_id == old(state).ids()[k as int]);
                    }
                },
                None => {
                    proof {
                        assert forall|j: int| 0 <= j < old(state).channels@.len() implies old(state).ids()[j] != id by {
                        }
                    }
                },
            }
            out
        },
        None => {
            let mut out: Vec<Appended> = Vec::new();
            let n = state.channels.len();
            let mut k: usize = 0;
            while k < n
                invariant
                    n == old(state).channels@.len(),
                    state.channels@.len() == n,
                    k <= n,
                    state.wf(),
                    state.active == old(state).active,
                    state.history_cap == old(state).history_cap,
                    state.pm_names@ == old(state).pm_names@,
                    state.available@ == old(state).available@,
                    channel_ids(state.channels@) == channel_ids(old(state).channels@),
                    message.channel_id is None,
                    forall|j: int|
                        0 <= j < k ==> appended_to(
                            old(state).channels@[j],
                            #[trigger] state.channels@[j],
                            message_view(message),
                            old(state).active,
                            old(state).history_cap,
                        ),
                    forall|j: int|
                        k <= j < n ==> #[trigger] state.channels@[j] == old(state).channels@[j],
                    forall|j: int|
                        0 <= j < n ==> #[trigger] old(state).channels@[j].next_sequence < u64::MAX,
                    out@.len() == k,
                    forall|i: int| 0 <= i < k ==> #[trigger] out@[i].channel_id == channel_ids(
                        old(state).channels@,
                    )[i],
                decreases n - k,
            {
                let r = state.append_at(k, message);
                out.push(r);
                proof {
                    assert(channel_ids(state.channels@) =~= channel_ids(old(state).channels@));
                }
                k = k + 1;
            }
            proof {
                assert forall|i: int| 0 <= i < out@.len() implies old(state).ids().contains(
                    #[trigger] out@[i].channel_id,
                ) by {
                    assert(old(state).ids()[i] == out@[i].channel_id);
                }
            }
            out
        },
    }
}

/// Appending never takes a tab past its history cap: a tab within the cap before
/// is within it after, and a full tab stays exactly full.
pub proof fn lemma_append_stays_within_cap(
    before: Channel,
    after: Channel,
    message: (Seq<char>, Option<ChannelId>, Option<Seq<char>>),
    active: ChannelId,
    cap: usize,
)
    requires
        appended_to(before, after, message, active, cap),
        before.messages@.len() <= cap,
    ensures
        after.messages@.len() <= cap,
        before.messages@.len() == cap ==> after.messages@.len() == cap,
        after.messages@.len() >= before.messages@.len() || cap == 0,
{
    let m = choose|m: StoredMessage| #[trigger]
        stores(m, message, before.next_sequence) && after.messages@ == if before.messages@.len() + 1
            > cap {
            before.messages@.push(m).drop_first()
        } else {
            before.messages@.push(m)
        };
}

proof fn lemma_same_name_is_equivalence(a: Seq<char>, b: Seq<char>, c: Seq<char>)
    ensures
        same_name(a, a),
        same_name(a, b) ==> same_name(b, a),
        same_name(a, b) && same_name(b, c) ==> same_name(a, c),
{
    if same_name(a, b) && same_name(b, c) {
        let x = vstd::utf8::encode_utf8(a);
        let y = vstd::utf8::encode_utf8(b);
        let z = vstd::utf8::encode_utf8(c);
        assert forall|i: int| 0 <= i < x.len() implies #[trigger] ascii_lower(x[i]) == ascii_lower(z[i]) by {
            assert(ascii_lower(x[i]) == ascii_lower(y[i]));
            assert(ascii_lower(y[i]) == ascii_lower(z[i]));
        }
    }
}

proof fn lemma_first_match_respects_names(names: Seq<Seq<char>>, a: Seq<char>, b: Seq<char>)
    requires
        same_name(a, b),
    ensures
        first_match(names, a) == first_match(names, b),
        first_match(names, a) matches Some(i) ==> i < names.len() && same_name(names[i as int], a),
        first_match(names, a) is None ==> forall|i: int| 0 <= i < names.len() ==> !same_name(#[trigger] names[i], a),
    decreases names.len(),
{
    if names.len() > 0 {
        lemma_first_match_respects_names(names.drop_last(), a, b);
        lemma_same_name_is_equivalence(names.last(), a, b);
        lemma_same_name_is_equivalence(names.last(), b, a);
        lemma_same_name_is_equivalence(a, b, names.last());
        lemma_same_name_is_equivalence(b, a, names.last());
        if first_match(names, a) is None {
            assert forall|i: int| 0 <= i < names.len() implies !same_name(#[trigger] names[i], a) by {
                if i < names.len() - 1 {
                    assert(names.drop_last()[i] == names[i]);
                }
            }
        }
    }
}

/// Asking for a correspondent's tab a second time, under the same name in any
/// ASCII capitalisation, gives the same tab and mints nothing.
pub proof fn lemma_pm_tab_is_stable(names: Seq<Seq<char>>, a: Seq<char>, b: Seq<char>)
    requires
        same_name(a, b),
    ensures
        pm_tab_spec(pm_tab_spec(names, a).0, b) == pm_tab_spec(names, a),
{
    lemma_first_match_respects_names(names, a, b);
    let n1 = pm_tab_spec(names, a).0;
    lemma_first_match_respects_names(n1, a, b);
    if first_match(names, a) is None {
        assert(n1.drop_last() =~= names);
        assert(n1.last() == a);
        lemma_same_name_is_equivalence(a, b, a);
        assert(first_match(n1, b) == Some(names.len() as nat));
    }
}

/// Two names that differ (beyond ASCII case) get two different tabs while
/// fewer than 65536 names are known; past that the minted index wraps in its
/// `u16`.
pub proof fn lemma_two_correspondents_two_tabs(names: Seq<Seq<char>>, a: Seq<char>, b: Seq<char>)
    requires
        !same_name(a, b),
        names.len() < 65536,
    ensures
        pm_tab_spec(pm_tab_spec(names, a).0, b).1 != pm_tab_spec(names, a).1,
{
    lemma_same_name_is_equivalence(a, a, a);
    lemma_first_match_respects_names(names, a, a);
    let n1 = pm_tab_spec(names, a).0;
    lemma_same_name_is_equivalence(b, b, b);
    lemma_first_match_respects_names(n1, b, b);
    lemma_first_match_respects_names(names, b, b);
    match first_match(names, a) {
        Some(i) => {
            match first_match(n1, b) {
                Some(j) => {
                    if i == j {
                        lemma_same_name_is_equivalence(names[i as int], a, b);
                        lemma_same_name_is_equivalence(a, names[i as int], b);
                    }
                },
                None => {},
            }
        },
        None => {
            assert(n1.drop_last() =~= names);
            match first_match(n1, b) {
                Some(j) => {
                    if j == names.len() {
                        lemma_same_name_is_equivalence(b, a, b);
                        lemma_same_name_is_equivalence(a, b, a);
                    }
                },
                None => {
                    if names.len() == 65535 {
                        let k: u32 = 65536;
                        assert(k as u16 == 0) by (bit_vector)
                            requires
                                k == 65536,
                        ;
                    }
                },
            }
        },
    }
}

proof fn lemma_first_match_is_first(names: Seq<Seq<char>>, a: Seq<char>, i: int)
    requires
        0 <= i,
        first_match(names, a) == Some(i as nat),
    ensures
        i < names.len(),
        forall|j: int| 0 <= j < i ==> !same_name(#[trigger] names[j], a),
    decreases names.len(),
{
    if names.len() > 0 {
        match first_match(names.drop_last(), a) {
            Some(k) => {
                lemma_first_match_is_first(names.drop_last(), a, i);
                assert forall|j: int| 0 <= j < i implies !same_name(#[trigger] names[j], a) by {
                    assert(names.drop_last()[j] == names[j]);
                }
            },
            None => {
                lemma_first_match_respects_names_none(names.drop_last(), a);
                assert forall|j: int| 0 <= j < i implies !same_name(#[trigger] names[j], a) by {
                    assert(names.drop_last()[j] == names[j]);
                }
            },
        }
    }
}

proof fn lemma_first_match_respects_names_none(names: Seq<Seq<char>>, a: Seq<char>)
    requires
        first_match(names, a) is None,
    ensures
        forall|j: int| 0 <= j < names.len() ==> !same_name(#[trigger] names[j], a),
{
    lemma_same_name_is_equivalence(a, a, a);
    lemma_first_match_respects_names(names, a, a);
}

/// A tab is the index of the first name heard that matches, in its `u16`:
/// the names already known keep their places, and a new name is kept as it was
/// first spelt, last.
pub proof fn lemma_pm_tab_is_the_first_mention(names: Seq<Seq<char>>, a: Seq<char>)
    ensures
        ({
            let (after, id) = pm_tab_spec(names, a);
            &&& after.take(names.len() as int) == names
            &&& exists|i: int| {
                &&& 0 <= i < after.len()
                &&& id == ChannelId::Private(i as u16)
                &&& same_name(after[i], a)
                &&& forall|j: int| 0 <= j < i ==> !same_name(#[trigger] after[j], a)
                &&& (i == names.len() ==> after[i] == a)
                &&& (names.len() < 65536 ==> i as u16 == i)
            }
        }),
{
    lemma_same_name_is_equivalence(a, a, a);
    lemma_first_match_respects_names(names, a, a);
    let (after, id) = pm_tab_spec(names, a);
    match first_match(names, a) {
        Some(i) => {
            assert(after.take(names.len() as int) =~= names);
            lemma_first_match_is_first(names, a, i as int);
            assert(same_name(after[i as int], a));
        },
        None => {
            assert(after.take(names.len() as int) =~= names);
            let i = names.len() as int;
            assert(after[i] == a);
            assert forall|j: int| 0 <= j < i implies !same_name(#[trigger] after[j], a) by {
                assert(after[j] == names[j]);
            }
        },
    }
}

/// While fewer than 65536 names are known, two names share a tab exactly when
/// they are the same name up to ASCII case.
pub proof fn lemma_pm_tabs_agree_exactly_for_the_same_name(names: Seq<Seq<char>>, a: Seq<char>, b: Seq<char>)
    requires
        names.len() < 65536,
    ensures
        (pm_tab_spec(pm_tab_spec(names, a).0, b).1 == pm_tab_spec(names, a).1) <==> same_name(a, b),
{
    if same_name(a, b) {
        lemma_pm_tab_is_stable(names, a, b);
    } else {
        lemma_two_correspondents_two_tabs(names, a, b);
    }
}

/// A state's tab ids are its tabs' ids, in order.
pub proof fn lemma_ids_of(s: &ChatState)
    ensures
        s.ids().len() == s.channels_view().len(),
        forall|k: int| 0 <= k < s.ids().len() ==> #[trigger] s.ids()[k] == s.channels_view()[k].config.id,
{
}

/// A tab config as its id, name, closeability and colour.
pub open spec fn config_view(c: ChannelConfig) -> (ChannelId, Seq<char>, bool, TextColor) {
    (c.id, c.name@, c.closeable, c.text_color)
}

/// The configs among `available` whose tabs are not open, in order.
pub open spec fn unopened(available: Seq<ChannelConfig>, open: Seq<ChannelId>) -> Seq<(ChannelId, Seq<char>, bool, TextColor)>
    decreases available.len(),
{
    if available.len() == 0 {
        Seq::empty()
    } else {
        let rest = unopened(available.drop_last(), open);
        if open.contains(available.last().id) {
            rest
        } else {
            rest.push(config_view(available.last()))
        }
    }
}

impl ChatState {
    pub closed spec fn available_view(&self) -> Seq<ChannelConfig> {
        self.available@
    }

    /// The server channels the channel list offers: those the server listed
    /// whose tabs are not open, in the server's order.
    pub fn channels_to_offer(&self) -> (offer: Vec<ChannelConfig>)
        ensures
            offer@.map_values(|c: ChannelConfig| config_view(c)) == unopened(self.available_view(), self.ids()),
    {
        let mut out: Vec<ChannelConfig> = Vec::new();
        let mut i: usize = 0;
        while i < self.available.len()
            invariant
                i <= self.available@.len(),
                out@.map_values(|c: ChannelConfig| config_view(c)) == unopened(self.available@.take(i as int), channel_ids(self.channels@)),
            decreases self.available@.len() - i,
        {
            proof {
                assert(self.available@.take(i as int + 1).drop_last() =~= self.available@.take(i as int));
            }
            let c = &self.available[i];
            if !self.is_open(c.id) {
                let ghost before = out@;
                out.push(ChannelConfig { id: c.id, name: c.name.clone(), closeable: c.closeable, text_color: c.text_color });
                proof {
                    assert(out@.map_values(|c: ChannelConfig| config_view(c)) =~= before.map_values(|c: ChannelConfig| config_view(c)).push(config_view(*c)));
                }
            }
            i = i + 1;
        }
        proof {
            assert(self.available@.take(i as int) =~= self.available@);
        }
        out
    }

    /// Replaces the channels the server offers.
    pub fn set_available(&mut self, available: Vec<ChannelConfig>)
        ensures
            final(self).available_view() == available@,
            final(self).channels_view() == old(self).channels_view(),
            final(self).ids() == old(self).ids(),
            final(self).active_id() == old(self).active_id(),
            final(self).pm_names() == old(self).pm_names(),
            final(self).cap() == old(self).cap(),
            final(self).wf() == old(self).wf(),
    {
        self.available = available;
    }
}

} // verus!
