use vstd::prelude::*;

verus! {

/// The two kinds of server text shown over the game view.
#[derive(Debug, Clone, Copy, PartialEq, Eq, Structural)]
pub enum TextMessageType {
    ActionDenied,
    Look,
}

#[derive(Debug, Clone, Copy, PartialEq, Eq, Structural)]
pub enum ChatMessageType {
    Local,
    Private,
    Channel,
}

/// Who an outbound `Say` is addressed to: one discriminant, so a channel id and a
/// recipient cannot be confused.
#[derive(Clone, Debug, PartialEq, Eq)]
pub enum SayTarget {
    Local,
    Channel(u16),
    Player(String),
}

impl SayTarget {
    pub fn message_type(&self) -> (t: ChatMessageType)
        ensures
            t == match self {
                SayTarget::Local => ChatMessageType::Local,
                SayTarget::Channel(_) => ChatMessageType::Channel,
                SayTarget::Player(_) => ChatMessageType::Private,
            },
    {
        match self {
            SayTarget::Local => ChatMessageType::Local,
            SayTarget::Channel(_) => ChatMessageType::Channel,
            SayTarget::Player(_) => ChatMessageType::Private,
        }
    }
}

pub open spec fn spec_text_message_ms(t: TextMessageType) -> u64 {
    match t {
        TextMessageType::ActionDenied => 2000,
        TextMessageType::Look => 5000,
    }
}

/// A text message on screen, with the time it has been shown. A new message
/// replaces the one of its own kind.
#[derive(Debug, Clone, Copy, PartialEq, Eq, Structural)]
pub struct TextMessage {
    pub message_type: TextMessageType,
    pub elapsed_ms: u64,
}

impl TextMessage {
    pub fn new(message_type: TextMessageType) -> (m: TextMessage)
        ensures
            m == (TextMessage { message_type, elapsed_ms: 0 }),
    {
        TextMessage { message_type, elapsed_ms: 0 }
    }

    /// How long this kind of message stays: a denial two seconds, a look five.
    pub fn lifetime_ms(&self) -> (ms: u64)
        ensures
            ms == spec_text_message_ms(self.message_type),
    {
        match self.message_type {
            TextMessageType::ActionDenied => 2000,
            TextMessageType::Look => 5000,
        }
    }

    /// Whether a message of `incoming`'s kind takes this one's place.
    pub fn replaced_by(&self, incoming: TextMessageType) -> (b: bool)
        ensures
            b == (self.message_type == incoming),
    {
        self.message_type == incoming
    }

    /// Runs the message's clock on by `delta_ms`; true once its time is up.
    pub fn tick(&mut self, delta_ms: u64) -> (done: bool)
        ensures
            final(self).message_type == old(self).message_type,
            final(self).elapsed_ms == if old(self).elapsed_ms + delta_ms > spec_text_message_ms(
                old(self).message_type,
            ) {
                spec_text_message_ms(old(self).message_type) as int
            } else {
                old(self).elapsed_ms + delta_ms
            },
            done == (final(self).elapsed_ms >= spec_text_message_ms(old(self).message_type)),
    {
        let life = self.lifetime_ms();
        self.elapsed_ms = if delta_ms > life || self.elapsed_ms > life - delta_ms {
            life
        } else {
            self.elapsed_ms + delta_ms
        };
        self.elapsed_ms >= life
    }
}

} // verus!
