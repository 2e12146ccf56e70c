//! Chat messages: a text together with the role that uttered it.

use vstd::prelude::*;

verus! {

/// Who uttered a message.
#[derive(Debug, Clone, Copy, PartialEq, Eq, Structural)]
pub enum MessageSource {
    System,
    Assistant,
    User,
}

/// A chat message with its role.
#[derive(Debug)]
pub struct Message {
    pub text: String,
    pub source: MessageSource,
}

/// What a message is: its characters and its role.
pub struct MessageView {
    pub text: Seq<char>,
    pub source: MessageSource,
}

impl View for Message {
    type V = MessageView;

    open spec fn view(&self) -> MessageView {
        MessageView { text: self.text@, source: self.source }
    }
}

/// The views of a sequence of messages, in the same order.
pub open spec fn views(messages: Seq<Message>) -> Seq<MessageView> {
    Seq::new(messages.len(), |i: int| messages[i]@)
}

impl Clone for Message {
    fn clone(&self) -> (copy: Self)
        ensures
            copy == *self,
    {
        Message { text: self.text.clone(), source: self.source }
    }
}

impl Message {
    /// A message with the given text and role.
    pub fn new(text: &str, source: MessageSource) -> (message: Self)
        ensures
            message@ == (MessageView { text: text@, source }),
    {
        Message { text: text.to_string(), source }
    }

    /// A message uttered by the system.
    pub fn system(text: &str) -> (message: Self)
        ensures
            message@ == (MessageView { text: text@, source: MessageSource::System }),
    {
        Self::new(text, MessageSource::System)
    }

    /// A message uttered by the assistant.
    pub fn assistant(text: &str) -> (message: Self)
        ensures
            message@ == (MessageView { text: text@, source: MessageSource::Assistant }),
    {
        Self::new(text, MessageSource::Assistant)
    }

    /// A message uttered by the user.
    pub fn user(text: &str) -> (message: Self)
        ensures
            message@ == (MessageView { text: text@, source: MessageSource::User }),
    {
        Self::new(text, MessageSource::User)
    }
}

} // verus!
