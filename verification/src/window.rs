//! The rolling window of a session: a ring buffer of fixed capacity that drops
//! its oldest message when a new one arrives at a full buffer.

use vstd::prelude::*;
use arraydeque::ArrayDeque;
use arraydeque::Wrapping;
use crate::message::Message;
use crate::message::MessageView;
use crate::message::views;

verus! {

/// How many messages a rolling window holds at most.
pub const MAX_MESSAGES_PER_SESSION: usize = 100;

/// A ring buffer of messages, kept by `arraydeque::ArrayDeque` in its wrapping
/// behaviour. The buffer's type is bounded by a trait of `arraydeque`, which
/// keeps it from being declared to the verifier as it stands; so it is held
/// here in a struct whose inside no proof reads. What it holds is named by
/// [`window_items`], and only the functions of this file touch it.
#[verifier::external_body]
pub struct Window {
    ring: ArrayDeque<Message, MAX_MESSAGES_PER_SESSION, Wrapping>,
}

/// The messages that a ring buffer holds, from its front, where the oldest
/// stands, to its back.
pub uninterp spec fn window_items(window: Window) -> Seq<MessageView>;

/// What a push at the back leaves in a buffer that held `items`: the new message
/// comes last, and where the buffer held as many messages as it has room for,
/// its frontmost message has gone.
pub open spec fn pushed(items: Seq<MessageView>, message: MessageView) -> Seq<MessageView> {
    if items.len() == MAX_MESSAGES_PER_SESSION {
        items.drop_first().push(message)
    } else {
        items.push(message)
    }
}

/// `ArrayDeque::new`: the buffer it makes holds nothing.
#[verifier::external_body]
pub(crate) fn window_new() -> (window: Window)
    ensures
        window_items(window) == Seq::<MessageView>::empty(),
{
    Window { ring: ArrayDeque::new() }
}

/// `ArrayDeque::push_back` of the wrapping behaviour: the message is put at the
/// back; a buffer that held as many messages as it has room for loses its
/// frontmost one first.
#[verifier::external_body]
pub(crate) fn window_push_back(window: &mut Window, message: Message)
    ensures
        window_items(*final(window)) == pushed(window_items(*old(window)), message@),
{
    window.ring.push_back(message);
}

/// `ArrayDeque::iter`, with each message cloned and collected: copies of the
/// messages from front to back. The buffer stays as it is.
#[verifier::external_body]
pub(crate) fn window_to_vec(window: &Window) -> (messages: Vec<Message>)
    ensures
        views(messages@) == window_items(*window),
{
    window.ring.iter().cloned().collect()
}

} // verus!
