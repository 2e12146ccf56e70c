//! One conversation: priming prompts that never change, and a rolling window of
//! the messages that followed.

use vstd::prelude::*;
use crate::message::Message;
use crate::message::MessageView;
use crate::message::views;
use crate::window::Window;
use crate::window::window_items;
use crate::window::window_new;
use crate::window::window_push_back;
use crate::window::window_to_vec;
use crate::window::pushed;
use crate::window::MAX_MESSAGES_PER_SESSION;

verus! {

/// What a session is: its prompts, and its window from the oldest message to
/// the newest.
pub struct SessionView {
    pub prompts: Seq<MessageView>,
    pub window: Seq<MessageView>,
}

impl SessionView {
    /// The messages handed out for the next turn: the prompts, then the window.
    pub open spec fn context(self) -> Seq<MessageView> {
        self.prompts + self.window
    }

    /// The window holds no more than it has room for.
    pub open spec fn bounded(self) -> bool {
        self.window.len() <= MAX_MESSAGES_PER_SESSION
    }

    /// The session that starts from the given prompts.
    pub open spec fn fresh(prompts: Seq<MessageView>) -> SessionView {
        SessionView { prompts, window: Seq::empty() }
    }

    /// The session after one more message.
    pub open spec fn with_message(self, message: MessageView) -> SessionView {
        SessionView { prompts: self.prompts, window: pushed(self.window, message) }
    }

    /// The session after the given messages, appended in their order: the window
    /// keeps the latest of what it held and what arrived.
    pub open spec fn with_messages(self, messages: Seq<MessageView>) -> SessionView {
        SessionView { prompts: self.prompts, window: latest(self.window + messages) }
    }
}

/// The last messages of a sequence, as many as a window has room for.
pub open spec fn latest(messages: Seq<MessageView>) -> Seq<MessageView> {
    if messages.len() > MAX_MESSAGES_PER_SESSION {
        messages.skip(messages.len() - MAX_MESSAGES_PER_SESSION)
    } else {
        messages
    }
}

/// Whatever is appended, the window stays within its bound.
pub proof fn lemma_with_messages_bounded(session: SessionView, messages: Seq<MessageView>)
    ensures
        session.with_messages(messages).bounded(),
{
}

/// Appending nothing leaves a bounded session as it is.
pub proof fn lemma_with_no_messages(session: SessionView)
    requires
        session.bounded(),
    ensures
        session.with_messages(Seq::empty()) == session,
{
    assert(session.window + Seq::<MessageView>::empty() =~= session.window);
}

/// Appending one message more is one more push at the window's end.
pub proof fn lemma_with_one_more(
    session: SessionView,
    messages: Seq<MessageView>,
    message: MessageView,
)
    requires
        session.bounded(),
    ensures
        session.with_messages(messages).with_message(message) == session.with_messages(
            messages.push(message),
        ),
{
    let all = session.window + messages;
    assert(session.window + messages.push(message) =~= all.push(message));
    assert(pushed(latest(all), message) =~= latest(all.push(message)));
}

/// The state of one conversation.
pub struct Session {
    prompts: Vec<Message>,
    chat: Window,
}

impl View for Session {
    type V = SessionView;

    closed spec fn view(&self) -> SessionView {
        SessionView { prompts: views(self.prompts@), window: window_items(self.chat) }
    }
}

impl Session {
    /// A session with the given prompts and an empty window.
    pub fn new(prompts: Vec<Message>) -> (session: Self)
        ensures
            session@ == SessionView::fresh(views(prompts@)),
    {
        Session { prompts, chat: window_new() }
    }

    /// Puts a message at the end of the window; a full window loses its oldest
    /// message to make room.
    pub fn append(&mut self, message: Message)
        ensures
            final(self)@ == old(self)@.with_message(message@),
    {
        window_push_back(&mut self.chat, message);
    }

    /// A copy of the prompts followed by a copy of the window.
    pub fn context_window(&self) -> (context: Vec<Message>)
        ensures
            views(context@) == self@.context(),
    {
        let mut context = self.prompts.clone();
        let mut rest = window_to_vec(&self.chat);
        proof {
            assert(views(context@) =~= views(self.prompts@));
        }
        let ghost before = context@;
        let ghost tail = rest@;
        context.append(&mut rest);
        proof {
            assert(views(context@) =~= views(before) + views(tail));
        }
        context
    }
}

} // verus!
