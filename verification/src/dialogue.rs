//! The steps of a conversation about a text, as they touch the store: priming a
//! session once the text is known, putting a question to it, and keeping the
//! question with its answer.

use vstd::prelude::*;
use crate::message::Message;
use crate::message::MessageSource;
use crate::message::MessageView;
use crate::message::views;
use crate::store::SessionStore;
use crate::entries::appended;
use crate::entries::created;

verus! {

/// The prompts that prime a session for questions about a text: the text as
/// the user's message, then the instruction for answering as the system's.
pub open spec fn priming(text: Seq<char>, instruction: Seq<char>) -> Seq<MessageView> {
    seq![
        (MessageView { text, source: MessageSource::User }),
        (MessageView { text: instruction, source: MessageSource::System }),
    ]
}

/// What is put to the model for a question: the session's context, then a
/// directive from the system, then the user's question.
pub open spec fn asking(
    context: Seq<MessageView>,
    directive: Seq<char>,
    question: Seq<char>,
) -> Seq<MessageView> {
    context.push((MessageView { text: directive, source: MessageSource::System })).push(
        (MessageView { text: question, source: MessageSource::User }),
    )
}

/// A question with its answer: the user's message, then the assistant's.
pub open spec fn exchange(question: Seq<char>, reply: Seq<char>) -> Seq<MessageView> {
    seq![
        (MessageView { text: question, source: MessageSource::User }),
        (MessageView { text: reply, source: MessageSource::Assistant }),
    ]
}

/// Creates the session under `id`, primed with the text and the instruction.
pub fn begin(store: &mut SessionStore, id: &str, text: &str, instruction: &str)
    requires
        old(store).wf(),
    ensures
        final(store).wf(),
        final(store)@ == created(old(store)@, id@, priming(text@, instruction@)),
{
    let mut prompts: Vec<Message> = Vec::new();
    prompts.push(Message::user(text));
    prompts.push(Message::system(instruction));
    proof {
        assert(views(prompts@) =~= priming(text@, instruction@));
    }
    store.create_session(id, prompts);
}

/// The messages to put to the model: the context, the directive and the
/// question, in that order.
pub fn with_question(context: Vec<Message>, directive: &str, question: &str) -> (request: Vec<
    Message,
>)
    ensures
        views(request@) == asking(views(context@), directive@, question@),
{
    let mut request = context;
    request.push(Message::system(directive));
    request.push(Message::user(question));
    proof {
        assert(views(request@) =~= asking(views(context@), directive@, question@));
    }
    request
}

/// Appends the question and its answer to the session under `id`; nothing
/// happens where there is no such session.
pub fn keep_exchange(store: &mut SessionStore, id: &str, question: &str, reply: &str)
    requires
        old(store).wf(),
    ensures
        final(store).wf(),
        final(store)@ == appended(old(store)@, id@, exchange(question@, reply@)),
{
    let mut messages: Vec<Message> = Vec::new();
    messages.push(Message::user(question));
    messages.push(Message::assistant(reply));
    proof {
        assert(views(messages@) =~= exchange(question@, reply@));
    }
    store.append_messages(id, messages);
}

} // verus!
