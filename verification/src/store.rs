//! The session store: a bounded table from identifiers to sessions that gives
//! up its least recently used session when a new one needs the room.

use vstd::prelude::*;
use lru::LruCache;
use crate::entries::Entry;
use crate::entries::MAX_SESSIONS;
use crate::entries::appended;
use crate::entries::created;
use crate::entries::found;
use crate::entries::holds;
use crate::entries::lemma_inserted_valid;
use crate::entries::lemma_place;
use crate::entries::lemma_remove_valid;
use crate::entries::lemma_renewed_valid;
use crate::entries::place;
use crate::entries::read;
use crate::entries::removed;
use crate::entries::valid;
use crate::message::Message;
use crate::message::MessageView;
use crate::message::views;
use crate::recency::cache_entries;
use crate::recency::cache_get;
use crate::recency::cache_get_mut;
use crate::recency::cache_limit;
use crate::recency::cache_new;
use crate::recency::cache_pop;
use crate::recency::cache_push;
use crate::session::Session;
use crate::session::lemma_with_messages_bounded;
use crate::session::lemma_with_no_messages;
use crate::session::lemma_with_one_more;

verus! {

/// The store of all sessions.
pub struct SessionStore {
    sessions: LruCache<String, Session>,
}

impl View for SessionStore {
    type V = Seq<Entry>;

    /// The sessions with their identifiers, from the most recently used to the
    /// least recently used.
    closed spec fn view(&self) -> Seq<Entry> {
        cache_entries(self.sessions)
    }
}

impl SessionStore {
    /// The number of sessions that the store was made for.
    pub closed spec fn limit(&self) -> nat {
        cache_limit(self.sessions)
    }

    /// The store is as every operation leaves it.
    pub open spec fn wf(&self) -> bool {
        self.limit() == MAX_SESSIONS && valid(self@)
    }

    /// An empty store.
    pub fn new() -> (store: Self)
        ensures
            store.wf(),
            store@ == Seq::<Entry>::empty(),
    {
        SessionStore { sessions: cache_new(MAX_SESSIONS) }
    }

    /// Creates a session with the given prompts and an empty window under `id`,
    /// in place of any session that stood there. It is the most recently used
    /// one. Where this needs room in a full store, the least recently used
    /// session leaves.
    pub fn create_session(&mut self, id: &str, prompts: Vec<Message>)
        requires
            old(self).wf(),
        ensures
            final(self).wf(),
            final(self)@ == created(old(self)@, id@, views(prompts@)),
    {
        let session = Session::new(prompts);
        proof {
            lemma_inserted_valid(self@, (Entry { id: id@, session: session@ }));
        }
        let _ = cache_push(&mut self.sessions, id.to_string(), session);
    }

    /// The prompts and the window of the session under `id`, which becomes the
    /// most recently used one; `None` where there is no such session.
    pub fn context_window(&mut self, id: &str) -> (context: Option<Vec<Message>>)
        requires
            old(self).wf(),
        ensures
            final(self).wf(),
            final(self)@ == read(old(self)@, id@),
            match context {
                Some(messages) => holds(old(self)@, id@) && views(messages@) == found(
                    old(self)@,
                    id@,
                ).context(),
                None => !holds(old(self)@, id@),
            },
    {
        proof {
            if holds(self@, id@) {
                lemma_place(self@, id@);
                lemma_renewed_valid(self@, id@, found(self@, id@));
            }
        }
        match cache_get(&mut self.sessions, id) {
            Some(session) => Some(session.context_window()),
            None => None,
        }
    }

    /// Appends the messages, in their order, to the window of the session under
    /// `id`, which becomes the most recently used one. Nothing happens where
    /// there is no such session.
    pub fn append_messages(&mut self, id: &str, messages: Vec<Message>)
        requires
            old(self).wf(),
        ensures
            final(self).wf(),
            final(self)@ == appended(old(self)@, id@, views(messages@)),
    {
        let ghost before = self@;
        let ghost arrived = views(messages@);
        proof {
            if holds(before, id@) {
                lemma_place(before, id@);
                lemma_with_messages_bounded(found(before, id@), arrived);
                lemma_renewed_valid(before, id@, found(before, id@).with_messages(arrived));
            }
        }
        if let Some(session) = cache_get_mut(&mut self.sessions, id) {
            let ghost start = session@;
            proof {
                lemma_with_no_messages(start);
                assert(arrived.take(0) =~= Seq::<MessageView>::empty());
            }
            for message in it: messages
                invariant
                    start.bounded(),
                    arrived == views(it.seq()),
                    session@ == start.with_messages(arrived.take(it.index() as int)),
            {
                proof {
                    lemma_with_one_more(start, arrived.take(it.index() as int), message@);
                    assert(arrived.take(it.index() + 1) =~= arrived.take(it.index() as int).push(
                        message@,
                    ));
                }
                session.append(message);
            }
            proof {
                assert(arrived.take(arrived.len() as int) =~= arrived);
            }
        }
    }

    /// Removes the session under `id`, if there is one. The other sessions keep
    /// their order.
    pub fn remove_session(&mut self, id: &str)
        requires
            old(self).wf(),
        ensures
            final(self).wf(),
            final(self)@ == removed(old(self)@, id@),
    {
        proof {
            if holds(self@, id@) {
                lemma_place(self@, id@);
                lemma_remove_valid(self@, place(self@, id@));
            }
        }
        let _ = cache_pop(&mut self.sessions, id);
    }
}

} // verus!
