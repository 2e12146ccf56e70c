//! What holds of the store whatever is done with it, stated over the entries
//! that the operations' contracts speak of.

use vstd::prelude::*;
use crate::entries::Entry;
use crate::entries::MAX_SESSIONS;
use crate::entries::appended;
use crate::entries::created;
use crate::entries::evicting;
use crate::entries::found;
use crate::entries::holds;
use crate::entries::lemma_appended_finds;
use crate::entries::lemma_created_finds;
use crate::entries::lemma_place;
use crate::entries::lemma_place_is;
use crate::entries::lemma_read_finds;
use crate::entries::lemma_remove_finds;
use crate::entries::lemma_remove_valid;
use crate::entries::place;
use crate::entries::read;
use crate::entries::removed;
use crate::entries::valid;
use crate::message::MessageView;
use crate::session::SessionView;
use crate::session::latest;
use crate::window::MAX_MESSAGES_PER_SESSION;

verus! {

/// A session that was just created is found under its identifier, and its
/// context is the prompts it was created with: those, in their order, and
/// nothing more.
pub proof fn law_created_session_reads_back(
    entries: Seq<Entry>,
    id: Seq<char>,
    prompts: Seq<MessageView>,
)
    requires
        valid(entries),
    ensures
        holds(created(entries, id, prompts), id),
        found(created(entries, id, prompts), id).context() == prompts,
{
    lemma_created_finds(entries, id, prompts, id);
    assert(prompts + Seq::<MessageView>::empty() =~= prompts);
}

/// A window within its bound stays within it when a message is appended: it
/// grows by one until it is full and keeps its length from then on, losing its
/// oldest message; the new message comes last, those that stay keep their
/// order, and the prompts are as they were.
pub proof fn law_append_keeps_bound(session: SessionView, message: MessageView)
    requires
        session.bounded(),
    ensures
        session.with_message(message).bounded(),
        session.with_message(message).prompts == session.prompts,
        session.with_message(message).window.last() == message,
        session.window.len() < MAX_MESSAGES_PER_SESSION ==> session.with_message(message).window
            == session.window.push(message),
        session.window.len() == MAX_MESSAGES_PER_SESSION ==> session.with_message(
            message,
        ).window == session.window.drop_first().push(message) && session.with_message(
            message,
        ).window.len() == MAX_MESSAGES_PER_SESSION,
{
}

/// The window of a session that started empty holds the messages appended to
/// it, in their order, as long as they are no more than it has room for; of
/// more, it holds the last ones that fit, in their order.
pub proof fn law_window_keeps_latest(prompts: Seq<MessageView>, messages: Seq<MessageView>)
    ensures
        messages.len() <= MAX_MESSAGES_PER_SESSION ==> SessionView::fresh(prompts).with_messages(
            messages,
        ).window == messages,
        messages.len() > MAX_MESSAGES_PER_SESSION ==> SessionView::fresh(prompts).with_messages(
            messages,
        ).window == messages.skip(messages.len() - MAX_MESSAGES_PER_SESSION),
        messages.len() == MAX_MESSAGES_PER_SESSION + 1 ==> SessionView::fresh(
            prompts,
        ).with_messages(messages).window == messages.drop_first(),
{
    assert(Seq::<MessageView>::empty() + messages =~= messages);
    if messages.len() == MAX_MESSAGES_PER_SESSION + 1 {
        assert(messages.skip(1) =~= messages.drop_first());
    }
}

/// In a store, the window of a session that was just created holds, after one
/// request to append, the last of the messages that fit, in their order: all of
/// them where they are no more than the window has room for, and all but the
/// first where they are one more than that. The prompts are as they were given.
pub proof fn law_created_then_appended(
    entries: Seq<Entry>,
    id: Seq<char>,
    prompts: Seq<MessageView>,
    messages: Seq<MessageView>,
)
    requires
        valid(entries),
    ensures
        holds(appended(created(entries, id, prompts), id, messages), id),
        found(appended(created(entries, id, prompts), id, messages), id).prompts == prompts,
        found(appended(created(entries, id, prompts), id, messages), id).window == latest(
            messages,
        ),
        messages.len() <= MAX_MESSAGES_PER_SESSION ==> found(
            appended(created(entries, id, prompts), id, messages),
            id,
        ).window == messages,
        messages.len() == MAX_MESSAGES_PER_SESSION + 1 ==> found(
            appended(created(entries, id, prompts), id, messages),
            id,
        ).window == messages.drop_first(),
{
    lemma_created_finds(entries, id, prompts, id);
    lemma_appended_finds(created(entries, id, prompts), id, messages, id);
    law_window_keeps_latest(prompts, messages);
    assert(Seq::<MessageView>::empty() + messages =~= messages);
}

/// Messages appended in two batches leave a bounded session as the same
/// messages appended in one.
pub proof fn law_appends_compose(
    session: SessionView,
    first: Seq<MessageView>,
    second: Seq<MessageView>,
)
    requires
        session.bounded(),
    ensures
        session.with_messages(first).with_messages(second) == session.with_messages(
            first + second,
        ),
{
    let all = session.window + first;
    assert(session.window + (first + second) =~= all + second);
    if all.len() > MAX_MESSAGES_PER_SESSION {
        let cut = all.len() - MAX_MESSAGES_PER_SESSION;
        assert(latest(all) + second =~= (all + second).skip(cut));
        assert(latest(latest(all) + second) =~= latest(all + second));
    }
}

/// Two requests to append to one session, one after the other, leave the store
/// as one request with the messages of both.
pub proof fn law_appends_compose_in_store(
    entries: Seq<Entry>,
    id: Seq<char>,
    first: Seq<MessageView>,
    second: Seq<MessageView>,
)
    requires
        valid(entries),
    ensures
        appended(appended(entries, id, first), id, second) == appended(
            entries,
            id,
            first + second,
        ),
{
    if holds(entries, id) {
        lemma_place(entries, id);
        let at = place(entries, id);
        let session = found(entries, id);
        let once = appended(entries, id, first);
        lemma_appended_finds(entries, id, first, id);
        lemma_remove_valid(entries, at);
        lemma_remove_finds(entries, at, id);
        assert(once[0].id == id);
        lemma_place_is(once, id, 0);
        assert(once.remove(0) =~= entries.remove(at));
        law_appends_compose(session, first, second);
    }
}

/// One request to append: the identifier of a session and the messages for it.
pub struct Appending {
    pub id: Seq<char>,
    pub messages: Seq<MessageView>,
}

/// The entries after each of the requests to append was served, in their order.
pub open spec fn appended_all(entries: Seq<Entry>, requests: Seq<Appending>) -> Seq<Entry>
    decreases requests.len(),
{
    if requests.len() == 0 {
        entries
    } else {
        appended(
            appended_all(entries, requests.drop_last()),
            requests.last().id,
            requests.last().messages,
        )
    }
}

/// However many requests to append are served, to whichever sessions, a session
/// of the store stays in it with the prompts it had, and its context begins
/// with those prompts.
pub proof fn law_prompts_outlast_appends(
    entries: Seq<Entry>,
    requests: Seq<Appending>,
    id: Seq<char>,
)
    requires
        valid(entries),
        holds(entries, id),
    ensures
        valid(appended_all(entries, requests)),
        holds(appended_all(entries, requests), id),
        found(appended_all(entries, requests), id).prompts == found(entries, id).prompts,
        found(entries, id).prompts.is_prefix_of(
            found(appended_all(entries, requests), id).context(),
        ),
    decreases requests.len(),
{
    if requests.len() > 0 {
        let earlier = appended_all(entries, requests.drop_last());
        law_prompts_outlast_appends(entries, requests.drop_last(), id);
        lemma_appended_finds(earlier, requests.last().id, requests.last().messages, id);
    }
    let session = found(appended_all(entries, requests), id);
    assert(session.context().subrange(0, session.prompts.len() as int) =~= session.prompts);
}

/// One request to create: the identifier of the session and its prompts.
pub struct Creating {
    pub id: Seq<char>,
    pub prompts: Seq<MessageView>,
}

/// The entries after each of the requests to create was served, in their order.
pub open spec fn created_all(entries: Seq<Entry>, requests: Seq<Creating>) -> Seq<Entry>
    decreases requests.len(),
{
    if requests.len() == 0 {
        entries
    } else {
        created(
            created_all(entries, requests.drop_last()),
            requests.last().id,
            requests.last().prompts,
        )
    }
}

/// The requests name each identifier once.
pub open spec fn each_once(requests: Seq<Creating>) -> bool {
    forall|i: int, j: int|
        0 <= i < j < requests.len() ==> (#[trigger] requests[i]).id != (#[trigger] requests[j]).id
}

/// Sessions created under new identifiers, as long as the store has room for
/// them, cost no session its place: each of them is found as it was created,
/// and every session that the store held before is found as it was. The least
/// recently used session is still the one that was so before or, in a store
/// that was empty, the session created first.
pub proof fn law_room_for_all(
    entries: Seq<Entry>,
    requests: Seq<Creating>,
)
    requires
        valid(entries),
        each_once(requests),
        forall|i: int| 0 <= i < requests.len() ==> !holds(entries, (#[trigger] requests[i]).id),
        entries.len() + requests.len() <= MAX_SESSIONS,
    ensures
        valid(created_all(entries, requests)),
        created_all(entries, requests).len() == entries.len() + requests.len(),
        forall|i: int|
            0 <= i < requests.len() ==> holds(
                created_all(entries, requests),
                (#[trigger] requests[i]).id,
            ) && found(created_all(entries, requests), requests[i].id) == SessionView::fresh(
                requests[i].prompts,
            ),
        forall|id: Seq<char>| #[trigger]
            holds(entries, id) ==> holds(created_all(entries, requests), id) && found(
                created_all(entries, requests),
                id,
            ) == found(entries, id),
        forall|id: Seq<char>|
            #![trigger holds(created_all(entries, requests), id)]
            holds(created_all(entries, requests), id) ==> holds(entries, id) || exists|i: int|
                0 <= i < requests.len() && (#[trigger] requests[i]).id == id,
        entries.len() > 0 ==> created_all(entries, requests).last() == entries.last(),
        entries.len() == 0 && requests.len() > 0 ==> created_all(entries, requests).last().id
            == requests.first().id,
    decreases requests.len(),
{
    if requests.len() > 0 {
        let before = requests.drop_last();
        let earlier = created_all(entries, before);
        let request = requests.last();
        let after = created_all(entries, requests);
        assert forall|i: int| 0 <= i < before.len() implies !holds(
            entries,
            (#[trigger] before[i]).id,
        ) by {
            assert(before[i] == requests[i]);
        }
        assert(each_once(before)) by {
            assert forall|i: int, j: int| 0 <= i < j < before.len() implies (#[trigger] before[i]).id
                != (#[trigger] before[j]).id by {
                assert(before[i] == requests[i] && before[j] == requests[j]);
            }
        }
        law_room_for_all(entries, before);
        assert(!holds(earlier, request.id)) by {
            if holds(earlier, request.id) {
                assert(!holds(entries, requests[requests.len() - 1].id));
                let i = choose|i: int| 0 <= i < before.len() && (#[trigger] before[i]).id
                    == request.id;
                assert(before[i] == requests[i]);
                assert(requests[i].id != requests[requests.len() - 1].id);
            }
        }
        assert(!evicting(earlier, request.id));
        lemma_created_finds(earlier, request.id, request.prompts, request.id);
        assert(after =~= seq![
            (Entry { id: request.id, session: SessionView::fresh(request.prompts) }),
        ] + earlier);
        assert forall|i: int| 0 <= i < requests.len() implies holds(
            after,
            (#[trigger] requests[i]).id,
        ) && found(after, requests[i].id) == SessionView::fresh(requests[i].prompts) by {
            if i < before.len() {
                assert(before[i] == requests[i]);
                assert(requests[i].id != requests[requests.len() - 1].id);
                lemma_created_finds(earlier, request.id, request.prompts, requests[i].id);
            }
        }
        assert forall|id: Seq<char>| #[trigger] holds(entries, id) implies holds(after, id)
            && found(after, id) == found(entries, id) by {
            assert(!holds(entries, requests[requests.len() - 1].id));
            lemma_created_finds(earlier, request.id, request.prompts, id);
        }
        assert forall|id: Seq<char>|
            #![trigger holds(after, id)]
            holds(after, id) implies holds(entries, id) || exists|i: int|
            0 <= i < requests.len() && (#[trigger] requests[i]).id == id by {
            if id == request.id {
                assert(requests[requests.len() - 1].id == id);
            } else {
                lemma_created_finds(earlier, request.id, request.prompts, id);
                if !holds(entries, id) {
                    let i = choose|i: int| 0 <= i < before.len() && (#[trigger] before[i]).id
                        == id;
                    assert(before[i] == requests[i]);
                }
            }
        }
    }
}

/// A session created under a new identifier in a full store costs exactly one
/// session its place, the least recently used one: that one is found no more,
/// the new one is found as it was created, every other session is found as it
/// was, and the store is as full as before.
pub proof fn law_full_store_evicts_oldest(
    entries: Seq<Entry>,
    id: Seq<char>,
    prompts: Seq<MessageView>,
)
    requires
        valid(entries),
        entries.len() == MAX_SESSIONS,
        !holds(entries, id),
    ensures
        valid(created(entries, id, prompts)),
        created(entries, id, prompts).len() == MAX_SESSIONS,
        !holds(created(entries, id, prompts), entries.last().id),
        holds(created(entries, id, prompts), id),
        found(created(entries, id, prompts), id) == SessionView::fresh(prompts),
        forall|other: Seq<char>| #[trigger]
            holds(entries, other) && other != entries.last().id ==> holds(
                created(entries, id, prompts),
                other,
            ) && found(created(entries, id, prompts), other) == found(entries, other),
{
    let last = entries.last().id;
    assert(entries[entries.len() - 1].id == last);
    assert(holds(entries, last));
    lemma_created_finds(entries, id, prompts, last);
    assert forall|other: Seq<char>| #[trigger]
        holds(entries, other) && other != last implies holds(created(entries, id, prompts), other)
        && found(created(entries, id, prompts), other) == found(entries, other) by {
        lemma_created_finds(entries, id, prompts, other);
    }
}

/// The entries after the sessions under the identifiers were read, in their
/// order.
pub open spec fn read_all(entries: Seq<Entry>, ids: Seq<Seq<char>>) -> Seq<Entry>
    decreases ids.len(),
{
    if ids.len() == 0 {
        entries
    } else {
        read(read_all(entries, ids.drop_last()), ids.last())
    }
}

/// After any reads that pass a session by, every entry that is less recently
/// used than that session has not been read either.
proof fn lemma_reads_pass_by(entries: Seq<Entry>, ids: Seq<Seq<char>>, unread: Seq<char>)
    requires
        valid(entries),
        holds(entries, unread),
        !ids.contains(unread),
    ensures
        valid(read_all(entries, ids)),
        read_all(entries, ids).len() == entries.len(),
        holds(read_all(entries, ids), unread),
        forall|other: Seq<char>|
            #![trigger holds(read_all(entries, ids), other)]
            (holds(read_all(entries, ids), other) <==> holds(entries, other)) && (holds(
                entries,
                other,
            ) ==> found(read_all(entries, ids), other) == found(entries, other)),
        forall|j: int|
            place(read_all(entries, ids), unread) < j < entries.len() ==> !ids.contains(
                (#[trigger] read_all(entries, ids)[j]).id,
            ),
    decreases ids.len(),
{
    if ids.len() > 0 {
        let before = ids.drop_last();
        let id = ids.last();
        let cur = read_all(entries, before);
        let next = read_all(entries, ids);
        assert(!before.contains(unread)) by {
            if before.contains(unread) {
                let k = choose|k: int| 0 <= k < before.len() && before[k] == unread;
                assert(ids[k] == unread);
            }
        }
        assert(ids[ids.len() - 1] == id);
        assert(id != unread);
        lemma_reads_pass_by(entries, before, unread);
        lemma_read_finds(cur, id, unread);
        assert forall|other: Seq<char>|
            #![trigger holds(next, other)]
            (holds(next, other) <==> holds(entries, other)) && (holds(entries, other) ==> found(
                next,
                other,
            ) == found(entries, other)) by {
            lemma_read_finds(cur, id, other);
            assert(holds(cur, other) <==> holds(entries, other));
        }
        lemma_place(cur, unread);
        lemma_place(next, unread);
        let p = place(cur, unread);
        assert forall|x: Seq<char>| ids.contains(x) implies x == id || before.contains(x) by {
            let k = choose|k: int| 0 <= k < ids.len() && ids[k] == x;
            if k < before.len() {
                assert(before[k] == x);
            }
        }
        if holds(cur, id) {
            lemma_place(cur, id);
            let at = place(cur, id);
            let rest = cur.remove(at);
            let front = Entry { id, session: found(cur, id) };
            assert(next =~= seq![front] + rest);
            let q = if p < at { p + 1 } else { p };
            assert(next[q] == cur[p]);
            lemma_place_is(next, unread, q);
            assert forall|j: int| q < j < entries.len() implies !ids.contains(
                (#[trigger] next[j]).id,
            ) by {
                let i = if j - 1 < at { j - 1 } else { j };
                assert(next[j] == rest[j - 1]);
                assert(rest[j - 1] == cur[i]);
                assert(i != at);
                assert(cur[i].id != cur[at].id);
                assert(!before.contains(cur[i].id));
            }
        } else {
            assert forall|j: int| p < j < entries.len() implies !ids.contains(
                (#[trigger] next[j]).id,
            ) by {
                assert(!before.contains(cur[j].id));
                assert(cur[j].id != id);
            }
        }
    }
}

/// A session is the least recently used one once every other session of the
/// store has been read and it has not; the reads change what no identifier
/// finds.
pub proof fn law_unread_session_is_oldest(
    entries: Seq<Entry>,
    ids: Seq<Seq<char>>,
    unread: Seq<char>,
)
    requires
        valid(entries),
        holds(entries, unread),
        !ids.contains(unread),
        forall|i: int|
            0 <= i < entries.len() && (#[trigger] entries[i]).id != unread ==> ids.contains(
                entries[i].id,
            ),
    ensures
        valid(read_all(entries, ids)),
        read_all(entries, ids).len() == entries.len(),
        read_all(entries, ids).last().id == unread,
        forall|other: Seq<char>|
            #![trigger holds(read_all(entries, ids), other)]
            (holds(read_all(entries, ids), other) <==> holds(entries, other)) && (holds(
                entries,
                other,
            ) ==> found(read_all(entries, ids), other) == found(entries, other)),
{
    lemma_reads_pass_by(entries, ids, unread);
    let after = read_all(entries, ids);
    lemma_place(after, unread);
    let p = place(after, unread);
    let last = after.len() - 1;
    if p < last {
        let x = after[last].id;
        assert(!ids.contains(x));
        assert(holds(after, x));
        assert(holds(entries, x));
        lemma_place(entries, x);
        assert(x != after[p].id);
    }
}

/// Where a store is full, every session but one is read, and a session is then
/// created under a new identifier, it is the unread session that leaves: it
/// is found no more, while the new session and every other session are.
pub proof fn law_unread_session_is_evicted(
    entries: Seq<Entry>,
    ids: Seq<Seq<char>>,
    unread: Seq<char>,
    id: Seq<char>,
    prompts: Seq<MessageView>,
)
    requires
        valid(entries),
        entries.len() == MAX_SESSIONS,
        holds(entries, unread),
        !ids.contains(unread),
        forall|i: int|
            0 <= i < entries.len() && (#[trigger] entries[i]).id != unread ==> ids.contains(
                entries[i].id,
            ),
        !holds(entries, id),
    ensures
        !holds(created(read_all(entries, ids), id, prompts), unread),
        holds(created(read_all(entries, ids), id, prompts), id),
        found(created(read_all(entries, ids), id, prompts), id) == SessionView::fresh(prompts),
        forall|other: Seq<char>| #[trigger]
            holds(entries, other) && other != unread ==> holds(
                created(read_all(entries, ids), id, prompts),
                other,
            ) && found(created(read_all(entries, ids), id, prompts), other) == found(
                entries,
                other,
            ),
{
    law_unread_session_is_oldest(entries, ids, unread);
    let after = read_all(entries, ids);
    assert(!holds(after, id));
    law_full_store_evicts_oldest(after, id, prompts);
    assert forall|other: Seq<char>| #[trigger]
        holds(entries, other) && other != unread implies holds(created(after, id, prompts), other)
        && found(created(after, id, prompts), other) == found(entries, other) by {
        assert(holds(after, other));
    }
}

/// Removing under an identifier that finds nothing changes nothing; removing
/// twice is removing once; and a removal changes what no other identifier
/// finds.
pub proof fn law_removal_is_idempotent(entries: Seq<Entry>, id: Seq<char>)
    requires
        valid(entries),
    ensures
        valid(removed(entries, id)),
        !holds(entries, id) ==> removed(entries, id) == entries,
        !holds(removed(entries, id), id),
        removed(removed(entries, id), id) == removed(entries, id),
        forall|other: Seq<char>|
            #![trigger holds(removed(entries, id), other)]
            other != id ==> (holds(removed(entries, id), other) <==> holds(entries, other)) && (
            holds(entries, other) ==> found(removed(entries, id), other) == found(entries, other)),
{
    if holds(entries, id) {
        lemma_place(entries, id);
        let at = place(entries, id);
        lemma_remove_valid(entries, at);
        assert forall|other: Seq<char>|
            #![trigger holds(removed(entries, id), other)]
            other != id implies (holds(removed(entries, id), other) <==> holds(entries, other))
            && (holds(entries, other) ==> found(removed(entries, id), other) == found(
            entries,
            other,
        )) by {
            lemma_remove_finds(entries, at, other);
        }
    }
}

} // verus!
