//! The entries of a store as its contracts speak of them: sessions under their
//! identifiers, from the most recently used to the least recently used, and
//! what each operation makes of them.

use vstd::prelude::*;
use crate::message::MessageView;
use crate::session::SessionView;

verus! {

/// How many sessions a store holds at most.
pub const MAX_SESSIONS: usize = 100;

/// One session as the table holds it, under its identifier.
pub struct Entry {
    pub id: Seq<char>,
    pub session: SessionView,
}

/// Some entry stands under the identifier.
pub open spec fn holds(entries: Seq<Entry>, id: Seq<char>) -> bool {
    exists|i: int| 0 <= i < entries.len() && #[trigger] entries[i].id == id
}

/// Where the entry under the identifier stands, if there is one.
pub open spec fn place(entries: Seq<Entry>, id: Seq<char>) -> int {
    choose|i: int| 0 <= i < entries.len() && #[trigger] entries[i].id == id
}

/// The session under the identifier, if there is one.
pub open spec fn found(entries: Seq<Entry>, id: Seq<char>) -> SessionView {
    entries[place(entries, id)].session
}

/// The entries once the identifier's entry has left; nothing else moves.
pub open spec fn removed(entries: Seq<Entry>, id: Seq<char>) -> Seq<Entry> {
    if holds(entries, id) {
        entries.remove(place(entries, id))
    } else {
        entries
    }
}

/// The entries once `entry` has been put in as the most recently used one, in a
/// table made for `limit` entries: it takes the place of an entry under the same
/// identifier; failing that, a full table loses its least recently used entry.
pub open spec fn inserted(entries: Seq<Entry>, limit: nat, entry: Entry) -> Seq<Entry> {
    if holds(entries, entry.id) {
        seq![entry] + entries.remove(place(entries, entry.id))
    } else if entries.len() == limit {
        seq![entry] + entries.drop_last()
    } else {
        seq![entry] + entries
    }
}

/// The entries once the one under the identifier has become the most recently
/// used one and holds `session`.
pub open spec fn renewed(entries: Seq<Entry>, id: Seq<char>, session: SessionView) -> Seq<Entry> {
    seq![Entry { id, session }] + entries.remove(place(entries, id))
}

/// No two entries stand under the same identifier.
pub open spec fn distinct(entries: Seq<Entry>) -> bool {
    forall|i: int, j: int|
        0 <= i < j < entries.len() ==> (#[trigger] entries[i]).id != (#[trigger] entries[j]).id
}

/// What holds of the entries of every store: they are no more than the store
/// has room for, each identifier occurs once, and every window is within its
/// bound.
pub open spec fn valid(entries: Seq<Entry>) -> bool {
    &&& entries.len() <= MAX_SESSIONS
    &&& distinct(entries)
    &&& forall|i: int| 0 <= i < entries.len() ==> (#[trigger] entries[i]).session.bounded()
}

/// The entries after a session with the given prompts was created under `id`.
pub open spec fn created(entries: Seq<Entry>, id: Seq<char>, prompts: Seq<MessageView>) -> Seq<
    Entry,
> {
    inserted(entries, MAX_SESSIONS as nat, (Entry { id, session: SessionView::fresh(prompts) }))
}

/// The entries after the session under `id` was read: it has become the most
/// recently used one. Nothing changes where there is no such session.
pub open spec fn read(entries: Seq<Entry>, id: Seq<char>) -> Seq<Entry> {
    if holds(entries, id) {
        renewed(entries, id, found(entries, id))
    } else {
        entries
    }
}

/// The entries after the messages were appended to the session under `id`,
/// which has become the most recently used one. Nothing changes where there is
/// no such session.
pub open spec fn appended(entries: Seq<Entry>, id: Seq<char>, messages: Seq<MessageView>) -> Seq<
    Entry,
> {
    if holds(entries, id) {
        renewed(entries, id, found(entries, id).with_messages(messages))
    } else {
        entries
    }
}

/// Where an identifier's entry stands: inside the entries, and under that
/// identifier.
pub proof fn lemma_place(entries: Seq<Entry>, id: Seq<char>)
    requires
        holds(entries, id),
    ensures
        0 <= place(entries, id) < entries.len(),
        entries[place(entries, id)].id == id,
{
}

/// Among distinct entries an identifier stands at one place only.
pub proof fn lemma_place_is(entries: Seq<Entry>, id: Seq<char>, at: int)
    requires
        distinct(entries),
        0 <= at < entries.len(),
        entries[at].id == id,
    ensures
        holds(entries, id),
        place(entries, id) == at,
{
    lemma_place(entries, id);
}

/// Valid entries stay valid when one of them leaves.
pub proof fn lemma_remove_valid(entries: Seq<Entry>, at: int)
    requires
        valid(entries),
        0 <= at < entries.len(),
    ensures
        valid(entries.remove(at)),
        !holds(entries.remove(at), entries[at].id),
{
    let rest = entries.remove(at);
    assert forall|i: int, j: int| 0 <= i < j < rest.len() implies (#[trigger] rest[i]).id != (
    #[trigger] rest[j]).id by {
        let a = if i < at { i } else { i + 1 };
        let b = if j < at { j } else { j + 1 };
        assert(rest[i] == entries[a] && rest[j] == entries[b]);
    }
    assert forall|i: int| 0 <= i < rest.len() implies (#[trigger] rest[i]).session.bounded() by {
        let a = if i < at { i } else { i + 1 };
        assert(rest[i] == entries[a]);
    }
    if holds(rest, entries[at].id) {
        let i = place(rest, entries[at].id);
        let a = if i < at { i } else { i + 1 };
        assert(rest[i] == entries[a]);
    }
}

/// Valid entries with room for one more stay valid when an entry under a new
/// identifier is put in front.
pub proof fn lemma_front_valid(entries: Seq<Entry>, entry: Entry)
    requires
        valid(entries),
        entries.len() < MAX_SESSIONS,
        !holds(entries, entry.id),
        entry.session.bounded(),
    ensures
        valid(seq![entry] + entries),
{
    let all = seq![entry] + entries;
    assert forall|i: int, j: int| 0 <= i < j < all.len() implies (#[trigger] all[i]).id != (
    #[trigger] all[j]).id by {
        assert(all[j] == entries[j - 1]);
        if i > 0 {
            assert(all[i] == entries[i - 1]);
        }
    }
    assert forall|i: int| 0 <= i < all.len() implies (#[trigger] all[i]).session.bounded() by {
        if i > 0 {
            assert(all[i] == entries[i - 1]);
        }
    }
}

/// Putting an entry in keeps the entries valid.
pub proof fn lemma_inserted_valid(entries: Seq<Entry>, entry: Entry)
    requires
        valid(entries),
        entry.session.bounded(),
    ensures
        valid(inserted(entries, MAX_SESSIONS as nat, entry)),
{
    if holds(entries, entry.id) {
        lemma_place(entries, entry.id);
        lemma_remove_valid(entries, place(entries, entry.id));
        lemma_front_valid(entries.remove(place(entries, entry.id)), entry);
    } else if entries.len() == MAX_SESSIONS {
        let last = entries.len() - 1;
        assert(entries.drop_last() =~= entries.remove(last));
        lemma_remove_valid(entries, last);
        if holds(entries.drop_last(), entry.id) {
            let i = place(entries.drop_last(), entry.id);
            assert(entries.drop_last()[i] == entries[i]);
        }
        lemma_front_valid(entries.drop_last(), entry);
    } else {
        lemma_front_valid(entries, entry);
    }
}

/// Making an entry the most recently used one, with a bounded session, keeps
/// the entries valid.
pub proof fn lemma_renewed_valid(entries: Seq<Entry>, id: Seq<char>, session: SessionView)
    requires
        valid(entries),
        holds(entries, id),
        session.bounded(),
    ensures
        valid(renewed(entries, id, session)),
{
    lemma_place(entries, id);
    lemma_remove_valid(entries, place(entries, id));
    lemma_front_valid(entries.remove(place(entries, id)), (Entry { id, session }));
}

/// With an entry under a new identifier put in front, that entry is found
/// under its identifier and every other identifier finds what it found before.
pub proof fn lemma_front_finds(entries: Seq<Entry>, entry: Entry, id: Seq<char>)
    requires
        distinct(entries),
        !holds(entries, entry.id),
    ensures
        distinct(seq![entry] + entries),
        holds(seq![entry] + entries, id) <==> id == entry.id || holds(entries, id),
        id == entry.id ==> found(seq![entry] + entries, id) == entry.session,
        id != entry.id && holds(entries, id) ==> found(seq![entry] + entries, id) == found(
            entries,
            id,
        ),
{
    let all = seq![entry] + entries;
    assert forall|i: int, j: int| 0 <= i < j < all.len() implies (#[trigger] all[i]).id != (
    #[trigger] all[j]).id by {
        assert(all[j] == entries[j - 1]);
        if i > 0 {
            assert(all[i] == entries[i - 1]);
        }
    }
    assert(all[0] == entry);
    if id == entry.id {
        lemma_place_is(all, id, 0);
    } else if holds(entries, id) {
        lemma_place(entries, id);
        let at = place(entries, id);
        assert(all[at + 1] == entries[at]);
        lemma_place_is(all, id, at + 1);
    } else if holds(all, id) {
        lemma_place(all, id);
        let at = place(all, id);
        assert(all[at] == entries[at - 1]);
    }
}

/// With one entry gone, its identifier finds nothing and every other
/// identifier finds what it found before.
pub proof fn lemma_remove_finds(entries: Seq<Entry>, at: int, id: Seq<char>)
    requires
        distinct(entries),
        0 <= at < entries.len(),
    ensures
        distinct(entries.remove(at)),
        holds(entries.remove(at), id) <==> id != entries[at].id && holds(entries, id),
        holds(entries.remove(at), id) ==> found(entries.remove(at), id) == found(entries, id),
{
    let rest = entries.remove(at);
    assert forall|i: int, j: int| 0 <= i < j < rest.len() implies (#[trigger] rest[i]).id != (
    #[trigger] rest[j]).id by {
        let a = if i < at { i } else { i + 1 };
        let b = if j < at { j } else { j + 1 };
        assert(rest[i] == entries[a] && rest[j] == entries[b]);
    }
    if holds(rest, id) {
        lemma_place(rest, id);
        let i = place(rest, id);
        let a = if i < at { i } else { i + 1 };
        assert(rest[i] == entries[a]);
        lemma_place_is(entries, id, a);
    } else if id != entries[at].id && holds(entries, id) {
        lemma_place(entries, id);
        let a = place(entries, id);
        let i = if a < at { a } else { a - 1 };
        assert(rest[i] == entries[a]);
    }
}

/// Making an entry the most recently used one changes what its identifier
/// finds to the session given, and nothing else.
pub proof fn lemma_renewed_finds(
    entries: Seq<Entry>,
    id: Seq<char>,
    session: SessionView,
    other: Seq<char>,
)
    requires
        distinct(entries),
        holds(entries, id),
    ensures
        distinct(renewed(entries, id, session)),
        renewed(entries, id, session).len() == entries.len(),
        holds(renewed(entries, id, session), other) <==> holds(entries, other),
        found(renewed(entries, id, session), id) == session,
        other != id && holds(entries, other) ==> found(renewed(entries, id, session), other)
            == found(entries, other),
{
    lemma_place(entries, id);
    let at = place(entries, id);
    let rest = entries.remove(at);
    let entry = Entry { id, session };
    lemma_remove_finds(entries, at, id);
    lemma_remove_finds(entries, at, other);
    lemma_front_finds(rest, entry, id);
    lemma_front_finds(rest, entry, other);
}

/// A full store that holds nothing under the identifier: creating a session
/// there costs the least recently used session its place.
pub open spec fn evicting(entries: Seq<Entry>, id: Seq<char>) -> bool {
    !holds(entries, id) && entries.len() == MAX_SESSIONS
}

/// What is found after a session was created: the new session under its
/// identifier, and under every other identifier what was found before, but for
/// the least recently used session where the store had to make room.
pub proof fn lemma_created_finds(
    entries: Seq<Entry>,
    id: Seq<char>,
    prompts: Seq<MessageView>,
    other: Seq<char>,
)
    requires
        valid(entries),
    ensures
        valid(created(entries, id, prompts)),
        holds(created(entries, id, prompts), id),
        found(created(entries, id, prompts), id) == SessionView::fresh(prompts),
        other != id ==> (holds(created(entries, id, prompts), other) <==> holds(entries, other)
            && !(evicting(entries, id) && other == entries.last().id)),
        other != id && holds(created(entries, id, prompts), other) ==> found(
            created(entries, id, prompts),
            other,
        ) == found(entries, other),
{
    let entry = Entry { id, session: SessionView::fresh(prompts) };
    lemma_inserted_valid(entries, entry);
    if holds(entries, id) {
        lemma_place(entries, id);
        let at = place(entries, id);
        let rest = entries.remove(at);
        lemma_remove_finds(entries, at, id);
        lemma_remove_finds(entries, at, other);
        lemma_front_finds(rest, entry, id);
        lemma_front_finds(rest, entry, other);
    } else if entries.len() == MAX_SESSIONS {
        let last = entries.len() - 1;
        let rest = entries.drop_last();
        assert(rest =~= entries.remove(last));
        lemma_remove_finds(entries, last, id);
        lemma_remove_finds(entries, last, other);
        lemma_front_finds(rest, entry, id);
        lemma_front_finds(rest, entry, other);
    } else {
        lemma_front_finds(entries, entry, id);
        lemma_front_finds(entries, entry, other);
    }
}

/// Appending leaves every session where it was found and with the prompts it
/// had; only the window of the session appended to changes.
pub proof fn lemma_appended_finds(
    entries: Seq<Entry>,
    id: Seq<char>,
    messages: Seq<MessageView>,
    other: Seq<char>,
)
    requires
        valid(entries),
    ensures
        valid(appended(entries, id, messages)),
        appended(entries, id, messages).len() == entries.len(),
        holds(appended(entries, id, messages), other) <==> holds(entries, other),
        holds(entries, other) ==> found(appended(entries, id, messages), other).prompts == found(
            entries,
            other,
        ).prompts,
        holds(entries, other) && other != id ==> found(appended(entries, id, messages), other)
            == found(entries, other),
        holds(entries, id) ==> found(appended(entries, id, messages), id) == found(
            entries,
            id,
        ).with_messages(messages),
{
    if holds(entries, id) {
        let session = found(entries, id).with_messages(messages);
        lemma_renewed_valid(entries, id, session);
        lemma_renewed_finds(entries, id, session, other);
    }
}

/// Reading changes the order of the entries and nothing else: every identifier
/// finds what it found before.
pub proof fn lemma_read_finds(entries: Seq<Entry>, id: Seq<char>, other: Seq<char>)
    requires
        valid(entries),
    ensures
        valid(read(entries, id)),
        read(entries, id).len() == entries.len(),
        holds(read(entries, id), other) <==> holds(entries, other),
        holds(entries, other) ==> found(read(entries, id), other) == found(entries, other),
{
    if holds(entries, id) {
        lemma_place(entries, id);
        lemma_renewed_valid(entries, id, found(entries, id));
        lemma_renewed_finds(entries, id, found(entries, id), other);
    }
}

} // verus!
