//! The store's table of sessions, kept by `lru::LruCache`: what it holds, in
//! which order, and what each of its operations does to both.

use vstd::prelude::*;
use lru::LruCache;
use std::num::NonZeroUsize;
use crate::entries::Entry;
use crate::entries::found;
use crate::entries::holds;
use crate::entries::inserted;
use crate::entries::removed;
use crate::entries::renewed;
use crate::session::Session;

verus! {

/// `lru::LruCache`, as a type that fields and signatures can hold. Nothing is
/// claimed of its inside: what a table holds is named by [`cache_entries`] and
/// [`cache_limit`].
#[verifier::external_type_specification]
#[verifier::external_body]
#[verifier::reject_recursive_types(K)]
#[verifier::reject_recursive_types(V)]
#[verifier::reject_recursive_types(S)]
pub struct ExLruCache<K, V, S>(LruCache<K, V, S>);

/// `lru::DefaultHasher`, the hasher of a table made by `LruCache::new`. Nothing
/// is claimed of it.
#[verifier::external_type_specification]
#[verifier::external_body]
pub struct ExDefaultHasher(lru::DefaultHasher);

/// The entries of a table, from the most recently used to the least recently
/// used: each key as its characters, each session as its view.
pub uninterp spec fn cache_entries(cache: LruCache<String, Session>) -> Seq<Entry>;

/// The number of entries that a table was made to hold at most.
pub uninterp spec fn cache_limit(cache: LruCache<String, Session>) -> nat;

/// `LruCache::new`: an empty table for at most `limit` entries. The limit must
/// not be zero, which the table does not take.
#[verifier::external_body]
pub(crate) fn cache_new(limit: usize) -> (cache: LruCache<String, Session>)
    requires
        limit > 0,
    ensures
        cache_entries(cache) == Seq::<Entry>::empty(),
        cache_limit(cache) == limit,
{
    LruCache::new(NonZeroUsize::new(limit).unwrap())
}

/// `LruCache::push`: the pair becomes the most recently used entry. It replaces
/// the entry under an equal key, whose session is handed back with the key;
/// failing that, a table that holds as many entries as it was made for loses
/// its least recently used entry, which is handed back. Nothing is handed back
/// where nothing left.
#[verifier::external_body]
pub(crate) fn cache_push(
    cache: &mut LruCache<String, Session>,
    id: String,
    session: Session,
) -> (out: Option<(String, Session)>)
    ensures
        cache_limit(*final(cache)) == cache_limit(*old(cache)),
        cache_entries(*final(cache)) == inserted(
            cache_entries(*old(cache)),
            cache_limit(*old(cache)),
            (Entry { id: id@, session: session@ }),
        ),
        match out {
            Some((key, value)) => if holds(cache_entries(*old(cache)), id@) {
                key@ == id@ && value@ == found(cache_entries(*old(cache)), id@)
            } else {
                &&& cache_entries(*old(cache)).len() == cache_limit(*old(cache))
                &&& key@ == cache_entries(*old(cache)).last().id
                &&& value@ == cache_entries(*old(cache)).last().session
            },
            None => !holds(cache_entries(*old(cache)), id@) && cache_entries(*old(cache)).len()
                != cache_limit(*old(cache)),
        },
{
    cache.push(id, session)
}

/// `LruCache::get`: the session under the key, whose entry becomes the most
/// recently used one while the other entries keep their order; nothing where
/// no entry stands under the key, and then nothing changes.
#[verifier::external_body]
pub(crate) fn cache_get<'a>(cache: &'a mut LruCache<String, Session>, id: &str) -> (out: Option<
    &'a Session,
>)
    ensures
        cache_limit(*final(cache)) == cache_limit(*old(cache)),
        match out {
            Some(session) => {
                &&& holds(cache_entries(*old(cache)), id@)
                &&& session@ == found(cache_entries(*old(cache)), id@)
                &&& cache_entries(*final(cache)) == renewed(
                    cache_entries(*old(cache)),
                    id@,
                    session@,
                )
            },
            None => !holds(cache_entries(*old(cache)), id@) && cache_entries(*final(cache))
                == cache_entries(*old(cache)),
        },
{
    cache.get(id)
}

/// `LruCache::get_mut`: as `LruCache::get`, but the session can be changed
/// through what is handed out, and the table then holds the session as it was
/// left.
#[verifier::external_body]
pub(crate) fn cache_get_mut<'a>(cache: &'a mut LruCache<String, Session>, id: &str) -> (out:
    Option<&'a mut Session>)
    ensures
        cache_limit(*final(cache)) == cache_limit(*old(cache)),
        match out {
            Some(session) => {
                &&& holds(cache_entries(*old(cache)), id@)
                &&& (*session)@ == found(cache_entries(*old(cache)), id@)
                &&& cache_entries(*final(cache)) == renewed(
                    cache_entries(*old(cache)),
                    id@,
                    (*final(session))@,
                )
            },
            None => !holds(cache_entries(*old(cache)), id@) && cache_entries(*final(cache))
                == cache_entries(*old(cache)),
        },
{
    cache.get_mut(id)
}

/// `LruCache::pop`: the entry under the key leaves the table and its session is
/// handed back, while the other entries keep their order; nothing where no
/// entry stands under the key, and then nothing changes.
#[verifier::external_body]
pub(crate) fn cache_pop(cache: &mut LruCache<String, Session>, id: &str) -> (out: Option<Session>)
    ensures
        cache_limit(*final(cache)) == cache_limit(*old(cache)),
        cache_entries(*final(cache)) == removed(cache_entries(*old(cache)), id@),
        match out {
            Some(session) => holds(cache_entries(*old(cache)), id@) && session@ == found(
                cache_entries(*old(cache)),
                id@,
            ),
            None => !holds(cache_entries(*old(cache)), id@),
        },
{
    cache.pop(id)
}

} // verus!
