//! The cache of registered access tokens: an eventually consistent map
//! from tokens to bags of users with their permissions.  What is written
//! to it shows to those who read it once it has been refreshed.

use crate::auth::TokenInfo;
use vstd::multiset::Multiset;
use vstd::prelude::*;

verus! {

/// Makes `evmap::ReadHandle`, the reading end of such a map, known as a
/// type that is handed on unopened.  Nothing is said of what it holds:
/// that changes whenever the writing end refreshes.
#[verifier::external_type_specification]
#[verifier::external_body]
#[verifier::reject_recursive_types(K)]
#[verifier::reject_recursive_types(V)]
#[verifier::reject_recursive_types(M)]
#[verifier::reject_recursive_types(S)]
pub struct ExReadHandle<K, V, M, S>(evmap::ReadHandle<K, V, M, S>) where
    K: Eq + std::hash::Hash,
    S: std::hash::BuildHasher,
;

/// The writing end of the cache: an `evmap::WriteHandle` from tokens to
/// users with their permissions, held unopened.  What it holds is spoken
/// of through [`written_tokens`] and [`visible_tokens`] alone, and changed
/// through the functions below, each of which makes one call on it.
#[verifier::external_body]
pub struct TokenCache {
    handle: evmap::WriteHandle<String, TokenInfo>,
}

/// One registered token as plain values: the token, its user, its
/// permissions.
pub type CachedToken = (Seq<char>, Seq<char>, u32);

/// The entries that reads of the cache see: those written before the last
/// refresh.
pub uninterp spec fn visible_tokens(cache: TokenCache) -> Multiset<CachedToken>;

/// The entries of the cache with every write so far applied.
pub uninterp spec fn written_tokens(cache: TokenCache) -> Multiset<CachedToken>;

/// The entries without those of the given token.
pub open spec fn without_token(entries: Multiset<CachedToken>, token: Seq<char>) -> Multiset<
    CachedToken,
> {
    entries.filter(|entry: CachedToken| entry.0 != token)
}

/// Whether the entries hold one of the given token.
pub open spec fn holds_token(entries: Multiset<CachedToken>, token: Seq<char>) -> bool {
    exists|user: Seq<char>, permissions: u32| #[trigger]
        entries.contains((token, user, permissions))
}

/// Wraps `evmap::new`, which makes an empty map; the reading end it also
/// gives is let go.  Nothing is written and nothing shows.
#[verifier::external_body]
pub(crate) fn cache_new() -> (cache: TokenCache)
    ensures
        written_tokens(cache) == Multiset::<CachedToken>::empty(),
        visible_tokens(cache) == Multiset::<CachedToken>::empty(),
{
    let (_reader, handle) = evmap::new();
    TokenCache { handle }
}

/// Wraps `evmap::WriteHandle::insert`, which adds the value to the bag of
/// the key.  What reads see stays as it is until the next refresh.
#[verifier::external_body]
pub(crate) fn cache_insert(cache: &mut TokenCache, token: String, info: TokenInfo)
    ensures
        written_tokens(*final(cache)) == written_tokens(*old(cache)).insert(
            (token@, info.0@, info.1),
        ),
        visible_tokens(*final(cache)) == visible_tokens(*old(cache)),
{
    cache.handle.insert(token, info);
}

/// Wraps `evmap::WriteHandle::update`, which replaces the bag of the key
/// by the one value.  What reads see stays as it is until the next
/// refresh.
#[verifier::external_body]
pub(crate) fn cache_update(cache: &mut TokenCache, token: String, info: TokenInfo)
    ensures
        written_tokens(*final(cache)) == without_token(written_tokens(*old(cache)), token@).insert(
            (token@, info.0@, info.1),
        ),
        visible_tokens(*final(cache)) == visible_tokens(*old(cache)),
{
    cache.handle.update(token, info);
}

/// Wraps `evmap::WriteHandle::clear`, which empties the bag of the key.
/// What reads see stays as it is until the next refresh.
#[verifier::external_body]
pub(crate) fn cache_clear(cache: &mut TokenCache, token: String)
    ensures
        written_tokens(*final(cache)) == without_token(written_tokens(*old(cache)), token@),
        visible_tokens(*final(cache)) == visible_tokens(*old(cache)),
{
    cache.handle.clear(token);
}

/// Wraps `evmap::WriteHandle::purge`, which takes every bag out of the
/// map.  What reads see stays as it is until the next refresh.
#[verifier::external_body]
pub(crate) fn cache_purge(cache: &mut TokenCache)
    ensures
        written_tokens(*final(cache)) == Multiset::<CachedToken>::empty(),
        visible_tokens(*final(cache)) == visible_tokens(*old(cache)),
{
    cache.handle.purge();
}

/// Wraps `evmap::WriteHandle::refresh`, which makes every write so far
/// show to reads.  It waits for readers that are in the middle of a read.
#[verifier::external_body]
pub(crate) fn cache_refresh(cache: &mut TokenCache)
    ensures
        written_tokens(*final(cache)) == written_tokens(*old(cache)),
        visible_tokens(*final(cache)) == written_tokens(*old(cache)),
{
    cache.handle.refresh();
}

/// Wraps `evmap::ReadHandle::get_one` on the writing end's own view, which
/// gives one value of the key's bag as reads see it, no matter which, and
/// nothing where that bag is empty or not there.
#[verifier::external_body]
pub(crate) fn cache_get_one(cache: &TokenCache, token: &str) -> (info: Option<TokenInfo>)
    ensures
        match info {
            Some(found) => visible_tokens(*cache).contains((token@, found.0@, found.1)),
            None => !holds_token(visible_tokens(*cache), token@),
        },
{
    match cache.handle.get_one(token) {
        Some(found) => Some((found.0.clone(), found.1)),
        None => None,
    }
}

/// Wraps `Clone` of `evmap::ReadHandle` on the writing end's own view: a
/// reading end of the same map, for those who only look tokens up.
#[verifier::external_body]
pub(crate) fn cache_reader(cache: &TokenCache) -> (reader: evmap::ReadHandle<String, TokenInfo>) {
    cache.handle.clone()
}

} // verus!
