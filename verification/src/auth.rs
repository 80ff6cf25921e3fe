//! Permission flags of access tokens and the decisions taken on them.

use crate::codec::text_from_utf8;
use crate::tokens::{
    cache_clear, cache_get_one, cache_insert, cache_new, cache_purge, cache_reader,
    cache_refresh, cache_update, holds_token, visible_tokens, without_token, written_tokens,
    CachedToken, TokenCache,
};
use vstd::multiset::Multiset;
use vstd::prelude::*;
use vstd::string::*;
use vstd::utf8::{decode_utf8, encode_utf8, is_ascii_chars, valid_utf8};

verus! {

/// A set of flags determining permissions.
pub struct AuthFlags;

impl AuthFlags {
    /// Allows the user to send search requests.
    pub const SEARCH: u32 = 1;

    /// Allows the user to add, remove and get targeted documents.
    pub const MODIFY_DOCUMENTS: u32 = 2;

    /// Allows the user to create and remove indexes.
    pub const MODIFY_INDEXES: u32 = 4;
}

/// The operation mode for changing the permissions of a token.
#[derive(Clone, Copy, Debug, PartialEq, Eq, Structural)]
pub enum Op {
    /// Clears the given flags in the token's permissions.
    SetFlags,
    /// Raises the given flags in the token's permissions.
    Unset,
}

/// A token's user and permissions.
pub type TokenInfo = (String, u32);

/// Which of the three permissions a set of flags grants.
#[derive(Clone, Copy, Debug, PartialEq, Eq, Structural)]
pub struct Granted {
    /// Whether searching is allowed.
    pub search: bool,
    /// Whether creating and removing indexes is allowed.
    pub index: bool,
    /// Whether changing documents is allowed.
    pub documents: bool,
}

impl Op {
    /// The permissions a token has after the operation: `SetFlags` keeps the
    /// flags that are not among `permissions`, `Unset` adds `permissions`
    /// to what is there.
    pub open spec fn apply_spec(self, existing: u32, permissions: u32) -> u32 {
        match self {
            Op::SetFlags => existing & !permissions,
            Op::Unset => existing | permissions,
        }
    }

    /// The permissions a token has after the operation.
    pub fn apply(self, existing: u32, permissions: u32) -> (new: u32)
        ensures
            new == self.apply_spec(existing, permissions),
    {
        match self {
            Op::SetFlags => existing & !permissions,
            Op::Unset => existing | permissions,
        }
    }
}

/// After `SetFlags` none of the given flags is left; after `Unset` all of them
/// are there; either way the other flags stay as they were.
pub proof fn lemma_apply(op: Op, existing: u32, permissions: u32)
    ensures
        op == Op::SetFlags ==> op.apply_spec(existing, permissions) & permissions == 0,
        op == Op::Unset ==> op.apply_spec(existing, permissions) & permissions == permissions,
        op.apply_spec(existing, permissions) & !permissions == existing & !permissions,
{
    assert((existing & !permissions) & permissions == 0) by (bit_vector);
    assert((existing | permissions) & permissions == permissions) by (bit_vector);
    assert((existing & !permissions) & !permissions == existing & !permissions) by (bit_vector);
    assert((existing | permissions) & !permissions == existing & !permissions) by (bit_vector);
}

/// Whether a token with `permissions` may do what needs any of the flags
/// in `required`.
pub fn permits(permissions: u32, required: u32) -> (allowed: bool)
    ensures
        allowed == (permissions & required != 0),
{
    (permissions & required) != 0
}

/// Which of the three permissions `permissions` grants.
pub fn granted(permissions: u32) -> (flags: Granted)
    ensures
        flags.search == (permissions & AuthFlags::SEARCH != 0),
        flags.index == (permissions & AuthFlags::MODIFY_INDEXES != 0),
        flags.documents == (permissions & AuthFlags::MODIFY_DOCUMENTS != 0),
{
    Granted {
        search: (permissions & AuthFlags::SEARCH) != 0,
        index: (permissions & AuthFlags::MODIFY_INDEXES) != 0,
        documents: (permissions & AuthFlags::MODIFY_DOCUMENTS) != 0,
    }
}

/// The token a bearer authorization header carries: what follows the
/// seven bytes of `Bearer `.  `None` where the header is shorter than that.
pub fn bearer_token(header: &[u8]) -> (token: Option<&[u8]>)
    ensures
        token is Some <==> header@.len() >= 7,
        token matches Some(t) ==> t@ == header@.skip(7),
{
    if header.len() < 7 {
        None
    } else {
        let token = vstd::slice::slice_subrange(header, 7, header.len());
        assert(token@ =~= header@.skip(7));
        Some(token)
    }
}

/// Whether a request may proceed on behalf of a user.
///
/// With authorization switched off everything may.  Otherwise the
/// request needs a token that is registered, `found` being its permissions,
/// and those need to hold one of the `required` flags.
pub fn authorize(enabled: bool, found: Option<u32>, required: u32) -> (allowed: bool)
    ensures
        allowed == (!enabled || (found matches Some(permissions) && permissions & required
            != 0)),
{
    if !enabled {
        return true;
    }
    match found {
        None => false,
        Some(permissions) => permits(permissions, required),
    }
}

/// Whether two byte strings are the same.
pub fn same_bytes(left: &[u8], right: &[u8]) -> (same: bool)
    ensures
        same == (left@ == right@),
{
    if left.len() != right.len() {
        return false;
    }
    let mut i: usize = 0;
    while i < left.len()
        invariant
            i <= left.len(),
            left@.len() == right@.len(),
            forall|k: int| 0 <= k < i ==> left@[k] == right@[k],
        decreases left.len() - i,
    {
        if left[i] != right[i] {
            return false;
        }
        i += 1;
    }
    assert(left@ =~= right@);
    true
}

/// Whether a request may use the master key's routes: authorization is
/// switched off, or the request's authorization header is exactly
/// `expected`.
pub fn authorize_super_user(enabled: bool, header: Option<&[u8]>, expected: &[u8]) -> (allowed:
    bool)
    ensures
        allowed == (!enabled || (header matches Some(actual) && actual@ == expected@)),
{
    if !enabled {
        return true;
    }
    match header {
        None => false,
        Some(actual) => same_bytes(actual, expected),
    }
}

/// Why a change to a token was refused.
#[derive(Clone, Copy, Debug, PartialEq, Eq, Structural)]
pub enum AuthError {
    /// The token is not registered.
    NotRegistered,
}

impl AuthError {
    /// The message for the user.
    pub fn to_string(&self) -> (message: String)
        ensures
            message@ == "this token is not registered"@,
    {
        String::from_str("this token is not registered")
    }
}

/// What a registered token becomes when `op` is applied to it with
/// `permissions`: the same user, with the permissions the operation leaves.
/// A token that is not registered, `found` being `None`, cannot be changed.
pub fn modify_permissions(found: Option<&TokenInfo>, permissions: u32, op: Op) -> (result: Result<
    TokenInfo,
    AuthError,
>)
    ensures
        match (found, result) {
            (Some(info), Ok(changed)) => changed.0@ == info.0@ && changed.1 == op.apply_spec(
                info.1,
                permissions,
            ),
            (None, Err(e)) => e == AuthError::NotRegistered,
            _ => false,
        },
{
    match found {
        None => Err(AuthError::NotRegistered),
        Some(info) => Ok((info.0.clone(), op.apply(info.1, permissions))),
    }
}

/// How many characters an access token has.
pub open spec fn token_len() -> nat {
    64
}

/// Whether a byte is an ASCII letter or digit.
pub open spec fn is_alphanumeric(byte: u8) -> bool {
    (0x30 <= byte <= 0x39) || (0x41 <= byte <= 0x5a) || (0x61 <= byte <= 0x7a)
}

/// The characters that the given ASCII bytes stand for.
pub open spec fn ascii_text(bytes: Seq<u8>) -> Seq<char> {
    Seq::new(bytes.len(), |i: int| bytes[i] as char)
}

/// ASCII bytes are the UTF-8 encoding of the characters they stand for.
pub proof fn lemma_ascii_is_utf8(bytes: Seq<u8>)
    requires
        forall|i: int| 0 <= i < bytes.len() ==> #[trigger] bytes[i] < 128,
    ensures
        valid_utf8(bytes),
        decode_utf8(bytes) == ascii_text(bytes),
{
    let chars = ascii_text(bytes);
    assert(is_ascii_chars(chars));
    vstd::utf8::is_ascii_chars_encode_utf8(chars);
    assert(encode_utf8(chars) =~= bytes);
    vstd::utf8::encode_utf8_valid_utf8(chars);
    vstd::utf8::encode_utf8_decode_utf8(chars);
}

/// Makes an access token of 64 random samples: the text they spell.  `None`
/// unless there are exactly 64 samples and each is an ASCII letter or
/// digit.
pub fn create_token(samples: &[u8]) -> (token: Option<String>)
    ensures
        token is Some <==> samples@.len() == token_len() && forall|i: int|
            0 <= i < samples@.len() ==> is_alphanumeric(#[trigger] samples@[i]),
        token matches Some(text) ==> text@ == ascii_text(samples@),
{
    if samples.len() != 64 {
        return None;
    }
    let mut i: usize = 0;
    while i < samples.len()
        invariant
            i <= samples.len(),
            samples@.len() == 64,
            forall|k: int| 0 <= k < i ==> is_alphanumeric(#[trigger] samples@[k]),
        decreases samples.len() - i,
    {
        let byte = samples[i];
        let digit = 0x30 <= byte && byte <= 0x39;
        let upper = 0x41 <= byte && byte <= 0x5a;
        let lower = 0x61 <= byte && byte <= 0x7a;
        if !(digit || upper || lower) {
            return None;
        }
        i += 1;
    }
    proof {
        assert forall|k: int| 0 <= k < samples@.len() implies #[trigger] samples@[k] < 128 by {
            assert(is_alphanumeric(samples@[k]));
        }
        lemma_ascii_is_utf8(samples@);
    }
    text_from_utf8(samples)
}

/// The text that bytes stand for when every run of bytes that is not
/// UTF-8 is replaced by the replacement character.
pub uninterp spec fn utf8_lossy(bytes: Seq<u8>) -> Seq<char>;

/// Wraps `String::from_utf8_lossy`, which reads valid UTF-8 as it is and
/// puts the replacement character for whatever else it finds.
#[verifier::external_body]
fn lossy_text(bytes: &[u8]) -> (text: String)
    ensures
        text@ == utf8_lossy(bytes@),
        valid_utf8(bytes@) ==> text@ == decode_utf8(bytes@),
{
    String::from_utf8_lossy(bytes).into_owned()
}

/// Whether some entry of the given token holds one of the `required`
/// flags.
pub open spec fn some_entry_permits(
    entries: Multiset<CachedToken>,
    token: Seq<char>,
    required: u32,
) -> bool {
    exists|user: Seq<char>, permissions: u32| #[trigger]
        entries.contains((token, user, permissions)) && permissions & required != 0
}

/// Whether some entry of the given token holds none of the `required`
/// flags.
pub open spec fn some_entry_forbids(
    entries: Multiset<CachedToken>,
    token: Seq<char>,
    required: u32,
) -> bool {
    exists|user: Seq<char>, permissions: u32| #[trigger]
        entries.contains((token, user, permissions)) && permissions & required == 0
}

/// The token that an authorization header carries: what follows its first
/// seven bytes, read as text with whatever is not UTF-8 replaced.
pub open spec fn header_token(header: Seq<u8>) -> Seq<char> {
    utf8_lossy(header.skip(7))
}

/// What the header of a request means for it, where authorization is on: a
/// header shorter than seven bytes is turned away; a request that may
/// proceed carries a token with an entry that holds one of the `required`
/// flags; one that may not carries a token without an entry, or with an
/// entry that holds none of them.
pub open spec fn header_outcome(
    entries: Multiset<CachedToken>,
    header: Seq<u8>,
    required: u32,
    allowed: bool,
) -> bool {
    if header.len() < 7 {
        !allowed
    } else if allowed {
        some_entry_permits(entries, header_token(header), required)
    } else {
        !holds_token(entries, header_token(header)) || some_entry_forbids(
            entries,
            header_token(header),
            required,
        )
    }
}

/// The registered access tokens, each with its user and permissions, kept
/// in a cache that any number of readers may look tokens up in.
///
/// A token may have several entries; which of them a lookup gives is open.
pub struct AuthManager {
    cached_values: TokenCache,
}

impl AuthManager {
    /// The entries with every change so far applied.
    pub closed spec fn tokens(&self) -> Multiset<CachedToken> {
        written_tokens(self.cached_values)
    }

    /// The entries that lookups see: those of the last refresh.
    pub closed spec fn seen(&self) -> Multiset<CachedToken> {
        visible_tokens(self.cached_values)
    }

    /// A manager without tokens.
    pub fn new() -> (manager: AuthManager)
        ensures
            manager.tokens() == Multiset::<CachedToken>::empty(),
            manager.seen() == Multiset::<CachedToken>::empty(),
    {
        AuthManager { cached_values: cache_new() }
    }

    /// Registers a token as it was saved: the token, its user, its
    /// permissions.  Lookups see it after the next refresh.
    pub fn load(&mut self, token: String, username: String, permissions: u32)
        ensures
            final(self).tokens() == old(self).tokens().insert((token@, username@, permissions)),
            final(self).seen() == old(self).seen(),
    {
        cache_insert(&mut self.cached_values, token, (username, permissions));
    }

    /// Makes every change so far show to lookups.
    pub fn refresh(&mut self)
        ensures
            final(self).tokens() == old(self).tokens(),
            final(self).seen() == old(self).tokens(),
    {
        cache_refresh(&mut self.cached_values);
    }

    /// A reading end of the cache, for those who only look tokens up.
    pub fn reader(&self) -> (reader: evmap::ReadHandle<String, TokenInfo>) {
        cache_reader(&self.cached_values)
    }

    /// The user and permissions of a token as lookups see it: those of one
    /// of its entries, or nothing where it has none.
    pub fn get_one(&self, token: &str) -> (info: Option<TokenInfo>)
        ensures
            match info {
                Some(found) => self.seen().contains((token@, found.0@, found.1)),
                None => !holds_token(self.seen(), token@),
            },
    {
        cache_get_one(&self.cached_values, token)
    }

    /// Creates and registers an access token for the given user with the
    /// given permissions, and lets lookups see it.  The token is the text
    /// that the 64 random samples spell; `None`, with nothing changed,
    /// unless there are exactly 64 samples and each is an ASCII letter or
    /// digit.
    pub fn create_token(&mut self, samples: &[u8], user: String, permissions: u32) -> (token:
        Option<String>)
        ensures
            token is Some <==> samples@.len() == token_len() && forall|i: int|
                0 <= i < samples@.len() ==> is_alphanumeric(#[trigger] samples@[i]),
            match token {
                Some(text) => {
                    &&& text@ == ascii_text(samples@)
                    &&& final(self).tokens() == old(self).tokens().insert(
                        (text@, user@, permissions),
                    )
                    &&& final(self).seen() == final(self).tokens()
                },
                None => final(self).tokens() == old(self).tokens() && final(self).seen() == old(
                    self,
                ).seen(),
            },
    {
        match create_token(samples) {
            Some(token) => {
                cache_insert(&mut self.cached_values, token.clone(), (user, permissions));
                cache_refresh(&mut self.cached_values);
                Some(token)
            },
            None => None,
        }
    }

    /// Revokes every access token, for lookups too.
    pub fn revoke_all(&mut self)
        ensures
            final(self).tokens() == Multiset::<CachedToken>::empty(),
            final(self).seen() == final(self).tokens(),
    {
        cache_purge(&mut self.cached_values);
        cache_refresh(&mut self.cached_values);
    }

    /// Revokes an access token, for lookups too: all its entries go.
    pub fn revoke_token(&mut self, token: String)
        ensures
            final(self).tokens() == without_token(old(self).tokens(), token@),
            final(self).seen() == final(self).tokens(),
    {
        cache_clear(&mut self.cached_values, token);
        cache_refresh(&mut self.cached_values);
    }

    /// Either sets or unsets permissions of a token, for lookups too.
    ///
    /// A token that lookups see no entry of is `NotRegistered`, and nothing
    /// changes.  Otherwise the token's entries are replaced by one: it
    /// keeps the user of an entry that lookups saw, with the permissions
    /// the operation leaves of that entry's, which are the result.
    pub fn modify_permissions(&mut self, token: &str, permissions: u32, op: Op) -> (result: Result<
        u32,
        AuthError,
    >)
        ensures
            result is Err <==> !holds_token(old(self).seen(), token@),
            match result {
                Ok(changed) => {
                    &&& exists|user: Seq<char>, existing: u32|
                        {
                            &&& #[trigger] old(self).seen().contains((token@, user, existing))
                            &&& changed == op.apply_spec(existing, permissions)
                            &&& final(self).tokens() == without_token(
                                old(self).tokens(),
                                token@,
                            ).insert((token@, user, changed))
                        }
                    &&& final(self).seen() == final(self).tokens()
                },
                Err(e) => {
                    &&& e == AuthError::NotRegistered
                    &&& final(self).tokens() == old(self).tokens()
                    &&& final(self).seen() == old(self).seen()
                },
            },
    {
        let found = cache_get_one(&self.cached_values, token);
        let changed = match modify_permissions(found.as_ref(), permissions, op) {
            Ok(changed) => changed,
            Err(e) => {
                return Err(e);
            },
        };
        let new = changed.1;
        proof {
            let info = found->0;
            assert(old(self).seen().contains((token@, info.0@, info.1)));
            assert(changed.0@ == info.0@);
        }
        cache_update(&mut self.cached_values, token.to_owned(), changed);
        cache_refresh(&mut self.cached_values);
        Ok(new)
    }

    /// Whether a request may proceed on behalf of a user.
    ///
    /// With authorization switched off everything may.  Otherwise the
    /// request needs an authorization header of at least seven bytes; the
    /// token it carries has to have an entry that lookups see, and the
    /// entry that the lookup gives has to hold one of the `required` flags.
    pub fn authorize(&self, enabled: bool, header: Option<&[u8]>, required: u32) -> (allowed: bool)
        ensures
            !enabled ==> allowed,
            enabled ==> match header {
                None => !allowed,
                Some(bytes) => header_outcome(self.seen(), bytes@, required, allowed),
            },
    {
        if !enabled {
            return true;
        }
        let token = match header {
            None => {
                return false;
            },
            Some(bytes) => match bearer_token(bytes) {
                None => {
                    return false;
                },
                Some(token) => lossy_text(token),
            },
        };
        match cache_get_one(&self.cached_values, token.as_str()) {
            None => false,
            Some(info) => {
                proof {
                    assert(self.seen().contains((token@, info.0@, info.1)));
                }
                permits(info.1, required)
            },
        }
    }
}

} // verus!
