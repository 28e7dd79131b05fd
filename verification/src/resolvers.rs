//! Entity resolvers and the query root.
//!
//! Each resolver translates one resolver call into exactly one planned
//! upstream call: the resource path and the cache directive.  Per-user
//! data is caller-specific and must bypass the shared cache; item data is
//! public and cacheable for `TTL` seconds.  The actual transport performs
//! the call and hands the response body back to the executor.
//!
//! Identities are upstream-assigned non-negative integers, and the query
//! grammar admits only bare digit runs as the `id` argument, so the
//! planners ask for `0 <= id`.

use vstd::prelude::*;
use crate::cache::{spec_probe, spec_store, CacheDirective, CallModel, EntryModel, UpstreamCall};
use crate::cache::{lemma_bypass_never_cached, lemma_ttl_window};
use crate::codec::{append_bytes, spec_digits, u32_digits};

verus! {

/// Lifetime, in seconds, of a cached public response.
pub const TTL: u32 = 60;

/// A fault in the request itself, found before any upstream call.
#[derive(Clone, Copy, PartialEq, Eq, Structural, Debug)]
pub enum RequestError {
    /// The inbound body is not a valid query document.
    MalformedDocument,
    /// A by-id lookup was requested without an id.
    MissingId,
}

/// `users/` followed by the id digits.
pub open spec fn spec_user_path(id: int) -> Seq<u8> {
    seq![117u8, 115, 101, 114, 115, 47] + spec_digits(id)
}

/// `items/`
pub open spec fn spec_items_path() -> Seq<u8> {
    seq![105u8, 116, 101, 109, 115, 47]
}

/// `items/` followed by the id digits.
pub open spec fn spec_item_path(id: int) -> Seq<u8> {
    spec_items_path() + spec_digits(id)
}

/// The call a user lookup plans: per-caller data, never cached.
pub open spec fn spec_user_call(id: int) -> CallModel {
    CallModel { path: spec_user_path(id), directive: CacheDirective::Bypass }
}

/// The call an item lookup plans: public data, cacheable for `TTL` seconds.
pub open spec fn spec_item_call(id: int) -> CallModel {
    CallModel { path: spec_item_path(id), directive: CacheDirective::Ttl(TTL) }
}

/// The call an item listing plans: public data, cacheable for `TTL` seconds.
pub open spec fn spec_items_call() -> CallModel {
    CallModel { path: spec_items_path(), directive: CacheDirective::Ttl(TTL) }
}

/// The resolver context: one per query document, wrapping the upstream
/// backend; it holds no other state.
pub struct ApiBackend {}

impl ApiBackend {
    pub fn new() -> (r: ApiBackend)
        ensures
            r == (ApiBackend {}),
    {
        ApiBackend {}
    }

    /// Plan the lookup of one user by id: path `users/{id}`, bypassing the
    /// shared cache.
    pub fn get_user(&self, id: i32) -> (c: UpstreamCall)
        requires
            0 <= id,
        ensures
            c@ == spec_user_call(id as int),
    {
        let mut path: Vec<u8> = Vec::new();
        path.push(117);
        path.push(115);
        path.push(101);
        path.push(114);
        path.push(115);
        path.push(47);
        let ds = u32_digits(id as u32);
        append_bytes(&mut path, &ds);
        proof {
            assert(path@ =~= spec_user_path(id as int));
        }
        UpstreamCall { path, directive: CacheDirective::Bypass }
    }

    /// Plan the listing of all items: path `items/`, cacheable.
    pub fn get_videos(&self) -> (c: UpstreamCall)
        ensures
            c@ == spec_items_call(),
    {
        let mut path: Vec<u8> = Vec::new();
        path.push(105);
        path.push(116);
        path.push(101);
        path.push(109);
        path.push(115);
        path.push(47);
        proof {
            assert(path@ =~= spec_items_path());
        }
        UpstreamCall { path, directive: CacheDirective::Ttl(TTL) }
    }

    /// Plan the lookup of one item by id: path `items/{id}`, cacheable.
    /// An absent id is a request-level validation error.
    pub fn get_video(&self, id: Option<i32>) -> (r: Result<UpstreamCall, RequestError>)
        requires
            id matches Some(v) ==> 0 <= v,
        ensures
            match id {
                Some(v) => r matches Ok(c) && c@ == spec_item_call(v as int),
                None => r matches Err(e) && e == RequestError::MissingId,
            },
    {
        match id {
            None => Err(RequestError::MissingId),
            Some(v) => {
                let mut path: Vec<u8> = Vec::new();
                path.push(105);
                path.push(116);
                path.push(101);
                path.push(109);
                path.push(115);
                path.push(47);
                let ds = u32_digits(v as u32);
                append_bytes(&mut path, &ds);
                proof {
                    assert(path@ =~= spec_item_path(v as int));
                }
                Ok(UpstreamCall { path, directive: CacheDirective::Ttl(TTL) })
            },
        }
    }
}

/// The query root: one method per supported top-level field, each
/// delegating to the matching entity resolver with the supplied context.
pub struct Query;

impl Query {
    pub fn user(&self, id: i32, context: &ApiBackend) -> (c: UpstreamCall)
        requires
            0 <= id,
        ensures
            c@ == spec_user_call(id as int),
    {
        context.get_user(id)
    }

    pub fn item(&self, id: i32, context: &ApiBackend) -> (r: Result<UpstreamCall, RequestError>)
        requires
            0 <= id,
        ensures
            r matches Ok(c) && c@ == spec_item_call(id as int),
    {
        context.get_video(Some(id))
    }

    pub fn items(&self, context: &ApiBackend) -> (c: UpstreamCall)
        ensures
            c@ == spec_items_call(),
    {
        context.get_videos()
    }
}

/// A user lookup is never served from the shared cache and never writes to
/// it: the same user fetched twice reaches upstream twice, whatever the
/// cache held before or between the two calls.
pub proof fn lemma_user_fetch_bypasses_cache(
    entries: Seq<EntryModel>,
    id: int,
    body: Seq<u8>,
    now: int,
)
    ensures
        spec_probe(entries, spec_user_call(id), now) is None,
        spec_store(entries, spec_user_call(id), body, now) == entries,
{
    lemma_bypass_never_cached(entries, spec_user_call(id), body, now);
}

/// After an item lookup stores its response at time `now`, the same lookup
/// is served from the cache strictly within `now + TTL`, and reaches
/// upstream again from `now + TTL` on.
pub proof fn lemma_item_fetch_cached_within_ttl(
    entries: Seq<EntryModel>,
    id: int,
    body: Seq<u8>,
    now: int,
    later: int,
)
    ensures
        later < now + TTL ==> spec_probe(
            spec_store(entries, spec_item_call(id), body, now),
            spec_item_call(id),
            later,
        ) == Some(body),
        later >= now + TTL ==> spec_probe(
            spec_store(entries, spec_item_call(id), body, now),
            spec_item_call(id),
            later,
        ) is None,
{
    lemma_ttl_window(entries, spec_item_call(id), body, now, later, TTL);
}

} // verus!
