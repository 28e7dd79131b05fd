//! The per-call cache policy and a model of the shared response cache.
//!
//! The cache is read-through/write-through and keyed by resource path: a
//! ttl-bound call may be served from it and populates it with an expiry;
//! a bypassed call must never be served from it nor written to it.  The
//! newest entry for a path shadows older ones; an expired newest entry is
//! a miss.

use vstd::prelude::*;
use crate::codec::{copy_range, eq_bytes};

verus! {

/// Per-call cache policy, attached at the call site inside each resolver:
/// either bypass every shared cache, or allow caching for the given number
/// of seconds.
#[derive(Clone, Copy, PartialEq, Eq, Structural, Debug)]
pub enum CacheDirective {
    Bypass,
    Ttl(u32),
}

/// One planned upstream call: the resource path and the cache policy the
/// resolver attached to it.
pub struct UpstreamCall {
    pub path: Vec<u8>,
    pub directive: CacheDirective,
}

/// Mathematical model of an upstream call.
pub ghost struct CallModel {
    pub path: Seq<u8>,
    pub directive: CacheDirective,
}

impl View for UpstreamCall {
    type V = CallModel;

    open spec fn view(&self) -> CallModel {
        CallModel { path: self.path@, directive: self.directive }
    }
}

/// One cached response, valid strictly before `expiry`.
pub struct CacheEntry {
    pub path: Vec<u8>,
    pub body: Vec<u8>,
    pub expiry: u64,
}

/// Mathematical model of one cached response.
pub ghost struct EntryModel {
    pub path: Seq<u8>,
    pub body: Seq<u8>,
    pub expiry: int,
}

impl View for CacheEntry {
    type V = EntryModel;

    open spec fn view(&self) -> EntryModel {
        EntryModel { path: self.path@, body: self.body@, expiry: self.expiry as int }
    }
}

/// The shared response cache.  Entries are only appended (insert with
/// expiry) and read; nothing mutates an entry in place.
pub struct ResponseCache {
    pub entries: Vec<CacheEntry>,
}

impl View for ResponseCache {
    type V = Seq<EntryModel>;

    open spec fn view(&self) -> Seq<EntryModel> {
        self.entries@.map_values(|e: CacheEntry| e@)
    }
}

/// The body cached for `path` at time `now`: the newest entry for the path
/// decides; it serves its body while unexpired and is a miss afterwards.
pub open spec fn spec_lookup(entries: Seq<EntryModel>, path: Seq<u8>, now: int) -> Option<Seq<u8>>
    decreases entries.len(),
{
    if entries.len() == 0 {
        None
    } else if entries.last().path == path {
        if now < entries.last().expiry {
            Some(entries.last().body)
        } else {
            None
        }
    } else {
        spec_lookup(entries.drop_last(), path, now)
    }
}

/// What a fetch may take from the cache: nothing for a bypassed call, the
/// cached body for a ttl-bound call.
pub open spec fn spec_probe(entries: Seq<EntryModel>, call: CallModel, now: int) -> Option<Seq<u8>> {
    match call.directive {
        CacheDirective::Bypass => None,
        CacheDirective::Ttl(_) => spec_lookup(entries, call.path, now),
    }
}

/// How a completed fetch changes the cache: a bypassed call leaves it
/// untouched; a ttl-bound call appends its response with expiry `now + t`.
pub open spec fn spec_store(
    entries: Seq<EntryModel>,
    call: CallModel,
    body: Seq<u8>,
    now: int,
) -> Seq<EntryModel> {
    match call.directive {
        CacheDirective::Bypass => entries,
        CacheDirective::Ttl(t) => entries.push(
            EntryModel { path: call.path, body: body, expiry: now + t },
        ),
    }
}

impl ResponseCache {
    /// An empty cache.
    pub fn new() -> (r: ResponseCache)
        ensures
            r@ == Seq::<EntryModel>::empty(),
    {
        let r = ResponseCache { entries: Vec::new() };
        proof {
            assert(r@ =~= Seq::<EntryModel>::empty());
        }
        r
    }

    fn lookup_from(&self, k: usize, path: &Vec<u8>, now: u64) -> (r: Option<Vec<u8>>)
        requires
            k <= self.entries.len(),
        ensures
            match r {
                Some(b) => spec_lookup(self@.subrange(0, k as int), path@, now as int) == Some(b@),
                None => spec_lookup(self@.subrange(0, k as int), path@, now as int) is None,
            },
        decreases k,
    {
        if k == 0 {
            proof {
                assert(self@.subrange(0, 0) =~= Seq::<EntryModel>::empty());
            }
            None
        } else {
            let e = &self.entries[k - 1];
            proof {
                assert(self@.subrange(0, k as int).last() == self@[k - 1]);
                assert(self@[k - 1] == self.entries@[k - 1]@);
                assert(self@.subrange(0, k as int).drop_last() =~= self@.subrange(0, k - 1));
            }
            if eq_bytes(&e.path, path) {
                if now < e.expiry {
                    let b = copy_range(&e.body, 0, e.body.len());
                    proof {
                        assert(e.body@.subrange(0, e.body@.len() as int) =~= e.body@);
                    }
                    Some(b)
                } else {
                    None
                }
            } else {
                self.lookup_from(k - 1, path, now)
            }
        }
    }

    /// What the cache may serve for `call` at time `now`; mirrors
    /// `spec_probe`.
    pub fn probe(&self, call: &UpstreamCall, now: u64) -> (r: Option<Vec<u8>>)
        ensures
            match r {
                Some(b) => spec_probe(self@, call@, now as int) == Some(b@),
                None => spec_probe(self@, call@, now as int) is None,
            },
    {
        match call.directive {
            CacheDirective::Bypass => None,
            CacheDirective::Ttl(_) => {
                let r = self.lookup_from(self.entries.len(), &call.path, now);
                proof {
                    assert(self@.subrange(0, self@.len() as int) =~= self@);
                }
                r
            },
        }
    }

    /// Record a completed fetch; mirrors `spec_store`.
    pub fn store(&mut self, call: &UpstreamCall, body: &Vec<u8>, now: u64)
        requires
            call.directive matches CacheDirective::Ttl(t) ==> now + t <= u64::MAX,
        ensures
            final(self)@ == spec_store(old(self)@, call@, body@, now as int),
    {
        match call.directive {
            CacheDirective::Bypass => {},
            CacheDirective::Ttl(t) => {
                let p = copy_range(&call.path, 0, call.path.len());
                let b = copy_range(body, 0, body.len());
                proof {
                    assert(call.path@.subrange(0, call.path@.len() as int) =~= call.path@);
                    assert(body@.subrange(0, body@.len() as int) =~= body@);
                }
                let entry = CacheEntry { path: p, body: b, expiry: now + (t as u64) };
                self.entries.push(entry);
                proof {
                    assert(self@ =~= spec_store(old(self)@, call@, body@, now as int));
                }
            },
        }
    }
}

/// A bypassed call is never served from the cache and never writes to it,
/// whatever the cache holds: firing the same bypassed call twice therefore
/// reaches upstream twice.
pub proof fn lemma_bypass_never_cached(
    entries: Seq<EntryModel>,
    call: CallModel,
    body: Seq<u8>,
    now: int,
)
    requires
        call.directive == CacheDirective::Bypass,
    ensures
        spec_probe(entries, call, now) is None,
        spec_store(entries, call, body, now) == entries,
{
}

/// After a ttl-bound call stores its response at time `now`, the same call
/// is served from the cache strictly within the window `now + t` and goes
/// back upstream from then on.
pub proof fn lemma_ttl_window(
    entries: Seq<EntryModel>,
    call: CallModel,
    body: Seq<u8>,
    now: int,
    later: int,
    t: u32,
)
    requires
        call.directive == CacheDirective::Ttl(t),
    ensures
        later < now + t ==> spec_probe(
            spec_store(entries, call, body, now),
            call,
            later,
        ) == Some(body),
        later >= now + t ==> spec_probe(spec_store(entries, call, body, now), call, later) is None,
{
    let stored = spec_store(entries, call, body, now);
    assert(stored.last() == EntryModel { path: call.path, body: body, expiry: now + t });
}

} // verus!
