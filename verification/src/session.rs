//! Opaque session identifiers carried in cookies, and the process-wide
//! store that maps each identifier to its record.

use vstd::prelude::*;

use crate::request::HttpRequest;
use crate::request::{spec_find_from, lemma_find_from_props, lemma_find_from_first, lemma_find_from_none};
use crate::strutil::{eq_str, spec_trim, trim, split_once_char};

verus! {

/// Relies on `uuid::Uuid::new_v4` and its hyphenated `Display` form: a fresh
/// random identifier rendered as 36 characters of lower-case hex and hyphens.
/// Nothing can be promised of which identifier comes back.
#[verifier::external_body]
fn fresh_uuid_string() -> (r: String)
    ensures
        r@.len() == 36,
{
    uuid::Uuid::new_v4().to_string()
}

/// A fresh identifier for an upload or a session.
pub fn fresh_id() -> (r: String)
    ensures
        r@.len() == 36,
{
    fresh_uuid_string()
}

/// A cookie to be set on the outgoing response.
#[derive(Debug, Clone)]
pub struct Cookie {
    pub name: String,
    pub value: String,
}

/// The `Set-Cookie` value a session cookie renders to.
pub open spec fn spec_cookie_header_value(name: Seq<char>, value: Seq<char>) -> Seq<char> {
    name + "="@ + value + "; Path=/; HttpOnly"@
}

impl Cookie {
    /// Builds the session cookie for an identifier.
    pub fn session(value: String) -> (r: Cookie)
        ensures
            r.name@ == "session_id"@,
            r.value@ == value@,
    {
        Cookie { name: "session_id".to_owned(), value }
    }

    /// Renders the cookie as the value of a `Set-Cookie` header.
    pub fn to_header_value(&self) -> (r: String)
        ensures
            r@ == spec_cookie_header_value(self.name@, self.value@),
    {
        let mut s = self.name.clone();
        s.append("=");
        s.append(self.value.as_str());
        s.append("; Path=/; HttpOnly");
        s
    }

    /// The header name and value to attach to a response.
    pub fn to_header_pair(&self) -> (r: (String, String))
        ensures
            r.0@ == "Set-Cookie"@,
            r.1@ == spec_cookie_header_value(self.name@, self.value@),
    {
        ("Set-Cookie".to_owned(), self.to_header_value())
    }
}

/// One session's record.
#[derive(Debug, Clone, Copy)]
pub struct SessionRecord {
    pub created_at: u64,
    pub last_seen: u64,
}

/// The identifier named by a `Cookie` request header: the value of its
/// first `session_id` entry, entries separated by `;` and trimmed.
pub open spec fn spec_cookie_sid(h: Seq<char>) -> Option<Seq<char>>
    decreases h.len(),
    via spec_cookie_sid_decreases
{
    let seg_end = match spec_find_from(h, ';', 0) {
        Some(i) => i,
        None => h.len() as int,
    };
    let seg = h.subrange(0, seg_end);
    let parsed = spec_segment_sid(seg);
    if parsed is Some {
        parsed
    } else if seg_end < h.len() {
        spec_cookie_sid(h.subrange(seg_end + 1, h.len() as int))
    } else {
        None
    }
}

#[via_fn]
proof fn spec_cookie_sid_decreases(h: Seq<char>) {
    lemma_find_from_props(h, ';', 0);
}

/// The identifier one `k=v` segment yields, if its key trims to
/// `session_id`.
pub open spec fn spec_segment_sid(seg: Seq<char>) -> Option<Seq<char>> {
    match spec_find_from(seg, '=', 0) {
        Some(e) => if spec_trim(seg.subrange(0, e)) == "session_id"@ {
            Some(spec_trim(seg.subrange(e + 1, seg.len() as int)))
        } else {
            None
        },
        None => None,
    }
}

/// Finds the session identifier in a `Cookie` header value.
pub fn find_session_id(h: &str) -> (r: Option<String>)
    ensures
        match r {
            Some(v) => spec_cookie_sid(h@) == Some(v@),
            None => spec_cookie_sid(h@) is None,
        },
    decreases h@.len(),
{
    let (seg, rest) = match split_once_char(h, ';') {
        Some(pair) => {
            proof {
                let i = choose|i: int|
                    0 <= i < h@.len() && h@[i] == ';' && (forall|k: int|
                        0 <= k < i ==> h@[k] != ';') && pair.0@ == h@.subrange(0, i)
                        && pair.1@ == h@.subrange(i + 1, h@.len() as int);
                lemma_find_from_first(h@, ';', i);
            }
            (pair.0, Some(pair.1))
        },
        None => {
            proof {
                lemma_find_from_none(h@, ';', 0);
            }
            (h.to_owned(), None)
        },
    };
    let ghost seg_end: int = match spec_find_from(h@, ';', 0) {
        Some(i) => i,
        None => h@.len() as int,
    };
    proof {
        assert(seg@ == h@.subrange(0, seg_end)) by {
            if spec_find_from(h@, ';', 0) is None {
                assert(h@.subrange(0, h@.len() as int) =~= h@);
            }
        }
    }
    let parsed: Option<String> = match split_once_char(seg.as_str(), '=') {
        Some(kv) => {
            proof {
                let i = choose|i: int|
                    0 <= i < seg@.len() && seg@[i] == '=' && (forall|k: int|
                        0 <= k < i ==> seg@[k] != '=') && kv.0@ == seg@.subrange(0, i)
                        && kv.1@ == seg@.subrange(i + 1, seg@.len() as int);
                lemma_find_from_first(seg@, '=', i);
            }
            let key = trim(kv.0.as_str());
            if eq_str(key.as_str(), "session_id") {
                Some(trim(kv.1.as_str()))
            } else {
                None
            }
        },
        None => {
            proof {
                lemma_find_from_none(seg@, '=', 0);
            }
            None
        },
    };
    match parsed {
        Some(v) => Some(v),
        None => match rest {
            Some(r2) => {
                proof {
                    lemma_find_from_props(h@, ';', 0);
                }
                find_session_id(r2.as_str())
            },
            None => None,
        },
    }
}

/// The in-memory session store: one record per identifier.
#[derive(Debug)]
pub struct SessionStore {
    entries: Vec<(String, SessionRecord)>,
}

/// The record stored under `id`, if any, searching from the back.
pub open spec fn spec_store_lookup(
    s: Seq<(Seq<char>, SessionRecord)>,
    id: Seq<char>,
) -> Option<SessionRecord>
    decreases s.len(),
{
    if s.len() == 0 {
        None
    } else if s.last().0 == id {
        Some(s.last().1)
    } else {
        spec_store_lookup(s.drop_last(), id)
    }
}

impl View for SessionStore {
    type V = Seq<(Seq<char>, SessionRecord)>;

    closed spec fn view(&self) -> Seq<(Seq<char>, SessionRecord)> {
        Seq::new(self.entries@.len(), |i: int| (self.entries@[i].0@, self.entries@[i].1))
    }
}

impl SessionStore {
    /// An empty store.
    pub fn new() -> (r: SessionStore)
        ensures
            r@ == Seq::<(Seq<char>, SessionRecord)>::empty(),
    {
        let r = SessionStore { entries: Vec::new() };
        proof {
            assert(r@ =~= Seq::<(Seq<char>, SessionRecord)>::empty());
        }
        r
    }

    /// Number of live sessions.
    pub fn len(&self) -> (n: usize)
        ensures
            n == self@.len(),
    {
        self.entries.len()
    }

    /// The record under `id`, if the session is live.
    pub fn get(&self, id: &str) -> (r: Option<SessionRecord>)
        ensures
            match r {
                Some(rec) => spec_store_lookup(self@, id@) == Some(rec),
                None => spec_store_lookup(self@, id@) is None,
            },
    {
        let n = self.entries.len();
        proof {
            assert(self@.subrange(0, n as int) =~= self@);
        }
        let mut i: usize = n;
        while i > 0
            invariant
                0 <= i <= n,
                n == self.entries.len(),
                n == self@.len(),
                spec_store_lookup(self@, id@) == spec_store_lookup(
                    self@.subrange(0, i as int),
                    id@,
                ),
            decreases i,
        {
            proof {
                let pre = self@.subrange(0, i as int);
                assert(pre.drop_last() =~= self@.subrange(0, i - 1));
                assert(pre.last() == self@[i - 1]);
            }
            if eq_str(self.entries[i - 1].0.as_str(), id) {
                let rec = self.entries[i - 1].1;
                return Some(rec);
            }
            i = i - 1;
        }
        proof {
            assert(self@.subrange(0, 0) =~= Seq::<(Seq<char>, SessionRecord)>::empty());
        }
        None
    }

    /// Appends a record under a fresh identifier.
    pub fn insert(&mut self, id: String, rec: SessionRecord)
        ensures
            final(self)@ == old(self)@.push((id@, rec)),
    {
        let ghost oldv = self@;
        let ghost idv = id@;
        self.entries.push((id, rec));
        proof {
            assert(self@ =~= oldv.push((idv, rec)));
        }
    }

    /// Marks the session under `id` as seen now.
    pub fn refresh(&mut self, id: &str, now: u64)
        ensures
            final(self)@.len() == old(self)@.len(),
            forall|i: int|
                0 <= i < old(self)@.len() ==> (#[trigger] final(self)@[i]).0 == old(self)@[i].0
                    && final(self)@[i].1.created_at == old(self)@[i].1.created_at && (
                final(self)@[i].1.last_seen == if old(self)@[i].0 == id@ {
                    now
                } else {
                    old(self)@[i].1.last_seen
                }),
    {
        let n = self.entries.len();
        let mut kept: Vec<(String, SessionRecord)> = Vec::new();
        let mut i: usize = 0;
        while i < n
            invariant
                0 <= i <= n,
                n == self.entries.len(),
                n == self@.len(),
                self@ == old(self)@,
                kept@.len() == i,
                forall|k: int|
                    0 <= k < i ==> (#[trigger] kept@[k]).0@ == old(self)@[k].0
                        && kept@[k].1.created_at == old(self)@[k].1.created_at && (
                    kept@[k].1.last_seen == if old(self)@[k].0 == id@ {
                        now
                    } else {
                        old(self)@[k].1.last_seen
                    }),
            decreases n - i,
        {
            let key = self.entries[i].0.clone();
            let rec = self.entries[i].1;
            if eq_str(key.as_str(), id) {
                kept.push((key, SessionRecord { created_at: rec.created_at, last_seen: now }));
            } else {
                kept.push((key, rec));
            }
            i = i + 1;
        }
        self.entries = kept;
        proof {
            assert forall|k: int| 0 <= k < old(self)@.len() implies (#[trigger] self@[k]).0 == old(
                self,
            )@[k].0 && self@[k].1.created_at == old(self)@[k].1.created_at && (
            self@[k].1.last_seen == if old(self)@[k].0 == id@ {
                now
            } else {
                old(self)@[k].1.last_seen
            }) by {
                assert(self@[k] == (kept@[k].0@, kept@[k].1));
            }
        }
    }

    /// Drops every session whose `last_seen` is older than `cutoff` and
    /// keeps every other, in order.
    pub fn sweep(&mut self, cutoff: u64)
        ensures
            final(self)@ == spec_swept(old(self)@, cutoff),
    {
        let ghost oldv = self@;
        let n = self.entries.len();
        let mut kept: Vec<(String, SessionRecord)> = Vec::new();
        let mut i: usize = 0;
        proof {
            assert(oldv.subrange(0, 0) =~= Seq::<(Seq<char>, SessionRecord)>::empty());
        }
        while i < n
            invariant
                0 <= i <= n,
                n == self.entries.len(),
                n == self@.len(),
                self@ == oldv,
                Seq::new(kept@.len(), |k: int| (kept@[k].0@, kept@[k].1)) == spec_swept(
                    oldv.subrange(0, i as int),
                    cutoff,
                ),
            decreases n - i,
        {
            proof {
                let pre = oldv.subrange(0, i + 1);
                assert(pre.drop_last() =~= oldv.subrange(0, i as int));
                assert(pre.last() == oldv[i as int]);
            }
            if self.entries[i].1.last_seen >= cutoff {
                let key = self.entries[i].0.clone();
                let rec = self.entries[i].1;
                let ghost kv = Seq::new(kept@.len(), |k: int| (kept@[k].0@, kept@[k].1));
                kept.push((key, rec));
                proof {
                    assert(Seq::new(kept@.len(), |k: int| (kept@[k].0@, kept@[k].1)) =~= kv.push(
                        oldv[i as int],
                    ));
                }
            }
            i = i + 1;
        }
        proof {
            assert(oldv.subrange(0, n as int) =~= oldv);
        }
        self.entries = kept;
        proof {
            assert(self@ =~= Seq::new(kept@.len(), |k: int| (kept@[k].0@, kept@[k].1)));
        }
    }
}

/// The store after a sweep: exactly the records seen at or after the
/// cutoff, in their original order.
pub open spec fn spec_swept(
    s: Seq<(Seq<char>, SessionRecord)>,
    cutoff: u64,
) -> Seq<(Seq<char>, SessionRecord)>
    decreases s.len(),
{
    if s.len() == 0 {
        s
    } else if s.last().1.last_seen >= cutoff {
        spec_swept(s.drop_last(), cutoff).push(s.last())
    } else {
        spec_swept(s.drop_last(), cutoff)
    }
}

/// Finds or mints the session for a request: a recognised `session_id`
/// cookie is refreshed; anything else gets a fresh identifier and record.
pub fn handle_session(request: &HttpRequest, store: &mut SessionStore, now: u64) -> (r: Cookie)
    ensures
        r.name@ == "session_id"@,
        spec_store_lookup(final(store)@, r.value@) matches Some(rec) && rec.last_seen == now,
        ({
            let sid = match crate::request::spec_lookup(request.headers@, "cookie"@) {
                Some(h) => spec_cookie_sid(h),
                None => None,
            };
            match sid {
                Some(id) => if spec_store_lookup(old(store)@, id) is Some {
                    &&& r.value@ == id
                    &&& final(store)@.len() == old(store)@.len()
                    &&& forall|i: int|
                        0 <= i < old(store)@.len() ==> (#[trigger] final(store)@[i]).0 == old(
                            store,
                        )@[i].0 && final(store)@[i].1.created_at == old(store)@[i].1.created_at
                            && (final(store)@[i].1.last_seen == if old(store)@[i].0 == id {
                            now
                        } else {
                            old(store)@[i].1.last_seen
                        })
                } else {
                    &&& r.value@.len() == 36
                    &&& final(store)@ == old(store)@.push(
                        (r.value@, SessionRecord { created_at: now, last_seen: now }),
                    )
                },
                None => {
                    &&& r.value@.len() == 36
                    &&& final(store)@ == old(store)@.push(
                        (r.value@, SessionRecord { created_at: now, last_seen: now }),
                    )
                },
            }
        }),
{
    let sid: Option<String> = match request.headers.get("cookie") {
        Some(h) => find_session_id(h.as_str()),
        None => None,
    };
    match sid {
        Some(id) => {
            match store.get(id.as_str()) {
                Some(_) => {
                    let ghost pre = store@;
                    store.refresh(id.as_str(), now);
                    proof {
                        lemma_refresh_lookup(pre, store@, id@, now);
                    }
                    Cookie::session(id)
                },
                None => {
                    let id2 = fresh_id();
                    let rec = SessionRecord { created_at: now, last_seen: now };
                    store.insert(id2.clone(), rec);
                    proof {
                        assert(store@.last() == (id2@, rec));
                    }
                    Cookie::session(id2)
                },
            }
        },
        None => {
            let id2 = fresh_id();
            let rec = SessionRecord { created_at: now, last_seen: now };
            store.insert(id2.clone(), rec);
            proof {
                assert(store@.last() == (id2@, rec));
            }
            Cookie::session(id2)
        },
    }
}

proof fn lemma_refresh_lookup(
    olds: Seq<(Seq<char>, SessionRecord)>,
    news: Seq<(Seq<char>, SessionRecord)>,
    id: Seq<char>,
    now: u64,
)
    requires
        news.len() == olds.len(),
        forall|i: int|
            0 <= i < olds.len() ==> (#[trigger] news[i]).0 == olds[i].0
                && news[i].1.created_at == olds[i].1.created_at && (news[i].1.last_seen == if olds[i].0
                == id {
                now
            } else {
                olds[i].1.last_seen
            }),
        spec_store_lookup(olds, id) is Some,
    ensures
        spec_store_lookup(news, id) matches Some(rec) && rec.last_seen == now,
    decreases olds.len(),
{
    assert(olds.len() > 0);
    if news.last().0 == id {
        assert(olds.last().0 == id);
        assert(news.last().1.last_seen == now);
    } else {
        assert(olds.last().0 != id);
        lemma_refresh_lookup(olds.drop_last(), news.drop_last(), id, now);
    }
}

} // verus!
