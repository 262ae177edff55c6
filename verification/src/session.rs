//! In-memory sessions: per-client key/value data with a lifetime, kept in a
//! store and tracked by a cookie.
//!
//! Times are milliseconds on a monotonic clock that the caller reads; a
//! session expires once more than its lifetime has passed since it was last
//! accessed.

use vstd::prelude::*;

use crate::cookie::{cookie_text, CookieBuilder, CookieView, SameSite};
use crate::middleware::{capped_millis, duration_millis};
use crate::error::Error;
use crate::request::Request;
use crate::response::{string_views, Response};
use crate::strmap::{count_where, keys_where, KeyMap, StrMap};

verus! {

/// Session data for a single client.
pub struct Session {
    /// Unique session identifier.
    pub id: String,
    /// Key-value session data.
    pub data: StrMap,
    /// When this session was created (ms).
    pub created_at: u64,
    /// When this session was last accessed (ms).
    pub last_accessed: u64,
    /// Session lifetime (ms).
    pub max_age: u64,
}

/// What a session holds.
pub struct SessionView {
    pub id: Seq<char>,
    pub data: Map<Seq<char>, Seq<char>>,
    pub created_at: u64,
    pub last_accessed: u64,
    pub max_age: u64,
}

impl View for Session {
    type V = SessionView;

    open spec fn view(&self) -> SessionView {
        SessionView {
            id: self.id@,
            data: self.data@,
            created_at: self.created_at,
            last_accessed: self.last_accessed,
            max_age: self.max_age,
        }
    }
}

/// A session has expired at `now` when more than its lifetime has passed
/// since it was last accessed.
pub open spec fn expired(s: SessionView, now: u64) -> bool {
    now > s.last_accessed && now - s.last_accessed > s.max_age
}

/// A new session: no data, created and accessed at `now`.
pub open spec fn fresh_session(id: Seq<char>, now: u64, max_age: u64) -> SessionView {
    SessionView { id, data: Map::empty(), created_at: now, last_accessed: now, max_age }
}

/// Lowercase hexadecimal digits.
pub open spec fn is_lower_hex(c: char) -> bool {
    ('0' <= c && c <= '9') || ('a' <= c && c <= 'f')
}

/// The text of a version-4 UUID: 36 characters, hyphens at 8, 13, 18 and
/// 23, lowercase hex digits elsewhere, the version digit `4` at 14.
pub open spec fn uuid_v4_text(s: Seq<char>) -> bool {
    &&& s.len() == 36
    &&& forall|i: int|
        0 <= i < 36 ==> if i == 8 || i == 13 || i == 18 || i == 23 {
            s[i] == '-'
        } else {
            is_lower_hex(#[trigger] s[i])
        }
    &&& s[14] == '4'
}

/// The lowercase hex digit of a value below 16.
pub open spec fn hex_digit(n: u8) -> char {
    if n < 10 {
        (48 + n) as char
    } else {
        (87 + n) as char
    }
}

/// Two lowercase hex digits per byte, high nibble first.
pub open spec fn hex_of(b: Seq<u8>) -> Seq<char> {
    Seq::new(
        2 * b.len(),
        |i: int|
            if i % 2 == 0 {
                hex_digit(b[i / 2] >> 4u8)
            } else {
                hex_digit(b[i / 2] & 0x0Fu8)
            },
    )
}

/// Sixteen random bytes with the version-4 and RFC 4122 variant bits set.
pub open spec fn uuid_v4_bytes(b: Seq<u8>) -> Seq<u8> {
    b.update(6, (b[6] & 0x0Fu8) | 0x40u8).update(8, (b[8] & 0x3Fu8) | 0x80u8)
}

/// The hyphenated lowercase text of the version-4 UUID made of 16 random
/// bytes.
pub open spec fn uuid_text(b: Seq<u8>) -> Seq<char> {
    let h = hex_of(uuid_v4_bytes(b));
    h.subrange(0, 8) + seq!['-'] + h.subrange(8, 12) + seq!['-'] + h.subrange(12, 16) + seq!['-'] + h.subrange(
        16,
        20,
    ) + seq!['-'] + h.subrange(20, 32)
}

/// `getrandom::fill` on a buffer of 16 bytes: random bytes from the
/// operating system, or `None` when its random source fails. Which bytes
/// is left unsaid.
#[verifier::external_body]
fn random_bytes16() -> (r: Option<Vec<u8>>)
    ensures
        r matches Some(b) ==> b@.len() == 16,
{
    let mut buf = [0u8; 16];
    match getrandom::fill(&mut buf) {
        Ok(()) => Some(buf.to_vec()),
        Err(_) => None,
    }
}

/// `uuid::Builder::from_random_bytes(b).into_uuid().to_string()`: the
/// version and variant bits set in the 16 bytes, then the hyphenated
/// lowercase hex form.
#[verifier::external_body]
fn uuid_from_random(b: &[u8]) -> (s: String)
    requires
        b@.len() == 16,
    ensures
        s@ == uuid_text(b@),
{
    let mut bytes = [0u8; 16];
    bytes.copy_from_slice(b);
    uuid::Builder::from_random_bytes(bytes).into_uuid().to_string()
}

/// The text made of any 16 bytes is that of a version-4 UUID.
pub proof fn lemma_uuid_text_is_v4(b: Seq<u8>)
    requires
        b.len() == 16,
    ensures
        uuid_v4_text(uuid_text(b)),
{
    let v = uuid_v4_bytes(b);
    let h = hex_of(v);
    let s = uuid_text(b);
    assert(h.len() == 32);
    assert forall|i: int| 0 <= i < 32 implies is_lower_hex(#[trigger] h[i]) by {
        let x = v[i / 2];
        assert(x >> 4u8 < 16) by (bit_vector);
        assert(x & 0x0Fu8 < 16) by (bit_vector);
    }
    let b6 = b[6];
    assert(((b6 & 0x0Fu8) | 0x40u8) >> 4u8 == 4) by (bit_vector);
    assert(v[6] == (b6 & 0x0Fu8) | 0x40u8);
    assert(s.len() == 36);
    assert forall|i: int|
        0 <= i < 36 implies (if i == 8 || i == 13 || i == 18 || i == 23 {
            s[i] == '-'
        } else {
            is_lower_hex(#[trigger] s[i])
        }) by {
        if i < 8 {
            assert(s[i] == h[i]);
        } else if i == 8 {
        } else if i < 13 {
            assert(s[i] == h[i - 1]);
        } else if i == 13 {
        } else if i < 18 {
            assert(s[i] == h[i - 2]);
        } else if i == 18 {
        } else if i < 23 {
            assert(s[i] == h[i - 3]);
        } else if i == 23 {
        } else {
            assert(s[i] == h[i - 4]);
        }
    }
    assert(s[14] == h[12]);
    assert(h[12] == hex_digit(v[6] >> 4u8));
}

/// A fresh random session id, or `None` when the operating system's random
/// source fails.
fn new_session_id() -> (r: Option<String>)
    ensures
        r matches Some(s) ==> uuid_v4_text(s@),
{
    match random_bytes16() {
        Some(b) => {
            let s = uuid_from_random(b.as_slice());
            proof {
                lemma_uuid_text_is_v4(b@);
            }
            Some(s)
        },
        None => None,
    }
}

/// The error when no random session id could be made.
pub open spec fn no_random_id(e: Error) -> bool {
    e matches Error::Internal(m) && m@ == "could not retrieve random bytes for a session id"@
}

impl Session {
    fn fresh(id: String, now: u64, max_age: u64) -> (s: Session)
        ensures
            s@ == fresh_session(id@, now, max_age),
    {
        Session { id, data: StrMap::new(), created_at: now, last_accessed: now, max_age }
    }

    /// The value stored under `key`.
    pub fn get(&self, key: &str) -> (r: Option<&str>)
        ensures
            match r {
                Some(v) => self@.data.contains_key(key@) && self@.data[key@] == v@,
                None => !self@.data.contains_key(key@),
            },
    {
        match self.data.get(key) {
            Some(v) => Some(v.as_str()),
            None => None,
        }
    }

    /// Sets the value of `key`.
    pub fn set(&mut self, key: &str, value: &str)
        ensures
            final(self)@ == (SessionView { data: old(self)@.data.insert(key@, value@), ..old(self)@ }),
    {
        self.data.insert(key.to_owned(), value.to_owned());
    }

    /// Removes `key`, returning its value.
    pub fn remove(&mut self, key: &str) -> (r: Option<String>)
        ensures
            final(self)@ == (SessionView { data: old(self)@.data.remove(key@), ..old(self)@ }),
            match r {
                Some(v) => old(self)@.data.contains_key(key@) && old(self)@.data[key@] == v@,
                None => !old(self)@.data.contains_key(key@),
            },
    {
        self.data.remove(key)
    }

    /// Removes all session data.
    pub fn clear(&mut self)
        ensures
            final(self)@ == (SessionView { data: Map::empty(), ..old(self)@ }),
    {
        self.data.clear();
    }

    /// Whether the session has expired at `now`.
    pub fn is_expired(&self, now: u64) -> (b: bool)
        ensures
            b == expired(self@, now),
    {
        now > self.last_accessed && now - self.last_accessed > self.max_age
    }

    /// A copy of this session.
    pub fn duplicate(&self) -> (s: Session)
        ensures
            s@ == self@,
    {
        Session {
            id: self.id.clone(),
            data: self.data.duplicate(),
            created_at: self.created_at,
            last_accessed: self.last_accessed,
            max_age: self.max_age,
        }
    }
}

/// The settings and sessions of a store.
pub struct SessionStoreView {
    pub sessions: Map<Seq<char>, SessionView>,
    pub cookie_name: Seq<char>,
    pub max_age: u64,
    pub cookie_path: Seq<char>,
    pub cookie_secure: bool,
    pub cookie_http_only: bool,
}

/// The cookie that hands a new session's id to the client.
pub open spec fn session_cookie(st: SessionStoreView, id: Seq<char>) -> CookieView {
    CookieView {
        name: st.cookie_name,
        value: id,
        path: Some(st.cookie_path),
        domain: None,
        max_age: Some((st.max_age / 1000) as i64),
        expires: None,
        secure: st.cookie_secure,
        http_only: st.cookie_http_only,
        same_site: Some(SameSite::Lax),
    }
}

/// The ids of the sessions that have not expired at `now`.
pub open spec fn live_ids(m: Map<Seq<char>, SessionView>, now: u64) -> Set<Seq<char>> {
    Set::new(|k: Seq<char>| m.contains_key(k) && !expired(m[k], now))
}

/// The session a request brings, if its cookie names a stored session that
/// has not expired.
pub open spec fn current_session(st: SessionStoreView, cookies: Map<Seq<char>, Seq<char>>, now: u64) -> Option<Seq<char>> {
    if cookies.contains_key(st.cookie_name) && st.sessions.contains_key(cookies[st.cookie_name])
        && !expired(st.sessions[cookies[st.cookie_name]], now) {
        Some(cookies[st.cookie_name])
    } else {
        None
    }
}

/// An in-memory session store.
pub struct SessionStore {
    sessions: KeyMap<Session>,
    cookie_name: String,
    max_age: u64,
    cookie_path: String,
    cookie_secure: bool,
    cookie_http_only: bool,
}

impl View for SessionStore {
    type V = SessionStoreView;

    closed spec fn view(&self) -> SessionStoreView {
        SessionStoreView {
            sessions: self.sessions@.map_values(|s: Session| s@),
            cookie_name: self.cookie_name@,
            max_age: self.max_age,
            cookie_path: self.cookie_path@,
            cookie_secure: self.cookie_secure,
            cookie_http_only: self.cookie_http_only,
        }
    }
}

impl SessionStore {
    /// Every session is stored under its own id.
    #[verifier::type_invariant]
    closed spec fn keyed_by_id(&self) -> bool {
        forall|k: Seq<char>| #[trigger] self.sessions@.contains_key(k) ==> self.sessions@[k].id@ == k
    }

    /// A store with no sessions, the cookie `sid` on path `/`, HTTP-only and
    /// not secure, and sessions that last an hour.
    pub fn new() -> (s: Self)
        ensures
            s@ == (SessionStoreView {
                sessions: Map::empty(),
                cookie_name: "sid"@,
                max_age: 3600000,
                cookie_path: "/"@,
                cookie_secure: false,
                cookie_http_only: true,
            }),
    {
        let s = SessionStore {
            sessions: KeyMap::new(),
            cookie_name: "sid".to_owned(),
            max_age: 3600000,
            cookie_path: "/".to_owned(),
            cookie_secure: false,
            cookie_http_only: true,
        };
        assert(s@.sessions =~= Map::<Seq<char>, SessionView>::empty());
        s
    }

    /// Sets the session cookie name.
    pub fn cookie_name(self, name: &str) -> (s: Self)
        ensures
            s@ == (SessionStoreView { cookie_name: name@, ..self@ }),
    {
        proof {
            use_type_invariant(&self);
        }
        SessionStore { cookie_name: name.to_owned(), ..self }
    }

    /// Sets the session lifetime in milliseconds.
    pub fn max_age_ms(self, ms: u64) -> (s: Self)
        ensures
            s@ == (SessionStoreView { max_age: ms, ..self@ }),
    {
        proof {
            use_type_invariant(&self);
        }
        SessionStore { max_age: ms, ..self }
    }

    /// Sets the session lifetime (whole milliseconds of `duration`).
    pub fn max_age(self, duration: std::time::Duration) -> (s: Self)
        ensures
            s@ == (SessionStoreView { max_age: capped_millis(duration), ..self@ }),
    {
        let ms = duration_millis(&duration);
        self.max_age_ms(ms)
    }

    /// Sets the cookie path.
    pub fn cookie_path(self, path: &str) -> (s: Self)
        ensures
            s@ == (SessionStoreView { cookie_path: path@, ..self@ }),
    {
        proof {
            use_type_invariant(&self);
        }
        SessionStore { cookie_path: path.to_owned(), ..self }
    }

    /// Sets the cookie secure flag.
    pub fn cookie_secure(self, secure: bool) -> (s: Self)
        ensures
            s@ == (SessionStoreView { cookie_secure: secure, ..self@ }),
    {
        proof {
            use_type_invariant(&self);
        }
        SessionStore { cookie_secure: secure, ..self }
    }

    /// A copy of the session stored under `session_id`, unless it has
    /// expired at `now`.
    pub fn get_session(&self, session_id: &str, now: u64) -> (r: Option<Session>)
        ensures
            match r {
                Some(s) => self@.sessions.contains_key(session_id@) && !expired(self@.sessions[session_id@], now)
                    && s@ == self@.sessions[session_id@] && s@.id == session_id@,
                None => !self@.sessions.contains_key(session_id@) || expired(self@.sessions[session_id@], now),
            },
    {
        proof {
            use_type_invariant(self);
        }
        match self.sessions.get(session_id) {
            Some(s) => {
                if s.is_expired(now) {
                    None
                } else {
                    Some(s.duplicate())
                }
            },
            None => None,
        }
    }

    /// Stores a new session with the given id, created at `now`, and
    /// returns a copy of it.
    pub fn create_session_with_id(&mut self, id: String, now: u64) -> (s: Session)
        ensures
            s@ == fresh_session(id@, now, old(self)@.max_age),
            final(self)@ == (SessionStoreView { sessions: old(self)@.sessions.insert(id@, s@), ..old(self)@ }),
    {
        let session = Session::fresh(id.clone(), now, self.max_age);
        let copy = session.duplicate();
        self.put(session);
        copy
    }

    /// Creates a new session with a random id at `now`, stores it and
    /// returns a copy of it; an error, with nothing stored, when the
    /// operating system's random source fails.
    pub fn create_session(&mut self, now: u64) -> (r: Result<Session, Error>)
        ensures
            match r {
                Ok(s) => {
                    &&& uuid_v4_text(s@.id)
                    &&& s@ == fresh_session(s@.id, now, old(self)@.max_age)
                    &&& final(self)@ == (SessionStoreView { sessions: old(self)@.sessions.insert(s@.id, s@), ..old(self)@ })
                },
                Err(e) => no_random_id(e) && final(self)@ == old(self)@,
            },
    {
        match new_session_id() {
            Some(id) => Ok(self.create_session_with_id(id, now)),
            None => Err(Error::Internal("could not retrieve random bytes for a session id".to_owned())),
        }
    }

    fn put(&mut self, session: Session)
        ensures
            final(self)@ == (SessionStoreView { sessions: old(self)@.sessions.insert(session@.id, session@), ..old(self)@ }),
    {
        proof {
            use_type_invariant(&*self);
        }
        let ghost sv = session@;
        let ghost old_m = self.sessions@;
        let key = session.id.clone();
        let mut m: KeyMap<Session> = KeyMap::new();
        std::mem::swap(&mut m, &mut self.sessions);
        m.insert(key, session);
        assert forall|k: Seq<char>| #[trigger] m@.contains_key(k) implies m@[k].id@ == k by {
            if k != sv.id {
                assert(old_m.contains_key(k));
            }
        }
        self.sessions = m;
        assert(self@.sessions =~= old(self)@.sessions.insert(sv.id, sv));
    }

    /// Stores a copy of `session` under its id, replacing what was there.
    pub fn save_session(&mut self, session: &Session)
        ensures
            final(self)@ == (SessionStoreView { sessions: old(self)@.sessions.insert(session@.id, session@), ..old(self)@ }),
    {
        self.put(session.duplicate());
    }

    /// Removes the session stored under `session_id`.
    pub fn destroy_session(&mut self, session_id: &str)
        ensures
            final(self)@ == (SessionStoreView { sessions: old(self)@.sessions.remove(session_id@), ..old(self)@ }),
    {
        proof {
            use_type_invariant(&*self);
        }
        let ghost old_m = self.sessions@;
        let mut m: KeyMap<Session> = KeyMap::new();
        std::mem::swap(&mut m, &mut self.sessions);
        let _ = m.remove(session_id);
        assert forall|k: Seq<char>| #[trigger] m@.contains_key(k) implies m@[k].id@ == k by {
            assert(old_m.contains_key(k));
        }
        self.sessions = m;
        assert(self@.sessions =~= old(self)@.sessions.remove(session_id@));
    }

    /// Removes every session that has expired at `now`.
    pub fn cleanup(&mut self, now: u64)
        ensures
            final(self)@ == (SessionStoreView {
                sessions: old(self)@.sessions.restrict(live_ids(old(self)@.sessions, now)),
                ..old(self)@
            }),
    {
        proof {
            use_type_invariant(&*self);
        }
        let n = self.sessions.len();
        let mut keep: Vec<bool> = Vec::new();
        let mut i: usize = 0;
        while i < n
            invariant
                n == self.sessions.entries().len(),
                i <= n,
                keep@.len() == i,
                forall|j: int| 0 <= j < i ==> keep@[j] == !expired((#[trigger] self.sessions.entries()[j]).1@, now),
            decreases n - i,
        {
            let (_, s) = self.sessions.entry_at(i);
            keep.push(!s.is_expired(now));
            i = i + 1;
        }
        let ghost old_e = self.sessions.entries();
        let ghost old_m = self.sessions@;
        self.sessions.keys_distinct();
        let mut m: KeyMap<Session> = KeyMap::new();
        std::mem::swap(&mut m, &mut self.sessions);
        m.retain_where(&keep);
        proof {
            assert forall|k: Seq<char>| #[trigger] m@.contains_key(k) implies old_m.contains_key(k) && m@[k]
                == old_m[k] && !expired(old_m[k]@, now) by {
                crate::strmap::lemma_kept_map_keys(old_e, keep@, n as int, k);
                let t = choose|t: int| 0 <= t < n && old_e[t].0 == k;
                crate::strmap::lemma_kept_map(old_e, keep@, n as int, t);
                crate::strmap::lemma_key_map_at(old_e, t);
            }
            assert forall|k: Seq<char>| old_m.contains_key(k) && !expired(old_m[k]@, now) implies #[trigger] m@.contains_key(k) by {
                let t = choose|t: int| 0 <= t < old_e.len() && old_e[t].0 == k;
                crate::strmap::lemma_kept_map(old_e, keep@, n as int, t);
                crate::strmap::lemma_key_map_at(old_e, t);
            }
        }
        self.sessions = m;
        assert(self@.sessions =~= old(self)@.sessions.restrict(live_ids(old(self)@.sessions, now)));
    }

    /// The number of sessions that have not expired at `now`.
    pub fn count(&self, now: u64) -> (n: usize)
        ensures
            live_ids(self@.sessions, now).finite(),
            n == live_ids(self@.sessions, now).len(),
    {
        let ghost e = self.sessions.entries();
        let ghost p = |s: Session| !expired(s@, now);
        let len = self.sessions.len();
        let mut n: usize = 0;
        let mut i: usize = 0;
        while i < len
            invariant
                len == e.len(),
                e == self.sessions.entries(),
                forall|x: Session| #[trigger] p(x) == !expired(x@, now),
                i <= len,
                n == count_where(e.subrange(0, i as int), p),
                n <= i,
            decreases len - i,
        {
            assert(e.subrange(0, i + 1).drop_last() =~= e.subrange(0, i as int));
            let (_, s) = self.sessions.entry_at(i);
            assert(e.subrange(0, i + 1).last().1 == *s);
            let live = !s.is_expired(now);
            assert(p(*s) == live);
            if live {
                n = n + 1;
            }
            i = i + 1;
        }
        self.sessions.keys_distinct();
        proof {
            assert(e.subrange(0, len as int) =~= e);
            crate::strmap::lemma_count_where(e, p);
            assert(keys_where(self.sessions@, p) =~= live_ids(self@.sessions, now));
        }
        n
    }

    /// The session of a request at `now`: the one its cookie names, when
    /// stored and not expired; otherwise a new session is created and its
    /// cookie is set on the response. A copy of the session is attached to
    /// the request under `session`. When no new session can be made (the
    /// random source failed) the answer is that error and nothing changes.
    pub fn before(&mut self, req: &mut Request, res: &mut Response, now: u64) -> (r: Result<Session, Error>)
        ensures
            match r {
                Ok(s) => {
                    &&& *final(req) == (Request { extensions: final(req).extensions, ..*old(req) })
                    &&& final(req).extensions.keys() == old(req).extensions.keys().insert("session"@)
                    &&& match current_session(old(self)@, old(req).cookies@, now) {
                        Some(id) => s@ == old(self)@.sessions[id] && final(self)@ == old(self)@ && *final(res) == *old(res),
                        None => {
                            &&& uuid_v4_text(s@.id)
                            &&& s@ == fresh_session(s@.id, now, old(self)@.max_age)
                            &&& final(self)@ == (SessionStoreView { sessions: old(self)@.sessions.insert(s@.id, s@), ..old(self)@ })
                            &&& string_views(final(res).set_cookies@) == string_views(old(res).set_cookies@).push(
                                cookie_text(session_cookie(old(self)@, s@.id)),
                            )
                            &&& final(res).status_code == old(res).status_code
                            &&& final(res).headers == old(res).headers
                            &&& final(res).body == old(res).body
                            &&& final(res).sent == old(res).sent
                        },
                    }
                },
                Err(e) => {
                    &&& current_session(old(self)@, old(req).cookies@, now) is None
                    &&& no_random_id(e)
                    &&& final(self)@ == old(self)@ && *final(res) == *old(res) && *final(req) == *old(req)
                },
            },
    {
        match req.cookie(self.cookie_name.as_str()) {
            Some(id) => match self.get_session(id, now) {
                Some(s) => {
                    req.set_extension("session", s.duplicate());
                    return Ok(s);
                },
                None => {},
            },
            None => {},
        }
        let session = match self.create_session(now) {
            Ok(s) => s,
            Err(e) => {
                return Err(e);
            },
        };
        let mut cookie = CookieBuilder::new(self.cookie_name.as_str(), session.id.as_str()).path(
            self.cookie_path.as_str(),
        ).same_site(SameSite::Lax).max_age((self.max_age / 1000) as i64);
        if self.cookie_http_only {
            cookie = cookie.http_only();
        }
        if self.cookie_secure {
            cookie = cookie.secure();
        }
        res.set_cookie(cookie);
        req.set_extension("session", session.duplicate());
        Ok(session)
    }
}

} // verus!

verus! {

/// The store after a session is saved.
pub open spec fn with_session(st: SessionStoreView, s: SessionView) -> SessionStoreView {
    SessionStoreView { sessions: st.sessions.insert(s.id, s), ..st }
}

/// A saved session is what a request whose cookie names it gets, until it
/// expires.
pub proof fn law_saved_session_is_current(
    st: SessionStoreView,
    s: SessionView,
    cookies: Map<Seq<char>, Seq<char>>,
    now: u64,
)
    requires
        cookies.contains_key(st.cookie_name),
        cookies[st.cookie_name] == s.id,
        !expired(s, now),
    ensures
        current_session(with_session(st, s), cookies, now) == Some(s.id),
        with_session(st, s).sessions[s.id] == s,
{
}

/// A destroyed session is never brought back by its cookie.
pub proof fn law_destroyed_session_gone(
    st: SessionStoreView,
    id: Seq<char>,
    cookies: Map<Seq<char>, Seq<char>>,
    now: u64,
)
    requires
        cookies.contains_key(st.cookie_name),
        cookies[st.cookie_name] == id,
    ensures
        current_session(SessionStoreView { sessions: st.sessions.remove(id), ..st }, cookies, now) is None,
{
}

/// Removing expired sessions changes the session of no request.
pub proof fn law_cleanup_keeps_current(st: SessionStoreView, cookies: Map<Seq<char>, Seq<char>>, now: u64)
    ensures
        current_session(
            SessionStoreView { sessions: st.sessions.restrict(live_ids(st.sessions, now)), ..st },
            cookies,
            now,
        ) == current_session(st, cookies, now),
{
}

/// A new session has not expired when it is created.
pub proof fn law_fresh_session_live(id: Seq<char>, now: u64, max_age: u64)
    ensures
        !expired(fresh_session(id, now, max_age), now),
{
}

} // verus!

verus! {

impl Default for SessionStore {
    fn default() -> (s: Self)
        ensures
            s@ == (SessionStoreView {
                sessions: Map::empty(),
                cookie_name: "sid"@,
                max_age: 3600000,
                cookie_path: "/"@,
                cookie_secure: false,
                cookie_http_only: true,
            }),
    {
        SessionStore::new()
    }
}

} // verus!
