//! The session store: an in-memory table from opaque token to
//! authenticated context, and the session cookie texts.
//!
//! The store itself is plain data with `&mut` methods; the web layer wraps
//! it in a reader/writer lock (shared lookups, exclusive `create` and
//! `remove`) and owns that discipline. `get` hands the record back by
//! value, so no caller retains a reference into the store past the call.

use vstd::prelude::*;
use vstd::hash_map::HashMapWithView;

verus! {

broadcast use vstd::std_specs::hash::axiom_u128_obeys_hash_table_key_model;

/// One authenticated browser session: the credentials and the resolved
/// endpoint and account, enough to rebuild a client without re-running
/// discovery.
pub struct Session {
    pub username: String,
    pub password: String,
    pub api_url: String,
    pub account_id: String,
}

/// A table from session token to session record. A token is minted once
/// per successful login and stays valid until the record is removed; there
/// is no expiry.
pub struct SessionStore {
    sessions: HashMapWithView<u128, Session>,
}

impl View for SessionStore {
    type V = Map<u128, Session>;

    closed spec fn view(&self) -> Map<u128, Session> {
        self.sessions@
    }
}

/// What the uuid crate mints for `now_v7`, read as its 128-bit value:
/// coarsely time-ordered and otherwise random, so nothing can be promised
/// of the value itself.
#[verifier::external_body]
fn fresh_token() -> u128 {
    uuid::Uuid::now_v7().as_u128()
}

impl SessionStore {
    /// An empty store.
    pub fn new() -> (r: SessionStore)
        ensures
            r@ == Map::<u128, Session>::empty(),
    {
        SessionStore { sessions: HashMapWithView::new() }
    }

    /// Mints a fresh token and files the record under it. The token
    /// comes from a time-ordered random scheme, so distinctness of two
    /// tokens holds with overwhelming probability but is not a theorem;
    /// what is promised is that exactly this record now stands under the
    /// returned token.
    pub fn create(&mut self, session: Session) -> (token: u128)
        ensures
            final(self)@ == old(self)@.insert(token, session),
    {
        let token = fresh_token();
        self.sessions.insert(token, session);
        token
    }

    /// The record under `token`, if any, by value: no caller ever holds a
    /// live reference into the store past the lookup.
    pub fn get(&self, token: u128) -> (r: Option<Session>)
        ensures
            match r {
                Some(s) => self@.contains_key(token) && s == self@[token],
                None => !self@.contains_key(token),
            },
    {
        match self.sessions.get(&token) {
            Some(s) => Some(
                Session {
                    username: s.username.clone(),
                    password: s.password.clone(),
                    api_url: s.api_url.clone(),
                    account_id: s.account_id.clone(),
                },
            ),
            None => None,
        }
    }

    /// Deletes and returns the record under `token`, if any.
    pub fn remove(&mut self, token: u128) -> (r: Option<Session>)
        ensures
            final(self)@ == old(self)@.remove(token),
            match r {
                Some(s) => old(self)@.contains_key(token) && s == old(self)@[token],
                None => !old(self)@.contains_key(token),
            },
    {
        let r = self.sessions.remove(&token);
        proof {
            if !old(self)@.contains_key(token) {
                assert(old(self)@.remove(token) =~= old(self)@);
            }
        }
        r
    }

    /// Whether a record stands under `token`.
    pub fn contains(&self, token: u128) -> (r: bool)
        ensures
            r == self@.contains_key(token),
    {
        self.sessions.contains_key(&token)
    }
}

/// A removed token is gone: right after `remove(token)` the store no
/// longer holds it, so `exists(token)` answers false.
pub proof fn lemma_removed_token_absent(before: Map<u128, Session>, token: u128)
    ensures
        !before.remove(token).contains_key(token),
{
}

/// What the uuid crate renders a 128-bit value as: the lowercase
/// hyphenated text, a function of the value alone.
pub uninterp spec fn uuid_text_of(t: u128) -> Seq<char>;

/// Relies on `uuid::Uuid::from_u128` and the hyphenated formatter: the
/// canonical 36-character text of the value.
#[verifier::external_body]
fn uuid_to_string(t: u128) -> (r: String)
    ensures
        r@ == uuid_text_of(t),
{
    uuid::Uuid::from_u128(t).hyphenated().to_string()
}

/// What `uuid::Uuid::parse_str` reads a text as, taken by its 128-bit
/// value: `None` exactly where the text is no UUID.
pub uninterp spec fn uuid_value_of(s: Seq<char>) -> Option<u128>;

/// Relies on `uuid::Uuid::parse_str` and `as_u128`: deterministic in the
/// text alone.
#[verifier::external_body]
fn parse_uuid_str(s: &str) -> (r: Option<u128>)
    ensures
        r == uuid_value_of(s@),
{
    match uuid::Uuid::parse_str(s) {
        Ok(u) => Some(u.as_u128()),
        Err(_) => None,
    }
}

/// The characters trimmed around a cookie segment.
pub open spec fn is_cookie_space(c: char) -> bool {
    c == ' ' || c == '\t'
}

pub open spec fn trim_front(s: Seq<char>) -> Seq<char>
    decreases s.len(),
{
    if s.len() > 0 && is_cookie_space(s[0]) {
        trim_front(s.drop_first())
    } else {
        s
    }
}

pub open spec fn trim_back(s: Seq<char>) -> Seq<char>
    decreases s.len(),
{
    if s.len() > 0 && is_cookie_space(s.last()) {
        trim_back(s.drop_last())
    } else {
        s
    }
}

/// A segment with spaces and tabs removed from both ends.
pub open spec fn trim_spaces(s: Seq<char>) -> Seq<char> {
    trim_back(trim_front(s))
}

/// The value of the first `;`-separated segment that, trimmed, starts
/// with `session=`, if any.
pub open spec fn cookie_scan(h: Seq<char>) -> Option<Seq<char>>
    decreases h.len(),
    via cookie_scan_dec
{
    match crate::text::find_from(h, ";"@, 0) {
        Some(i) => {
            let t = trim_spaces(h.take(i));
            if crate::text::has_prefix(t, "session="@) {
                Some(t.skip(8))
            } else {
                cookie_scan(h.skip(i + 1))
            }
        },
        None => {
            let t = trim_spaces(h);
            if crate::text::has_prefix(t, "session="@) {
                Some(t.skip(8))
            } else {
                None
            }
        },
    }
}

#[via_fn]
proof fn cookie_scan_dec(h: Seq<char>) {
    reveal_strlit(";");
    match crate::text::find_from(h, ";"@, 0) {
        Some(i) => {
            crate::text::lemma_find_from_some(h, ";"@, 0, i);
        },
        None => {},
    }
}

/// The token a Cookie header carries, if any: the first `session=` value,
/// read as a UUID.
pub open spec fn session_token_of(h: Seq<char>) -> Option<u128> {
    match cookie_scan(h) {
        Some(v) => uuid_value_of(v),
        None => None,
    }
}

/// Trims spaces and tabs off both ends of a cookie segment.
#[verifier::loop_isolation(false)]
fn trim_cookie(seg: &str) -> (r: String)
    ensures
        r@ == trim_spaces(seg@),
{
    let n = seg.unicode_len();
    proof {
        assert(seg@.skip(0) =~= seg@);
    }
    let mut lo: usize = 0;
    loop
        invariant
            n == seg@.len(),
            lo <= n,
            trim_front(seg@) == trim_front(seg@.skip(lo as int)),
        decreases n - lo,
    {
        if lo == n {
            break;
        }
        let c = seg.get_char(lo);
        if c != ' ' && c != '\t' {
            break;
        }
        proof {
            assert(seg@.skip(lo as int)[0] == seg@[lo as int]);
            assert(seg@.skip(lo as int).drop_first() =~= seg@.skip(lo + 1));
        }
        lo = lo + 1;
    }
    proof {
        if lo == n {
            assert(seg@.skip(n as int) =~= Seq::<char>::empty());
        }
        assert(trim_front(seg@) == seg@.skip(lo as int));
        assert(seg@.skip(lo as int).take(n - lo) =~= seg@.skip(lo as int));
    }
    let ghost fronted: Seq<char> = seg@.skip(lo as int);
    let mut hi: usize = n;
    loop
        invariant
            n == seg@.len(),
            lo <= hi <= n,
            fronted == seg@.skip(lo as int),
            trim_back(fronted) == trim_back(fronted.take(hi - lo)),
        decreases hi,
    {
        if hi == lo {
            break;
        }
        let c = seg.get_char(hi - 1);
        if c != ' ' && c != '\t' {
            break;
        }
        proof {
            assert(fronted.take(hi - lo).last() == seg@[hi - 1]);
            assert(fronted.take(hi - lo).drop_last() =~= fronted.take(hi - 1 - lo));
        }
        hi = hi - 1;
    }
    proof {
        if hi == lo {
            assert(fronted.take(0) =~= Seq::<char>::empty());
        } else {
            assert(fronted.take(hi - lo).last() == seg@[hi - 1]);
        }
        assert(trim_back(fronted) == fronted.take(hi - lo));
        assert(fronted.take(hi - lo) =~= seg@.subrange(lo as int, hi as int));
    }
    seg.substring_char(lo, hi).to_owned()
}

/// The index of the first `;` in `s` at or after `from`.
fn find_semicolon_from(s: &str, from: usize) -> (r: Option<usize>)
    requires
        from <= s@.len(),
    ensures
        match r {
            Some(i) => crate::text::find_from(s@, ";"@, from as nat) == Some(i as int),
            None => crate::text::find_from(s@, ";"@, from as nat) is None,
        },
{
    let ghost p: Seq<char> = ";"@;
    proof {
        reveal_strlit(";");
        assert(p =~= seq![';']);
    }
    let n = s.unicode_len();
    let mut at: usize = from;
    while at < n
        invariant
            n == s@.len(),
            from <= at <= n,
            p == ";"@,
            p.len() == 1,
            p[0] == ';',
            crate::text::find_from(s@, p, from as nat) == crate::text::find_from(s@, p, at as nat),
        decreases n - at,
    {
        if s.get_char(at) == ';' {
            proof {
                assert(s@.subrange(at as int, at + 1) =~= p);
            }
            return Some(at);
        }
        proof {
            if crate::text::occurs_at(s@, p, at as int) {
                assert(s@.subrange(at as int, at + 1)[0] == s@[at as int]);
            }
        }
        at = at + 1;
    }
    None
}

/// Reads the session token out of a Cookie header, as
/// [`session_token_of`] says: the first `session=` segment decides, and
/// its value must be a UUID.
#[verifier::loop_isolation(false)]
pub fn parse_session_cookie(cookie_header: &str) -> (r: Option<u128>)
    ensures
        r == session_token_of(cookie_header@),
{
    let ghost h: Seq<char> = cookie_header@;
    let n = cookie_header.unicode_len();
    proof {
        assert(h.skip(0) =~= h);
    }
    let mut start: usize = 0;
    loop
        invariant
            n == h.len(),
            start <= n,
            cookie_scan(h) == cookie_scan(h.skip(start as int)),
        decreases n - start,
    {
        let ghost suffix: Seq<char> = h.skip(start as int);
        let semi = find_semicolon_from(cookie_header, start);
        let end = match semi {
            Some(i) => i,
            None => n,
        };
        proof {
            reveal_strlit(";");
            crate::text::lemma_find_from_offset(h, ";"@, start as nat, 0);
            match semi {
                Some(i) => {
                    crate::text::lemma_find_from_some(h, ";"@, start as nat, i as int);
                    assert(end < n);
                    assert(crate::text::find_from(suffix, ";"@, 0) == Some(end - start));
                    assert(suffix.take(end - start) =~= h.subrange(start as int, end as int));
                },
                None => {
                    assert(crate::text::find_from(suffix, ";"@, 0) is None);
                    assert(suffix =~= h.subrange(start as int, n as int));
                },
            }
        }
        let seg = cookie_header.substring_char(start, end);
        let t = trim_cookie(seg);
        if crate::text::starts_with(t.as_str(), "session=") {
            proof {
                reveal_strlit("session=");
                assert("session="@.len() == 8);
            }
            let tn = t.as_str().unicode_len();
            let value = t.as_str().substring_char(8, tn);
            proof {
                assert(value@ =~= t@.skip(8));
            }
            return parse_uuid_str(value);
        }
        if end == n {
            return None;
        }
        proof {
            assert(suffix.skip(end - start + 1) =~= h.skip(end + 1));
        }
        start = end + 1;
    }
}

/// The `Set-Cookie` value that stores a session token.
pub open spec fn session_cookie_text(t: u128) -> Seq<char> {
    "session="@ + uuid_text_of(t) + "; HttpOnly; SameSite=Strict; Path=/"@
}

/// Builds the `Set-Cookie` value for a freshly minted token.
pub fn make_session_cookie(token: u128) -> (r: String)
    ensures
        r@ == session_cookie_text(token),
{
    let mut out = "session=".to_owned();
    let t = uuid_to_string(token);
    out.append(t.as_str());
    out.append("; HttpOnly; SameSite=Strict; Path=/");
    out
}

/// The `Set-Cookie` value that erases the session cookie at once.
pub fn clear_session_cookie() -> (r: String)
    ensures
        r@ == "session=; HttpOnly; SameSite=Strict; Path=/; Max-Age=0"@,
{
    "session=; HttpOnly; SameSite=Strict; Path=/; Max-Age=0".to_owned()
}

} // verus!
