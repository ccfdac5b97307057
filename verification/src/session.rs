//! Server-side sessions keyed by a cookie.
use vstd::prelude::*;
use crate::strmap::{has_key, StrMap};
use crate::text::{
    chars_of, chars_start_with, find_char_from, hex, hex_string, is_whitespace, lemma_scan_char, push_str,
    scan_char, seq_starts_with, string_from_char_range, trim_end_where, trim_start_where, trim_ws,
    trim_ws_range, ws_pred,
};

verus! {

broadcast use vstd::string::group_string_axioms;

/// Time since `last`, in the same ticks, never negative.
pub open spec fn elapsed(now: u64, last: u64) -> u64 {
    if now >= last { (now - last) as u64 } else { 0 }
}

/// The session data after `key = value` is stored in session `sid`; nothing
/// changes for an unknown session.
pub open spec fn stored(s: Map<Seq<char>, Map<Seq<char>, Seq<char>>>, sid: Seq<char>, key: Seq<char>, value: Seq<char>) -> Map<Seq<char>, Map<Seq<char>, Seq<char>>> {
    if s.dom().contains(sid) {
        s.insert(sid, s[sid].insert(key, value))
    } else {
        s
    }
}

/// The session data after `key` is removed from session `sid`.
pub open spec fn removed(s: Map<Seq<char>, Map<Seq<char>, Seq<char>>>, sid: Seq<char>, key: Seq<char>) -> Map<Seq<char>, Map<Seq<char>, Seq<char>>> {
    if s.dom().contains(sid) {
        s.insert(sid, s[sid].remove(key))
    } else {
        s
    }
}

/// The value of `key` in session `sid`.
pub open spec fn looked_up(s: Map<Seq<char>, Map<Seq<char>, Seq<char>>>, sid: Seq<char>, key: Seq<char>) -> Option<Seq<char>> {
    if s.dom().contains(sid) && s[sid].dom().contains(key) {
        Some(s[sid][key])
    } else {
        None
    }
}

/// Reading a key after storing it gives the stored value.
pub proof fn lemma_read_after_write(s: Map<Seq<char>, Map<Seq<char>, Seq<char>>>, sid: Seq<char>, key: Seq<char>, value: Seq<char>)
    requires
        s.dom().contains(sid),
    ensures
        looked_up(stored(s, sid, key, value), sid, key) == Some(value),
{
}

/// Storing a key leaves every other key and every other session as it was.
pub proof fn lemma_write_keeps_others(
    s: Map<Seq<char>, Map<Seq<char>, Seq<char>>>,
    sid: Seq<char>,
    key: Seq<char>,
    value: Seq<char>,
    sid2: Seq<char>,
    key2: Seq<char>,
)
    requires
        sid2 != sid || key2 != key,
    ensures
        looked_up(stored(s, sid, key, value), sid2, key2) == looked_up(s, sid2, key2),
{
}

/// A removed key reads as absent.
pub proof fn lemma_read_after_remove(s: Map<Seq<char>, Map<Seq<char>, Seq<char>>>, sid: Seq<char>, key: Seq<char>)
    ensures
        looked_up(removed(s, sid, key), sid, key) is None,
{
}

/// A call that changes or reads the session data, as its contract states it:
/// storing or removing a key, reading, starting a session, or dropping the
/// sessions in a set (as a cleanup does with the idle ones).
pub enum SessionCall {
    Store(Seq<char>, Seq<char>, Seq<char>),
    Remove(Seq<char>, Seq<char>),
    Read,
    Start(Seq<char>),
    Drop(Set<Seq<char>>),
}

/// The session data after one call.
pub open spec fn after_call(s: Map<Seq<char>, Map<Seq<char>, Seq<char>>>, call: SessionCall) -> Map<Seq<char>, Map<Seq<char>, Seq<char>>> {
    match call {
        SessionCall::Store(sid, key, value) => stored(s, sid, key, value),
        SessionCall::Remove(sid, key) => removed(s, sid, key),
        SessionCall::Read => s,
        SessionCall::Start(sid) => s.insert(sid, Map::empty()),
        SessionCall::Drop(ids) => s.remove_keys(ids),
    }
}

/// The session data after calls in order.
pub open spec fn after_calls(s: Map<Seq<char>, Map<Seq<char>, Seq<char>>>, calls: Seq<SessionCall>) -> Map<Seq<char>, Map<Seq<char>, Seq<char>>>
    decreases calls.len(),
{
    if calls.len() == 0 {
        s
    } else {
        after_call(after_calls(s, calls.drop_last()), calls.last())
    }
}

/// Whether a call may change the value of `key` in session `sid`: it stores
/// or removes that key there, starts that session anew, or drops it.
pub open spec fn call_touches(call: SessionCall, sid: Seq<char>, key: Seq<char>) -> bool {
    match call {
        SessionCall::Store(s, k, _) => s == sid && k == key,
        SessionCall::Remove(s, k) => s == sid && k == key,
        SessionCall::Read => false,
        SessionCall::Start(s) => s == sid,
        SessionCall::Drop(ids) => ids.contains(sid),
    }
}

/// Calls that do not touch `key` in session `sid` leave its value as it was.
pub proof fn lemma_untouched_value_kept(
    s: Map<Seq<char>, Map<Seq<char>, Seq<char>>>,
    calls: Seq<SessionCall>,
    sid: Seq<char>,
    key: Seq<char>,
)
    requires
        forall|i: int| 0 <= i < calls.len() ==> !call_touches(#[trigger] calls[i], sid, key),
    ensures
        looked_up(after_calls(s, calls), sid, key) == looked_up(s, sid, key),
    decreases calls.len(),
{
    if calls.len() > 0 {
        let front = calls.drop_last();
        assert forall|i: int| 0 <= i < front.len() implies !call_touches(#[trigger] front[i], sid, key) by {
            assert(front[i] == calls[i]);
        }
        lemma_untouched_value_kept(s, front, sid, key);
        let mid = after_calls(s, front);
        assert(!call_touches(calls[calls.len() - 1], sid, key));
        match calls.last() {
            SessionCall::Store(s2, k2, v2) => {
                lemma_write_keeps_others(mid, s2, k2, v2, sid, key);
            },
            SessionCall::Remove(s2, k2) => {
                if mid.dom().contains(s2) {
                    assert(s2 != sid ==> removed(mid, s2, k2)[sid] == mid[sid]);
                }
            },
            SessionCall::Read => {},
            SessionCall::Start(s2) => {},
            SessionCall::Drop(ids) => {},
        }
    }
}

/// A value stored in an existing session is read back after any later calls
/// that neither store nor remove that key there, nor start or drop that session.
pub proof fn lemma_value_survives(
    s: Map<Seq<char>, Map<Seq<char>, Seq<char>>>,
    sid: Seq<char>,
    key: Seq<char>,
    value: Seq<char>,
    later: Seq<SessionCall>,
)
    requires
        s.dom().contains(sid),
        forall|i: int| 0 <= i < later.len() ==> !call_touches(#[trigger] later[i], sid, key),
    ensures
        looked_up(after_calls(stored(s, sid, key, value), later), sid, key) == Some(value),
{
    lemma_read_after_write(s, sid, key, value);
    lemma_untouched_value_kept(stored(s, sid, key, value), later, sid, key);
}

/// The sessions and their last access times. Times are ticks of a monotonic
/// clock chosen by the caller.
pub struct SessionStore {
    sessions: StrMap<StrMap<String>>,
    access_times: StrMap<u64>,
}

impl SessionStore {
    pub closed spec fn sessions_view(self) -> Map<Seq<char>, Map<Seq<char>, Seq<char>>> {
        self.sessions@
    }

    pub closed spec fn access_view(self) -> Map<Seq<char>, u64> {
        self.access_times@
    }

    pub fn new() -> (r: SessionStore)
        ensures
            r.sessions_view() == Map::<Seq<char>, Map<Seq<char>, Seq<char>>>::empty(),
            r.access_view() == Map::<Seq<char>, u64>::empty(),
    {
        SessionStore { sessions: StrMap::new(), access_times: StrMap::new() }
    }

    /// Whether a session exists.
    pub fn contains(&self, session_id: &str) -> (r: bool)
        ensures
            r == self.sessions_view().dom().contains(session_id@),
    {
        self.sessions.contains_key(session_id)
    }

    /// Starts an empty session under `session_id`, accessed at `now`.
    pub fn create_session_with_id(&mut self, session_id: String, now: u64)
        ensures
            final(self).sessions_view() == old(self).sessions_view().insert(session_id@, Map::empty()),
            final(self).access_view() == old(self).access_view().insert(session_id@, now),
    {
        let id2 = session_id.clone();
        self.sessions.insert(session_id, StrMap::new());
        self.access_times.insert(id2, now);
    }

    /// Starts an empty session under a fresh identifier made from the clock and
    /// a random number, and returns the identifier.
    pub fn create_session(&mut self, now: u64) -> (r: String)
        ensures
            exists|nanos: u128, random: u64| r@ == session_id_text(nanos, random),
            final(self).sessions_view() == old(self).sessions_view().insert(r@, Map::empty()),
            final(self).access_view() == old(self).access_view().insert(r@, now),
    {
        let id = generate_session_id();
        self.create_session_with_id(id.clone(), now);
        id
    }

    /// The value of `key` in a session; an existing session counts as accessed at `now`.
    pub fn get(&mut self, session_id: &str, key: &str, now: u64) -> (r: Option<String>)
        ensures
            final(self).sessions_view() == old(self).sessions_view(),
            final(self).access_view() == if old(self).sessions_view().dom().contains(session_id@) {
                old(self).access_view().insert(session_id@, now)
            } else {
                old(self).access_view()
            },
            match r {
                Some(v) => looked_up(old(self).sessions_view(), session_id@, key@) == Some(v@),
                None => looked_up(old(self).sessions_view(), session_id@, key@) is None,
            },
    {
        match self.sessions.get(session_id) {
            Some(data) => {
                let r = match data.get(key) {
                    Some(v) => Some(v.clone()),
                    None => None,
                };
                self.access_times.insert(session_id.to_owned(), now);
                r
            },
            None => None,
        }
    }

    /// Stores `key = value` in a session, which counts as accessed at `now`; unknown sessions are left alone.
    pub fn insert(&mut self, session_id: &str, key: &str, value: String, now: u64)
        ensures
            final(self).sessions_view() == stored(old(self).sessions_view(), session_id@, key@, value@),
            final(self).access_view() == if old(self).sessions_view().dom().contains(session_id@) {
                old(self).access_view().insert(session_id@, now)
            } else {
                old(self).access_view()
            },
    {
        match self.sessions.remove(session_id) {
            Some(mut data) => {
                data.insert(key.to_owned(), value);
                self.sessions.insert(session_id.to_owned(), data);
                self.access_times.insert(session_id.to_owned(), now);
                assert(self.sessions@ =~= stored(old(self).sessions@, session_id@, key@, value@));
            },
            None => {
                assert(self.sessions@ =~= old(self).sessions@);
            },
        }
    }

    /// Removes `key` from a session, returning its value; an existing session counts as accessed at `now`.
    pub fn remove(&mut self, session_id: &str, key: &str, now: u64) -> (r: Option<String>)
        ensures
            final(self).sessions_view() == removed(old(self).sessions_view(), session_id@, key@),
            final(self).access_view() == if old(self).sessions_view().dom().contains(session_id@) {
                old(self).access_view().insert(session_id@, now)
            } else {
                old(self).access_view()
            },
            match r {
                Some(v) => looked_up(old(self).sessions_view(), session_id@, key@) == Some(v@),
                None => looked_up(old(self).sessions_view(), session_id@, key@) is None,
            },
    {
        match self.sessions.remove(session_id) {
            Some(mut data) => {
                self.access_times.insert(session_id.to_owned(), now);
                let r = data.remove(key);
                self.sessions.insert(session_id.to_owned(), data);
                assert(self.sessions@ =~= removed(old(self).sessions@, session_id@, key@));
                r
            },
            None => {
                assert(self.sessions@ =~= old(self).sessions@);
                None
            },
        }
    }

    /// Drops every session whose last access is at least `max_age` ticks before `now`.
    pub fn cleanup_expired(&mut self, now: u64, max_age: u64)
        ensures
            final(self).access_view() == old(self).access_view().restrict(
                old(self).access_view().dom().filter(|k: Seq<char>| elapsed(now, old(self).access_view()[k]) < max_age),
            ),
            final(self).sessions_view() == old(self).sessions_view().remove_keys(
                old(self).access_view().dom().filter(|k: Seq<char>| elapsed(now, old(self).access_view()[k]) >= max_age),
            ),
    {
        let ghost a0 = self.access_times@;
        let ghost s0 = self.sessions@;
        let mut kept: StrMap<u64> = StrMap::new();
        let entries = self.access_times.entries();
        let n = entries.len();
        let mut i: usize = 0;
        proof {
            assert(aged_keys(entries@, 0, now, max_age, false) =~= Set::empty());
            assert(aged_keys(entries@, 0, now, max_age, true) =~= Set::empty());
            assert(kept@ =~= a0.restrict(Set::empty()));
            assert(self.sessions@ =~= s0.remove_keys(Set::empty()));
        }
        while i < n
            invariant
                n == entries@.len(),
                i <= n,
                a0 == self.access_times@,
                crate::strmap::keys_distinct(entries@),
                forall|j: int| 0 <= j < entries@.len() ==> #[trigger] a0.dom().contains(entries@[j].0@)
                    && a0[entries@[j].0@] == entries@[j].1,
                forall|k: Seq<char>| a0.dom().contains(k) ==> has_key(entries@, k),
                kept@ == a0.restrict(aged_keys(entries@, i as int, now, max_age, false)),
                self.sessions@ == s0.remove_keys(aged_keys(entries@, i as int, now, max_age, true)),
            decreases n - i,
        {
            let last = entries[i].1;
            let e = if now >= last { now - last } else { 0 };
            proof {
                lemma_aged_keys_step(entries@, i as int, now, max_age, false);
                lemma_aged_keys_step(entries@, i as int, now, max_age, true);
                assert(a0.dom().contains(entries@[i as int].0@));
            }
            if e < max_age {
                kept.insert(entries[i].0.clone(), last);
                assert(kept@ =~= a0.restrict(aged_keys(entries@, i + 1, now, max_age, false)));
                assert(self.sessions@ =~= s0.remove_keys(aged_keys(entries@, i + 1, now, max_age, true)));
            } else {
                self.sessions.remove(entries[i].0.as_str());
                assert(kept@ =~= a0.restrict(aged_keys(entries@, i + 1, now, max_age, false)));
                assert(self.sessions@ =~= s0.remove_keys(aged_keys(entries@, i + 1, now, max_age, true)));
            }
            i = i + 1;
        }
        proof {
            lemma_aged_keys_all(entries@, a0, now, max_age, false);
            lemma_aged_keys_all(entries@, a0, now, max_age, true);
            assert(a0.dom().filter(|k: Seq<char>| elapsed(now, a0[k]) < max_age)
                =~= a0.dom().filter(|k: Seq<char>| (elapsed(now, a0[k]) >= max_age) == false));
            assert(a0.dom().filter(|k: Seq<char>| elapsed(now, a0[k]) >= max_age)
                =~= a0.dom().filter(|k: Seq<char>| (elapsed(now, a0[k]) >= max_age) == true));
        }
        self.access_times = kept;
    }
}

/// The keys among the first `i` entries whose age has reached `max_age`
/// (`expired`) or not (`!expired`).
spec fn aged_keys(entries: Seq<(String, u64)>, i: int, now: u64, max_age: u64, expired: bool) -> Set<Seq<char>> {
    Set::new(|k: Seq<char>| exists|j: int| #![trigger entries[j]] 0 <= j < i && entries[j].0@ == k
        && (elapsed(now, entries[j].1) >= max_age) == expired)
}

proof fn lemma_aged_keys_step(entries: Seq<(String, u64)>, i: int, now: u64, max_age: u64, expired: bool)
    requires
        0 <= i < entries.len(),
    ensures
        aged_keys(entries, i + 1, now, max_age, expired) == if (elapsed(now, entries[i].1) >= max_age) == expired {
            aged_keys(entries, i, now, max_age, expired).insert(entries[i].0@)
        } else {
            aged_keys(entries, i, now, max_age, expired)
        },
{
    let a = aged_keys(entries, i + 1, now, max_age, expired);
    let b = aged_keys(entries, i, now, max_age, expired);
    let hit = (elapsed(now, entries[i].1) >= max_age) == expired;
    let c = if hit { b.insert(entries[i].0@) } else { b };
    assert forall|k: Seq<char>| #[trigger] a.contains(k) <==> c.contains(k) by {
        if a.contains(k) {
            let j = choose|j: int| #![trigger entries[j]] 0 <= j < i + 1 && entries[j].0@ == k
                && (elapsed(now, entries[j].1) >= max_age) == expired;
            if j < i {
                assert(b.contains(k));
            }
        }
        if b.contains(k) {
            let j = choose|j: int| #![trigger entries[j]] 0 <= j < i && entries[j].0@ == k
                && (elapsed(now, entries[j].1) >= max_age) == expired;
            assert(entries[j].0@ == k);
        }
        if hit && k == entries[i].0@ {
            assert(entries[i].0@ == k);
        }
    }
    assert(a =~= c);
}

proof fn lemma_aged_keys_all(entries: Seq<(String, u64)>, m: Map<Seq<char>, u64>, now: u64, max_age: u64, expired: bool)
    requires
        forall|j: int| 0 <= j < entries.len() ==> #[trigger] m.dom().contains(entries[j].0@)
            && m[entries[j].0@] == entries[j].1,
        forall|k: Seq<char>| m.dom().contains(k) ==> has_key(entries, k),
    ensures
        aged_keys(entries, entries.len() as int, now, max_age, expired)
            == m.dom().filter(|k: Seq<char>| (elapsed(now, m[k]) >= max_age) == expired),
{
    let a = aged_keys(entries, entries.len() as int, now, max_age, expired);
    let f = m.dom().filter(|k: Seq<char>| (elapsed(now, m[k]) >= max_age) == expired);
    assert forall|k: Seq<char>| #[trigger] a.contains(k) <==> f.contains(k) by {
        if a.contains(k) {
            let j = choose|j: int| #![trigger entries[j]] 0 <= j < entries.len() && entries[j].0@ == k
                && (elapsed(now, entries[j].1) >= max_age) == expired;
            assert(m.dom().contains(entries[j].0@));
        }
        if f.contains(k) {
            assert(has_key(entries, k));
            let j = choose|j: int| 0 <= j < entries.len() && entries[j].0@ == k;
            assert(m.dom().contains(entries[j].0@));
        }
    }
    assert(a =~= f);
}

/// The text of a session identifier: the clock in nanoseconds, then a random
/// number, both in lower-case hexadecimal.
pub open spec fn session_id_text(nanos: u128, random: u64) -> Seq<char> {
    hex(nanos as nat) + hex(random as nat)
}

/// A session identifier made from a clock reading and a random number.
pub fn format_session_id(nanos: u128, random: u64) -> (r: String)
    ensures
        r@ == session_id_text(nanos, random),
{
    let mut s = hex_string(nanos);
    let r = hex_string(random as u128);
    push_str(&mut s, r.as_str());
    s
}

/// Calls `RngCore::try_fill_bytes` on `rand::rngs::OsRng` for eight bytes,
/// read as a little-endian number; `None` when the operating system's random
/// source fails. Nothing is promised of the value.
#[verifier::external_body]
fn random_u64() -> Option<u64> {
    let mut bytes = [0u8; 8];
    match rand::RngCore::try_fill_bytes(&mut rand::rngs::OsRng, &mut bytes) {
        Ok(()) => Some(u64::from_le_bytes(bytes)),
        Err(_) => None,
    }
}

/// Calls `SystemTime::now()` and `duration_since(UNIX_EPOCH)`: the nanoseconds
/// since the epoch, or `None` when the clock reads earlier than the epoch.
/// Nothing is promised of the value.
#[verifier::external_body]
fn unix_time_nanos() -> Option<u128> {
    match std::time::SystemTime::now().duration_since(std::time::UNIX_EPOCH) {
        Ok(d) => Some(d.as_nanos()),
        Err(_) => None,
    }
}

/// A fresh session identifier from the system clock and a random number; a
/// clock set before 1970, or a failing random source, counts as zero.
pub fn generate_session_id() -> (r: String)
    ensures
        exists|nanos: u128, random: u64| r@ == session_id_text(nanos, random),
{
    let nanos = match unix_time_nanos() {
        Some(t) => t,
        None => 0,
    };
    let random = match random_u64() {
        Some(v) => v,
        None => 0,
    };
    format_session_id(nanos, random)
}

/// The session identifier a `Cookie` header carries: the first `;`-separated
/// item that, trimmed, starts with `session_id=`, without that prefix.
pub open spec fn cookie_session_from(c: Seq<char>, pos: int) -> Option<Seq<char>>
    decreases c.len() + 1 - pos,
{
    if pos < 0 || pos >= c.len() {
        None
    } else {
        let e = scan_char(c, ';', pos);
        let t = trim_ws(c.subrange(pos, e));
        proof {
            lemma_scan_char(c, ';', pos);
        }
        if seq_starts_with(t, "session_id="@) {
            Some(t.subrange(11, t.len() as int))
        } else {
            cookie_session_from(c, e + 1)
        }
    }
}

/// A separator found inside `a` is found at the same place in `a + b`.
proof fn lemma_scan_char_front(a: Seq<char>, b: Seq<char>, c: char, from: int)
    requires
        0 <= from <= a.len(),
        scan_char(a, c, from) < a.len(),
    ensures
        scan_char(a + b, c, from) == scan_char(a, c, from),
    decreases a.len() - from,
{
    assert((a + b)[from] == a[from]);
    if a[from] != c {
        lemma_scan_char_front(a, b, c, from + 1);
    }
}

/// Items of a header part that ends with `;` and names no session are passed
/// over in the whole header too.
proof fn lemma_cookie_front(before: Seq<char>, rest: Seq<char>, pos: int)
    requires
        0 <= pos <= before.len(),
        before.len() == 0 || before.last() == ';',
        cookie_session_from(before, pos) is None,
    ensures
        cookie_session_from(before + rest, pos) == cookie_session_from(before + rest, before.len() as int),
    decreases before.len() - pos,
{
    if pos < before.len() {
        let c = before + rest;
        lemma_scan_char(before, ';', pos);
        let e = scan_char(before, ';', pos);
        if e == before.len() {
            assert(before[before.len() - 1] != ';');
        }
        lemma_scan_char_front(before, rest, ';', pos);
        assert(c.subrange(pos, e) =~= before.subrange(pos, e));
        lemma_cookie_front(before, rest, e + 1);
    }
}

/// Leading whitespace is what trimming the start removes.
proof fn lemma_trim_start_past_ws(gap: Seq<char>, x: Seq<char>)
    requires
        forall|i: int| 0 <= i < gap.len() ==> is_whitespace(#[trigger] gap[i]),
    ensures
        trim_start_where(gap + x, ws_pred()) == trim_start_where(x, ws_pred()),
    decreases gap.len(),
{
    if gap.len() > 0 {
        assert((gap + x)[0] == gap[0]);
        assert((gap + x).drop_first() =~= gap.drop_first() + x);
        let g2 = gap.drop_first();
        assert forall|i: int| 0 <= i < g2.len() implies is_whitespace(#[trigger] g2[i]) by {
            assert(g2[i] == gap[i + 1]);
        }
        lemma_trim_start_past_ws(g2, x);
    }
}

/// The header `before + gap + v`, where `v` is the text `cookie_value` writes
/// for `id`, carries `id`: when `before` is empty or ends with `;` and names no
/// session itself, `gap` is whitespace, and `id` holds no `;` and does not end
/// in whitespace (as every generated identifier).
pub proof fn lemma_cookie_round_trip(before: Seq<char>, gap: Seq<char>, id: Seq<char>)
    requires
        before.len() == 0 || before.last() == ';',
        cookie_session_from(before, 0) is None,
        forall|i: int| 0 <= i < gap.len() ==> is_whitespace(#[trigger] gap[i]),
        forall|i: int| 0 <= i < id.len() ==> #[trigger] id[i] != ';',
        id.len() == 0 || !is_whitespace(id.last()),
    ensures
        cookie_session_from(before + gap + ("session_id="@ + id + "; Path=/; HttpOnly"@), 0) == Some(id),
{
    reveal_strlit("session_id=");
    reveal_strlit("; Path=/; HttpOnly");
    let x = "session_id="@ + id;
    let cookie = x + "; Path=/; HttpOnly"@;
    let rest = gap + cookie;
    let c = before + rest;
    assert(c =~= before + gap + cookie);
    lemma_cookie_front(before, rest, 0);
    let l = before.len() as int;
    let target = l + gap.len() + x.len();
    assert(c[target] == ';');
    assert forall|k: int| l <= k < target implies c[k] != ';' by {
        if k < l + gap.len() {
            assert(c[k] == gap[k - l]);
            assert(is_whitespace(gap[k - l]));
        } else if k < l + gap.len() + 11 {
            assert(c[k] == x[k - l - gap.len()]);
        } else {
            assert(c[k] == id[k - l - gap.len() - 11]);
        }
    }
    lemma_scan_char(c, ';', l);
    let e = scan_char(c, ';', l);
    if e < target {
        assert(c[e] == ';');
    }
    if e > target {
        assert(c[target] != ';');
    }
    assert(e == target);
    assert(c.subrange(l, e) =~= gap + x);
    lemma_trim_start_past_ws(gap, x);
    assert(x[0] == 's');
    assert(trim_start_where(x, ws_pred()) == x);
    if id.len() > 0 {
        assert(x.last() == id.last());
    } else {
        assert(x.last() == '=');
    }
    assert(trim_end_where(x, ws_pred()) == x);
    assert(x.subrange(0, 11) =~= "session_id="@);
    assert(x.subrange(11, x.len() as int) =~= id);
}

/// The session identifier a `Cookie` header value carries.
pub fn session_id_from_cookie(cookie: &str) -> (r: Option<String>)
    ensures
        match r {
            Some(v) => cookie_session_from(cookie@, 0) == Some(v@),
            None => cookie_session_from(cookie@, 0) is None,
        },
{
    let s = chars_of(cookie);
    let n = s.len();
    let prefix = chars_of("session_id=");
    proof {
        reveal_strlit("session_id=");
    }
    let mut pos: usize = 0;
    while pos < n
        invariant
            n == s@.len(),
            s@ == cookie@,
            prefix@ == "session_id="@,
            prefix@.len() == 11,
            pos <= n,
            cookie_session_from(cookie@, 0) == cookie_session_from(s@, pos as int),
        decreases n - pos,
    {
        let e = find_char_from(s.as_slice(), ';', pos);
        let (a, b) = trim_ws_range(s.as_slice(), pos, e);
        let t = &s.as_slice()[a..b];
        if chars_start_with(t, prefix.as_slice()) {
            assert(s@.subrange(a + 11, b as int) =~= t@.subrange(11, t@.len() as int));
            return Some(string_from_char_range(s.as_slice(), a + 11, b));
        }
        assert(cookie_session_from(s@, pos as int) == cookie_session_from(s@, e + 1));
        if e >= n {
            pos = n;
        } else {
            pos = e + 1;
        }
    }
    None
}

/// A handle on one session.
#[derive(Clone)]
pub struct Session {
    session_id: String,
}

impl Session {
    pub closed spec fn id_view(self) -> Seq<char> {
        self.session_id@
    }

    /// The session named by `session_id` when it exists, otherwise a new one.
    pub fn new(store: &mut SessionStore, session_id: Option<&str>, now: u64) -> (r: Session)
        ensures
            match session_id {
                Some(sid) if old(store).sessions_view().dom().contains(sid@) => {
                    r.id_view() == sid@ && final(store).sessions_view() == old(store).sessions_view()
                        && final(store).access_view() == old(store).access_view()
                },
                _ => {
                    &&& final(store).sessions_view() == old(store).sessions_view().insert(r.id_view(), Map::empty())
                    &&& final(store).access_view() == old(store).access_view().insert(r.id_view(), now)
                    &&& exists|nanos: u128, random: u64| r.id_view() == session_id_text(nanos, random)
                },
            },
    {
        let id = match session_id {
            Some(sid) => {
                if store.contains(sid) {
                    sid.to_owned()
                } else {
                    store.create_session(now)
                }
            },
            None => store.create_session(now),
        };
        Session { session_id: id }
    }

    /// The identifier.
    pub fn id(&self) -> (r: &str)
        ensures
            r@ == self.id_view(),
    {
        self.session_id.as_str()
    }

    /// The value of `key` in this session.
    pub fn get(&self, store: &mut SessionStore, key: &str, now: u64) -> (r: Option<String>)
        ensures
            final(store).sessions_view() == old(store).sessions_view(),
            final(store).access_view() == if old(store).sessions_view().dom().contains(self.id_view()) {
                old(store).access_view().insert(self.id_view(), now)
            } else {
                old(store).access_view()
            },
            match r {
                Some(v) => looked_up(old(store).sessions_view(), self.id_view(), key@) == Some(v@),
                None => looked_up(old(store).sessions_view(), self.id_view(), key@) is None,
            },
    {
        store.get(self.session_id.as_str(), key, now)
    }

    /// Stores `key = value` in this session.
    pub fn insert(&self, store: &mut SessionStore, key: &str, value: String, now: u64)
        ensures
            final(store).sessions_view() == stored(old(store).sessions_view(), self.id_view(), key@, value@),
            final(store).access_view() == if old(store).sessions_view().dom().contains(self.id_view()) {
                old(store).access_view().insert(self.id_view(), now)
            } else {
                old(store).access_view()
            },
    {
        store.insert(self.session_id.as_str(), key, value, now)
    }

    /// Removes `key` from this session.
    pub fn remove(&self, store: &mut SessionStore, key: &str, now: u64) -> (r: Option<String>)
        ensures
            final(store).sessions_view() == removed(old(store).sessions_view(), self.id_view(), key@),
            final(store).access_view() == if old(store).sessions_view().dom().contains(self.id_view()) {
                old(store).access_view().insert(self.id_view(), now)
            } else {
                old(store).access_view()
            },
            match r {
                Some(v) => looked_up(old(store).sessions_view(), self.id_view(), key@) == Some(v@),
                None => looked_up(old(store).sessions_view(), self.id_view(), key@) is None,
            },
    {
        store.remove(self.session_id.as_str(), key, now)
    }

    /// The `Set-Cookie` value that carries this session.
    pub fn cookie_value(&self) -> (r: String)
        ensures
            r@ == "session_id="@ + self.id_view() + "; Path=/; HttpOnly"@,
    {
        let mut s = "session_id=".to_owned();
        push_str(&mut s, self.session_id.as_str());
        push_str(&mut s, "; Path=/; HttpOnly");
        s
    }
}

/// The session named by the request's `Cookie` header, or a new one.
pub fn get_session_from_headers(headers: &StrMap<String>, store: &mut SessionStore, now: u64) -> (r: Session)
    ensures
        ({
            let sid = if headers@.dom().contains("Cookie"@) {
                cookie_session_from(headers@["Cookie"@], 0)
            } else {
                None
            };
            match sid {
                Some(id) if old(store).sessions_view().dom().contains(id) => r.id_view() == id
                    && final(store).sessions_view() == old(store).sessions_view()
                    && final(store).access_view() == old(store).access_view(),
                _ => {
                    &&& final(store).sessions_view() == old(store).sessions_view().insert(r.id_view(), Map::empty())
                    &&& final(store).access_view() == old(store).access_view().insert(r.id_view(), now)
                    &&& exists|nanos: u128, random: u64| r.id_view() == session_id_text(nanos, random)
                },
            }
        }),
{
    let sid = match headers.get("Cookie") {
        Some(c) => session_id_from_cookie(c.as_str()),
        None => None,
    };
    match sid {
        Some(id) => Session::new(store, Some(id.as_str()), now),
        None => Session::new(store, None, now),
    }
}

/// Drops the sessions idle for at least `max_age` ticks.
pub fn cleanup_sessions(store: &mut SessionStore, now: u64, max_age: u64)
    ensures
        final(store).access_view() == old(store).access_view().restrict(
            old(store).access_view().dom().filter(|k: Seq<char>| elapsed(now, old(store).access_view()[k]) < max_age),
        ),
        final(store).sessions_view() == old(store).sessions_view().remove_keys(
            old(store).access_view().dom().filter(|k: Seq<char>| elapsed(now, old(store).access_view()[k]) >= max_age),
        ),
{
    store.cleanup_expired(now, max_age)
}

} // verus!
