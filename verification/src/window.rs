//! The admission window: what each stream of each session has in flight, and
//! the budget test that new work must pass.

use vstd::hash_map::StringHashMap;
use vstd::prelude::*;
use crate::canonical::{
    decimal, is_decimal_digit, lemma_decimal_digits, lemma_decimal_injective, push_decimal,
};
use crate::frame::Window;

verus! {

/// For how long after a rejection a stream counts as under pressure, in
/// milliseconds.
pub const PRESSURE_MILLIS: u64 = 2000;

/// What a stream has reserved, and when it was last refused work. Times are
/// milliseconds on a clock of the caller's choice.
#[derive(Debug, Clone, Copy, PartialEq, Eq, Structural)]
pub struct WindowState {
    pub inflight: u32,
    pub tokens: u64,
    pub usd: u64,
    pub last_backpressure: Option<u64>,
}

/// The state of a stream that has reserved nothing.
pub open spec fn idle() -> WindowState {
    WindowState { inflight: 0, tokens: 0, usd: 0, last_backpressure: None }
}

/// The admission test: room for one more message, and for the tokens and the
/// cost asked for, within the budget.
pub open spec fn admits(s: WindowState, w: Window, need_tokens: u64, need_usd: u64) -> bool {
    &&& s.inflight < w.max_parallel
    &&& s.tokens + need_tokens <= w.max_tokens
    &&& s.usd + need_usd <= w.max_usd_micros
}

/// The state after a reservation.
pub open spec fn reserved(s: WindowState, need_tokens: u64, need_usd: u64) -> WindowState
    recommends
        s.inflight < u32::MAX,
        s.tokens + need_tokens <= u64::MAX,
        s.usd + need_usd <= u64::MAX,
{
    WindowState {
        inflight: (s.inflight + 1) as u32,
        tokens: (s.tokens + need_tokens) as u64,
        usd: (s.usd + need_usd) as u64,
        ..s
    }
}

/// The amount left of `have` when `give` is taken away, and nothing where
/// there is less.
pub open spec fn minus(have: int, give: int) -> int {
    if have >= give {
        have - give
    } else {
        0
    }
}

/// The state after a release: one message less in flight, and the tokens and
/// the cost given back, none of them below zero.
pub open spec fn released(s: WindowState, need_tokens: u64, need_usd: u64) -> WindowState {
    WindowState {
        inflight: minus(s.inflight as int, 1) as u32,
        tokens: minus(s.tokens as int, need_tokens as int) as u64,
        usd: minus(s.usd as int, need_usd as int) as u64,
        ..s
    }
}

/// The state with a rejection recorded at `now`.
pub open spec fn marked(s: WindowState, now: u64) -> WindowState {
    WindowState { last_backpressure: Some(now), ..s }
}

/// Whether a rejection was recorded less than two seconds before `now`.
pub open spec fn pressed(s: WindowState, now: u64) -> bool {
    match s.last_backpressure {
        Some(t) => now - t < PRESSURE_MILLIS,
        None => false,
    }
}

/// The key of a stream: the session and the stream within it.
pub type StreamKey = (Seq<char>, Seq<char>);

/// The state that a table holds for a key; that of an idle stream where it
/// holds none.
pub open spec fn state_of(table: Map<StreamKey, WindowState>, key: StreamKey) -> WindowState {
    if table.dom().contains(key) {
        table[key]
    } else {
        idle()
    }
}

/// The text under which the table holds a stream: the length of the session's
/// name in decimal and a colon, then the names of the session and of the
/// stream. No two keys have one text.
pub open spec fn key_text(key: StreamKey) -> Seq<char> {
    decimal(key.0.len()) + ":"@ + key.0 + key.1
}

/// Two keys with one text are one key.
pub proof fn lemma_key_text_injective(a: StreamKey, b: StreamKey)
    requires
        key_text(a) == key_text(b),
    ensures
        a == b,
{
    reveal_strlit(":");
    let da = decimal(a.0.len());
    let db = decimal(b.0.len());
    let ka = key_text(a);
    let kb = key_text(b);
    lemma_decimal_digits(a.0.len());
    lemma_decimal_digits(b.0.len());
    assert(ka.len() == da.len() + 1 + a.0.len() + a.1.len());
    assert(kb.len() == db.len() + 1 + b.0.len() + b.1.len());
    assert(ka[da.len() as int] == ':');
    assert(kb[db.len() as int] == ':');
    if da.len() < db.len() {
        assert(kb[da.len() as int] == db[da.len() as int]);
        assert(is_decimal_digit(db[da.len() as int]));
    }
    if db.len() < da.len() {
        assert(ka[db.len() as int] == da[db.len() as int]);
        assert(is_decimal_digit(da[db.len() as int]));
    }
    assert(da.len() == db.len());
    assert forall|i: int| 0 <= i < da.len() implies da[i] == db[i] by {
        assert(ka[i] == da[i]);
        assert(kb[i] == db[i]);
    }
    assert(da =~= db);
    lemma_decimal_injective(a.0.len(), b.0.len());
    let at = da.len() + 1;
    assert forall|i: int| 0 <= i < a.0.len() implies a.0[i] == b.0[i] by {
        assert(ka[at + i] == a.0[i]);
        assert(kb[at + i] == b.0[i]);
    }
    assert(a.0 =~= b.0);
    let then = at + a.0.len();
    assert forall|i: int| 0 <= i < a.1.len() implies a.1[i] == b.1[i] by {
        assert(ka[then + i] == a.1[i]);
        assert(kb[then + i] == b.1[i]);
    }
    assert(a.1 =~= b.1);
}

/// The table that a map from key texts stands for.
spec fn table_of(entries: Map<Seq<char>, WindowState>) -> Map<StreamKey, WindowState> {
    Map::new(
        |key: StreamKey| entries.contains_key(key_text(key)),
        |key: StreamKey| entries[key_text(key)],
    )
}

proof fn lemma_table_insert(entries: Map<Seq<char>, WindowState>, key: StreamKey, s: WindowState)
    ensures
        table_of(entries.insert(key_text(key), s)) == table_of(entries).insert(key, s),
{
    let left = table_of(entries.insert(key_text(key), s));
    let right = table_of(entries).insert(key, s);
    assert forall|other: StreamKey| #[trigger]
        left.dom().contains(other) == right.dom().contains(other) by {
        if other != key && key_text(other) == key_text(key) {
            lemma_key_text_injective(other, key);
        }
    }
    assert forall|other: StreamKey| left.dom().contains(other) implies #[trigger] left[other]
        == right[other] by {
        if other != key && key_text(other) == key_text(key) {
            lemma_key_text_injective(other, key);
        }
    }
    assert(left.dom() =~= right.dom());
    assert(left =~= right);
}

fn key_for(session_id: &str, stream_id: &str) -> (r: String)
    ensures
        r@ == key_text((session_id@, stream_id@)),
{
    let mut out = String::new();
    let n = session_id.unicode_len();
    push_decimal(&mut out, n as u64);
    out.append(":");
    out.append(session_id);
    out.append(stream_id);
    out
}

/// The window states of all streams, in a hash map.
pub struct WindowTable {
    entries: StringHashMap<WindowState>,
}

impl View for WindowTable {
    type V = Map<StreamKey, WindowState>;

    closed spec fn view(&self) -> Map<StreamKey, WindowState> {
        table_of(self.entries@)
    }
}

impl WindowTable {
    /// A table without entries.
    pub fn new() -> (r: WindowTable)
        ensures
            r@ == Map::<StreamKey, WindowState>::empty(),
    {
        let r = WindowTable { entries: StringHashMap::new() };
        assert(r@ =~= Map::<StreamKey, WindowState>::empty());
        r
    }

    /// The state held for a stream, if any.
    pub fn state(&self, session_id: &str, stream_id: &str) -> (r: Option<WindowState>)
        ensures
            r == if self@.dom().contains((session_id@, stream_id@)) {
                Some(self@[(session_id@, stream_id@)])
            } else {
                None
            },
    {
        let key = key_for(session_id, stream_id);
        match self.entries.get(key.as_str()) {
            Some(s) => Some(*s),
            None => None,
        }
    }

    fn put(&mut self, session_id: &str, stream_id: &str, s: WindowState)
        ensures
            final(self)@ == old(self)@.insert((session_id@, stream_id@), s),
    {
        let key = key_for(session_id, stream_id);
        proof {
            lemma_table_insert(self.entries@, (session_id@, stream_id@), s);
        }
        self.entries.insert(key, s);
    }

    /// Asks for room for one message with the given needs. The stream gets an
    /// entry if it has none. If the admission test passes, the needs are
    /// reserved; if not, nothing is.
    pub fn try_admit(
        &mut self,
        session_id: &str,
        stream_id: &str,
        w: &Window,
        need_tokens: u64,
        need_usd: u64,
    ) -> (r: bool)
        ensures
            r == admits(state_of(old(self)@, (session_id@, stream_id@)), *w, need_tokens, need_usd),
            final(self)@ == old(self)@.insert(
                (session_id@, stream_id@),
                if r {
                    reserved(
                        state_of(old(self)@, (session_id@, stream_id@)),
                        need_tokens,
                        need_usd,
                    )
                } else {
                    state_of(old(self)@, (session_id@, stream_id@))
                },
            ),
    {
        let before = match self.state(session_id, stream_id) {
            Some(s) => s,
            None => WindowState { inflight: 0, tokens: 0, usd: 0, last_backpressure: None },
        };
        let ok = before.inflight < w.max_parallel && before.tokens <= w.max_tokens && need_tokens
            <= w.max_tokens - before.tokens && before.usd <= w.max_usd_micros && need_usd
            <= w.max_usd_micros - before.usd;
        let after = if ok {
            WindowState {
                inflight: before.inflight + 1,
                tokens: before.tokens + need_tokens,
                usd: before.usd + need_usd,
                last_backpressure: before.last_backpressure,
            }
        } else {
            before
        };
        self.put(session_id, stream_id, after);
        ok
    }

    /// Gives back what an admitted message had reserved. A stream without an
    /// entry is left alone.
    pub fn ack(&mut self, session_id: &str, stream_id: &str, need_tokens: u64, need_usd: u64)
        ensures
            final(self)@ == if old(self)@.dom().contains((session_id@, stream_id@)) {
                old(self)@.insert(
                    (session_id@, stream_id@),
                    released(old(self)@[(session_id@, stream_id@)], need_tokens, need_usd),
                )
            } else {
                old(self)@
            },
    {
        match self.state(session_id, stream_id) {
            Some(before) => {
                let after = WindowState {
                    inflight: before.inflight.saturating_sub(1),
                    tokens: before.tokens.saturating_sub(need_tokens),
                    usd: before.usd.saturating_sub(need_usd),
                    last_backpressure: before.last_backpressure,
                };
                self.put(session_id, stream_id, after);
            },
            None => {},
        }
    }

    /// Records that the stream was refused work at `now`. A stream without an
    /// entry is left alone.
    pub fn mark_backpressure(&mut self, session_id: &str, stream_id: &str, now: u64)
        ensures
            final(self)@ == if old(self)@.dom().contains((session_id@, stream_id@)) {
                old(self)@.insert(
                    (session_id@, stream_id@),
                    marked(old(self)@[(session_id@, stream_id@)], now),
                )
            } else {
                old(self)@
            },
    {
        match self.state(session_id, stream_id) {
            Some(before) => {
                let after = WindowState {
                    inflight: before.inflight,
                    tokens: before.tokens,
                    usd: before.usd,
                    last_backpressure: Some(now),
                };
                self.put(session_id, stream_id, after);
            },
            None => {},
        }
    }

    /// Whether the stream was refused work less than two seconds before
    /// `now`.
    pub fn under_pressure(&self, session_id: &str, stream_id: &str, now: u64) -> (r: bool)
        ensures
            r == (self@.dom().contains((session_id@, stream_id@)) && pressed(
                self@[(session_id@, stream_id@)],
                now,
            )),
    {
        match self.state(session_id, stream_id) {
            Some(s) => match s.last_backpressure {
                Some(t) => now < t || now - t < PRESSURE_MILLIS,
                None => false,
            },
            None => false,
        }
    }
}

/// A reservation that is released again leaves the counts as they were.
pub proof fn lemma_admit_then_ack_restores(
    s: WindowState,
    w: Window,
    need_tokens: u64,
    need_usd: u64,
)
    requires
        admits(s, w, need_tokens, need_usd),
    ensures
        released(reserved(s, need_tokens, need_usd), need_tokens, need_usd) == s,
{
}

/// In a table, an admission that succeeded and is then released leaves the
/// stream with the counts that it had before.
pub proof fn lemma_table_admit_then_ack_restores(
    table: Map<StreamKey, WindowState>,
    key: StreamKey,
    w: Window,
    need_tokens: u64,
    need_usd: u64,
)
    requires
        admits(state_of(table, key), w, need_tokens, need_usd),
    ensures
        ({
            let admitted = table.insert(key, reserved(state_of(table, key), need_tokens, need_usd));
            let acked = admitted.insert(key, released(admitted[key], need_tokens, need_usd));
            &&& state_of(acked, key) == state_of(table, key)
            &&& forall|other: StreamKey| other != key ==> state_of(acked, other) == state_of(table, other)
        }),
{
}

} // verus!
