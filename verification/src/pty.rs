//! Terminal sessions of the per-ticket agents: the scrollback that each one
//! keeps, and the table of running sessions with their unread markers.
//!
//! Spawning the pseudo-terminal, writing keystrokes to it and killing the
//! child process are done by the caller; this module decides what each
//! session holds and what a query answers.

use vstd::prelude::*;
use crate::keyed::{
    keys_distinct, entries_map, find_key, lemma_entries_update, lemma_entries_push,
    lemma_entries_remove, lemma_map_values_insert, lemma_map_values_remove, lemma_remove_insert,
};
use crate::text::{push_str, str_eq, owned};

verus! {

/// How many lines of output a session's scrollback keeps.
pub const BUFFER_MAX_LINES: usize = 10_000;

/// The number of newline bytes in `s`.
pub open spec fn newline_count(s: Seq<u8>) -> nat
    decreases s.len(),
{
    if s.len() == 0 {
        0
    } else {
        (if s[0] == 10u8 { 1nat } else { 0nat }) + newline_count(s.drop_first())
    }
}

/// Drops leading bytes of `s` until at most `max` newlines remain.
pub open spec fn keep_last_lines(s: Seq<u8>, max: nat) -> Seq<u8>
    decreases s.len(),
{
    if newline_count(s) <= max || s.len() == 0 {
        s
    } else {
        keep_last_lines(s.drop_first(), max)
    }
}

proof fn lemma_skip_step(d: Seq<u8>, i: int)
    requires
        0 <= i < d.len(),
    ensures
        d.skip(i).drop_first() =~= d.skip(i + 1),
        newline_count(d.skip(i)) == (if d[i] == 10u8 { 1nat } else { 0nat }) + newline_count(
            d.skip(i + 1),
        ),
{
    assert(d.skip(i).drop_first() =~= d.skip(i + 1));
    assert(d.skip(i)[0] == d[i]);
}

proof fn lemma_count_monotone(d: Seq<u8>, j: int, k: int)
    requires
        0 <= j <= k <= d.len(),
    ensures
        newline_count(d.skip(j)) >= newline_count(d.skip(k)),
    decreases k - j,
{
    if j < k {
        lemma_skip_step(d, j);
        lemma_count_monotone(d, j + 1, k);
    }
}

proof fn lemma_keep_from(d: Seq<u8>, j: int, pos: int, max: nat)
    requires
        1 <= pos <= d.len(),
        0 <= j <= pos,
        d[pos - 1] == 10u8,
        newline_count(d.skip(pos)) == max,
    ensures
        keep_last_lines(d.skip(j), max) == d.skip(pos),
    decreases pos - j,
{
    if j < pos {
        lemma_count_monotone(d, j, pos - 1);
        lemma_skip_step(d, pos - 1);
        lemma_skip_step(d, j);
        lemma_keep_from(d, j + 1, pos, max);
    }
}

/// `keep_last_lines` never leaves more than `max` newlines.
pub proof fn lemma_keep_last_lines_bounded(s: Seq<u8>, max: nat)
    ensures
        newline_count(keep_last_lines(s, max)) <= max,
    decreases s.len(),
{
    if !(newline_count(s) <= max || s.len() == 0) {
        lemma_keep_last_lines_bounded(s.drop_first(), max);
    }
}

/// `keep_last_lines` returns an end piece of its input.
pub proof fn lemma_keep_last_lines_suffix(s: Seq<u8>, max: nat)
    ensures
        keep_last_lines(s, max).len() <= s.len(),
        keep_last_lines(s, max) == s.skip(s.len() - keep_last_lines(s, max).len()),
    decreases s.len(),
{
    if !(newline_count(s) <= max || s.len() == 0) {
        lemma_keep_last_lines_suffix(s.drop_first(), max);
        let r = keep_last_lines(s, max);
        assert(s.drop_first().skip(s.drop_first().len() - r.len()) =~= s.skip(s.len() - r.len()));
    } else {
        assert(s.skip(0) =~= s);
    }
}

/// Output that holds at most `max` newlines survives whole at the end of what is kept.
pub proof fn lemma_keep_last_lines_keeps_tail(a: Seq<u8>, b: Seq<u8>, max: nat)
    requires
        newline_count(b) <= max,
    ensures
        keep_last_lines(a + b, max).len() >= b.len(),
        keep_last_lines(a + b, max).skip(keep_last_lines(a + b, max).len() - b.len()) == b,
    decreases a.len(),
{
    let r = keep_last_lines(a + b, max);
    if newline_count(a + b) <= max {
        assert(r.skip(r.len() - b.len()) =~= b);
    } else if a.len() == 0 {
        assert(a + b =~= b);
    } else {
        assert((a + b).drop_first() =~= a.drop_first() + b);
        lemma_keep_last_lines_keeps_tail(a.drop_first(), b, max);
    }
}

/// The scrollback of one session: its recent output, capped at
/// `BUFFER_MAX_LINES` lines, and the file that the full output is logged to.
pub struct ScrollbackBuffer {
    data: Vec<u8>,
    file_path: String,
}

impl View for ScrollbackBuffer {
    type V = Seq<u8>;

    open spec fn view(&self) -> Seq<u8> {
        self.spec_data()
    }
}

impl ScrollbackBuffer {
    /// The bytes currently held.
    pub closed spec fn spec_data(&self) -> Seq<u8> {
        self.data@
    }

    /// The file that the output is logged to.
    pub closed spec fn spec_file_path(&self) -> Seq<char> {
        self.file_path@
    }

    /// An empty buffer that logs to `file_path`.
    pub fn new(file_path: &str) -> (r: Self)
        ensures
            r@ == Seq::<u8>::empty(),
            r.spec_file_path() == file_path@,
    {
        let mut p = String::new();
        push_str(&mut p, file_path);
        ScrollbackBuffer { data: Vec::new(), file_path: p }
    }

    /// The file that the output is logged to.
    pub fn file_path(&self) -> (r: &String)
        ensures
            r@ == self.spec_file_path(),
    {
        &self.file_path
    }

    /// Adds a chunk of output, then drops the oldest lines so that at most
    /// `BUFFER_MAX_LINES` newlines remain.
    pub fn append(&mut self, chunk: &[u8])
        ensures
            final(self)@ == keep_last_lines(old(self)@ + chunk@, BUFFER_MAX_LINES as nat),
            final(self).spec_file_path() == old(self).spec_file_path(),
    {
        let mut i: usize = 0;
        while i < chunk.len()
            invariant
                i <= chunk@.len(),
                self.data@ == old(self).data@ + chunk@.take(i as int),
                self.file_path == old(self).file_path,
            decreases chunk@.len() - i,
        {
            self.data.push(chunk[i]);
            assert(old(self).data@ + chunk@.take(i + 1) =~= (old(self).data@ + chunk@.take(
                i as int,
            )).push(chunk@[i as int]));
            i += 1;
        }
        assert(chunk@.take(chunk@.len() as int) =~= chunk@);
        let ghost d = self.data@;
        assert(d.skip(0) =~= d);
        let len = self.data.len();
        let mut total: usize = 0;
        let mut i: usize = 0;
        while i < len
            invariant
                len == d.len(),
                self.data@ == d,
                i <= len,
                total <= i,
                total + newline_count(d.skip(i as int)) == newline_count(d),
            decreases len - i,
        {
            proof {
                lemma_skip_step(d, i as int);
            }
            if self.data[i] == 10u8 {
                total += 1;
            }
            i += 1;
        }
        assert(d.skip(len as int) =~= Seq::<u8>::empty());
        if total > BUFFER_MAX_LINES {
            let excess = total - BUFFER_MAX_LINES;
            let mut skipped: usize = 0;
            let mut pos: usize = 0;
            let mut i: usize = 0;
            while i < len
                invariant_except_break
                    skipped + newline_count(d.skip(i as int)) == total,
                    skipped < excess,
                invariant
                    len == d.len(),
                    self.data@ == d,
                    i <= len,
                    total == newline_count(d),
                    excess == total - BUFFER_MAX_LINES,
                    excess >= 1,
                ensures
                    1 <= pos <= len,
                    d[pos - 1] == 10u8,
                    newline_count(d.skip(pos as int)) == BUFFER_MAX_LINES,
                decreases len - i,
            {
                proof {
                    lemma_skip_step(d, i as int);
                }
                if self.data[i] == 10u8 {
                    skipped += 1;
                    if skipped >= excess {
                        pos = i + 1;
                        break;
                    }
                }
                i += 1;
            }
            let mut kept: Vec<u8> = Vec::new();
            let mut j: usize = pos;
            while j < len
                invariant
                    len == d.len(),
                    self.data@ == d,
                    pos <= j <= len,
                    kept@ == d.subrange(pos as int, j as int),
                decreases len - j,
            {
                kept.push(self.data[j]);
                assert(d.subrange(pos as int, j + 1) =~= d.subrange(pos as int, j as int).push(
                    d[j as int],
                ));
                j += 1;
            }
            assert(kept@ =~= d.skip(pos as int));
            proof {
                lemma_keep_from(d, 0, pos as int, BUFFER_MAX_LINES as nat);
            }
            self.data = kept;
        }
    }

    /// A copy of the bytes currently held.
    pub fn get_all(&self) -> (r: Vec<u8>)
        ensures
            r@ == self@,
    {
        self.data.clone()
    }
}

/// What the session table records for one session.
pub struct SessionView {
    pub ticket_id: Seq<char>,
    pub scrollback: Seq<u8>,
    pub log_path: Seq<char>,
    pub unread: bool,
}

/// One running agent session: the ticket it works on, its scrollback, and
/// whether it has produced output since it was last looked at.
pub struct SessionRecord {
    pub ticket_id: String,
    pub buffer: ScrollbackBuffer,
    pub unread: bool,
}

impl View for SessionRecord {
    type V = SessionView;

    open spec fn view(&self) -> SessionView {
        SessionView {
            ticket_id: self.ticket_id@,
            scrollback: self.buffer@,
            log_path: self.buffer.spec_file_path(),
            unread: self.unread,
        }
    }
}

/// The table after a session is registered: any earlier session under the
/// same id is replaced by a fresh one with an empty scrollback.
pub open spec fn sessions_after_register(
    m: Map<Seq<char>, SessionView>,
    session_id: Seq<char>,
    ticket_id: Seq<char>,
    log_path: Seq<char>,
) -> Map<Seq<char>, SessionView> {
    m.insert(
        session_id,
        SessionView { ticket_id, scrollback: Seq::empty(), log_path, unread: false },
    )
}

/// The table after a session printed `data`: its scrollback grows and it is
/// marked unread. Output for an unknown session changes nothing.
pub open spec fn sessions_after_output(
    m: Map<Seq<char>, SessionView>,
    session_id: Seq<char>,
    data: Seq<u8>,
) -> Map<Seq<char>, SessionView> {
    if m.contains_key(session_id) {
        let v = m[session_id];
        m.insert(
            session_id,
            SessionView {
                scrollback: keep_last_lines(v.scrollback + data, BUFFER_MAX_LINES as nat),
                unread: true,
                ..v
            },
        )
    } else {
        m
    }
}

/// The table after a session's scrollback was read: it is no longer unread.
pub open spec fn sessions_after_read(
    m: Map<Seq<char>, SessionView>,
    session_id: Seq<char>,
) -> Map<Seq<char>, SessionView> {
    if m.contains_key(session_id) {
        m.insert(session_id, SessionView { unread: false, ..m[session_id] })
    } else {
        m
    }
}

/// The text of the error for a session id that is not in the table.
pub open spec fn session_not_found_message(session_id: Seq<char>) -> Seq<char> {
    "Session "@ + session_id + " not found"@
}

/// The running agent sessions, keyed by session id.
pub struct SessionManager {
    sessions: Vec<(String, SessionRecord)>,
}

impl View for SessionManager {
    type V = Map<Seq<char>, SessionView>;

    closed spec fn view(&self) -> Map<Seq<char>, SessionView> {
        entries_map(self.sessions@).map_values(|r: SessionRecord| r@)
    }
}

impl SessionManager {
    /// The table's internal consistency: no session id occurs twice.
    pub closed spec fn wf(&self) -> bool {
        keys_distinct(self.sessions@)
    }

    proof fn lemma_view_update(&self, i: int, e: (String, SessionRecord))
        requires
            self.wf(),
            0 <= i < self.sessions@.len(),
            e.0@ == self.sessions@[i].0@,
        ensures
            keys_distinct(self.sessions@.update(i, e)),
            entries_map(self.sessions@.update(i, e)).map_values(|r: SessionRecord| r@)
                == self@.insert(e.0@, e.1@),
    {
        lemma_entries_update(self.sessions@, i, e);
        lemma_map_values_insert(entries_map(self.sessions@), e.0@, e.1, |r: SessionRecord| r@);
    }

    /// An empty table.
    pub fn new() -> (r: Self)
        ensures
            r.wf(),
            r@ == Map::<Seq<char>, SessionView>::empty(),
    {
        let r = SessionManager { sessions: Vec::new() };
        assert(r@ =~= Map::<Seq<char>, SessionView>::empty());
        r
    }

    /// Records a freshly spawned session for `ticket_id`, whose output is
    /// logged to `scrollback_path`.
    pub fn register_session(&mut self, session_id: &str, ticket_id: &str, scrollback_path: &str)
        requires
            old(self).wf(),
        ensures
            final(self).wf(),
            final(self)@ == sessions_after_register(old(self)@, session_id@, ticket_id@, scrollback_path@),
    {
        let mut key = String::new();
        push_str(&mut key, session_id);
        let mut tid = String::new();
        push_str(&mut tid, ticket_id);
        let rec = SessionRecord { ticket_id: tid, buffer: ScrollbackBuffer::new(scrollback_path), unread: false };
        let ghost v = rec@;
        assert(v == SessionView { ticket_id: ticket_id@, scrollback: Seq::empty(), log_path: scrollback_path@, unread: false });
        match find_key(&self.sessions, session_id) {
            Some(i) => {
                proof {
                    self.lemma_view_update(i as int, (key, rec));
                    lemma_remove_insert(self.sessions@, i as int, (key, rec));
                }
                self.sessions.remove(i);
                self.sessions.insert(i, (key, rec));
            },
            None => {
                proof {
                    lemma_entries_push(self.sessions@, (key, rec));
                    lemma_map_values_insert(entries_map(self.sessions@), key@, rec, |r: SessionRecord| r@);
                }
                self.sessions.push((key, rec));
            },
        }
    }

    /// Takes in output that the session printed: it joins the scrollback and
    /// marks the session unread. Returns whether the session is known.
    pub fn record_output(&mut self, session_id: &str, data: &[u8]) -> (r: bool)
        requires
            old(self).wf(),
        ensures
            final(self).wf(),
            r == old(self)@.contains_key(session_id@),
            final(self)@ == sessions_after_output(old(self)@, session_id@, data@),
    {
        match find_key(&self.sessions, session_id) {
            Some(i) => {
                let ghost s0 = self.sessions@;
                let (key, mut rec) = self.sessions.remove(i);
                rec.buffer.append(data);
                rec.unread = true;
                proof {
                    let e = (key, rec);
                    lemma_remove_insert(s0, i as int, e);
                    lemma_entries_update(s0, i as int, e);
                    lemma_map_values_insert(entries_map(s0), key@, rec, |r: SessionRecord| r@);
                    crate::keyed::lemma_entries_map(s0);
                }
                self.sessions.insert(i, (key, rec));
                true
            },
            None => false,
        }
    }

    /// The scrollback of a session, which is then no longer unread.
    pub fn get_scrollback(&mut self, session_id: &str) -> (r: Result<Vec<u8>, String>)
        requires
            old(self).wf(),
        ensures
            final(self).wf(),
            final(self)@ == sessions_after_read(old(self)@, session_id@),
            match r {
                Ok(data) => old(self)@.contains_key(session_id@)
                    && data@ == old(self)@[session_id@].scrollback,
                Err(msg) => !old(self)@.contains_key(session_id@)
                    && msg@ == session_not_found_message(session_id@),
            },
    {
        match find_key(&self.sessions, session_id) {
            Some(i) => {
                let ghost s0 = self.sessions@;
                let (key, mut rec) = self.sessions.remove(i);
                rec.unread = false;
                let data = rec.buffer.get_all();
                proof {
                    let e = (key, rec);
                    lemma_remove_insert(s0, i as int, e);
                    lemma_entries_update(s0, i as int, e);
                    lemma_map_values_insert(entries_map(s0), key@, rec, |r: SessionRecord| r@);
                    crate::keyed::lemma_entries_map(s0);
                }
                self.sessions.insert(i, (key, rec));
                Ok(data)
            },
            None => {
                let mut msg = String::new();
                push_str(&mut msg, "Session ");
                push_str(&mut msg, session_id);
                push_str(&mut msg, " not found");
                Err(msg)
            },
        }
    }

    /// Forgets a session. Returns whether there was one to forget.
    pub fn kill_session(&mut self, session_id: &str) -> (r: bool)
        requires
            old(self).wf(),
        ensures
            final(self).wf(),
            r == old(self)@.contains_key(session_id@),
            final(self)@ == old(self)@.remove(session_id@),
    {
        match find_key(&self.sessions, session_id) {
            Some(i) => {
                proof {
                    lemma_entries_remove(self.sessions@, i as int);
                    lemma_map_values_remove(entries_map(self.sessions@), session_id@, |r: SessionRecord| r@);
                    crate::keyed::lemma_entries_map(self.sessions@);
                }
                self.sessions.remove(i);
                true
            },
            None => {
                assert(old(self)@.remove(session_id@) =~= old(self)@);
                false
            },
        }
    }

    /// Whether the session has printed output since it was last read.
    /// Unknown sessions are not unread.
    pub fn is_unread(&self, session_id: &str) -> (r: bool)
        requires
            self.wf(),
        ensures
            r == (self@.contains_key(session_id@) && self@[session_id@].unread),
    {
        match find_key(&self.sessions, session_id) {
            Some(i) => {
                proof { crate::keyed::lemma_entries_map(self.sessions@); }
                self.sessions[i].1.unread
            },
            None => false,
        }
    }

    /// Whether a session with this id is running.
    pub fn has_session(&self, session_id: &str) -> (r: bool)
        requires
            self.wf(),
        ensures
            r == self@.contains_key(session_id@),
    {
        proof { crate::keyed::lemma_entries_map(self.sessions@); }
        find_key(&self.sessions, session_id).is_some()
    }

    /// Resizing is left to the terminal widget; the table accepts and ignores it.
    pub fn resize_session(&self, session_id: &str, rows: u16, cols: u16) -> (r: Result<(), String>)
        ensures
            r is Ok,
    {
        Ok(())
    }
}

/// Law: after any append the scrollback holds at most `BUFFER_MAX_LINES`
/// lines, it is the end of the previous contents followed by the chunk, and a
/// chunk of at most `BUFFER_MAX_LINES` lines is kept whole.
pub proof fn law_scrollback_append(old_data: Seq<u8>, chunk: Seq<u8>)
    ensures
        newline_count(keep_last_lines(old_data + chunk, BUFFER_MAX_LINES as nat))
            <= BUFFER_MAX_LINES,
        ({
            let r = keep_last_lines(old_data + chunk, BUFFER_MAX_LINES as nat);
            r == (old_data + chunk).skip((old_data + chunk).len() - r.len())
        }),
        newline_count(chunk) <= BUFFER_MAX_LINES ==> ({
            let r = keep_last_lines(old_data + chunk, BUFFER_MAX_LINES as nat);
            r.len() >= chunk.len() && r.skip(r.len() - chunk.len()) == chunk
        }),
{
    lemma_keep_last_lines_bounded(old_data + chunk, BUFFER_MAX_LINES as nat);
    lemma_keep_last_lines_suffix(old_data + chunk, BUFFER_MAX_LINES as nat);
    if newline_count(chunk) <= BUFFER_MAX_LINES {
        lemma_keep_last_lines_keeps_tail(old_data, chunk, BUFFER_MAX_LINES as nat);
    }
}

/// Law: a session that was just registered is there, with an empty
/// scrollback, and is not unread.
pub proof fn law_register_then_present(
    m: Map<Seq<char>, SessionView>,
    session_id: Seq<char>,
    ticket_id: Seq<char>,
    log_path: Seq<char>,
)
    ensures
        sessions_after_register(m, session_id, ticket_id, log_path).contains_key(session_id),
        sessions_after_register(m, session_id, ticket_id, log_path)[session_id].scrollback.len() == 0,
        !sessions_after_register(m, session_id, ticket_id, log_path)[session_id].unread,
        sessions_after_register(m, session_id, ticket_id, log_path)[session_id].ticket_id == ticket_id,
{
}

/// Law: output marks its session unread and ends up at the end of its
/// scrollback; reading the scrollback clears the mark and leaves the
/// scrollback as it was. Other sessions are not touched by either.
pub proof fn law_output_then_read(m: Map<Seq<char>, SessionView>, session_id: Seq<char>, other: Seq<char>, data: Seq<u8>)
    requires
        m.contains_key(session_id),
        other != session_id,
    ensures
        sessions_after_output(m, session_id, data)[session_id].unread,
        newline_count(data) <= BUFFER_MAX_LINES ==> ({
            let sb = sessions_after_output(m, session_id, data)[session_id].scrollback;
            sb.len() >= data.len() && sb.skip(sb.len() - data.len()) == data
        }),
        !sessions_after_read(sessions_after_output(m, session_id, data), session_id)[session_id].unread,
        sessions_after_read(sessions_after_output(m, session_id, data), session_id)[session_id].scrollback
            == sessions_after_output(m, session_id, data)[session_id].scrollback,
        sessions_after_output(m, session_id, data).contains_key(other) == m.contains_key(other),
        m.contains_key(other) ==> sessions_after_output(m, session_id, data)[other] == m[other],
        sessions_after_read(m, session_id).contains_key(other) == m.contains_key(other),
        m.contains_key(other) ==> sessions_after_read(m, session_id)[other] == m[other],
{
    law_scrollback_append(m[session_id].scrollback, data);
}

/// Law: a killed session is gone, and no other session is affected.
pub proof fn law_kill_removes(m: Map<Seq<char>, SessionView>, session_id: Seq<char>, other: Seq<char>)
    requires
        other != session_id,
    ensures
        !m.remove(session_id).contains_key(session_id),
        m.remove(session_id).contains_key(other) == m.contains_key(other),
        m.contains_key(other) ==> m.remove(session_id)[other] == m[other],
{
}

/// The event on which a session's output is sent to the terminal view.
pub fn session_output_event(session_id: &str) -> (r: String)
    ensures
        r@ == "session_output_"@ + session_id@,
{
    let mut s = String::new();
    push_str(&mut s, "session_output_");
    push_str(&mut s, session_id);
    s
}

/// The name of a session's output log: `<session_id>.log`.
pub fn scrollback_file_name(session_id: &str) -> (r: String)
    ensures
        r@ == session_id@ + ".log"@,
{
    let mut s = String::new();
    push_str(&mut s, session_id);
    push_str(&mut s, ".log");
    s
}

/// The error for a session id that is not in the table.
pub fn session_not_found(session_id: &str) -> (r: String)
    ensures
        r@ == session_not_found_message(session_id@),
{
    let mut msg = String::new();
    push_str(&mut msg, "Session ");
    push_str(&mut msg, session_id);
    push_str(&mut msg, " not found");
    msg
}

/// The command-line program of each agent this library knows: `gemini`
/// runs `gemini`, and `aider` runs `aider`.
pub open spec fn known_agent_program(agent: Seq<char>) -> Option<Seq<char>> {
    if agent == "gemini"@ {
        Some("gemini"@)
    } else if agent == "aider"@ {
        Some("aider"@)
    } else {
        None
    }
}

/// The program that runs `agent`; an agent that is not known gives
/// `Unknown agent: <agent>`.
pub fn known_agent_cli(agent: &str) -> (r: Result<String, String>)
    ensures
        match known_agent_program(agent@) {
            Some(p) => r matches Ok(c) && c@ == p,
            None => r matches Err(m) && m@ == "Unknown agent: "@ + agent@,
        },
{
    if str_eq(agent, "gemini") {
        Ok(owned("gemini"))
    } else if str_eq(agent, "aider") {
        Ok(owned("aider"))
    } else {
        let mut m = String::new();
        push_str(&mut m, "Unknown agent: ");
        push_str(&mut m, agent);
        Err(m)
    }
}

} // verus!
