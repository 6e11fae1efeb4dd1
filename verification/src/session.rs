//! Conversation-session identity and its continuation rule: a session stays
//! current while it is touched again within a 30-minute window; afterwards a
//! fresh session with a new identifier supersedes it.

use vstd::prelude::*;

verus! {

/// The continuation window: a session is continued iff it was last active
/// less than this many milliseconds ago.
pub const SESSION_WINDOW_MILLIS: i64 = 1_800_000;

/// One conversation session.  Times are milliseconds since the epoch.
pub struct ConversationSession {
    pub id: String,
    pub start_time_millis: i64,
    pub topic: String,
    pub summary: String,
    pub last_active_millis: i64,
}

/// Mathematical value of a `ConversationSession`.
pub ghost struct SessionView {
    pub id: Seq<char>,
    pub start_time_millis: int,
    pub topic: Seq<char>,
    pub summary: Seq<char>,
    pub last_active_millis: int,
}

impl View for ConversationSession {
    type V = SessionView;

    open spec fn view(&self) -> SessionView {
        SessionView {
            id: self.id@,
            start_time_millis: self.start_time_millis as int,
            topic: self.topic@,
            summary: self.summary@,
            last_active_millis: self.last_active_millis as int,
        }
    }
}

/// True iff a session last active at `last` is continued at time `now`.
pub open spec fn within_window(now: int, last: int) -> bool {
    now - last < SESSION_WINDOW_MILLIS as int
}

/// The session view that `start_new_session` creates.
pub open spec fn fresh_session(id: Seq<char>, topic: Seq<char>, now: int) -> SessionView {
    SessionView {
        id: id,
        start_time_millis: now,
        topic: topic,
        summary: Seq::empty(),
        last_active_millis: now,
    }
}

/// The continuation rule, as one step: from the current session (if any),
/// the requested topic, the time and a fresh identifier, to the next
/// current session and the returned session id.  An active session within
/// the window is kept, only touched; otherwise the fresh session takes
/// over.
pub open spec fn session_step(
    cur: Option<SessionView>,
    topic: Seq<char>,
    now: int,
    fresh_id: Seq<char>,
) -> (Option<SessionView>, Seq<char>) {
    match cur {
        Some(s) => if within_window(now, s.last_active_millis) {
            (Some(SessionView { last_active_millis: now, ..s }), s.id)
        } else {
            (Some(fresh_session(fresh_id, topic, now)), fresh_id)
        },
        None => (Some(fresh_session(fresh_id, topic, now)), fresh_id),
    }
}

/// Relies on `uuid::Uuid::new_v4` and its hyphenated `Display` form: a
/// fresh random identifier rendered as 36 characters.
#[verifier::external_body]
fn new_session_id() -> (r: String)
    ensures
        r@.len() == 36,
{
    uuid::Uuid::new_v4().to_string()
}

/// Relies on `chrono::Utc::now` / `timestamp_millis`: the current time in
/// milliseconds since the epoch.  Nothing is promised of the value.
#[verifier::external_body]
fn now_millis() -> (r: i64) {
    chrono::Utc::now().timestamp_millis()
}

/// Owns the current conversation session, exactly one of which is live at a
/// time; a lapsed session is superseded, never destroyed.
pub struct SessionManager {
    current: Option<ConversationSession>,
}

impl SessionManager {
    /// The current session, if one is live.
    pub closed spec fn current(&self) -> Option<SessionView> {
        match self.current {
            Some(s) => Some(s@),
            None => None,
        }
    }

    /// Starts with no session.
    pub fn new() -> (r: Self)
        ensures
            r.current() is None,
    {
        SessionManager { current: None }
    }

    /// Unconditionally makes a fresh session with the given id current, as
    /// of time `now`.
    pub fn start_session_at(&mut self, topic: &str, now: i64, fresh_id: String) -> (r: String)
        ensures
            final(self).current() == Some(fresh_session(fresh_id@, topic@, now as int)),
            r@ == fresh_id@,
    {
        let id_copy = fresh_id.clone();
        let session = ConversationSession {
            id: fresh_id,
            start_time_millis: now,
            topic: topic.to_owned(),
            summary: String::new(),
            last_active_millis: now,
        };
        self.current = Some(session);
        id_copy
    }

    /// One step of the continuation rule at time `now` with a fresh id at
    /// hand: returns the current session's id and refreshes its
    /// last-active time when the window has not lapsed, else starts a
    /// fresh session.
    pub fn get_or_create_session_at(&mut self, topic: &str, now: i64, fresh_id: String) -> (r:
        String)
        ensures
            final(self).current() == session_step(
                old(self).current(),
                topic@,
                now as int,
                fresh_id@,
            ).0,
            r@ == session_step(old(self).current(), topic@, now as int, fresh_id@).1,
    {
        let cont = match &self.current {
            Some(s) => (now as i128) - (s.last_active_millis as i128) < (
            SESSION_WINDOW_MILLIS as i128),
            None => false,
        };
        if cont {
            match &mut self.current {
                Some(s) => {
                    s.last_active_millis = now;
                    s.id.clone()
                },
                None => {
                    proof {
                        assert(false);
                    }
                    fresh_id
                },
            }
        } else {
            self.start_session_at(topic, now, fresh_id)
        }
    }

    /// Starts a new session on the current clock with a fresh random id,
    /// and returns that id.
    pub fn start_new_session(&mut self, topic: &str) -> (r: String)
        ensures
            match final(self).current() {
                Some(s) => {
                    &&& r@ == s.id
                    &&& s.id.len() == 36
                    &&& s.topic == topic@
                    &&& s.summary == Seq::<char>::empty()
                    &&& s.start_time_millis == s.last_active_millis
                },
                None => false,
            },
    {
        let now = now_millis();
        let id = new_session_id();
        self.start_session_at(topic, now, id)
    }

    /// The continuation rule on the current clock: whatever time and fresh
    /// id come back, the outcome is one `session_step`.  Within the window
    /// this returns the current session's id unchanged; after it, a fresh
    /// 36-character id.
    pub fn get_or_create_session(&mut self, topic: Option<&str>) -> (r: String)
        ensures
            exists|now: int, fresh: Seq<char>|
                {
                    &&& fresh.len() == 36
                    &&& final(self).current() == #[trigger] session_step(
                        old(self).current(),
                        spec_topic_or_default(topic),
                        now,
                        fresh,
                    ).0
                    &&& r@ == session_step(
                        old(self).current(),
                        spec_topic_or_default(topic),
                        now,
                        fresh,
                    ).1
                },
    {
        let now = now_millis();
        let id = new_session_id();
        let ghost idv = id@;
        let t = match topic {
            Some(t) => t,
            None => "General Conversation",
        };
        let r = self.get_or_create_session_at(t, now, id);
        proof {
            assert(final(self).current() == session_step(
                old(self).current(),
                spec_topic_or_default(topic),
                now as int,
                idv,
            ).0);
        }
        r
    }

    /// Fills the current session's summary; without a session nothing
    /// changes.
    pub fn set_summary(&mut self, summary: String)
        ensures
            match old(self).current() {
                Some(s) => final(self).current() == Some(
                    SessionView { summary: summary@, ..s },
                ),
                None => final(self).current() is None,
            },
    {
        match &mut self.current {
            Some(s) => {
                s.summary = summary;
            },
            None => {},
        }
    }

    /// The current session's id, copied, if one is live.
    pub fn current_session_id(&self) -> (r: Option<String>)
        ensures
            match (r, self.current()) {
                (Some(id), Some(s)) => id@ == s.id,
                (None, None) => true,
                _ => false,
            },
    {
        match &self.current {
            Some(s) => Some(s.id.clone()),
            None => None,
        }
    }
}

/// The topic asked for, or the default one.
pub open spec fn spec_topic_or_default(topic: Option<&str>) -> Seq<char> {
    match topic {
        Some(t) => t@,
        None => "General Conversation"@,
    }
}

/// A second step within the continuation window returns the same session
/// id as the first; once the window has lapsed, the step returns the fresh
/// id, so a fresh id different from the first session's yields a different
/// result.
pub proof fn lemma_session_window(
    s0: Option<SessionView>,
    t1: Seq<char>,
    n1: int,
    id1: Seq<char>,
    t2: Seq<char>,
    n2: int,
    id2: Seq<char>,
)
    ensures
        ({
            let (s1, r1) = session_step(s0, t1, n1, id1);
            let (s2, r2) = session_step(s1, t2, n2, id2);
            &&& (n2 - n1 < SESSION_WINDOW_MILLIS as int ==> r2 == r1)
            &&& (n2 - n1 >= SESSION_WINDOW_MILLIS as int ==> r2 == id2)
        }),
{
    let (s1, r1) = session_step(s0, t1, n1, id1);
    assert(s1 matches Some(v) && v.last_active_millis == n1 && v.id == r1);
}

} // verus!

