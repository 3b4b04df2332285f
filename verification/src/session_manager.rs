//! The session pool: it lends session keys, takes them back, drops the ones
//! that the provider has invalidated, and refuses to create sessions beyond
//! the provider's quotas.
//!
//! The pool makes no request itself. When a session has to be created it
//! says so, and the caller hands it the provider's reply.

use crate::clock::{utc_now, UtcNow};
use crate::hi_rez_constants::{LimitConstants, ReturnDataType, UrlConstants};
use crate::models::CreateSessionReply;
use crate::pool_state::{
    created_today, distinct_keys, has_key, lemma_enroll, lemma_evict, lemma_initial_pools,
    lemma_lend, lemma_position_found, lemma_position_of, lemma_replace, no_sessions_available,
    position_of, PoolOp, PoolState, SessionView, SECONDS_IN_A_DAY,
};
use crate::text::{
    chars_of, decimal, free_of, join, lemma_decimal_chars, lemma_parse_decimal, lemma_split_join,
    lemma_split_push, parse_decimal, parse_i64, push_decimal, split, split_chars, string_of,
};
use crate::url_builder::{session_url, spec_session_url, timestamp_text};
use rand::{thread_rng, Rng};
use std::collections::VecDeque;
use vstd::prelude::*;

verus! {

/// The developer's credentials.
pub struct Auth {
    pub dev_id: String,
    pub dev_key: String,
}

impl Auth {
    /// The first two lines of a credentials file: the developer id, then the
    /// developer key.
    pub open spec fn spec_from_file(contents: Seq<char>) -> Option<(Seq<char>, Seq<char>)> {
        let lines = split(contents, '\n');
        if lines.len() >= 2 {
            Some((lines[0], lines[1]))
        } else {
            None
        }
    }

    /// Reads the contents of a credentials file. A file of fewer than two
    /// lines holds no credentials.
    pub fn from_file(contents: &str) -> (auth: Option<Auth>)
        ensures
            match auth {
                Some(a) => Self::spec_from_file(contents@) == Some((a.dev_id@, a.dev_key@)),
                None => Self::spec_from_file(contents@) is None,
            },
    {
        let chars = chars_of(contents);
        assert(chars@.subrange(0, chars@.len() as int) =~= contents@);
        let lines = split_chars(&chars, 0, chars.len(), '\n');
        if lines.len() >= 2 {
            let dev_id = string_of(&chars, lines[0].0, lines[0].1);
            let dev_key = string_of(&chars, lines[1].0, lines[1].1);
            Some(Auth { dev_id, dev_key })
        } else {
            None
        }
    }
}

/// A session key lent by the provider, with the second of its creation.
#[derive(Clone)]
pub struct Session {
    session_key: String,
    creation_timestamp: i64,
}

impl View for Session {
    type V = SessionView;

    closed spec fn view(&self) -> SessionView {
        SessionView { key: self.session_key@, created: self.creation_timestamp as int }
    }
}

/// Whether a session is within its lifetime at the second `now`.
pub open spec fn is_alive(session: SessionView, now: int) -> bool {
    now - session.created < LimitConstants::SessionTimeLimit.spec_val()
}

impl Session {
    /// The session with the key `session_key` that was created at the
    /// second `creation_timestamp`.
    pub fn new(session_key: String, creation_timestamp: i64) -> (session: Session)
        ensures
            session@.key == session_key@,
            session@.created == creation_timestamp,
    {
        Session { session_key, creation_timestamp }
    }

    /// The key that the provider issued.
    pub fn session_key(&self) -> (key: &String)
        ensures
            key@ == self@.key,
    {
        &self.session_key
    }

    /// The second at which the session was created.
    pub fn creation_timestamp(&self) -> (created: i64)
        ensures
            created == self@.created,
    {
        self.creation_timestamp
    }

    /// Whether the session is within its lifetime at the second `now`.
    pub fn is_valid(&self, now: i64) -> (valid: bool)
        ensures
            valid == is_alive(self@, now as int),
    {
        (now as i128) - (self.creation_timestamp as i128) < (
        LimitConstants::SessionTimeLimit.val() as i128)
    }
}

/// The views of a run of sessions.
pub open spec fn session_views(sessions: Seq<Session>) -> Seq<SessionView> {
    sessions.map_values(|s: Session| s@)
}

/// What the pool answers when it is asked for a session key.
pub enum SessionGrant {
    /// The key of a session that was idle and is now lent.
    Lent(String),
    /// No session is idle and no quota forbids a new one: the caller asks
    /// the provider for a session and hands the reply to `create_session`.
    Create,
    /// No session is idle and a quota forbids a new one; the message says
    /// which.
    Refused(String),
}

/// What the provider's answer to a request for a new session came to.
pub enum SessionReply {
    /// The request failed in transport; the message is the transport's.
    Unreachable(String),
    /// The body could not be decoded; the message is the decoder's.
    Undecodable(String),
    /// The decoded reply.
    Decoded(CreateSessionReply),
}

/// The line that keeps a session in the sessions file, without the line feed
/// that ends it: the key, a space, and the second of its creation in decimal.
pub open spec fn line_of(session: SessionView) -> Seq<char> {
    session.key + " "@ + decimal(session.created)
}

/// The line that keeps a session in the sessions file, with its line feed.
pub open spec fn record(session: SessionView) -> Seq<char> {
    line_of(session) + "\n"@
}

/// The lines that keep a run of sessions, in their order.
pub open spec fn records(sessions: Seq<SessionView>) -> Seq<char>
    decreases sessions.len(),
{
    if sessions.len() == 0 {
        Seq::empty()
    } else {
        records(sessions.drop_last()) + record(sessions.last())
    }
}

/// A line of the sessions file keeps a session if a space parts it in two
/// tokens or more.
pub open spec fn is_record(line: Seq<char>) -> bool {
    split(line, ' ').len() > 1
}

/// A line that keeps a session can be read if its second token is the second
/// of the session's creation in decimal.
pub open spec fn is_readable(line: Seq<char>) -> bool {
    is_record(line) ==> parse_decimal(split(line, ' ')[1]) is Some
}

/// The session that a line keeps: its first token is the key, its second the
/// second of its creation.
pub open spec fn session_of(line: Seq<char>) -> SessionView
    recommends
        is_record(line),
        is_readable(line),
{
    SessionView { key: split(line, ' ')[0], created: parse_decimal(split(line, ' ')[1]).unwrap() }
}

/// The sessions that the lines keep, in their order; lines that keep none
/// are passed over.
pub open spec fn sessions_in(lines: Seq<Seq<char>>) -> Seq<SessionView>
    decreases lines.len(),
{
    if lines.len() == 0 {
        Seq::empty()
    } else if is_record(lines.last()) {
        sessions_in(lines.drop_last()).push(session_of(lines.last()))
    } else {
        sessions_in(lines.drop_last())
    }
}

/// The sessions that a sessions file keeps, if every line that keeps one can
/// be read.
pub open spec fn spec_load(contents: Seq<char>) -> Option<Seq<SessionView>> {
    let lines = split(contents, '\n');
    if forall|i: int| 0 <= i < lines.len() ==> is_readable(#[trigger] lines[i]) {
        Some(sessions_in(lines))
    } else {
        None
    }
}

/// A session can be kept in the sessions file and found there again if its
/// key holds neither a space nor a line feed and the second of its creation
/// is an integer of 64 bits.
pub open spec fn is_storable(session: SessionView) -> bool {
    &&& free_of(session.key, ' ')
    &&& free_of(session.key, '\n')
    &&& i64::MIN <= session.created <= i64::MAX
}

/// The line that keeps a storable session is read as that session.
pub proof fn lemma_line_reads_back(session: SessionView)
    requires
        is_storable(session),
    ensures
        free_of(line_of(session), '\n'),
        is_record(line_of(session)),
        is_readable(line_of(session)),
        session_of(line_of(session)) == session,
{
    reveal_strlit(" ");
    assert(" "@ =~= seq![' ']);
    let written = decimal(session.created);
    lemma_decimal_chars(session.created, ' ');
    lemma_decimal_chars(session.created, '\n');
    lemma_parse_decimal(session.created);
    let tokens = seq![session.key, written];
    assert(tokens.drop_last() =~= seq![session.key]);
    assert(join(seq![session.key], seq![' ']) == session.key);
    assert(join(tokens, seq![' ']) =~= line_of(session));
    assert forall|i: int| 0 <= i < tokens.len() implies free_of(#[trigger] tokens[i], ' ') by {}
    lemma_split_join(tokens, ' ');
}

/// The sessions file that keeps storable sessions is read as those
/// sessions, in their order: what `store` writes, `load` reads.
pub proof fn lemma_load_reads_what_store_writes(sessions: Seq<SessionView>)
    requires
        forall|i: int| 0 <= i < sessions.len() ==> is_storable(#[trigger] sessions[i]),
    ensures
        spec_load(records(sessions)) == Some(sessions),
{
    reveal_strlit("\n");
    assert("\n"@ =~= seq!['\n']);
    let lines = sessions.map_values(|session: SessionView| line_of(session));
    let empty = Seq::<char>::empty();
    assert(split(empty, ' ') =~= seq![empty]);
    assert(!is_record(empty));
    if sessions.len() == 0 {
        assert(split(records(sessions), '\n') =~= seq![empty]);
        assert(seq![empty].drop_last() =~= Seq::<Seq<char>>::empty());
        assert(seq![empty].last() == empty);
        assert(sessions_in(seq![empty].drop_last()) =~= sessions);
        assert(sessions_in(seq![empty]) =~= sessions);
    } else {
        lemma_records_are_joined_lines(sessions);
        assert forall|i: int| 0 <= i < lines.len() implies free_of(#[trigger] lines[i], '\n') by {
            lemma_line_reads_back(sessions[i]);
        }
        lemma_split_join(lines, '\n');
        lemma_split_push(join(lines, seq!['\n']), empty, '\n');
        assert(join(lines, seq!['\n']) + seq!['\n'] + empty =~= records(sessions));
        let read = split(records(sessions), '\n');
        assert(read == lines.push(empty));
        assert(read.drop_last() =~= lines);
        assert(read.last() == empty);
        lemma_sessions_in_lines(sessions);
        assert(sessions_in(read) == sessions);
        assert forall|i: int| 0 <= i < read.len() implies is_readable(#[trigger] read[i]) by {
            if i < lines.len() {
                lemma_line_reads_back(sessions[i]);
            }
        }
    }
}

/// The file that keeps one session or more is their lines, with line feeds
/// between them and one at the end.
proof fn lemma_records_are_joined_lines(sessions: Seq<SessionView>)
    requires
        sessions.len() > 0,
    ensures
        records(sessions) == join(
            sessions.map_values(|session: SessionView| line_of(session)),
            seq!['\n'],
        ) + seq!['\n'],
    decreases sessions.len(),
{
    reveal_strlit("\n");
    assert("\n"@ =~= seq!['\n']);
    let lines = sessions.map_values(|session: SessionView| line_of(session));
    let before = sessions.drop_last();
    let lines_before = before.map_values(|session: SessionView| line_of(session));
    assert(lines.drop_last() =~= lines_before);
    if sessions.len() == 1 {
        assert(records(before) =~= Seq::<char>::empty());
        assert(records(sessions) =~= join(lines, seq!['\n']) + seq!['\n']);
    } else {
        lemma_records_are_joined_lines(before);
        assert(records(sessions) =~= join(lines, seq!['\n']) + seq!['\n']);
    }
}

/// The lines of storable sessions keep those sessions.
proof fn lemma_sessions_in_lines(sessions: Seq<SessionView>)
    requires
        forall|i: int| 0 <= i < sessions.len() ==> is_storable(#[trigger] sessions[i]),
    ensures
        sessions_in(sessions.map_values(|session: SessionView| line_of(session))) == sessions,
    decreases sessions.len(),
{
    let lines = sessions.map_values(|session: SessionView| line_of(session));
    if sessions.len() > 0 {
        let before = sessions.drop_last();
        assert(lines.drop_last() =~= before.map_values(|session: SessionView| line_of(session)));
        lemma_sessions_in_lines(before);
        lemma_line_reads_back(sessions.last());
        assert(lines.last() == line_of(sessions.last()));
        assert(sessions_in(lines) =~= sessions);
    } else {
        assert(sessions_in(lines) =~= sessions);
    }
}

/// What a reply to a request for a new session yields at the second `now`:
/// the new session, or the message of the failure. A reply is good if its
/// `ret_msg` is `Approved` and it holds a session id.
pub open spec fn spec_session_from_reply(reply: SessionReply, now: int) -> Result<
    SessionView,
    Seq<char>,
> {
    match reply {
        SessionReply::Unreachable(message) => Err(message@),
        SessionReply::Undecodable(message) => Err(
            "Error deserializing create session reply: "@ + message@,
        ),
        SessionReply::Decoded(reply) => match reply.ret_msg {
            None => Err("CreateSession Request Error: ret_msg was null"@),
            Some(ret_msg) => if ret_msg@ != "Approved"@ {
                Err("CreateSession Request Error: "@ + ret_msg@)
            } else {
                match reply.session_id {
                    None => Err("CreateSession Request Error: session_id was null"@),
                    Some(key) => Ok(SessionView { key: key@, created: now }),
                }
            },
        },
    }
}

/// Whether `answer` says in text what `expected` says in characters.
pub open spec fn answers(answer: Result<String, String>, expected: Result<Seq<char>, Seq<char>>) -> bool {
    match answer {
        Ok(key) => expected == Ok::<Seq<char>, Seq<char>>(key@),
        Err(message) => expected == Err::<Seq<char>, Seq<char>>(message@),
    }
}

/// Reads the provider's reply to a request for a new session, received at
/// the second `now`.
pub fn session_from_reply(reply: SessionReply, now: i64) -> (made: Result<Session, String>)
    ensures
        match made {
            Ok(session) => spec_session_from_reply(reply, now as int) == Ok::<
                SessionView,
                Seq<char>,
            >(session@),
            Err(message) => spec_session_from_reply(reply, now as int) == Err::<
                SessionView,
                Seq<char>,
            >(message@),
        },
{
    match reply {
        SessionReply::Unreachable(message) => Err(message),
        SessionReply::Undecodable(message) => {
            let mut text: String = "Error deserializing create session reply: ".to_owned();
            text.append(message.as_str());
            Err(text)
        },
        SessionReply::Decoded(reply) => {
            match reply.ret_msg {
                None => Err("CreateSession Request Error: ret_msg was null".to_owned()),
                Some(ret_msg) => {
                    if ret_msg != "Approved".to_owned() {
                        let mut text: String = "CreateSession Request Error: ".to_owned();
                        text.append(ret_msg.as_str());
                        Err(text)
                    } else {
                        match reply.session_id {
                            None => Err(
                                "CreateSession Request Error: session_id was null".to_owned(),
                            ),
                            Some(key) => Ok(Session { session_key: key, creation_timestamp: now }),
                        }
                    }
                },
            }
        },
    }
}

/// What a caller in want of a session key does next.
pub enum KeyStep {
    /// A key is lent: go on with it.
    Ready(String),
    /// Ask the provider for a session and hand the reply to
    /// `create_session`.
    Create,
    /// Every session is lent out: ask the pool again after this time.
    Wait { seconds: u64, nanoseconds: u32 },
    /// No key can be had; the message says why.
    Failed(String),
}

/// Draws a number from `low` up to, but not including, `high` from rand's
/// `thread_rng()` with `Rng::gen_range`.
///
/// Trusted: the number lies in that range; which one it is, is left open.
/// `gen_range` panics unless `low < high`.
#[verifier::external_body]
fn random_in_range(low: u32, high: u32) -> (n: u32)
    requires
        low < high,
    ensures
        low <= n < high,
{
    thread_rng().gen_range(low, high)
}

/// The nanoseconds that a caller waits beyond a second stay under this.
pub const JITTER_NANOSECONDS: u32 = 5;

/// Decides on a refusal, with the caller's few nanoseconds given: while
/// every session is lent out the caller waits a second and `jitter`
/// nanoseconds; any other refusal is final.
pub fn wait_or_fail(message: String, jitter: u32) -> (step: KeyStep)
    ensures
        message@ == no_sessions_available() ==> step == (KeyStep::Wait {
            seconds: 1,
            nanoseconds: jitter,
        }),
        message@ != no_sessions_available() ==> step == KeyStep::Failed(message),
{
    if message == "No sessions available".to_owned() {
        KeyStep::Wait { seconds: 1, nanoseconds: jitter }
    } else {
        KeyStep::Failed(message)
    }
}

/// Decides on a refusal: while every session is lent out the caller waits a
/// second and a few nanoseconds, drawn at random so that waiting callers do
/// not all come back at once; any other refusal is final.
pub fn retry_or_fail(message: String) -> (step: KeyStep)
    ensures
        message@ == no_sessions_available() ==> (step matches KeyStep::Wait {
            seconds,
            nanoseconds,
        } && seconds == 1 && nanoseconds < JITTER_NANOSECONDS),
        message@ != no_sessions_available() ==> step == KeyStep::Failed(message),
{
    if message == "No sessions available".to_owned() {
        let jitter = random_in_range(0, JITTER_NANOSECONDS);
        wait_or_fail(message, jitter)
    } else {
        wait_or_fail(message, 0)
    }
}

/// The session pool of one process.
pub struct SessionManager {
    idle_sessions: VecDeque<Session>,
    active_sessions: Vec<Session>,
    sessions_created: u16,
    valid_session_count: u8,
    num_requests: u16,
    credentials: Auth,
    base_url: UrlConstants,
}

impl View for SessionManager {
    type V = PoolState;

    closed spec fn view(&self) -> PoolState {
        PoolState {
            idle: session_views(self.idle_sessions@),
            active: session_views(self.active_sessions@),
            sessions_created: self.sessions_created as nat,
            valid_session_count: self.valid_session_count as nat,
            num_requests: self.num_requests as nat,
        }
    }
}

impl SessionManager {
    /// The quotas hold and every session in the pool is counted as valid.
    pub open spec fn wf(&self) -> bool {
        self@.wf()
    }

    /// The credentials with which the pool's requests are signed.
    pub closed spec fn spec_credentials(&self) -> Auth {
        self.credentials
    }

    /// The address of the API.
    pub closed spec fn spec_base_url(&self) -> UrlConstants {
        self.base_url
    }

    /// The pool's sessions and counters aside, nothing distinguishes the two.
    pub open spec fn same_account(&self, other: &SessionManager) -> bool {
        self.spec_credentials() == other.spec_credentials() && self.spec_base_url()
            == other.spec_base_url()
    }

    /// The credentials with which the pool's requests are signed.
    pub fn credentials(&self) -> (credentials: &Auth)
        ensures
            *credentials == self.spec_credentials(),
    {
        &self.credentials
    }

    /// The address of the API.
    pub fn base_url(&self) -> (base_url: &UrlConstants)
        ensures
            *base_url == self.spec_base_url(),
    {
        &self.base_url
    }

    /// A pool that starts with the sessions left by an earlier run, as the
    /// second `now` finds them: all are idle and count as valid, and those
    /// created within the last day count against the day's allowance. More
    /// sessions than may exist at one time make no pool.
    pub fn restored(
        credentials: Auth,
        base_url: UrlConstants,
        idle_sessions: VecDeque<Session>,
        now: i64,
    ) -> (pool: SessionManager)
        requires
            idle_sessions@.len() <= LimitConstants::ConcurrentSessions.spec_val(),
        ensures
            pool@ == PoolState::restored(session_views(idle_sessions@), now as int),
            pool.spec_credentials() == credentials,
            pool.spec_base_url() == base_url,
            pool.wf(),
            pool@.one_place() <==> distinct_keys(session_views(idle_sessions@)),
    {
        let ghost views = session_views(idle_sessions@);
        let mut created: u16 = 0;
        let mut i: usize = 0;
        while i < idle_sessions.len()
            invariant
                i <= idle_sessions@.len() <= 45,
                views == session_views(idle_sessions@),
                created == created_today(views.take(i as int), now as int),
                created <= i,
            decreases idle_sessions@.len() - i,
        {
            proof {
                assert(views.take(i + 1).drop_last() =~= views.take(i as int));
                assert(views.take(i + 1).last() == idle_sessions@[i as int]@);
            }
            let age: i128 = (now as i128) - (idle_sessions[i].creation_timestamp as i128);
            if age < SECONDS_IN_A_DAY as i128 {
                created = created + 1;
            }
            i = i + 1;
        }
        proof {
            assert(views.take(i as int) =~= views);
            lemma_initial_pools(views, now as int);
        }
        let valid_session_count: u8 = idle_sessions.len() as u8;
        let pool = SessionManager {
            idle_sessions,
            active_sessions: Vec::new(),
            sessions_created: created,
            valid_session_count,
            num_requests: 0,
            credentials,
            base_url,
        };
        assert(pool@.active =~= Seq::empty());
        pool
    }

    /// A pool that starts with the sessions left by an earlier run, as the
    /// clock finds them now.
    pub fn new(credentials: Auth, base_url: UrlConstants, idle_sessions: VecDeque<Session>) -> (pool:
        SessionManager)
        requires
            idle_sessions@.len() <= LimitConstants::ConcurrentSessions.spec_val(),
        ensures
            exists|now: i64|
                pool@ == PoolState::restored(session_views(idle_sessions@), now as int),
            pool.spec_credentials() == credentials,
            pool.spec_base_url() == base_url,
            pool.wf(),
            pool@.one_place() <==> distinct_keys(session_views(idle_sessions@)),
    {
        let now = utc_now();
        Self::restored(credentials, base_url, idle_sessions, now.unix_seconds)
    }

    /// An empty pool with stand-in credentials, for trials without a
    /// provider.
    pub fn mock() -> (pool: SessionManager)
        ensures
            pool@ == PoolState::empty(),
            pool.spec_credentials().dev_id@ == "dummy"@,
            pool.spec_credentials().dev_key@ == "creds"@,
            pool.spec_base_url() == UrlConstants::UrlBase,
            pool.wf(),
            pool@.one_place(),
    {
        let pool = SessionManager {
            idle_sessions: VecDeque::new(),
            active_sessions: Vec::new(),
            sessions_created: 0,
            valid_session_count: 0,
            num_requests: 0,
            credentials: Auth { dev_id: "dummy".to_owned(), dev_key: "creds".to_owned() },
            base_url: UrlConstants::UrlBase,
        };
        assert(pool@.idle =~= Seq::empty());
        assert(pool@.active =~= Seq::empty());
        assert(pool@.idle + pool@.active =~= Seq::empty());
        pool
    }

    /// Whether the quotas hold and every session in the pool is counted as
    /// valid.
    pub fn is_well_formed(&self) -> (well_formed: bool)
        ensures
            well_formed == self.wf(),
    {
        self.sessions_created <= LimitConstants::SessionsPerDay.val() && (
        self.valid_session_count as u16) <= LimitConstants::ConcurrentSessions.val()
            && self.idle_sessions.len() <= self.valid_session_count as usize
            && self.active_sessions.len() <= self.valid_session_count as usize
                - self.idle_sessions.len()
    }

    /// The sessions created on this day.
    pub fn sessions_created(&self) -> (count: u16)
        ensures
            count == self@.sessions_created,
    {
        self.sessions_created
    }

    /// The sessions believed to be within their lifetime.
    pub fn valid_session_count(&self) -> (count: u8)
        ensures
            count == self@.valid_session_count,
    {
        self.valid_session_count
    }

    /// The keys lent so far.
    pub fn num_requests(&self) -> (count: u16)
        ensures
            count == self@.num_requests,
    {
        self.num_requests
    }

    /// The number of sessions that wait to be lent.
    pub fn idle_len(&self) -> (count: usize)
        ensures
            count == self@.idle.len(),
    {
        self.idle_sessions.len()
    }

    /// The number of sessions that are lent out.
    pub fn active_len(&self) -> (count: usize)
        ensures
            count == self@.active.len(),
    {
        self.active_sessions.len()
    }

    /// The place of the first active session with the key `session_key`, or
    /// the number of active sessions if none has it.
    fn position(&self, session_key: &String) -> (at: usize)
        ensures
            at == position_of(self@.active, session_key@),
            at <= self.active_sessions@.len(),
            has_key(self@.active, session_key@) <==> at < self.active_sessions@.len(),
    {
        let mut at: usize = 0;
        while at < self.active_sessions.len()
            invariant
                at <= self.active_sessions@.len(),
                forall|i: int| 0 <= i < at ==> (#[trigger] self@.active[i]).key != session_key@,
            ensures
                at < self.active_sessions@.len() ==> self@.active[at as int].key == session_key@,
            decreases self.active_sessions@.len() - at,
        {
            if self.active_sessions[at].session_key == *session_key {
                break ;
            }
            at = at + 1;
        }
        proof {
            lemma_position_found(self@.active, session_key@, at as int);
            lemma_position_of(self@.active, session_key@);
        }
        at
    }

    /// Whether a session with the key `session_key` is lent out.
    pub fn is_active(&self, session_key: &String) -> (active: bool)
        ensures
            active == has_key(self@.active, session_key@),
    {
        self.position(session_key) < self.active_sessions.len()
    }

    /// Lends the session that has been idle longest, if one is idle.
    /// Otherwise the quotas decide: the day's sessions, the day's requests
    /// and the sessions that may exist at one time are looked at in this
    /// order, and the first that is used up refuses; if none is, the caller
    /// is to create a session. Only lending changes the pool.
    pub fn get_session_key(&mut self) -> (grant: SessionGrant)
        requires
            old(self).wf(),
            old(self)@.idle.len() > 0 ==> old(self)@.num_requests < u16::MAX,
        ensures
            final(self).wf(),
            final(self).same_account(old(self)),
            final(self)@ == old(self)@.apply(PoolOp::GetSessionKey),
            old(self)@.one_place() ==> final(self)@.one_place(),
            old(self)@.idle.len() > 0 ==> final(self)@ == old(self)@.lend() && (
            grant matches SessionGrant::Lent(key) && key@ == old(self)@.idle[0].key && has_key(
                final(self)@.active,
                key@,
            )),
            old(self)@.idle.len() == 0 ==> final(self)@ == old(self)@ && match old(self)@.refusal() {
                Some(message) => grant matches SessionGrant::Refused(m) && m@ == message,
                None => grant is Create,
            },
    {
        proof {
            if self@.idle.len() > 0 {
                lemma_lend(self@);
            }
        }
        match self.idle_sessions.pop_front() {
            Some(session) => {
                let key = session.session_key.clone();
                self.active_sessions.push(session);
                self.num_requests = self.num_requests + 1;
                proof {
                    assert(self@.idle =~= old(self)@.idle.skip(1));
                    assert(self@.active =~= old(self)@.active.push(old(self)@.idle[0]));
                }
                return SessionGrant::Lent(key);
            },
            None => {},
        }
        assert(self@.idle =~= old(self)@.idle);
        if self.sessions_created >= LimitConstants::SessionsPerDay.val() {
            SessionGrant::Refused("Maximum number of sessions per day reached".to_owned())
        } else if self.num_requests >= LimitConstants::RequestsPerDay.val() {
            SessionGrant::Refused("Maximum number of requests per day reached".to_owned())
        } else if self.valid_session_count as u16 >= LimitConstants::ConcurrentSessions.val() {
            SessionGrant::Refused("No sessions available".to_owned())
        } else {
            SessionGrant::Create
        }
    }

    /// Takes back the session with the key `session_key` and puts it behind
    /// the idle ones. The session must be lent out.
    pub fn replace_session(&mut self, session_key: String)
        requires
            old(self).wf(),
            has_key(old(self)@.active, session_key@),
        ensures
            final(self)@ == old(self)@.replace(session_key@),
            final(self)@ == old(self)@.apply(PoolOp::ReplaceSession(session_key@)),
            final(self).wf(),
            final(self).same_account(old(self)),
            old(self)@.one_place() ==> final(self)@.one_place(),
    {
        let at = self.position(&session_key);
        proof {
            lemma_replace(self@, session_key@);
        }
        let session = self.active_sessions.remove(at);
        self.idle_sessions.push_back(session);
        proof {
            assert(self@.idle =~= old(self)@.idle.push(old(self)@.active[at as int]));
            assert(self@.active =~= old(self)@.active.remove(at as int));
        }
    }

    /// Drops the session with the key `session_key`, which the provider has
    /// refused: one session fewer counts as valid. The day's count of created
    /// sessions stays, for its allowance is spent. The session must be lent
    /// out.
    pub fn remove_invalid_session(&mut self, session_key: String)
        requires
            old(self).wf(),
            has_key(old(self)@.active, session_key@),
        ensures
            final(self)@ == old(self)@.evict(session_key@),
            final(self)@ == old(self)@.apply(PoolOp::RemoveInvalidSession(session_key@)),
            final(self).wf(),
            final(self).same_account(old(self)),
            old(self)@.one_place() ==> final(self)@.one_place(),
    {
        let at = self.position(&session_key);
        proof {
            lemma_evict(self@, session_key@);
        }
        self.active_sessions.remove(at);
        self.valid_session_count = self.valid_session_count - 1;
        proof {
            assert(self@.active =~= old(self)@.active.remove(at as int));
        }
    }

    /// The URL that asks the provider for a new session, signed with the
    /// pool's credentials for the current time.
    pub fn create_session_url(&self) -> (url: String)
        ensures
            exists|now: UtcNow|
                now.wf() && url@ == spec_session_url(
                    self.spec_base_url(),
                    ReturnDataType::Json,
                    self.spec_credentials().dev_id@,
                    self.spec_credentials().dev_key@,
                    timestamp_text(now),
                ),
    {
        session_url(
            &self.base_url,
            &ReturnDataType::Json,
            self.credentials.dev_id.as_str(),
            self.credentials.dev_key.as_str(),
        )
    }

    /// Takes the provider's reply to a request for a new session, received
    /// at the second `now`. A quota that forbids a new session refuses,
    /// whatever the reply; a reply that yields no session fails with its
    /// message; both leave the pool as it was. A new session is lent at
    /// once: it counts as created on this day, as valid and as one request.
    pub fn create_session_at(&mut self, reply: SessionReply, now: i64) -> (answer: Result<
        String,
        String,
    >)
        requires
            old(self).wf(),
        ensures
            final(self).wf(),
            final(self).same_account(old(self)),
            final(self)@ == old(self)@.create(spec_session_from_reply(reply, now as int)).0,
            final(self)@ == old(self)@.apply(
                PoolOp::CreateSession(spec_session_from_reply(reply, now as int)),
            ),
            answers(answer, old(self)@.create(spec_session_from_reply(reply, now as int)).1),
            answer matches Ok(key) ==> has_key(final(self)@.active, key@),
            old(self)@.one_place() && (answer matches Ok(key) && !old(self)@.holds(key@))
                ==> final(self)@.one_place(),
            answer is Err ==> (old(self)@.one_place() ==> final(self)@.one_place()),
    {
        if self.sessions_created >= LimitConstants::SessionsPerDay.val() {
            return Err("Maximum number of sessions per day reached".to_owned());
        } else if self.num_requests >= LimitConstants::RequestsPerDay.val() {
            return Err("Maximum number of requests per day reached".to_owned());
        } else if self.valid_session_count as u16 >= LimitConstants::ConcurrentSessions.val() {
            return Err("No sessions available".to_owned());
        }
        match session_from_reply(reply, now) {
            Ok(session) => {
                proof {
                    lemma_enroll(self@, session@);
                }
                let key = session.session_key.clone();
                self.active_sessions.push(session);
                self.valid_session_count = self.valid_session_count + 1;
                self.sessions_created = self.sessions_created + 1;
                self.num_requests = self.num_requests + 1;
                proof {
                    assert(self@.active =~= old(self)@.active.push(session@));
                }
                Ok(key)
            },
            Err(message) => Err(message),
        }
    }

    /// Takes the provider's reply to a request for a new session, received
    /// now: `create_session_at` at the second that the clock shows.
    pub fn create_session(&mut self, reply: SessionReply) -> (answer: Result<String, String>)
        requires
            old(self).wf(),
        ensures
            final(self).wf(),
            final(self).same_account(old(self)),
            exists|now: i64|
                final(self)@ == old(self)@.create(
                    #[trigger] spec_session_from_reply(reply, now as int),
                ).0
                    && answers(
                    answer,
                    old(self)@.create(spec_session_from_reply(reply, now as int)).1,
                ),
            answer matches Ok(key) ==> has_key(final(self)@.active, key@),
            old(self)@.one_place() && (answer matches Ok(key) && !old(self)@.holds(key@))
                ==> final(self)@.one_place(),
            answer is Err ==> (old(self)@.one_place() ==> final(self)@.one_place()),
    {
        let now = utc_now();
        self.create_session_at(reply, now.unix_seconds)
    }

    /// One turn of a caller that waits for a session key: a key that the
    /// pool lends is ready, a session that may be created is to be created,
    /// and a refusal is decided by `retry_or_fail`.
    pub fn get_session_key_concurrent(&mut self) -> (step: KeyStep)
        requires
            old(self).wf(),
            old(self)@.idle.len() > 0 ==> old(self)@.num_requests < u16::MAX,
        ensures
            final(self).wf(),
            final(self).same_account(old(self)),
            old(self)@.one_place() ==> final(self)@.one_place(),
            old(self)@.idle.len() > 0 ==> final(self)@ == old(self)@.lend() && (
            step matches KeyStep::Ready(key) && key@ == old(self)@.idle[0].key && has_key(
                final(self)@.active,
                key@,
            )),
            old(self)@.idle.len() == 0 ==> final(self)@ == old(self)@ && match old(self)@.refusal() {
                None => step is Create,
                Some(message) => if message == no_sessions_available() {
                    step matches KeyStep::Wait { seconds, nanoseconds } && seconds == 1
                        && nanoseconds < 5
                } else {
                    step matches KeyStep::Failed(m) && m@ == message
                },
            },
    {
        match self.get_session_key() {
            SessionGrant::Lent(key) => KeyStep::Ready(key),
            SessionGrant::Create => KeyStep::Create,
            SessionGrant::Refused(message) => retry_or_fail(message),
        }
    }

    /// Empties the pool into the text of a sessions file: one line for each
    /// session, the active ones first, the one lent last before the others,
    /// then the idle ones, the one that has waited longest first.
    pub fn store(&mut self) -> (contents: String)
        requires
            old(self).wf(),
        ensures
            contents@ == records(old(self)@.active.reverse() + old(self)@.idle),
            final(self)@ == old(self)@.drained(),
            final(self)@ == old(self)@.apply(PoolOp::Store),
            final(self).wf(),
            final(self).same_account(old(self)),
            final(self)@.one_place(),
    {
        let ghost active = self@.active;
        let ghost idle = self@.idle;
        let ghost backwards = active.reverse();
        let mut contents = String::new();
        while self.active_sessions.len() > 0
            invariant
                active == old(self)@.active,
                idle == old(self)@.idle,
                backwards == active.reverse(),
                self@.idle == idle,
                self@.active == active.take(self@.active.len() as int),
                self@.active.len() <= active.len(),
                self@.sessions_created == old(self)@.sessions_created,
                self@.valid_session_count == old(self)@.valid_session_count,
                self@.num_requests == old(self)@.num_requests,
                self.same_account(old(self)),
                contents@ == records(backwards.take(active.len() - self@.active.len())),
            decreases self.active_sessions@.len(),
        {
            let ghost done = active.len() - self@.active.len();
            let ghost before = self@.active;
            match self.active_sessions.pop() {
                Some(session) => {
                    proof {
                        assert(session@ == before.last());
                        assert(session@ == backwards[done]);
                        assert(backwards.take(done + 1).drop_last() =~= backwards.take(done));
                        assert(self@.active =~= active.take(self@.active.len() as int));
                    }
                    contents.append(session.session_key.as_str());
                    contents.append(" ");
                    push_decimal(&mut contents, session.creation_timestamp);
                    contents.append("\n");
                    assert(contents@ =~= records(backwards.take(done)) + record(session@));
                },
                None => {},
            }
        }
        assert(backwards.take(active.len() as int) =~= backwards);
        while self.idle_sessions.len() > 0
            invariant
                idle == old(self)@.idle,
                backwards == old(self)@.active.reverse(),
                self@.active.len() == 0,
                self@.idle.len() <= idle.len(),
                self@.idle == idle.skip(idle.len() - self@.idle.len()),
                self@.sessions_created == old(self)@.sessions_created,
                self@.valid_session_count == old(self)@.valid_session_count,
                self@.num_requests == old(self)@.num_requests,
                self.same_account(old(self)),
                contents@ == records(backwards + idle.take(idle.len() - self@.idle.len())),
            decreases self.idle_sessions@.len(),
        {
            let ghost done = idle.len() - self@.idle.len();
            let ghost before = self@.idle;
            match self.idle_sessions.pop_front() {
                Some(session) => {
                    proof {
                        assert(session@ == before[0]);
                        assert(session@ == idle[done]);
                        assert((backwards + idle.take(done + 1)).drop_last() =~= backwards
                            + idle.take(done));
                        assert(self@.idle =~= before.subrange(1, before.len() as int));
                        assert(self@.idle =~= idle.skip(idle.len() - self@.idle.len()));
                    }
                    contents.append(session.session_key.as_str());
                    contents.append(" ");
                    push_decimal(&mut contents, session.creation_timestamp);
                    contents.append("\n");
                    assert(contents@ =~= records(backwards + idle.take(done)) + record(session@));
                },
                None => {},
            }
        }
        proof {
            assert(idle.take(idle.len() as int) =~= idle);
            assert(self@.idle =~= Seq::empty());
            assert(self@.active =~= Seq::empty());
            assert(self@.idle + self@.active =~= Seq::empty());
        }
        contents
    }

    /// Reads the text of a sessions file. Lines without a space keep no
    /// session and are passed over. A line that keeps a session whose second
    /// of creation is no decimal number makes the whole file unreadable.
    pub fn load(contents: &str) -> (sessions: Option<VecDeque<Session>>)
        ensures
            match sessions {
                Some(loaded) => spec_load(contents@) == Some(session_views(loaded@)),
                None => spec_load(contents@) is None,
            },
    {
        let chars = chars_of(contents);
        assert(chars@.subrange(0, chars@.len() as int) =~= contents@);
        let line_bounds = split_chars(&chars, 0, chars.len(), '\n');
        let ghost lines = split(contents@, '\n');
        let mut sessions: VecDeque<Session> = VecDeque::new();
        let mut i: usize = 0;
        assert(session_views(sessions@) =~= sessions_in(lines.take(0)));
        while i < line_bounds.len()
            invariant
                i <= line_bounds@.len(),
                chars@ == contents@,
                lines == split(contents@, '\n'),
                line_bounds@.len() == lines.len(),
                forall|k: int|
                    0 <= k < line_bounds@.len() ==> (#[trigger] line_bounds@[k]).0
                        <= line_bounds@[k].1 <= chars@.len() && chars@.subrange(
                        line_bounds@[k].0 as int,
                        line_bounds@[k].1 as int,
                    ) == lines[k],
                forall|k: int| 0 <= k < i ==> is_readable(#[trigger] lines[k]),
                session_views(sessions@) == sessions_in(lines.take(i as int)),
            decreases line_bounds@.len() - i,
        {
            let (from, to) = line_bounds[i];
            let ghost line = lines[i as int];
            assert(line == chars@.subrange(from as int, to as int));
            let tokens = split_chars(&chars, from, to, ' ');
            proof {
                assert(lines.take(i + 1).drop_last() =~= lines.take(i as int));
                assert(lines.take(i + 1).last() == line);
            }
            if tokens.len() > 1 {
                let key = string_of(&chars, tokens[0].0, tokens[0].1);
                match parse_i64(&chars, tokens[1].0, tokens[1].1) {
                    Some(created) => {
                        let session = Session { session_key: key, creation_timestamp: created };
                        assert(session@ == session_of(line));
                        let ghost before = sessions@;
                        sessions.push_back(session);
                        assert(session_views(sessions@) =~= session_views(before).push(session@));
                    },
                    None => {
                        assert(!is_readable(lines[i as int]));
                        return None;
                    },
                }
            }
            i = i + 1;
        }
        assert(lines.take(i as int) =~= lines);
        Some(sessions)
    }
}

} // verus!
