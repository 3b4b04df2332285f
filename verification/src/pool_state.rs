//! The session pool as a mathematical state, the transitions that the pool's
//! operations perform on it, and what every transition preserves.

use crate::hi_rez_constants::LimitConstants;
use vstd::prelude::*;

verus! {

/// A session as the pool sees it: the key that the provider issued and the
/// second at which it was issued.
pub struct SessionView {
    pub key: Seq<char>,
    pub created: int,
}

/// The seconds of a day.
pub const SECONDS_IN_A_DAY: i64 = 86400;

/// Sessions created less than a day before `now` count against the day's
/// allowance.
pub open spec fn counts_today(session: SessionView, now: int) -> bool {
    now - session.created < SECONDS_IN_A_DAY
}

/// How many of `sessions` count against the allowance of the day of `now`.
pub open spec fn created_today(sessions: Seq<SessionView>, now: int) -> nat
    decreases sessions.len(),
{
    if sessions.len() == 0 {
        0
    } else {
        created_today(sessions.drop_last(), now) + if counts_today(sessions.last(), now) {
            1nat
        } else {
            0nat
        }
    }
}

/// No more sessions count against the day's allowance than there are.
pub proof fn lemma_created_today_bound(sessions: Seq<SessionView>, now: int)
    ensures
        created_today(sessions, now) <= sessions.len(),
    decreases sessions.len(),
{
    if sessions.len() > 0 {
        lemma_created_today_bound(sessions.drop_last(), now);
    }
}

/// No two sessions of `sessions` have the same key.
pub open spec fn distinct_keys(sessions: Seq<SessionView>) -> bool {
    forall|i: int, j: int|
        0 <= i < j < sessions.len() ==> (#[trigger] sessions[i]).key != (#[trigger] sessions[j]).key
}

/// Whether some session of `sessions` has the key `key`.
pub open spec fn has_key(sessions: Seq<SessionView>, key: Seq<char>) -> bool {
    exists|i: int| 0 <= i < sessions.len() && (#[trigger] sessions[i]).key == key
}

/// The place of the first session with the key `key`, or the length of
/// `sessions` if none has it.
pub open spec fn position_of(sessions: Seq<SessionView>, key: Seq<char>) -> int
    decreases sessions.len(),
{
    if sessions.len() == 0 {
        0
    } else if sessions[0].key == key {
        0
    } else {
        1 + position_of(sessions.skip(1), key)
    }
}

/// The place that `position_of` names is the first with the key, and it
/// lies within `sessions` exactly if some session has the key.
pub proof fn lemma_position_of(sessions: Seq<SessionView>, key: Seq<char>)
    ensures
        0 <= position_of(sessions, key) <= sessions.len(),
        forall|i: int| 0 <= i < position_of(sessions, key) ==> (#[trigger] sessions[i]).key != key,
        position_of(sessions, key) < sessions.len() ==> sessions[position_of(sessions, key)].key
            == key,
        has_key(sessions, key) <==> position_of(sessions, key) < sessions.len(),
    decreases sessions.len(),
{
    if sessions.len() > 0 && sessions[0].key != key {
        let rest = sessions.skip(1);
        lemma_position_of(rest, key);
        assert forall|i: int| 0 <= i < position_of(sessions, key) implies (
        #[trigger] sessions[i]).key != key by {
            if i > 0 {
                assert(sessions[i] == rest[i - 1]);
            }
        }
        if has_key(sessions, key) {
            let i = choose|i: int| 0 <= i < sessions.len() && (#[trigger] sessions[i]).key == key;
            assert(rest[i - 1].key == key);
        }
        if position_of(rest, key) < rest.len() {
            assert(sessions[position_of(rest, key) + 1] == rest[position_of(rest, key)]);
        }
    }
}

/// The place found by a search from the front is the one `position_of` names.
pub proof fn lemma_position_found(sessions: Seq<SessionView>, key: Seq<char>, at: int)
    requires
        0 <= at <= sessions.len(),
        forall|i: int| 0 <= i < at ==> (#[trigger] sessions[i]).key != key,
        at < sessions.len() ==> sessions[at].key == key,
    ensures
        position_of(sessions, key) == at,
{
    lemma_position_of(sessions, key);
    let p = position_of(sessions, key);
    if p < at {
        assert(sessions[p].key == key);
    }
}

/// The message with which the pool refuses when the day's sessions are used up.
pub open spec fn sessions_exhausted() -> Seq<char> {
    "Maximum number of sessions per day reached"@
}

/// The message with which the pool refuses when the day's requests are used up.
pub open spec fn requests_exhausted() -> Seq<char> {
    "Maximum number of requests per day reached"@
}

/// The message with which the pool refuses for the moment: every session that
/// may exist at one time is lent out.
pub open spec fn no_sessions_available() -> Seq<char> {
    "No sessions available"@
}

/// The state of the session pool.
pub struct PoolState {
    /// The sessions that wait to be lent again, the one that has waited
    /// longest first.
    pub idle: Seq<SessionView>,
    /// The sessions that are lent out.
    pub active: Seq<SessionView>,
    /// The sessions created on this day.
    pub sessions_created: nat,
    /// The sessions believed to be within their lifetime.
    pub valid_session_count: nat,
    /// The keys lent so far.
    pub num_requests: nat,
}

impl PoolState {
    /// A pool without sessions that has lent nothing.
    pub open spec fn empty() -> PoolState {
        PoolState {
            idle: Seq::empty(),
            active: Seq::empty(),
            sessions_created: 0,
            valid_session_count: 0,
            num_requests: 0,
        }
    }

    /// A pool that starts with the sessions left by an earlier run.
    pub open spec fn restored(sessions: Seq<SessionView>, now: int) -> PoolState {
        PoolState {
            idle: sessions,
            active: Seq::empty(),
            sessions_created: created_today(sessions, now),
            valid_session_count: sessions.len(),
            num_requests: 0,
        }
    }

    /// The quotas hold and every session in the pool is counted as valid.
    pub open spec fn wf(self) -> bool {
        &&& self.sessions_created <= LimitConstants::SessionsPerDay.spec_val()
        &&& self.valid_session_count <= LimitConstants::ConcurrentSessions.spec_val()
        &&& self.idle.len() + self.active.len() <= self.valid_session_count
    }

    /// Every key is held once, so none is both idle and active.
    pub open spec fn one_place(self) -> bool {
        distinct_keys(self.idle + self.active)
    }

    /// Whether a session with this key is in the pool, idle or active.
    pub open spec fn holds(self, key: Seq<char>) -> bool {
        has_key(self.idle, key) || has_key(self.active, key)
    }

    /// The quota that forbids a new session, if one does. The day's sessions
    /// are looked at first, then the day's requests, then the sessions that
    /// may exist at one time.
    pub open spec fn refusal(self) -> Option<Seq<char>> {
        if self.sessions_created >= LimitConstants::SessionsPerDay.spec_val() {
            Some(sessions_exhausted())
        } else if self.num_requests >= LimitConstants::RequestsPerDay.spec_val() {
            Some(requests_exhausted())
        } else if self.valid_session_count >= LimitConstants::ConcurrentSessions.spec_val() {
            Some(no_sessions_available())
        } else {
            None
        }
    }

    /// The session that has been idle longest is lent.
    pub open spec fn lend(self) -> PoolState
        recommends
            self.idle.len() > 0,
    {
        PoolState {
            idle: self.idle.skip(1),
            active: self.active.push(self.idle[0]),
            num_requests: self.num_requests + 1,
            ..self
        }
    }

    /// A session that was just created is lent.
    pub open spec fn enroll(self, session: SessionView) -> PoolState {
        PoolState {
            active: self.active.push(session),
            sessions_created: self.sessions_created + 1,
            valid_session_count: self.valid_session_count + 1,
            num_requests: self.num_requests + 1,
            ..self
        }
    }

    /// The active session with the key `key` comes back and waits behind the
    /// idle ones.
    pub open spec fn replace(self, key: Seq<char>) -> PoolState
        recommends
            has_key(self.active, key),
    {
        let at = position_of(self.active, key);
        PoolState { idle: self.idle.push(self.active[at]), active: self.active.remove(at), ..self }
    }

    /// The active session with the key `key`, which the provider no longer
    /// accepts, leaves the pool. The day's count of created sessions stays.
    pub open spec fn evict(self, key: Seq<char>) -> PoolState
        recommends
            has_key(self.active, key),
    {
        let at = position_of(self.active, key);
        PoolState {
            active: self.active.remove(at),
            valid_session_count: (self.valid_session_count - 1) as nat,
            ..self
        }
    }

    /// What becomes of an attempt to create a session, `made` being what the
    /// provider's reply yielded: a quota that forbids a new session refuses
    /// whatever the reply was, a failed attempt leaves the pool as it is, and
    /// a new session is lent at once. The answer is the key that is lent or
    /// the message of the failure.
    pub open spec fn create(self, made: Result<SessionView, Seq<char>>) -> (
        PoolState,
        Result<Seq<char>, Seq<char>>,
    ) {
        match self.refusal() {
            Some(message) => (self, Err(message)),
            None => match made {
                Ok(session) => (self.enroll(session), Ok(session.key)),
                Err(message) => (self, Err(message)),
            },
        }
    }

    /// All sessions leave the pool, as when they are written out.
    pub open spec fn drained(self) -> PoolState {
        PoolState { idle: Seq::empty(), active: Seq::empty(), ..self }
    }
}

/// In a pool where every key is held once, no idle session has the key of an
/// active one.
pub proof fn lemma_idle_and_active_disjoint(pool: PoolState)
    requires
        pool.one_place(),
    ensures
        forall|i: int, j: int|
            0 <= i < pool.idle.len() && 0 <= j < pool.active.len() ==> (#[trigger] pool.idle[i]).key
                != (#[trigger] pool.active[j]).key,
        forall|key: Seq<char>| !(has_key(pool.idle, key) && has_key(pool.active, key)),
{
    let all = pool.idle + pool.active;
    assert forall|i: int, j: int|
        0 <= i < pool.idle.len() && 0 <= j < pool.active.len() implies (#[trigger] pool.idle[i]).key
        != (#[trigger] pool.active[j]).key by {
        assert(all[i] == pool.idle[i]);
        assert(all[pool.idle.len() + j] == pool.active[j]);
    }
}

/// The quotas on sessions hold in every well-formed pool: no more sessions
/// were created on this day than a day allows, and no more count as valid
/// than may exist at one time.
pub proof fn lemma_quotas_hold(pool: PoolState)
    requires
        pool.wf(),
    ensures
        pool.sessions_created <= 500,
        pool.valid_session_count <= 45,
        pool.idle.len() + pool.active.len() <= 45,
{
}

/// A pool without sessions is well formed, and so is one restored from at
/// most as many sessions as may exist at one time.
pub proof fn lemma_initial_pools(sessions: Seq<SessionView>, now: int)
    requires
        sessions.len() <= LimitConstants::ConcurrentSessions.spec_val(),
    ensures
        PoolState::empty().wf(),
        PoolState::empty().one_place(),
        PoolState::restored(sessions, now).wf(),
        PoolState::restored(sessions, now).one_place() <==> distinct_keys(sessions),
{
    lemma_created_today_bound(sessions, now);
    assert(sessions + Seq::<SessionView>::empty() =~= sessions);
}

/// Lending an idle session keeps the pool well formed and every key in one
/// place.
pub proof fn lemma_lend(pool: PoolState)
    requires
        pool.wf(),
        pool.idle.len() > 0,
    ensures
        pool.lend().wf(),
        pool.one_place() ==> pool.lend().one_place(),
        has_key(pool.lend().active, pool.idle[0].key),
        forall|key: Seq<char>| pool.holds(key) <==> pool.lend().holds(key),
{
    let next = pool.lend();
    let all = pool.idle + pool.active;
    let all_next = next.idle + next.active;
    let n = all.len() as int;
    assert(next.active[next.active.len() - 1].key == pool.idle[0].key);
    if pool.one_place() {
        assert forall|i: int, j: int| 0 <= i < j < all_next.len() implies (
        #[trigger] all_next[i]).key != (#[trigger] all_next[j]).key by {
            assert(all_next[i] == all[i + 1]);
            if j < n - 1 {
                assert(all_next[j] == all[j + 1]);
            } else {
                assert(all_next[j] == all[0]);
            }
        }
    }
    assert forall|key: Seq<char>| pool.holds(key) <==> next.holds(key) by {
        if has_key(pool.idle, key) {
            let i = choose|i: int| 0 <= i < pool.idle.len() && (#[trigger] pool.idle[i]).key == key;
            if i == 0 {
                assert(next.active[next.active.len() - 1].key == key);
            } else {
                assert(next.idle[i - 1].key == key);
            }
        }
        if has_key(pool.active, key) {
            let i = choose|i: int|
                0 <= i < pool.active.len() && (#[trigger] pool.active[i]).key == key;
            assert(next.active[i].key == key);
        }
        if has_key(next.idle, key) {
            let i = choose|i: int| 0 <= i < next.idle.len() && (#[trigger] next.idle[i]).key == key;
            assert(pool.idle[i + 1].key == key);
        }
        if has_key(next.active, key) {
            let i = choose|i: int|
                0 <= i < next.active.len() && (#[trigger] next.active[i]).key == key;
            if i < pool.active.len() {
                assert(pool.active[i].key == key);
            } else {
                assert(pool.idle[0].key == key);
            }
        }
    }
}

/// Lending a new session keeps the pool well formed while no quota forbids
/// it, and keeps every key in one place if the key is new to the pool.
pub proof fn lemma_enroll(pool: PoolState, session: SessionView)
    requires
        pool.wf(),
        pool.refusal() is None,
    ensures
        pool.enroll(session).wf(),
        pool.one_place() && !pool.holds(session.key) ==> pool.enroll(session).one_place(),
        has_key(pool.enroll(session).active, session.key),
{
    let next = pool.enroll(session);
    let all = pool.idle + pool.active;
    let all_next = next.idle + next.active;
    assert(next.active[next.active.len() - 1].key == session.key);
    if pool.one_place() && !pool.holds(session.key) {
        assert forall|i: int, j: int| 0 <= i < j < all_next.len() implies (
        #[trigger] all_next[i]).key != (#[trigger] all_next[j]).key by {
            assert(all_next[i] == all[i]);
            if j < all.len() {
                assert(all_next[j] == all[j]);
            } else {
                assert(all_next[j] == session);
                if i < pool.idle.len() {
                    assert(pool.idle[i].key != session.key);
                } else {
                    assert(pool.active[i - pool.idle.len()].key != session.key);
                }
            }
        }
    }
}

/// An attempt to create a session keeps the pool well formed, whatever the
/// provider replied, and keeps every key in one place unless the provider
/// issued a key that the pool holds already.
pub proof fn lemma_create(pool: PoolState, made: Result<SessionView, Seq<char>>)
    requires
        pool.wf(),
    ensures
        pool.create(made).0.wf(),
        pool.create(made).1 is Err ==> pool.create(made).0 == pool,
        pool.create(made).1 is Ok ==> made is Ok && pool.create(made).0 == pool.enroll(
            made->Ok_0,
        ) && pool.create(made).1 == Ok::<Seq<char>, Seq<char>>(made->Ok_0.key),
        pool.one_place() && !(made matches Ok(session) && pool.holds(session.key))
            ==> pool.create(made).0.one_place(),
{
    if pool.refusal() is None {
        if let Ok(session) = made {
            lemma_enroll(pool, session);
        }
    }
}

/// A session that comes back is idle afterwards, behind the others, and no
/// longer active; the pool stays well formed and every key in one place.
pub proof fn lemma_replace(pool: PoolState, key: Seq<char>)
    requires
        pool.wf(),
        has_key(pool.active, key),
    ensures
        pool.replace(key).wf(),
        pool.one_place() ==> pool.replace(key).one_place(),
        pool.replace(key).idle.len() == pool.idle.len() + 1,
        pool.replace(key).idle.last().key == key,
        pool.replace(key).active.len() == pool.active.len() - 1,
        pool.one_place() ==> !has_key(pool.replace(key).active, key),
{
    lemma_position_of(pool.active, key);
    let at = position_of(pool.active, key);
    let next = pool.replace(key);
    let all = pool.idle + pool.active;
    let all_next = next.idle + next.active;
    let m = pool.idle.len() as int;
    if pool.one_place() {
        assert forall|i: int, j: int| 0 <= i < j < all_next.len() implies (
        #[trigger] all_next[i]).key != (#[trigger] all_next[j]).key by {
            let from_i = if i < m {
                i
            } else if i == m {
                m + at
            } else if i - m - 1 < at {
                i - 1
            } else {
                i
            };
            let from_j = if j < m {
                j
            } else if j == m {
                m + at
            } else if j - m - 1 < at {
                j - 1
            } else {
                j
            };
            assert(all_next[i] == all[from_i]);
            assert(all_next[j] == all[from_j]);
            assert(from_i != from_j);
        }
        if has_key(next.active, key) {
            let i = choose|i: int|
                0 <= i < next.active.len() && (#[trigger] next.active[i]).key == key;
            let from = if i < at {
                i
            } else {
                i + 1
            };
            assert(next.active[i] == all[m + from]);
            assert(pool.active[at] == all[m + at]);
            assert(false);
        }
    }
}

/// A session that is evicted is nowhere in the pool afterwards and one
/// session fewer counts as valid; the day's count of created sessions stays,
/// the pool stays well formed and every key in one place.
pub proof fn lemma_evict(pool: PoolState, key: Seq<char>)
    requires
        pool.wf(),
        has_key(pool.active, key),
    ensures
        pool.evict(key).wf(),
        pool.one_place() ==> pool.evict(key).one_place(),
        pool.evict(key).valid_session_count == pool.valid_session_count - 1,
        pool.evict(key).sessions_created == pool.sessions_created,
        pool.evict(key).active.len() == pool.active.len() - 1,
        pool.one_place() ==> !pool.evict(key).holds(key),
{
    lemma_position_of(pool.active, key);
    let at = position_of(pool.active, key);
    let next = pool.evict(key);
    let all = pool.idle + pool.active;
    let all_next = next.idle + next.active;
    let m = pool.idle.len() as int;
    if pool.one_place() {
        assert forall|i: int, j: int| 0 <= i < j < all_next.len() implies (
        #[trigger] all_next[i]).key != (#[trigger] all_next[j]).key by {
            let from_i = if i < m + at {
                i
            } else {
                i + 1
            };
            let from_j = if j < m + at {
                j
            } else {
                j + 1
            };
            assert(all_next[i] == all[from_i]);
            assert(all_next[j] == all[from_j]);
        }
        assert(pool.active[at] == all[m + at]);
        if has_key(next.active, key) {
            let i = choose|i: int|
                0 <= i < next.active.len() && (#[trigger] next.active[i]).key == key;
            let from = if i < at {
                i
            } else {
                i + 1
            };
            assert(next.active[i] == all[m + from]);
            assert(false);
        }
        if has_key(next.idle, key) {
            let i = choose|i: int| 0 <= i < next.idle.len() && (#[trigger] next.idle[i]).key == key;
            assert(next.idle[i] == all[i]);
            assert(false);
        }
    }
}

/// What is done with a pool in the course of its life.
pub enum PoolOp {
    /// A session key is asked for: an idle session is lent if there is one.
    GetSessionKey,
    /// The provider's reply to a request for a new session is taken, with
    /// what the reply yielded.
    CreateSession(Result<SessionView, Seq<char>>),
    /// The session with this key comes back.
    ReplaceSession(Seq<char>),
    /// The session with this key is dropped.
    RemoveInvalidSession(Seq<char>),
    /// The sessions are written out.
    Store,
}

impl PoolState {
    /// Whether `op` may be done: only a session that is lent out comes back
    /// or is dropped.
    pub open spec fn allows(self, op: PoolOp) -> bool {
        match op {
            PoolOp::ReplaceSession(key) => has_key(self.active, key),
            PoolOp::RemoveInvalidSession(key) => has_key(self.active, key),
            _ => true,
        }
    }

    /// Whether `op` brings no key into the pool that the pool holds already.
    /// Only a provider that issues a key twice does so.
    pub open spec fn brings_no_known_key(self, op: PoolOp) -> bool {
        match op {
            PoolOp::CreateSession(Ok(session)) => !self.holds(session.key),
            _ => true,
        }
    }

    /// The pool after `op`.
    pub open spec fn apply(self, op: PoolOp) -> PoolState {
        match op {
            PoolOp::GetSessionKey => if self.idle.len() > 0 {
                self.lend()
            } else {
                self
            },
            PoolOp::CreateSession(made) => self.create(made).0,
            PoolOp::ReplaceSession(key) => self.replace(key),
            PoolOp::RemoveInvalidSession(key) => self.evict(key),
            PoolOp::Store => self.drained(),
        }
    }

    /// The pool after `ops`, done one after the other.
    pub open spec fn after(self, ops: Seq<PoolOp>) -> PoolState
        decreases ops.len(),
    {
        if ops.len() == 0 {
            self
        } else {
            self.after(ops.drop_last()).apply(ops.last())
        }
    }

    /// Whether each of `ops` may be done when its turn comes.
    pub open spec fn allows_all(self, ops: Seq<PoolOp>) -> bool
        decreases ops.len(),
    {
        ops.len() > 0 ==> self.allows_all(ops.drop_last()) && self.after(ops.drop_last()).allows(
            ops.last(),
        )
    }

    /// Whether none of `ops` brings a key into the pool that the pool holds
    /// when its turn comes.
    pub open spec fn brings_no_known_keys(self, ops: Seq<PoolOp>) -> bool
        decreases ops.len(),
    {
        ops.len() > 0 ==> self.brings_no_known_keys(ops.drop_last()) && self.after(
            ops.drop_last(),
        ).brings_no_known_key(ops.last())
    }
}

/// One operation keeps the pool well formed, takes nothing back from the
/// counts of created sessions and of requests, and keeps every key in one
/// place unless it brings a key that the pool holds already.
pub proof fn lemma_apply(pool: PoolState, op: PoolOp)
    requires
        pool.wf(),
        pool.allows(op),
    ensures
        pool.apply(op).wf(),
        pool.apply(op).sessions_created >= pool.sessions_created,
        pool.apply(op).num_requests >= pool.num_requests,
        pool.one_place() && pool.brings_no_known_key(op) ==> pool.apply(op).one_place(),
{
    match op {
        PoolOp::GetSessionKey => {
            if pool.idle.len() > 0 {
                lemma_lend(pool);
            }
        },
        PoolOp::CreateSession(made) => {
            lemma_create(pool, made);
        },
        PoolOp::ReplaceSession(key) => {
            lemma_replace(pool, key);
        },
        PoolOp::RemoveInvalidSession(key) => {
            lemma_evict(pool, key);
        },
        PoolOp::Store => {
            assert(pool.drained().idle + pool.drained().active =~= Seq::empty());
        },
    }
}

/// In every state that a well-formed pool comes to, whatever is done with
/// it and in whatever order, the quotas hold: no more sessions were created
/// on this day than a day allows, and no more count as valid than may exist
/// at one time. The counts of created sessions and of requests never go
/// down. And every key is in one place, so that none is both idle and
/// active, as long as the provider issues no key that the pool holds.
pub proof fn lemma_every_state(pool: PoolState, ops: Seq<PoolOp>)
    requires
        pool.wf(),
        pool.allows_all(ops),
    ensures
        pool.after(ops).wf(),
        pool.after(ops).sessions_created <= LimitConstants::SessionsPerDay.spec_val(),
        pool.after(ops).valid_session_count <= LimitConstants::ConcurrentSessions.spec_val(),
        pool.after(ops).sessions_created >= pool.sessions_created,
        pool.after(ops).num_requests >= pool.num_requests,
        pool.one_place() && pool.brings_no_known_keys(ops) ==> pool.after(ops).one_place(),
        pool.one_place() && pool.brings_no_known_keys(ops) ==> forall|key: Seq<char>|
            !(has_key(pool.after(ops).idle, key) && has_key(pool.after(ops).active, key)),
    decreases ops.len(),
{
    if ops.len() > 0 {
        lemma_every_state(pool, ops.drop_last());
        lemma_apply(pool.after(ops.drop_last()), ops.last());
    }
    if pool.after(ops).one_place() {
        lemma_idle_and_active_disjoint(pool.after(ops));
    }
}

} // verus!
