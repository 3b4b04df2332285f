//! The requests that the library plans and the replies it reads: the
//! arguments of the calls, the ids and records that come back, and what a
//! worker of the concurrent driver does with a session and a response.

use crate::batch::plan_waves;
use crate::clock::UtcNow;
use crate::hi_rez_constants::{DataConstants, ReturnDataType, UrlConstants};
use crate::models::GetMatchIdsByQueueReply;
use crate::pool_state::{has_key, lemma_evict, lemma_replace, PoolState};
use crate::session_manager::{
    retry_or_fail, spec_session_from_reply, KeyStep, SessionManager, SessionReply,
};
use crate::text::{
    contains, decimal, decimal_nat, has_substring, push_decimal, push_decimal_nat,
    push_two_digits, texts, two_digits,
};
use crate::url_builder::{spec_url, timestamp_text, url};
use vstd::prelude::*;

verus! {

/// A day of the calendar, as the API is asked for it.
#[derive(Debug, Clone, Copy)]
pub struct CalendarDate {
    pub year: i32,
    pub month: u32,
    pub day: u32,
}

/// A request for the ids of the matches played in a queue on a day, either
/// during the whole day (hour `-1`, no minute) or during the ten minutes
/// that begin at `hour` and `minute`.
#[derive(Debug, Clone)]
pub struct GetMatchIdsByQueueRequest {
    pub queue_id: DataConstants,
    pub date: CalendarDate,
    pub hour: String,
    pub minute: String,
}

/// An hour of the day as the API takes it: `0` to `23`, without a zero in
/// front.
pub open spec fn is_hour_of_day(hour: Seq<char>) -> bool {
    exists|h: nat| h <= 23 && hour == #[trigger] decimal_nat(h)
}

/// The hours that the API takes: `-1` for the whole day, or an hour of the
/// day.
pub open spec fn is_valid_hour(hour: Seq<char>) -> bool {
    hour == "-1"@ || is_hour_of_day(hour)
}

/// The beginning of ten minutes of an hour: `00`, `10`, `20`, `30`, `40` or
/// `50`.
pub open spec fn is_ten_minutes(minute: Seq<char>) -> bool {
    exists|m: nat| m <= 5 && minute == #[trigger] two_digits(m * 10)
}

/// The minutes that the API takes: none, or the beginning of ten minutes.
pub open spec fn is_valid_minute(minute: Seq<char>) -> bool {
    minute.len() == 0 || is_ten_minutes(minute)
}

/// The time of day in a request's arguments, or the message that refuses
/// the hour and minute. The whole day is written `-1`; ten minutes are
/// written as hour, comma, minute. The hour is looked at first, then the
/// minute, then whether the two go together: the whole day takes no minute,
/// and an hour of the day needs one.
pub open spec fn spec_time_window(hour: Seq<char>, minute: Seq<char>) -> Result<
    Seq<char>,
    Seq<char>,
> {
    if !is_valid_hour(hour) {
        Err("Invalid hour specified"@)
    } else if !is_valid_minute(minute) {
        Err("Invalid minute specified"@)
    } else if hour == "-1"@ && minute.len() == 0 {
        Ok("-1"@)
    } else if hour == "-1"@ || minute.len() == 0 {
        Err("Invalid combination of hour and minute"@)
    } else {
        Ok(hour + ","@ + minute)
    }
}

/// A day as the API writes it: the year as it is, month and day filled
/// with zeros to two digits.
pub open spec fn spec_format_date(date: CalendarDate) -> Seq<char> {
    decimal(date.year as int) + two_digits(date.month as nat) + two_digits(date.day as nat)
}

/// The arguments of the call that a request stands for, or the message that
/// refuses it: slash, queue, slash, day, slash, time of day.
pub open spec fn spec_request_suffix(request: GetMatchIdsByQueueRequest) -> Result<
    Seq<char>,
    Seq<char>,
> {
    match spec_time_window(request.hour@, request.minute@) {
        Ok(window) => Ok(
            "/"@ + request.queue_id.spec_val() + "/"@ + spec_format_date(request.date) + "/"@
                + window,
        ),
        Err(message) => Err(message),
    }
}

/// Whether `text` says in text what `expected` says in characters.
pub open spec fn says(text: Result<String, String>, expected: Result<Seq<char>, Seq<char>>) -> bool {
    match text {
        Ok(t) => expected == Ok::<Seq<char>, Seq<char>>(t@),
        Err(message) => expected == Err::<Seq<char>, Seq<char>>(message@),
    }
}

fn is_hour(hour: &String) -> (valid: bool)
    ensures
        valid == is_hour_of_day(hour@),
{
    let mut h: u64 = 0;
    while h <= 23
        invariant
            h <= 24,
            forall|k: nat| k < h ==> hour@ != #[trigger] decimal_nat(k),
        decreases 24 - h,
    {
        let mut written = String::new();
        push_decimal_nat(&mut written, h);
        assert(written@ =~= decimal_nat(h as nat));
        if written == *hour {
            return true;
        }
        h = h + 1;
    }
    false
}

fn is_minute(minute: &String) -> (valid: bool)
    ensures
        valid == is_ten_minutes(minute@),
{
    let mut m: u32 = 0;
    while m <= 5
        invariant
            m <= 6,
            forall|k: nat| k < m ==> minute@ != #[trigger] two_digits(k * 10),
        decreases 6 - m,
    {
        let mut written = String::new();
        push_two_digits(&mut written, m * 10);
        assert(written@ =~= two_digits((m as nat) * 10));
        if written == *minute {
            return true;
        }
        m = m + 1;
    }
    false
}

/// Writes the time of day of a request, or refuses its hour and minute.
pub fn time_window(hour: &String, minute: &String) -> (window: Result<String, String>)
    ensures
        says(window, spec_time_window(hour@, minute@)),
{
    let whole_day = *hour == "-1".to_owned();
    let no_minute = *minute == String::new();
    assert(no_minute == (minute@.len() == 0)) by {
        if minute@.len() == 0 {
            assert(minute@ =~= Seq::<char>::empty());
        }
    }
    if !whole_day && !is_hour(hour) {
        Err("Invalid hour specified".to_owned())
    } else if !no_minute && !is_minute(minute) {
        Err("Invalid minute specified".to_owned())
    } else if whole_day && no_minute {
        Ok("-1".to_owned())
    } else if whole_day || no_minute {
        Err("Invalid combination of hour and minute".to_owned())
    } else {
        let mut window: String = hour.clone();
        window.append(",");
        window.append(minute.as_str());
        Ok(window)
    }
}

/// Writes a day as the API takes it.
pub fn format_date(date: CalendarDate) -> (text: String)
    ensures
        text@ == spec_format_date(date),
{
    let mut text = String::new();
    push_decimal(&mut text, date.year as i64);
    push_two_digits(&mut text, date.month);
    push_two_digits(&mut text, date.day);
    assert(text@ =~= spec_format_date(date));
    text
}

/// Writes the arguments of the call that a request stands for, or refuses
/// its hour and minute.
pub fn request_suffix(request: &GetMatchIdsByQueueRequest) -> (suffix: Result<String, String>)
    ensures
        says(suffix, spec_request_suffix(*request)),
{
    match time_window(&request.hour, &request.minute) {
        Ok(window) => {
            let mut suffix: String = "/".to_owned();
            suffix.append(request.queue_id.val().as_str());
            suffix.append("/");
            suffix.append(format_date(request.date).as_str());
            suffix.append("/");
            suffix.append(window.as_str());
            Ok(suffix)
        },
        Err(message) => Err(message),
    }
}

/// Writes the arguments of the calls that the requests stand for, in their
/// order. The first request whose hour and minute are refused refuses all,
/// with its message.
pub fn match_ids_suffixes(requests: &Vec<GetMatchIdsByQueueRequest>) -> (suffixes: Result<
    Vec<String>,
    String,
>)
    ensures
        match suffixes {
            Ok(written) => written@.len() == requests@.len() && forall|i: int|
                0 <= i < requests@.len() ==> spec_request_suffix(#[trigger] requests@[i]) == Ok::<
                    Seq<char>,
                    Seq<char>,
                >(written@[i]@),
            Err(message) => exists|i: int|
                0 <= i < requests@.len() && spec_request_suffix(#[trigger] requests@[i]) == Err::<
                    Seq<char>,
                    Seq<char>,
                >(message@) && forall|j: int|
                    0 <= j < i ==> spec_request_suffix(#[trigger] requests@[j]) is Ok,
        },
{
    let mut written: Vec<String> = Vec::new();
    let mut i: usize = 0;
    while i < requests.len()
        invariant
            i <= requests@.len(),
            written@.len() == i,
            forall|j: int|
                0 <= j < i ==> spec_request_suffix(#[trigger] requests@[j]) == Ok::<
                    Seq<char>,
                    Seq<char>,
                >(written@[j]@),
        decreases requests@.len() - i,
    {
        match request_suffix(&requests[i]) {
            Ok(suffix) => {
                written.push(suffix);
            },
            Err(message) => {
                assert(spec_request_suffix(requests@[i as int]) == Err::<Seq<char>, Seq<char>>(
                    message@,
                ));
                return Err(message);
            },
        }
        i = i + 1;
    }
    Ok(written)
}

/// A record names a match that counts if its flag is `n` and it holds an id.
pub open spec fn is_kept(record: GetMatchIdsByQueueReply) -> bool {
    record.Active_Flag == Some('n') && record.Match is Some
}

/// The ids of the records that count, in their order.
pub open spec fn kept_ids(records: Seq<GetMatchIdsByQueueReply>) -> Seq<Seq<char>>
    decreases records.len(),
{
    if records.len() == 0 {
        Seq::empty()
    } else if is_kept(records.last()) {
        kept_ids(records.drop_last()).push(records.last().Match.unwrap()@)
    } else {
        kept_ids(records.drop_last())
    }
}

/// The ids that one response yields, or the message that refuses it. A
/// response that could not be decoded is refused with the decoder's message;
/// one whose first record carries a message of the provider is refused with
/// that.
pub open spec fn spec_response_ids(response: Result<Vec<GetMatchIdsByQueueReply>, String>) -> Result<
    Seq<Seq<char>>,
    Seq<char>,
> {
    match response {
        Err(message) => Err("Error deserializing get match ids by queue reply: "@ + message@),
        Ok(records) => if records@.len() > 0 && records@[0].ret_msg is Some {
            Err("GetMatchIdsByQueue Request Error: "@ + records@[0].ret_msg.unwrap()@)
        } else {
            Ok(kept_ids(records@))
        },
    }
}

/// The ids that the responses yield together, in their order, or the
/// message of the first response that is refused.
pub open spec fn spec_match_ids(
    responses: Seq<Result<Vec<GetMatchIdsByQueueReply>, String>>,
) -> Result<Seq<Seq<char>>, Seq<char>>
    decreases responses.len(),
{
    if responses.len() == 0 {
        Ok(Seq::empty())
    } else {
        match spec_match_ids(responses.drop_last()) {
            Err(message) => Err(message),
            Ok(ids) => match spec_response_ids(responses.last()) {
                Err(message) => Err(message),
                Ok(more) => Ok(ids + more),
            },
        }
    }
}

/// Gathers the ids of the matches that count from the responses to the
/// calls for the matches of a queue. Each response is handed over as its
/// decoded records, or as the decoder's message if it could not be decoded.
pub fn match_ids_from_replies(responses: Vec<Result<Vec<GetMatchIdsByQueueReply>, String>>) -> (ids:
    Result<Vec<String>, String>)
    ensures
        match ids {
            Ok(found) => spec_match_ids(responses@) == Ok::<Seq<Seq<char>>, Seq<char>>(
                texts(found@),
            ),
            Err(message) => spec_match_ids(responses@) == Err::<Seq<Seq<char>>, Seq<char>>(
                message@,
            ),
        },
{
    let mut all_ids: Vec<String> = Vec::new();
    assert(texts(all_ids@) =~= Seq::empty());
    for response in outer: responses
        invariant
            outer.seq() == responses@,
            spec_match_ids(responses@.take(outer.index() as int)) == Ok::<
                Seq<Seq<char>>,
                Seq<char>,
            >(texts(all_ids@)),
    {
        let ghost done = responses@.take(outer.index() as int);
        let ghost next = responses@.take(outer.index() + 1);
        proof {
            assert(next.drop_last() =~= done);
            assert(next.last() == response);
        }
        match response {
            Err(message) => {
                let mut text: String =
                    "Error deserializing get match ids by queue reply: ".to_owned();
                text.append(message.as_str());
                proof {
                    lemma_first_refusal_stays(responses@, outer.index() + 1);
                }
                return Err(text);
            },
            Ok(records) => {
                if records.len() > 0 {
                    match &records[0].ret_msg {
                        Some(ret_msg) => {
                            let mut text: String = "GetMatchIdsByQueue Request Error: ".to_owned();
                            text.append(ret_msg.as_str());
                            proof {
                                lemma_first_refusal_stays(responses@, outer.index() + 1);
                            }
                            return Err(text);
                        },
                        None => {},
                    }
                }
                let ghost before = texts(all_ids@);
                for record in inner: records
                    invariant
                        inner.seq() == records@,
                        texts(all_ids@) == before + kept_ids(records@.take(inner.index() as int)),
                {
                    let ghost seen = records@.take(inner.index() as int);
                    let ghost seen_next = records@.take(inner.index() + 1);
                    proof {
                        assert(seen_next.drop_last() =~= seen);
                        assert(seen_next.last() == record);
                    }
                    let ghost ids_before = all_ids@;
                    match record.Active_Flag {
                        Some(flag) => {
                            if flag == 'n' {
                                match record.Match {
                                    Some(id) => {
                                        all_ids.push(id);
                                        assert(texts(all_ids@) =~= texts(ids_before).push(id@));
                                    },
                                    None => {},
                                }
                            }
                        },
                        None => {},
                    }
                    assert(texts(all_ids@) =~= before + kept_ids(seen_next));
                }
                assert(records@.take(records@.len() as int) =~= records@);
            },
        }
    }
    assert(responses@.take(responses@.len() as int) =~= responses@);
    Ok(all_ids)
}

/// Once a beginning of the responses is refused, so are all of them, with
/// the same message.
pub proof fn lemma_first_refusal_stays(
    responses: Seq<Result<Vec<GetMatchIdsByQueueReply>, String>>,
    k: int,
)
    requires
        0 <= k <= responses.len(),
        spec_match_ids(responses.take(k)) is Err,
    ensures
        spec_match_ids(responses) == spec_match_ids(responses.take(k)),
    decreases responses.len(),
{
    if k < responses.len() {
        assert(responses.drop_last().take(k) =~= responses.take(k));
        lemma_first_refusal_stays(responses.drop_last(), k);
    } else {
        assert(responses.take(k) =~= responses);
    }
}

/// A record of a response, or the message that stands for a response that
/// could not be decoded.
pub open spec fn detail_view<T>(detail: Result<T, String>) -> Result<T, Seq<char>> {
    match detail {
        Ok(record) => Ok(record),
        Err(message) => Err(message@),
    }
}

/// What one response to a call for match details yields: its records, or
/// one message if it could not be decoded.
pub open spec fn spec_response_details<T>(response: Result<Vec<T>, String>) -> Seq<
    Result<T, Seq<char>>,
> {
    match response {
        Ok(records) => records@.map_values(|record: T| Ok::<T, Seq<char>>(record)),
        Err(message) => seq![
            Err::<T, Seq<char>>(
                "Error deserializing get match details batch reply: "@ + message@,
            ),
        ],
    }
}

/// What the responses to the calls for match details yield together, in
/// their order.
pub open spec fn spec_match_details<T>(responses: Seq<Result<Vec<T>, String>>) -> Seq<
    Result<T, Seq<char>>,
>
    decreases responses.len(),
{
    if responses.len() == 0 {
        Seq::empty()
    } else {
        spec_match_details(responses.drop_last()) + spec_response_details(responses.last())
    }
}

/// Lays out the responses to the calls for match details record by record.
/// Each response is handed over as its decoded records, or as the decoder's
/// message if it could not be decoded; such a response stands in the result
/// as one failure, and the records of the others are kept.
pub fn match_details_from_replies<T>(responses: Vec<Result<Vec<T>, String>>) -> (details: Vec<
    Result<T, String>,
>)
    ensures
        details@.map_values(|detail: Result<T, String>| detail_view(detail)) == spec_match_details(
            responses@,
        ),
{
    let mut details: Vec<Result<T, String>> = Vec::new();
    let ghost view = |detail: Result<T, String>| detail_view(detail);
    assert(details@.map_values(view) =~= Seq::empty());
    for response in outer: responses
        invariant
            outer.seq() == responses@,
            view == |detail: Result<T, String>| detail_view(detail),
            details@.map_values(view) == spec_match_details(responses@.take(outer.index() as int)),
    {
        let ghost done = responses@.take(outer.index() as int);
        let ghost next = responses@.take(outer.index() + 1);
        proof {
            assert(next.drop_last() =~= done);
            assert(next.last() == response);
        }
        let ghost before = details@.map_values(view);
        match response {
            Err(message) => {
                let mut text: String =
                    "Error deserializing get match details batch reply: ".to_owned();
                text.append(message.as_str());
                details.push(Err(text));
                assert(details@.map_values(view) =~= before + spec_response_details(response));
            },
            Ok(records) => {
                let ghost wrap = |record: T| Ok::<T, Seq<char>>(record);
                for record in inner: records
                    invariant
                        inner.seq() == records@,
                        view == |detail: Result<T, String>| detail_view(detail),
                        wrap == |record: T| Ok::<T, Seq<char>>(record),
                        details@.map_values(view) == before + records@.take(
                            inner.index() as int,
                        ).map_values(wrap),
                {
                    let ghost i = inner.index() as int;
                    let ghost earlier = details@;
                    details.push(Ok(record));
                    proof {
                        assert(record == records@[i]);
                        assert(records@.take(i + 1) =~= records@.take(i).push(records@[i]));
                        assert(details@.map_values(view) =~= earlier.map_values(view).push(
                            view(Ok(record)),
                        ));
                        assert(records@.take(i + 1).map_values(wrap) =~= records@.take(
                            i,
                        ).map_values(wrap).push(wrap(records@[i])));
                    }
                }
                assert(records@.take(records@.len() as int) =~= records@);
            },
        }
    }
    assert(responses@.take(responses@.len() as int) =~= responses@);
    details
}

/// The words by which the provider says, anywhere in a response, that it no
/// longer accepts the session key of the request.
pub open spec fn invalid_session_sentinel() -> Seq<char> {
    "Invalid session id"@
}

/// The arguments of a call that takes none of its own and asks for the
/// whole list, as the calls for the gods and for the items do.
pub open spec fn spec_whole_list_suffix() -> Seq<char> {
    "/1"@
}

/// Whether `step` is what a worker does on the pool's answer to a new
/// session: with a key it goes on, while every session is lent out it waits
/// a second and a few nanoseconds, and on any other failure it gives up with
/// the failure's message.
pub open spec fn decides(step: KeyStep, answer: Result<Seq<char>, Seq<char>>) -> bool {
    match answer {
        Ok(key) => step matches KeyStep::Ready(k) && k@ == key,
        Err(message) => if message == crate::pool_state::no_sessions_available() {
            step matches KeyStep::Wait { seconds, nanoseconds } && seconds == 1 && nanoseconds < 5
        } else {
            step matches KeyStep::Failed(m) && m@ == message
        },
    }
}

/// Plans requests and decides, for the workers that carry them out, what
/// becomes of each session and each response. It owns the session pool.
pub struct RequestMaker {
    session_manager: SessionManager,
}

impl RequestMaker {
    /// The session pool.
    pub closed spec fn pool(&self) -> SessionManager {
        self.session_manager
    }

    /// The session pool is well formed.
    pub open spec fn wf(&self) -> bool {
        self.pool().wf()
    }

    /// A request maker over the pool `session_manager`.
    pub fn new(session_manager: SessionManager) -> (maker: RequestMaker)
        ensures
            maker.pool() == session_manager,
    {
        RequestMaker { session_manager }
    }

    /// A request maker over an empty pool with stand-in credentials, for
    /// trials without a provider.
    pub fn mock() -> (maker: RequestMaker)
        ensures
            maker.pool()@ == PoolState::empty(),
            maker.pool().spec_credentials().dev_id@ == "dummy"@,
            maker.pool().spec_credentials().dev_key@ == "creds"@,
            maker.pool().spec_base_url() == UrlConstants::UrlBase,
            maker.wf(),
            maker.pool()@.one_place(),
    {
        RequestMaker { session_manager: SessionManager::mock() }
    }

    /// The session pool.
    pub fn session_manager(&self) -> (pool: &SessionManager)
        ensures
            *pool == self.pool(),
    {
        &self.session_manager
    }

    /// The waves in which the calls with the arguments `url_optionals` go
    /// out: all workers of a wave end before the next wave begins.
    pub fn waves(&self, url_optionals: Vec<String>) -> (waves: Vec<Vec<String>>)
        ensures
            waves@.len() == crate::batch::group_count(url_optionals@.len(), 45),
            forall|k: int|
                0 <= k < waves@.len() ==> (#[trigger] waves@[k])@ == crate::batch::group(
                    url_optionals@,
                    45,
                    k,
                ),
    {
        plan_waves(url_optionals)
    }

    /// The arguments of the one call that asks for a whole list.
    pub fn whole_list_suffixes() -> (suffixes: Vec<String>)
        ensures
            suffixes@.len() == 1,
            suffixes@[0]@ == spec_whole_list_suffix(),
    {
        let mut suffixes: Vec<String> = Vec::new();
        suffixes.push("/1".to_owned());
        suffixes
    }

    /// A worker's first step, and its next after a wait: one turn for a
    /// session key, as `SessionManager::get_session_key_concurrent` takes
    /// it.
    pub fn borrow_session(&mut self) -> (step: KeyStep)
        requires
            old(self).wf(),
            old(self).pool()@.idle.len() > 0 ==> old(self).pool()@.num_requests < u16::MAX,
        ensures
            final(self).wf(),
            final(self).pool().same_account(&old(self).pool()),
            old(self).pool()@.one_place() ==> final(self).pool()@.one_place(),
            old(self).pool()@.idle.len() > 0 ==> final(self).pool()@ == old(self).pool()@.lend()
                && (step matches KeyStep::Ready(key) && key@ == old(self).pool()@.idle[0].key
                && has_key(final(self).pool()@.active, key@)),
            old(self).pool()@.idle.len() == 0 ==> final(self).pool()@ == old(self).pool()@
                && match old(self).pool()@.refusal() {
                None => step is Create,
                Some(message) => if message == crate::pool_state::no_sessions_available() {
                    step matches KeyStep::Wait { seconds, nanoseconds } && seconds == 1
                        && nanoseconds < 5
                } else {
                    step matches KeyStep::Failed(m) && m@ == message
                },
            },
    {
        self.session_manager.get_session_key_concurrent()
    }

    /// The URL by which a worker asks the provider for a new session.
    pub fn create_session_url(&self) -> (url: String)
        ensures
            exists|now: UtcNow|
                now.wf() && url@ == crate::url_builder::spec_session_url(
                    self.pool().spec_base_url(),
                    ReturnDataType::Json,
                    self.pool().spec_credentials().dev_id@,
                    self.pool().spec_credentials().dev_key@,
                    timestamp_text(now),
                ),
    {
        self.session_manager.create_session_url()
    }

    /// A worker's step after it has asked the provider for a new session:
    /// the pool takes the reply, and a key that it lends is ready. A failure
    /// is decided as a refusal is: the worker waits while every session is
    /// lent out, and gives up otherwise.
    pub fn session_created(&mut self, reply: SessionReply) -> (step: KeyStep)
        requires
            old(self).wf(),
        ensures
            final(self).wf(),
            final(self).pool().same_account(&old(self).pool()),
            exists|now: i64|
                final(self).pool()@ == old(self).pool()@.create(
                    #[trigger] spec_session_from_reply(reply, now as int),
                ).0 && decides(
                    step,
                    old(self).pool()@.create(spec_session_from_reply(reply, now as int)).1,
                ),
            step matches KeyStep::Ready(key) ==> has_key(final(self).pool()@.active, key@),
            !(step is Ready) ==> (old(self).pool()@.one_place() ==> final(self).pool()@.one_place()),
            old(self).pool()@.one_place() && (step matches KeyStep::Ready(key) && !old(self).pool()@.holds(key@)) ==> final(self).pool()@.one_place(),
            !(step is Create),
    {
        match self.session_manager.create_session(reply) {
            Ok(key) => KeyStep::Ready(key),
            Err(message) => retry_or_fail(message),
        }
    }

    /// The URL of a worker's call of `endpoint` with the arguments
    /// `url_optional`, signed with the pool's credentials for the current
    /// time and the session `session_key`.
    pub fn request_url(&self, endpoint: &UrlConstants, session_key: &String, url_optional: &String) -> (url:
        String)
        ensures
            exists|now: UtcNow|
                now.wf() && url@ == spec_url(
                    self.pool().spec_credentials().dev_id@,
                    self.pool().spec_credentials().dev_key@,
                    session_key@,
                    self.pool().spec_base_url(),
                    *endpoint,
                    ReturnDataType::Json,
                    url_optional@,
                    timestamp_text(now),
                ),
    {
        let credentials = self.session_manager.credentials();
        url(
            &credentials.dev_id,
            &credentials.dev_key,
            session_key,
            self.session_manager.base_url(),
            endpoint,
            &ReturnDataType::Json,
            url_optional,
        )
    }

    /// A worker's step after a response has come in for the session
    /// `session_key`, which the worker holds. A response in which the
    /// provider refuses the session costs the session its place in the pool,
    /// and the worker starts over; any other response is the worker's
    /// result, and the session goes back to wait for its next use. Either
    /// way the session is no longer lent out and is not lost: it is idle, or
    /// it was evicted.
    pub fn settle(&mut self, session_key: String, body: String) -> (result: Option<String>)
        requires
            old(self).wf(),
            has_key(old(self).pool()@.active, session_key@),
        ensures
            final(self).wf(),
            final(self).pool().same_account(&old(self).pool()),
            old(self).pool()@.one_place() ==> final(self).pool()@.one_place(),
            has_substring(body@, invalid_session_sentinel()) ==> result is None && final(self).pool()@ == old(self).pool()@.evict(session_key@),
            !has_substring(body@, invalid_session_sentinel()) ==> result == Some(body) && final(self).pool()@ == old(self).pool()@.replace(session_key@),
            result is Some ==> final(self).pool()@.idle.len() > 0 && final(self).pool()@.idle.last().key == session_key@,
            result is None ==> final(self).pool()@.valid_session_count == old(self).pool()@.valid_session_count - 1,
            old(self).pool()@.one_place() ==> !has_key(final(self).pool()@.active, session_key@),
            old(self).pool()@.one_place() && result is None ==> !final(self).pool()@.holds(
                session_key@,
            ),
    {
        proof {
            lemma_replace(self.pool()@, session_key@);
            lemma_evict(self.pool()@, session_key@);
        }
        if contains(body.as_str(), "Invalid session id") {
            self.session_manager.remove_invalid_session(session_key);
            None
        } else {
            self.session_manager.replace_session(session_key);
            Some(body)
        }
    }

    /// Empties the pool into the text of a sessions file, as
    /// `SessionManager::store` writes it.
    pub fn store(&mut self) -> (contents: String)
        requires
            old(self).wf(),
        ensures
            contents@ == crate::session_manager::records(
                old(self).pool()@.active.reverse() + old(self).pool()@.idle,
            ),
            final(self).pool()@ == old(self).pool()@.drained(),
            final(self).wf(),
            final(self).pool().same_account(&old(self).pool()),
    {
        self.session_manager.store()
    }
}

} // verus!
