//! The operations that the library offers on the API: for each, the calls to
//! make. The replies are read by the functions of `request_maker`.

use crate::batch::{group, group_count, match_details_suffixes, spec_batch_string, MATCH_DETAILS_BATCH};
use crate::hi_rez_constants::{LimitConstants, UrlConstants};
use crate::pool_state::PoolState;
use crate::request_maker::{
    match_ids_suffixes, spec_request_suffix, spec_whole_list_suffix, GetMatchIdsByQueueRequest,
    RequestMaker,
};
use crate::session_manager::{spec_load, Auth, SessionManager};
use crate::text::texts;
use vstd::prelude::*;

verus! {

/// The calls of one operation: the method to call and, for each call, its
/// arguments.
pub struct Calls {
    pub endpoint: UrlConstants,
    pub url_optionals: Vec<String>,
}

/// The library's handle on the API.
pub struct SmiteAPI {
    request_maker: RequestMaker,
}

impl SmiteAPI {
    /// The request maker, and with it the session pool.
    pub closed spec fn maker(&self) -> RequestMaker {
        self.request_maker
    }

    /// Sets out from the contents of the credentials file and of the
    /// sessions file that an earlier run left (empty if it left none). There
    /// is no handle without credentials, with a sessions file that cannot be
    /// read, or with more sessions than may exist at one time.
    pub fn new(credentials: &str, sessions: &str) -> (api: Option<SmiteAPI>)
        ensures
            match api {
                Some(api) => {
                    &&& Auth::spec_from_file(credentials@) matches Some(account)
                    &&& api.maker().pool().spec_credentials().dev_id@ == account.0
                    &&& api.maker().pool().spec_credentials().dev_key@ == account.1
                    &&& api.maker().pool().spec_base_url() == UrlConstants::UrlBase
                    &&& spec_load(sessions@) matches Some(loaded)
                    &&& loaded.len() <= LimitConstants::ConcurrentSessions.spec_val()
                    &&& exists|now: i64|
                        api.maker().pool()@ == #[trigger] PoolState::restored(loaded, now as int)
                    &&& api.maker().wf()
                },
                None => {
                    ||| Auth::spec_from_file(credentials@) is None
                    ||| spec_load(sessions@) is None
                    ||| spec_load(sessions@).unwrap().len()
                        > LimitConstants::ConcurrentSessions.spec_val()
                },
            },
    {
        let auth = match Auth::from_file(credentials) {
            Some(auth) => auth,
            None => {
                return None;
            },
        };
        let loaded = match SessionManager::load(sessions) {
            Some(loaded) => loaded,
            None => {
                return None;
            },
        };
        if loaded.len() > LimitConstants::ConcurrentSessions.val() as usize {
            return None;
        }
        let session_manager = SessionManager::new(auth, UrlConstants::UrlBase, loaded);
        Some(SmiteAPI { request_maker: RequestMaker::new(session_manager) })
    }

    /// The request maker, and with it the session pool.
    pub fn request_maker(&self) -> (maker: &RequestMaker)
        ensures
            *maker == self.maker(),
    {
        &self.request_maker
    }

    /// Gives up the handle for its request maker.
    pub fn into_request_maker(self) -> (maker: RequestMaker)
        ensures
            maker == self.maker(),
    {
        self.request_maker
    }

    /// The calls that ask for the ids of the matches of `requests`: one call
    /// for each request, unless the hour and minute of one are refused.
    pub fn match_ids_calls(requests: &Vec<GetMatchIdsByQueueRequest>) -> (calls: Result<
        Calls,
        String,
    >)
        ensures
            match calls {
                Ok(calls) => calls.endpoint == UrlConstants::GetMatchIdsByQueue
                    && calls.url_optionals@.len() == requests@.len() && forall|i: int|
                    0 <= i < requests@.len() ==> spec_request_suffix(#[trigger] requests@[i])
                        == Ok::<Seq<char>, Seq<char>>(calls.url_optionals@[i]@),
                Err(message) => exists|i: int|
                    0 <= i < requests@.len() && spec_request_suffix(#[trigger] requests@[i])
                        == Err::<Seq<char>, Seq<char>>(message@) && forall|j: int|
                        0 <= j < i ==> spec_request_suffix(#[trigger] requests@[j]) is Ok,
            },
    {
        match match_ids_suffixes(requests) {
            Ok(url_optionals) => Ok(
                Calls { endpoint: UrlConstants::GetMatchIdsByQueue, url_optionals },
            ),
            Err(message) => Err(message),
        }
    }

    /// The calls that ask for the details of `match_ids`: the batched
    /// method, ten ids to a call.
    pub fn match_details_calls(match_ids: Vec<String>) -> (calls: Calls)
        ensures
            calls.endpoint == UrlConstants::GetMatchDetailsBatch,
            calls.url_optionals@.len() == group_count(
                match_ids@.len(),
                MATCH_DETAILS_BATCH as nat,
            ),
            forall|k: int|
                0 <= k < calls.url_optionals@.len() ==> (#[trigger] calls.url_optionals@[k])@
                    == spec_batch_string(texts(group(match_ids@, MATCH_DETAILS_BATCH as nat, k))),
    {
        Calls {
            endpoint: UrlConstants::GetMatchDetailsBatch,
            url_optionals: match_details_suffixes(match_ids),
        }
    }

    /// The one call that asks for all gods.
    pub fn gods_calls() -> (calls: Calls)
        ensures
            calls.endpoint == UrlConstants::GetGods,
            calls.url_optionals@.len() == 1,
            calls.url_optionals@[0]@ == spec_whole_list_suffix(),
    {
        Calls { endpoint: UrlConstants::GetGods, url_optionals: RequestMaker::whole_list_suffixes() }
    }

    /// The one call that asks for all items.
    pub fn items_calls() -> (calls: Calls)
        ensures
            calls.endpoint == UrlConstants::GetItems,
            calls.url_optionals@.len() == 1,
            calls.url_optionals@[0]@ == spec_whole_list_suffix(),
    {
        Calls { endpoint: UrlConstants::GetItems, url_optionals: RequestMaker::whole_list_suffixes() }
    }
}

} // verus!
