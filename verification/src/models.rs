//! The replies of the API that the library reads to decide what to do next.

use vstd::prelude::*;

verus! {

/// The reply to a request for a new session.
#[derive(Clone, Debug)]
pub struct CreateSessionReply {
    pub ret_msg: Option<String>,
    pub session_id: Option<String>,
    pub timestamp: Option<String>,
}

/// One record of the reply to a request for the matches of a queue.
#[allow(non_snake_case)]
#[derive(Clone, Debug)]
pub struct GetMatchIdsByQueueReply {
    pub ret_msg: Option<String>,
    pub Active_Flag: Option<char>,
    pub Match: Option<String>,
}

} // verus!
