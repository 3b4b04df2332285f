//! Names and limits fixed by the provider of the API.

use vstd::prelude::*;

verus! {

/// The base address of the API and the method names it serves.
pub enum UrlConstants {
    UrlBase,
    DataLimitCheck,
    CreateSession,
    GetMatchDetails,
    GetMatchDetailsBatch,
    GetMatchIdsByQueue,
    GetGods,
    GetItems,
}

impl UrlConstants {
    /// The text that stands for this constant in a URL.
    pub open spec fn spec_val(&self) -> Seq<char> {
        match *self {
            UrlConstants::UrlBase => "https://api.smitegame.com/smiteapi.svc"@,
            UrlConstants::DataLimitCheck => "getdataused"@,
            UrlConstants::CreateSession => "createsession"@,
            UrlConstants::GetMatchDetails => "getmatchdetails"@,
            UrlConstants::GetMatchDetailsBatch => "getmatchdetailsbatch"@,
            UrlConstants::GetMatchIdsByQueue => "getmatchidsbyqueue"@,
            UrlConstants::GetGods => "getgods"@,
            UrlConstants::GetItems => "getitems"@,
        }
    }

    /// The text that stands for this constant in a URL.
    pub fn val(&self) -> (text: String)
        ensures
            text@ == self.spec_val(),
    {
        match *self {
            UrlConstants::UrlBase => "https://api.smitegame.com/smiteapi.svc".to_owned(),
            UrlConstants::DataLimitCheck => "getdataused".to_owned(),
            UrlConstants::CreateSession => "createsession".to_owned(),
            UrlConstants::GetMatchDetails => "getmatchdetails".to_owned(),
            UrlConstants::GetMatchDetailsBatch => "getmatchdetailsbatch".to_owned(),
            UrlConstants::GetMatchIdsByQueue => "getmatchidsbyqueue".to_owned(),
            UrlConstants::GetGods => "getgods".to_owned(),
            UrlConstants::GetItems => "getitems".to_owned(),
        }
    }
}

/// The encoding in which the API is asked to answer.
pub enum ReturnDataType {
    Json,
    Xml,
}

impl ReturnDataType {
    /// The text that stands for this encoding in a URL.
    pub open spec fn spec_val(&self) -> Seq<char> {
        match *self {
            ReturnDataType::Json => "json"@,
            ReturnDataType::Xml => "xml"@,
        }
    }

    /// The text that stands for this encoding in a URL.
    pub fn val(&self) -> (text: String)
        ensures
            text@ == self.spec_val(),
    {
        match *self {
            ReturnDataType::Json => "json".to_owned(),
            ReturnDataType::Xml => "xml".to_owned(),
        }
    }
}

/// The ranked queues whose matches can be asked for.
#[derive(Debug, Clone)]
pub enum DataConstants {
    RankedConquest,
    RankedJoust,
    RankedDuel,
}

impl DataConstants {
    /// The queue's number, as the API writes it.
    pub open spec fn spec_val(&self) -> Seq<char> {
        match *self {
            DataConstants::RankedConquest => "451"@,
            DataConstants::RankedJoust => "450"@,
            DataConstants::RankedDuel => "440"@,
        }
    }

    /// The queue's number, as the API writes it.
    pub fn val(&self) -> (text: String)
        ensures
            text@ == self.spec_val(),
    {
        match *self {
            DataConstants::RankedConquest => "451".to_owned(),
            DataConstants::RankedJoust => "450".to_owned(),
            DataConstants::RankedDuel => "440".to_owned(),
        }
    }

    /// The queue that a name stands for, if it names one.
    pub open spec fn spec_from_str(name: Seq<char>) -> Option<DataConstants> {
        if name == "RankedConquest"@ {
            Some(DataConstants::RankedConquest)
        } else if name == "RankedJoust"@ {
            Some(DataConstants::RankedJoust)
        } else if name == "RankedDuel"@ {
            Some(DataConstants::RankedDuel)
        } else {
            None
        }
    }

    /// Reads a queue's name. Any other text is refused, and the message
    /// quotes it.
    pub fn from_str(constant_str: String) -> (queue: Result<DataConstants, String>)
        ensures
            match queue {
                Ok(q) => Self::spec_from_str(constant_str@) == Some(q),
                Err(msg) => Self::spec_from_str(constant_str@) is None
                    && msg@ == "DataConstant match not found for: "@ + constant_str@,
            },
    {
        if constant_str == "RankedConquest".to_owned() {
            Ok(DataConstants::RankedConquest)
        } else if constant_str == "RankedJoust".to_owned() {
            Ok(DataConstants::RankedJoust)
        } else if constant_str == "RankedDuel".to_owned() {
            Ok(DataConstants::RankedDuel)
        } else {
            let mut msg: String = "DataConstant match not found for: ".to_owned();
            msg.append(constant_str.as_str());
            Err(msg)
        }
    }
}

/// The quotas that the provider enforces.
pub enum LimitConstants {
    ConcurrentSessions,
    SessionsPerDay,
    /// The lifetime of a session, in seconds.
    SessionTimeLimit,
    RequestsPerDay,
}

impl LimitConstants {
    /// The limit's value.
    pub open spec fn spec_val(&self) -> u16 {
        match *self {
            LimitConstants::ConcurrentSessions => 45,
            LimitConstants::SessionsPerDay => 500,
            LimitConstants::SessionTimeLimit => 900,
            LimitConstants::RequestsPerDay => 7500,
        }
    }

    /// The limit's value. The ceiling on concurrent sessions is kept a
    /// little under the provider's 50.
    #[verifier::when_used_as_spec(spec_val)]
    pub fn val(&self) -> (limit: u16)
        ensures
            limit == self.spec_val(),
    {
        match *self {
            LimitConstants::ConcurrentSessions => 45,
            LimitConstants::SessionsPerDay => 500,
            LimitConstants::SessionTimeLimit => 900,
            LimitConstants::RequestsPerDay => 7500,
        }
    }
}

} // verus!
