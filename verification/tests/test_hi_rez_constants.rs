use hirust::hi_rez_constants::{DataConstants, LimitConstants, ReturnDataType, UrlConstants};

#[test]
fn url_constants_have_their_text() {
    assert_eq!(UrlConstants::UrlBase.val(), "https://api.smitegame.com/smiteapi.svc");
    assert_eq!(UrlConstants::DataLimitCheck.val(), "getdataused");
    assert_eq!(UrlConstants::CreateSession.val(), "createsession");
    assert_eq!(UrlConstants::GetMatchDetails.val(), "getmatchdetails");
    assert_eq!(UrlConstants::GetMatchDetailsBatch.val(), "getmatchdetailsbatch");
    assert_eq!(UrlConstants::GetMatchIdsByQueue.val(), "getmatchidsbyqueue");
    assert_eq!(UrlConstants::GetGods.val(), "getgods");
    assert_eq!(UrlConstants::GetItems.val(), "getitems");
}

#[test]
fn return_data_types_have_their_text() {
    assert_eq!(ReturnDataType::Json.val(), "json");
    assert_eq!(ReturnDataType::Xml.val(), "xml");
}

#[test]
fn queues_have_their_numbers() {
    assert_eq!(DataConstants::RankedConquest.val(), "451");
    assert_eq!(DataConstants::RankedJoust.val(), "450");
    assert_eq!(DataConstants::RankedDuel.val(), "440");
}

#[test]
fn queues_are_read_from_their_names() {
    assert!(matches!(
        DataConstants::from_str(String::from("RankedConquest")),
        Ok(DataConstants::RankedConquest)
    ));
    assert!(matches!(
        DataConstants::from_str(String::from("RankedJoust")),
        Ok(DataConstants::RankedJoust)
    ));
    assert!(matches!(
        DataConstants::from_str(String::from("RankedDuel")),
        Ok(DataConstants::RankedDuel)
    ));
}

#[test]
fn other_names_are_refused_and_quoted() {
    match DataConstants::from_str(String::from("Arena")) {
        Err(message) => assert_eq!(message, "DataConstant match not found for: Arena"),
        Ok(_) => panic!("Arena names no ranked queue"),
    }
    match DataConstants::from_str(String::from("rankedconquest")) {
        Err(message) => assert_eq!(message, "DataConstant match not found for: rankedconquest"),
        Ok(_) => panic!("names are case sensitive"),
    }
    match DataConstants::from_str(String::new()) {
        Err(message) => assert_eq!(message, "DataConstant match not found for: "),
        Ok(_) => panic!("the empty name names no queue"),
    }
}

#[test]
fn limits_have_their_values() {
    assert_eq!(LimitConstants::ConcurrentSessions.val(), 45);
    assert_eq!(LimitConstants::SessionsPerDay.val(), 500);
    assert_eq!(LimitConstants::SessionTimeLimit.val(), 900);
    assert_eq!(LimitConstants::RequestsPerDay.val(), 7500);
}
