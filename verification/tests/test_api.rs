use hirust::api::SmiteAPI;
use hirust::hi_rez_constants::{DataConstants, UrlConstants};
use hirust::request_maker::{CalendarDate, GetMatchIdsByQueueRequest};

#[test]
fn a_handle_sets_out_from_credentials_and_sessions() {
    let now = std::time::SystemTime::now()
        .duration_since(std::time::UNIX_EPOCH)
        .unwrap()
        .as_secs() as i64;
    let sessions = format!("A {}\nB {}\n", now - 10, now - 90000);
    let api = SmiteAPI::new("1004\nFA34BC01\n", &sessions).unwrap();
    let pool = api.request_maker().session_manager();
    assert_eq!(pool.credentials().dev_id, "1004");
    assert_eq!(pool.credentials().dev_key, "FA34BC01");
    assert!(matches!(pool.base_url(), UrlConstants::UrlBase));
    assert_eq!(pool.idle_len(), 2);
    assert_eq!(pool.active_len(), 0);
    assert_eq!(pool.valid_session_count(), 2);
    assert_eq!(pool.sessions_created(), 1);
    assert_eq!(pool.num_requests(), 0);
    let maker = api.into_request_maker();
    assert_eq!(maker.session_manager().idle_len(), 2);
}

#[test]
fn a_handle_without_a_sessions_file() {
    let api = SmiteAPI::new("id\nkey", "").unwrap();
    assert_eq!(api.request_maker().session_manager().idle_len(), 0);
    assert_eq!(api.request_maker().session_manager().valid_session_count(), 0);
}

#[test]
fn no_handle_without_credentials() {
    assert!(SmiteAPI::new("id-without-key", "").is_none());
    assert!(SmiteAPI::new("", "A 10\n").is_none());
}

#[test]
fn no_handle_with_an_unreadable_sessions_file() {
    assert!(SmiteAPI::new("id\nkey\n", "A ten\n").is_none());
}

#[test]
fn no_handle_with_more_sessions_than_may_exist() {
    let sessions: String = (0..46).map(|i| format!("S{} 10\n", i)).collect();
    assert!(SmiteAPI::new("id\nkey\n", &sessions).is_none());
    let sessions: String = (0..45).map(|i| format!("S{} 10\n", i)).collect();
    assert!(SmiteAPI::new("id\nkey\n", &sessions).is_some());
}

#[test]
fn match_ids_are_asked_of_the_queue_method() {
    let requests = vec![GetMatchIdsByQueueRequest {
        queue_id: DataConstants::RankedConquest,
        date: CalendarDate { year: 2019, month: 8, day: 10 },
        hour: String::from("-1"),
        minute: String::from(""),
    }];
    let calls = SmiteAPI::match_ids_calls(&requests).ok().unwrap();
    assert!(matches!(calls.endpoint, UrlConstants::GetMatchIdsByQueue));
    assert_eq!(calls.url_optionals, vec![String::from("/451/20190810/-1")]);
}

#[test]
fn refused_requests_make_no_calls() {
    let requests = vec![GetMatchIdsByQueueRequest {
        queue_id: DataConstants::RankedConquest,
        date: CalendarDate { year: 2019, month: 8, day: 10 },
        hour: String::from("24"),
        minute: String::from("00"),
    }];
    match SmiteAPI::match_ids_calls(&requests) {
        Err(message) => assert_eq!(message, "Invalid hour specified"),
        Ok(_) => panic!("hour 24 is refused"),
    }
}

#[test]
fn match_details_are_asked_of_the_batched_method() {
    let calls = SmiteAPI::match_details_calls((1..=12).map(|i| i.to_string()).collect());
    assert!(matches!(calls.endpoint, UrlConstants::GetMatchDetailsBatch));
    assert_eq!(
        calls.url_optionals,
        vec![String::from("/1,2,3,4,5,6,7,8,9,10"), String::from("/11,12")]
    );
    assert_eq!(SmiteAPI::match_details_calls(Vec::new()).url_optionals.len(), 0);
}

#[test]
fn get_gods() {
    let calls = SmiteAPI::gods_calls();
    assert!(matches!(calls.endpoint, UrlConstants::GetGods));
    assert_eq!(calls.url_optionals, vec![String::from("/1")]);
}

#[test]
fn get_items() {
    let calls = SmiteAPI::items_calls();
    assert!(matches!(calls.endpoint, UrlConstants::GetItems));
    assert_eq!(calls.url_optionals, vec![String::from("/1")]);
}
