use hirust::hi_rez_constants::UrlConstants;
use hirust::models::CreateSessionReply;
use hirust::session_manager::{
    retry_or_fail, session_from_reply, wait_or_fail, Auth, KeyStep, Session, SessionGrant,
    SessionManager, SessionReply, JITTER_NANOSECONDS,
};
use std::collections::VecDeque;

fn approved(session_id: &str) -> SessionReply {
    SessionReply::Decoded(CreateSessionReply {
        ret_msg: Some(String::from("Approved")),
        session_id: Some(String::from(session_id)),
        timestamp: None,
    })
}

/// Asks the pool for a key as a caller does who answers a request for a new
/// session with the provider's approval of `session_id`.
fn get_key(pool: &mut SessionManager, session_id: &str) -> Result<String, String> {
    match pool.get_session_key() {
        SessionGrant::Lent(key) => Ok(key),
        SessionGrant::Refused(message) => Err(message),
        SessionGrant::Create => pool.create_session(approved(session_id)),
    }
}

fn counts(pool: &SessionManager) -> (u16, u8, usize, usize) {
    (pool.sessions_created(), pool.valid_session_count(), pool.active_len(), pool.idle_len())
}

fn auth() -> Auth {
    Auth { dev_id: String::from("id"), dev_key: String::from("key") }
}

#[test]
fn get_replace_session() {
    let mut session_manager = SessionManager::mock();
    assert_eq!(counts(&session_manager), (0, 0, 0, 0));

    let key = get_key(&mut session_manager, "0123456789").unwrap();
    assert!(key != "");
    assert_eq!(counts(&session_manager), (1, 1, 1, 0));

    let first_key = key.clone();
    session_manager.replace_session(key);
    assert_eq!(counts(&session_manager), (1, 1, 0, 1));

    let first_key_again = get_key(&mut session_manager, "unused").unwrap();
    assert_eq!(first_key, first_key_again);
    assert_eq!(counts(&session_manager), (1, 1, 1, 0));

    let second_key = get_key(&mut session_manager, "9876543210").unwrap();
    assert!("" != second_key);
    assert!(first_key != second_key);
    assert_eq!(counts(&session_manager), (2, 2, 2, 0));

    session_manager.replace_session(second_key);
    assert_eq!(counts(&session_manager), (2, 2, 1, 1));
}

#[test]
fn remove_invalid_session() {
    let mut session_manager = SessionManager::mock();
    assert_eq!(counts(&session_manager), (0, 0, 0, 0));

    let key = get_key(&mut session_manager, "0123456789").unwrap();
    assert!(key != "");
    assert_eq!(counts(&session_manager), (1, 1, 1, 0));

    session_manager.remove_invalid_session(key);
    assert_eq!(counts(&session_manager), (1, 0, 0, 0));
}

#[test]
fn mock_pool_has_stand_in_credentials() {
    let pool = SessionManager::mock();
    assert_eq!(pool.credentials().dev_id, "dummy");
    assert_eq!(pool.credentials().dev_key, "creds");
    assert!(matches!(pool.base_url(), UrlConstants::UrlBase));
    assert_eq!(pool.num_requests(), 0);
}

#[test]
fn empty_pool_asks_for_a_session_and_stays_as_it_is() {
    let mut pool = SessionManager::mock();
    assert!(matches!(pool.get_session_key(), SessionGrant::Create));
    assert_eq!(counts(&pool), (0, 0, 0, 0));
    assert_eq!(pool.num_requests(), 0);
}

#[test]
fn every_lending_counts_as_a_request() {
    let mut pool = SessionManager::mock();
    let key = get_key(&mut pool, "K1").unwrap();
    assert_eq!(pool.num_requests(), 1);
    pool.replace_session(key);
    assert_eq!(pool.num_requests(), 1);
    let key = get_key(&mut pool, "unused").unwrap();
    assert_eq!(pool.num_requests(), 2);
    pool.remove_invalid_session(key);
    assert_eq!(pool.num_requests(), 2);
}

#[test]
fn idle_sessions_are_lent_first_in_first_out() {
    let mut pool = SessionManager::mock();
    let a = get_key(&mut pool, "A").unwrap();
    let b = get_key(&mut pool, "B").unwrap();
    let c = get_key(&mut pool, "C").unwrap();
    pool.replace_session(b);
    pool.replace_session(c);
    pool.replace_session(a);
    assert_eq!(get_key(&mut pool, "x").unwrap(), "B");
    assert_eq!(get_key(&mut pool, "x").unwrap(), "C");
    assert_eq!(get_key(&mut pool, "x").unwrap(), "A");
    assert_eq!(counts(&pool), (3, 3, 3, 0));
}

#[test]
fn is_active_tells_lent_from_idle() {
    let mut pool = SessionManager::mock();
    let a = get_key(&mut pool, "A").unwrap();
    assert!(pool.is_active(&a));
    assert!(!pool.is_active(&String::from("B")));
    pool.replace_session(a.clone());
    assert!(!pool.is_active(&a));
}

#[test]
fn no_sessions_available_at_the_ceiling() {
    let mut pool = SessionManager::mock();
    for i in 0..45 {
        get_key(&mut pool, &format!("S{}", i)).unwrap();
    }
    assert_eq!(counts(&pool), (45, 45, 45, 0));
    match pool.get_session_key() {
        SessionGrant::Refused(message) => assert_eq!(message, "No sessions available"),
        _ => panic!("the ceiling on concurrent sessions refuses"),
    }
    assert_eq!(counts(&pool), (45, 45, 45, 0));
    assert_eq!(pool.num_requests(), 45);
    match pool.get_session_key_concurrent() {
        KeyStep::Wait { seconds, nanoseconds } => {
            assert_eq!(seconds, 1);
            assert!(nanoseconds < 5);
        }
        _ => panic!("the caller waits while every session is lent out"),
    }
    pool.replace_session(String::from("S7"));
    match pool.get_session_key_concurrent() {
        KeyStep::Ready(key) => assert_eq!(key, "S7"),
        _ => panic!("an idle session is lent"),
    }
}

#[test]
fn an_evicted_session_frees_a_place() {
    let mut pool = SessionManager::mock();
    for i in 0..45 {
        get_key(&mut pool, &format!("S{}", i)).unwrap();
    }
    pool.remove_invalid_session(String::from("S3"));
    assert_eq!(counts(&pool), (45, 44, 44, 0));
    assert_eq!(get_key(&mut pool, "fresh").unwrap(), "fresh");
    assert_eq!(counts(&pool), (46, 45, 45, 0));
}

#[test]
fn sessions_per_day_are_exhausted_after_five_hundred() {
    let mut pool = SessionManager::mock();
    for i in 0..500 {
        let key = get_key(&mut pool, &format!("S{}", i)).unwrap();
        pool.remove_invalid_session(key);
    }
    assert_eq!(counts(&pool), (500, 0, 0, 0));
    match pool.get_session_key() {
        SessionGrant::Refused(message) => {
            assert_eq!(message, "Maximum number of sessions per day reached")
        }
        _ => panic!("the day's sessions are used up"),
    }
    match pool.get_session_key_concurrent() {
        KeyStep::Failed(message) => {
            assert_eq!(message, "Maximum number of sessions per day reached")
        }
        _ => panic!("the day's sessions are used up"),
    }
    assert_eq!(
        pool.create_session(approved("late")),
        Err(String::from("Maximum number of sessions per day reached"))
    );
    assert_eq!(counts(&pool), (500, 0, 0, 0));
}

#[test]
fn requests_per_day_are_exhausted_after_seventy_five_hundred() {
    let mut pool = SessionManager::mock();
    let mut key = get_key(&mut pool, "K").unwrap();
    for _ in 1..7500 {
        pool.replace_session(key);
        key = get_key(&mut pool, "unused").unwrap();
    }
    assert_eq!(pool.num_requests(), 7500);
    assert_eq!(counts(&pool), (1, 1, 1, 0));
    match pool.get_session_key() {
        SessionGrant::Refused(message) => {
            assert_eq!(message, "Maximum number of requests per day reached")
        }
        _ => panic!("the day's requests are used up"),
    }
    // An idle session is lent all the same.
    pool.replace_session(key);
    assert_eq!(get_key(&mut pool, "unused").unwrap(), "K");
    assert_eq!(pool.num_requests(), 7501);
}

#[test]
fn sessions_are_looked_at_before_requests() {
    let mut pool = SessionManager::mock();
    let mut key = get_key(&mut pool, "S0").unwrap();
    for _ in 1..7001 {
        pool.replace_session(key);
        key = get_key(&mut pool, "unused").unwrap();
    }
    pool.remove_invalid_session(key);
    for i in 1..500 {
        let key = get_key(&mut pool, &format!("S{}", i)).unwrap();
        pool.remove_invalid_session(key);
    }
    assert_eq!(pool.sessions_created(), 500);
    assert_eq!(pool.num_requests(), 7500);
    match pool.get_session_key() {
        SessionGrant::Refused(message) => {
            assert_eq!(message, "Maximum number of sessions per day reached")
        }
        _ => panic!("the day's sessions are used up"),
    }
}

#[test]
fn a_failed_creation_counts_for_nothing() {
    let mut pool = SessionManager::mock();
    let failures = vec![
        (SessionReply::Unreachable(String::from("no route")), "no route"),
        (
            SessionReply::Undecodable(String::from("expected value at line 1 column 1")),
            "Error deserializing create session reply: expected value at line 1 column 1",
        ),
        (
            SessionReply::Decoded(CreateSessionReply {
                ret_msg: None,
                session_id: Some(String::from("K")),
                timestamp: None,
            }),
            "CreateSession Request Error: ret_msg was null",
        ),
        (
            SessionReply::Decoded(CreateSessionReply {
                ret_msg: Some(String::from("Exception while validating developer access")),
                session_id: Some(String::from("K")),
                timestamp: None,
            }),
            "CreateSession Request Error: Exception while validating developer access",
        ),
        (
            SessionReply::Decoded(CreateSessionReply {
                ret_msg: Some(String::from("Approved")),
                session_id: None,
                timestamp: Some(String::from("8/10/2019 12:00:00 AM")),
            }),
            "CreateSession Request Error: session_id was null",
        ),
    ];
    for (reply, message) in failures {
        assert_eq!(pool.create_session(reply), Err(String::from(message)));
        assert_eq!(counts(&pool), (0, 0, 0, 0));
        assert_eq!(pool.num_requests(), 0);
    }
}

#[test]
fn a_reply_yields_a_session_created_now() {
    let session = session_from_reply(approved("K1"), 1565395200).ok().unwrap();
    assert_eq!(session.session_key(), "K1");
    assert_eq!(session.creation_timestamp(), 1565395200);
    assert!(session_from_reply(SessionReply::Unreachable(String::from("down")), 5).is_err());
}

#[test]
fn the_pool_stamps_new_sessions_with_the_time_given() {
    let mut pool = SessionManager::mock();
    assert_eq!(pool.create_session_at(approved("K1"), 1565395200), Ok(String::from("K1")));
    assert_eq!(pool.store(), "K1 1565395200\n");
}

#[test]
fn the_pool_stamps_new_sessions_with_the_clock() {
    let before = std::time::SystemTime::now()
        .duration_since(std::time::UNIX_EPOCH)
        .unwrap()
        .as_secs() as i64;
    let mut pool = SessionManager::mock();
    pool.create_session(approved("K1")).unwrap();
    let contents = pool.store();
    let after = std::time::SystemTime::now()
        .duration_since(std::time::UNIX_EPOCH)
        .unwrap()
        .as_secs() as i64;
    let stamp: i64 = contents.trim_end().split(' ').nth(1).unwrap().parse().unwrap();
    assert!(before <= stamp && stamp <= after);
}

#[test]
fn refusals_are_decided() {
    match retry_or_fail(String::from("No sessions available")) {
        KeyStep::Wait { seconds, nanoseconds } => {
            assert_eq!(seconds, 1);
            assert!(nanoseconds < 5);
        }
        _ => panic!("the caller waits"),
    }
    match retry_or_fail(String::from("Maximum number of requests per day reached")) {
        KeyStep::Failed(message) => assert_eq!(message, "Maximum number of requests per day reached"),
        _ => panic!("the refusal is final"),
    }
    match retry_or_fail(String::from("no sessions available")) {
        KeyStep::Failed(message) => assert_eq!(message, "no sessions available"),
        _ => panic!("the refusal is final"),
    }
}

#[test]
fn the_wait_stays_under_five_nanoseconds_over_a_second() {
    let mut drawn = Vec::new();
    for _ in 0..400 {
        match retry_or_fail(String::from("No sessions available")) {
            KeyStep::Wait { seconds, nanoseconds } => {
                assert_eq!(seconds, 1);
                assert!(nanoseconds < 5);
                drawn.push(nanoseconds);
            }
            _ => panic!("the caller waits"),
        }
    }
    // Four hundred draws from five numbers do not all come out alike.
    assert!(drawn.iter().any(|n| *n != drawn[0]));
}

#[test]
fn the_pool_stays_well_formed() {
    let mut pool = SessionManager::mock();
    assert!(pool.is_well_formed());
    for i in 0..45 {
        get_key(&mut pool, &format!("S{}", i)).unwrap();
        assert!(pool.is_well_formed());
    }
    assert!(get_key(&mut pool, "late").is_err());
    assert!(pool.is_well_formed());
    pool.replace_session(String::from("S1"));
    pool.remove_invalid_session(String::from("S2"));
    assert!(pool.is_well_formed());
    pool.store();
    assert!(pool.is_well_formed());
}

#[test]
fn expiry_predicate() {
    let now: i64 = 1565395200;
    assert!(Session::new(String::from("K"), now - 899).is_valid(now));
    assert!(!Session::new(String::from("K"), now - 901).is_valid(now));
    assert!(!Session::new(String::from("K"), now - 900).is_valid(now));
    assert!(Session::new(String::from("K"), now).is_valid(now));
    assert!(Session::new(String::from("K"), now + 10).is_valid(now));
}

#[test]
fn expiry_predicate_at_the_ends_of_the_range() {
    assert!(!Session::new(String::from("K"), i64::MIN).is_valid(i64::MAX));
    assert!(Session::new(String::from("K"), i64::MAX).is_valid(i64::MIN));
}

#[test]
fn credentials_are_the_first_two_lines() {
    let auth = Auth::from_file("1004\nFA34BC01\n").unwrap();
    assert_eq!(auth.dev_id, "1004");
    assert_eq!(auth.dev_key, "FA34BC01");
    let auth = Auth::from_file("id\nkey").unwrap();
    assert_eq!(auth.dev_id, "id");
    assert_eq!(auth.dev_key, "key");
    let auth = Auth::from_file("id\nkey\nmore\nlines").unwrap();
    assert_eq!(auth.dev_key, "key");
    let auth = Auth::from_file("\n").unwrap();
    assert_eq!(auth.dev_id, "");
    assert_eq!(auth.dev_key, "");
}

#[test]
fn one_line_holds_no_credentials() {
    assert!(Auth::from_file("").is_none());
    assert!(Auth::from_file("only-an-id").is_none());
}

#[test]
fn store_writes_active_sessions_backwards_then_idle_ones() {
    let mut pool = SessionManager::mock();
    pool.create_session_at(approved("A"), 10).unwrap();
    pool.create_session_at(approved("B"), 20).unwrap();
    pool.create_session_at(approved("C"), -30).unwrap();
    pool.create_session_at(approved("D"), 40).unwrap();
    pool.replace_session(String::from("B"));
    pool.replace_session(String::from("A"));
    assert_eq!(pool.store(), "D 40\nC -30\nB 20\nA 10\n");
    assert_eq!(counts(&pool), (4, 4, 0, 0));
    assert_eq!(pool.store(), "");
}

#[test]
fn load_reads_records_and_skips_other_lines() {
    let loaded = SessionManager::load("A 10\n\nnospace\nB -20 trailing\n +5\n").unwrap();
    let read: Vec<(String, i64)> =
        loaded.iter().map(|s| (s.session_key().clone(), s.creation_timestamp())).collect();
    assert_eq!(
        read,
        vec![(String::from("A"), 10), (String::from("B"), -20), (String::new(), 5)]
    );
}

#[test]
fn load_reads_nothing_from_an_empty_file() {
    assert_eq!(SessionManager::load("").unwrap().len(), 0);
    assert_eq!(SessionManager::load("\n\n").unwrap().len(), 0);
}

#[test]
fn load_refuses_a_record_without_a_number() {
    assert!(SessionManager::load("A 10\nB soon\n").is_none());
    assert!(SessionManager::load("A  10\n").is_none());
    assert!(SessionManager::load("A ").is_none());
    assert!(SessionManager::load(" C\n").is_none());
    assert!(SessionManager::load("A 99999999999999999999\n").is_none());
}

#[test]
fn load_undoes_store() {
    let mut pool = SessionManager::mock();
    pool.create_session_at(approved("A"), 1565395200).unwrap();
    pool.create_session_at(approved("B"), 1565395300).unwrap();
    pool.replace_session(String::from("A"));
    let contents = pool.store();
    assert_eq!(contents, "B 1565395300\nA 1565395200\n");
    let loaded = SessionManager::load(&contents).unwrap();
    assert_eq!(loaded.len(), 2);
    assert_eq!(loaded[0].session_key(), "B");
    assert_eq!(loaded[0].creation_timestamp(), 1565395300);
    assert_eq!(loaded[1].session_key(), "A");
    assert_eq!(loaded[1].creation_timestamp(), 1565395200);
}

#[test]
fn a_restored_pool_counts_the_sessions_of_the_last_day() {
    let now: i64 = 1565395200;
    let mut sessions = VecDeque::new();
    sessions.push_back(Session::new(String::from("old"), now - 86400));
    sessions.push_back(Session::new(String::from("young"), now - 86399));
    sessions.push_back(Session::new(String::from("new"), now));
    sessions.push_back(Session::new(String::from("older"), now - 200000));
    let mut pool = SessionManager::restored(auth(), UrlConstants::UrlBase, sessions, now);
    assert_eq!(counts(&pool), (2, 4, 0, 4));
    assert_eq!(pool.num_requests(), 0);
    assert_eq!(pool.credentials().dev_id, "id");
    assert_eq!(pool.credentials().dev_key, "key");
    match pool.get_session_key() {
        SessionGrant::Lent(key) => assert_eq!(key, "old"),
        _ => panic!("the first session of the file is lent first"),
    }
}

#[test]
fn a_pool_restored_now_counts_young_sessions() {
    let now = std::time::SystemTime::now()
        .duration_since(std::time::UNIX_EPOCH)
        .unwrap()
        .as_secs() as i64;
    let mut sessions = VecDeque::new();
    sessions.push_back(Session::new(String::from("young"), now - 100));
    sessions.push_back(Session::new(String::from("old"), now - 90000));
    let pool = SessionManager::new(auth(), UrlConstants::UrlBase, sessions);
    assert_eq!(counts(&pool), (1, 2, 0, 2));
}

#[test]
fn a_full_restored_pool_creates_no_session() {
    let mut sessions = VecDeque::new();
    for i in 0..45 {
        sessions.push_back(Session::new(format!("S{}", i), 0));
    }
    let mut pool = SessionManager::restored(auth(), UrlConstants::UrlBase, sessions, 1565395200);
    assert_eq!(counts(&pool), (0, 45, 0, 45));
    for _ in 0..45 {
        assert!(matches!(pool.get_session_key(), SessionGrant::Lent(_)));
    }
    match pool.get_session_key() {
        SessionGrant::Refused(message) => assert_eq!(message, "No sessions available"),
        _ => panic!("the ceiling on concurrent sessions refuses"),
    }
}

#[test]
fn the_session_url_is_signed_with_the_pool_s_credentials() {
    let pool = SessionManager::mock();
    let url = pool.create_session_url();
    let prefix = "https://api.smitegame.com/smiteapi.svc/createsessionjson/dummy/";
    assert!(url.starts_with(prefix));
    let rest: Vec<&str> = url[prefix.len()..].split('/').collect();
    assert_eq!(rest.len(), 2);
    assert_eq!(
        rest[0],
        hirust::url_builder::build_signature("dummy", &UrlConstants::CreateSession, "creds", rest[1])
    );
}

#[test]
fn keys_stay_in_one_place() {
    let mut pool = SessionManager::mock();
    let keys = ["A", "B", "C", "D", "E"];
    for key in keys {
        get_key(&mut pool, key).unwrap();
    }
    pool.replace_session(String::from("C"));
    pool.replace_session(String::from("A"));
    pool.remove_invalid_session(String::from("D"));
    let lent = get_key(&mut pool, "unused").unwrap();
    assert_eq!(lent, "C");
    let contents = pool.store();
    let mut stored: Vec<&str> =
        contents.lines().map(|line| line.split(' ').next().unwrap()).collect();
    assert_eq!(stored, vec!["C", "E", "B", "A"]);
    stored.sort();
    stored.dedup();
    assert_eq!(stored.len(), 4);
}

#[test]
fn a_refusal_is_decided_with_the_nanoseconds_given() {
    assert_eq!(JITTER_NANOSECONDS, 5);
    for jitter in 0..JITTER_NANOSECONDS {
        match wait_or_fail(String::from("No sessions available"), jitter) {
            KeyStep::Wait { seconds, nanoseconds } => {
                assert_eq!(seconds, 1);
                assert_eq!(nanoseconds, jitter);
            }
            _ => panic!("the caller waits"),
        }
    }
    match wait_or_fail(String::from("Maximum number of sessions per day reached"), 3) {
        KeyStep::Failed(message) => assert_eq!(message, "Maximum number of sessions per day reached"),
        _ => panic!("the refusal is final"),
    }
}
