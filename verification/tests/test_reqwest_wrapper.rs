use hirust::reqwest_wrapper::{Attempt, FetchStep, ReqwestWrapper, TRIES};

fn done(step: FetchStep) -> Result<String, String> {
    match step {
        FetchStep::Done(result) => result,
        FetchStep::Retry => panic!("the request is not over"),
    }
}

#[test]
fn three_tries() {
    assert_eq!(TRIES, 3);
}

#[test]
fn three_tries_fail_reqwest() {
    let mut wrapper = ReqwestWrapper::new();
    assert!(matches!(wrapper.record(Attempt::RequestFailed(String::from("Failure"))), FetchStep::Retry));
    assert!(matches!(wrapper.record(Attempt::RequestFailed(String::from("Failure"))), FetchStep::Retry));
    let results = done(wrapper.record(Attempt::RequestFailed(String::from("Failure"))));
    let failure_string =
        "Error requesting url: Failure | Error requesting url: Failure | Error requesting url: Failure";
    assert_eq!(results, Err(String::from(failure_string)));
}

#[test]
fn three_tries_fail_response_text() {
    let mut wrapper = ReqwestWrapper::new();
    assert!(matches!(wrapper.record(Attempt::DecodeFailed(String::from("Failure"))), FetchStep::Retry));
    assert!(matches!(wrapper.record(Attempt::DecodeFailed(String::from("Failure"))), FetchStep::Retry));
    let results = done(wrapper.record(Attempt::DecodeFailed(String::from("Failure"))));
    let failure_string = "Error decoding response: Failure | Error decoding response: Failure | Error decoding response: Failure";
    assert_eq!(results, Err(String::from(failure_string)));
}

#[test]
fn failures_are_quoted_in_their_order() {
    let mut wrapper = ReqwestWrapper::new();
    wrapper.record(Attempt::RequestFailed(String::from("refused")));
    assert_eq!(wrapper.failures(), 1);
    wrapper.record(Attempt::DecodeFailed(String::from("bad utf-8")));
    assert_eq!(wrapper.failures(), 2);
    let results = done(wrapper.record(Attempt::RequestFailed(String::from("timed out"))));
    assert_eq!(
        results,
        Err(String::from(
            "Error requesting url: refused | Error decoding response: bad utf-8 | Error requesting url: timed out"
        ))
    );
}

#[test]
fn the_first_body_ends_the_request() {
    let mut wrapper = ReqwestWrapper::new();
    assert_eq!(done(wrapper.record(Attempt::Body(String::from("[]")))), Ok(String::from("[]")));
    assert_eq!(wrapper.failures(), 0);
}

#[test]
fn a_body_after_failures_ends_the_request() {
    let mut wrapper = ReqwestWrapper::new();
    wrapper.record(Attempt::RequestFailed(String::from("refused")));
    wrapper.record(Attempt::DecodeFailed(String::from("bad utf-8")));
    assert_eq!(
        done(wrapper.record(Attempt::Body(String::from("{\"ok\": true}")))),
        Ok(String::from("{\"ok\": true}"))
    );
}

#[test]
fn the_body_is_not_looked_at() {
    let mut wrapper = ReqwestWrapper::new();
    let body = "{\"ret_msg\": \"Invalid session id.\"}";
    assert_eq!(done(wrapper.record(Attempt::Body(String::from(body)))), Ok(String::from(body)));
    assert_eq!(done(wrapper.record(Attempt::Body(String::new()))), Ok(String::new()));
}

#[test]
fn nothing_is_remembered_of_a_request_that_is_over() {
    let mut wrapper = ReqwestWrapper::new();
    wrapper.record(Attempt::RequestFailed(String::from("a")));
    wrapper.record(Attempt::RequestFailed(String::from("b")));
    assert!(done(wrapper.record(Attempt::RequestFailed(String::from("c")))).is_err());
    assert_eq!(wrapper.failures(), 0);
    assert!(matches!(wrapper.record(Attempt::RequestFailed(String::from("d"))), FetchStep::Retry));
    assert_eq!(done(wrapper.record(Attempt::Body(String::from("x")))), Ok(String::from("x")));
    assert_eq!(wrapper.failures(), 0);
    wrapper.record(Attempt::RequestFailed(String::from("e")));
    wrapper.record(Attempt::RequestFailed(String::from("f")));
    assert_eq!(
        done(wrapper.record(Attempt::RequestFailed(String::from("g")))),
        Err(String::from("Error requesting url: e | Error requesting url: f | Error requesting url: g"))
    );
}
