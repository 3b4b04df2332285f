//! The retries of one HTTP GET: a request is tried up to three times, the
//! first body that comes back is the result, and three failures make one
//! failure that quotes them all.
//!
//! The library makes no request. The caller tries, reports what came of the
//! attempt, and is told whether to try again.

use crate::text::{join, texts};
use vstd::prelude::*;

verus! {

/// The number of times that a request is tried.
pub const TRIES: usize = 3;

/// What came of one attempt.
pub enum Attempt {
    /// The body of the response, as text.
    Body(String),
    /// The request failed; the message is the transport's.
    RequestFailed(String),
    /// A response came but its body could not be read as text; the message
    /// is the transport's.
    DecodeFailed(String),
}

/// What the caller does after an attempt.
pub enum FetchStep {
    /// Try again.
    Retry,
    /// The result of the request: the body, or the messages of the failed
    /// attempts.
    Done(Result<String, String>),
}

/// The message that records a failed attempt.
pub open spec fn failure_message(attempt: Attempt) -> Seq<char>
    recommends
        !(attempt is Body),
{
    match attempt {
        Attempt::Body(_) => Seq::empty(),
        Attempt::RequestFailed(message) => "Error requesting url: "@ + message@,
        Attempt::DecodeFailed(message) => "Error decoding response: "@ + message@,
    }
}

/// The failure of a request: the messages of its attempts, parted by bars.
pub open spec fn failure_report(messages: Seq<Seq<char>>) -> Seq<char> {
    join(messages, " | "@)
}

/// What becomes of a request when one more attempt is reported, the
/// failures before it being `failures`: the failures to remember, and the
/// result if the request is over.
pub open spec fn spec_record(failures: Seq<Seq<char>>, attempt: Attempt) -> (
    Seq<Seq<char>>,
    Option<Result<Seq<char>, Seq<char>>>,
) {
    match attempt {
        Attempt::Body(body) => (Seq::empty(), Some(Ok(body@))),
        _ => {
            let failed = failures.push(failure_message(attempt));
            if failed.len() >= TRIES {
                (Seq::empty(), Some(Err(failure_report(failed))))
            } else {
                (failed, None)
            }
        },
    }
}

/// A request is over with its first body or with its third failure, and
/// not before: from a fresh start, an attempt that fails calls for the next
/// one twice, and the third attempt ends the request whatever came of it,
/// with the body or with the three messages in their order.
pub proof fn lemma_three_tries(first: Attempt, second: Attempt, third: Attempt)
    ensures
        ({
            let after_first = spec_record(Seq::empty(), first);
            let after_second = spec_record(after_first.0, second);
            let after_third = spec_record(after_second.0, third);
            &&& first is Body ==> after_first.1 == Some(
                Ok::<Seq<char>, Seq<char>>(first->Body_0@),
            )
            &&& !(first is Body) ==> after_first.1 is None
            &&& !(first is Body) && second is Body ==> after_second.1 == Some(
                Ok::<Seq<char>, Seq<char>>(second->Body_0@),
            )
            &&& !(first is Body) && !(second is Body) ==> after_second.1 is None
            &&& !(first is Body) && !(second is Body) && third is Body ==> after_third.1
                == Some(Ok::<Seq<char>, Seq<char>>(third->Body_0@))
            &&& !(first is Body) && !(second is Body) && !(third is Body) ==> after_third.1
                == Some(
                Err::<Seq<char>, Seq<char>>(
                    failure_message(first) + " | "@ + failure_message(second) + " | "@
                        + failure_message(third),
                ),
            )
            &&& after_first.1 is Some ==> after_first.0.len() == 0
            &&& after_second.1 is Some ==> after_second.0.len() == 0
            &&& after_third.1 is Some ==> after_third.0.len() == 0
        }),
{
    let none = Seq::<Seq<char>>::empty();
    if !(first is Body) && !(second is Body) && !(third is Body) {
        let one = none.push(failure_message(first));
        let two = one.push(failure_message(second));
        let three = two.push(failure_message(third));
        assert(three.drop_last() =~= two);
        assert(two.drop_last() =~= one);
        assert(join(one, " | "@) == failure_message(first));
        assert(join(two, " | "@) == failure_message(first) + " | "@ + failure_message(second));
    }
}

/// Whether `step` says what `expected` says.
pub open spec fn tells(step: FetchStep, expected: Option<Result<Seq<char>, Seq<char>>>) -> bool {
    match step {
        FetchStep::Retry => expected is None,
        FetchStep::Done(Ok(body)) => expected == Some(Ok::<Seq<char>, Seq<char>>(body@)),
        FetchStep::Done(Err(message)) => expected == Some(Err::<Seq<char>, Seq<char>>(message@)),
    }
}

/// The failed attempts of the request that is under way.
pub struct ReqwestWrapper {
    error_messages: Vec<String>,
}

impl View for ReqwestWrapper {
    type V = Seq<Seq<char>>;

    closed spec fn view(&self) -> Seq<Seq<char>> {
        texts(self.error_messages@)
    }
}

impl ReqwestWrapper {
    /// Fewer attempts have failed than a request is given.
    pub open spec fn wf(&self) -> bool {
        self@.len() < TRIES
    }

    /// No request is under way.
    pub fn new() -> (wrapper: ReqwestWrapper)
        ensures
            wrapper@ == Seq::<Seq<char>>::empty(),
            wrapper.wf(),
    {
        let wrapper = ReqwestWrapper { error_messages: Vec::new() };
        assert(wrapper@ =~= Seq::empty());
        wrapper
    }

    /// The number of attempts of the request under way that have failed.
    pub fn failures(&self) -> (count: usize)
        ensures
            count == self@.len(),
    {
        self.error_messages.len()
    }

    fn report(&self) -> (text: String)
        ensures
            text@ == failure_report(self@),
    {
        let mut text = String::new();
        let mut i: usize = 0;
        while i < self.error_messages.len()
            invariant
                i <= self.error_messages@.len(),
                text@ == failure_report(self@.take(i as int)),
            decreases self.error_messages@.len() - i,
        {
            let ghost before = self@.take(i as int);
            let ghost after = self@.take(i + 1);
            proof {
                assert(after.drop_last() =~= before);
                assert(after.last() == self.error_messages@[i as int]@);
            }
            if i > 0 {
                text.append(" | ");
            }
            text.append(self.error_messages[i].as_str());
            proof {
                assert(text@ =~= failure_report(after));
            }
            i = i + 1;
        }
        assert(self@.take(i as int) =~= self@);
        text
    }

    /// Takes what came of an attempt. A body ends the request with that
    /// body. A failure is remembered with a word on where it happened; the
    /// third failure ends the request with all three messages, parted by
    /// bars, and before that the caller is to try again. When a request
    /// ends, nothing of it is remembered.
    pub fn record(&mut self, attempt: Attempt) -> (step: FetchStep)
        requires
            old(self).wf(),
        ensures
            final(self).wf(),
            final(self)@ == spec_record(old(self)@, attempt).0,
            tells(step, spec_record(old(self)@, attempt).1),
    {
        let message: String = match attempt {
            Attempt::Body(body) => {
                self.error_messages = Vec::new();
                assert(self@ =~= Seq::empty());
                return FetchStep::Done(Ok(body));
            },
            Attempt::RequestFailed(message) => {
                let mut text: String = "Error requesting url: ".to_owned();
                text.append(message.as_str());
                text
            },
            Attempt::DecodeFailed(message) => {
                let mut text: String = "Error decoding response: ".to_owned();
                text.append(message.as_str());
                text
            },
        };
        self.error_messages.push(message);
        assert(self@ =~= old(self)@.push(failure_message(attempt)));
        if self.error_messages.len() >= TRIES {
            let text = self.report();
            self.error_messages = Vec::new();
            assert(self@ =~= Seq::empty());
            FetchStep::Done(Err(text))
        } else {
            FetchStep::Retry
        }
    }
}

} // verus!
