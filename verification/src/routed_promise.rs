//! A promise that another thread answers, once.
use vstd::prelude::*;

verus! {

/// A promise that waits for its answer, with the lease that keeps its event loop from settling.
/// `P` stands for the promise, `L` for the lease.
#[derive(Debug)]
pub struct RoutedPromise<P, L> {
    pub promise: Option<P>,
    pub external_callback: Option<L>,
}

/// What an answer leads to.
#[derive(Debug, PartialEq, Eq)]
pub enum RoutedResponse<P, L, R> {
    /// A task is queued that hands the response to the promise. The lease is held until the task has
    /// been queued.
    Queue { promise: P, response: R, external_callback: Option<L> },
    /// The answer could not be received: the promise is dropped, and with it the lease.
    Failed { external_callback: Option<L> },
    /// The promise has had its answer.
    CalledTwice { external_callback: Option<L> },
}

impl<P, L> RoutedPromise<P, L> {
    /// A promise that waits.
    pub fn new(promise: P, external_callback: Option<L>) -> (routed: Self)
        ensures
            routed == (RoutedPromise { promise: Some(promise), external_callback }),
    {
        RoutedPromise { promise: Some(promise), external_callback }
    }

    /// What an answer leads to, and the promise afterwards.
    pub open spec fn answered<R, E>(self, message: Result<R, E>) -> (
        RoutedPromise<P, L>,
        RoutedResponse<P, L, R>,
    ) {
        (
            RoutedPromise { promise: None, external_callback: None },
            match self.promise {
                None => RoutedResponse::CalledTwice { external_callback: self.external_callback },
                Some(promise) => match message {
                    Ok(response) => RoutedResponse::Queue {
                        promise,
                        response,
                        external_callback: self.external_callback,
                    },
                    Err(_) => RoutedResponse::Failed { external_callback: self.external_callback },
                },
            },
        )
    }

    /// Takes an answer.
    pub fn callback_promise<R, E>(&mut self, message: Result<R, E>) -> (response: RoutedResponse<
        P,
        L,
        R,
    >)
        ensures
            (*final(self), response) == old(self).answered(message),
    {
        let external_callback = self.external_callback.take();
        match self.promise.take() {
            None => RoutedResponse::CalledTwice { external_callback },
            Some(promise) => match message {
                Ok(response) => RoutedResponse::Queue { promise, response, external_callback },
                Err(_) => RoutedResponse::Failed { external_callback },
            },
        }
    }
}

/// A promise is answered at most once: whatever comes first, what comes next finds neither promise
/// nor lease.
pub proof fn law_promise_is_answered_once<P, L, R, E>(
    routed: RoutedPromise<P, L>,
    first: Result<R, E>,
    second: Result<R, E>,
)
    ensures
        routed.answered(first).0.answered(second).1 == (RoutedResponse::<P, L, R>::CalledTwice {
            external_callback: None,
        }),
{
}

/// The first answer that can be received is handed to the promise, with the lease held until then;
/// one that cannot be received is not. The lease is given back in either case.
pub proof fn law_first_answer_reaches_the_promise<P, L, R, E>(
    promise: P,
    lease: Option<L>,
    message: Result<R, E>,
)
    ensures
        ({
            let routed = RoutedPromise { promise: Some(promise), external_callback: lease };
            let (after, response) = routed.answered(message);
            &&& after.promise is None && after.external_callback is None
            &&& message matches Ok(answer) ==> response == (RoutedResponse::Queue {
                promise,
                response: answer,
                external_callback: lease,
            })
            &&& message is Err ==> response == (RoutedResponse::<P, L, R>::Failed {
                external_callback: lease,
            })
        }),
{
}

} // verus!
