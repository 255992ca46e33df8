//! Asking Canvas: what is sent, and when it is sent again.

use vstd::arithmetic::power2::{lemma2_to64, lemma_pow2_unfold, pow2};
use vstd::prelude::*;

use crate::outside::{parse_url, random_below, url_parts};

verus! {

/// How often a request is sent at most.
pub const MAX_ATTEMPTS: u32 = 3;

/// The status of a request that is refused, also for coming too fast.
pub const FORBIDDEN: u16 = 403;

/// What to do after an attempt.
#[derive(Clone, Copy, Debug, PartialEq, Eq)]
pub enum Decision {
    /// Hand the response out.
    Return,
    /// Wait for less than this many milliseconds, then send the request again.
    RetryWithin(u64),
}

/// The bound on the wait after the attempt `retry`, in milliseconds: a second,
/// doubled with every attempt.
pub open spec fn wait_bound(retry: u32) -> nat {
    1000 * pow2(retry as nat)
}

/// Whether the response to the attempt `retry` is handed out: if it is not
/// forbidden, or if there is no attempt left.
pub open spec fn is_returned(retry: u32, status: u16) -> bool {
    status != FORBIDDEN || retry == MAX_ATTEMPTS - 1
}

/// What to do after the attempt `retry`, counted from zero.
pub open spec fn decision(retry: u32, status: u16) -> Decision {
    if is_returned(retry, status) {
        Decision::Return
    } else {
        Decision::RetryWithin(wait_bound(retry) as u64)
    }
}

/// A request that is being made.
#[derive(Debug, PartialEq, Eq)]
pub struct ApiCall {
    /// The address.
    pub url: String,
    /// The pairs that are added to the query of the address.
    pub query_pairs: Vec<(String, String)>,
    /// The number of attempts before this one.
    pub retry: u32,
}

/// What to do next about a request that is answered with `R` or fails with `E`.
#[derive(Debug, PartialEq, Eq)]
pub enum NextStep<R, E> {
    /// Hand the response out.
    Return(R),
    /// Hand the failure on.
    Fail(E),
    /// Wait this many milliseconds, then send the request again.
    Retry { wait: u64 },
}

/// What to do after the attempt `retry`.
pub fn decide(retry: u32, status: u16) -> (res: Decision)
    requires
        retry < MAX_ATTEMPTS,
    ensures
        res == decision(retry, status),
        res matches Decision::RetryWithin(bound) ==> bound == wait_bound(retry) && bound > 0,
{
    if status != FORBIDDEN || retry == MAX_ATTEMPTS - 1 {
        return Decision::Return;
    }
    let mut bound: u64 = 1000;
    let mut doubled: u32 = 0;
    proof {
        lemma2_to64();
    }
    while doubled < retry
        invariant
            doubled <= retry < MAX_ATTEMPTS,
            bound == 1000 * pow2(doubled as nat),
            bound <= 1000 * pow2(2),
            pow2(2) == 4,
        decreases retry - doubled,
    {
        proof {
            lemma_pow2_unfold((doubled + 1) as nat);
            lemma2_to64();
        }
        bound = bound * 2;
        doubled = doubled + 1;
    }
    Decision::RetryWithin(bound)
}

impl ApiCall {
    /// Whether there is an attempt left.
    pub open spec fn valid(&self) -> bool {
        self.retry < MAX_ATTEMPTS
    }

    /// Begins a request for `url`. The pairs of the query that the address has
    /// already are added to it once more. A text that is no address is refused
    /// with the reason.
    pub fn start(url: String) -> (res: Result<ApiCall, String>)
        ensures
            match res {
                Ok(call) => {
                    &&& url_parts(url@) matches Ok(parts)
                    &&& call.url@ == url@
                    &&& call.query_pairs.deep_view() == parts.1
                    &&& call.retry == 0
                    &&& call.valid()
                },
                Err(error) => url_parts(url@) matches Err(text) && error@ == text,
            },
    {
        match parse_url(url.as_str()) {
            Ok(parts) => Ok(ApiCall { url, query_pairs: parts.1, retry: 0 }),
            Err(error) => Err(error),
        }
    }

    /// Takes what came of this attempt: a response with its status, or the reason
    /// why the request could not be sent. A request that could not be sent is
    /// not sent again. If it is to be sent again, the wait is drawn at random.
    pub fn receive<R, E>(&mut self, outcome: Result<(u16, R), E>) -> (res: NextStep<R, E>)
        requires
            old(self).valid(),
        ensures
            final(self).valid(),
            match outcome {
                Err(error) => res == NextStep::<R, E>::Fail(error) && *final(self) == *old(self),
                Ok((status, resp)) => if is_returned(old(self).retry, status) {
                    res == NextStep::<R, E>::Return(resp) && *final(self) == *old(self)
                } else {
                    &&& res matches NextStep::Retry { wait }
                    &&& wait < wait_bound(old(self).retry)
                    &&& final(self).retry == old(self).retry + 1
                    &&& final(self).url == old(self).url
                    &&& final(self).query_pairs == old(self).query_pairs
                },
            },
    {
        match outcome {
            Err(error) => NextStep::Fail(error),
            Ok((status, resp)) => match decide(self.retry, status) {
                Decision::Return => NextStep::Return(resp),
                Decision::RetryWithin(bound) => {
                    let wait: u64 = random_below(bound);
                    self.retry = self.retry + 1;
                    NextStep::Retry { wait }
                },
            },
        }
    }
}

/// Whether the attempt `retry` is the last, if `outcome` came of it: the status of
/// a response, or `None` if the request could not be sent.
pub open spec fn is_settled(retry: u32, outcome: Option<u16>) -> bool {
    match outcome {
        Some(status) => is_returned(retry, status),
        None => true,
    }
}

/// Which of `outcomes` is handed out, if the first of them comes of the attempt
/// `retry`.
pub open spec fn handed_out(retry: u32, outcomes: Seq<Option<u16>>) -> int
    decreases MAX_ATTEMPTS - retry,
{
    if retry >= MAX_ATTEMPTS || is_settled(retry, outcomes[0]) {
        0
    } else {
        1 + handed_out((retry + 1) as u32, outcomes.skip(1))
    }
}

/// What is handed out is the first outcome that is a failure or a response that
/// is not forbidden, and the third if there is none before; there is no fourth
/// attempt.
pub proof fn law_first_settled_outcome(outcomes: Seq<Option<u16>>)
    requires
        outcomes.len() >= MAX_ATTEMPTS,
    ensures
        0 <= handed_out(0, outcomes) < MAX_ATTEMPTS,
        forall|k: int|
            0 <= k < handed_out(0, outcomes) ==> #[trigger] outcomes[k] == Some(FORBIDDEN),
        outcomes[handed_out(0, outcomes)] != Some(FORBIDDEN) || handed_out(0, outcomes)
            == MAX_ATTEMPTS - 1,
{
    reveal_with_fuel(handed_out, 4);
    assert(outcomes.skip(1)[0] == outcomes[1]);
    assert(outcomes.skip(1).skip(1)[0] == outcomes[2]);
}

/// The wait after the first attempt is below a second, and that after the second
/// below two: each attempt doubles it.
pub proof fn law_waits_double(retry: u32)
    requires
        retry < 1000,
    ensures
        wait_bound(0) == 1000,
        wait_bound((retry + 1) as u32) == 2 * wait_bound(retry),
{
    lemma2_to64();
    lemma_pow2_unfold((retry + 1) as nat);
}

/// Only a response with the status 403 is asked for again, and only after the
/// first and the second attempt.
pub proof fn law_only_forbidden_is_retried(retry: u32, status: u16)
    requires
        retry < 3,
    ensures
        status != 403 ==> decision(retry, status) == Decision::Return,
        status == 403 && retry == 0 ==> decision(retry, status) == Decision::RetryWithin(1000),
        status == 403 && retry == 1 ==> decision(retry, status) == Decision::RetryWithin(2000),
        retry == 2 ==> decision(retry, status) == Decision::Return,
        is_returned(retry, status) <==> status != 403 || retry == 2,
{
    lemma2_to64();
}

/// A failure to send settles a request at once, and so does every response but a
/// forbidden one before the third.
pub proof fn law_what_settles(retry: u32, outcome: Option<u16>)
    requires
        retry < 3,
    ensures
        is_settled(retry, outcome) <==> outcome != Some(403u16) || retry == 2,
{
}

} // verus!
