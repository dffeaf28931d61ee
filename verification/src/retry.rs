//! How a Riot request is retried: a rate-limited reply waits and tries
//! again, any other failure gives up, and success reads the body.
use vstd::prelude::*;
use crate::text::{chars_of, parse_u64, parse_u64_spec};

verus! {

/// A request is tried at most this many times.
pub const MAX_TRIES: u32 = 3;

/// What a reply's status asks the retry loop to do.
pub enum Reply {
    /// Rate limited (429): wait and try again.
    RateLimited,
    /// Another non-success status: give up.
    Fail,
    /// Success (2xx): read the body.
    Success,
}

/// The retry decision for an HTTP status.
pub fn on_status(status: u16) -> (r: Reply)
    ensures
        status == 429 ==> r is RateLimited,
        status != 429 && 200 <= status <= 299 ==> r is Success,
        status != 429 && !(200 <= status <= 299) ==> r is Fail,
{
    if status == 429 {
        Reply::RateLimited
    } else if 200 <= status && status <= 299 {
        Reply::Success
    } else {
        Reply::Fail
    }
}

/// The seconds a rate limit asks for: the Retry-After header's number, or 5
/// when the header is missing or no number.
pub open spec fn retry_after_spec(header: Option<Seq<char>>) -> u64 {
    match header {
        Some(h) => match parse_u64_spec(h) {
            Some(n) => n,
            None => 5,
        },
        None => 5,
    }
}

pub fn retry_after(header: Option<&str>) -> (r: u64)
    ensures
        r == retry_after_spec(
            match header {
                Some(h) => Some(h@),
                None => None,
            },
        ),
{
    match header {
        Some(h) => match parse_u64(&chars_of(h)) {
            Some(n) => n,
            None => 5,
        },
        None => 5,
    }
}


/// What the retry loop does with a reply.
pub enum RetryAction {
    /// Rate limited: sleep `secs`, then try again when `again`, else give up.
    Wait { secs: u64, again: bool },
    /// Success: read the body.
    Read,
    /// Another failure status: give up.
    GiveUp,
}

/// The retry loop's step for a reply, after `tries_done` earlier tries. A
/// rate limit sleeps the seconds it asks for plus one, and a fresh try
/// follows while fewer than three have been made; success reads the body;
/// any other status gives up.
pub fn retry_step(tries_done: u32, status: u16, retry_after: Option<&str>) -> (a: RetryAction)
    requires
        status == 429 ==> retry_after_spec(
            match retry_after {
                Some(h) => Some(h@),
                None => None,
            },
        ) < u64::MAX,
    ensures
        status == 429 ==> a == (RetryAction::Wait {
            secs: (retry_after_spec(
                match retry_after {
                    Some(h) => Some(h@),
                    None => None,
                },
            ) + 1) as u64,
            again: tries_done + 1 < MAX_TRIES,
        }),
        status != 429 && 200 <= status <= 299 ==> a is Read,
        status != 429 && !(200 <= status <= 299) ==> a is GiveUp,
{
    match on_status(status) {
        Reply::RateLimited => {
            let secs = self::retry_after(retry_after);
            RetryAction::Wait { secs: secs + 1, again: tries_done < MAX_TRIES - 1 }
        },
        Reply::Success => RetryAction::Read,
        Reply::Fail => RetryAction::GiveUp,
    }
}

} // verus!
