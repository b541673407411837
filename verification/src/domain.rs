//! The capability that every limiter offers, and the decision a caller takes
//! from it.

use vstd::prelude::*;

verus! {

/// Why a request was not admitted. There is a single cause: the client has
/// used up its budget.
#[derive(Clone, Copy, Debug, PartialEq, Eq, Structural)]
pub enum RateLimitError {
    LimitExceeded,
}

/// What a limiter holds for `client`, if it has seen the client. Clients are
/// told apart by their identifiers, character for character; the empty
/// identifier is a client like any other.
pub open spec fn entry_of<V>(entries: Map<Seq<char>, V>, client: Seq<char>) -> Option<V> {
    if entries.contains_key(client) {
        Some(entries[client])
    } else {
        None
    }
}

/// A per-client admission controller.
pub trait Limiter {
    /// The limiter's internal invariant. It holds of a limiter as its
    /// constructor hands it out, and every operation keeps it.
    spec fn wf(&self) -> bool;

    /// Whether one request of `client` can take the limiter from `self` to
    /// `after` with the given decision. For an algorithm that reads the clock
    /// this holds of the outcome at some instant; for one that does not, it
    /// fixes the outcome.
    spec fn request(&self, client: Seq<char>, after: &Self, admitted: bool) -> bool;

    /// Accounts for one request of the client `ip` and decides on it: `Ok` if
    /// the request is admitted, `LimitExceeded` if it is rejected.
    fn use_token(&mut self, ip: String) -> (r: Result<(), RateLimitError>)
        requires
            old(self).wf(),
        ensures
            final(self).wf(),
            old(self).request(ip@, final(self), r.is_ok()),
    ;
}

/// A background activity that can be told to end.
pub trait Stoppable {
    /// Whether the activity is still meant to run.
    spec fn running(&self) -> bool;

    /// Ends the activity.
    fn stop(&mut self)
        ensures
            !final(self).running(),
    ;
}

/// The answer given to the sender of a request.
#[derive(Clone, Copy, Debug, PartialEq, Eq, Structural)]
pub enum Reply {
    /// The request is within the client's budget.
    Admitted,
    /// The client has exceeded its budget.
    Rejected,
    /// The sender could not be identified, so no limiter was consulted.
    Unidentified,
}

impl Reply {
    /// The HTTP status code that carries this answer.
    pub open spec fn spec_status(self) -> u16 {
        match self {
            Reply::Admitted => 200,
            Reply::Rejected => 429,
            Reply::Unidentified => 418,
        }
    }

    /// Computes [`Reply::spec_status`].
    pub fn status(&self) -> (code: u16)
        ensures
            code == self.spec_status(),
    {
        match self {
            Reply::Admitted => 200,
            Reply::Rejected => 429,
            Reply::Unidentified => 418,
        }
    }

    /// The text sent along with the status code.
    pub fn body(&self) -> (text: &'static str)
        ensures
            text@ == match *self {
                Reply::Admitted => ""@,
                Reply::Rejected => "Too Many Request"@,
                Reply::Unidentified => "Unable to get the ip address"@,
            },
    {
        match self {
            Reply::Admitted => "",
            Reply::Rejected => "Too Many Request",
            Reply::Unidentified => "Unable to get the ip address",
        }
    }
}

/// Handles one inbound request: a sender without an identifier is answered
/// without touching the limiter; any other is put to the limiter, whose
/// decision becomes the answer.
pub fn respond<L: Limiter>(limiter: &mut L, client: Option<String>) -> (reply: Reply)
    requires
        old(limiter).wf(),
    ensures
        final(limiter).wf(),
        client is None ==> reply == Reply::Unidentified && *final(limiter) == *old(limiter),
        client matches Some(ip) ==> reply != Reply::Unidentified && old(limiter).request(
            ip@,
            final(limiter),
            reply == Reply::Admitted,
        ),
{
    match client {
        None => Reply::Unidentified,
        Some(ip) => match limiter.use_token(ip) {
            Ok(_) => Reply::Admitted,
            Err(_) => Reply::Rejected,
        },
    }
}

} // verus!
