//! Fixed window counter: requests are counted per client within the
//! wall-clock minute that holds them, and the count starts afresh when the
//! minute changes.
//!
//! A reset forgets the minute before, so a client can be admitted for up to
//! twice the limit across a boundary. That is the defining weakness of the
//! algorithm.

use vstd::prelude::*;
use vstd::hash_map::StringHashMap;
use crate::clock::Timestamp;
use crate::clock::now;
use crate::domain::entry_of;
use crate::domain::Limiter;
use crate::domain::RateLimitError;

verus! {

/// The number of requests a client may make within one window.
pub const MAX_REQUESTS_PER_WINDOW: u64 = 10;

/// What the limiter remembers of one client.
#[derive(Clone, Copy, Debug, PartialEq, Eq, Structural)]
pub struct Info {
    /// The requests counted in the window, this one included.
    pub tokens: u64,
    /// The instant of the request that opened the window.
    pub timestamp: Timestamp,
}

/// The count after one more request. It stops at the largest value the
/// counter can hold, which lies far above the limit.
pub open spec fn incremented(count: u64) -> u64 {
    if count < u64::MAX {
        (count + 1) as u64
    } else {
        count
    }
}

/// The entry of a client after a request at `now`: one more in the window
/// being counted, or the first of a new window.
pub open spec fn counted(entry: Option<Info>, now: Timestamp) -> Info {
    match entry {
        Some(info) => if info.timestamp.minute() == now.minute() {
            Info { tokens: incremented(info.tokens), timestamp: info.timestamp }
        } else {
            Info { tokens: 1, timestamp: now }
        },
        None => Info { tokens: 1, timestamp: now },
    }
}

/// Whether a client with this entry is within its budget.
pub open spec fn within_limit(info: Info) -> bool {
    info.tokens <= MAX_REQUESTS_PER_WINDOW
}

/// The limiter's entries after a request of `client` at `now`.
pub open spec fn after_request(
    entries: Map<Seq<char>, Info>,
    client: Seq<char>,
    now: Timestamp,
) -> Map<Seq<char>, Info> {
    entries.insert(client, counted(entry_of(entries, client), now))
}

/// Whether a request of `client` at `now` is admitted.
pub open spec fn admits(entries: Map<Seq<char>, Info>, client: Seq<char>, now: Timestamp) -> bool {
    within_limit(counted(entry_of(entries, client), now))
}

/// The entry of a client after requests at each of `times`, in order.
pub open spec fn counted_all(entry: Option<Info>, times: Seq<Timestamp>) -> Option<Info>
    decreases times.len(),
{
    if times.len() == 0 {
        entry
    } else {
        Some(counted(counted_all(entry, times.drop_last()), times.last()))
    }
}

impl Info {
    /// The entry of a client whose first request comes at `now`.
    pub fn new(now: Timestamp) -> (info: Info)
        ensures
            info == (Info { tokens: 1, timestamp: now }),
    {
        Info { tokens: 1, timestamp: now }
    }
}

/// Fixed window counter over all clients.
pub struct WindowLimiter {
    counter: StringHashMap<Info>,
}

impl View for WindowLimiter {
    type V = Map<Seq<char>, Info>;

    closed spec fn view(&self) -> Map<Seq<char>, Info> {
        self.counter@
    }
}

impl WindowLimiter {
    /// A limiter that has seen no client.
    pub fn new() -> (limiter: WindowLimiter)
        ensures
            limiter@ == Map::<Seq<char>, Info>::empty(),
    {
        WindowLimiter { counter: StringHashMap::new() }
    }

    /// Counts a request of `ip` at `now` and hands back the client's entry.
    fn increase_counter(&mut self, ip: String, now: Timestamp) -> (entry: Info)
        ensures
            final(self)@ == after_request(old(self)@, ip@, now),
            entry == counted(entry_of(old(self)@, ip@), now),
    {
        let entry = match self.counter.get(ip.as_str()) {
            Some(value) => {
                if value.timestamp.minute_index() == now.minute_index() {
                    Info { tokens: value.tokens.saturating_add(1), timestamp: value.timestamp }
                } else {
                    Info::new(now)
                }
            },
            None => Info::new(now),
        };
        self.counter.insert(ip, entry);
        entry
    }

    /// Accounts for a request of the client `ip` made at `now`, and decides on
    /// it: the request is admitted exactly if the client's count, this request
    /// included, is within the limit.
    pub fn use_token_at(&mut self, ip: String, now: Timestamp) -> (r: Result<(), RateLimitError>)
        ensures
            final(self)@ == after_request(old(self)@, ip@, now),
            r == if admits(old(self)@, ip@, now) {
                Ok::<(), RateLimitError>(())
            } else {
                Err::<(), RateLimitError>(RateLimitError::LimitExceeded)
            },
    {
        let current_counter = self.increase_counter(ip, now);
        if current_counter.tokens > MAX_REQUESTS_PER_WINDOW {
            return Err(RateLimitError::LimitExceeded);
        }
        Ok(())
    }

    /// The number of requests counted for `ip` in its window, if the limiter
    /// has seen the client.
    pub fn tokens(&self, ip: &str) -> (n: Option<u64>)
        ensures
            n == match entry_of(self@, ip@) {
                Some(info) => Some(info.tokens),
                None => None::<u64>,
            },
    {
        match self.counter.get(ip) {
            Some(info) => Some(info.tokens),
            None => None,
        }
    }

    /// The number of clients the limiter has seen. No entry is ever removed.
    pub fn len(&self) -> (n: usize)
        ensures
            n == self@.len(),
    {
        self.counter.len()
    }
}

impl Limiter for WindowLimiter {
    open spec fn wf(&self) -> bool {
        true
    }

    open spec fn request(&self, client: Seq<char>, after: &Self, admitted: bool) -> bool {
        exists|now: Timestamp|
            after@ == #[trigger] after_request(self@, client, now) && admitted == admits(
                self@,
                client,
                now,
            )
    }

    /// Reads the clock and accounts for a request of `ip` at that instant.
    fn use_token(&mut self, ip: String) -> (r: Result<(), RateLimitError>) {
        let current_date_time = now();
        self.use_token_at(ip, current_date_time)
    }
}

/// Within a window the count is the number of requests made in it: after
/// `times`, all in the minute of `next` and none of them counted before, the
/// client's entry belongs to that minute and holds their number.
proof fn lemma_counts_requests(entry: Option<Info>, times: Seq<Timestamp>, next: Timestamp)
    requires
        times.len() > 0,
        forall|i: int| 0 <= i < times.len() ==> times[i].minute() == next.minute(),
        entry matches Some(info) ==> info.timestamp.minute() != next.minute(),
    ensures
        counted_all(entry, times) matches Some(info) && info.timestamp.minute() == next.minute()
            && info.tokens == if times.len() <= u64::MAX {
            times.len()
        } else {
            u64::MAX as nat
        },
    decreases times.len(),
{
    let earlier = times.drop_last();
    if earlier.len() > 0 {
        lemma_counts_requests(entry, earlier, next);
    } else {
        assert(counted_all(entry, earlier) == entry);
    }
    assert(times.last().minute() == next.minute());
}

/// A client that has made `times.len()` requests within one window has its
/// next request in that window rejected exactly if that number has reached the
/// limit.
pub proof fn lemma_rejected_from_limit(entry: Option<Info>, times: Seq<Timestamp>, next: Timestamp)
    requires
        forall|i: int| 0 <= i < times.len() ==> times[i].minute() == next.minute(),
        entry matches Some(info) ==> info.timestamp.minute() != next.minute(),
    ensures
        !within_limit(counted(counted_all(entry, times), next)) <==> times.len()
            >= MAX_REQUESTS_PER_WINDOW,
{
    if times.len() > 0 {
        lemma_counts_requests(entry, times, next);
    }
}

/// Once the minute has changed the count starts again: the request is the
/// first of its window and is admitted, whatever the count was before.
pub proof fn lemma_admitted_in_new_window(info: Info, now: Timestamp)
    requires
        info.timestamp.minute() != now.minute(),
    ensures
        counted(Some(info), now) == (Info { tokens: 1, timestamp: now }),
        within_limit(counted(Some(info), now)),
{
}

/// Requests of one client leave every other client as it was: its entry, the
/// decision on its next request, and the entries after both requests do not
/// depend on whether the first client's request was made.
pub proof fn lemma_clients_isolated(
    entries: Map<Seq<char>, Info>,
    a: Seq<char>,
    at_a: Timestamp,
    b: Seq<char>,
    at_b: Timestamp,
)
    requires
        a != b,
    ensures
        entry_of(after_request(entries, a, at_a), b) == entry_of(entries, b),
        admits(after_request(entries, a, at_a), b, at_b) == admits(entries, b, at_b),
        after_request(after_request(entries, a, at_a), b, at_b) == after_request(
            after_request(entries, b, at_b),
            a,
            at_a,
        ),
{
    assert(after_request(after_request(entries, a, at_a), b, at_b) =~= after_request(
        after_request(entries, b, at_b),
        a,
        at_a,
    ));
}

} // verus!
