//! Sliding window counter: the fixed window counter, refined by carrying the
//! count of the window before and weighting it by the share of the current
//! minute that is still to come, taken from the seconds elapsed. It
//! approximates a window that slides with the clock, in constant space per
//! client.

use vstd::prelude::*;
use vstd::hash_map::StringHashMap;
use crate::clock::Timestamp;
use crate::clock::now;
use crate::domain::entry_of;
use crate::domain::Limiter;
use crate::domain::RateLimitError;
use crate::window_counter::incremented;

verus! {

/// The load a client may put on the limiter: the estimated number of requests
/// within the sliding window.
pub const MAX_REQUESTS_PER_WINDOW: u64 = 10;

/// What the limiter remembers of one client.
#[derive(Clone, Copy, Debug, PartialEq, Eq, Structural)]
pub struct Info {
    /// The requests counted in the current window.
    pub current_window: u64,
    /// The count that the window before ended with.
    pub previous_window: u64,
    /// The instant of the client's last request.
    pub timestamp: Timestamp,
}

/// The entry of a client after a request at `now`. Within the minute of its
/// last request the current window gains one; in any other minute the current
/// count becomes the previous one and a new window opens with this request.
/// A client seen for the first time has this request in its current window and
/// nothing in the one before.
pub open spec fn counted(entry: Option<Info>, now: Timestamp) -> Info {
    match entry {
        Some(info) => if info.timestamp.minute() == now.minute() {
            Info {
                current_window: incremented(info.current_window),
                previous_window: info.previous_window,
                timestamp: now,
            }
        } else {
            Info { current_window: 1, previous_window: info.current_window, timestamp: now }
        },
        None => Info { current_window: 1, previous_window: 0, timestamp: now },
    }
}

/// The weight of the previous window at the instant `at`, in sixtieths: the
/// seconds of the current minute that are still to come.
pub open spec fn weight_sixtieths(at: Timestamp) -> int {
    60 - at.second()
}

/// Sixty times the estimated load of a client: the previous count taken by
/// its weight, and the current count in full.
pub open spec fn load_sixtieths(info: Info) -> int {
    info.previous_window * weight_sixtieths(info.timestamp) + info.current_window * 60
}

/// Whether a client with this entry is within its budget: its estimated load
/// does not exceed the limit.
pub open spec fn within_limit(info: Info) -> bool {
    load_sixtieths(info) <= MAX_REQUESTS_PER_WINDOW * 60
}

/// The limiter's entries after a request of `client` at `now`.
pub open spec fn after_request(
    entries: Map<Seq<char>, Info>,
    client: Seq<char>,
    now: Timestamp,
) -> Map<Seq<char>, Info> {
    entries.insert(client, counted(entry_of(entries, client), now))
}

/// Whether a request of `client` at `now` is admitted.
pub open spec fn admits(entries: Map<Seq<char>, Info>, client: Seq<char>, now: Timestamp) -> bool {
    within_limit(counted(entry_of(entries, client), now))
}

impl Info {
    /// The entry of a client whose first request comes at `now`.
    pub fn new(now: Timestamp) -> (info: Info)
        ensures
            info == (Info { current_window: 1, previous_window: 0, timestamp: now }),
    {
        Info { current_window: 1, previous_window: 0, timestamp: now }
    }

    /// Decides whether the estimated load of this entry is within the limit.
    pub fn is_within_limit(&self) -> (r: bool)
        ensures
            r == within_limit(*self),
    {
        let weight: u128 = (60 - self.timestamp.second_of_minute()) as u128;
        let previous: u128 = self.previous_window as u128;
        let current: u128 = self.current_window as u128;
        assert(previous * weight <= 0xffff_ffff_ffff_ffff * 60) by (nonlinear_arith)
            requires
                previous <= 0xffff_ffff_ffff_ffff,
                weight <= 60,
        ;
        previous * weight + current * 60 <= (MAX_REQUESTS_PER_WINDOW as u128) * 60
    }
}

/// Sliding window counter over all clients.
pub struct SlidingWindowCounter {
    counter: StringHashMap<Info>,
}

impl View for SlidingWindowCounter {
    type V = Map<Seq<char>, Info>;

    closed spec fn view(&self) -> Map<Seq<char>, Info> {
        self.counter@
    }
}

impl SlidingWindowCounter {
    /// A limiter that has seen no client.
    pub fn new() -> (limiter: SlidingWindowCounter)
        ensures
            limiter@ == Map::<Seq<char>, Info>::empty(),
    {
        SlidingWindowCounter { counter: StringHashMap::new() }
    }

    /// Counts a request of `ip` at `now` and hands back the client's entry.
    fn increase_counter(&mut self, ip: String, now: Timestamp) -> (entry: Info)
        ensures
            final(self)@ == after_request(old(self)@, ip@, now),
            entry == counted(entry_of(old(self)@, ip@), now),
    {
        let entry = match self.counter.get(ip.as_str()) {
            Some(value) => {
                if value.timestamp.minute_index() == now.minute_index() {
                    Info {
                        current_window: value.current_window.saturating_add(1),
                        previous_window: value.previous_window,
                        timestamp: now,
                    }
                } else {
                    Info {
                        current_window: 1,
                        previous_window: value.current_window,
                        timestamp: now,
                    }
                }
            },
            None => Info::new(now),
        };
        self.counter.insert(ip, entry);
        entry
    }

    /// Accounts for a request of the client `ip` made at `now`, and decides on
    /// it: the request is admitted exactly if the client's estimated load,
    /// this request included, is within the limit.
    pub fn use_token_at(&mut self, ip: String, now: Timestamp) -> (r: Result<(), RateLimitError>)
        ensures
            final(self)@ == after_request(old(self)@, ip@, now),
            r == if admits(old(self)@, ip@, now) {
                Ok::<(), RateLimitError>(())
            } else {
                Err::<(), RateLimitError>(RateLimitError::LimitExceeded)
            },
    {
        let current_counter = self.increase_counter(ip, now);
        if !current_counter.is_within_limit() {
            return Err(RateLimitError::LimitExceeded);
        }
        Ok(())
    }

    /// The entry of `ip`, if the limiter has seen the client.
    pub fn info(&self, ip: &str) -> (entry: Option<Info>)
        ensures
            entry == entry_of(self@, ip@),
    {
        match self.counter.get(ip) {
            Some(info) => Some(*info),
            None => None,
        }
    }

    /// The number of clients the limiter has seen. No entry is ever removed.
    pub fn len(&self) -> (n: usize)
        ensures
            n == self@.len(),
    {
        self.counter.len()
    }
}

impl Limiter for SlidingWindowCounter {
    open spec fn wf(&self) -> bool {
        true
    }

    open spec fn request(&self, client: Seq<char>, after: &Self, admitted: bool) -> bool {
        exists|now: Timestamp|
            after@ == #[trigger] after_request(self@, client, now) && admitted == admits(
                self@,
                client,
                now,
            )
    }

    /// Reads the clock and accounts for a request of `ip` at that instant.
    fn use_token(&mut self, ip: String) -> (r: Result<(), RateLimitError>) {
        let current_date_time = now();
        self.use_token_at(ip, current_date_time)
    }
}

/// The weight of the previous window strictly decreases as the current minute
/// elapses, and with it the estimated load of a client whose previous window
/// was not empty.
pub proof fn lemma_weight_decays(earlier: Info, later: Info)
    requires
        earlier.timestamp.second() < later.timestamp.second(),
        earlier.previous_window == later.previous_window,
        earlier.current_window == later.current_window,
    ensures
        weight_sixtieths(earlier.timestamp) > weight_sixtieths(later.timestamp),
        earlier.previous_window > 0 ==> load_sixtieths(earlier) > load_sixtieths(later),
        load_sixtieths(earlier) >= load_sixtieths(later),
{
    let previous = earlier.previous_window as int;
    let high = weight_sixtieths(earlier.timestamp);
    let low = weight_sixtieths(later.timestamp);
    assert(previous > 0 ==> previous * high > previous * low) by (nonlinear_arith)
        requires
            high > low,
    ;
    assert(previous * high >= previous * low) by (nonlinear_arith)
        requires
            high > low,
            previous >= 0,
    ;
}

/// A request is rejected exactly if the weighted estimate exceeds the limit.
/// For a client that filled the previous window to the limit and makes its
/// first request of the new minute, that is during the first six seconds of
/// the minute.
pub proof fn lemma_rejected_after_full_window(info: Info, now: Timestamp)
    requires
        info.current_window == MAX_REQUESTS_PER_WINDOW,
        info.timestamp.minute() != now.minute(),
    ensures
        !within_limit(counted(Some(info), now)) <==> now.second() < 6,
{
    let entry = counted(Some(info), now);
    let weight = weight_sixtieths(now);
    assert(entry.previous_window * weight == 10 * weight) by (nonlinear_arith)
        requires
            entry.previous_window == 10,
    ;
}

/// A client that the limiter has not seen is admitted for as many requests
/// within its first minute as the limit allows, and for no more: nothing is
/// carried over from a window that it did not have.
pub proof fn lemma_new_client_within_limit(now: Timestamp, later: Timestamp)
    requires
        now.minute() == later.minute(),
    ensures
        within_limit(counted(None, now)),
        counted(None, now) == (Info { current_window: 1, previous_window: 0, timestamp: now }),
        forall|count: u64|
            within_limit(
                #[trigger] counted(
                    Some(Info { current_window: count, previous_window: 0, timestamp: now }),
                    later,
                ),
            ) <==> count < MAX_REQUESTS_PER_WINDOW,
{
    assert forall|count: u64|
        within_limit(
            #[trigger] counted(
                Some(Info { current_window: count, previous_window: 0, timestamp: now }),
                later,
            ),
        ) <==> count < MAX_REQUESTS_PER_WINDOW by {
        let entry = counted(
            Some(Info { current_window: count, previous_window: 0, timestamp: now }),
            later,
        );
        assert(entry.previous_window * weight_sixtieths(later) == 0) by (nonlinear_arith)
            requires
                entry.previous_window == 0,
        ;
    }
}

/// Requests of one client leave every other client as it was: its entry, the
/// decision on its next request, and the entries after both requests do not
/// depend on whether the first client's request was made.
pub proof fn lemma_clients_isolated(
    entries: Map<Seq<char>, Info>,
    a: Seq<char>,
    at_a: Timestamp,
    b: Seq<char>,
    at_b: Timestamp,
)
    requires
        a != b,
    ensures
        entry_of(after_request(entries, a, at_a), b) == entry_of(entries, b),
        admits(after_request(entries, a, at_a), b, at_b) == admits(entries, b, at_b),
        after_request(after_request(entries, a, at_a), b, at_b) == after_request(
            after_request(entries, b, at_b),
            a,
            at_a,
        ),
{
    assert(after_request(after_request(entries, a, at_a), b, at_b) =~= after_request(
        after_request(entries, b, at_b),
        a,
        at_a,
    ));
}

} // verus!
