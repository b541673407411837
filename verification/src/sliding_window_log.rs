//! Sliding window log: the instants of a client's admitted requests are kept,
//! and a request is admitted while fewer than the limit of them lie within the
//! window that ends now. The count is exact; the price is memory in
//! proportion to the limit, and a prune that walks the log.

use vstd::prelude::*;
use vstd::hash_map::StringHashMap;
use crate::clock::Timestamp;
use crate::clock::now;
use crate::domain::Limiter;
use crate::domain::RateLimitError;

verus! {

/// The number of requests a client may make within one window.
pub const MAX_REQUESTS_PER_SLIDING_WINDOW_LOG: usize = 10;

/// The length of the window, in microseconds.
pub const THRESHOLD_IN_MICROS: i64 = 60 * 1000 * 1000;

/// Whether a request logged at `stamp` still lies within the window that ends
/// at `now`. One that is exactly a window old does not.
pub open spec fn is_recent(stamp: i64, now: Timestamp) -> bool {
    now.micros - THRESHOLD_IN_MICROS < stamp
}

/// What is left of a log once the stamps that have aged out of the window are
/// removed. The order of the others is kept.
pub open spec fn retained(log: Seq<i64>, now: Timestamp) -> Seq<i64> {
    log.filter(|stamp: i64| is_recent(stamp, now))
}

/// The log of `client`; empty if the limiter has not seen it.
pub open spec fn log_of(entries: Map<Seq<char>, Seq<i64>>, client: Seq<char>) -> Seq<i64> {
    if entries.contains_key(client) {
        entries[client]
    } else {
        Seq::empty()
    }
}

/// Whether a request at `now` of a client with this log is admitted: fewer
/// than the limit of its logged requests are still within the window.
pub open spec fn has_room(log: Seq<i64>, now: Timestamp) -> bool {
    retained(log, now).len() < MAX_REQUESTS_PER_SLIDING_WINDOW_LOG
}

/// The log of a client after a request at `now`: pruned, and with the instant
/// of the request appended if it is admitted.
pub open spec fn logged(log: Seq<i64>, now: Timestamp) -> Seq<i64> {
    if has_room(log, now) {
        retained(log, now).push(now.micros)
    } else {
        retained(log, now)
    }
}

/// The limiter's logs after a request of `client` at `now`.
pub open spec fn after_request(
    entries: Map<Seq<char>, Seq<i64>>,
    client: Seq<char>,
    now: Timestamp,
) -> Map<Seq<char>, Seq<i64>> {
    entries.insert(client, logged(log_of(entries, client), now))
}

/// Whether a request of `client` at `now` is admitted.
pub open spec fn admits(
    entries: Map<Seq<char>, Seq<i64>>,
    client: Seq<char>,
    now: Timestamp,
) -> bool {
    has_room(log_of(entries, client), now)
}

/// No client's log is longer than the limit.
pub open spec fn bounded(entries: Map<Seq<char>, Seq<i64>>) -> bool {
    forall|client: Seq<char>| #[trigger]
        entries.contains_key(client) ==> entries[client].len()
            <= MAX_REQUESTS_PER_SLIDING_WINDOW_LOG
}

/// Whether the stamps of a log are in the order of time.
pub open spec fn chronological(log: Seq<i64>) -> bool {
    forall|i: int, j: int| 0 <= i <= j < log.len() ==> log[i] <= log[j]
}

/// The log of a client after requests at each of `times`, in order.
pub open spec fn logged_all(log: Seq<i64>, times: Seq<Timestamp>) -> Seq<i64>
    decreases times.len(),
{
    if times.len() == 0 {
        log
    } else {
        logged(logged_all(log, times.drop_last()), times.last())
    }
}

/// Pruning a log that ends with `stamp` prunes what comes before it and keeps
/// `stamp` exactly if it is recent.
proof fn lemma_retained_push(log: Seq<i64>, stamp: i64, now: Timestamp)
    ensures
        retained(log.push(stamp), now) == if is_recent(stamp, now) {
            retained(log, now).push(stamp)
        } else {
            retained(log, now)
        },
{
    reveal(Seq::filter);
    assert(log.push(stamp).drop_last() =~= log);
}

/// Nothing is left of an empty log.
proof fn lemma_retained_empty(now: Timestamp)
    ensures
        retained(Seq::<i64>::empty(), now) == Seq::<i64>::empty(),
{
    reveal(Seq::filter);
}

/// A log in which every stamp is recent is left as it is.
proof fn lemma_retained_all(log: Seq<i64>, now: Timestamp)
    requires
        forall|i: int| 0 <= i < log.len() ==> is_recent(#[trigger] log[i], now),
    ensures
        retained(log, now) == log,
    decreases log.len(),
{
    if log.len() == 0 {
        lemma_retained_empty(now);
        assert(log =~= Seq::<i64>::empty());
    } else {
        lemma_retained_all(log.drop_last(), now);
        lemma_retained_push(log.drop_last(), log.last(), now);
        assert(log.drop_last().push(log.last()) =~= log);
    }
}

/// A log that holds a stamp that is no longer recent gets shorter.
proof fn lemma_retained_drops(log: Seq<i64>, now: Timestamp, i: int)
    requires
        0 <= i < log.len(),
        !is_recent(log[i], now),
    ensures
        retained(log, now).len() < log.len(),
    decreases log.len(),
{
    let front = log.drop_last();
    lemma_retained_push(front, log.last(), now);
    assert(front.push(log.last()) =~= log);
    if i == log.len() - 1 {
        front.lemma_filter_len(|stamp: i64| is_recent(stamp, now));
    } else {
        lemma_retained_drops(front, now, i);
    }
}

/// Pruning keeps the order of time, and adds no stamp later than those there.
proof fn lemma_retained_in_order(log: Seq<i64>, now: Timestamp, latest: i64)
    requires
        chronological(log),
        forall|i: int| 0 <= i < log.len() ==> log[i] <= latest,
    ensures
        chronological(retained(log, now)),
        forall|i: int| 0 <= i < retained(log, now).len() ==> retained(log, now)[i] <= latest,
    decreases log.len(),
{
    if log.len() == 0 {
        lemma_retained_empty(now);
        assert(log =~= Seq::<i64>::empty());
    } else {
        let front = log.drop_last();
        lemma_retained_in_order(front, now, log.last());
        lemma_retained_push(front, log.last(), now);
        assert(front.push(log.last()) =~= log);
    }
}

/// Removes from `requests` the stamps that have aged out of the window that
/// ends at `now`.
fn prune(requests: &Vec<i64>, now: Timestamp) -> (kept: Vec<i64>)
    ensures
        kept@ == retained(requests@, now),
{
    let limit: i128 = now.micros as i128 - THRESHOLD_IN_MICROS as i128;
    let mut kept: Vec<i64> = Vec::new();
    let mut i: usize = 0;
    proof {
        lemma_retained_empty(now);
        assert(requests@.take(0) =~= Seq::<i64>::empty());
    }
    while i < requests.len()
        invariant
            i <= requests.len(),
            limit == now.micros - THRESHOLD_IN_MICROS,
            kept@ == retained(requests@.take(i as int), now),
        decreases requests.len() - i,
    {
        let stamp: i64 = requests[i];
        proof {
            lemma_retained_push(requests@.take(i as int), stamp, now);
            assert(requests@.take(i as int).push(stamp) =~= requests@.take(i + 1));
        }
        if limit < stamp as i128 {
            kept.push(stamp);
        }
        i += 1;
    }
    proof {
        assert(requests@.take(i as int) =~= requests@);
    }
    kept
}

/// Sliding window log over all clients.
pub struct SlidingWindowLog {
    counter: StringHashMap<Vec<i64>>,
}

impl View for SlidingWindowLog {
    type V = Map<Seq<char>, Seq<i64>>;

    closed spec fn view(&self) -> Map<Seq<char>, Seq<i64>> {
        Map::new(
            |client: Seq<char>| self.counter@.contains_key(client),
            |client: Seq<char>| self.counter@[client]@,
        )
    }
}

impl SlidingWindowLog {
    /// A limiter that has seen no client.
    pub fn new() -> (limiter: SlidingWindowLog)
        ensures
            limiter@ == Map::<Seq<char>, Seq<i64>>::empty(),
            limiter.wf(),
    {
        let limiter = SlidingWindowLog { counter: StringHashMap::new() };
        assert(limiter@ =~= Map::<Seq<char>, Seq<i64>>::empty());
        limiter
    }

    /// Accounts for a request of the client `ip` made at `now`, and decides on
    /// it. The client's log is pruned of what has left the window; the request
    /// is admitted, and its instant logged, exactly if fewer than the limit of
    /// stamps remain.
    pub fn use_token_at(&mut self, ip: String, now: Timestamp) -> (r: Result<(), RateLimitError>)
        requires
            old(self).wf(),
        ensures
            final(self).wf(),
            final(self)@ == after_request(old(self)@, ip@, now),
            r == if admits(old(self)@, ip@, now) {
                Ok::<(), RateLimitError>(())
            } else {
                Err::<(), RateLimitError>(RateLimitError::LimitExceeded)
            },
    {
        let mut requests = match self.counter.get(ip.as_str()) {
            Some(requests) => prune(requests, now),
            None => {
                proof {
                    lemma_retained_empty(now);
                }
                Vec::new()
            },
        };
        proof {
            lemma_log_stays_bounded(log_of(old(self)@, ip@), now);
        }
        let admitted = requests.len() < MAX_REQUESTS_PER_SLIDING_WINDOW_LOG;
        if admitted {
            requests.push(now.micros);
        }
        self.counter.insert(ip, requests);
        assert(self@ =~= after_request(old(self)@, ip@, now));
        if admitted {
            Ok(())
        } else {
            Err(RateLimitError::LimitExceeded)
        }
    }

    /// The number of stamps in the log of `ip`; none if the limiter has not
    /// seen the client.
    pub fn logged_requests(&self, ip: &str) -> (n: usize)
        ensures
            n == log_of(self@, ip@).len(),
    {
        match self.counter.get(ip) {
            Some(requests) => requests.len(),
            None => 0,
        }
    }

    /// The number of clients the limiter has seen. No entry is ever removed.
    pub fn len(&self) -> (n: usize)
        ensures
            n == self@.len(),
    {
        assert(self@.dom() =~= self.counter@.dom());
        self.counter.len()
    }
}

impl Limiter for SlidingWindowLog {
    open spec fn wf(&self) -> bool {
        bounded(self@)
    }

    open spec fn request(&self, client: Seq<char>, after: &Self, admitted: bool) -> bool {
        exists|now: Timestamp|
            after@ == #[trigger] after_request(self@, client, now) && admitted == admits(
                self@,
                client,
                now,
            )
    }

    /// Reads the clock and accounts for a request of `ip` at that instant.
    fn use_token(&mut self, ip: String) -> (r: Result<(), RateLimitError>) {
        let current_date_time = now();
        self.use_token_at(ip, current_date_time)
    }
}

/// After a request the client's log holds at most as many stamps as the limit,
/// given that it did before, and each of them lies within the window that ends
/// at the instant of the request.
pub proof fn lemma_log_stays_bounded(log: Seq<i64>, now: Timestamp)
    requires
        log.len() <= MAX_REQUESTS_PER_SLIDING_WINDOW_LOG,
    ensures
        logged(log, now).len() <= MAX_REQUESTS_PER_SLIDING_WINDOW_LOG,
        forall|i: int| 0 <= i < logged(log, now).len() ==> is_recent(#[trigger] logged(log, now)[i], now),
{
    let recent = |stamp: i64| is_recent(stamp, now);
    log.lemma_filter_len(recent);
    assert forall|i: int| 0 <= i < logged(log, now).len() implies is_recent(
        #[trigger] logged(log, now)[i],
        now,
    ) by {
        if i < retained(log, now).len() {
            log.lemma_filter_pred(recent, i);
        }
    }
}

/// As long as the clock does not run backwards, a log is in the order of time:
/// a request no earlier than the last one logged leaves the log in order.
pub proof fn lemma_log_stays_chronological(log: Seq<i64>, now: Timestamp)
    requires
        chronological(log),
        forall|i: int| 0 <= i < log.len() ==> log[i] <= now.micros,
    ensures
        chronological(logged(log, now)),
        forall|i: int| 0 <= i < logged(log, now).len() ==> logged(log, now)[i] <= now.micros,
{
    lemma_retained_in_order(log, now, now.micros);
}

/// While nothing ages out of the window, a log grows by one stamp with every
/// request until it is full: after requests at each of `times` it holds
/// `log.len() + times.len()` stamps or the limit, whichever is less, and each
/// of them is recent at any instant `at` at which the stamps of `log` and of
/// `times` are.
proof fn lemma_log_fills(log: Seq<i64>, times: Seq<Timestamp>, at: Timestamp)
    requires
        log.len() <= MAX_REQUESTS_PER_SLIDING_WINDOW_LOG,
        forall|i: int, j: int|
            0 <= i < log.len() && 0 <= j < times.len() ==> is_recent(
                #[trigger] log[i],
                #[trigger] times[j],
            ),
        forall|i: int, j: int|
            0 <= i < j < times.len() ==> is_recent(
                (#[trigger] times[i]).micros,
                #[trigger] times[j],
            ),
        forall|i: int| 0 <= i < log.len() ==> is_recent(#[trigger] log[i], at),
        forall|i: int| 0 <= i < times.len() ==> is_recent((#[trigger] times[i]).micros, at),
    ensures
        logged_all(log, times).len() == if log.len() + times.len()
            <= MAX_REQUESTS_PER_SLIDING_WINDOW_LOG {
            log.len() + times.len()
        } else {
            MAX_REQUESTS_PER_SLIDING_WINDOW_LOG as nat
        },
        forall|k: int|
            0 <= k < logged_all(log, times).len() ==> is_recent(
                #[trigger] logged_all(log, times)[k],
                at,
            ),
    decreases times.len(),
{
    if times.len() > 0 {
        let earlier = times.drop_last();
        let last = times.last();
        let before = logged_all(log, earlier);
        lemma_log_fills(log, earlier, last);
        lemma_log_fills(log, earlier, at);
        lemma_retained_all(before, last);
        assert(is_recent(times[times.len() - 1].micros, at));
    }
}

/// Within one window a client is admitted until its log is full and rejected
/// from then on: if none of the stamps in `log` and none of the instants in
/// `times` has aged out by the time of a later request, the request at `next`
/// is rejected exactly if `log` and `times` together reach the limit.
pub proof fn lemma_rejected_from_limit(log: Seq<i64>, times: Seq<Timestamp>, next: Timestamp)
    requires
        log.len() <= MAX_REQUESTS_PER_SLIDING_WINDOW_LOG,
        forall|i: int, j: int|
            0 <= i < log.len() && 0 <= j < times.len() ==> is_recent(
                #[trigger] log[i],
                #[trigger] times[j],
            ),
        forall|i: int, j: int|
            0 <= i < j < times.len() ==> is_recent(
                (#[trigger] times[i]).micros,
                #[trigger] times[j],
            ),
        forall|i: int| 0 <= i < log.len() ==> is_recent(#[trigger] log[i], next),
        forall|i: int| 0 <= i < times.len() ==> is_recent((#[trigger] times[i]).micros, next),
    ensures
        !has_room(logged_all(log, times), next) <==> log.len() + times.len()
            >= MAX_REQUESTS_PER_SLIDING_WINDOW_LOG,
{
    lemma_log_fills(log, times, next);
    lemma_retained_all(logged_all(log, times), next);
}

/// Once a stamp of a client's log has aged out of the window, the client is
/// admitted again.
pub proof fn lemma_admitted_after_expiry(log: Seq<i64>, now: Timestamp, i: int)
    requires
        log.len() <= MAX_REQUESTS_PER_SLIDING_WINDOW_LOG,
        0 <= i < log.len(),
        !is_recent(log[i], now),
    ensures
        has_room(log, now),
{
    lemma_retained_drops(log, now, i);
}

/// Requests of one client leave every other client as it was: its log, the
/// decision on its next request, and the logs after both requests do not
/// depend on whether the first client's request was made.
pub proof fn lemma_clients_isolated(
    entries: Map<Seq<char>, Seq<i64>>,
    a: Seq<char>,
    at_a: Timestamp,
    b: Seq<char>,
    at_b: Timestamp,
)
    requires
        a != b,
    ensures
        log_of(after_request(entries, a, at_a), b) == log_of(entries, b),
        admits(after_request(entries, a, at_a), b, at_b) == admits(entries, b, at_b),
        after_request(after_request(entries, a, at_a), b, at_b) == after_request(
            after_request(entries, b, at_b),
            a,
            at_a,
        ),
{
    assert(after_request(after_request(entries, a, at_a), b, at_b) =~= after_request(
        after_request(entries, b, at_b),
        a,
        at_a,
    ));
}

} // verus!
