//! Token bucket: every client holds a balance of tokens. A request takes one
//! token and is admitted while tokens are left after it; a periodic refill
//! sets every known balance back to the maximum, all at once.
//!
//! A balance may go below zero. A client that keeps asking after it has run
//! out is not credited until the next refill, and then in full.

use vstd::prelude::*;
use vstd::hash_map::StringHashMap;
use crate::domain::entry_of;
use crate::domain::Limiter;
use crate::domain::RateLimitError;
use crate::domain::Stoppable;

verus! {

/// The balance of a client that has not spent anything since the last refill.
pub const MAX_TOKENS_PER_IP: i64 = 10;

/// The time between two refills, in seconds.
pub const TIME_TO_ADD_TOKENS: u64 = 10;

/// The balance of `client`. A client that the bucket has not seen has the
/// full balance.
pub open spec fn balance_of(balances: Map<Seq<char>, i64>, client: Seq<char>) -> i64 {
    if balances.contains_key(client) {
        balances[client]
    } else {
        MAX_TOKENS_PER_IP
    }
}

/// A balance after one token has been taken from it. It stops at the least
/// value a balance can hold, which lies far below zero.
pub open spec fn spent(balance: i64) -> i64 {
    if balance > i64::MIN {
        (balance - 1) as i64
    } else {
        balance
    }
}

/// The balances after a request of `client`.
pub open spec fn after_request(balances: Map<Seq<char>, i64>, client: Seq<char>) -> Map<
    Seq<char>,
    i64,
> {
    balances.insert(client, spent(balance_of(balances, client)))
}

/// Whether a request of `client` is admitted: a token is left once the
/// request has taken its own.
pub open spec fn admits(balances: Map<Seq<char>, i64>, client: Seq<char>) -> bool {
    spent(balance_of(balances, client)) > 0
}

/// The balances after a refill: every known client has the maximum.
pub open spec fn refilled(balances: Map<Seq<char>, i64>) -> Map<Seq<char>, i64> {
    Map::new(|client: Seq<char>| balances.contains_key(client), |client: Seq<char>| MAX_TOKENS_PER_IP)
}

/// The balances after `n` requests of `client`, one after the other.
pub open spec fn after_requests(balances: Map<Seq<char>, i64>, client: Seq<char>, n: nat) -> Map<
    Seq<char>,
    i64,
>
    decreases n,
{
    if n == 0 {
        balances
    } else {
        after_request(after_requests(balances, client, (n - 1) as nat), client)
    }
}

/// The number of requests admitted among `n` requests of `client`, made one
/// after the other.
pub open spec fn admitted_of(balances: Map<Seq<char>, i64>, client: Seq<char>, n: nat) -> nat
    decreases n,
{
    if n == 0 {
        0
    } else {
        let earlier = (n - 1) as nat;
        if admits(after_requests(balances, client, earlier), client) {
            admitted_of(balances, client, earlier) + 1
        } else {
            admitted_of(balances, client, earlier)
        }
    }
}

/// No balance is above the maximum.
pub open spec fn within_budget(balances: Map<Seq<char>, i64>) -> bool {
    forall|client: Seq<char>| #[trigger]
        balances.contains_key(client) ==> balances[client] <= MAX_TOKENS_PER_IP
}

/// Whether `names` holds the clients that have a balance, and no others.
spec fn lists(names: Seq<String>, balances: Map<Seq<char>, i64>) -> bool {
    forall|client: Seq<char>|
        balances.contains_key(client) <==> exists|i: int|
            0 <= i < names.len() && (#[trigger] names[i])@ == client
}

/// What the refill task does after a tick of its timer.
#[derive(Clone, Copy, Debug, PartialEq, Eq, Structural)]
pub enum Tick {
    /// The balances were refilled; the next tick is due after this many
    /// seconds.
    Sleep(u64),
    /// The task has been stopped and ends here.
    Exit,
}

/// Token bucket over all clients, with the state of its refill task.
pub struct TokenBucket {
    tokens_per_ip: StringHashMap<i64>,
    clients: Vec<String>,
    started: bool,
}

impl View for TokenBucket {
    type V = Map<Seq<char>, i64>;

    closed spec fn view(&self) -> Map<Seq<char>, i64> {
        self.tokens_per_ip@
    }
}

impl TokenBucket {
    /// The bucket keeps a list of the clients that hold a balance, which is
    /// what a refill walks.
    pub closed spec fn listed(&self) -> bool {
        lists(self.clients@, self.tokens_per_ip@)
    }

    /// Whether the refill task is meant to run.
    pub closed spec fn refilling(&self) -> bool {
        self.started
    }

    /// The bucket's invariant: its list of clients is complete, and no balance
    /// is above the maximum.
    pub open spec fn valid(&self) -> bool {
        self.listed() && within_budget(self@)
    }

    /// A bucket that has seen no client and whose refill task is not running.
    pub fn new() -> (bucket: TokenBucket)
        ensures
            bucket@ == Map::<Seq<char>, i64>::empty(),
            !bucket.refilling(),
            bucket.valid(),
    {
        TokenBucket { tokens_per_ip: StringHashMap::new(), clients: Vec::new(), started: false }
    }

    /// Marks the refill task as running. From now on every tick refills the
    /// balances, until the task is stopped.
    pub fn start(&mut self)
        requires
            old(self).valid(),
        ensures
            final(self).valid(),
            final(self).refilling(),
            final(self)@ == old(self)@,
    {
        self.started = true;
    }

    /// Sets the balance of every known client to the maximum, whatever it was.
    pub fn refill(&mut self)
        requires
            old(self).valid(),
        ensures
            final(self).valid(),
            final(self)@ == refilled(old(self)@),
            final(self).refilling() == old(self).refilling(),
    {
        let ghost before = self.tokens_per_ip@;
        let mut i: usize = 0;
        while i < self.clients.len()
            invariant
                i <= self.clients.len(),
                self.clients == old(self).clients,
                self.started == old(self).started,
                old(self).listed(),
                before == old(self).tokens_per_ip@,
                self.tokens_per_ip@.dom() == before.dom(),
                forall|client: Seq<char>| #[trigger]
                    before.contains_key(client) ==> self.tokens_per_ip@[client]
                        == MAX_TOKENS_PER_IP || (self.tokens_per_ip@[client] == before[client]
                        && forall|j: int| 0 <= j < i ==> (#[trigger] self.clients@[j])@ != client),
            decreases self.clients.len() - i,
        {
            let name = self.clients[i].clone();
            assert(before.contains_key(self.clients@[i as int]@));
            self.tokens_per_ip.insert(name, MAX_TOKENS_PER_IP);
            assert(self.tokens_per_ip@.dom() =~= before.dom());
            i += 1;
        }
        assert(self.tokens_per_ip@ =~= refilled(before));
    }

    /// What the refill task does when its timer ticks. While the task is
    /// running the balances are refilled and the task sleeps for another
    /// period; once it has been stopped the balances are left alone and the
    /// task ends.
    pub fn tick(&mut self) -> (next: Tick)
        requires
            old(self).valid(),
        ensures
            final(self).valid(),
            final(self).refilling() == old(self).refilling(),
            old(self).refilling() ==> next == Tick::Sleep(TIME_TO_ADD_TOKENS) && final(self)@
                == refilled(old(self)@),
            !old(self).refilling() ==> next == Tick::Exit && final(self)@ == old(self)@,
    {
        if self.started {
            self.refill();
            Tick::Sleep(TIME_TO_ADD_TOKENS)
        } else {
            Tick::Exit
        }
    }

    /// Whether the refill task is meant to run.
    pub fn is_running(&self) -> (r: bool)
        ensures
            r == self.refilling(),
    {
        self.started
    }

    /// The balance of `ip`, if the bucket has seen the client.
    pub fn balance(&self, ip: &str) -> (tokens: Option<i64>)
        ensures
            tokens == entry_of(self@, ip@),
    {
        match self.tokens_per_ip.get(ip) {
            Some(value) => Some(*value),
            None => None,
        }
    }

    /// The number of clients the bucket has seen. No entry is ever removed.
    pub fn len(&self) -> (n: usize)
        ensures
            n == self@.len(),
    {
        self.tokens_per_ip.len()
    }
}

impl Stoppable for TokenBucket {
    open spec fn running(&self) -> bool {
        self.refilling()
    }

    /// Stops the refill task: its next tick ends it. The balances stay as
    /// they are.
    fn stop(&mut self)
        ensures
            final(self)@ == old(self)@,
            old(self).valid() ==> final(self).valid(),
    {
        self.started = false;
    }
}

impl Limiter for TokenBucket {
    open spec fn wf(&self) -> bool {
        self.valid()
    }

    open spec fn request(&self, client: Seq<char>, after: &Self, admitted: bool) -> bool {
        &&& after@ == after_request(self@, client)
        &&& admitted == admits(self@, client)
        &&& after.refilling() == self.refilling()
    }

    /// Takes one token from the balance of `ip`, which starts at the maximum,
    /// and admits the request exactly if a token is left after that.
    fn use_token(&mut self, ip: String) -> (r: Result<(), RateLimitError>)
        ensures
            r == if admits(old(self)@, ip@) {
                Ok::<(), RateLimitError>(())
            } else {
                Err::<(), RateLimitError>(RateLimitError::LimitExceeded)
            },
    {
        let value: i64 = match self.tokens_per_ip.get(ip.as_str()) {
            Some(value) => *value,
            None => {
                self.clients.push(ip.clone());
                MAX_TOKENS_PER_IP
            },
        };
        let value: i64 = if value > i64::MIN {
            value - 1
        } else {
            value
        };
        self.tokens_per_ip.insert(ip, value);
        proof {
            let ghost names = self.clients@;
            assert forall|client: Seq<char>|
                self.tokens_per_ip@.contains_key(client) implies exists|i: int|
                0 <= i < names.len() && (#[trigger] names[i])@ == client by {
                if client == ip@ && !old(self).tokens_per_ip@.contains_key(client) {
                    assert(names[names.len() - 1]@ == client);
                } else {
                    let i = choose|i: int|
                        0 <= i < old(self).clients@.len() && (#[trigger] old(self).clients@[i])@
                            == client;
                    assert(names[i]@ == client);
                }
            }
        }
        if value <= 0 {
            return Err(RateLimitError::LimitExceeded);
        }
        Ok(())
    }
}

/// No request is lost: `n` requests of a client, in whatever order they were
/// let in, take `n` tokens from its balance.
pub proof fn lemma_requests_take_tokens(balances: Map<Seq<char>, i64>, client: Seq<char>, n: nat)
    ensures
        balance_of(after_requests(balances, client, n), client) == if balance_of(balances, client)
            - n >= i64::MIN {
            balance_of(balances, client) - n
        } else {
            i64::MIN as int
        },
    decreases n,
{
    if n > 0 {
        lemma_requests_take_tokens(balances, client, (n - 1) as nat);
    }
}

/// A client is admitted while tokens last: the request that follows `n`
/// others is admitted exactly if the balance before them was above `n + 1`.
/// So of the requests made on a balance, all but the one that takes the last
/// token are admitted, and every later one is rejected.
pub proof fn lemma_admitted_while_tokens_last(
    balances: Map<Seq<char>, i64>,
    client: Seq<char>,
    n: nat,
)
    ensures
        admits(after_requests(balances, client, n), client) <==> n + 1 < balance_of(
            balances,
            client,
        ),
{
    lemma_requests_take_tokens(balances, client, n);
}

/// Of `n` requests of a client, in whatever order their callers took their
/// turns, those that find more than one token are admitted and all that come
/// after them are rejected: the admissions come first, and there are one less
/// than the balance held, or `n` if that is fewer.
pub proof fn lemma_admissions_come_first(
    balances: Map<Seq<char>, i64>,
    client: Seq<char>,
    n: nat,
)
    ensures
        forall|k: nat|
            k < n ==> (#[trigger] admits(after_requests(balances, client, k), client) <==> k + 1
                < balance_of(balances, client)),
        admitted_of(balances, client, n) == if balance_of(balances, client) <= 1 {
            0
        } else if n < balance_of(balances, client) - 1 {
            n as int
        } else {
            balance_of(balances, client) - 1
        },
    decreases n,
{
    assert forall|k: nat| k < n implies (#[trigger] admits(
        after_requests(balances, client, k),
        client,
    ) <==> k + 1 < balance_of(balances, client)) by {
        lemma_admitted_while_tokens_last(balances, client, k);
    }
    if n > 0 {
        lemma_admissions_come_first(balances, client, (n - 1) as nat);
        lemma_admitted_while_tokens_last(balances, client, (n - 1) as nat);
    }
}

/// Any number of callers that each make one request of a client that the
/// bucket has not seen, and take their turns in whatever order: the first nine
/// are admitted and every later one is rejected, and each has taken its token
/// from the balance, as far as the balance can go down.
pub proof fn lemma_callers_of_new_client(
    balances: Map<Seq<char>, i64>,
    client: Seq<char>,
    n: nat,
)
    requires
        !balances.contains_key(client),
    ensures
        forall|k: nat|
            k < n ==> (#[trigger] admits(after_requests(balances, client, k), client) <==> k
                < MAX_TOKENS_PER_IP - 1),
        admitted_of(balances, client, n) == if n < MAX_TOKENS_PER_IP - 1 {
            n as int
        } else {
            MAX_TOKENS_PER_IP - 1
        },
        MAX_TOKENS_PER_IP - n >= i64::MIN ==> balance_of(
            after_requests(balances, client, n),
            client,
        ) == MAX_TOKENS_PER_IP - n,
{
    lemma_admissions_come_first(balances, client, n);
    lemma_requests_take_tokens(balances, client, n);
}

/// A client that the bucket has not seen is admitted for one request less
/// than the maximum, and rejected from then on.
pub proof fn lemma_new_client_admitted(balances: Map<Seq<char>, i64>, client: Seq<char>, n: nat)
    requires
        !balances.contains_key(client),
    ensures
        admits(after_requests(balances, client, n), client) <==> n < MAX_TOKENS_PER_IP - 1,
{
    lemma_admitted_while_tokens_last(balances, client, n);
}

/// After a refill every client has the full balance, however far below zero
/// it had gone, and is admitted again for one request less than the maximum.
pub proof fn lemma_refill_restores(balances: Map<Seq<char>, i64>, client: Seq<char>, n: nat)
    ensures
        balance_of(refilled(balances), client) == MAX_TOKENS_PER_IP,
        admits(after_requests(refilled(balances), client, n), client) <==> n < MAX_TOKENS_PER_IP
            - 1,
{
    lemma_admitted_while_tokens_last(refilled(balances), client, n);
}

/// Requests of one client leave every other client as it was: its balance, the
/// decision on its next request, and the balances after both requests do not
/// depend on whether the first client's request was made.
pub proof fn lemma_clients_isolated(balances: Map<Seq<char>, i64>, a: Seq<char>, b: Seq<char>)
    requires
        a != b,
    ensures
        balance_of(after_request(balances, a), b) == balance_of(balances, b),
        admits(after_request(balances, a), b) == admits(balances, b),
        after_request(after_request(balances, a), b) == after_request(
            after_request(balances, b),
            a,
        ),
{
    assert(after_request(after_request(balances, a), b) =~= after_request(
        after_request(balances, b),
        a,
    ));
}

} // verus!
