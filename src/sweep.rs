//! The sweep engine: which credential pair to try next under each strategy,
//! and the one result kept for every pair.

use vstd::prelude::*;
use crate::attempt::{outcome_ok, AttemptOutcome};
use crate::request::{config_error, AttackMode, ConfigError, SweepConfig};

verus! {

/// Tries of one pair under the aggressive strategy, transport failures included.
pub const AGGRESSIVE_TRIES: u32 = 3;

/// Pause between the aggressive strategy's tries of one pair.
pub const AGGRESSIVE_RETRY_DELAY_MS: u64 = 100;

/// Capacity of the channel on which attempts hand back their outcomes.
pub const RESULT_CHANNEL_CAPACITY: usize = 1000;

/// The record of one attempted credential pair.
#[derive(Debug, Clone)]
pub struct ScanResult {
    pub username: String,
    pub password: String,
    pub success: bool,
    /// 0 where no response was obtained.
    pub status_code: u16,
    pub response_time_ms: u64,
    pub error: Option<String>,
    /// Milliseconds since the Unix epoch, UTC.
    pub timestamp_ms: i64,
}

/// `r` records an attempt on (`username`, `password`) that ended in `outcome` at `timestamp_ms`.
pub open spec fn describes(r: ScanResult, username: Seq<char>, password: Seq<char>, outcome: AttemptOutcome, timestamp_ms: i64) -> bool {
    &&& r.username@ == username
    &&& r.password@ == password
    &&& r.timestamp_ms == timestamp_ms
    &&& match outcome {
        AttemptOutcome::Responded { status, success, elapsed_ms } => {
            &&& r.success == success
            &&& r.status_code == status
            &&& r.response_time_ms == elapsed_ms
            &&& r.error is None
        },
        AttemptOutcome::TransportFailed { error, elapsed_ms } => {
            &&& !r.success
            &&& r.status_code == 0
            &&& r.response_time_ms == elapsed_ms
            &&& r.error matches Some(e) && e@ == error@
        },
    }
}

/// A record in which status 0 and an error go together, an error means a
/// failed login, and any other status is a real HTTP status.
pub open spec fn result_ok(r: ScanResult) -> bool {
    &&& (r.error is Some <==> r.status_code == 0)
    &&& (r.error is Some ==> !r.success)
    &&& (r.status_code != 0 ==> 100 <= r.status_code <= 999)
}

impl ScanResult {
    /// A copy of this record.
    pub fn copy(&self) -> (r: Self)
        ensures
            r == *self,
    {
        ScanResult {
            username: self.username.clone(),
            password: self.password.clone(),
            success: self.success,
            status_code: self.status_code,
            response_time_ms: self.response_time_ms,
            error: match &self.error {
                Some(e) => Some(e.clone()),
                None => None,
            },
            timestamp_ms: self.timestamp_ms,
        }
    }

    /// The record of an attempt on (`username`, `password`) that ended in `outcome`.
    pub fn from_outcome(username: &str, password: &str, outcome: &AttemptOutcome, timestamp_ms: i64) -> (r: Self)
        requires
            outcome_ok(*outcome),
        ensures
            describes(r, username@, password@, *outcome, timestamp_ms),
            result_ok(r),
    {
        match outcome {
            AttemptOutcome::Responded { status, success, elapsed_ms } => ScanResult {
                username: username.to_owned(),
                password: password.to_owned(),
                success: *success,
                status_code: *status,
                response_time_ms: *elapsed_ms,
                error: None,
                timestamp_ms,
            },
            AttemptOutcome::TransportFailed { error, elapsed_ms } => ScanResult {
                username: username.to_owned(),
                password: password.to_owned(),
                success: false,
                status_code: 0,
                response_time_ms: *elapsed_ms,
                error: Some(error.clone()),
                timestamp_ms,
            },
        }
    }
}

/// Usernames per chunk of the fast strategy: the count divided by the worker
/// budget, rounded up, and at least one; so there are at most `workers` chunks.
pub open spec fn chunk_size(n_users: nat, workers: nat) -> nat {
    if workers == 0 {
        1
    } else {
        let q = n_users / workers + if n_users % workers == 0 {
            0nat
        } else {
            1nat
        };
        if q == 0 {
            1
        } else {
            q
        }
    }
}

/// Chunks of the fast strategy: the usernames cut into runs of `chunk_size`,
/// the last one possibly shorter.
pub open spec fn chunk_count(n_users: nat, workers: nat) -> nat {
    let cs = chunk_size(n_users, workers);
    n_users / cs + if n_users % cs == 0 {
        0nat
    } else {
        1nat
    }
}

/// How many attempts a strategy lets be in flight at once.
pub open spec fn in_flight_limit(mode: AttackMode, workers: nat, n_users: nat) -> nat {
    match mode {
        AttackMode::Fast => if chunk_count(n_users, workers) < workers {
            chunk_count(n_users, workers)
        } else {
            workers
        },
        AttackMode::Normal => usize::MAX as nat,
        AttackMode::Stealth => 1,
        AttackMode::Aggressive => workers,
    }
}

/// Trues among the first `n` entries of `s`.
pub open spec fn count_true(s: Seq<bool>, n: int) -> nat
    decreases n,
{
    if n <= 0 {
        0
    } else {
        count_true(s, n - 1) + if s[n - 1] {
            1nat
        } else {
            0nat
        }
    }
}

proof fn lemma_count_bounded(s: Seq<bool>, n: int)
    requires
        0 <= n <= s.len(),
    ensures
        count_true(s, n) <= n,
        count_true(s, n) == n ==> forall|i: int| 0 <= i < n ==> #[trigger] s[i],
    decreases n,
{
    if n > 0 {
        lemma_count_bounded(s, n - 1);
    }
}

proof fn lemma_count_set(s: Seq<bool>, i: int, n: int)
    requires
        0 <= i < s.len(),
        0 <= n <= s.len(),
        !s[i],
    ensures
        count_true(s.update(i, true), n) == count_true(s, n) + if i < n {
            1nat
        } else {
            0nat
        },
    decreases n,
{
    if n > 0 {
        lemma_count_set(s, i, n - 1);
    }
}

proof fn lemma_count_missing(s: Seq<bool>, i: int, n: int)
    requires
        0 <= i < n <= s.len(),
        !s[i],
    ensures
        count_true(s, n) < n,
    decreases n,
{
    lemma_count_bounded(s, n - 1);
    if i < n - 1 {
        lemma_count_missing(s, i, n - 1);
    }
}

proof fn lemma_pair_index(i: int, n_users: int, n_passwords: int)
    requires
        0 <= i < n_users * n_passwords,
        n_passwords > 0,
    ensures
        0 <= i / n_passwords < n_users,
        0 <= i % n_passwords < n_passwords,
{
    assert(0 <= i / n_passwords < n_users) by (nonlinear_arith)
        requires
            0 <= i < n_users * n_passwords,
            n_passwords > 0,
    ;
    assert(0 <= i % n_passwords < n_passwords) by (nonlinear_arith)
        requires
            n_passwords > 0,
    ;
}

/// The next thing a sweep's driver is to do.
#[derive(Debug, PartialEq, Eq, Structural)]
pub enum SweepAction {
    /// Pause for `pause_ms`, then attempt pair `index`.
    Launch { index: usize, pause_ms: u64 },
    /// Nothing may start now: wait for an attempt in flight to end.
    Wait,
    /// Every pair has its result.
    Finished,
}

/// What became of an ended attempt.
#[derive(Debug, PartialEq, Eq, Structural)]
pub enum CompletionStep {
    /// Its result is kept; the pair is done.
    Recorded,
    /// Pause for `delay_ms`, then try the same pair again.
    RetryAfter { delay_ms: u64 },
}

/// Lanes over `total` pairs: non-empty ranges of pair indices, every pair
/// in exactly one of them, `lane_of` naming it.
pub open spec fn lanes_ok(start: Seq<usize>, end: Seq<usize>, lane_of: Seq<usize>, total: nat) -> bool {
    &&& start.len() == end.len()
    &&& 1 <= start.len() <= total
    &&& lane_of.len() == total
    &&& forall|l: int| 0 <= l < start.len() ==> #[trigger] start[l] < end[l] && end[l] <= total
    &&& forall|i: int|
        0 <= i < total ==> #[trigger] lane_of[i] < start.len() && start[lane_of[i] as int] <= i
            < end[lane_of[i] as int]
    &&& forall|l: int, i: int|
        #![trigger lane_of[i], start[l]]
        0 <= l < start.len() && start[l] <= i < end[l] ==> lane_of[i] == l
}

proof fn lemma_chunk_of(i: int, p: int, cs: int, c: int, u1: int)
    requires
        p > 0,
        cs > 0,
        c >= 0,
        c * cs * p <= i < u1 * p,
        u1 <= c * cs + cs,
    ensures
        (i / p) / cs == c,
{
    vstd::arithmetic::div_mod::lemma_fundamental_div_mod(i, p);
    let q = i / p;
    assert(c * cs <= q && q < u1) by (nonlinear_arith)
        requires
            p > 0,
            i == p * q + i % p,
            0 <= i % p < p,
            c * cs * p <= i < u1 * p,
    ;
    vstd::arithmetic::div_mod::lemma_fundamental_div_mod(q, cs);
    assert(q / cs == c) by (nonlinear_arith)
        requires
            cs > 0,
            q == cs * (q / cs) + q % cs,
            0 <= q % cs < cs,
            c * cs <= q < c * cs + cs,
    ;
}

/// The lanes of the fast strategy: one per chunk of `chunk_size` usernames,
/// holding that chunk's usernames with every password.
fn chunk_lanes(n_users: usize, n_passwords: usize, workers: usize, total: usize) -> (r: (Vec<usize>, Vec<usize>, Vec<usize>))
    requires
        n_users > 0,
        n_passwords > 0,
        workers > 0,
        total == n_users * n_passwords,
    ensures
        lanes_ok(r.0@, r.1@, r.2@, total as nat),
        forall|i: int|
            0 <= i < total ==> #[trigger] r.2@[i] == (i / n_passwords as int) / chunk_size(
                n_users as nat,
                workers as nat,
            ) as int,
{
    let cs = fast_chunk_size(n_users, workers);
    let p = n_passwords;
    let mut start: Vec<usize> = Vec::new();
    let mut end: Vec<usize> = Vec::new();
    let mut lane_of: Vec<usize> = Vec::new();
    let mut u0: usize = 0;
    let mut c: usize = 0;
    while u0 < n_users
        invariant
            cs == chunk_size(n_users as nat, workers as nat),
            cs >= 1,
            p == n_passwords,
            p > 0,
            total == n_users * p,
            u0 <= n_users,
            c <= u0,
            u0 < n_users ==> u0 == c * cs,
            start@.len() == c,
            end@.len() == c,
            lane_of@.len() == u0 * p,
            c > 0 || u0 == 0,
            forall|l: int| 0 <= l < c ==> #[trigger] start@[l] < end@[l] && end@[l] <= u0 * p,
            forall|i: int|
                0 <= i < u0 * p ==> #[trigger] lane_of@[i] < c && start@[lane_of@[i] as int] <= i
                    < end@[lane_of@[i] as int],
            forall|l: int, i: int|
                #![trigger lane_of@[i], start@[l]]
                0 <= l < c && start@[l] <= i < end@[l] ==> lane_of@[i] == l,
            forall|i: int| 0 <= i < u0 * p ==> #[trigger] lane_of@[i] == (i / p as int) / cs as int,
        decreases n_users - u0,
    {
        let u1: usize = if n_users - u0 <= cs {
            n_users
        } else {
            u0 + cs
        };
        assert(u0 * p < u1 * p <= n_users * p) by (nonlinear_arith)
            requires
                u0 < u1 <= n_users,
                p > 0,
        ;
        let s = u0 * p;
        let e = u1 * p;
        start.push(s);
        end.push(e);
        let ghost before = lane_of@;
        let mut i: usize = s;
        while i < e
            invariant
                before.len() == s,
                forall|j: int| 0 <= j < s ==> #[trigger] lane_of@[j] == before[j],
                s <= i <= e,
                s == u0 * p,
                e == u1 * p,
                u0 == c * cs,
                u1 <= u0 + cs,
                cs >= 1,
                p > 0,
                lane_of@.len() == i,
                forall|j: int| 0 <= j < s ==> #[trigger] lane_of@[j] < c,
                forall|j: int| s <= j < i ==> #[trigger] lane_of@[j] == c,
                forall|j: int| 0 <= j < i ==> #[trigger] lane_of@[j] == (j / p as int) / cs as int,
            decreases e - i,
        {
            proof {
                lemma_chunk_of(i as int, p as int, cs as int, c as int, u1 as int);
            }
            lane_of.push(c);
            i += 1;
        }
        proof {
            assert forall|l: int, j: int|
                #![trigger lane_of@[j], start@[l]]
                0 <= l < c + 1 && start@[l] <= j < end@[l] implies lane_of@[j] == l by {
                if l < c {
                    assert(end@[l] <= s);
                }
            }
        }
        proof {
            assert((c + 1) * cs == c * cs + cs) by (nonlinear_arith);
        }
        c += 1;
        u0 = u1;
    }
    assert(u0 == n_users);
    assert(lane_of@.len() == total);
    assert(c <= total) by (nonlinear_arith)
        requires
            c <= n_users,
            total == n_users * p,
            p >= 1,
    ;
    (start, end, lane_of)
}

/// One lane per pair, in order.
fn pair_lanes(total: usize) -> (r: (Vec<usize>, Vec<usize>, Vec<usize>))
    requires
        total >= 1,
    ensures
        lanes_ok(r.0@, r.1@, r.2@, total as nat),
        r.0@.len() == total,
        forall|l: int| 0 <= l < total ==> #[trigger] r.0@[l] == l && r.1@[l] == l + 1,
        forall|i: int| 0 <= i < total ==> #[trigger] r.2@[i] == i,
{
    let mut start: Vec<usize> = Vec::new();
    let mut end: Vec<usize> = Vec::new();
    let mut lane_of: Vec<usize> = Vec::new();
    let mut i: usize = 0;
    while i < total
        invariant
            i <= total,
            start@.len() == i,
            end@.len() == i,
            lane_of@.len() == i,
            forall|l: int| 0 <= l < i ==> #[trigger] start@[l] == l && end@[l] == l + 1,
            forall|j: int| 0 <= j < i ==> #[trigger] lane_of@[j] == j,
        decreases total - i,
    {
        start.push(i);
        end.push(i + 1);
        lane_of.push(i);
        i += 1;
    }
    (start, end, lane_of)
}

/// The state of one sweep over usernames × passwords. Pair `i` is username
/// `i / |passwords|` with password `i % |passwords|`. Pairs are grouped in
/// lanes, each worked through in order with at most one attempt in flight:
/// under the fast strategy a lane is a chunk of usernames with every
/// password, otherwise a single pair.
pub struct SweepEngine {
    users: Vec<String>,
    passwords: Vec<String>,
    mode: AttackMode,
    max_workers: usize,
    limit: usize,
    pause_ms: u64,
    total: usize,
    lane_start: Vec<usize>,
    lane_end: Vec<usize>,
    lane_next: Vec<usize>,
    lane_of: Vec<usize>,
    ready: Vec<usize>,
    launched_n: usize,
    in_flight: usize,
    launched: Vec<bool>,
    done: Vec<bool>,
    tries: Vec<u32>,
    results: Vec<ScanResult>,
    owners: Ghost<Seq<int>>,
    paused_ms: Ghost<nat>,
}

impl SweepEngine {
    pub closed spec fn spec_users(&self) -> Seq<String> {
        self.users@
    }

    pub closed spec fn spec_passwords(&self) -> Seq<String> {
        self.passwords@
    }

    pub open spec fn n_users(&self) -> nat {
        self.spec_users().len()
    }

    pub open spec fn n_passwords(&self) -> nat {
        self.spec_passwords().len()
    }

    /// Username of pair `i`.
    pub open spec fn pair_user(&self, i: int) -> Seq<char> {
        self.spec_users()[i / self.n_passwords() as int]@
    }

    /// Password of pair `i`.
    pub open spec fn pair_password(&self, i: int) -> Seq<char> {
        self.spec_passwords()[i % self.n_passwords() as int]@
    }

    pub closed spec fn spec_mode(&self) -> AttackMode {
        self.mode
    }

    pub closed spec fn spec_max_workers(&self) -> nat {
        self.max_workers as nat
    }

    pub closed spec fn spec_limit(&self) -> nat {
        self.limit as nat
    }

    pub closed spec fn spec_pause_ms(&self) -> u64 {
        self.pause_ms
    }

    pub closed spec fn spec_total(&self) -> nat {
        self.total as nat
    }

    /// Pairs launched so far.
    pub closed spec fn spec_launched(&self) -> nat {
        self.launched_n as nat
    }

    pub closed spec fn spec_in_flight(&self) -> nat {
        self.in_flight as nat
    }

    /// The lane of pair `i`.
    pub closed spec fn lane(&self, i: int) -> int {
        self.lane_of@[i] as int
    }

    /// Whether pair `i` has been launched and has no result yet.
    pub closed spec fn pending(&self, i: int) -> bool {
        0 <= i < self.total && self.launched@[i] && !self.done@[i]
    }

    /// Whether pair `i` has been launched.
    pub closed spec fn is_launched(&self, i: int) -> bool {
        0 <= i < self.total && self.launched@[i]
    }

    /// Tries made of pair `i` so far.
    pub closed spec fn spec_tries(&self, i: int) -> nat {
        self.tries@[i] as nat
    }

    pub closed spec fn spec_results(&self) -> Seq<ScanResult> {
        self.results@
    }

    /// The pair that each result belongs to, by position.
    pub closed spec fn spec_owners(&self) -> Seq<int> {
        self.owners@
    }

    /// Sum of the pauses handed out with launches.
    pub closed spec fn spec_paused_ms(&self) -> nat {
        self.paused_ms@
    }

    pub open spec fn finished(&self) -> bool {
        self.spec_launched() == self.spec_total() && self.spec_in_flight() == 0
    }

    /// Lane `l` has pairs left and none in flight.
    pub closed spec fn idle_with_work(&self, l: int) -> bool {
        &&& self.lane_next@[l] < self.lane_end@[l]
        &&& (self.lane_next@[l] == self.lane_start@[l] || self.done@[self.lane_next@[l] - 1])
    }

    pub closed spec fn wf(&self) -> bool {
        &&& self.passwords@.len() > 0
        &&& self.users@.len() > 0
        &&& self.total as nat == self.users@.len() * self.passwords@.len()
        &&& self.launched@.len() == self.total
        &&& self.done@.len() == self.total
        &&& self.tries@.len() == self.total
        &&& lanes_ok(self.lane_start@, self.lane_end@, self.lane_of@, self.total as nat)
        &&& self.lane_next@.len() == self.lane_start@.len()
        &&& forall|l: int|
            0 <= l < self.lane_start@.len() ==> #[trigger] self.lane_start@[l] <= self.lane_next@[l]
                <= self.lane_end@[l]
        &&& forall|i: int|
            0 <= i < self.total ==> (#[trigger] self.launched@[i] <==> i < self.lane_next@[self.lane_of@[i] as int])
        &&& forall|i: int|
            0 <= i < self.total && i + 1 < self.lane_next@[self.lane_of@[i] as int] ==> #[trigger] self.done@[i]
        &&& forall|i: int| 0 <= i < self.total && #[trigger] self.done@[i] ==> self.launched@[i]
        &&& forall|i: int| 0 <= i < self.total && !self.launched@[i] ==> #[trigger] self.tries@[i] == 0
        &&& forall|i: int|
            0 <= i < self.total && self.launched@[i] ==> 1 <= #[trigger] self.tries@[i] <= AGGRESSIVE_TRIES
        &&& self.launched_n == count_true(self.launched@, self.total as int)
        &&& self.results@.len() == count_true(self.done@, self.total as int)
        &&& self.in_flight + self.results@.len() == self.launched_n
        &&& self.in_flight <= self.limit
        &&& self.limit as nat == in_flight_limit(self.mode, self.max_workers as nat, self.users@.len())
        &&& self.max_workers > 0
        &&& self.limit >= 1
        &&& forall|k: int|
            0 <= k < self.ready@.len() ==> #[trigger] self.ready@[k] < self.lane_start@.len()
                && self.idle_with_work(self.ready@[k] as int)
        &&& forall|k1: int, k2: int|
            0 <= k1 < self.ready@.len() && 0 <= k2 < self.ready@.len() && k1 != k2
                ==> #[trigger] self.ready@[k1] != #[trigger] self.ready@[k2]
        &&& forall|l: int|
            0 <= l < self.lane_start@.len() && #[trigger] self.idle_with_work(l) ==> self.ready@.contains(
                l as usize,
            )
        &&& (self.mode != AttackMode::Fast ==> {
            &&& self.lane_start@.len() == self.total
            &&& forall|l: int| 0 <= l < self.total ==> #[trigger] self.lane_start@[l] == l && self.lane_end@[l] == l + 1
            &&& self.ready@.len() + self.launched_n == self.total
            &&& forall|k: int| 0 <= k < self.ready@.len() ==> #[trigger] self.ready@[k] == self.total - 1 - k
        })
        &&& (self.mode == AttackMode::Fast ==> forall|i: int|
            0 <= i < self.total ==> #[trigger] self.lane_of@[i] == (i / self.passwords@.len() as int)
                / chunk_size(self.users@.len(), self.max_workers as nat) as int)
        &&& self.owners@.len() == self.results@.len()
        &&& forall|k: int|
            0 <= k < self.owners@.len() ==> 0 <= #[trigger] self.owners@[k] < self.total
                && self.done@[self.owners@[k]]
        &&& forall|k1: int, k2: int|
            0 <= k1 < self.owners@.len() && 0 <= k2 < self.owners@.len() && k1 != k2
                ==> #[trigger] self.owners@[k1] != #[trigger] self.owners@[k2]
        &&& forall|i: int| 0 <= i < self.total && #[trigger] self.done@[i] ==> owned(self.owners@, i)
        &&& forall|k: int| 0 <= k < self.results@.len() ==> result_ok(#[trigger] self.results@[k])
        &&& forall|k: int|
            0 <= k < self.results@.len() ==> #[trigger] self.results@[k].username@ == self.pair_user(
                self.owners@[k],
            ) && self.results@[k].password@ == self.pair_password(self.owners@[k])
        &&& (self.mode == AttackMode::Stealth ==> self.paused_ms@ == self.launched_n * self.pause_ms)
    }
}

/// Some position of `owners` holds pair `i`.
pub open spec fn owned(owners: Seq<int>, i: int) -> bool {
    exists|k: int| 0 <= k < owners.len() && owners[k] == i
}

proof fn lemma_count_all(s: Seq<bool>, n: int)
    requires
        0 <= n <= s.len(),
        forall|i: int| 0 <= i < n ==> #[trigger] s[i],
    ensures
        count_true(s, n) == n,
    decreases n,
{
    if n > 0 {
        lemma_count_all(s, n - 1);
    }
}

proof fn lemma_count_subset(a: Seq<bool>, b: Seq<bool>, n: int, j: int)
    requires
        0 <= n <= a.len(),
        a.len() == b.len(),
        forall|i: int| 0 <= i < n && #[trigger] a[i] ==> b[i],
    ensures
        count_true(a, n) <= count_true(b, n),
        0 <= j < n && b[j] && !a[j] ==> count_true(a, n) < count_true(b, n),
    decreases n,
{
    if n > 0 {
        lemma_count_subset(a, b, n - 1, j);
    }
}

impl SweepEngine {
    /// Starts a sweep over `users` × `passwords` under `config`, after the
    /// configuration checks; nothing has been launched yet.
    pub fn new(config: &SweepConfig, users: Vec<String>, passwords: Vec<String>) -> (r: Result<Self, ConfigError>)
        requires
            users@.len() * passwords@.len() <= usize::MAX,
        ensures
            match config_error(*config, users@.len(), passwords@.len()) {
                Some(e) => r matches Err(x) && x == e,
                None => r matches Ok(eng) && eng.wf() && eng.spec_users() == users@
                    && eng.spec_passwords() == passwords@ && eng.spec_mode() == config.mode
                    && eng.spec_max_workers() == config.max_workers
                    && eng.spec_pause_ms() == config.stealth_delay_ms
                    && eng.spec_limit() == in_flight_limit(config.mode, config.max_workers as nat, users@.len())
                    && eng.spec_total() == users@.len() * passwords@.len()
                    && eng.spec_launched() == 0 && eng.spec_in_flight() == 0
                    && eng.spec_results().len() == 0,
            },
    {
        match config.check(users.len(), passwords.len()) {
            Err(e) => return Err(e),
            Ok(()) => {},
        }
        let n_users = users.len();
        let n_passwords = passwords.len();
        proof {
            assert(n_users * n_passwords >= 1) by (nonlinear_arith)
                requires
                    n_users >= 1,
                    n_passwords >= 1,
            ;
        }
        let total = n_users * n_passwords;
        let limit = compute_limit(config.mode, config.max_workers, n_users);
        let (lane_start, lane_end, lane_of) = match config.mode {
            AttackMode::Fast => chunk_lanes(n_users, n_passwords, config.max_workers, total),
            _ => pair_lanes(total),
        };
        let n_lanes = lane_start.len();
        let mut lane_next: Vec<usize> = Vec::new();
        let mut k: usize = 0;
        while k < n_lanes
            invariant
                k <= n_lanes,
                n_lanes == lane_start@.len(),
                lane_next@.len() == k,
                forall|l: int| 0 <= l < k ==> #[trigger] lane_next@[l] == lane_start@[l],
            decreases n_lanes - k,
        {
            lane_next.push(lane_start[k]);
            k += 1;
        }
        let mut ready: Vec<usize> = Vec::new();
        let mut k: usize = n_lanes;
        while k > 0
            invariant
                k <= n_lanes,
                ready@.len() == n_lanes - k,
                forall|j: int| 0 <= j < ready@.len() ==> #[trigger] ready@[j] == n_lanes - 1 - j,
            decreases k,
        {
            k -= 1;
            ready.push(k);
        }
        let mut launched: Vec<bool> = Vec::new();
        let mut done: Vec<bool> = Vec::new();
        let mut tries: Vec<u32> = Vec::new();
        let mut i: usize = 0;
        while i < total
            invariant
                i <= total,
                launched@.len() == i,
                done@.len() == i,
                tries@.len() == i,
                forall|j: int| 0 <= j < i ==> !#[trigger] launched@[j],
                forall|j: int| 0 <= j < i ==> !#[trigger] done@[j],
                forall|j: int| 0 <= j < i ==> #[trigger] tries@[j] == 0,
            decreases total - i,
        {
            launched.push(false);
            done.push(false);
            tries.push(0);
            i += 1;
        }
        let eng = SweepEngine {
            users,
            passwords,
            mode: config.mode,
            max_workers: config.max_workers,
            limit,
            pause_ms: config.stealth_delay_ms,
            total,
            lane_start,
            lane_end,
            lane_next,
            lane_of,
            ready,
            launched_n: 0,
            in_flight: 0,
            launched,
            done,
            tries,
            results: Vec::new(),
            owners: Ghost(Seq::empty()),
            paused_ms: Ghost(0),
        };
        proof {
            lemma_count_none(eng.launched@, total as int);
            lemma_count_none(eng.done@, total as int);
            assert forall|l: int|
                0 <= l < eng.lane_start@.len() && #[trigger] eng.idle_with_work(l) implies eng.ready@.contains(
                l as usize,
            ) by {
                assert(eng.ready@[n_lanes - 1 - l] == l);
            }
        }
        Ok(eng)
    }

    /// Number of credential pairs in the sweep.
    pub fn total(&self) -> (n: usize)
        ensures
            n == self.spec_total(),
    {
        self.total
    }

    /// Results kept so far.
    pub fn completed(&self) -> (n: usize)
        ensures
            n == self.spec_results().len(),
    {
        self.results.len()
    }

    /// Attempts launched and not yet recorded.
    pub fn in_flight(&self) -> (n: usize)
        ensures
            n == self.spec_in_flight(),
    {
        self.in_flight
    }

    /// Whether pair `index` has been launched and has no result yet.
    pub fn is_pending(&self, index: usize) -> (r: bool)
        requires
            self.wf(),
        ensures
            r == self.pending(index as int),
    {
        index < self.total && self.launched[index] && !self.done[index]
    }

    /// The lane of pair `index`.
    pub fn lane_of(&self, index: usize) -> (r: usize)
        requires
            self.wf(),
            index < self.spec_total(),
        ensures
            r == self.lane(index as int),
    {
        self.lane_of[index]
    }

    /// The username and password of pair `index`.
    pub fn pair(&self, index: usize) -> (r: (String, String))
        requires
            self.wf(),
            index < self.spec_total(),
        ensures
            r.0@ == self.pair_user(index as int),
            r.1@ == self.pair_password(index as int),
    {
        proof {
            lemma_pair_index(index as int, self.users@.len() as int, self.passwords@.len() as int);
        }
        let p = self.passwords.len();
        (self.users[index / p].clone(), self.passwords[index % p].clone())
    }

    /// The results kept so far, one per finished pair.
    pub fn results(&self) -> (r: &Vec<ScanResult>)
        ensures
            r@ == self.spec_results(),
    {
        &self.results
    }

    /// The results, once the sweep is over or abandoned.
    pub fn into_results(self) -> (r: Vec<ScanResult>)
        ensures
            r@ == self.spec_results(),
    {
        self.results
    }
}

proof fn lemma_count_none(s: Seq<bool>, n: int)
    requires
        0 <= n <= s.len(),
        forall|i: int| 0 <= i < n ==> !#[trigger] s[i],
    ensures
        count_true(s, n) == 0,
    decreases n,
{
    if n > 0 {
        lemma_count_none(s, n - 1);
    }
}

impl SweepEngine {
    proof fn lemma_pending_is_last_of_lane(&self, i: int)
        requires
            self.wf(),
            self.pending(i),
        ensures
            i + 1 == self.lane_next@[self.lane_of@[i] as int],
            self.in_flight > 0,
    {
        lemma_count_subset(self.done@, self.launched@, self.total as int, i);
    }

    /// With no lane ready, every pair not yet launched shares its lane with a
    /// pending pair, unless nothing is in flight, in which case all are launched.
    proof fn lemma_stalled_lanes(&self, i: int)
        requires
            self.wf(),
            self.ready@.len() == 0,
            0 <= i < self.total,
            !self.launched@[i],
        ensures
            self.in_flight > 0,
            exists|j: int| #[trigger] self.pending(j) && self.lane_of@[j] == self.lane_of@[i],
    {
        let l = self.lane_of@[i] as int;
        let nx = self.lane_next@[l];
        assert(self.lane_start@[l] <= i < self.lane_end@[l]);
        if nx == self.lane_start@[l] || self.done@[nx - 1] {
            assert(self.idle_with_work(l));
            assert(self.ready@.contains(l as usize));
            assert(false);
        }
        let j = nx - 1;
        assert(self.lane_start@[l] <= j < self.lane_end@[l]);
        assert(self.lane_of@[j] == l);
        assert(self.launched@[j]);
        assert(self.pending(j));
        self.lemma_pending_is_last_of_lane(j);
    }

    /// Decides what the driver does next. While the strategy's bound on
    /// attempts in flight allows, the next pair of a lane with nothing in
    /// flight is launched (under all strategies but the fast one, pairs in
    /// order); a stealth launch carries the configured pause. Otherwise the
    /// driver waits for an attempt to end, or the sweep is over.
    #[verifier::spinoff_prover]
    #[verifier::rlimit(50)]
    pub fn next_action(&mut self) -> (a: SweepAction)
        requires
            old(self).wf(),
        ensures
            final(self).wf(),
            final(self).spec_users() == old(self).spec_users(),
            final(self).spec_passwords() == old(self).spec_passwords(),
            final(self).spec_mode() == old(self).spec_mode(),
            final(self).spec_max_workers() == old(self).spec_max_workers(),
            final(self).spec_limit() == old(self).spec_limit(),
            final(self).spec_pause_ms() == old(self).spec_pause_ms(),
            final(self).spec_total() == old(self).spec_total(),
            final(self).spec_results() == old(self).spec_results(),
            final(self).spec_owners() == old(self).spec_owners(),
            forall|i: int| 0 <= i < old(self).spec_total() ==> final(self).lane(i) == old(self).lane(i),
            match a {
                SweepAction::Launch { index, pause_ms } => {
                    &&& old(self).spec_in_flight() < old(self).spec_limit()
                    &&& index < old(self).spec_total()
                    &&& !old(self).is_launched(index as int)
                    &&& old(self).spec_mode() != AttackMode::Fast ==> index == old(self).spec_launched()
                    &&& final(self).spec_launched() == old(self).spec_launched() + 1
                    &&& final(self).spec_in_flight() == old(self).spec_in_flight() + 1
                    &&& pause_ms == if old(self).spec_mode() == AttackMode::Stealth {
                        old(self).spec_pause_ms()
                    } else {
                        0
                    }
                    &&& final(self).spec_paused_ms() == old(self).spec_paused_ms() + pause_ms
                    &&& final(self).pending(index as int)
                    &&& final(self).spec_tries(index as int) == 1
                    &&& forall|i: int| i != index ==> final(self).pending(i) == old(self).pending(i)
                    &&& forall|i: int| i != index ==> final(self).is_launched(i) == old(self).is_launched(i)
                },
                SweepAction::Wait => {
                    &&& old(self).spec_in_flight() > 0
                    &&& (old(self).spec_in_flight() == old(self).spec_limit() || forall|i: int|
                        0 <= i < old(self).spec_total() && !old(self).is_launched(i) ==> exists|j: int|
                            #[trigger] old(self).pending(j) && old(self).lane(j) == old(self).lane(i))
                    &&& *final(self) == *old(self)
                },
                SweepAction::Finished => {
                    &&& old(self).finished()
                    &&& *final(self) == *old(self)
                },
            },
    {
        if self.in_flight < self.limit && self.ready.len() > 0 {
            let ghost old_ready = self.ready@;
            let ghost old_launched = self.launched@;
            let ghost old_next = self.lane_next@;
            let l = match self.ready.pop() {
                Some(l) => l,
                None => {
                    return SweepAction::Wait;
                },
            };
            assert(old_ready =~= self.ready@.push(l));
            assert(self.idle_with_work(l as int));
            let index = self.lane_next[l];
            proof {
                assert(self.lane_start@[l as int] <= index < self.lane_end@[l as int]);
                assert(self.lane_of@[index as int] == l);
                lemma_count_set(old_launched, index as int, self.total as int);
                lemma_count_missing(old_launched, index as int, self.total as int);
            }
            self.launched.set(index, true);
            self.tries.set(index, 1);
            self.lane_next.set(l, index + 1);
            self.launched_n = self.launched_n + 1;
            self.in_flight = self.in_flight + 1;
            let pause_ms = match self.mode {
                AttackMode::Stealth => self.pause_ms,
                _ => 0,
            };
            let ghost old_paused = self.paused_ms@;
            self.paused_ms = Ghost((old_paused + pause_ms) as nat);
            proof {
                if self.mode == AttackMode::Stealth {
                    assert((self.launched_n - 1 + 1) * self.pause_ms == (self.launched_n - 1) * self.pause_ms
                        + self.pause_ms) by (nonlinear_arith);
                }
                assert forall|i: int| 0 <= i < self.total implies (#[trigger] self.launched@[i] <==> i
                    < self.lane_next@[self.lane_of@[i] as int]) by {
                    if self.lane_of@[i] == l && i != index {
                        assert(old_launched[i] <==> i < old_next[l as int]);
                    }
                }
                assert forall|i: int|
                    0 <= i < self.total && i + 1 < self.lane_next@[self.lane_of@[i] as int] implies #[trigger] self.done@[i] by {
                    let li = self.lane_of@[i] as int;
                    if li == l {
                        if i + 1 == index {
                            assert(self.lane_start@[l as int] <= i);
                        } else {
                            assert(i + 1 < old(self).lane_next@[old(self).lane_of@[i] as int]);
                        }
                    } else {
                        assert(self.lane_next@[li] == old(self).lane_next@[li]);
                        assert(i + 1 < old(self).lane_next@[old(self).lane_of@[i] as int]);
                    }
                }
                assert forall|k: int| 0 <= k < self.ready@.len() implies #[trigger] self.ready@[k]
                    < self.lane_start@.len() && self.idle_with_work(self.ready@[k] as int) by {
                    assert(self.ready@[k] == old_ready[k]);
                    assert(old_ready[k] != l);
                }
                assert forall|m: int|
                    0 <= m < self.lane_start@.len() && #[trigger] self.idle_with_work(m) implies self.ready@.contains(
                    m as usize,
                ) by {
                    assert(m != l);
                    assert(self.lane_next@[m] == old(self).lane_next@[m]);
                    assert(old(self).idle_with_work(m));
                    assert(old_ready.contains(m as usize));
                    let k = choose|k: int| 0 <= k < old_ready.len() && old_ready[k] == m as usize;
                    assert(old_ready.len() == self.ready@.len() + 1);
                    assert(old_ready[old_ready.len() - 1] == l);
                    assert(k != old_ready.len() - 1);
                    assert(k < self.ready@.len());
                    assert(self.ready@[k] == m);
                }
                if self.mode != AttackMode::Fast {
                    assert(l == old_ready[old_ready.len() - 1]);
                    assert(index == l);
                }
                assert(forall|k1: int, k2: int|
                    0 <= k1 < self.ready@.len() && 0 <= k2 < self.ready@.len() && k1 != k2
                        ==> #[trigger] self.ready@[k1] != #[trigger] self.ready@[k2]);
                assert forall|m: int| 0 <= m < self.lane_start@.len() implies #[trigger] self.lane_start@[m]
                    <= self.lane_next@[m] <= self.lane_end@[m] by {
                    assert(old(self).lane_start@[m] <= old(self).lane_next@[m] <= old(self).lane_end@[m]);
                    if m == l {
                        assert(old(self).idle_with_work(m));
                    }
                }
                assert(forall|i: int| 0 <= i < self.total && #[trigger] self.done@[i] ==> self.launched@[i]);
                assert(forall|i: int| 0 <= i < self.total && !self.launched@[i] ==> #[trigger] self.tries@[i] == 0);
                assert(forall|i: int|
                    0 <= i < self.total && self.launched@[i] ==> 1 <= #[trigger] self.tries@[i] <= AGGRESSIVE_TRIES);
                assert(self.launched_n == count_true(self.launched@, self.total as int));
                assert(self.in_flight + self.results@.len() == self.launched_n);
                assert(self.in_flight <= self.limit);
                assert(self.mode == AttackMode::Stealth ==> self.paused_ms@ == self.launched_n * self.pause_ms);
                assert(forall|i: int| 0 <= i < self.total && #[trigger] self.done@[i] ==> owned(self.owners@, i));
                assert(self.results@ == old(self).results@);
                assert(forall|k: int| 0 <= k < self.results@.len() ==> result_ok(#[trigger] self.results@[k]));
            }
            SweepAction::Launch { index, pause_ms }
        } else if self.in_flight == 0 {
            proof {
                assert forall|i: int| 0 <= i < self.total implies #[trigger] self.launched@[i] by {
                    if !self.launched@[i] {
                        self.lemma_stalled_lanes(i);
                    }
                }
                lemma_count_all(self.launched@, self.total as int);
            }
            SweepAction::Finished
        } else {
            proof {
                if self.in_flight < self.limit {
                    assert forall|i: int| 0 <= i < self.total && !self.is_launched(i) implies exists|j: int|
                        #[trigger] self.pending(j) && self.lane(j) == self.lane(i) by {
                        self.lemma_stalled_lanes(i);
                    }
                }
            }
            SweepAction::Wait
        }
    }
}

impl SweepEngine {
    #[verifier::spinoff_prover]
    fn count_retry(&mut self, index: usize)
        requires
            old(self).wf(),
            old(self).pending(index as int),
            old(self).spec_tries(index as int) < AGGRESSIVE_TRIES,
        ensures
            final(self).wf(),
            *final(self) == (SweepEngine { tries: final(self).tries, ..*old(self) }),
            final(self).tries@ == old(self).tries@.update(index as int, (old(self).tries@[index as int] + 1) as u32),
    {
        let t = self.tries[index];
        self.tries.set(index, t + 1);
        proof {
            assert forall|i: int| 0 <= i < self.total && !self.launched@[i] implies #[trigger] self.tries@[i]
                == 0 by {
                assert(i != index);
            }
            assert forall|i: int| 0 <= i < self.total && self.launched@[i] implies 1 <= #[trigger] self.tries@[i]
                <= AGGRESSIVE_TRIES by {
                if i != index {
                    assert(self.tries@[i] == old(self).tries@[i]);
                }
            }
            assert forall|m: int|
                0 <= m < self.lane_start@.len() && #[trigger] self.idle_with_work(m) implies self.ready@.contains(
                m as usize,
            ) by {
                assert(old(self).idle_with_work(m));
            }
        }
    }

    /// Takes the outcome of the attempt on pending pair `index`. Under the
    /// aggressive strategy a transport failure with tries left asks for the
    /// same pair again after a short pause; any other outcome becomes the
    /// pair's one result, and the pair's lane may go on.
    #[verifier::spinoff_prover]
    #[verifier::rlimit(50)]
    pub fn complete(&mut self, index: usize, outcome: AttemptOutcome, timestamp_ms: i64) -> (step: CompletionStep)
        requires
            old(self).wf(),
            old(self).pending(index as int),
            outcome_ok(outcome),
        ensures
            final(self).wf(),
            final(self).spec_users() == old(self).spec_users(),
            final(self).spec_passwords() == old(self).spec_passwords(),
            final(self).spec_mode() == old(self).spec_mode(),
            final(self).spec_max_workers() == old(self).spec_max_workers(),
            final(self).spec_limit() == old(self).spec_limit(),
            final(self).spec_pause_ms() == old(self).spec_pause_ms(),
            final(self).spec_total() == old(self).spec_total(),
            final(self).spec_launched() == old(self).spec_launched(),
            final(self).spec_paused_ms() == old(self).spec_paused_ms(),
            forall|i: int| 0 <= i < old(self).spec_total() ==> final(self).lane(i) == old(self).lane(i),
            forall|i: int| final(self).is_launched(i) == old(self).is_launched(i),
            forall|i: int| i != index ==> final(self).pending(i) == old(self).pending(i),
            if old(self).spec_mode() == AttackMode::Aggressive && outcome is TransportFailed
                && old(self).spec_tries(index as int) < AGGRESSIVE_TRIES {
                &&& step == (CompletionStep::RetryAfter { delay_ms: AGGRESSIVE_RETRY_DELAY_MS })
                &&& final(self).pending(index as int)
                &&& final(self).spec_tries(index as int) == old(self).spec_tries(index as int) + 1
                &&& final(self).spec_in_flight() == old(self).spec_in_flight()
                &&& final(self).spec_results() == old(self).spec_results()
                &&& final(self).spec_owners() == old(self).spec_owners()
            } else {
                &&& step == CompletionStep::Recorded
                &&& !final(self).pending(index as int)
                &&& final(self).spec_in_flight() == old(self).spec_in_flight() - 1
                &&& final(self).spec_results().len() == old(self).spec_results().len() + 1
                &&& final(self).spec_results().drop_last() == old(self).spec_results()
                &&& describes(
                    final(self).spec_results().last(),
                    old(self).pair_user(index as int),
                    old(self).pair_password(index as int),
                    outcome,
                    timestamp_ms,
                )
                &&& final(self).spec_owners() == old(self).spec_owners().push(index as int)
            },
    {
        let retry = match self.mode {
            AttackMode::Aggressive => match &outcome {
                AttemptOutcome::TransportFailed { .. } => self.tries[index] < AGGRESSIVE_TRIES,
                _ => false,
            },
            _ => false,
        };
        if retry {
            self.count_retry(index);
            return CompletionStep::RetryAfter { delay_ms: AGGRESSIVE_RETRY_DELAY_MS };
        }
        let ghost old_done = self.done@;
        let ghost old_owners = self.owners@;
        let ghost old_results = self.results@;
        let ghost old_ready = self.ready@;
        let ghost total = self.total as int;
        proof {
            self.lemma_pending_is_last_of_lane(index as int);
            lemma_count_set(old_done, index as int, total);
        }
        let l = self.lane_of[index];
        let (username, password) = self.pair(index);
        let r = ScanResult::from_outcome(username.as_str(), password.as_str(), &outcome, timestamp_ms);
        self.results.push(r);
        self.done.set(index, true);
        self.in_flight = self.in_flight - 1;
        self.owners = Ghost(old_owners.push(index as int));
        proof {
            assert(self.lane_start@[l as int] <= index < self.lane_end@[l as int]);
            assert(self.lane_next@[l as int] == index + 1);
        }
        if self.lane_next[l] < self.lane_end[l] {
            proof {
                if old_ready.contains(l) {
                    let k = choose|k: int| 0 <= k < old_ready.len() && old_ready[k] == l;
                    assert(old(self).idle_with_work(l as int));
                    assert(false);
                }
            }
            self.ready.push(l);
        }
        proof {
            assert(self.results@.drop_last() =~= old_results);
            assert forall|m: int| 0 <= m < self.lane_start@.len() && m != l implies self.idle_with_work(m)
                == old(self).idle_with_work(m) by {
                let nx = self.lane_next@[m];
                if nx > self.lane_start@[m] {
                    assert(self.lane_start@[m] <= nx - 1 < self.lane_end@[m]);
                    assert(self.lane_of@[nx - 1] == m);
                }
            }
            assert forall|k: int| 0 <= k < self.ready@.len() implies #[trigger] self.ready@[k]
                < self.lane_start@.len() && self.idle_with_work(self.ready@[k] as int) by {
                if k < old_ready.len() {
                    assert(self.ready@[k] == old_ready[k]);
                    assert(old(self).idle_with_work(old_ready[k] as int));
                    if old_ready[k] == l {
                        assert(false);
                    }
                }
            }
            assert forall|k1: int, k2: int|
                0 <= k1 < self.ready@.len() && 0 <= k2 < self.ready@.len() && k1 != k2
                    implies #[trigger] self.ready@[k1] != #[trigger] self.ready@[k2] by {
                if k1 < old_ready.len() && k2 < old_ready.len() {
                    assert(self.ready@[k1] == old_ready[k1]);
                    assert(self.ready@[k2] == old_ready[k2]);
                } else if k1 < old_ready.len() {
                    assert(old(self).idle_with_work(old_ready[k1] as int));
                } else if k2 < old_ready.len() {
                    assert(old(self).idle_with_work(old_ready[k2] as int));
                }
            }
            assert forall|m: int|
                0 <= m < self.lane_start@.len() && #[trigger] self.idle_with_work(m) implies self.ready@.contains(
                m as usize,
            ) by {
                if m == l {
                    assert(self.ready@[self.ready@.len() - 1] == l);
                } else {
                    assert(old(self).idle_with_work(m));
                    assert(old_ready.contains(m as usize));
                    let k = choose|k: int| 0 <= k < old_ready.len() && old_ready[k] == m as usize;
                    assert(self.ready@[k] == m);
                }
            }
            assert forall|i: int|
                0 <= i < self.total && i + 1 < self.lane_next@[self.lane_of@[i] as int] implies #[trigger] self.done@[i] by {
                assert(old_done[i] || i == index);
            }
            assert forall|k: int| 0 <= k < self.owners@.len() implies 0 <= #[trigger] self.owners@[k]
                < self.total && self.done@[self.owners@[k]] by {
                if k < old_owners.len() {
                    assert(self.owners@[k] == old_owners[k]);
                }
            }
            assert forall|k1: int, k2: int|
                0 <= k1 < self.owners@.len() && 0 <= k2 < self.owners@.len() && k1 != k2
                    implies #[trigger] self.owners@[k1] != #[trigger] self.owners@[k2] by {
                if k1 < old_owners.len() && k2 < old_owners.len() {
                    assert(self.owners@[k1] == old_owners[k1]);
                    assert(self.owners@[k2] == old_owners[k2]);
                } else if k1 < old_owners.len() {
                    assert(old_done[old_owners[k1]]);
                } else if k2 < old_owners.len() {
                    assert(old_done[old_owners[k2]]);
                }
            }
            assert forall|i: int| 0 <= i < self.total && #[trigger] self.done@[i] implies owned(self.owners@, i) by {
                if i == index {
                    assert(self.owners@[old_owners.len() as int] == i);
                } else {
                    assert(old_done[i]);
                    assert(owned(old_owners, i));
                    let k = choose|k: int| 0 <= k < old_owners.len() && old_owners[k] == i;
                    assert(self.owners@[k] == i);
                }
            }
            assert forall|k: int| 0 <= k < self.results@.len() implies #[trigger] self.results@[k].username@
                == self.pair_user(self.owners@[k]) && self.results@[k].password@ == self.pair_password(
                self.owners@[k],
            ) by {
                if k < old_results.len() {
                    assert(self.results@[k] == old_results[k]);
                    assert(self.owners@[k] == old_owners[k]);
                }
            }
            if self.mode != AttackMode::Fast {
                assert(self.lane_next@[l as int] == self.lane_end@[l as int]);
                assert(self.ready@ == old_ready);
            }
        }
        CompletionStep::Recorded
    }
}

/// A finished sweep holds exactly one result per credential pair: there are
/// |users| × |passwords| results, every pair owns one of them, no pair owns
/// two, and each result names the pair that owns it.
pub proof fn lemma_one_result_per_pair(e: &SweepEngine)
    requires
        e.wf(),
        e.finished(),
    ensures
        e.spec_total() == e.n_users() * e.n_passwords(),
        e.spec_results().len() == e.n_users() * e.n_passwords(),
        forall|k: int| 0 <= k < e.spec_results().len() ==> result_ok(#[trigger] e.spec_results()[k]),
        e.spec_owners().len() == e.spec_results().len(),
        forall|i: int| 0 <= i < e.spec_total() ==> #[trigger] owned(e.spec_owners(), i),
        forall|k1: int, k2: int|
            0 <= k1 < e.spec_owners().len() && 0 <= k2 < e.spec_owners().len() && k1 != k2
                ==> #[trigger] e.spec_owners()[k1] != #[trigger] e.spec_owners()[k2],
        forall|k: int|
            0 <= k < e.spec_results().len() ==> #[trigger] e.spec_results()[k].username@ == e.pair_user(
                e.spec_owners()[k],
            ) && e.spec_results()[k].password@ == e.pair_password(e.spec_owners()[k]),
{
    lemma_count_bounded(e.done@, e.total as int);
    assert forall|i: int| 0 <= i < e.spec_total() implies #[trigger] owned(e.spec_owners(), i) by {
        assert(e.done@[i]);
    }
}

/// Under the stealth strategy one attempt at most is in flight, and the
/// pauses handed out with launches add up to the launched pairs times the
/// configured pause: N × D once all N pairs are launched.
pub proof fn lemma_stealth_pacing(e: &SweepEngine)
    requires
        e.wf(),
        e.spec_mode() == AttackMode::Stealth,
    ensures
        e.spec_in_flight() <= 1,
        e.spec_paused_ms() == e.spec_launched() * e.spec_pause_ms(),
        e.finished() ==> e.spec_paused_ms() == e.spec_total() * e.spec_pause_ms(),
{
}

/// Under the fast and aggressive strategies no more than `max_workers`
/// attempts are in flight at any time.
pub proof fn lemma_worker_bound(e: &SweepEngine)
    requires
        e.wf(),
        e.spec_mode() == AttackMode::Fast || e.spec_mode() == AttackMode::Aggressive,
    ensures
        e.spec_in_flight() <= e.spec_limit() <= e.spec_max_workers(),
        e.spec_mode() == AttackMode::Fast ==> chunk_count(e.n_users(), e.spec_max_workers())
            <= e.spec_max_workers(),
{
    lemma_chunks_within_workers(e.n_users(), e.spec_max_workers());
}

/// Under the fast strategy the lane of a pair is the chunk of its username,
/// and each chunk has at most one attempt in flight: its worker goes through
/// the chunk's pairs one at a time.
pub proof fn lemma_one_attempt_per_chunk(e: &SweepEngine, i: int, j: int)
    requires
        e.wf(),
        e.spec_mode() == AttackMode::Fast,
        e.pending(i),
        e.pending(j),
        e.lane(i) == e.lane(j),
    ensures
        i == j,
        e.lane(i) == (i / e.n_passwords() as int) / chunk_size(e.n_users(), e.spec_max_workers()) as int,
{
    e.lemma_pending_is_last_of_lane(i);
    e.lemma_pending_is_last_of_lane(j);
}

proof fn lemma_chunk_count(n: nat, cs: nat)
    requires
        cs >= 1,
    ensures
        n % cs != 0 ==> n / cs < n,
        n >= 1 ==> n / cs + (if n % cs == 0 { 0nat } else { 1nat }) >= 1,
{
    vstd::arithmetic::div_mod::lemma_fundamental_div_mod(n as int, cs as int);
    assert(n % cs != 0 ==> n / cs < n) by (nonlinear_arith)
        requires
            cs >= 1,
            n == cs * (n / cs) + n % cs,
            0 <= n % cs < cs,
            n / cs >= 0,
    ;
    assert(n >= 1 && n % cs == 0 ==> n / cs >= 1) by (nonlinear_arith)
        requires
            cs >= 1,
            n == cs * (n / cs) + n % cs,
            n / cs >= 0,
    ;
}

/// The usernames cut, in order, into chunks of `chunk_size(|users|, max_workers)`,
/// every chunk full but the last, which holds at least one.
pub fn user_chunks(users: &Vec<String>, max_workers: usize) -> (r: Vec<Vec<String>>)
    requires
        max_workers > 0,
    ensures
        r@.map_values(|c: Vec<String>| c@).flatten() == users@,
        forall|k: int| 0 <= k < r@.len() - 1 ==> #[trigger] r@[k]@.len() == chunk_size(users@.len(), max_workers as nat),
        r@.len() > 0 ==> 1 <= r@.last()@.len() <= chunk_size(users@.len(), max_workers as nat),
        users@.len() == 0 <==> r@.len() == 0,
        r@.len() <= max_workers,
{
    let n = users.len();
    let cs = fast_chunk_size(n, max_workers);
    proof {
        lemma_chunks_within_workers(n as nat, max_workers as nat);
    }
    let mut r: Vec<Vec<String>> = Vec::new();
    let mut start: usize = 0;
    while start < n
        invariant
            n == users@.len(),
            cs == chunk_size(n as nat, max_workers as nat),
            cs >= 1,
            start <= n,
            r@.map_values(|c: Vec<String>| c@).flatten() == users@.subrange(0, start as int),
            forall|k: int| 0 <= k < r@.len() ==> #[trigger] r@[k]@.len() == cs,
            start == 0 <==> r@.len() == 0,
            start == r@.len() * cs,
            cs * max_workers >= n,
        decreases n - start,
    {
        let end: usize = if n - start <= cs {
            n
        } else {
            start + cs
        };
        let mut chunk: Vec<String> = Vec::new();
        let mut i: usize = start;
        while i < end
            invariant
                start <= i <= end <= n,
                n == users@.len(),
                chunk@ == users@.subrange(start as int, i as int),
            decreases end - i,
        {
            chunk.push(users[i].clone());
            assert(chunk@ =~= users@.subrange(start as int, i + 1));
            i += 1;
        }
        let ghost before = r@;
        if end < n {
            assert(chunk@.len() == cs);
        }
        r.push(chunk);
        proof {
            assert(r@.map_values(|c: Vec<String>| c@) =~= before.map_values(|c: Vec<String>| c@).push(
                users@.subrange(start as int, end as int),
            ));
            before.map_values(|c: Vec<String>| c@).lemma_flatten_push(users@.subrange(start as int, end as int));
            assert(users@.subrange(0, start as int) + users@.subrange(start as int, end as int) =~= users@.subrange(0, end as int));
        }
        if end == n {
            assert(users@.subrange(0, n as int) =~= users@);
            assert(r@.len() <= max_workers) by (nonlinear_arith)
                requires
                    start == (r@.len() - 1) * cs,
                    start < n,
                    cs * max_workers >= n,
                    cs >= 1,
                    r@.len() >= 1,
            ;
            return r;
        }
        assert((r@.len() - 1) * cs + cs == r@.len() * cs) by (nonlinear_arith);
        start = end;
    }
    assert(users@.subrange(0, n as int) =~= users@);
    assert(r@.len() <= max_workers) by (nonlinear_arith)
        requires
            n == r@.len() * cs,
            cs * max_workers >= n,
            cs >= 1,
    ;
    r
}

/// Usernames per chunk of the fast strategy; see `chunk_size`.
pub fn fast_chunk_size(n_users: usize, workers: usize) -> (cs: usize)
    requires
        workers > 0,
    ensures
        cs == chunk_size(n_users as nat, workers as nat),
        cs >= 1,
{
    proof {
        lemma_chunk_count(n_users as nat, workers as nat);
    }
    let q = n_users / workers + if n_users % workers == 0 {
        0
    } else {
        1
    };
    if q == 0 {
        1
    } else {
        q
    }
}

/// The fast strategy makes at most `workers` chunks, and at least one when
/// there is a username.
pub proof fn lemma_chunks_within_workers(n: nat, w: nat)
    requires
        w >= 1,
    ensures
        chunk_count(n, w) <= w,
        n >= 1 ==> chunk_count(n, w) >= 1,
        chunk_size(n, w) * w >= n,
{
    let cs = chunk_size(n, w);
    vstd::arithmetic::div_mod::lemma_fundamental_div_mod(n as int, w as int);
    assert(cs * w >= n) by (nonlinear_arith)
        requires
            w >= 1,
            n == w * (n / w) + n % w,
            0 <= n % w < w,
            cs >= n / w,
            n % w != 0 ==> cs >= n / w + 1,
    ;
    vstd::arithmetic::div_mod::lemma_fundamental_div_mod(n as int, cs as int);
    assert(n / cs <= w && (n % cs != 0 ==> n / cs < w)) by (nonlinear_arith)
        requires
            cs >= 1,
            n == cs * (n / cs) + n % cs,
            0 <= n % cs < cs,
            cs * w >= n,
    ;
    lemma_chunk_count(n, cs);
}

fn compute_limit(mode: AttackMode, workers: usize, n_users: usize) -> (l: usize)
    requires
        workers > 0,
        n_users > 0,
    ensures
        l == in_flight_limit(mode, workers as nat, n_users as nat),
        l >= 1,
{
    match mode {
        AttackMode::Fast => {
            let cs = fast_chunk_size(n_users, workers);
            proof {
                lemma_chunk_count(n_users as nat, cs as nat);
            }
            let cc = n_users / cs + if n_users % cs == 0 {
                0
            } else {
                1
            };
            if cc < workers {
                cc
            } else {
                workers
            }
        },
        AttackMode::Normal => usize::MAX,
        AttackMode::Stealth => 1,
        AttackMode::Aggressive => workers,
    }
}

} // verus!
