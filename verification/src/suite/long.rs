//! `long`: waves of the router's main workload, many routes and connections
//! through them at the machine's capacity, sized from the node's allocatable
//! CPUs and this container's open-file limit, never assumed. Each wave:
//!
//! 1. ramp: creates its routes, alternating two backends, and times how long
//!    until every host is served by the right one;
//! 2. hold: that many connections in parallel, each a fresh request to some
//!    host of the wave, checked for the right backend, timed;
//! 3. drain: deletes the routes and times how long until every host is the
//!    router's 404 again;
//! 4. residue: no object of the run still listed, the supervisor saw no
//!    restart or crash, and the router's idle `/healthz` latency.
//!
//! A wave with a wrong answer, a leftover or a restart fails. The last line,
//! `trend`, fails on the first wave slower than the first wave of its size:
//! route programming, p99 latency, drain, or idle latency doubled (plus a
//! floor, so that microseconds of jitter are not a regression). Idle latency
//! is held against what it was before the first wave, too.

use crate::suite::env::{self, Env};
use crate::suite::hist::{self, Hist};
use crate::suite::http::{self, Reply};
use crate::suite::medium;
use crate::suite::probe::{self, Supervised};
use crate::suite::report::{Outcome, OutcomeView};
use crate::text;
use vstd::prelude::*;

verus! {

/// Routes per CPU per unit of mix.
pub const ROUTES_PER_CPU: u64 = 8;

/// Connections per CPU per unit of mix.
pub const CONNS_PER_CPU: u64 = 32;

/// The most routes of a wave.
pub const MAX_ROUTES: u64 = 2000;

/// How many routes are created or deleted at once.
pub const API_BATCH: usize = 32;

/// How many hosts are looked at once.
pub const LOOK_BATCH: usize = 64;

/// How long to sleep between two looks at the hosts of a wave, in
/// nanoseconds.
pub const LOOK_PAUSE: u128 = 250_000_000;

/// How many requests the idle latency is the median of.
pub const IDLE_SAMPLES: usize = 21;

/// The open-file limit where none is known.
pub const DEFAULT_FDS: u64 = 1024;

// ---------------------------------------------------------------------------
// Sizes
// ---------------------------------------------------------------------------

/// The size of a wave, as a multiple of the base: cycled so the night varies
/// the load.
pub open spec fn mix_of(n: nat) -> nat {
    if n % 4 == 1 {
        2
    } else if n % 4 == 3 {
        4
    } else {
        1
    }
}

/// The most connections at once under an open-file limit: each is two
/// descriptors here, with a margin for everything else.
pub open spec fn conns_under(fds: u64) -> nat {
    let n: nat = if fds < 256 {
        0
    } else {
        (fds - 256) as nat / 3
    };
    if n < 8 {
        8
    } else {
        n
    }
}

/// The most connections at once under an open-file limit.
pub fn max_conns(fds: u64) -> (r: u64)
    ensures
        r == conns_under(fds),
{
    let n: u64 = if fds < 256 {
        0
    } else {
        (fds - 256) / 3
    };
    if n < 8 {
        8
    } else {
        n
    }
}

/// Where the number of CPUs comes from, when the apiserver gave it.
pub fn cpus_of_node(node: &str) -> (r: String)
    ensures
        r@ == "node "@ + node@ + "'s allocatable cpu"@,
{
    String::from_str("node ").concat(node).concat("'s allocatable cpu")
}

/// Where the number of CPUs comes from, when the apiserver gave none.
pub fn cpus_of_container(why: &str) -> (r: String)
    ensures
        r@ == "this container's CPUs: the API gave none ("@ + why@ + ")"@,
{
    String::from_str("this container's CPUs: the API gave none (").concat(why).concat(")")
}

/// What the waves are sized from.
pub fn capacity(cpus: u64, whence: &str, fds: u64) -> (r: Outcome)
    ensures
        r@ == OutcomeView::Pass(
            text::decimal(cpus as nat) + " CPUs ("@ + whence@ + "); open-file limit "@
                + text::decimal(fds as nat) + ", so at most "@ + text::decimal(conns_under(fds))
                + " connections at once"@,
        ),
{
    Outcome::Pass(
        text::decimal_text(cpus as u128).concat(" CPUs (").concat(whence).concat(
            "); open-file limit ",
        ).concat(text::decimal_text(fds as u128).as_str()).concat(", so at most ").concat(
            text::decimal_text(max_conns(fds) as u128).as_str(),
        ).concat(" connections at once"),
    )
}

/// The time that is kept at the end: half a minute, or a sixth of the budget.
pub open spec fn margin_of(timeout: u128) -> nat {
    if timeout as nat / 6 < 30_000_000_000 {
        timeout as nat / 6
    } else {
        30_000_000_000
    }
}

/// The time that is kept at the end.
pub fn margin(timeout: u128) -> (r: u128)
    ensures
        r == margin_of(timeout),
{
    if timeout / 6 < 30_000_000_000 {
        timeout / 6
    } else {
        30_000_000_000
    }
}

/// Whether there is time for another wave.
pub open spec fn has_time(remaining: u128, timeout: u128) -> bool {
    remaining > 2 * margin_of(timeout)
}

/// Whether there is time for another wave.
pub fn goes_on(remaining: u128, timeout: u128) -> (r: bool)
    ensures
        r == has_time(remaining, timeout),
        r == (remaining > 2 * margin_of(timeout)),
{
    remaining > margin(timeout) * 2
}

/// The size of a wave. Times are in nanoseconds.
#[derive(Debug, Clone, Copy, PartialEq, Eq, Structural)]
pub struct Plan {
    pub mix: u64,
    pub routes: usize,
    pub conns: usize,
    pub hold: u128,
}

/// A number, but no less than `lo` and no more than `hi`.
pub open spec fn clamped(x: int, lo: int, hi: int) -> int {
    if x < lo {
        lo
    } else if x > hi {
        hi
    } else {
        x
    }
}

/// How long a wave holds: a quarter of what is left before the margin, from 3
/// seconds to two minutes.
pub open spec fn hold_of(remaining: u128, timeout: u128) -> int {
    clamped(
        (if remaining > margin_of(timeout) {
            (remaining - margin_of(timeout)) / 4
        } else {
            0
        }),
        3_000_000_000,
        120_000_000_000,
    )
}

/// Whether `r` is the size of wave `n`.
pub open spec fn is_plan(
    n: nat,
    cpus: u64,
    max_conns: u64,
    remaining: u128,
    timeout: u128,
    r: Plan,
) -> bool {
    &&& r.mix == mix_of(n)
    &&& r.routes == clamped(ROUTES_PER_CPU * cpus * mix_of(n), 4, MAX_ROUTES as int)
    &&& r.conns == (if CONNS_PER_CPU * cpus * mix_of(n) < max_conns {
        CONNS_PER_CPU * cpus * mix_of(n)
    } else {
        max_conns as int
    })
    &&& r.hold == hold_of(remaining, timeout)
}

/// The size of wave `n`.
pub fn plan(n: usize, cpus: u64, max_conns: u64, remaining: u128, timeout: u128) -> (r: Plan)
    requires
        CONNS_PER_CPU * cpus * mix_of(n as nat) <= u64::MAX,
        max_conns <= usize::MAX,
    ensures
        r.mix == mix_of(n as nat),
        r.routes == clamped(
            ROUTES_PER_CPU * cpus * mix_of(n as nat),
            4,
            MAX_ROUTES as int,
        ),
        r.conns == (if CONNS_PER_CPU * cpus * mix_of(n as nat) < max_conns {
            CONNS_PER_CPU * cpus * mix_of(n as nat)
        } else {
            max_conns as int
        }),
        r.hold == hold_of(remaining, timeout),
        is_plan(n as nat, cpus, max_conns, remaining, timeout, r),
{
    let k: usize = n % 4;
    let mix: u64 = if k == 1 {
        2
    } else if k == 3 {
        4
    } else {
        1
    };
    assert(ROUTES_PER_CPU * cpus * mix <= CONNS_PER_CPU * cpus * mix) by (nonlinear_arith)
        requires
            mix >= 0,
            cpus >= 0,
    ;
    assert(CONNS_PER_CPU * cpus <= CONNS_PER_CPU * cpus * mix) by (nonlinear_arith)
        requires
            mix >= 1,
            cpus >= 0,
    ;
    let want: u64 = ROUTES_PER_CPU * cpus * mix;
    let routes: usize = if want < 4 {
        4
    } else if want > MAX_ROUTES {
        MAX_ROUTES as usize
    } else {
        want as usize
    };
    let conns: u64 = CONNS_PER_CPU * cpus * mix;
    let m = margin(timeout);
    let left: u128 = if remaining > m {
        (remaining - m) / 4
    } else {
        0
    };
    let hold: u128 = if left < 3_000_000_000 {
        3_000_000_000
    } else if left > 120_000_000_000 {
        120_000_000_000
    } else {
        left
    };
    Plan {
        mix,
        routes,
        conns: if conns < max_conns {
            conns as usize
        } else {
            max_conns as usize
        },
        hold,
    }
}

/// How long the routes of a wave may take to show.
pub open spec fn ramp_of(route_wait: nat, routes: nat) -> nat {
    route_wait * 4 + 50_000_000 * routes
}

/// How long the routes of a wave may take to show: four times as long as one
/// change, and 50 milliseconds for each route.
pub fn ramp_wait(route_wait: u128, routes: usize) -> (r: u128)
    requires
        route_wait * 4 + 50_000_000 * routes <= u128::MAX,
    ensures
        r == route_wait * 4 + 50_000_000 * routes,
        r == ramp_of(route_wait as nat, routes as nat),
{
    route_wait * 4 + 50_000_000 * (routes as u128)
}

// ---------------------------------------------------------------------------
// Routes
// ---------------------------------------------------------------------------

/// The name of a route of a wave.
pub open spec fn route_name_of(n: nat, i: nat) -> Seq<char> {
    "w"@ + text::decimal(n) + "-"@ + text::decimal(i)
}

/// The name of route `i` of wave `n`.
pub fn route_name(n: usize, i: usize) -> (r: String)
    ensures
        r@ == route_name_of(n as nat, i as nat),
{
    String::from_str("w").concat(text::decimal_text(n as u128).as_str()).concat("-").concat(
        text::decimal_text(i as u128).as_str(),
    )
}

/// Host `i` of wave `n`, with the name of the backend that should serve it:
/// the two backends take turns.
pub open spec fn wanted_at(
    run_id: Seq<char>,
    suite: Seq<char>,
    n: nat,
    i: nat,
    a: Seq<char>,
    b: Seq<char>,
) -> (Seq<char>, Seq<char>) {
    (
        env::host_of_run(route_name_of(n, i), env::slug_of(run_id), suite),
        if i % 2 == 0 {
            a
        } else {
            b
        },
    )
}

/// The hosts of wave `n`, each with the name of the backend that should serve
/// it: the two backends take turns.
pub fn wanted(env: &Env, n: usize, routes: usize, a: &str, b: &str) -> (r: Vec<(String, String)>)
    ensures
        r@.len() == routes,
        forall|i: int|
            #![trigger r@[i]]
            0 <= i < routes ==> {
                &&& r@[i].0@ == env::host_of_run(
                    route_name_of(n as nat, i as nat),
                    env::slug_of(env.run_id@),
                    env.suite@,
                )
                &&& r@[i].1@ == if i % 2 == 0 {
                    a@
                } else {
                    b@
                }
            },
        forall|i: int|
            #![trigger r@[i]]
            0 <= i < routes ==> (r@[i].0@, r@[i].1@) == wanted_at(
                env.run_id@,
                env.suite@,
                n as nat,
                i as nat,
                a@,
                b@,
            ),
{
    let mut r: Vec<(String, String)> = Vec::new();
    let mut i: usize = 0;
    while i < routes
        invariant
            i <= routes,
            r@.len() == i,
            forall|k: int|
                #![trigger r@[k]]
                0 <= k < i ==> {
                    &&& r@[k].0@ == env::host_of_run(
                        route_name_of(n as nat, k as nat),
                        env::slug_of(env.run_id@),
                        env.suite@,
                    )
                    &&& r@[k].1@ == if k % 2 == 0 {
                        a@
                    } else {
                        b@
                    }
                },
        decreases routes - i,
    {
        let host = env.host(route_name(n, i).as_str());
        let backend = String::from_str(
            if i % 2 == 0 {
                a
            } else {
                b
            },
        );
        r.push((host, backend));
        i += 1;
    }
    r
}

/// Which host comes after host `i` of `len`.
pub open spec fn host_after(i: int, len: int) -> int {
    ((i * 2654435761) % (usize::MAX + 1) + 1) % (usize::MAX + 1) % len
}

/// Which host comes after host `i` of `len`: spread over all of them.
pub fn next_host(i: usize, len: usize) -> (r: usize)
    requires
        len > 0,
    ensures
        r == ((i * 2654435761) % (usize::MAX + 1) + 1) % (usize::MAX + 1) % (len as int),
        r < len,
        r == host_after(i as int, len as int),
{
    i.wrapping_mul(2654435761).wrapping_add(1) % len
}

/// Whether a host is as it should be: served by its backend while it is
/// routed, the router's 404 otherwise.
pub open spec fn as_it_should(r: Reply, backend: Seq<char>, routed: bool) -> bool {
    if routed {
        probe::is_served(r, backend)
    } else {
        probe::is_unrouted(r)
    }
}

/// Whether a host is as it should be: served by its backend while it is
/// routed, the router's 404 otherwise.
pub fn is_so(reply: &Reply, backend: &str, routed: bool) -> (r: bool)
    ensures
        r == (if routed {
            probe::is_served(*reply, backend@)
        } else {
            probe::is_unrouted(*reply)
        }),
        r == as_it_should(*reply, backend@, routed),
{
    if routed {
        probe::served_by(reply, backend)
    } else {
        probe::not_routed(reply)
    }
}

/// The hosts that are not as they should be, each with its backend.
pub open spec fn left_of(s: Seq<(String, String, bool)>) -> Seq<(Seq<char>, Seq<char>)>
    decreases s.len(),
{
    if s.len() == 0 {
        seq![]
    } else if s.last().2 {
        left_of(s.drop_last())
    } else {
        left_of(s.drop_last()).push((s.last().0@, s.last().1@))
    }
}

/// The hosts to look at again, each with its backend: those that were not as
/// they should be.
pub fn still_pending(round: &Vec<(String, String, bool)>) -> (r: Vec<(String, String)>)
    ensures
        medium::pair_views(r@) == left_of(round@),
{
    let mut r: Vec<(String, String)> = Vec::new();
    let mut i: usize = 0;
    assert(medium::pair_views(r@) =~= seq![]);
    assert(round@.take(0) =~= seq![]);
    while i < round.len()
        invariant
            i <= round@.len(),
            medium::pair_views(r@) == left_of(round@.take(i as int)),
        decreases round.len() - i,
    {
        assert(round@.take(i + 1).drop_last() =~= round@.take(i as int));
        let ghost before = r@;
        if !round[i].2 {
            let h = String::from_str(round[i].0.as_str());
            let b = String::from_str(round[i].1.as_str());
            r.push((h, b));
            assert(medium::pair_views(r@) =~= medium::pair_views(before).push(
                (round@[i as int].0@, round@[i as int].1@),
            ));
        }
        i += 1;
    }
    assert(round@.take(i as int) =~= round@);
    r
}

/// Whether a wait for all hosts is over: none is left, or time is up.
pub open spec fn wait_is_over(pending: nat, elapsed: u128, wait: u128) -> bool {
    pending == 0 || elapsed >= wait
}

/// Whether a wait for all hosts is over: none is left, or time is up.
pub fn all_over(pending: usize, elapsed: u128, wait: u128) -> (r: bool)
    ensures
        r == wait_is_over(pending as nat, elapsed, wait),
        r == (pending == 0 || elapsed >= wait),
{
    pending == 0 || elapsed >= wait
}

// ---------------------------------------------------------------------------
// Load
// ---------------------------------------------------------------------------

/// What a number of requests came to.
pub struct Load {
    /// The latencies of those that were right, in microseconds.
    pub hist: Hist,
    /// How many were not.
    pub errors: u64,
    /// What was wrong with the first of those.
    pub first: Option<String>,
}

/// What is wrong with a reply.
pub open spec fn wrong_text(host: Seq<char>, r: Reply) -> Seq<char> {
    match r {
        Reply::Answer(a) => host + ": "@ + probe::seen_resp(a),
        Reply::Closed => host + ": closed with no response"@,
        Reply::Failed(f) => host + ": "@ + f.why@,
    }
}

/// Whether a load goes from `before` to `after` with the reply to a request
/// that took so many microseconds.
pub open spec fn takes_in(
    before: Load,
    host: Seq<char>,
    backend: Seq<char>,
    r: Reply,
    micros: u64,
    after: Load,
) -> bool {
    if probe::is_served(r, backend) {
        &&& after.hist.0@ == before.hist.0@.update(
            hist::bucket(micros as nat) as int,
            (before.hist.0@[hist::bucket(micros as nat) as int] + 1) as u64,
        )
        &&& after.hist.counted() == before.hist.counted() + 1
        &&& after.errors == before.errors
        &&& after.first == before.first
    } else {
        &&& after.hist == before.hist
        &&& after.errors == (before.errors + 1) % (u64::MAX + 1)
        &&& text::opt_string(after.first) == (match before.first {
            Some(e) => Some(e@),
            None => Some(wrong_text(host, r)),
        })
    }
}

/// Whether a load goes from `before` to `after` with what other requests came
/// to.
pub open spec fn takes_over(before: Load, o: Load, after: Load) -> bool {
    &&& after.hist.counted() == before.hist.counted() + o.hist.counted()
    &&& after.errors == (before.errors + o.errors) % (u64::MAX + 1)
    &&& after.first == (match before.first {
        Some(_) => before.first,
        None => o.first,
    })
}

impl Load {
    /// No requests.
    pub fn new() -> (r: Load)
        ensures
            r.hist.0@ == Seq::new(512, |i: int| 0u64),
            r.hist.counted() == 0,
            r.errors == 0,
            r.first is None,
    {
        Load { hist: Hist::new(), errors: 0, first: None }
    }

    /// Takes the reply to a request that took so many microseconds.
    pub fn saw(&mut self, host: &str, backend: &str, reply: &Reply, micros: u64)
        requires
            old(self).hist.counted() < u64::MAX,
        ensures
            takes_in(*old(self), host@, backend@, *reply, micros, *final(self)),
            probe::is_served(*reply, backend@) ==> {
                &&& final(self).hist.0@ == old(self).hist.0@.update(
                    hist::bucket(micros as nat) as int,
                    (old(self).hist.0@[hist::bucket(micros as nat) as int] + 1) as u64,
                )
                &&& final(self).hist.counted() == old(self).hist.counted() + 1
                &&& final(self).errors == old(self).errors
                &&& final(self).first == old(self).first
            },
            !probe::is_served(*reply, backend@) ==> {
                &&& final(self).hist == old(self).hist
                &&& final(self).errors == (old(self).errors + 1) % (u64::MAX + 1)
                &&& text::opt_string(final(self).first) == (match old(self).first {
                    Some(e) => Some(e@),
                    None => Some(wrong_text(host@, *reply)),
                })
            },
    {
        if probe::served_by(reply, backend) {
            self.hist.add(micros);
        } else {
            self.errors = self.errors.wrapping_add(1);
            if self.first.is_none() {
                let h = String::from_str(host);
                self.first = Some(
                    match reply {
                        Reply::Answer(a) => h.concat(": ").concat(
                            probe::tell_trimmed(a).as_str(),
                        ),
                        Reply::Closed => h.concat(": closed with no response"),
                        Reply::Failed(f) => h.concat(": ").concat(f.why.as_str()),
                    },
                );
            }
        }
    }

    /// Adds what other requests came to. What was wrong first here stays.
    pub fn merge(&mut self, o: Load)
        requires
            old(self).hist.counted() + o.hist.counted() <= u64::MAX,
        ensures
            takes_over(*old(self), o, *final(self)),
            final(self).hist.0@ == Seq::new(
                512,
                |i: int| (old(self).hist.0@[i] + o.hist.0@[i]) as u64,
            ),
            final(self).hist.counted() == old(self).hist.counted() + o.hist.counted(),
            final(self).errors == (old(self).errors + o.errors) % (u64::MAX + 1),
            final(self).first == (match old(self).first {
                Some(_) => old(self).first,
                None => o.first,
            }),
    {
        self.hist.merge(&o.hist);
        self.errors = self.errors.wrapping_add(o.errors);
        if self.first.is_none() {
            self.first = o.first;
        }
    }
}

// ---------------------------------------------------------------------------
// Idle latency
// ---------------------------------------------------------------------------

/// Whether some numbers ascend.
pub open spec fn ascends(s: Seq<u64>) -> bool {
    forall|i: int, j: int| 0 <= i <= j < s.len() ==> s[i] <= s[j]
}

/// Calls `sort_unstable` on the numbers of a `Vec`: the result has the same
/// numbers, each as often, in ascending order.
#[verifier::external_body]
fn sorted(v: Vec<u64>) -> (r: Vec<u64>)
    ensures
        r@.to_multiset() == v@.to_multiset(),
        ascends(r@),
{
    let mut v = v;
    v.sort_unstable();
    v
}

/// Whether a number stands in the middle of some numbers, in their order.
pub open spec fn is_median(m: u64, s: Seq<u64>) -> bool {
    exists|t: Seq<u64>|
        {
            &&& #[trigger] ascends(t)
            &&& t.to_multiset() == s.to_multiset()
            &&& t.len() == s.len()
            &&& m == t[s.len() as int / 2]
        }
}

/// Whether a reply counts for the idle latency.
pub open spec fn is_idle_answer(r: Reply) -> bool {
    r matches Reply::Answer(a) && a.status == 200
}

/// Whether a reply counts for the idle latency.
pub fn counts_idle(reply: &Reply) -> (r: bool)
    ensures
        r == is_idle_answer(*reply),
        r == (reply matches Reply::Answer(a) && a.status == 200),
{
    match reply {
        Reply::Answer(a) => a.status == 200,
        _ => false,
    }
}

/// The idle latency: the median of some latencies; nothing without any.
pub fn idle_p50(v: Vec<u64>) -> (r: Option<u64>)
    ensures
        match r {
            Some(m) => v@.len() > 0 && is_median(m, v@),
            None => v@.len() == 0,
        },
{
    let n = v.len();
    let s = sorted(v);
    proof {
        vstd::seq_lib::to_multiset_len(s@);
        vstd::seq_lib::to_multiset_len(v@);
        assert(s@.len() == v@.len());
    }
    if n == 0 {
        return None;
    }
    let m: u64 = s[n / 2];
    assert(ascends(s@));
    Some(m)
}

// ---------------------------------------------------------------------------
// Waves
// ---------------------------------------------------------------------------

/// A wave, measured.
pub struct Wave {
    pub n: usize,
    pub mix: u64,
    pub routes: usize,
    pub conns: usize,
    pub route_ms: u128,
    pub requests: u64,
    pub errors: u64,
    pub p50_us: u64,
    pub p99_us: u64,
    pub rps: u64,
    pub drain_ms: u128,
    pub leftovers: usize,
    pub restarts: Option<u64>,
    pub idle_p50_us: Option<u64>,
    pub problem: Option<String>,
}

/// What a wave did. Times are in nanoseconds.
pub struct Done {
    /// What went wrong creating routes.
    pub creates: Vec<String>,
    /// The hosts that were never served right.
    pub unserved: Vec<String>,
    /// How long the ramp took.
    pub ramp: u128,
    /// How long it might have taken, and the drain likewise.
    pub wait: u128,
    /// What the requests came to.
    pub load: Load,
    /// The rank of the median among the latencies.
    pub p50_rank: u64,
    /// The rank of the 99th percentile among the latencies.
    pub p99_rank: u64,
    /// What went wrong deleting routes.
    pub deletes: Vec<String>,
    /// The hosts that were still routed.
    pub routed: Vec<String>,
    /// How long the drain took.
    pub drain: u128,
    /// How many objects were left, or why that is not known.
    pub leftovers: Result<usize, String>,
    /// What the supervisor said before the first wave, and says now.
    pub supervised: Option<(Supervised, Result<Supervised, String>)>,
    /// The router's idle latency.
    pub idle: Option<u64>,
}

/// How many restarts and crashes there were between two views.
pub open spec fn restarts_between(before: Supervised, now: Supervised) -> int {
    let a = now.restarts + now.crashes;
    let b = before.restarts + before.crashes;
    if a > b {
        a - b
    } else {
        0
    }
}

/// What one problem of each text is, told by what failed.
pub open spec fn each(what: Seq<char>, v: Seq<String>) -> Seq<Seq<char>> {
    v.map_values(|e: String| what + e@)
}

impl Done {
    /// What was wrong with the ramp.
    pub open spec fn ramp_problem(self, routes: usize) -> Seq<Seq<char>> {
        env::when(
            self.unserved@.len() > 0,
            text::decimal(self.unserved@.len()) + " of "@ + text::decimal(routes as nat)
                + " hosts never served right in "@ + text::decimal(env::whole_secs(self.wait))
                + " s (e.g. "@ + self.unserved@[0]@ + ")"@,
        )
    }

    /// What was wrong with the requests.
    pub open spec fn load_problem(self) -> Seq<Seq<char>> {
        env::when(
            self.load.errors > 0,
            text::decimal(self.load.errors as nat) + " wrong or failed requests; first: "@
                + match self.load.first {
                Some(e) => e@,
                None => ""@,
            },
        )
    }

    /// What was wrong with the drain.
    pub open spec fn drain_problem(self) -> Seq<Seq<char>> {
        env::when(
            self.routed@.len() > 0,
            text::decimal(self.routed@.len()) + " hosts still routed "@ + text::decimal(
                env::whole_secs(self.wait),
            ) + " s after their routes were deleted (e.g. "@ + self.routed@[0]@ + ")"@,
        )
    }

    /// What was left.
    pub open spec fn residue_problem(self) -> Seq<Seq<char>> {
        match self.leftovers {
            Ok(k) => env::when(
                k > 0,
                text::decimal(k as nat) + " objects of this run still listed after the drain"@,
            ),
            Err(e) => seq!["cannot list leftovers: "@ + e@],
        }
    }

    /// What the supervisor saw.
    pub open spec fn restart_problem(self) -> Seq<Seq<char>> {
        match self.supervised {
            Some(s) => match s.1 {
                Ok(now) => env::when(
                    restarts_between(s.0, now) > 0 || !now.running,
                    "stormd: "@ + s.0.shown() + " before the first wave, "@ + now.shown()
                        + " now"@,
                ),
                Err(e) => seq![e@],
            },
            None => seq![],
        }
    }

    /// Whether the router still answers.
    pub open spec fn idle_problem(self) -> Seq<Seq<char>> {
        env::when(
            self.idle is None,
            "the router's /healthz did not answer after the drain"@,
        )
    }

    /// All that was wrong, in the order in which it happened.
    pub open spec fn problems(self, routes: usize) -> Seq<Seq<char>> {
        each("create: "@, self.creates@) + self.ramp_problem(routes) + self.load_problem() + each(
            "delete: "@,
            self.deletes@,
        ) + self.drain_problem() + self.residue_problem() + self.restart_problem()
            + self.idle_problem()
    }

    /// How many restarts and crashes there were; nothing where that is not
    /// known.
    pub open spec fn restarts_seen(self) -> Option<int> {
        match self.supervised {
            Some(s) => match s.1 {
                Ok(now) => Some(restarts_between(s.0, now)),
                Err(_) => None,
            },
            None => None,
        }
    }
}

/// Appends one problem for each text.
fn push_each(problems: &mut Vec<String>, what: &str, v: &Vec<String>)
    ensures
        text::texts(final(problems)@) == text::texts(old(problems)@) + each(what@, v@),
{
    let mut i: usize = 0;
    let ghost start = text::texts(problems@);
    assert(each(what@, v@).take(0) =~= seq![]);
    assert(start + each(what@, v@).take(0) =~= start);
    while i < v.len()
        invariant
            i <= v@.len(),
            text::texts(problems@) == start + each(what@, v@).take(i as int),
        decreases v.len() - i,
    {
        push(problems, String::from_str(what).concat(v[i].as_str()));
        i += 1;
        assert(each(what@, v@).take(i as int) =~= each(what@, v@).take(i - 1).push(
            what@ + v@[i - 1]@,
        ));
        assert(text::texts(problems@) =~= start + each(what@, v@).take(i as int));
    }
    assert(each(what@, v@).take(i as int) =~= each(what@, v@));
}

/// Appends one problem.
fn push(problems: &mut Vec<String>, what: String)
    ensures
        text::texts(final(problems)@) == text::texts(old(problems)@).push(what@),
{
    let ghost before = problems@;
    problems.push(what);
    assert(text::texts(problems@) =~= text::texts(before).push(what@));
}

/// All that was wrong with the ramp, the requests and the drain.
fn work_problems(d: &Done, routes: usize) -> (r: Vec<String>)
    ensures
        text::texts(r@) == each("create: "@, d.creates@) + d.ramp_problem(routes)
            + d.load_problem() + each("delete: "@, d.deletes@) + d.drain_problem(),
{
    let mut p: Vec<String> = Vec::new();
    assert(text::texts(p@) =~= seq![]);
    let secs = env::secs_text(d.wait);
    push_each(&mut p, "create: ", &d.creates);
    let ghost a = each("create: "@, d.creates@);
    assert(text::texts(p@) =~= a);
    if d.unserved.len() > 0 {
        push(
            &mut p,
            text::decimal_text(d.unserved.len() as u128).concat(" of ").concat(
                text::decimal_text(routes as u128).as_str(),
            ).concat(" hosts never served right in ").concat(secs.as_str()).concat(
                " s (e.g. ",
            ).concat(d.unserved[0].as_str()).concat(")"),
        );
    }
    let ghost b = a + d.ramp_problem(routes);
    assert(text::texts(p@) =~= b);
    if d.load.errors > 0 {
        let first = match &d.load.first {
            Some(e) => e.as_str(),
            None => "",
        };
        push(
            &mut p,
            text::decimal_text(d.load.errors as u128).concat(
                " wrong or failed requests; first: ",
            ).concat(first),
        );
    }
    let ghost c = b + d.load_problem();
    assert(text::texts(p@) =~= c);
    push_each(&mut p, "delete: ", &d.deletes);
    let ghost e = c + each("delete: "@, d.deletes@);
    assert(text::texts(p@) =~= e);
    if d.routed.len() > 0 {
        push(
            &mut p,
            text::decimal_text(d.routed.len() as u128).concat(" hosts still routed ").concat(
                secs.as_str(),
            ).concat(" s after their routes were deleted (e.g. ").concat(
                d.routed[0].as_str(),
            ).concat(")"),
        );
    }
    assert(text::texts(p@) =~= e + d.drain_problem());
    p
}

/// Whether `r` is what a wave comes to.
pub open spec fn is_wave(n: usize, plan: Plan, d: Done, r: Wave) -> bool {
    &&& r.n == n
    &&& r.mix == plan.mix
    &&& r.routes == plan.routes
    &&& r.conns == plan.conns
    &&& r.route_ms == env::whole_millis(d.ramp)
    &&& r.requests == d.load.hist.counted()
    &&& r.errors == d.load.errors
    &&& r.p50_us == d.load.hist.quantile_of(d.p50_rank as nat)
    &&& r.p99_us == d.load.hist.quantile_of(d.p99_rank as nat)
    &&& r.rps == d.load.hist.counted() * 1000 / (if env::whole_millis(plan.hold) == 0 {
        1
    } else {
        env::whole_millis(plan.hold)
    })
    &&& r.drain_ms == env::whole_millis(d.drain)
    &&& r.leftovers == (match d.leftovers {
        Ok(k) => k,
        Err(_) => 0,
    })
    &&& match r.restarts {
        Some(k) => d.restarts_seen() == Some(k as int),
        None => d.restarts_seen() is None,
    }
    &&& r.idle_p50_us == d.idle
    &&& match r.problem {
        Some(p) => d.problems(plan.routes).len() > 0 && p@ == text::joined(
            d.problems(plan.routes),
            "; "@,
        ),
        None => d.problems(plan.routes).len() == 0,
    }
}

/// What a wave comes to: its measures, and what was wrong with it.
pub fn wave(n: usize, plan: &Plan, d: &Done) -> (r: Wave)
    requires
        d.load.hist.counted() * 1000 <= u64::MAX,
        plan.hold / 1_000_000 <= u64::MAX,
        match d.supervised {
            Some(s) => {
                &&& s.0.restarts + s.0.crashes <= u64::MAX
                &&& s.1 matches Ok(now) ==> now.restarts + now.crashes <= u64::MAX
            },
            None => true,
        },
    ensures
        r.n == n,
        r.mix == plan.mix,
        r.routes == plan.routes,
        r.conns == plan.conns,
        r.route_ms == env::whole_millis(d.ramp),
        r.requests == d.load.hist.counted(),
        r.errors == d.load.errors,
        r.p50_us == d.load.hist.quantile_of(d.p50_rank as nat),
        r.p99_us == d.load.hist.quantile_of(d.p99_rank as nat),
        r.rps == d.load.hist.counted() * 1000 / (if env::whole_millis(plan.hold) == 0 {
            1
        } else {
            env::whole_millis(plan.hold)
        }),
        r.drain_ms == env::whole_millis(d.drain),
        r.leftovers == (match d.leftovers {
            Ok(k) => k,
            Err(_) => 0,
        }),
        match r.restarts {
            Some(k) => d.restarts_seen() == Some(k as int),
            None => d.restarts_seen() is None,
        },
        r.idle_p50_us == d.idle,
        is_wave(n, *plan, *d, r),
        match r.problem {
            Some(p) => d.problems(plan.routes).len() > 0 && p@ == text::joined(
                d.problems(plan.routes),
                "; "@,
            ),
            None => d.problems(plan.routes).len() == 0,
        },
{
    let mut p = work_problems(d, plan.routes);
    let ghost a = text::texts(p@);
    let leftovers: usize = match &d.leftovers {
        Ok(k) => *k,
        Err(e) => {
            push(&mut p, String::from_str("cannot list leftovers: ").concat(e.as_str()));
            0
        },
    };
    if leftovers > 0 {
        push(
            &mut p,
            text::decimal_text(leftovers as u128).concat(
                " objects of this run still listed after the drain",
            ),
        );
    }
    let ghost b = a + d.residue_problem();
    assert(text::texts(p@) =~= b);
    let restarts: Option<u64> = match &d.supervised {
        Some((before, Ok(now))) => {
            let x: u64 = now.restarts + now.crashes;
            let y: u64 = before.restarts + before.crashes;
            let k: u64 = if x > y {
                x - y
            } else {
                0
            };
            if k > 0 || !now.running {
                push(
                    &mut p,
                    String::from_str("stormd: ").concat(before.show().as_str()).concat(
                        " before the first wave, ",
                    ).concat(now.show().as_str()).concat(" now"),
                );
            }
            Some(k)
        },
        Some((_, Err(e))) => {
            push(&mut p, String::from_str(e.as_str()));
            None
        },
        None => None,
    };
    let ghost c = b + d.restart_problem();
    assert(text::texts(p@) =~= c);
    if d.idle.is_none() {
        push(
            &mut p,
            String::from_str("the router's /healthz did not answer after the drain"),
        );
    }
    assert(text::texts(p@) =~= d.problems(plan.routes));
    assert(text::texts(p@).len() == p@.len());
    let requests = d.load.hist.count();
    let millis: u64 = (plan.hold / 1_000_000) as u64;
    let rps: u64 = requests * 1000 / (if millis == 0 {
        1
    } else {
        millis
    });
    let problem = if p.len() == 0 {
        None
    } else {
        Some(text::join_texts(&p, "; "))
    };
    Wave {
        n,
        mix: plan.mix,
        routes: plan.routes,
        conns: plan.conns,
        route_ms: d.ramp / 1_000_000,
        requests,
        errors: d.load.errors,
        p50_us: d.load.hist.quantile(d.p50_rank),
        p99_us: d.load.hist.quantile(d.p99_rank),
        rps,
        drain_ms: d.drain / 1_000_000,
        leftovers,
        restarts,
        idle_p50_us: d.idle,
        problem,
    }
}

/// A number where there is one, as JSON.
pub open spec fn opt_shown(v: Option<u64>) -> Seq<char> {
    match v {
        Some(n) => text::decimal(n as nat),
        None => "null"@,
    }
}

fn show_opt(v: Option<u64>) -> (r: String)
    ensures
        r@ == opt_shown(v),
{
    match v {
        Some(n) => text::decimal_text(n as u128),
        None => String::from_str("null"),
    }
}

impl Wave {
    /// The measures, as the members of a JSON object.
    pub open spec fn members(self) -> Seq<char> {
        "\"wave\": "@ + text::decimal(self.n as nat) + ", \"mix\": "@ + text::decimal(
            self.mix as nat,
        ) + ", \"routes\": "@ + text::decimal(self.routes as nat) + ", \"conns\": "@
            + text::decimal(self.conns as nat) + ", \"route_ms\": "@ + text::decimal(
            self.route_ms as nat,
        ) + ", \"requests\": "@ + text::decimal(self.requests as nat) + ", \"errors\": "@
            + text::decimal(self.errors as nat) + ", \"p50_us\": "@ + text::decimal(
            self.p50_us as nat,
        ) + ", \"p99_us\": "@ + text::decimal(self.p99_us as nat) + ", \"rps\": "@ + text::decimal(
            self.rps as nat,
        ) + ", \"drain_ms\": "@ + text::decimal(self.drain_ms as nat) + ", \"leftovers\": "@
            + text::decimal(self.leftovers as nat) + ", \"restarts\": "@ + opt_shown(self.restarts)
            + ", \"idle_p50_us\": "@ + opt_shown(self.idle_p50_us)
    }

    /// The measures, as the members of a JSON object.
    pub fn json(&self) -> (r: String)
        ensures
            r@ == self.members(),
    {
        String::from_str("\"wave\": ").concat(
            text::decimal_text(self.n as u128).as_str(),
        ).concat(", \"mix\": ").concat(text::decimal_text(self.mix as u128).as_str()).concat(
            ", \"routes\": ",
        ).concat(text::decimal_text(self.routes as u128).as_str()).concat(
            ", \"conns\": ",
        ).concat(text::decimal_text(self.conns as u128).as_str()).concat(
            ", \"route_ms\": ",
        ).concat(text::decimal_text(self.route_ms).as_str()).concat(", \"requests\": ").concat(
            text::decimal_text(self.requests as u128).as_str(),
        ).concat(", \"errors\": ").concat(
            text::decimal_text(self.errors as u128).as_str(),
        ).concat(", \"p50_us\": ").concat(
            text::decimal_text(self.p50_us as u128).as_str(),
        ).concat(", \"p99_us\": ").concat(
            text::decimal_text(self.p99_us as u128).as_str(),
        ).concat(", \"rps\": ").concat(text::decimal_text(self.rps as u128).as_str()).concat(
            ", \"drain_ms\": ",
        ).concat(text::decimal_text(self.drain_ms).as_str()).concat(
            ", \"leftovers\": ",
        ).concat(text::decimal_text(self.leftovers as u128).as_str()).concat(
            ", \"restarts\": ",
        ).concat(show_opt(self.restarts).as_str()).concat(", \"idle_p50_us\": ").concat(
            show_opt(self.idle_p50_us).as_str(),
        )
    }

    /// The outcome of the wave.
    pub open spec fn verdict(self, hold: u128) -> OutcomeView {
        match self.problem {
            None => OutcomeView::Pass(
                text::decimal(self.routes as nat) + " routes, "@ + text::decimal(self.conns as nat)
                    + " connections for "@ + text::decimal(env::whole_secs(hold)) + " s: "@
                    + text::decimal(self.requests as nat) + " requests, p99 "@ + text::decimal(
                    self.p99_us as nat,
                ) + " us"@,
            ),
            Some(p) => OutcomeView::Fail(p@),
        }
    }

    /// The outcome of the wave.
    pub fn outcome(&self, hold: u128) -> (r: Outcome)
        ensures
            r@ == self.verdict(hold),
            r@ == (match self.problem {
                None => OutcomeView::Pass(
                    text::decimal(self.routes as nat) + " routes, "@ + text::decimal(
                        self.conns as nat,
                    ) + " connections for "@ + text::decimal(env::whole_secs(hold)) + " s: "@
                        + text::decimal(self.requests as nat) + " requests, p99 "@ + text::decimal(
                        self.p99_us as nat,
                    ) + " us"@,
                ),
                Some(p) => OutcomeView::Fail(p@),
            }),
    {
        match &self.problem {
            None => Outcome::Pass(
                text::decimal_text(self.routes as u128).concat(" routes, ").concat(
                    text::decimal_text(self.conns as u128).as_str(),
                ).concat(" connections for ").concat(env::secs_text(hold).as_str()).concat(
                    " s: ",
                ).concat(text::decimal_text(self.requests as u128).as_str()).concat(
                    " requests, p99 ",
                ).concat(text::decimal_text(self.p99_us as u128).as_str()).concat(" us"),
            ),
            Some(p) => Outcome::Fail(String::from_str(p.as_str())),
        }
    }
}

// ---------------------------------------------------------------------------
// The trend
// ---------------------------------------------------------------------------

/// Whether a measure is worse than its base: more than double, and a floor,
/// so that jitter is not a regression.
pub open spec fn is_worse(now: int, base: int, floor: int) -> bool {
    now > 2 * base + floor
}

/// What a wave is slower in than the first of its size, and in its idle
/// latency than what was measured before the first wave.
pub open spec fn slower(w: Wave, base: Wave, idle0: Option<u64>) -> Seq<Seq<char>> {
    env::when(
        is_worse(w.route_ms as int, base.route_ms as int, 5000),
        "route programming "@ + text::decimal(w.route_ms as nat) + " ms, wave "@ + text::decimal(
            base.n as nat,
        ) + " took "@ + text::decimal(base.route_ms as nat) + " ms"@,
    ) + env::when(
        is_worse(w.p99_us as int, base.p99_us as int, 5000),
        "p99 "@ + text::decimal(w.p99_us as nat) + " us, wave "@ + text::decimal(base.n as nat)
            + " had "@ + text::decimal(base.p99_us as nat) + " us"@,
    ) + env::when(
        is_worse(w.drain_ms as int, base.drain_ms as int, 5000),
        "drain "@ + text::decimal(w.drain_ms as nat) + " ms, wave "@ + text::decimal(base.n as nat)
            + " took "@ + text::decimal(base.drain_ms as nat) + " ms"@,
    ) + match (w.idle_p50_us, base.idle_p50_us) {
        (Some(i), Some(b)) => env::when(
            is_worse(i as int, b as int, 2000),
            "idle /healthz "@ + text::decimal(i as nat) + " us, wave "@ + text::decimal(
                base.n as nat,
            ) + " had "@ + text::decimal(b as nat) + " us"@,
        ),
        _ => seq![],
    } + match (w.idle_p50_us, idle0) {
        (Some(i), Some(i0)) => env::when(
            is_worse(i as int, i0 as int, 2000),
            "idle /healthz "@ + text::decimal(i as nat) + " us, "@ + text::decimal(i0 as nat)
                + " us before the first wave"@,
        ),
        _ => seq![],
    }
}

/// The first wave of a size.
pub open spec fn first_of(waves: Seq<Wave>, mix: u64) -> int
    decreases waves.len(),
{
    if waves.len() == 0 || waves[0].mix == mix {
        0
    } else {
        1 + first_of(waves.drop_first(), mix)
    }
}

/// What wave `i` is slower in than the first of its size.
pub open spec fn regress(waves: Seq<Wave>, i: int, idle0: Option<u64>) -> Seq<Seq<char>> {
    slower(waves[i], waves[first_of(waves, waves[i].mix)], idle0)
}

/// The first wave from `i` on that is slower than the first of its size.
pub open spec fn first_regress(waves: Seq<Wave>, i: int, idle0: Option<u64>) -> Option<int>
    decreases waves.len() - i,
{
    if i < 0 || i >= waves.len() {
        None
    } else if regress(waves, i, idle0).len() > 0 {
        Some(i)
    } else {
        first_regress(waves, i + 1, idle0)
    }
}

/// What the waves come to together.
pub open spec fn trend_of(waves: Seq<Wave>, idle0: Option<u64>) -> OutcomeView {
    if waves.len() == 0 {
        OutcomeView::Infra("the window left no time for a wave"@)
    } else {
        match first_regress(waves, 0, idle0) {
            Some(i) => OutcomeView::Fail(
                "wave "@ + text::decimal(waves[i].n as nat) + " is the first to regress: "@
                    + text::joined(regress(waves, i, idle0), "; "@),
            ),
            None => OutcomeView::Pass(
                text::decimal(waves.len()) + " waves; none slower than the first wave of its size"@,
            ),
        }
    }
}

proof fn lemma_first_of(waves: Seq<Wave>, mix: u64, k: int)
    requires
        0 <= k < waves.len(),
        waves[k].mix == mix,
    ensures
        0 <= first_of(waves, mix) <= k,
        waves[first_of(waves, mix)].mix == mix,
    decreases waves.len(),
{
    if waves[0].mix != mix {
        lemma_first_of(waves.drop_first(), mix, k - 1);
    }
}

/// The first wave of the size of wave `k`.
fn base_of(waves: &[Wave], k: usize) -> (r: usize)
    requires
        k < waves@.len(),
    ensures
        r <= k,
        r == first_of(waves@, waves@[k as int].mix),
{
    let mix: u64 = waves[k].mix;
    let mut i: usize = 0;
    assert(waves@.skip(0) =~= waves@);
    proof {
        lemma_first_of(waves@, mix, k as int);
    }
    while waves[i].mix != mix
        invariant
            i <= k < waves@.len(),
            mix == waves@[k as int].mix,
            first_of(waves@, mix) == i + first_of(waves@.skip(i as int), mix),
            first_of(waves@, mix) <= k,
        decreases k - i,
    {
        assert(waves@.skip(i as int)[0] == waves@[i as int]);
        assert(waves@.skip(i as int).drop_first() =~= waves@.skip(i + 1));
        proof {
            lemma_first_of(waves@.skip(i + 1), mix, k - i - 1);
        }
        i += 1;
    }
    assert(waves@.skip(i as int)[0] == waves@[i as int]);
    i
}

/// Whether a measure is worse than its base.
fn worse(now: u128, base: u128, floor: u128) -> (r: bool)
    requires
        2 * base + floor <= u128::MAX,
    ensures
        r == is_worse(now as int, base as int, floor as int),
{
    now > 2 * base + floor
}

/// What a wave is slower in than another.
fn why_slower(w: &Wave, base: &Wave, idle0: Option<u64>) -> (r: Vec<String>)
    requires
        2 * base.route_ms + 5000 <= u128::MAX,
        2 * base.drain_ms + 5000 <= u128::MAX,
    ensures
        text::texts(r@) == slower(*w, *base, idle0),
{
    let mut why: Vec<String> = Vec::new();
    assert(text::texts(why@) =~= seq![]);
    let base_n = text::decimal_text(base.n as u128);
    if worse(w.route_ms, base.route_ms, 5000) {
        push(
            &mut why,
            String::from_str("route programming ").concat(
                text::decimal_text(w.route_ms).as_str(),
            ).concat(" ms, wave ").concat(base_n.as_str()).concat(" took ").concat(
                text::decimal_text(base.route_ms).as_str(),
            ).concat(" ms"),
        );
    }
    let ghost a = text::texts(why@);
    if worse(w.p99_us as u128, base.p99_us as u128, 5000) {
        push(
            &mut why,
            String::from_str("p99 ").concat(
                text::decimal_text(w.p99_us as u128).as_str(),
            ).concat(" us, wave ").concat(base_n.as_str()).concat(" had ").concat(
                text::decimal_text(base.p99_us as u128).as_str(),
            ).concat(" us"),
        );
    }
    let ghost b = text::texts(why@);
    if worse(w.drain_ms, base.drain_ms, 5000) {
        push(
            &mut why,
            String::from_str("drain ").concat(text::decimal_text(w.drain_ms).as_str()).concat(
                " ms, wave ",
            ).concat(base_n.as_str()).concat(" took ").concat(
                text::decimal_text(base.drain_ms).as_str(),
            ).concat(" ms"),
        );
    }
    let ghost c = text::texts(why@);
    if let (Some(i), Some(b)) = (w.idle_p50_us, base.idle_p50_us) {
        if worse(i as u128, b as u128, 2000) {
            push(
                &mut why,
                String::from_str("idle /healthz ").concat(
                    text::decimal_text(i as u128).as_str(),
                ).concat(" us, wave ").concat(base_n.as_str()).concat(" had ").concat(
                    text::decimal_text(b as u128).as_str(),
                ).concat(" us"),
            );
        }
    }
    let ghost d = text::texts(why@);
    if let (Some(i), Some(i0)) = (w.idle_p50_us, idle0) {
        if worse(i as u128, i0 as u128, 2000) {
            push(
                &mut why,
                String::from_str("idle /healthz ").concat(
                    text::decimal_text(i as u128).as_str(),
                ).concat(" us, ").concat(text::decimal_text(i0 as u128).as_str()).concat(
                    " us before the first wave",
                ),
            );
        }
    }
    assert(text::texts(why@) =~= slower(*w, *base, idle0));
    why
}

/// What the waves come to together: the first wave slower than the first of
/// its size fails them all.
pub fn trend(waves: &[Wave], idle0: Option<u64>) -> (r: Outcome)
    requires
        forall|i: int|
            #![trigger waves@[i]]
            0 <= i < waves@.len() ==> 2 * waves@[i].route_ms + 5000 <= u128::MAX && 2
                * waves@[i].drain_ms + 5000 <= u128::MAX,
    ensures
        r@ == trend_of(waves@, idle0),
{
    if waves.len() == 0 {
        return Outcome::Infra(String::from_str("the window left no time for a wave"));
    }
    let mut i: usize = 0;
    while i < waves.len()
        invariant
            i <= waves@.len(),
            waves@.len() > 0,
            forall|k: int|
                #![trigger waves@[k]]
                0 <= k < waves@.len() ==> 2 * waves@[k].route_ms + 5000 <= u128::MAX && 2
                    * waves@[k].drain_ms + 5000 <= u128::MAX,
            first_regress(waves@, 0, idle0) == first_regress(waves@, i as int, idle0),
        decreases waves.len() - i,
    {
        let b = base_of(waves, i);
        let why = why_slower(&waves[i], &waves[b], idle0);
        assert(text::texts(why@).len() == why@.len());
        if why.len() > 0 {
            return Outcome::Fail(
                String::from_str("wave ").concat(
                    text::decimal_text(waves[i].n as u128).as_str(),
                ).concat(" is the first to regress: ").concat(
                    text::join_texts(&why, "; ").as_str(),
                ),
            );
        }
        i += 1;
    }
    Outcome::Pass(
        text::decimal_text(waves.len() as u128).concat(
            " waves; none slower than the first wave of its size",
        ),
    )
}

// ---------------------------------------------------------------------------
// Laws
// ---------------------------------------------------------------------------

/// The idle latency is one number: there is no other in the middle.
pub proof fn there_is_one_median(m: u64, k: u64, s: Seq<u64>)
    requires
        is_median(m, s),
        is_median(k, s),
    ensures
        m == k,
{
    let at = s.len() as int / 2;
    let t = choose|t: Seq<u64>|
        #[trigger] ascends(t) && t.to_multiset() == s.to_multiset() && t.len() == s.len() && m
            == t[at];
    let u = choose|u: Seq<u64>|
        #[trigger] ascends(u) && u.to_multiset() == s.to_multiset() && u.len() == s.len() && k
            == u[at];
    let leq = |x: u64, y: u64| x <= y;
    vstd::seq_lib::lemma_sorted_unique(t, u, leq);
}

/// No two routes have the same name, in one wave or in two.
pub proof fn routes_have_names_of_their_own(n: nat, i: nat, m: nat, j: nat)
    requires
        route_name_of(n, i) == route_name_of(m, j),
    ensures
        n == m,
        i == j,
{
    reveal_strlit("w");
    reveal_strlit("-");
    text::lemma_decimal_reads_back(n);
    text::lemma_decimal_reads_back(i);
    text::lemma_decimal_reads_back(m);
    text::lemma_decimal_reads_back(j);
    let a = text::decimal(n);
    let b = text::decimal(m);
    let la = a.len() as int;
    let lb = b.len() as int;
    let s = route_name_of(n, i);
    assert forall|k: int| 0 <= k < a.len() implies #[trigger] s[1 + k] != '-' by {
        assert(s[1 + k] == a[k]);
        assert(text::is_digit(a[k]));
    }
    assert forall|k: int| 0 <= k < b.len() implies #[trigger] s[1 + k] != '-' by {
        assert(s[1 + k] == b[k]);
        assert(text::is_digit(b[k]));
    }
    assert(s[1 + la] == '-');
    assert(s[1 + lb] == '-');
    if a.len() < b.len() {
        assert(s[1 + la] != '-');
    }
    if b.len() < a.len() {
        assert(s[1 + lb] != '-');
    }
    assert(a =~= s.subrange(1, 1 + la));
    assert(b =~= s.subrange(1, 1 + la));
    assert(text::decimal(i) =~= s.skip(2 + la));
    assert(text::decimal(j) =~= s.skip(2 + la));
}

/// A wave is never slower than itself: the first wave of each size passes
/// whatever it measured, unless its idle latency was better before any wave.
pub proof fn the_first_of_a_size_is_no_regression(waves: Seq<Wave>, i: int, idle0: Option<u64>)
    requires
        0 <= i < waves.len(),
        first_of(waves, waves[i].mix) == i,
        match (waves[i].idle_p50_us, idle0) {
            (Some(x), Some(y)) => x <= 2 * y + 2000,
            _ => true,
        },
    ensures
        regress(waves, i, idle0).len() == 0,
{
}

/// A wave whose route programming, p99 latency, drain or idle latency more
/// than doubled, and by more than the floor, against the first wave of its
/// size fails the trend, whatever was measured before.
pub proof fn a_doubled_measure_fails_the_trend(waves: Seq<Wave>, i: int, idle0: Option<u64>)
    requires
        0 <= i < waves.len(),
        ({
            let w = waves[i];
            let base = waves[first_of(waves, w.mix)];
            ||| is_worse(w.route_ms as int, base.route_ms as int, 5000)
            ||| is_worse(w.p99_us as int, base.p99_us as int, 5000)
            ||| is_worse(w.drain_ms as int, base.drain_ms as int, 5000)
            ||| w.idle_p50_us matches Some(now) && base.idle_p50_us matches Some(was) && is_worse(
                now as int,
                was as int,
                2000,
            )
        }),
    ensures
        trend_of(waves, idle0) is Fail,
{
    lemma_first_regress(waves, 0, idle0);
    assert(regress(waves, i, idle0).len() > 0);
}

/// A trend that failed stays as it is, whatever waves follow.
pub proof fn later_waves_do_not_change_a_failed_trend(
    waves: Seq<Wave>,
    more: Seq<Wave>,
    idle0: Option<u64>,
)
    requires
        trend_of(waves, idle0) is Fail,
    ensures
        trend_of(waves + more, idle0) == trend_of(waves, idle0),
{
    lemma_first_regress_extends(waves, more, 0, idle0);
    lemma_first_regress(waves, 0, idle0);
    let k = first_regress(waves, 0, idle0)->0;
    lemma_regress_extends(waves, more, k, idle0);
}

/// The first wave of the size of an earlier wave is not moved by later ones.
proof fn lemma_first_of_extends(waves: Seq<Wave>, more: Seq<Wave>, mix: u64, k: int)
    requires
        0 <= k < waves.len(),
        waves[k].mix == mix,
    ensures
        first_of(waves + more, mix) == first_of(waves, mix),
    decreases waves.len(),
{
    assert((waves + more)[0] == waves[0]);
    if waves[0].mix != mix {
        assert((waves + more).drop_first() =~= waves.drop_first() + more);
        lemma_first_of_extends(waves.drop_first(), more, mix, k - 1);
    }
}

proof fn lemma_regress_extends(waves: Seq<Wave>, more: Seq<Wave>, i: int, idle0: Option<u64>)
    requires
        0 <= i < waves.len(),
    ensures
        regress(waves + more, i, idle0) == regress(waves, i, idle0),
{
    lemma_first_of(waves, waves[i].mix, i);
    lemma_first_of_extends(waves, more, waves[i].mix, i);
}

proof fn lemma_first_regress_extends(
    waves: Seq<Wave>,
    more: Seq<Wave>,
    i: int,
    idle0: Option<u64>,
)
    requires
        0 <= i <= waves.len(),
        first_regress(waves, i, idle0) is Some,
    ensures
        first_regress(waves + more, i, idle0) == first_regress(waves, i, idle0),
    decreases waves.len() - i,
{
    if i < waves.len() {
        lemma_regress_extends(waves, more, i, idle0);
        if regress(waves, i, idle0).len() == 0 {
            lemma_first_regress_extends(waves, more, i + 1, idle0);
        }
    }
}

/// The trend passes exactly where there is a wave and none is slower than the
/// first of its size.
pub proof fn the_trend_passes_where_no_wave_regresses(waves: Seq<Wave>, idle0: Option<u64>)
    ensures
        trend_of(waves, idle0) is Pass <==> waves.len() > 0 && forall|i: int|
            0 <= i < waves.len() ==> #[trigger] regress(waves, i, idle0).len() == 0,
{
    lemma_first_regress(waves, 0, idle0);
}

proof fn lemma_first_regress(waves: Seq<Wave>, i: int, idle0: Option<u64>)
    requires
        0 <= i <= waves.len(),
    ensures
        match first_regress(waves, i, idle0) {
            Some(k) => i <= k < waves.len() && regress(waves, k, idle0).len() > 0,
            None => forall|k: int|
                i <= k < waves.len() ==> #[trigger] regress(waves, k, idle0).len() == 0,
        },
    decreases waves.len() - i,
{
    if i < waves.len() {
        lemma_first_regress(waves, i + 1, idle0);
    }
}

/// A wave without a problem had every host served and drained, every request
/// right, nothing left, no restart, and a router that still answers.
pub proof fn a_clean_wave_left_nothing(d: Done, routes: usize)
    requires
        d.problems(routes).len() == 0,
    ensures
        d.creates@.len() == 0,
        d.unserved@.len() == 0,
        d.load.errors == 0,
        d.deletes@.len() == 0,
        d.routed@.len() == 0,
        d.leftovers == Ok::<usize, String>(0),
        d.supervised matches Some(s) ==> s.1 matches Ok(now) && now.running && restarts_between(
            s.0,
            now,
        ) == 0,
        d.idle is Some,
{
    let p = d.problems(routes);
    assert(p.len() == d.creates@.len() + d.ramp_problem(routes).len() + d.load_problem().len()
        + d.deletes@.len() + d.drain_problem().len() + d.residue_problem().len()
        + d.restart_problem().len() + d.idle_problem().len());
}

/// Waves come in cycles of four: the base size, twice that, the base size, and
/// four times that.
pub proof fn waves_vary_in_cycles_of_four(k: nat)
    ensures
        mix_of(4 * k) == 1,
        mix_of(4 * k + 1) == 2,
        mix_of(4 * k + 2) == 1,
        mix_of(4 * k + 3) == 4,
{
}

/// Connections take a third of what the open-file limit leaves beside 256,
/// and are eight at least.
pub proof fn connections_leave_room_under_the_limit(fds: u64)
    ensures
        conns_under(fds) >= 8,
        fds < 280 ==> conns_under(fds) == 8,
        fds >= 280 ==> 3 * conns_under(fds) <= fds - 256 < 3 * conns_under(fds) + 3,
{
}

/// A sixth of the time is kept at the end, and half a minute at most; another
/// wave starts while there is more than twice that left.
pub proof fn time_is_kept_at_the_end(remaining: u128, timeout: u128)
    ensures
        margin_of(timeout) <= 30_000_000_000,
        timeout >= 180_000_000_000 ==> margin_of(timeout) == 30_000_000_000,
        timeout < 180_000_000_000 ==> 6 * margin_of(timeout) <= timeout < 6 * margin_of(timeout)
            + 6,
        has_time(remaining, timeout) <==> remaining > margin_of(timeout) + margin_of(timeout),
{
}

/// How large a wave is: eight routes for each CPU and unit of its mix, from 4
/// to 2000 of them; 32 connections likewise, and no more than there can be. It
/// holds for a quarter of what is left before the end, from three seconds to
/// two minutes.
pub proof fn waves_are_sized_by_the_machine(
    n: nat,
    cpus: u64,
    max_conns: u64,
    remaining: u128,
    timeout: u128,
    r: Plan,
)
    requires
        is_plan(n, cpus, max_conns, remaining, timeout, r),
    ensures
        r.mix == (if n % 4 == 1 {
            2u64
        } else if n % 4 == 3 {
            4
        } else {
            1
        }),
        4 <= r.routes <= 2000,
        4 <= 8 * cpus * r.mix <= 2000 ==> r.routes == 8 * cpus * r.mix,
        8 * cpus * r.mix < 4 ==> r.routes == 4,
        8 * cpus * r.mix > 2000 ==> r.routes == 2000,
        r.conns <= max_conns,
        32 * cpus * r.mix <= max_conns ==> r.conns == 32 * cpus * r.mix,
        32 * cpus * r.mix > max_conns ==> r.conns == max_conns,
        3_000_000_000 <= r.hold <= 120_000_000_000,
        3_000_000_000 < r.hold < 120_000_000_000 ==> 4 * r.hold <= remaining - margin_of(timeout)
            < 4 * r.hold + 4,
        remaining >= margin_of(timeout) + 480_000_000_000 ==> r.hold == 120_000_000_000,
        remaining <= margin_of(timeout) + 12_000_000_000 ==> r.hold == 3_000_000_000,
{
}

/// The routes of a wave have four times as long to show as one change, and 50
/// milliseconds more for each.
pub proof fn ramps_take_longer_for_each_route(route_wait: nat, routes: nat)
    ensures
        ramp_of(route_wait, 0) == 4 * route_wait,
        ramp_of(route_wait, routes + 1) == ramp_of(route_wait, routes) + 50_000_000,
        ramp_of(route_wait + 1, routes) == ramp_of(route_wait, routes) + 4,
{
}

/// The hosts of a wave are those of its routes, under the run's own domain;
/// the two backends take turns, the first one first.
pub proof fn hosts_of_a_wave_take_turns(
    run_id: Seq<char>,
    suite: Seq<char>,
    n: nat,
    i: nat,
    a: Seq<char>,
    b: Seq<char>,
)
    ensures
        wanted_at(run_id, suite, n, i, a, b).0 == "w"@ + text::decimal(n) + "-"@ + text::decimal(i)
            + "."@ + env::slug_of(run_id) + "."@ + suite + ".stormlb-test.invalid"@,
        wanted_at(run_id, suite, n, 2 * i, a, b).1 == a,
        wanted_at(run_id, suite, n, 2 * i + 1, a, b).1 == b,
{
}

/// A host that is routed is as it should be where its backend answers with a
/// 200; one that is not, where the router says that it has no route.
pub proof fn hosts_are_as_they_should_be(r: Reply, backend: Seq<char>)
    ensures
        as_it_should(r, backend, true) <==> (r matches Reply::Answer(a) && a.status == 200
            && http::field_of(text::lossy_text(a.body@), "backend"@) == Some(backend)),
        as_it_should(r, backend, false) <==> (r matches Reply::Answer(a) && a.status == 404
            && text::has(text::lossy_text(a.body@), "no route for host"@)),
{
}

/// The hosts that are looked at again are those that were not as they should
/// be, in their order; the wait is over once there are none, or time is up.
pub proof fn hosts_are_looked_at_until_they_are_right(
    s: Seq<(String, String, bool)>,
    x: (String, String, bool),
    pending: nat,
    elapsed: u128,
    wait: u128,
)
    ensures
        left_of(seq![]).len() == 0,
        x.2 ==> left_of(s.push(x)) == left_of(s),
        !x.2 ==> left_of(s.push(x)) == left_of(s).push((x.0@, x.1@)),
        !wait_is_over(pending, elapsed, wait) <==> pending > 0 && elapsed < wait,
{
    assert(s.push(x).drop_last() =~= s);
    assert(s.push(x).last() == x);
}

/// A request counts as right where its backend answered with a 200: its
/// latency is counted and nothing else changes. Any other is an error: no
/// latency is counted, and what was wrong is kept where it is the first.
pub proof fn requests_are_right_or_errors(
    before: Load,
    host: Seq<char>,
    backend: Seq<char>,
    r: Reply,
    micros: u64,
    after: Load,
)
    requires
        takes_in(before, host, backend, r, micros, after),
    ensures
        ({
            let right = r matches Reply::Answer(a) && a.status == 200 && http::field_of(
                text::lossy_text(a.body@),
                "backend"@,
            ) == Some(backend);
            &&& right ==> after.hist.counted() == before.hist.counted() + 1 && after.errors
                == before.errors && after.first == before.first
            &&& !right ==> after.hist == before.hist
            &&& !right && before.errors < u64::MAX ==> after.errors == before.errors + 1
            &&& !right ==> (before.first matches Some(e) ==> (after.first matches Some(f) && f@
                == e@))
            &&& !right && before.first is None ==> (after.first matches Some(f) && (
            r matches Reply::Answer(_) ==> f@ == host + ": "@ + probe::seen(r)) && (r matches Reply::Failed(
                x,
            ) ==> f@ == host + ": "@ + x.why@) && (r is Closed ==> f@ == host
                + ": closed with no response"@))
        }),
{
}

/// Loads add up, and what was wrong first stays.
pub proof fn loads_add_up(before: Load, o: Load, after: Load)
    requires
        takes_over(before, o, after),
    ensures
        after.hist.counted() == before.hist.counted() + o.hist.counted(),
        before.errors + o.errors <= u64::MAX ==> after.errors == before.errors + o.errors,
        before.first is Some ==> after.first == before.first,
        before.first is None ==> after.first == o.first,
{
}

/// The median of numbers that ascend is the one at half their number; it does
/// not depend on their order. Only an answer with status 200 counts for it.
pub proof fn the_median_stands_in_the_middle(m: u64, s: Seq<u64>, t: Seq<u64>, r: Reply)
    requires
        is_median(m, s),
    ensures
        ascends(s) ==> m == s[s.len() as int / 2],
        t.to_multiset() == s.to_multiset() && t.len() == s.len() ==> is_median(m, t),
        is_idle_answer(r) <==> (r matches Reply::Answer(a) && a.status == 200),
{
    if ascends(s) {
        assert(is_median(s[s.len() as int / 2], s));
        there_is_one_median(m, s[s.len() as int / 2], s);
    }
    let u = choose|u: Seq<u64>|
        #[trigger] ascends(u) && u.to_multiset() == s.to_multiset() && u.len() == s.len() && m
            == u[s.len() as int / 2];
    if t.to_multiset() == s.to_multiset() && t.len() == s.len() {
        assert(ascends(u) && u.to_multiset() == t.to_multiset() && u.len() == t.len() && m
            == u[t.len() as int / 2]);
    }
}

/// Restarts and crashes count alike; a count that went down is none.
pub proof fn restarts_and_crashes_count_alike(before: Supervised, now: Supervised)
    ensures
        restarts_between(before, now) >= 0,
        now.restarts + now.crashes >= before.restarts + before.crashes ==> restarts_between(
            before,
            now,
        ) + before.restarts + before.crashes == now.restarts + now.crashes,
        now.restarts + now.crashes < before.restarts + before.crashes ==> restarts_between(
            before,
            now,
        ) == 0,
{
}

/// A wave has a problem for each route that could not be created or deleted,
/// and one for each other thing that went wrong; a wave in which nothing did
/// has none.
pub proof fn problems_are_what_went_wrong(d: Done, routes: usize)
    ensures
        ({
            let one = |b: bool|
                if b {
                    1int
                } else {
                    0
                };
            let left = match d.leftovers {
                Ok(k) => k > 0,
                Err(_) => true,
            };
            let restarted = match d.supervised {
                Some(s) => match s.1 {
                    Ok(now) => !now.running || now.restarts + now.crashes > s.0.restarts
                        + s.0.crashes,
                    Err(_) => true,
                },
                None => false,
            };
            d.problems(routes).len() == d.creates@.len() + d.deletes@.len() + one(
                d.unserved@.len() > 0,
            ) + one(d.load.errors > 0) + one(d.routed@.len() > 0) + one(left) + one(restarted)
                + one(d.idle is None)
        }),
        forall|i: int|
            0 <= i < d.creates@.len() ==> #[trigger] d.problems(routes)[i] == "create: "@
                + d.creates@[i]@,
{
    let p = d.problems(routes);
    assert(p.len() == d.creates@.len() + d.ramp_problem(routes).len() + d.load_problem().len()
        + d.deletes@.len() + d.drain_problem().len() + d.residue_problem().len()
        + d.restart_problem().len() + d.idle_problem().len());
    assert forall|i: int| 0 <= i < d.creates@.len() implies #[trigger] d.problems(routes)[i]
        == "create: "@ + d.creates@[i]@ by {
        assert(each("create: "@, d.creates@)[i] == "create: "@ + d.creates@[i]@);
    }
}

/// A wave is told as it was measured: times in whole milliseconds, requests by
/// the second over the time that it held, and what was wrong where something
/// was. It passes where nothing was.
pub proof fn waves_are_told_as_they_were_measured(n: usize, plan: Plan, d: Done, r: Wave)
    requires
        is_wave(n, plan, d, r),
    ensures
        r.n == n && r.mix == plan.mix && r.routes == plan.routes && r.conns == plan.conns,
        r.route_ms * 1_000_000 <= d.ramp < (r.route_ms + 1) * 1_000_000,
        r.drain_ms * 1_000_000 <= d.drain < (r.drain_ms + 1) * 1_000_000,
        r.requests == d.load.hist.counted(),
        r.errors == d.load.errors,
        r.p50_us == d.load.hist.quantile_of(d.p50_rank as nat),
        r.p99_us == d.load.hist.quantile_of(d.p99_rank as nat),
        plan.hold < 2_000_000 ==> r.rps == d.load.hist.counted() * 1000,
        plan.hold >= 1_000_000 ==> r.rps == d.load.hist.counted() * 1000 / (plan.hold as nat
            / 1_000_000),
        d.leftovers matches Ok(k) ==> r.leftovers == k,
        d.leftovers is Err ==> r.leftovers == 0,
        d.supervised is None ==> r.restarts is None,
        d.supervised matches Some(s) ==> {
            &&& s.1 is Err ==> r.restarts is None
            &&& s.1 matches Ok(now) ==> (r.restarts matches Some(k) && k == restarts_between(
                s.0,
                now,
            ))
        },
        r.idle_p50_us == d.idle,
        r.problem is None <==> d.problems(plan.routes).len() == 0,
        r.verdict(plan.hold) is Pass <==> r.problem is None,
        r.problem matches Some(p) ==> r.verdict(plan.hold) == OutcomeView::Fail(p@),
{
    if plan.hold < 2_000_000 {
        assert(env::whole_millis(plan.hold) == 0 || env::whole_millis(plan.hold) == 1);
        assert(d.load.hist.counted() * 1000 / 1 == d.load.hist.counted() * 1000);
    }
}

/// Whether a wave is no slower than the first of its size, nor its idle
/// latency than it was before any wave: nothing more than doubled, but for a
/// floor of five seconds for the times of routes, five milliseconds for the
/// requests and two for the idle latency.
pub open spec fn holds_up(w: Wave, base: Wave, idle0: Option<u64>) -> bool {
    &&& w.route_ms <= base.route_ms + base.route_ms + 5000
    &&& w.p99_us <= base.p99_us + base.p99_us + 5000
    &&& w.drain_ms <= base.drain_ms + base.drain_ms + 5000
    &&& w.idle_p50_us matches Some(i) ==> (base.idle_p50_us matches Some(b) ==> i <= b + b + 2000)
    &&& w.idle_p50_us matches Some(i) ==> (idle0 matches Some(b) ==> i <= b + b + 2000)
}

/// A wave is slower in something exactly where it does not hold up.
pub proof fn slower_waves_do_not_hold_up(w: Wave, base: Wave, idle0: Option<u64>)
    ensures
        slower(w, base, idle0).len() == 0 <==> holds_up(w, base, idle0),
{
}

/// The wave that another is held against is the first of its size.
pub proof fn waves_are_held_against_the_first_of_their_size(waves: Seq<Wave>, b: int, i: int)
    requires
        0 <= b <= i < waves.len(),
        waves[b].mix == waves[i].mix,
        forall|j: int| 0 <= j < b ==> (#[trigger] waves[j]).mix != waves[i].mix,
    ensures
        first_of(waves, waves[i].mix) == b,
{
    lemma_first_of(waves, waves[i].mix, b);
}

/// Whether wave `b` is the first of the size of wave `i`.
pub open spec fn is_base(waves: Seq<Wave>, b: int, i: int) -> bool {
    &&& 0 <= b <= i < waves.len()
    &&& waves[b].mix == waves[i].mix
    &&& forall|j: int| 0 <= j < b ==> (#[trigger] waves[j]).mix != waves[i].mix
}

/// The trend passes exactly where there is a wave and each one holds up
/// against the first of its size. It fails at the first wave that does not,
/// which it names; without a wave it could not be made.
pub proof fn the_trend_passes_where_every_wave_holds_up(
    waves: Seq<Wave>,
    idle0: Option<u64>,
    b: int,
    i: int,
)
    ensures
        trend_of(waves, idle0) is Infra <==> waves.len() == 0,
        trend_of(waves, idle0) is Pass <==> waves.len() > 0 && forall|c: int, k: int| #[trigger]
            is_base(waves, c, k) ==> holds_up(waves[k], waves[c], idle0),
        is_base(waves, b, i) && !holds_up(waves[i], waves[b], idle0) && (forall|c: int, k: int|
            k < i && #[trigger] is_base(waves, c, k) ==> holds_up(waves[k], waves[c], idle0))
            ==> trend_of(waves, idle0) == OutcomeView::Fail(
            "wave "@ + text::decimal(waves[i].n as nat) + " is the first to regress: "@
                + text::joined(slower(waves[i], waves[b], idle0), "; "@),
        ),
{
    lemma_first_regress(waves, 0, idle0);
    assert forall|c: int, k: int| #[trigger] is_base(waves, c, k) implies (regress(
        waves,
        k,
        idle0,
    ).len() == 0 <==> holds_up(waves[k], waves[c], idle0)) by {
        waves_are_held_against_the_first_of_their_size(waves, c, k);
        slower_waves_do_not_hold_up(waves[k], waves[c], idle0);
    }
    assert forall|k: int| 0 <= k < waves.len() implies is_base(
        waves,
        #[trigger] first_of(waves, waves[k].mix),
        k,
    ) by {
        lemma_first_of_is_base(waves, k);
    }
    if is_base(waves, b, i) && !holds_up(waves[i], waves[b], idle0) && (forall|c: int, k: int|
        k < i && #[trigger] is_base(waves, c, k) ==> holds_up(waves[k], waves[c], idle0)) {
        waves_are_held_against_the_first_of_their_size(waves, b, i);
        assert forall|k: int| 0 <= k < i implies #[trigger] regress(waves, k, idle0).len() == 0 by {
            assert(is_base(waves, first_of(waves, waves[k].mix), k));
        }
        lemma_first_regress_is(waves, 0, i, idle0);
    }
    if forall|c: int, k: int| #[trigger] is_base(waves, c, k) ==> holds_up(
        waves[k],
        waves[c],
        idle0,
    ) {
        assert forall|k: int| 0 <= k < waves.len() implies #[trigger] regress(
            waves,
            k,
            idle0,
        ).len() == 0 by {
            assert(is_base(waves, first_of(waves, waves[k].mix), k));
        }
    }
}

proof fn lemma_first_of_is_base(waves: Seq<Wave>, k: int)
    requires
        0 <= k < waves.len(),
    ensures
        is_base(waves, first_of(waves, waves[k].mix), k),
{
    lemma_first_of(waves, waves[k].mix, k);
    lemma_first_of_least(waves, waves[k].mix);
}

proof fn lemma_first_of_least(waves: Seq<Wave>, mix: u64)
    ensures
        forall|j: int|
            0 <= j < first_of(waves, mix) && j < waves.len() ==> (#[trigger] waves[j]).mix != mix,
    decreases waves.len(),
{
    if waves.len() > 0 && waves[0].mix != mix {
        let t = waves.drop_first();
        lemma_first_of_least(t, mix);
        assert forall|j: int| 0 <= j < first_of(waves, mix) && j < waves.len() implies (
        #[trigger] waves[j]).mix != mix by {
            if j > 0 {
                assert(t[j - 1] == waves[j]);
            }
        }
    }
}

proof fn lemma_first_regress_is(waves: Seq<Wave>, from: int, i: int, idle0: Option<u64>)
    requires
        0 <= from <= i < waves.len(),
        regress(waves, i, idle0).len() > 0,
        forall|k: int| from <= k < i ==> #[trigger] regress(waves, k, idle0).len() == 0,
    ensures
        first_regress(waves, from, idle0) == Some(i),
    decreases i - from,
{
    if from < i {
        lemma_first_regress_is(waves, from + 1, i, idle0);
    }
}

/// The next host is one of them; from the first one it is the second, and it
/// is reached by the same steps as long as nothing wraps around.
pub proof fn the_next_host_is_one_of_them(i: int, len: int)
    requires
        0 <= i,
        0 < len,
    ensures
        0 <= host_after(i, len) < len,
        i * 2654435761 < usize::MAX ==> host_after(i, len) == (i * 2654435761 + 1) % len,
        len > 1 ==> host_after(0, len) == 1,
{
    let m = usize::MAX + 1;
    let x = i * 2654435761;
    vstd::arithmetic::div_mod::lemma_mod_bound((x % m + 1) % m, len);
    if x < usize::MAX {
        vstd::arithmetic::div_mod::lemma_small_mod(x as nat, m as nat);
        vstd::arithmetic::div_mod::lemma_small_mod((x + 1) as nat, m as nat);
    }
    if len > 1 {
        vstd::arithmetic::div_mod::lemma_small_mod(0, m as nat);
        vstd::arithmetic::div_mod::lemma_small_mod(1, m as nat);
        vstd::arithmetic::div_mod::lemma_small_mod(1, len as nat);
    }
}

/// A number that is not known is `null`, and any other is written in decimal.
pub proof fn numbers_that_are_not_known_are_null(n: u64)
    ensures
        opt_shown(None) == "null"@,
        opt_shown(Some(n)) == text::decimal(n as nat),
{
}

/// How much is done at once, and how often it is looked.
pub proof fn work_is_done_in_batches()
    ensures
        API_BATCH == 32,
        LOOK_BATCH == 64,
        LOOK_PAUSE == 250_000_000,
        IDLE_SAMPLES == 21,
        DEFAULT_FDS == 1024,
{
}

/// What a wave says where nothing was wrong with it, and what the trend says
/// where no wave regressed, and without a wave.
pub proof fn waves_are_told_with_their_numbers(w: Wave, hold: u128, waves: Seq<Wave>, idle0: Option<u64>)
    ensures
        w.problem is None ==> w.verdict(hold).detail() == text::decimal(w.routes as nat)
            + " routes, "@ + text::decimal(w.conns as nat) + " connections for "@ + text::decimal(
            hold as nat / 1_000_000_000,
        ) + " s: "@ + text::decimal(w.requests as nat) + " requests, p99 "@ + text::decimal(
            w.p99_us as nat,
        ) + " us"@,
        trend_of(waves, idle0) is Pass ==> trend_of(waves, idle0).detail() == text::decimal(
            waves.len(),
        ) + " waves; none slower than the first wave of its size"@,
        trend_of(waves, idle0) is Infra ==> trend_of(waves, idle0).detail()
            == "the window left no time for a wave"@,
{
    lemma_first_regress(waves, 0, idle0);
}

/// What a wave is slower in is told with both measures and the wave that it
/// is held against, each measure on its own.
pub proof fn slower_waves_are_told_by_their_measures(w: Wave, base: Wave)
    requires
        w.idle_p50_us is None,
    ensures
        ({
            let d = |n: nat| text::decimal(n);
            let n = d(base.n as nat);
            let route = w.route_ms > 2 * base.route_ms + 5000;
            let p99 = w.p99_us > 2 * base.p99_us + 5000;
            let drain = w.drain_ms > 2 * base.drain_ms + 5000;
            &&& route && !p99 && !drain ==> slower(w, base, None) == seq![
                "route programming "@ + d(w.route_ms as nat) + " ms, wave "@ + n + " took "@ + d(
                    base.route_ms as nat,
                ) + " ms"@,
            ]
            &&& !route && p99 && !drain ==> slower(w, base, None) == seq![
                "p99 "@ + d(w.p99_us as nat) + " us, wave "@ + n + " had "@ + d(base.p99_us as nat)
                    + " us"@,
            ]
            &&& !route && !p99 && drain ==> slower(w, base, None) == seq![
                "drain "@ + d(w.drain_ms as nat) + " ms, wave "@ + n + " took "@ + d(
                    base.drain_ms as nat,
                ) + " ms"@,
            ]
        }),
{
    let s = slower(w, base, None);
    if s.len() == 1 {
        assert(s =~= seq![s[0]]);
    }
}

/// The measures of a wave are the members of an object, each under its name.
pub proof fn measures_are_told_under_their_names(w: Wave)
    ensures
        ({
            let d = |n: nat| text::decimal(n);
            let sizes = "\"wave\": "@ + d(w.n as nat) + ", \"mix\": "@ + d(w.mix as nat)
                + ", \"routes\": "@ + d(w.routes as nat) + ", \"conns\": "@ + d(w.conns as nat);
            let work = ", \"route_ms\": "@ + d(w.route_ms as nat) + ", \"requests\": "@ + d(
                w.requests as nat,
            ) + ", \"errors\": "@ + d(w.errors as nat) + ", \"p50_us\": "@ + d(w.p50_us as nat)
                + ", \"p99_us\": "@ + d(w.p99_us as nat) + ", \"rps\": "@ + d(w.rps as nat)
                + ", \"drain_ms\": "@ + d(w.drain_ms as nat);
            let left = ", \"leftovers\": "@ + d(w.leftovers as nat) + ", \"restarts\": "@
                + opt_shown(w.restarts) + ", \"idle_p50_us\": "@ + opt_shown(w.idle_p50_us);
            w.members() == sizes + work + left
        }),
{
    let d = |n: nat| text::decimal(n);
    let sizes = "\"wave\": "@ + d(w.n as nat) + ", \"mix\": "@ + d(w.mix as nat)
        + ", \"routes\": "@ + d(w.routes as nat) + ", \"conns\": "@ + d(w.conns as nat);
    let work = ", \"route_ms\": "@ + d(w.route_ms as nat) + ", \"requests\": "@ + d(
        w.requests as nat,
    ) + ", \"errors\": "@ + d(w.errors as nat) + ", \"p50_us\": "@ + d(w.p50_us as nat)
        + ", \"p99_us\": "@ + d(w.p99_us as nat) + ", \"rps\": "@ + d(w.rps as nat)
        + ", \"drain_ms\": "@ + d(w.drain_ms as nat);
    let left = ", \"leftovers\": "@ + d(w.leftovers as nat) + ", \"restarts\": "@ + opt_shown(
        w.restarts,
    ) + ", \"idle_p50_us\": "@ + opt_shown(w.idle_p50_us);
    assert(w.members() =~= sizes + work + left);
}

} // verus!
