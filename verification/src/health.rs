//! Backend health checks that drive pool membership.

use crate::config::{HealthMode, HealthSpec};
use crate::pool::Backend;
use crate::text;
use vstd::prelude::*;

verus! {

/// A time in seconds, at least one.
pub open spec fn at_least_one(secs: u64) -> u64 {
    if secs < 1 {
        1
    } else {
        secs
    }
}

impl HealthSpec {
    /// How long one check may take.
    pub fn timeout(&self) -> (r: u64)
        ensures
            r == at_least_one(self.timeout_secs),
            r >= 1,
            self.timeout_secs >= 1 ==> r == self.timeout_secs,
    {
        if self.timeout_secs < 1 {
            1
        } else {
            self.timeout_secs
        }
    }

    /// How long to sleep between two rounds.
    pub fn interval(&self) -> (r: u64)
        ensures
            r == at_least_one(self.interval_secs),
            r >= 1,
            self.interval_secs >= 1 ==> r == self.interval_secs,
    {
        if self.interval_secs < 1 {
            1
        } else {
            self.interval_secs
        }
    }
}

/// What to ask a backend.
pub enum Probe {
    /// Connect.
    Connect,
    /// `GET` this URL.
    Get(String),
    /// Nothing: there is no HTTP client to ask with.
    Unable,
}

/// What a probe is.
pub enum ProbeView {
    Connect,
    Get(Seq<char>),
    Unable,
}

impl View for Probe {
    type V = ProbeView;

    open spec fn view(&self) -> ProbeView {
        match self {
            Probe::Connect => ProbeView::Connect,
            Probe::Get(u) => ProbeView::Get(u@),
            Probe::Unable => ProbeView::Unable,
        }
    }
}

/// A path that begins with a slash.
pub open spec fn rooted(path: Seq<char>) -> Seq<char> {
    if path.len() > 0 && path[0] == '/' {
        path
    } else {
        "/"@ + path
    }
}

/// The scheme that a mode asks by.
pub open spec fn scheme(mode: HealthMode) -> Seq<char> {
    if mode == HealthMode::Https {
        "https"@
    } else {
        "http"@
    }
}

/// What to ask the backend at `addr`.
pub open spec fn probe_of(addr: Seq<char>, spec_of: HealthSpec, client: bool) -> ProbeView {
    match spec_of.mode {
        HealthMode::Tcp => ProbeView::Connect,
        _ => if client {
            ProbeView::Get(scheme(spec_of.mode) + "://"@ + addr + rooted(spec_of.path@))
        } else {
            ProbeView::Unable
        },
    }
}

/// What to ask the backend at `addr`; `client` says whether there is an HTTP
/// client to ask with.
pub fn probe(addr: &str, health: &HealthSpec, client: bool) -> (r: Probe)
    ensures
        r@ == probe_of(addr@, *health, client),
{
    match health.mode {
        HealthMode::Tcp => Probe::Connect,
        HealthMode::Http | HealthMode::Https => {
            if !client {
                return Probe::Unable;
            }
            let scheme = if health.mode == HealthMode::Https {
                String::from_str("https")
            } else {
                String::from_str("http")
            };
            let path = text::chars_of(health.path.as_str());
            let rooted_path = if path.len() > 0 && path[0] == '/' {
                String::from_str(health.path.as_str())
            } else {
                String::from_str("/").concat(health.path.as_str())
            };
            Probe::Get(scheme.concat("://").concat(addr).concat(rooted_path.as_str()))
        },
    }
}

/// What a backend said.
#[derive(Debug, Clone, Copy, PartialEq, Eq, Structural)]
pub enum Reply {
    /// The connect succeeded in time.
    Connected,
    /// An HTTP response came in time, with this status.
    Status(u16),
    /// Nothing of the kind.
    Failed,
}

/// Whether a reply is that of a healthy backend: a connect for `tcp`, and
/// for `http` and `https` a response with one of the expected statuses.
pub open spec fn passes(spec_of: HealthSpec, reply: Reply) -> bool {
    match (spec_of.mode, reply) {
        (HealthMode::Tcp, Reply::Connected) => true,
        (HealthMode::Tcp, _) => false,
        (_, Reply::Status(s)) => spec_of.expect_status@.contains(s),
        (_, _) => false,
    }
}

/// Whether the backend passed its check.
pub fn check(health: &HealthSpec, reply: Reply) -> (r: bool)
    ensures
        r == passes(*health, reply),
        health.mode == HealthMode::Tcp ==> (r <==> reply == Reply::Connected),
        health.mode != HealthMode::Tcp ==> (r <==> exists|i: int|
            0 <= i < health.expect_status@.len() && reply == Reply::Status(
                #[trigger] health.expect_status@[i],
            )),
{
    proof {
        a_check_passes_on_what_is_expected(*health, reply);
    }
    match (health.mode, reply) {
        (HealthMode::Tcp, Reply::Connected) => true,
        (HealthMode::Tcp, _) => false,
        (_, Reply::Status(s)) => {
            let mut i: usize = 0;
            while i < health.expect_status.len()
                invariant
                    i <= health.expect_status@.len(),
                    health.mode != HealthMode::Tcp,
                    reply == Reply::Status(s),
                    forall|k: int| 0 <= k < i ==> health.expect_status@[k] != s,
                decreases health.expect_status.len() - i,
            {
                if health.expect_status[i] == s {
                    return true;
                }
                i += 1;
            }
            false
        },
        (_, _) => false,
    }
}

/// Whether the outcome of a check is news of a backend that was healthy, or
/// not.
pub open spec fn is_news(healthy: bool, ok: bool) -> bool {
    healthy != ok
}

/// The log's word for a state.
pub open spec fn state_word(ok: bool) -> Seq<char> {
    if ok {
        "healthy"@
    } else {
        "unhealthy"@
    }
}

/// Takes in the outcome of a check: from now on the backend is healthy
/// exactly if it passed. Returns whether that is news for the log.
pub fn record<A>(backend: &mut Backend<A>, ok: bool) -> (r: bool)
    ensures
        final(backend).healthy == ok,
        final(backend).addr == old(backend).addr,
        r == (old(backend).healthy != ok),
        r == is_news(old(backend).healthy, ok),
{
    let news = backend.is_healthy() != ok;
    backend.set_healthy(ok);
    news
}

/// The log's word for a state.
pub fn state_name(ok: bool) -> (r: &'static str)
    ensures
        r@ == (if ok {
            "healthy"@
        } else {
            "unhealthy"@
        }),
        r@ == state_word(ok),
{
    if ok {
        "healthy"
    } else {
        "unhealthy"
    }
}

// ---------------------------------------------------------------------------
// Laws
// ---------------------------------------------------------------------------

/// A backend passes a `tcp` check by being connected to and by nothing else;
/// it passes an `http` or `https` check exactly with a status that is among
/// the expected ones.
pub proof fn a_check_passes_on_what_is_expected(health: HealthSpec, reply: Reply)
    ensures
        health.mode == HealthMode::Tcp ==> (passes(health, reply) <==> reply == Reply::Connected),
        health.mode != HealthMode::Tcp ==> (passes(health, reply) <==> exists|i: int|
            0 <= i < health.expect_status@.len() && reply == Reply::Status(
                #[trigger] health.expect_status@[i],
            )),
{
    if health.mode != HealthMode::Tcp {
        if let Reply::Status(s) = reply {
            if health.expect_status@.contains(s) {
                let i = health.expect_status@.index_of(s);
                assert(health.expect_status@[i] == s);
            }
        }
    }
}

/// A time that is waited is the one that is configured, and a second for none.
pub proof fn times_are_at_least_a_second(secs: u64)
    ensures
        at_least_one(secs) >= 1,
        secs >= 1 ==> at_least_one(secs) == secs,
        at_least_one(0) == 1,
{
}

/// What a backend is asked: to be connected to for `tcp`; for the others a
/// URL of their own scheme, at its address, with the configured path behind
/// exactly one slash, and nothing where there is no client.
pub proof fn a_check_asks_by_its_mode(addr: Seq<char>, health: HealthSpec, client: bool)
    ensures
        probe_of(addr, health, client) is Connect <==> health.mode == HealthMode::Tcp,
        probe_of(addr, health, client) is Unable <==> health.mode != HealthMode::Tcp && !client,
        health.mode == HealthMode::Http && client ==> probe_of(addr, health, client)
            == ProbeView::Get(
            "http"@ + "://"@ + addr + (if health.path@.len() > 0 && health.path@[0] == '/' {
                health.path@
            } else {
                "/"@ + health.path@
            }),
        ),
        health.mode == HealthMode::Https && client ==> probe_of(addr, health, client)
            == ProbeView::Get(
            "https"@ + "://"@ + addr + (if health.path@.len() > 0 && health.path@[0] == '/' {
                health.path@
            } else {
                "/"@ + health.path@
            }),
        ),
{
}

/// News is what changes a state, in either direction; each state has its own
/// word.
pub proof fn news_changes_a_state(healthy: bool)
    ensures
        is_news(healthy, !healthy),
        !is_news(healthy, healthy),
        state_word(true) == "healthy"@,
        state_word(false) == "un"@ + state_word(true),
{
    reveal_strlit("un");
    reveal_strlit("healthy");
    reveal_strlit("unhealthy");
    assert(state_word(false) =~= "un"@ + state_word(true));
}

} // verus!
