//! Which suite runs, and what is said where none can.

use crate::suite::env::{self, Env};
use crate::suite::report::{Outcome, OutcomeView};
use crate::text;
use vstd::prelude::*;

verus! {

/// The suites.
#[derive(Debug, Clone, Copy, PartialEq, Eq, Structural)]
pub enum Suite {
    Short,
    Medium,
    Long,
}

/// The suite of a name.
pub open spec fn suite_named(name: Seq<char>) -> Option<Suite> {
    if name == "short"@ {
        Some(Suite::Short)
    } else if name == "medium"@ {
        Some(Suite::Medium)
    } else if name == "long"@ {
        Some(Suite::Long)
    } else {
        None
    }
}

/// The suite that a run asks for, or the outcome that says it is none.
pub fn choose_suite(name: &str) -> (r: Result<Suite, Outcome>)
    ensures
        match r {
            Ok(s) => suite_named(name@) == Some(s),
            Err(o) => suite_named(name@) is None && o@ == OutcomeView::Infra(
                "STORM_SUITE "@ + text::quoted(name@) + " is not short, medium or long"@,
            ),
        },
        match r {
            Ok(_) => no_suite_verdict(name@) is None,
            Err(o) => no_suite_verdict(name@) == Some(o@),
        },
{
    if text::same(name, "short") {
        Ok(Suite::Short)
    } else if text::same(name, "medium") {
        Ok(Suite::Medium)
    } else if text::same(name, "long") {
        Ok(Suite::Long)
    } else {
        Err(
            Outcome::Infra(
                String::from_str("STORM_SUITE ").concat(text::quote(name).as_str()).concat(
                    " is not short, medium or long",
                ),
            ),
        )
    }
}

/// How long the router and its supervisor may take to accept a connection
/// before they count as not started, in nanoseconds.
pub const START_WAIT: u128 = 5_000_000_000;

/// What is said of a node on which stormlb is not started.
pub open spec fn not_started_text(router: Seq<char>, stormd: Seq<char>) -> Seq<char> {
    "neither the router ("@ + router + ") nor its stormd ("@ + stormd
        + ") answers: stormlb is not started on this node (stormcos starts it on the sno profile)"@
}

/// What is said where stormlb is not started on this node; nothing where it
/// is, or where there is no supervisor to tell.
pub open spec fn unstarted(
    router: Seq<char>,
    stormd: Option<Seq<char>>,
    router_up: bool,
    stormd_up: bool,
) -> Option<Seq<char>> {
    match stormd {
        Some(sd) => if router_up || stormd_up {
            None
        } else {
            Some(not_started_text(router, sd))
        },
        None => None,
    }
}

/// Whether stormlb is simply not started on this node: there is a supervisor
/// of its container, and neither the router nor that supervisor answers. Where
/// one of them answers, or there is no supervisor, the suite runs.
pub fn not_started(env: &Env, router_up: bool, stormd_up: bool) -> (r: Option<String>)
    ensures
        text::opt_string(r) == (match env.stormd {
            Some(sd) => if router_up || stormd_up {
                None
            } else {
                Some(not_started_text(env.router@, sd@))
            },
            None => None,
        }),
        text::opt_string(r) == unstarted(
            env.router@,
            text::opt_string(env.stormd),
            router_up,
            stormd_up,
        ),
{
    match &env.stormd {
        Some(sd) => if router_up || stormd_up {
            None
        } else {
            Some(
                String::from_str("neither the router (").concat(env.router.as_str()).concat(
                    ") nor its stormd (",
                ).concat(sd.as_str()).concat(
                    ") answers: stormlb is not started on this node (stormcos starts it on the sno profile)",
                ),
            )
        },
        None => None,
    }
}

/// The outcome where these are not set; nothing where none is missing.
pub open spec fn unset_verdict(missing: Seq<Seq<char>>) -> Option<OutcomeView> {
    if missing.len() == 0 {
        None
    } else {
        Some(OutcomeView::Infra("the runner did not set "@ + text::joined(missing, ", "@)))
    }
}

/// The outcome of a suite that did not finish in time.
pub open spec fn late_verdict(timeout: u128) -> OutcomeView {
    OutcomeView::Fail(
        "the suite did not finish within STORM_TIMEOUT ("@ + text::decimal(
            env::whole_secs(timeout),
        ) + " s)"@,
    )
}

/// The outcome of a check that another check had to pass for.
pub open spec fn not_run_verdict(needs: Seq<char>) -> OutcomeView {
    OutcomeView::Fail("not run: "@ + needs + " did not pass"@)
}

/// The outcome for a name that is no suite's; nothing for one that is.
pub open spec fn no_suite_verdict(name: Seq<char>) -> Option<OutcomeView> {
    if suite_named(name) is Some {
        None
    } else {
        Some(
            OutcomeView::Infra(
                "STORM_SUITE "@ + text::quoted(name) + " is not short, medium or long"@,
            ),
        )
    }
}

/// The outcome for an environment in which something is not set; nothing
/// where all of it is.
pub fn environment(env: &Env) -> (r: Option<Outcome>)
    ensures
        match r {
            Some(o) => env.missing_names().len() > 0 && o@ == OutcomeView::Infra(
                "the runner did not set "@ + text::joined(env.missing_names(), ", "@),
            ),
            None => env.missing_names().len() == 0,
        },
        match r {
            Some(o) => unset_verdict(env.missing_names()) == Some(o@),
            None => unset_verdict(env.missing_names()) is None,
        },
{
    let m = env.missing();
    assert(env::names(m@).len() == m@.len());
    if m.len() == 0 {
        return None;
    }
    let parts = text::list_of(m.as_slice());
    assert(text::texts(parts@) =~= env::names(m@));
    Some(
        Outcome::Infra(
            String::from_str("the runner did not set ").concat(
                text::join_texts(&parts, ", ").as_str(),
            ),
        ),
    )
}

/// The outcome of a suite that did not finish in time.
pub fn timed_out(timeout: u128) -> (r: Outcome)
    ensures
        r@ == OutcomeView::Fail(
            "the suite did not finish within STORM_TIMEOUT ("@ + text::decimal(
                env::whole_secs(timeout),
            ) + " s)"@,
        ),
        r@ == late_verdict(timeout),
{
    Outcome::Fail(
        String::from_str("the suite did not finish within STORM_TIMEOUT (").concat(
            env::secs_text(timeout).as_str(),
        ).concat(" s)"),
    )
}

/// The outcome of a check that another check had to pass for.
pub fn not_run(needs: &str) -> (r: Outcome)
    ensures
        r@ == OutcomeView::Fail("not run: "@ + needs@ + " did not pass"@),
        r@ == not_run_verdict(needs@),
{
    Outcome::Fail(String::from_str("not run: ").concat(needs).concat(" did not pass"))
}

/// The outcome of a check whose set-up failed. It is the last line of its
/// suite.
pub fn no_set_up(e: &str) -> (r: Outcome)
    ensures
        r@ == OutcomeView::Infra(e@),
{
    Outcome::Infra(String::from_str(e))
}

/// What is said of a set-up in which a backend could not listen.
pub fn no_listener(e: &str) -> (r: String)
    ensures
        r@ == "backend listener: "@ + e@,
{
    String::from_str("backend listener: ").concat(e)
}

// ---------------------------------------------------------------------------
// The checks of a suite
// ---------------------------------------------------------------------------

/// The checks of `short`, in their order.
#[derive(Debug, Clone, Copy, PartialEq, Eq, Structural)]
pub enum ShortCheck {
    RouterHealthz,
    StormdSupervises,
    RouteByHost,
    RouteRemoved,
    Cleanup,
}

/// The checks of `medium`, in their order.
#[derive(Debug, Clone, Copy, PartialEq, Eq, Structural)]
pub enum MediumCheck {
    NoHost,
    UnknownHost,
    HealthzUnclaimed,
    HealthzCrlf,
    RoutesProgrammed,
    HealthzClaimed,
    HostCaseAndPort,
    Sticky,
    Streaming,
    Upgrade,
    LargeBody,
    HeadLimit,
    RouteUpdate,
    DeadBackend,
    BackendRef,
    Headless,
    ManyHosts,
    Concurrent,
    RoutesDeleted,
    NoRestarts,
    VipHalf,
    Cleanup,
}

/// The checks of `long`, in their order.
#[derive(Debug, Clone, Copy, PartialEq, Eq, Structural)]
pub enum LongCheck {
    Capacity,
    /// A wave, by its number.
    Wave(usize),
    Trend,
    Cleanup,
}

/// What comes after a check.
#[derive(Debug, Clone, Copy, PartialEq, Eq, Structural)]
pub enum Turn<C> {
    /// This check runs.
    Run(C),
    /// This check does not run: one that it needs did not pass.
    Leave(C),
    /// There is none.
    End,
}

/// What a check needs to have passed.
pub open spec fn short_needs(c: ShortCheck) -> Option<ShortCheck> {
    match c {
        ShortCheck::RouteRemoved => Some(ShortCheck::RouteByHost),
        _ => None,
    }
}

/// Whether what the suite runs with is set up for this check.
pub open spec fn short_sets_up(c: ShortCheck) -> bool {
    c == ShortCheck::RouteByHost
}

/// The check after a check.
pub open spec fn short_after(c: ShortCheck) -> Option<ShortCheck> {
    match c {
        ShortCheck::RouterHealthz => Some(ShortCheck::StormdSupervises),
        ShortCheck::StormdSupervises => Some(ShortCheck::RouteByHost),
        ShortCheck::RouteByHost => Some(ShortCheck::RouteRemoved),
        ShortCheck::RouteRemoved => Some(ShortCheck::Cleanup),
        ShortCheck::Cleanup => None,
    }
}

/// What comes after a check of `short`.
pub open spec fn short_turn(c: ShortCheck, made: bool, passed: bool) -> Turn<ShortCheck> {
    if short_sets_up(c) && !made {
        Turn::End
    } else {
        match short_after(c) {
            Some(d) => if short_needs(d) == Some(c) && !passed {
                Turn::Leave(d)
            } else {
                Turn::Run(d)
            },
            None => Turn::End,
        }
    }
}

impl ShortCheck {
    /// The name of the check.
    pub open spec fn named(self) -> Seq<char> {
        match self {
            ShortCheck::RouterHealthz => "router-healthz"@,
            ShortCheck::StormdSupervises => "stormd-supervises"@,
            ShortCheck::RouteByHost => "route-by-host"@,
            ShortCheck::RouteRemoved => "route-removed"@,
            ShortCheck::Cleanup => "cleanup"@,
        }
    }

    /// The name of the check.
    pub fn name(&self) -> (r: &'static str)
        ensures
            r@ == self.named(),
    {
        match self {
            ShortCheck::RouterHealthz => "router-healthz",
            ShortCheck::StormdSupervises => "stormd-supervises",
            ShortCheck::RouteByHost => "route-by-host",
            ShortCheck::RouteRemoved => "route-removed",
            ShortCheck::Cleanup => "cleanup",
        }
    }

    /// Whether the suite is set up for this check.
    pub fn sets_up(&self) -> (r: bool)
        ensures
            r == short_sets_up(*self),
    {
        match self {
            ShortCheck::RouteByHost => true,
            _ => false,
        }
    }

    /// What comes after this check: nothing where the set-up for it failed,
    /// which `made` says; `passed` says whether it passed. A route that never
    /// appeared cannot be seen to go: a 404 would be a pass that proves
    /// nothing.
    pub fn after(&self, made: bool, passed: bool) -> (r: Turn<ShortCheck>)
        ensures
            r == short_turn(*self, made, passed),
            r == (if short_sets_up(*self) && !made {
                Turn::End
            } else {
                match short_after(*self) {
                    Some(c) => if short_needs(c) == Some(*self) && !passed {
                        Turn::Leave(c)
                    } else {
                        Turn::Run(c)
                    },
                    None => Turn::End,
                }
            }),
    {
        match self {
            ShortCheck::RouterHealthz => Turn::Run(ShortCheck::StormdSupervises),
            ShortCheck::StormdSupervises => Turn::Run(ShortCheck::RouteByHost),
            ShortCheck::RouteByHost => if !made {
                Turn::End
            } else if passed {
                Turn::Run(ShortCheck::RouteRemoved)
            } else {
                Turn::Leave(ShortCheck::RouteRemoved)
            },
            ShortCheck::RouteRemoved => Turn::Run(ShortCheck::Cleanup),
            ShortCheck::Cleanup => Turn::End,
        }
    }
}

/// What a check needs to have passed.
pub open spec fn medium_needs(c: MediumCheck) -> Option<MediumCheck> {
    match c {
        MediumCheck::HealthzClaimed
        | MediumCheck::HostCaseAndPort
        | MediumCheck::Sticky
        | MediumCheck::Streaming
        | MediumCheck::Upgrade
        | MediumCheck::LargeBody
        | MediumCheck::HeadLimit
        | MediumCheck::RouteUpdate => Some(MediumCheck::RoutesProgrammed),
        MediumCheck::Concurrent => Some(MediumCheck::ManyHosts),
        _ => None,
    }
}

/// Whether what the suite runs with is set up for this check.
pub open spec fn medium_sets_up(c: MediumCheck) -> bool {
    c == MediumCheck::RoutesProgrammed
}

/// The check after a check.
pub open spec fn medium_after(c: MediumCheck) -> Option<MediumCheck> {
    match c {
        MediumCheck::NoHost => Some(MediumCheck::UnknownHost),
        MediumCheck::UnknownHost => Some(MediumCheck::HealthzUnclaimed),
        MediumCheck::HealthzUnclaimed => Some(MediumCheck::HealthzCrlf),
        MediumCheck::HealthzCrlf => Some(MediumCheck::RoutesProgrammed),
        MediumCheck::RoutesProgrammed => Some(MediumCheck::HealthzClaimed),
        MediumCheck::HealthzClaimed => Some(MediumCheck::HostCaseAndPort),
        MediumCheck::HostCaseAndPort => Some(MediumCheck::Sticky),
        MediumCheck::Sticky => Some(MediumCheck::Streaming),
        MediumCheck::Streaming => Some(MediumCheck::Upgrade),
        MediumCheck::Upgrade => Some(MediumCheck::LargeBody),
        MediumCheck::LargeBody => Some(MediumCheck::HeadLimit),
        MediumCheck::HeadLimit => Some(MediumCheck::RouteUpdate),
        MediumCheck::RouteUpdate => Some(MediumCheck::DeadBackend),
        MediumCheck::DeadBackend => Some(MediumCheck::BackendRef),
        MediumCheck::BackendRef => Some(MediumCheck::Headless),
        MediumCheck::Headless => Some(MediumCheck::ManyHosts),
        MediumCheck::ManyHosts => Some(MediumCheck::Concurrent),
        MediumCheck::Concurrent => Some(MediumCheck::RoutesDeleted),
        MediumCheck::RoutesDeleted => Some(MediumCheck::NoRestarts),
        MediumCheck::NoRestarts => Some(MediumCheck::VipHalf),
        MediumCheck::VipHalf => Some(MediumCheck::Cleanup),
        MediumCheck::Cleanup => None,
    }
}

/// What comes after a check of `medium`.
pub open spec fn medium_turn(c: MediumCheck, made: bool, programmed: bool, many: bool) -> Turn<
    MediumCheck,
> {
    if medium_sets_up(c) && !made {
        Turn::End
    } else {
        match medium_after(c) {
            Some(d) => match medium_needs(d) {
                Some(MediumCheck::RoutesProgrammed) => if programmed {
                    Turn::Run(d)
                } else {
                    Turn::Leave(d)
                },
                Some(_) => if many {
                    Turn::Run(d)
                } else {
                    Turn::Leave(d)
                },
                None => Turn::Run(d),
            },
            None => Turn::End,
        }
    }
}

impl MediumCheck {
    /// The name of the check.
    pub open spec fn named(self) -> Seq<char> {
        match self {
            MediumCheck::NoHost => "no-host-400"@,
            MediumCheck::UnknownHost => "unknown-host-404"@,
            MediumCheck::HealthzUnclaimed => "healthz-unclaimed"@,
            MediumCheck::HealthzCrlf => "healthz-crlf"@,
            MediumCheck::RoutesProgrammed => "routes-programmed"@,
            MediumCheck::HealthzClaimed => "healthz-claimed-proxied"@,
            MediumCheck::HostCaseAndPort => "host-case-and-port"@,
            MediumCheck::Sticky => "per-connection-sticky"@,
            MediumCheck::Streaming => "streaming-unbuffered"@,
            MediumCheck::Upgrade => "upgrade-passthrough"@,
            MediumCheck::LargeBody => "large-body"@,
            MediumCheck::HeadLimit => "head-limit"@,
            MediumCheck::RouteUpdate => "route-update"@,
            MediumCheck::DeadBackend => "dead-backend"@,
            MediumCheck::BackendRef => "backendref-service"@,
            MediumCheck::Headless => "headless-service-skipped"@,
            MediumCheck::ManyHosts => "many-hosts"@,
            MediumCheck::Concurrent => "concurrent-connections"@,
            MediumCheck::RoutesDeleted => "routes-deleted-404"@,
            MediumCheck::NoRestarts => "stormd-no-restarts"@,
            MediumCheck::VipHalf => "vip-half"@,
            MediumCheck::Cleanup => "cleanup"@,
        }
    }

    /// The name of the check.
    pub fn name(&self) -> (r: &'static str)
        ensures
            r@ == self.named(),
    {
        match self {
            MediumCheck::NoHost => "no-host-400",
            MediumCheck::UnknownHost => "unknown-host-404",
            MediumCheck::HealthzUnclaimed => "healthz-unclaimed",
            MediumCheck::HealthzCrlf => "healthz-crlf",
            MediumCheck::RoutesProgrammed => "routes-programmed",
            MediumCheck::HealthzClaimed => "healthz-claimed-proxied",
            MediumCheck::HostCaseAndPort => "host-case-and-port",
            MediumCheck::Sticky => "per-connection-sticky",
            MediumCheck::Streaming => "streaming-unbuffered",
            MediumCheck::Upgrade => "upgrade-passthrough",
            MediumCheck::LargeBody => "large-body",
            MediumCheck::HeadLimit => "head-limit",
            MediumCheck::RouteUpdate => "route-update",
            MediumCheck::DeadBackend => "dead-backend",
            MediumCheck::BackendRef => "backendref-service",
            MediumCheck::Headless => "headless-service-skipped",
            MediumCheck::ManyHosts => "many-hosts",
            MediumCheck::Concurrent => "concurrent-connections",
            MediumCheck::RoutesDeleted => "routes-deleted-404",
            MediumCheck::NoRestarts => "stormd-no-restarts",
            MediumCheck::VipHalf => "vip-half",
            MediumCheck::Cleanup => "cleanup",
        }
    }

    /// The check after this one.
    fn next(&self) -> (r: Option<MediumCheck>)
        ensures
            r == medium_after(*self),
    {
        match self {
            MediumCheck::NoHost => Some(MediumCheck::UnknownHost),
            MediumCheck::UnknownHost => Some(MediumCheck::HealthzUnclaimed),
            MediumCheck::HealthzUnclaimed => Some(MediumCheck::HealthzCrlf),
            MediumCheck::HealthzCrlf => Some(MediumCheck::RoutesProgrammed),
            MediumCheck::RoutesProgrammed => Some(MediumCheck::HealthzClaimed),
            MediumCheck::HealthzClaimed => Some(MediumCheck::HostCaseAndPort),
            MediumCheck::HostCaseAndPort => Some(MediumCheck::Sticky),
            MediumCheck::Sticky => Some(MediumCheck::Streaming),
            MediumCheck::Streaming => Some(MediumCheck::Upgrade),
            MediumCheck::Upgrade => Some(MediumCheck::LargeBody),
            MediumCheck::LargeBody => Some(MediumCheck::HeadLimit),
            MediumCheck::HeadLimit => Some(MediumCheck::RouteUpdate),
            MediumCheck::RouteUpdate => Some(MediumCheck::DeadBackend),
            MediumCheck::DeadBackend => Some(MediumCheck::BackendRef),
            MediumCheck::BackendRef => Some(MediumCheck::Headless),
            MediumCheck::Headless => Some(MediumCheck::ManyHosts),
            MediumCheck::ManyHosts => Some(MediumCheck::Concurrent),
            MediumCheck::Concurrent => Some(MediumCheck::RoutesDeleted),
            MediumCheck::RoutesDeleted => Some(MediumCheck::NoRestarts),
            MediumCheck::NoRestarts => Some(MediumCheck::VipHalf),
            MediumCheck::VipHalf => Some(MediumCheck::Cleanup),
            MediumCheck::Cleanup => None,
        }
    }

    /// Whether the suite is set up for this check.
    pub fn sets_up(&self) -> (r: bool)
        ensures
            r == medium_sets_up(*self),
    {
        match self {
            MediumCheck::RoutesProgrammed => true,
            _ => false,
        }
    }

    /// What comes after this check: nothing where the set-up for it failed,
    /// which `made` says. `programmed` and `many` say whether the checks of
    /// that name passed.
    pub fn after(&self, made: bool, programmed: bool, many: bool) -> (r: Turn<MediumCheck>)
        ensures
            r == medium_turn(*self, made, programmed, many),
            r == (if medium_sets_up(*self) && !made {
                Turn::End
            } else {
                match medium_after(*self) {
                    Some(c) => match medium_needs(c) {
                        Some(MediumCheck::RoutesProgrammed) => if programmed {
                            Turn::Run(c)
                        } else {
                            Turn::Leave(c)
                        },
                        Some(_) => if many {
                            Turn::Run(c)
                        } else {
                            Turn::Leave(c)
                        },
                        None => Turn::Run(c),
                    },
                    None => Turn::End,
                }
            }),
    {
        if self.sets_up() && !made {
            return Turn::End;
        }
        let c = match self.next() {
            Some(c) => c,
            None => {
                return Turn::End;
            },
        };
        let may = match c {
            MediumCheck::HealthzClaimed
            | MediumCheck::HostCaseAndPort
            | MediumCheck::Sticky
            | MediumCheck::Streaming
            | MediumCheck::Upgrade
            | MediumCheck::LargeBody
            | MediumCheck::HeadLimit
            | MediumCheck::RouteUpdate => programmed,
            MediumCheck::Concurrent => many,
            _ => true,
        };
        if may {
            Turn::Run(c)
        } else {
            Turn::Leave(c)
        }
    }

    /// The outcome of this check where it is left out; nothing for one that
    /// is not.
    pub fn left(&self) -> (r: Option<Outcome>)
        ensures
            match r {
                Some(o) => left_verdict(*self) == Some(o@),
                None => left_verdict(*self) is None,
            },
            match medium_needs(*self) {
                Some(n) => r is Some && r->0@ == OutcomeView::Fail(
                    "not run: "@ + n.named() + " did not pass"@,
                ),
                None => r is None,
            },
    {
        match self {
            MediumCheck::HealthzClaimed
            | MediumCheck::HostCaseAndPort
            | MediumCheck::Sticky
            | MediumCheck::Streaming
            | MediumCheck::Upgrade
            | MediumCheck::LargeBody
            | MediumCheck::HeadLimit
            | MediumCheck::RouteUpdate => Some(not_run(MediumCheck::RoutesProgrammed.name())),
            MediumCheck::Concurrent => Some(not_run(MediumCheck::ManyHosts.name())),
            _ => None,
        }
    }
}

/// The outcome of a check of `medium` that is left out; nothing for one that
/// never is.
pub open spec fn left_verdict(c: MediumCheck) -> Option<OutcomeView> {
    match medium_needs(c) {
        Some(n) => Some(OutcomeView::Fail("not run: "@ + n.named() + " did not pass"@)),
        None => None,
    }
}

/// What comes after a check of `long`: nothing where its set-up failed;
/// waves for as long as time is left, then the trend over them, then the
/// clean-up.
pub open spec fn long_after(c: LongCheck, made: bool, goes_on: bool) -> Option<LongCheck> {
    match c {
        LongCheck::Capacity => if !made {
            None
        } else if goes_on {
            Some(LongCheck::Wave(0))
        } else {
            Some(LongCheck::Trend)
        },
        LongCheck::Wave(n) => if goes_on {
            Some(LongCheck::Wave((n + 1) as usize))
        } else {
            Some(LongCheck::Trend)
        },
        LongCheck::Trend => Some(LongCheck::Cleanup),
        LongCheck::Cleanup => None,
    }
}

impl LongCheck {
    /// The name of the check.
    pub open spec fn named(self) -> Seq<char> {
        match self {
            LongCheck::Capacity => "capacity"@,
            LongCheck::Wave(n) => "wave-"@ + text::decimal(n as nat),
            LongCheck::Trend => "trend"@,
            LongCheck::Cleanup => "cleanup"@,
        }
    }

    /// The name of the check.
    pub fn name(&self) -> (r: String)
        ensures
            r@ == self.named(),
    {
        match self {
            LongCheck::Capacity => String::from_str("capacity"),
            LongCheck::Wave(n) => String::from_str("wave-").concat(
                text::decimal_text(*n as u128).as_str(),
            ),
            LongCheck::Trend => String::from_str("trend"),
            LongCheck::Cleanup => String::from_str("cleanup"),
        }
    }

    /// What comes after this check. `made` says whether the suite could be
    /// set up, which `capacity` starts with; `goes_on` whether there is time
    /// for another wave.
    pub fn after(&self, made: bool, goes_on: bool) -> (r: Turn<LongCheck>)
        requires
            *self matches LongCheck::Wave(n) ==> n < usize::MAX,
        ensures
            r == (match long_after(*self, made, goes_on) {
                Some(c) => Turn::Run(c),
                None => Turn::End,
            }),
    {
        match self {
            LongCheck::Capacity => if !made {
                Turn::End
            } else if goes_on {
                Turn::Run(LongCheck::Wave(0))
            } else {
                Turn::Run(LongCheck::Trend)
            },
            LongCheck::Wave(n) => if goes_on {
                Turn::Run(LongCheck::Wave(*n + 1))
            } else {
                Turn::Run(LongCheck::Trend)
            },
            LongCheck::Trend => Turn::Run(LongCheck::Cleanup),
            LongCheck::Cleanup => Turn::End,
        }
    }
}

// ---------------------------------------------------------------------------
// Laws
// ---------------------------------------------------------------------------

/// The checks from `c` on, so many at most.
pub open spec fn medium_from(c: MediumCheck, fuel: nat) -> Seq<MediumCheck>
    decreases fuel,
{
    if fuel == 0 {
        seq![]
    } else {
        match medium_after(c) {
            Some(d) => seq![c] + medium_from(d, (fuel - 1) as nat),
            None => seq![c],
        }
    }
}

/// Once it is set up, every check of `medium` is reported once and in the
/// same order, whatever passes: after the first come the other 21, and a check
/// is only ever left out, with a failure, for one that stands before it.
pub proof fn every_check_is_reported(c: MediumCheck)
    ensures
        medium_from(MediumCheck::NoHost, 100).len() == 22,
        medium_from(MediumCheck::NoHost, 100).contains(c),
        medium_needs(c) matches Some(n) ==> exists|i: int, j: int|
            0 <= i < j < 22 && #[trigger] medium_from(MediumCheck::NoHost, 100)[i] == n
                && #[trigger] medium_from(MediumCheck::NoHost, 100)[j] == c,
{
    reveal_with_fuel(medium_from, 23);
    let s = medium_from(MediumCheck::NoHost, 100);
    assert(s =~= seq![
        MediumCheck::NoHost,
        MediumCheck::UnknownHost,
        MediumCheck::HealthzUnclaimed,
        MediumCheck::HealthzCrlf,
        MediumCheck::RoutesProgrammed,
        MediumCheck::HealthzClaimed,
        MediumCheck::HostCaseAndPort,
        MediumCheck::Sticky,
        MediumCheck::Streaming,
        MediumCheck::Upgrade,
        MediumCheck::LargeBody,
        MediumCheck::HeadLimit,
        MediumCheck::RouteUpdate,
        MediumCheck::DeadBackend,
        MediumCheck::BackendRef,
        MediumCheck::Headless,
        MediumCheck::ManyHosts,
        MediumCheck::Concurrent,
        MediumCheck::RoutesDeleted,
        MediumCheck::NoRestarts,
        MediumCheck::VipHalf,
        MediumCheck::Cleanup,
    ]);
    let at: int = match c {
        MediumCheck::NoHost => 0,
        MediumCheck::UnknownHost => 1,
        MediumCheck::HealthzUnclaimed => 2,
        MediumCheck::HealthzCrlf => 3,
        MediumCheck::RoutesProgrammed => 4,
        MediumCheck::HealthzClaimed => 5,
        MediumCheck::HostCaseAndPort => 6,
        MediumCheck::Sticky => 7,
        MediumCheck::Streaming => 8,
        MediumCheck::Upgrade => 9,
        MediumCheck::LargeBody => 10,
        MediumCheck::HeadLimit => 11,
        MediumCheck::RouteUpdate => 12,
        MediumCheck::DeadBackend => 13,
        MediumCheck::BackendRef => 14,
        MediumCheck::Headless => 15,
        MediumCheck::ManyHosts => 16,
        MediumCheck::Concurrent => 17,
        MediumCheck::RoutesDeleted => 18,
        MediumCheck::NoRestarts => 19,
        MediumCheck::VipHalf => 20,
        MediumCheck::Cleanup => 21,
    };
    assert(s[at] == c);
    assert(s[4] == MediumCheck::RoutesProgrammed);
    assert(s[16] == MediumCheck::ManyHosts);
}

/// The checks of `long` from `c` on, with time for so many more waves.
pub open spec fn long_from(c: LongCheck, made: bool, waves: nat) -> Seq<LongCheck>
    decreases waves,
        (match c {
            LongCheck::Cleanup => 0int,
            LongCheck::Trend => 1,
            _ => 2,
        }),
{
    match long_after(c, made, waves > 0) {
        None => seq![c],
        Some(d) => seq![c] + long_from(
            d,
            made,
            if d is Wave {
                (waves - 1) as nat
            } else {
                waves
            },
        ),
    }
}

/// `long` reports its capacity, then each wave in turn, then the trend and the
/// clean-up. Where its set-up fails it reports its capacity and nothing more.
pub proof fn the_long_suite_reports_in_order(waves: nat)
    requires
        waves <= usize::MAX,
    ensures
        long_from(LongCheck::Capacity, false, waves) == seq![LongCheck::Capacity],
        long_from(LongCheck::Capacity, true, waves) == seq![LongCheck::Capacity] + Seq::new(
            waves,
            |i: int| LongCheck::Wave(i as usize),
        ) + seq![LongCheck::Trend, LongCheck::Cleanup],
{
    if waves > 0 {
        lemma_waves(0, (waves - 1) as nat);
    } else {
        reveal_with_fuel(long_from, 4);
    }
    assert(long_from(LongCheck::Capacity, true, waves) =~= seq![LongCheck::Capacity] + Seq::new(
        waves,
        |i: int| LongCheck::Wave(i as usize),
    ) + seq![LongCheck::Trend, LongCheck::Cleanup]);
}

proof fn lemma_waves(n: usize, left: nat)
    requires
        n + left < usize::MAX,
    ensures
        long_from(LongCheck::Wave(n), true, left) == Seq::new(
            left + 1,
            |i: int| LongCheck::Wave((n + i) as usize),
        ) + seq![LongCheck::Trend, LongCheck::Cleanup],
    decreases left,
{
    let all = Seq::new(left + 1, |i: int| LongCheck::Wave((n + i) as usize));
    if left > 0 {
        lemma_waves((n + 1) as usize, (left - 1) as nat);
        let rest = Seq::new(left, |i: int| LongCheck::Wave((n + 1 + i) as usize));
        assert(all =~= seq![LongCheck::Wave(n)] + rest);
    } else {
        reveal_with_fuel(long_from, 4);
    }
    assert(long_from(LongCheck::Wave(n), true, left) =~= all + seq![
        LongCheck::Trend,
        LongCheck::Cleanup,
    ]);
}

/// A suite is run where its name is that of one of the three, and no other
/// name is one.
pub proof fn suites_go_by_their_names(name: Seq<char>)
    ensures
        suite_named(name) == Some(Suite::Short) <==> name == "short"@,
        suite_named(name) == Some(Suite::Medium) <==> name == "medium"@,
        suite_named(name) == Some(Suite::Long) <==> name == "long"@,
        suite_named(name) is None <==> name != "short"@ && name != "medium"@ && name != "long"@,
{
    reveal_strlit("short");
    reveal_strlit("medium");
    reveal_strlit("long");
    assert("short"@.len() == 5 && "medium"@.len() == 6 && "long"@.len() == 4);
}

/// Stormlb counts as not started exactly where there is a supervisor and
/// neither it nor the router answers; the words name both.
pub proof fn stormlb_is_not_started_where_nothing_answers(
    router: Seq<char>,
    stormd: Option<Seq<char>>,
    router_up: bool,
    stormd_up: bool,
)
    ensures
        unstarted(router, stormd, router_up, stormd_up) is Some <==> stormd is Some && !router_up
            && !stormd_up,
        unstarted(router, stormd, router_up, stormd_up) matches Some(s) ==> text::has(s, router)
            && text::has(s, stormd->0),
{
    if unstarted(router, stormd, router_up, stormd_up) is Some {
        let sd = stormd->0;
        let s = not_started_text(router, sd);
        let a = "neither the router ("@;
        let b = ") nor its stormd ("@;
        let c = ") answers: stormlb is not started on this node (stormcos starts it on the sno profile)"@;
        assert(s =~= a + router + (b + sd + c));
        text::a_text_stands_between_two_others(s, router);
        assert(s =~= (a + router + b) + sd + c);
        text::a_text_stands_between_two_others(s, sd);
    }
}

/// `short` runs its five checks in turn, whatever passes, but for one: the
/// removal of a route that was not served is left out. It ends early only
/// where the set-up for `route-by-host` failed.
pub proof fn the_short_suite_runs_in_order(made: bool, passed: bool)
    ensures
        short_turn(ShortCheck::RouterHealthz, made, passed) == Turn::Run(
            ShortCheck::StormdSupervises,
        ),
        short_turn(ShortCheck::StormdSupervises, made, passed) == Turn::Run(
            ShortCheck::RouteByHost,
        ),
        !made ==> short_turn(ShortCheck::RouteByHost, made, passed) is End,
        made && passed ==> short_turn(ShortCheck::RouteByHost, made, passed) == Turn::Run(
            ShortCheck::RouteRemoved,
        ),
        made && !passed ==> short_turn(ShortCheck::RouteByHost, made, passed) == Turn::Leave(
            ShortCheck::RouteRemoved,
        ),
        short_turn(ShortCheck::RouteRemoved, made, passed) == Turn::Run(ShortCheck::Cleanup),
        short_turn(ShortCheck::Cleanup, made, passed) is End,
        forall|c: ShortCheck| #[trigger]
            short_sets_up(c) <==> c == ShortCheck::RouteByHost,
{
}

/// A check of `medium` is left out exactly where it needs the two hosts and
/// they were not served, or needs the many hosts and they were not. What it
/// needs is named. The suite ends early only where its set-up failed.
pub proof fn checks_are_left_out_for_what_they_need(
    c: MediumCheck,
    made: bool,
    programmed: bool,
    many: bool,
)
    ensures
        ({
            let two = |d: MediumCheck|
                d == MediumCheck::HealthzClaimed || d == MediumCheck::HostCaseAndPort || d
                    == MediumCheck::Sticky || d == MediumCheck::Streaming || d
                    == MediumCheck::Upgrade || d == MediumCheck::LargeBody || d
                    == MediumCheck::HeadLimit || d == MediumCheck::RouteUpdate;
            let turn = medium_turn(c, made, programmed, many);
            &&& turn matches Turn::Leave(d) ==> (two(d) && !programmed) || (d
                == MediumCheck::Concurrent && !many)
            &&& turn matches Turn::Run(d) ==> (two(d) ==> programmed) && (d
                == MediumCheck::Concurrent ==> many)
            &&& turn is End <==> c == MediumCheck::Cleanup || (c == MediumCheck::RoutesProgrammed
                && !made)
            &&& two(c) ==> left_verdict(c) == Some(
                OutcomeView::Fail("not run: "@ + "routes-programmed"@ + " did not pass"@),
            )
            &&& c == MediumCheck::Concurrent ==> left_verdict(c) == Some(
                OutcomeView::Fail("not run: "@ + "many-hosts"@ + " did not pass"@),
            )
            &&& left_verdict(c) is Some ==> two(c) || c == MediumCheck::Concurrent
            &&& medium_sets_up(c) <==> c == MediumCheck::RoutesProgrammed
        }),
{
}

/// The checks of `medium` follow one another in this order.
pub proof fn the_medium_suite_runs_in_order()
    ensures
        medium_from(MediumCheck::NoHost, 100) == seq![
            MediumCheck::NoHost,
            MediumCheck::UnknownHost,
            MediumCheck::HealthzUnclaimed,
            MediumCheck::HealthzCrlf,
            MediumCheck::RoutesProgrammed,
            MediumCheck::HealthzClaimed,
            MediumCheck::HostCaseAndPort,
            MediumCheck::Sticky,
            MediumCheck::Streaming,
            MediumCheck::Upgrade,
            MediumCheck::LargeBody,
            MediumCheck::HeadLimit,
            MediumCheck::RouteUpdate,
            MediumCheck::DeadBackend,
            MediumCheck::BackendRef,
            MediumCheck::Headless,
            MediumCheck::ManyHosts,
            MediumCheck::Concurrent,
            MediumCheck::RoutesDeleted,
            MediumCheck::NoRestarts,
            MediumCheck::VipHalf,
            MediumCheck::Cleanup,
        ],
{
    reveal_with_fuel(medium_from, 23);
    assert(medium_from(MediumCheck::NoHost, 100) =~= seq![
        MediumCheck::NoHost,
        MediumCheck::UnknownHost,
        MediumCheck::HealthzUnclaimed,
        MediumCheck::HealthzCrlf,
        MediumCheck::RoutesProgrammed,
        MediumCheck::HealthzClaimed,
        MediumCheck::HostCaseAndPort,
        MediumCheck::Sticky,
        MediumCheck::Streaming,
        MediumCheck::Upgrade,
        MediumCheck::LargeBody,
        MediumCheck::HeadLimit,
        MediumCheck::RouteUpdate,
        MediumCheck::DeadBackend,
        MediumCheck::BackendRef,
        MediumCheck::Headless,
        MediumCheck::ManyHosts,
        MediumCheck::Concurrent,
        MediumCheck::RoutesDeleted,
        MediumCheck::NoRestarts,
        MediumCheck::VipHalf,
        MediumCheck::Cleanup,
    ]);
}

/// Every wave has a name of its own.
pub proof fn waves_are_named_by_their_numbers(m: usize, n: usize)
    ensures
        LongCheck::Wave(n).named() == "wave-"@ + text::decimal(n as nat),
        LongCheck::Wave(m).named() == LongCheck::Wave(n).named() ==> m == n,
{
    let a = text::decimal(m as nat);
    let b = text::decimal(n as nat);
    if LongCheck::Wave(m).named() == LongCheck::Wave(n).named() {
        let k = "wave-"@.len() as int;
        assert(a =~= ("wave-"@ + a).skip(k));
        assert(b =~= ("wave-"@ + b).skip(k));
        text::lemma_decimal_reads_back(m as nat);
        text::lemma_decimal_reads_back(n as nat);
    }
}

/// A run that could not be made is told apart from one that failed: a name
/// that is no suite's and an environment in which something is missing could
/// not be made; a suite that took too long and a check that was left out
/// failed. Each says why.
pub proof fn what_could_not_be_made_did_not_fail(
    name: Seq<char>,
    missing: Seq<Seq<char>>,
    timeout: u128,
)
    ensures
        no_suite_verdict(name) is Some <==> name != "short"@ && name != "medium"@ && name
            != "long"@,
        no_suite_verdict(name) matches Some(o) ==> o == OutcomeView::Infra(
            "STORM_SUITE "@ + text::quoted(name) + " is not short, medium or long"@,
        ),
        unset_verdict(missing) is Some <==> missing.len() > 0,
        unset_verdict(missing) matches Some(o) ==> o == OutcomeView::Infra(
            "the runner did not set "@ + text::joined(missing, ", "@),
        ),
        late_verdict(timeout) == OutcomeView::Fail(
            "the suite did not finish within STORM_TIMEOUT ("@ + text::decimal(
                timeout as nat / 1_000_000_000,
            ) + " s)"@,
        ),
        not_run_verdict(name) == OutcomeView::Fail("not run: "@ + name + " did not pass"@),
        START_WAIT == 5_000_000_000,
{
}

} // verus!
