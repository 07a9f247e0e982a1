//! `short`: the router is up on the node and doing its main job, a route's
//! hostname reaches its backend and stops reaching it when the route is
//! deleted, under the supervisor.

use crate::suite::env;
use crate::suite::http::Reply;
use crate::suite::probe::{self, Supervised};
use crate::suite::report::{Outcome, OutcomeView};
use crate::text;
use vstd::prelude::*;

verus! {

/// What the router's own liveness answer is worth.
pub open spec fn healthz_verdict(router: Seq<char>, r: Reply) -> OutcomeView {
    match r {
        Reply::Answer(a) => if a.status == 200 && text::has(a.body_text(), "router alive"@) {
            OutcomeView::Pass(router + " answers 200 router alive"@)
        } else {
            OutcomeView::Fail(router + " answered "@ + probe::told(a))
        },
        Reply::Closed => OutcomeView::Fail(router + " closed with no response"@),
        Reply::Failed(f) => OutcomeView::Fail(router + ": "@ + f.why@),
    }
}

/// The router's own liveness answer, on a host no route claims.
pub fn healthz(router: &str, reply: &Reply) -> (r: Outcome)
    ensures
        r@ == healthz_verdict(router@, *reply),
{
    let at = String::from_str(router);
    match reply {
        Reply::Answer(a) => if a.status == 200 && text::text_has(
            a.text().as_str(),
            "router alive",
        ) {
            Outcome::Pass(at.concat(" answers 200 router alive"))
        } else {
            Outcome::Fail(at.concat(" answered ").concat(probe::tell(a).as_str()))
        },
        Reply::Closed => Outcome::Fail(at.concat(" closed with no response")),
        Reply::Failed(f) => Outcome::Fail(at.concat(": ").concat(f.why.as_str())),
    }
}

/// What the supervisor's view is worth.
pub open spec fn supervised_verdict(
    stormd: Option<Seq<char>>,
    now: Result<Supervised, String>,
) -> OutcomeView {
    match stormd {
        None => OutcomeView::Skip("no stormd here (STORMLB_STORMD=none)"@),
        Some(sd) => match now {
            Ok(s) => if s.running {
                OutcomeView::Pass(
                    "stormd on "@ + sd + ": running, "@ + text::decimal(s.restarts as nat)
                        + " restarts, "@ + text::decimal(s.crashes as nat) + " crashes"@,
                )
            } else {
                OutcomeView::Fail(
                    "stormd on "@ + sd + " does not report stormlb running: "@ + s.shown(),
                )
            },
            Err(e) => OutcomeView::Fail(e@),
        },
    }
}

/// What the supervisor says of stormlb.
pub fn supervised(stormd: &Option<String>, now: &Result<Supervised, String>) -> (r: Outcome)
    ensures
        r@ == supervised_verdict(text::opt_string(*stormd), *now),
{
    let sd = match stormd {
        Some(s) => s,
        None => {
            return Outcome::Skip(String::from_str("no stormd here (STORMLB_STORMD=none)"));
        },
    };
    match now {
        Ok(s) => {
            let on = String::from_str("stormd on ").concat(sd.as_str());
            if s.running {
                Outcome::Pass(
                    on.concat(": running, ").concat(
                        text::decimal_text(s.restarts as u128).as_str(),
                    ).concat(" restarts, ").concat(
                        text::decimal_text(s.crashes as u128).as_str(),
                    ).concat(" crashes"),
                )
            } else {
                Outcome::Fail(
                    on.concat(" does not report stormlb running: ").concat(s.show().as_str()),
                )
            }
        },
        Err(e) => Outcome::Fail(String::from_str(e.as_str())),
    }
}

/// The outcome of a route that could not be created.
pub fn no_route(why: &str) -> (r: Outcome)
    ensures
        r@ == OutcomeView::Infra("cannot create the HTTPRoute: "@ + why@),
{
    Outcome::Infra(String::from_str("cannot create the HTTPRoute: ").concat(why))
}

/// What a created route is worth: `took` is how long its host took to be
/// served, or what went wrong.
pub open spec fn by_host_verdict(
    host: Seq<char>,
    addr: Seq<char>,
    took: Result<u128, String>,
) -> OutcomeView {
    match took {
        Ok(t) => OutcomeView::Pass(
            host + " -> "@ + addr + " after "@ + text::decimal(env::whole_millis(t)) + " ms"@,
        ),
        Err(e) => OutcomeView::Fail(e@),
    }
}

/// What a deleted route is worth: `took` is how long its host took to be a
/// 404, or what went wrong.
pub open spec fn removed_verdict(took: Result<u128, String>) -> OutcomeView {
    match took {
        Ok(t) => OutcomeView::Pass(
            "404 "@ + text::decimal(env::whole_millis(t)) + " ms after the delete"@,
        ),
        Err(e) => OutcomeView::Fail(e@),
    }
}

/// Whether a created route's host came to be served: `took` is how long that
/// took, or what went wrong.
pub fn route_by_host(host: &str, addr: &str, took: &Result<u128, String>) -> (r: Outcome)
    ensures
        r@ == by_host_verdict(host@, addr@, *took),
        r@ == (match took {
            Ok(t) => OutcomeView::Pass(
                host@ + " -> "@ + addr@ + " after "@ + text::decimal(env::whole_millis(*t))
                    + " ms"@,
            ),
            Err(e) => OutcomeView::Fail(e@),
        }),
{
    match took {
        Ok(t) => Outcome::Pass(
            String::from_str(host).concat(" -> ").concat(addr).concat(" after ").concat(
                env::millis_text(*t).as_str(),
            ).concat(" ms"),
        ),
        Err(e) => Outcome::Fail(String::from_str(e.as_str())),
    }
}

/// Whether a deleted route's host came to be a 404.
pub fn route_removed(took: &Result<u128, String>) -> (r: Outcome)
    ensures
        r@ == removed_verdict(*took),
        r@ == (match took {
            Ok(t) => OutcomeView::Pass(
                "404 "@ + text::decimal(env::whole_millis(*t)) + " ms after the delete"@,
            ),
            Err(e) => OutcomeView::Fail(e@),
        }),
{
    match took {
        Ok(t) => Outcome::Pass(
            String::from_str("404 ").concat(env::millis_text(*t).as_str()).concat(
                " ms after the delete",
            ),
        ),
        Err(e) => Outcome::Fail(String::from_str(e.as_str())),
    }
}

/// What a run that deleted its objects is worth.
pub open spec fn cleanup_verdict(
    deleted: Result<usize, String>,
    left: Result<usize, String>,
) -> OutcomeView {
    match deleted {
        Err(e) => OutcomeView::Fail(e@),
        Ok(n) => match left {
            Err(e) => OutcomeView::Fail(e@),
            Ok(k) => if k == 0 {
                OutcomeView::Pass(text::decimal(n as nat) + " objects deleted, none left"@)
            } else {
                OutcomeView::Fail(
                    text::decimal(k as nat) + " objects labelled with this run are still listed"@,
                )
            },
        },
    }
}

/// Whether what the run made is deleted, and nothing of it still listed.
pub fn cleanup(deleted: &Result<usize, String>, left: &Result<usize, String>) -> (r: Outcome)
    ensures
        r@ == cleanup_verdict(*deleted, *left),
{
    match deleted {
        Err(e) => Outcome::Fail(String::from_str(e.as_str())),
        Ok(n) => match left {
            Err(e) => Outcome::Fail(String::from_str(e.as_str())),
            Ok(k) => if *k == 0 {
                Outcome::Pass(
                    text::decimal_text(*n as u128).concat(" objects deleted, none left"),
                )
            } else {
                Outcome::Fail(
                    text::decimal_text(*k as u128).concat(
                        " objects labelled with this run are still listed",
                    ),
                )
            },
        },
    }
}

// ---------------------------------------------------------------------------
// Laws
// ---------------------------------------------------------------------------

/// `router-healthz` passes on an answer with status 200 whose text says that
/// the router is alive, and on nothing else.
pub proof fn healthz_passes_where_the_router_is_alive(router: Seq<char>, r: Reply)
    ensures
        healthz_verdict(router, r) is Pass <==> (r matches Reply::Answer(a) && a.status == 200
            && text::has(text::lossy_text(a.body@), "router alive"@)),
        !(healthz_verdict(router, r) is Pass) ==> healthz_verdict(router, r) is Fail,
        r matches Reply::Answer(a) ==> (healthz_verdict(router, r) is Fail ==> healthz_verdict(
            router,
            r,
        ).detail() == router + " answered "@ + probe::told(a)),
        r is Closed ==> healthz_verdict(router, r).detail() == router
            + " closed with no response"@,
        r matches Reply::Failed(f) ==> healthz_verdict(router, r).detail() == router + ": "@
            + f.why@,
{
}

/// `stormd-supervises` passes where the supervisor says that stormlb runs, and
/// on nothing else. It is skipped where there is no supervisor, and otherwise
/// fails.
pub proof fn supervised_passes_where_stormlb_runs(
    stormd: Option<Seq<char>>,
    now: Result<Supervised, String>,
)
    ensures
        supervised_verdict(stormd, now) is Pass <==> stormd is Some && (now matches Ok(s)
            && s.running),
        supervised_verdict(stormd, now) is Skip <==> stormd is None,
        supervised_verdict(stormd, now) is Fail <==> stormd is Some && (now matches Ok(s)
            ==> !s.running),
        stormd is Some ==> (now matches Err(e) ==> supervised_verdict(stormd, now).detail() == e@),
        stormd matches Some(sd) ==> (now matches Ok(s) ==> (s.running ==> supervised_verdict(
            stormd,
            now,
        ).detail() == "stormd on "@ + sd + ": running, "@ + text::decimal(s.restarts as nat)
            + " restarts, "@ + text::decimal(s.crashes as nat) + " crashes"@)),
{
}

/// `route-by-host` passes where the host came to be served, and
/// `route-removed` where it came to be a 404; either fails with what went
/// wrong otherwise.
pub proof fn routes_pass_where_they_show(
    host: Seq<char>,
    addr: Seq<char>,
    took: Result<u128, String>,
)
    ensures
        by_host_verdict(host, addr, took) is Pass <==> took is Ok,
        removed_verdict(took) is Pass <==> took is Ok,
        took matches Err(e) ==> by_host_verdict(host, addr, took) == OutcomeView::Fail(e@),
        took matches Err(e) ==> removed_verdict(took) == OutcomeView::Fail(e@),
        took matches Ok(t) ==> by_host_verdict(host, addr, took).detail() == host + " -> "@ + addr
            + " after "@ + text::decimal(t as nat / 1_000_000) + " ms"@,
        took matches Ok(t) ==> removed_verdict(took).detail() == "404 "@ + text::decimal(
            t as nat / 1_000_000,
        ) + " ms after the delete"@,
{
}

/// `cleanup` passes where everything was deleted and nothing is listed, and on
/// nothing else.
pub proof fn cleanup_passes_where_nothing_is_left(
    deleted: Result<usize, String>,
    left: Result<usize, String>,
)
    ensures
        cleanup_verdict(deleted, left) is Pass <==> deleted is Ok && (left matches Ok(k) && k == 0),
        !(cleanup_verdict(deleted, left) is Pass) ==> cleanup_verdict(deleted, left) is Fail,
        deleted matches Err(e) ==> cleanup_verdict(deleted, left).detail() == e@,
        deleted is Ok ==> (left matches Err(e) ==> cleanup_verdict(deleted, left).detail() == e@),
        deleted is Ok ==> (left matches Ok(k) ==> (k > 0 ==> cleanup_verdict(deleted, left).detail()
            == text::decimal(k as nat) + " objects labelled with this run are still listed"@)),
        deleted matches Ok(n) ==> (left == Ok::<usize, String>(0) ==> cleanup_verdict(
            deleted,
            left,
        ).detail() == text::decimal(n as nat) + " objects deleted, none left"@),
{
}

/// What the checks of the router and its supervisor say.
pub proof fn the_router_is_told_in_words(router: Seq<char>, sd: Seq<char>, r: Reply, s: Supervised)
    ensures
        healthz_verdict(router, r) is Pass ==> healthz_verdict(router, r).detail() == router
            + " answers 200 router alive"@,
        !s.running ==> supervised_verdict(Some(sd), Ok(s)).detail() == "stormd on "@ + sd
            + " does not report stormlb running: "@ + s.shown(),
        supervised_verdict(None, Ok(s)).detail() == "no stormd here (STORMLB_STORMD=none)"@,
{
}

} // verus!
