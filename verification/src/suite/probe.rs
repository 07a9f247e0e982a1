//! Watching the router from outside: until a host is served by the backend
//! it should be, until a host is a 404 again, and what the supervisor says
//! about the stormlb process it supervises.

use crate::suite::env;
use crate::suite::http::{self, Reply, Resp};
use crate::text;
use vstd::prelude::*;
use vstd::slice::slice_subrange;

verus! {

// ---------------------------------------------------------------------------
// What was seen
// ---------------------------------------------------------------------------

/// A response in a line: its status and its text.
pub open spec fn told(r: Resp) -> Seq<char> {
    text::decimal(r.status as nat) + " "@ + text::quoted(r.body_text())
}

/// A response in a line: its status and its text without the white space
/// around it.
pub open spec fn seen_resp(r: Resp) -> Seq<char> {
    text::decimal(r.status as nat) + " "@ + text::quoted(text::trimmed(r.body_text()))
}

/// Whether the body of a response names a backend.
pub open spec fn is_from(r: Resp, backend: Seq<char>) -> bool {
    r.backend_name() == Some(backend)
}

/// Whether a response is the router's own 404.
pub open spec fn is_404(r: Resp) -> bool {
    r.status == 404 && text::has(r.body_text(), "no route for host"@)
}

/// Whether a reply is a host served by its backend.
pub open spec fn is_served(r: Reply, backend: Seq<char>) -> bool {
    r matches Reply::Answer(a) && a.status == 200 && is_from(a, backend)
}

/// Whether a reply is the router's own 404.
pub open spec fn is_unrouted(r: Reply) -> bool {
    r matches Reply::Answer(a) && is_404(a)
}

/// What a reply was, in words.
pub open spec fn seen(r: Reply) -> Seq<char> {
    match r {
        Reply::Answer(a) => seen_resp(a),
        Reply::Closed => "the connection closed with no response"@,
        Reply::Failed(f) => f.why@,
    }
}

/// A response in a line: its status and its text.
pub fn tell(r: &Resp) -> (s: String)
    ensures
        s@ == told(*r),
{
    text::decimal_text(r.status as u128).concat(" ").concat(
        text::quote(r.text().as_str()).as_str(),
    )
}

/// A response in a line: its status and its trimmed text.
pub fn tell_trimmed(r: &Resp) -> (s: String)
    ensures
        s@ == seen_resp(*r),
{
    text::decimal_text(r.status as u128).concat(" ").concat(
        text::quote(text::trim_text(r.text().as_str()).as_str()).as_str(),
    )
}

/// Whether an optional text is `want`.
pub fn is_text(s: &Option<String>, want: &str) -> (r: bool)
    ensures
        r == (text::opt_string(*s) == Some(want@)),
{
    match s {
        Some(t) => text::same(t.as_str(), want),
        None => false,
    }
}

/// Whether the body of a response names a backend.
pub fn from_backend(r: &Resp, backend: &str) -> (b: bool)
    ensures
        b == is_from(*r, backend@),
{
    is_text(&r.backend(), backend)
}

/// Whether a response is the router's own 404.
pub fn own_404(r: &Resp) -> (b: bool)
    ensures
        b == is_404(*r),
{
    r.status == 404 && text::text_has(r.text().as_str(), "no route for host")
}

/// Whether a reply is a host served by its backend.
pub fn served_by(r: &Reply, backend: &str) -> (b: bool)
    ensures
        b == is_served(*r, backend@),
{
    match r {
        Reply::Answer(a) => a.status == 200 && from_backend(a, backend),
        _ => false,
    }
}

/// Whether a reply is the router's own 404.
pub fn not_routed(r: &Reply) -> (b: bool)
    ensures
        b == is_unrouted(*r),
{
    match r {
        Reply::Answer(a) => own_404(a),
        _ => false,
    }
}

/// What a reply was, in words.
pub fn describe(r: &Reply) -> (s: String)
    ensures
        s@ == seen(*r),
{
    match r {
        Reply::Answer(a) => tell_trimmed(a),
        Reply::Closed => String::from_str("the connection closed with no response"),
        Reply::Failed(f) => String::from_str(f.why.as_str()),
    }
}

// ---------------------------------------------------------------------------
// Until it is so
// ---------------------------------------------------------------------------

/// A host that is watched until it is served by a backend, or until no route
/// claims it. Times are in nanoseconds.
pub struct Watch {
    pub host: String,
    /// The backend that should serve it; nothing for the router's own 404.
    pub want: Option<String>,
    pub wait: u128,
    /// What was seen last.
    pub last: String,
}

/// How long the supervisor may take to answer, in nanoseconds.
pub const METRICS_WAIT: u128 = 10_000_000_000;

/// How long to sleep between two looks, in nanoseconds.
pub const POLL: u128 = 200_000_000;

/// Watches until `host` is answered by backend `want`.
pub fn served(host: &str, want: &str, wait: u128) -> (r: Watch)
    ensures
        r.host@ == host@,
        text::opt_string(r.want) == Some(want@),
        r.wait == wait,
        r.last@ == "nothing"@,
{
    Watch {
        host: String::from_str(host),
        want: Some(String::from_str(want)),
        wait,
        last: String::from_str("nothing"),
    }
}

/// Watches until `host` is the router's own 404 again.
pub fn unrouted(host: &str, wait: u128) -> (r: Watch)
    ensures
        r.host@ == host@,
        r.want is None,
        r.wait == wait,
        r.last@ == "nothing"@,
{
    Watch { host: String::from_str(host), want: None, wait, last: String::from_str("nothing") }
}

impl Watch {
    /// Whether a reply is what is watched for.
    pub open spec fn is_it(self, r: Reply) -> bool {
        match self.want {
            Some(w) => is_served(r, w@),
            None => is_unrouted(r),
        }
    }

    /// Whether to look again after `elapsed`.
    pub fn goes_on(&self, elapsed: u128) -> (r: bool)
        ensures
            r == (elapsed < self.wait),
            r == env::in_time(elapsed, self.wait),
    {
        elapsed < self.wait
    }

    /// Takes a reply; says whether it is what was watched for.
    pub fn saw(&mut self, reply: &Reply) -> (r: bool)
        ensures
            r == old(self).is_it(*reply),
            final(self).host == old(self).host,
            final(self).want == old(self).want,
            final(self).wait == old(self).wait,
            r ==> final(self).last == old(self).last,
            !r ==> final(self).last@ == seen(*reply),
    {
        let it = match &self.want {
            Some(w) => served_by(reply, w.as_str()),
            None => not_routed(reply),
        };
        if !it {
            self.last = describe(reply);
        }
        it
    }

    /// What there is to say when it was never so.
    pub open spec fn failure_text(self) -> Seq<char> {
        match self.want {
            Some(w) => self.host@ + " not served by backend "@ + w@ + " within "@ + text::decimal(
                env::whole_secs(self.wait),
            ) + " s; last: "@ + self.last@,
            None => self.host@ + " still routed after "@ + text::decimal(
                env::whole_secs(self.wait),
            ) + " s; last: "@ + self.last@,
        }
    }

    /// What there is to say when it was never so.
    pub fn failure(&self) -> (r: String)
        ensures
            r@ == self.failure_text(),
    {
        let secs = env::secs_text(self.wait);
        let host = String::from_str(self.host.as_str());
        match &self.want {
            Some(w) => host.concat(" not served by backend ").concat(w.as_str()).concat(
                " within ",
            ).concat(secs.as_str()).concat(" s; last: ").concat(self.last.as_str()),
            None => host.concat(" still routed after ").concat(secs.as_str()).concat(
                " s; last: ",
            ).concat(self.last.as_str()),
        }
    }
}

// ---------------------------------------------------------------------------
// The supervisor
// ---------------------------------------------------------------------------

/// The supervisor's view of the `stormlb` process.
#[derive(Debug, Clone, Copy, PartialEq, Eq, Structural)]
pub struct Supervised {
    pub running: bool,
    pub restarts: u64,
    pub crashes: u64,
}

/// The name of the metric that counts restarts.
pub fn restarts_metric() -> (r: &'static str)
    ensures
        r@ == "stormd_process_restarts_total"@,
{
    "stormd_process_restarts_total"
}

/// The name of the metric that counts crashes.
pub fn crashes_metric() -> (r: &'static str)
    ensures
        r@ == "stormd_process_crashes_total"@,
{
    "stormd_process_crashes_total"
}

/// Whether a line of metrics is about stormlb.
pub open spec fn is_mine(line: Seq<char>) -> bool {
    text::has(line, "process=\"stormlb\""@)
}

/// Whether a line says that stormlb is running.
pub open spec fn says_running(line: Seq<char>) -> bool {
    is_mine(line) && text::begins(line, "stormd_process_state{"@) && text::has(
        line,
        "state=\"running\""@,
    ) && text::ends(line, " 1"@)
}

/// What stands behind the last space of a line.
pub open spec fn last_token(line: Seq<char>) -> Seq<char> {
    line.skip(text::find_last(line, ' ') + 1)
}

/// The value, as text, of a metric of stormlb.
pub open spec fn metric_in(lines: Seq<Seq<char>>, name: Seq<char>) -> Option<Seq<char>>
    decreases lines.len(),
{
    if lines.len() == 0 {
        None
    } else if is_mine(lines[0]) && text::begins(lines[0], name + "{"@) {
        Some(last_token(lines[0]))
    } else {
        metric_in(lines.drop_first(), name)
    }
}

/// Whether some line says that stormlb is running.
pub open spec fn running_in(lines: Seq<Seq<char>>) -> bool {
    exists|i: int| 0 <= i < lines.len() && says_running(#[trigger] lines[i])
}

/// The value, as text, of a metric of stormlb: what stands behind the last
/// space of the first line that has it.
pub fn metric(m: &str, name: &str) -> (r: Option<String>)
    ensures
        text::opt_string(r) == metric_in(text::lines_of(m@), name@),
{
    let lines = text::lines(text::chars_of(m).as_slice());
    let mine = text::chars_of("process=\"stormlb\"");
    let start = text::chars_of(String::from_str(name).concat("{").as_str());
    let ghost all = text::lines_of(m@);
    assert(all.skip(0) =~= all);
    let mut i: usize = 0;
    while i < lines.len()
        invariant
            i <= lines@.len(),
            all == text::views(lines@),
            all == text::lines_of(m@),
            mine@ == "process=\"stormlb\""@,
            start@ == name@ + "{"@,
            metric_in(all, name@) == metric_in(all.skip(i as int), name@),
        decreases lines.len() - i,
    {
        let line = lines[i].as_slice();
        assert(all.skip(i as int)[0] == line@);
        assert(all.skip(i as int).drop_first() =~= all.skip(i + 1));
        if text::contains(line, mine.as_slice()) && text::stands_at(line, start.as_slice(), 0) {
            let k = text::after_last(line, ' ');
            let v = slice_subrange(line, k, line.len());
            assert(v@ =~= last_token(line@));
            return Some(text::text_of(v));
        }
        i += 1;
    }
    assert(all.skip(i as int) =~= seq![]);
    None
}

/// Whether some line says that stormlb is running.
fn running(m: &str) -> (r: bool)
    ensures
        r == running_in(text::lines_of(m@)),
{
    let lines = text::lines(text::chars_of(m).as_slice());
    let mine = text::chars_of("process=\"stormlb\"");
    let start = text::chars_of("stormd_process_state{");
    let state = text::chars_of("state=\"running\"");
    let one = text::chars_of(" 1");
    let ghost all = text::lines_of(m@);
    let mut i: usize = 0;
    while i < lines.len()
        invariant
            i <= lines@.len(),
            all == text::views(lines@),
            all == text::lines_of(m@),
            mine@ == "process=\"stormlb\""@,
            start@ == "stormd_process_state{"@,
            state@ == "state=\"running\""@,
            one@ == " 1"@,
            forall|j: int| 0 <= j < i ==> !says_running(#[trigger] all[j]),
        decreases lines.len() - i,
    {
        let line = lines[i].as_slice();
        assert(all[i as int] == line@);
        if text::contains(line, mine.as_slice()) && text::stands_at(line, start.as_slice(), 0)
            && text::contains(line, state.as_slice()) && text::ends_with(line, one.as_slice()) {
            assert(says_running(all[i as int]));
            return true;
        }
        i += 1;
    }
    false
}

/// The supervisor's view of the `stormlb` process, from the lines of its
/// metrics and the two numbers in them.
pub open spec fn view_in(
    lines: Seq<Seq<char>>,
    restarts: Option<u64>,
    crashes: Option<u64>,
) -> Option<Supervised> {
    match restarts {
        Some(n) => Some(
            Supervised {
                running: running_in(lines),
                restarts: n,
                crashes: match crashes {
                    Some(c) => c,
                    None => 0,
                },
            },
        ),
        None => None,
    }
}

/// The supervisor's view of the `stormlb` process, from its metrics.
/// `restarts` and `crashes` are the numbers in the texts that `metric` gives
/// for those two. Without a number of restarts there is no view; without one
/// of crashes there were none.
pub fn parse_metrics(m: &str, restarts: Option<u64>, crashes: Option<u64>) -> (r: Option<
    Supervised,
>)
    ensures
        r == (match restarts {
            Some(n) => Some(
                (Supervised {
                    running: running_in(text::lines_of(m@)),
                    restarts: n,
                    crashes: match crashes {
                        Some(c) => c,
                        None => 0,
                    },
                }),
            ),
            None => None,
        }),
        r == view_in(text::lines_of(m@), restarts, crashes),
{
    match restarts {
        Some(n) => Some(
            Supervised {
                running: running(m),
                restarts: n,
                crashes: match crashes {
                    Some(c) => c,
                    None => 0,
                },
            },
        ),
        None => None,
    }
}

impl Supervised {
    /// The view in a line.
    pub open spec fn shown(self) -> Seq<char> {
        "Supervised { running: "@ + (if self.running {
            "true"@
        } else {
            "false"@
        }) + ", restarts: "@ + text::decimal(self.restarts as nat) + ", crashes: "@
            + text::decimal(self.crashes as nat) + " }"@
    }

    /// The view in a line.
    pub fn show(&self) -> (r: String)
        ensures
            r@ == self.shown(),
    {
        let running = if self.running {
            "true"
        } else {
            "false"
        };
        String::from_str("Supervised { running: ").concat(running).concat(", restarts: ").concat(
            text::decimal_text(self.restarts as u128).as_str(),
        ).concat(", crashes: ").concat(text::decimal_text(self.crashes as u128).as_str()).concat(
            " }",
        )
    }
}

/// The address of the supervisor's metrics.
pub open spec fn metrics_url_of(addr: Seq<char>) -> Seq<char> {
    "http://"@ + addr + "/metrics"@
}

/// The address of the supervisor's metrics.
pub fn metrics_url(addr: &str) -> (r: String)
    ensures
        r@ == metrics_url_of(addr@),
{
    String::from_str("http://").concat(addr).concat("/metrics")
}

/// What there is to say of metrics without stormlb in them.
pub fn no_process(addr: &str) -> (r: String)
    ensures
        r@ == metrics_url_of(addr@) + " has no process=\"stormlb\""@,
{
    metrics_url(addr).concat(" has no process=\"stormlb\"")
}

// ---------------------------------------------------------------------------
// Laws
// ---------------------------------------------------------------------------

/// Metrics of other processes do not matter: a line that is not about stormlb
/// may stand anywhere.
pub proof fn other_processes_do_not_matter(
    a: Seq<Seq<char>>,
    line: Seq<char>,
    b: Seq<Seq<char>>,
    name: Seq<char>,
)
    requires
        !is_mine(line),
    ensures
        metric_in(a + seq![line] + b, name) == metric_in(a + b, name),
        running_in(a + seq![line] + b) == running_in(a + b),
    decreases a.len(),
{
    let s = a + seq![line] + b;
    let t = a + b;
    if a.len() == 0 {
        assert(s[0] == line);
        assert(s.drop_first() =~= b);
        assert(t =~= b);
    } else {
        assert(s[0] == a[0] && t[0] == a[0]);
        assert(s.drop_first() =~= a.drop_first() + seq![line] + b);
        assert(t.drop_first() =~= a.drop_first() + b);
        other_processes_do_not_matter(a.drop_first(), line, b, name);
    }
    let n = a.len() as int;
    if running_in(s) {
        let i = choose|i: int| 0 <= i < s.len() && says_running(#[trigger] s[i]);
        assert(s[n] == line);
        if i < n {
            assert(t[i] == s[i]);
        } else {
            assert(t[i - 1] == s[i]);
        }
    }
    if running_in(t) {
        let i = choose|i: int| 0 <= i < t.len() && says_running(#[trigger] t[i]);
        if i < n {
            assert(s[i] == t[i]);
        } else {
            assert(s[i + 1] == t[i]);
        }
    }
}

/// Which replies are a host served by its backend: the answers with status 200
/// whose body names that backend, and no others.
pub proof fn a_host_is_served_by_the_backend_that_answers(r: Reply, backend: Seq<char>)
    ensures
        is_served(r, backend) <==> (r matches Reply::Answer(a) && a.status == 200
            && http::field_of(text::lossy_text(a.body@), "backend"@) == Some(backend)),
        r matches Reply::Answer(a) ==> (is_from(a, backend) <==> http::field_of(
            text::lossy_text(a.body@),
            "backend"@,
        ) == Some(backend)),
{
}

/// Which replies say that no route claims a host: the answers with status 404
/// whose body says so, and no others. A backend's own 404 is none.
pub proof fn a_host_is_unrouted_where_the_router_says_so(r: Reply)
    ensures
        is_unrouted(r) <==> (r matches Reply::Answer(a) && a.status == 404 && text::has(
            text::lossy_text(a.body@),
            "no route for host"@,
        )),
        r matches Reply::Answer(a) ==> (is_404(a) <==> a.status == 404 && text::has(
            text::lossy_text(a.body@),
            "no route for host"@,
        )),
{
}

/// A watch for a backend ends with an answer from it, and with nothing else; a
/// watch for no backend ends with the router's own 404, and with nothing else.
pub proof fn a_watch_ends_with_what_it_is_for(w: Watch, r: Reply)
    ensures
        w.want matches Some(b) ==> (w.is_it(r) <==> (r matches Reply::Answer(a) && a.status == 200
            && http::field_of(text::lossy_text(a.body@), "backend"@) == Some(b@))),
        w.want is None ==> (w.is_it(r) <==> (r matches Reply::Answer(a) && a.status == 404
            && text::has(text::lossy_text(a.body@), "no route for host"@))),
{
}

/// A response is told by its status in decimal and its text between quotes; a
/// reply without a response is told by why there is none.
pub proof fn replies_are_told_by_what_came(r: Reply)
    ensures
        r matches Reply::Answer(a) ==> {
            let status = text::decimal(a.status as nat) + " "@;
            &&& told(a) == status + text::quoted(text::lossy_text(a.body@))
            &&& seen(r) == status + text::quoted(text::trimmed(text::lossy_text(a.body@)))
            &&& seen_resp(a) == seen(r)
        },
        r matches Reply::Failed(f) ==> seen(r) == f.why@,
        r is Closed ==> seen(r) == "the connection closed with no response"@,
{
}

/// A watch that was in vain is told by the host, what was wanted, how long it
/// was waited for and what was seen last.
pub proof fn a_watch_in_vain_says_what_was_seen(w: Watch)
    ensures
        ({
            let secs = text::decimal(w.wait as nat / 1_000_000_000);
            &&& w.want matches Some(b) ==> w.failure_text() == w.host@ + " not served by backend "@
                + b@ + " within "@ + secs + " s; last: "@ + w.last@
            &&& w.want is None ==> w.failure_text() == w.host@ + " still routed after "@ + secs
                + " s; last: "@ + w.last@
        }),
{
}

/// What `metric_in` finds: the first line of stormlb's that has the metric.
proof fn lemma_metric_in(lines: Seq<Seq<char>>, name: Seq<char>, i: int)
    requires
        0 <= i <= lines.len(),
        forall|j: int|
            0 <= j < i ==> !(text::has(#[trigger] lines[j], "process=\"stormlb\""@)
                && text::begins(lines[j], name + "{"@)),
    ensures
        i < lines.len() && text::has(lines[i], "process=\"stormlb\""@) && text::begins(
            lines[i],
            name + "{"@,
        ) ==> metric_in(lines, name) == Some(last_token(lines[i])),
        i == lines.len() ==> metric_in(lines, name) is None,
    decreases lines.len(),
{
    if i > 0 {
        let t = lines.drop_first();
        assert(!(text::has(lines[0], "process=\"stormlb\""@) && text::begins(
            lines[0],
            name + "{"@,
        )));
        assert forall|j: int| 0 <= j < i - 1 implies !(text::has(
            #[trigger] t[j],
            "process=\"stormlb\""@,
        ) && text::begins(t[j], name + "{"@)) by {
            assert(t[j] == lines[j + 1]);
        }
        lemma_metric_in(t, name, i - 1);
        if i < lines.len() {
            assert(t[i - 1] == lines[i]);
        }
    }
}

/// The value of a metric stands behind the last space of the first line that
/// begins with its name and a brace and has the label of stormlb.
pub proof fn a_metric_is_the_first_line_of_stormlb(
    lines: Seq<Seq<char>>,
    name: Seq<char>,
    i: int,
    a: Seq<char>,
    v: Seq<char>,
)
    requires
        0 <= i <= lines.len(),
        forall|j: int|
            0 <= j < i ==> !(text::has(#[trigger] lines[j], "process=\"stormlb\""@)
                && text::begins(lines[j], name + "{"@)),
        forall|k: int| 0 <= k < v.len() ==> #[trigger] v[k] != ' ',
    ensures
        i < lines.len() && lines[i] == a + seq![' '] + v && text::has(
            lines[i],
            "process=\"stormlb\""@,
        ) && text::begins(lines[i], name + "{"@) ==> metric_in(lines, name) == Some(v),
        i == lines.len() ==> metric_in(lines, name) is None,
{
    lemma_metric_in(lines, name, i);
    if i < lines.len() && lines[i] == a + seq![' '] + v {
        let s = lines[i];
        let n = a.len() as int;
        assert(s[n] == ' ');
        assert forall|k: int| n < k < s.len() implies s[k] != ' ' by {
            assert(s[k] == v[k - n - 1]);
        }
        text::lemma_find_last(s, ' ');
        assert(text::find_last(s, ' ') == n);
        assert(last_token(s) =~= v);
    }
}

/// Stormlb is running where some line of the state metric has its label, names
/// the state `running` and ends in 1; and not otherwise.
pub proof fn stormlb_runs_where_a_line_says_so(lines: Seq<Seq<char>>)
    ensures
        running_in(lines) <==> exists|i: int|
            {
                &&& 0 <= i < lines.len()
                &&& text::begins(#[trigger] lines[i], "stormd_process_state{"@)
                &&& text::has(lines[i], "process=\"stormlb\""@)
                &&& text::has(lines[i], "state=\"running\""@)
                &&& text::ends(lines[i], " 1"@)
            },
{
    if running_in(lines) {
        let i = choose|i: int| 0 <= i < lines.len() && says_running(#[trigger] lines[i]);
        assert(text::begins(lines[i], "stormd_process_state{"@));
    }
    if exists|i: int|
        {
            &&& 0 <= i < lines.len()
            &&& text::begins(#[trigger] lines[i], "stormd_process_state{"@)
            &&& text::has(lines[i], "process=\"stormlb\""@)
            &&& text::has(lines[i], "state=\"running\""@)
            &&& text::ends(lines[i], " 1"@)
        } {
        let i = choose|i: int|
            {
                &&& 0 <= i < lines.len()
                &&& text::begins(#[trigger] lines[i], "stormd_process_state{"@)
                &&& text::has(lines[i], "process=\"stormlb\""@)
                &&& text::has(lines[i], "state=\"running\""@)
                &&& text::ends(lines[i], " 1"@)
            };
        assert(says_running(lines[i]));
    }
}

/// Without a number of restarts there is no view of stormlb; with one it has
/// that number, the number of crashes or else none, and runs where a line says
/// so.
pub proof fn a_view_needs_the_number_of_restarts(
    lines: Seq<Seq<char>>,
    restarts: Option<u64>,
    crashes: Option<u64>,
)
    ensures
        view_in(lines, restarts, crashes) is Some <==> restarts is Some,
        view_in(lines, restarts, crashes) matches Some(s) ==> {
            &&& Some(s.restarts) == restarts
            &&& crashes is Some ==> Some(s.crashes) == crashes
            &&& crashes is None ==> s.crashes == 0
            &&& s.running == running_in(lines)
        },
{
}

/// A view is shown with its three parts, each under its name.
pub proof fn a_view_is_shown_with_its_parts(s: Supervised)
    ensures
        s.running ==> s.shown() == "Supervised { running: "@ + "true"@ + ", restarts: "@
            + text::decimal(s.restarts as nat) + ", crashes: "@ + text::decimal(s.crashes as nat)
            + " }"@,
        !s.running ==> s.shown() == "Supervised { running: "@ + "false"@ + ", restarts: "@
            + text::decimal(s.restarts as nat) + ", crashes: "@ + text::decimal(s.crashes as nat)
            + " }"@,
{
}

/// The supervisor's metrics stand at its address, under `/metrics`; how long
/// it is waited for, and how often it is looked.
pub proof fn metrics_stand_under_their_path(addr: Seq<char>)
    ensures
        metrics_url_of(addr) == "http://"@ + (addr + "/metrics"@),
        METRICS_WAIT == 10_000_000_000,
        POLL == 200_000_000,
{
    assert(metrics_url_of(addr) =~= "http://"@ + (addr + "/metrics"@));
}

} // verus!
