//! What a run is told of itself, and the few knobs that it has.

use crate::text;
use vstd::prelude::*;
use vstd::slice::slice_subrange;

verus! {

/// What the environment and the mounted files hold, as they stand.
pub struct Vars {
    pub suite: Option<String>,
    pub run_id: Option<String>,
    pub namespace: Option<String>,
    pub api: Option<String>,
    pub node: Option<String>,
    pub router: Option<String>,
    pub stormd: Option<String>,
    pub timeout: Option<String>,
    pub route_wait: Option<String>,
    pub settle: Option<String>,
    /// The ServiceAccount's namespace file.
    pub account_namespace: Option<String>,
    /// The ServiceAccount's token file.
    pub account_token: Option<String>,
    /// The ServiceAccount's CA file.
    pub ca: Option<Vec<u8>>,
}

/// What a run is told. Times are in nanoseconds.
pub struct Env {
    pub suite: String,
    pub run_id: String,
    pub namespace: String,
    /// The apiserver the suites create HTTPRoutes through.
    pub api: String,
    /// The node under test.
    pub node: String,
    /// The router, `host:port`.
    pub router: String,
    /// The supervisor's API, `host:port`; nothing where there is none.
    pub stormd: Option<String>,
    pub token: Option<String>,
    pub ca: Option<Vec<u8>>,
    pub timeout: u128,
    /// How long a route change may take to show.
    pub route_wait: u128,
    /// How long to wait before calling something not routed.
    pub settle: u128,
}

/// A variable that is set, and not to nothing.
pub open spec fn set(v: Option<String>) -> Option<Seq<char>> {
    match v {
        Some(s) => if s@.len() > 0 {
            Some(s@)
        } else {
            None
        },
        None => None,
    }
}

/// A file's text without the white space around it, where any is left.
pub open spec fn file_text(v: Option<String>) -> Option<Seq<char>> {
    match v {
        Some(s) => if text::trimmed(s@).len() > 0 {
            Some(text::trimmed(s@))
        } else {
            None
        },
        None => None,
    }
}

/// A text, or another where there is none.
pub open spec fn or(s: Option<Seq<char>>, other: Seq<char>) -> Seq<char> {
    match s {
        Some(t) => t,
        None => other,
    }
}

/// A time given in whole seconds, in nanoseconds; `default` where there is
/// none.
pub open spec fn nanos(v: Option<String>, default: nat) -> nat {
    match set(v) {
        Some(s) => match text::number(s, u64::MAX as nat) {
            Some(n) => n * 1_000_000_000,
            None => default * 1_000_000_000,
        },
        None => default * 1_000_000_000,
    }
}

/// The whole seconds of a time.
pub open spec fn whole_secs(time: u128) -> nat {
    time as nat / 1_000_000_000
}

/// The whole milliseconds of a time.
pub open spec fn whole_millis(time: u128) -> nat {
    time as nat / 1_000_000
}

/// The whole seconds of a time, written out.
pub fn secs_text(time: u128) -> (r: String)
    ensures
        r@ == text::decimal(whole_secs(time)),
{
    text::decimal_text(time / 1_000_000_000)
}

/// The whole milliseconds of a time, written out.
pub fn millis_text(time: u128) -> (r: String)
    ensures
        r@ == text::decimal(whole_millis(time)),
{
    text::decimal_text(time / 1_000_000)
}

/// Whether there is time left of a wait.
pub open spec fn in_time(elapsed: u128, wait: u128) -> bool {
    elapsed < wait
}

/// The seconds a suite has, where nothing else is said.
pub open spec fn budget(suite: Seq<char>) -> nat {
    if suite == "medium"@ {
        1800
    } else if suite == "long"@ {
        28800
    } else {
        120
    }
}

/// `host:port`, bracketing a bare IPv6 address.
pub open spec fn joined_host(host: Seq<char>, port: u16) -> Seq<char> {
    if text::find(host, ':') < host.len() && !(host.len() > 0 && host[0] == '[') {
        "["@ + host + "]:"@ + text::decimal(port as nat)
    } else {
        host + ":"@ + text::decimal(port as nat)
    }
}

/// The suite that the variables name.
pub open spec fn suite_of(v: Vars) -> Seq<char> {
    or(set(v.suite), "short"@)
}

/// The node that the variables name.
pub open spec fn node_of(v: Vars) -> Seq<char> {
    or(set(v.node), ""@)
}

/// The supervisor that the variables name: `none` for none.
pub open spec fn stormd_of(v: Vars) -> Option<Seq<char>> {
    match set(v.stormd) {
        Some(s) => if s == "none"@ {
            None
        } else {
            Some(s)
        },
        None => Some(joined_host(node_of(v), 180)),
    }
}

/// A variable that is set, and not to nothing.
fn var(v: &Option<String>) -> (r: Option<String>)
    ensures
        text::opt_string(r) == set(*v),
{
    match v {
        Some(s) => if s.as_str().is_empty() {
            None
        } else {
            Some(String::from_str(s.as_str()))
        },
        None => None,
    }
}

/// A file's text without the white space around it, where any is left.
fn file(v: &Option<String>) -> (r: Option<String>)
    ensures
        text::opt_string(r) == file_text(*v),
{
    match v {
        Some(s) => {
            let t = text::trim_text(s.as_str());
            if t.as_str().is_empty() {
                None
            } else {
                Some(t)
            }
        },
        None => None,
    }
}

fn var_or(v: &Option<String>, other: &str) -> (r: String)
    ensures
        r@ == or(set(*v), other@),
{
    match var(v) {
        Some(s) => s,
        None => String::from_str(other),
    }
}

/// A time given in whole seconds, in nanoseconds.
fn nanos_or(v: &Option<String>, default: u64) -> (r: u128)
    ensures
        r == nanos(*v, default as nat),
{
    match var(v) {
        Some(s) => match text::parse_text(s.as_str(), u64::MAX) {
            Some(n) => n as u128 * 1_000_000_000,
            None => default as u128 * 1_000_000_000,
        },
        None => default as u128 * 1_000_000_000,
    }
}

/// `host:port`, bracketing a bare IPv6 address.
pub fn join(host: &str, port: u16) -> (r: String)
    ensures
        r@ == joined_host(host@, port),
{
    let h = text::chars_of(host);
    let p = text::decimal_text(port as u128);
    let bare = text::position(h.as_slice(), ':') < h.len() && !(h.len() > 0 && h[0] == '[');
    if bare {
        String::from_str("[").concat(host).concat("]:").concat(p.as_str())
    } else {
        String::from_str(host).concat(":").concat(p.as_str())
    }
}

/// The characters that a run id is written in as part of a hostname.
pub open spec fn label_char(c: char) -> char {
    if text::is_alnum(c) {
        text::lower_char(c)
    } else {
        '-'
    }
}

/// A text without the dashes at its start.
pub open spec fn undashed_start(s: Seq<char>) -> Seq<char>
    decreases s.len(),
{
    if s.len() > 0 && s[0] == '-' {
        undashed_start(s.drop_first())
    } else {
        s
    }
}

/// A text without the dashes at its end.
pub open spec fn undashed_end(s: Seq<char>) -> Seq<char>
    decreases s.len(),
{
    if s.len() > 0 && s.last() == '-' {
        undashed_end(s.drop_last())
    } else {
        s
    }
}

/// At most `n` characters of a text.
pub open spec fn at_most(s: Seq<char>, n: int) -> Seq<char> {
    if s.len() > n {
        s.take(n)
    } else {
        s
    }
}

/// A run id as a DNS label.
pub open spec fn slug_of(run_id: Seq<char>) -> Seq<char> {
    let s = at_most(
        undashed_end(undashed_start(run_id.map_values(|c: char| label_char(c)))),
        40,
    );
    if s.len() == 0 {
        "run"@
    } else {
        undashed_end(s)
    }
}

/// The domain of every hostname of the suites. `.invalid` never resolves.
pub open spec fn domain() -> Seq<char> {
    ".stormlb-test.invalid"@
}

/// A hostname of a run.
pub open spec fn host_of_run(what: Seq<char>, slug: Seq<char>, suite: Seq<char>) -> Seq<char> {
    what + "."@ + slug + "."@ + suite + domain()
}

/// A name where a condition holds, and nothing otherwise.
pub open spec fn when(b: bool, name: Seq<char>) -> Seq<Seq<char>> {
    if b {
        seq![name]
    } else {
        seq![]
    }
}

/// The views of some names.
pub open spec fn names(v: Seq<&'static str>) -> Seq<Seq<char>> {
    v.map_values(|s: &'static str| s@)
}

/// `s` without the dashes at its end.
fn cut_dashes(s: &[char]) -> (r: &[char])
    ensures
        r@ == undashed_end(s@),
{
    let mut j: usize = s.len();
    assert(s@.take(s@.len() as int) =~= s@);
    while j > 0 && s[j - 1] == '-'
        invariant
            j <= s@.len(),
            undashed_end(s@) == undashed_end(s@.take(j as int)),
        decreases j,
    {
        assert(s@.take(j as int).drop_last() =~= s@.take(j - 1));
        j -= 1;
    }
    let r = slice_subrange(s, 0, j);
    assert(r@ =~= s@.take(j as int));
    r
}

/// `s` without the dashes at its start.
fn skip_dashes(s: &[char]) -> (r: &[char])
    ensures
        r@ == undashed_start(s@),
{
    let mut i: usize = 0;
    assert(s@.skip(0) =~= s@);
    while i < s.len() && s[i] == '-'
        invariant
            i <= s@.len(),
            undashed_start(s@) == undashed_start(s@.skip(i as int)),
        decreases s.len() - i,
    {
        assert(s@.skip(i as int).drop_first() =~= s@.skip(i + 1));
        i += 1;
    }
    let r = slice_subrange(s, i, s.len());
    assert(r@ =~= s@.skip(i as int));
    r
}

/// Whether `e` is what the variables say.
pub open spec fn is_read_from(v: Vars, e: Env) -> bool {
    &&& e.suite@ == suite_of(v)
    &&& e.node@ == node_of(v)
    &&& e.run_id@ == or(set(v.run_id), ""@)
    &&& e.namespace@ == or(set(v.namespace), or(file_text(v.account_namespace), ""@))
    &&& e.api@ == or(set(v.api), ""@)
    &&& e.router@ == or(set(v.router), joined_host(node_of(v), 80))
    &&& text::opt_string(e.stormd) == stormd_of(v)
    &&& text::opt_string(e.token) == file_text(v.account_token)
    &&& e.ca == v.ca
    &&& e.timeout == nanos(v.timeout, budget(suite_of(v)))
    &&& e.route_wait == nanos(v.route_wait, 30)
    &&& e.settle == nanos(v.settle, 12)
}

/// What is left of `whole` after `elapsed`.
pub open spec fn rest_of(whole: u128, elapsed: u128) -> nat {
    if elapsed >= whole {
        0
    } else {
        (whole - elapsed) as nat
    }
}

impl Env {
    /// Reads what the runner set. What is not set has a default; an empty
    /// variable counts as not set.
    pub fn read(v: Vars) -> (r: Env)
        ensures
            r.suite@ == suite_of(v),
            r.node@ == node_of(v),
            r.run_id@ == or(set(v.run_id), ""@),
            r.namespace@ == or(set(v.namespace), or(file_text(v.account_namespace), ""@)),
            r.api@ == or(set(v.api), ""@),
            r.router@ == or(set(v.router), joined_host(node_of(v), 80)),
            text::opt_string(r.stormd) == stormd_of(v),
            text::opt_string(r.token) == file_text(v.account_token),
            r.ca == v.ca,
            r.timeout == nanos(v.timeout, budget(suite_of(v))),
            r.route_wait == nanos(v.route_wait, 30),
            r.settle == nanos(v.settle, 12),
            is_read_from(v, r),
    {
        let suite = var_or(&v.suite, "short");
        let node = var_or(&v.node, "");
        let budget: u64 = if text::same(suite.as_str(), "medium") {
            1800
        } else if text::same(suite.as_str(), "long") {
            28800
        } else {
            120
        };
        let namespace = match var(&v.namespace) {
            Some(n) => n,
            None => match file(&v.account_namespace) {
                Some(n) => n,
                None => String::from_str(""),
            },
        };
        let router = match var(&v.router) {
            Some(s) => s,
            None => join(node.as_str(), 80),
        };
        let stormd = match var(&v.stormd) {
            Some(s) => if text::same(s.as_str(), "none") {
                None
            } else {
                Some(s)
            },
            None => Some(join(node.as_str(), 180)),
        };
        Env {
            run_id: var_or(&v.run_id, ""),
            namespace,
            api: var_or(&v.api, ""),
            router,
            stormd,
            token: file(&v.account_token),
            timeout: nanos_or(&v.timeout, budget),
            route_wait: nanos_or(&v.route_wait, 30),
            settle: nanos_or(&v.settle, 12),
            ca: v.ca,
            suite,
            node,
        }
    }

    /// What the runner must have set and did not.
    pub open spec fn missing_names(self) -> Seq<Seq<char>> {
        when(
            self.node@.len() == 0 && self.router@.len() > 0 && self.router@[0] == ':',
            "STORM_NODE"@,
        ) + when(self.api@.len() == 0, "STORM_API"@) + when(
            self.run_id@.len() == 0,
            "STORM_RUN_ID"@,
        ) + when(self.namespace@.len() == 0, "STORM_NAMESPACE"@)
    }

    /// What the runner must have set and did not.
    pub fn missing(&self) -> (r: Vec<&'static str>)
        ensures
            names(r@) == self.missing_names(),
    {
        let mut m: Vec<&'static str> = Vec::new();
        let router = text::chars_of(self.router.as_str());
        if self.node.as_str().is_empty() && router.len() > 0 && router[0] == ':' {
            m.push("STORM_NODE");
        }
        if self.api.as_str().is_empty() {
            m.push("STORM_API");
        }
        if self.run_id.as_str().is_empty() {
            m.push("STORM_RUN_ID");
        }
        if self.namespace.as_str().is_empty() {
            m.push("STORM_NAMESPACE");
        }
        assert(names(m@) =~= self.missing_names());
        m
    }

    /// How long is left, when `elapsed` nanoseconds have passed since the
    /// start.
    pub fn remaining(&self, elapsed: u128) -> (r: u128)
        ensures
            r == (if elapsed >= self.timeout {
                0
            } else {
                self.timeout - elapsed
            }),
            r == rest_of(self.timeout, elapsed),
    {
        if elapsed >= self.timeout {
            0
        } else {
            self.timeout - elapsed
        }
    }

    /// The run id as a DNS label: every hostname this run routes carries it.
    pub fn slug(&self) -> (r: String)
        ensures
            r@ == slug_of(self.run_id@),
    {
        let id = text::chars_of(self.run_id.as_str());
        let mut v: Vec<char> = Vec::new();
        let mut i: usize = 0;
        while i < id.len()
            invariant
                i <= id@.len(),
                v@.len() == i,
                forall|k: int| 0 <= k < i ==> v@[k] == label_char(id@[k]),
            decreases id.len() - i,
        {
            let c = id[i];
            v.push(
                if text::alnum(c) {
                    text::lower(c)
                } else {
                    '-'
                },
            );
            i += 1;
        }
        assert(v@ =~= self.run_id@.map_values(|c: char| label_char(c)));
        let t = cut_dashes(skip_dashes(v.as_slice()));
        let s = if t.len() > 40 {
            slice_subrange(t, 0, 40)
        } else {
            t
        };
        assert(s@ =~= at_most(t@, 40));
        if s.len() == 0 {
            String::from_str("run")
        } else {
            text::text_of(cut_dashes(s))
        }
    }

    /// A hostname for this run: the suites put it in the Host header
    /// themselves, and nothing else can be sent to it by accident.
    pub fn host(&self, what: &str) -> (r: String)
        ensures
            r@ == host_of_run(what@, slug_of(self.run_id@), self.suite@),
    {
        String::from_str(what).concat(".").concat(self.slug().as_str()).concat(".").concat(
            self.suite.as_str(),
        ).concat(".stormlb-test.invalid")
    }
}

/// The soft open-file limit that the text of `/proc/self/limits` gives.
pub open spec fn fd_limit_in(limits: Seq<Seq<char>>) -> Option<nat>
    decreases limits.len(),
{
    if limits.len() == 0 {
        None
    } else if text::begins(limits[0], "Max open files"@) {
        let w = text::words_of(limits[0]);
        if w.len() > 3 {
            text::number(w[3], u64::MAX as nat)
        } else {
            None
        }
    } else {
        fd_limit_in(limits.drop_first())
    }
}

/// The soft open-file limit, from the text of `/proc/self/limits`.
pub fn fd_limit(limits: &str) -> (r: Option<u64>)
    ensures
        match r {
            Some(n) => fd_limit_in(text::lines_of(limits@)) == Some(n as nat),
            None => fd_limit_in(text::lines_of(limits@)) is None,
        },
{
    let lines = text::lines(text::chars_of(limits).as_slice());
    let name = text::chars_of("Max open files");
    let ghost all = text::lines_of(limits@);
    assert(all.skip(0) =~= all);
    let mut i: usize = 0;
    while i < lines.len()
        invariant
            i <= lines@.len(),
            all == text::views(lines@),
            all == text::lines_of(limits@),
            name@ == "Max open files"@,
            fd_limit_in(all) == fd_limit_in(all.skip(i as int)),
        decreases lines.len() - i,
    {
        let line = lines[i].as_slice();
        assert(all.skip(i as int)[0] == line@);
        assert(all.skip(i as int).drop_first() =~= all.skip(i + 1));
        if text::stands_at(line, name.as_slice(), 0) {
            let w = text::words(line);
            assert(text::views(w@).len() == w@.len());
            if w.len() > 3 {
                assert(text::views(w@)[3] == w@[3]@);
                return text::parse_number(w[3].as_slice(), u64::MAX);
            }
            return None;
        }
        i += 1;
    }
    assert(all.skip(i as int) =~= seq![]);
    None
}

// ---------------------------------------------------------------------------
// Laws
// ---------------------------------------------------------------------------

/// A character that a DNS label may hold.
pub open spec fn is_label_char(c: char) -> bool {
    'a' <= c <= 'z' || '0' <= c <= '9' || c == '-'
}

proof fn lemma_undashed_start(s: Seq<char>)
    requires
        forall|i: int| 0 <= i < s.len() ==> is_label_char(#[trigger] s[i]),
    ensures
        undashed_start(s).len() > 0 ==> undashed_start(s)[0] != '-',
        forall|i: int|
            0 <= i < undashed_start(s).len() ==> is_label_char(#[trigger] undashed_start(s)[i]),
    decreases s.len(),
{
    if s.len() > 0 && s[0] == '-' {
        let t = s.drop_first();
        assert forall|i: int| 0 <= i < t.len() implies is_label_char(#[trigger] t[i]) by {
            assert(t[i] == s[i + 1]);
        }
        lemma_undashed_start(t);
    }
}

proof fn lemma_undashed_end(s: Seq<char>)
    requires
        forall|i: int| 0 <= i < s.len() ==> is_label_char(#[trigger] s[i]),
    ensures
        undashed_end(s).len() <= s.len(),
        undashed_end(s) == s.take(undashed_end(s).len() as int),
        undashed_end(s).len() > 0 ==> undashed_end(s).last() != '-',
        s.len() > 0 && s[0] != '-' ==> undashed_end(s).len() > 0,
        forall|i: int|
            0 <= i < undashed_end(s).len() ==> is_label_char(#[trigger] undashed_end(s)[i]),
    decreases s.len(),
{
    if s.len() > 0 && s.last() == '-' {
        let t = s.drop_last();
        assert forall|i: int| 0 <= i < t.len() implies is_label_char(#[trigger] t[i]) by {
            assert(t[i] == s[i]);
        }
        lemma_undashed_end(t);
        assert(undashed_end(s) =~= s.take(undashed_end(s).len() as int));
    } else {
        assert(s.take(s.len() as int) =~= s);
    }
}

/// A run's label is a DNS label, whatever the run id: one to forty letters,
/// digits and dashes, all lower case, with no dash at either end.
pub proof fn slugs_are_dns_labels(run_id: Seq<char>)
    ensures
        1 <= slug_of(run_id).len() <= 40,
        forall|i: int| 0 <= i < slug_of(run_id).len() ==> is_label_char(#[trigger] slug_of(run_id)[i]),
        slug_of(run_id)[0] != '-',
        slug_of(run_id).last() != '-',
{
    let m = run_id.map_values(|c: char| label_char(c));
    assert forall|i: int| 0 <= i < m.len() implies is_label_char(#[trigger] m[i]) by {
        let c = run_id[i];
        assert(m[i] == label_char(c));
    }
    lemma_undashed_start(m);
    let a = undashed_start(m);
    lemma_undashed_end(a);
    let b = undashed_end(a);
    let s = at_most(b, 40);
    reveal_strlit("run");
    if s.len() > 0 {
        assert(b[0] == a[0]);
        assert(s[0] == b[0]);
        assert forall|i: int| 0 <= i < s.len() implies is_label_char(#[trigger] s[i]) by {
            assert(s[i] == b[i]);
        }
        lemma_undashed_end(s);
        assert(undashed_end(s)[0] == s[0]);
    }
}

/// Where a name without dots ends, the rest begins.
proof fn lemma_first_label(p: Seq<char>, x: Seq<char>, q: Seq<char>, y: Seq<char>)
    requires
        forall|i: int| 0 <= i < p.len() ==> p[i] != '.',
        forall|i: int| 0 <= i < q.len() ==> q[i] != '.',
        p + "."@ + x == q + "."@ + y,
    ensures
        p == q,
        x == y,
{
    reveal_strlit(".");
    let s = p + "."@ + x;
    text::lemma_find_is(s, '.', p.len() as int);
    text::lemma_find_is(s, '.', q.len() as int);
    assert(p =~= s.take(p.len() as int));
    assert(q =~= s.take(p.len() as int));
    assert(x =~= s.skip(p.len() as int + 1));
    assert(y =~= s.skip(p.len() as int + 1));
}

/// Two runs with different labels, or of two suites, never claim the same
/// hostname; nor does one run claim one hostname for two purposes.
pub proof fn hostnames_are_per_run(
    what: Seq<char>,
    run_id: Seq<char>,
    suite: Seq<char>,
    what2: Seq<char>,
    run_id2: Seq<char>,
    suite2: Seq<char>,
)
    requires
        forall|i: int| 0 <= i < what.len() ==> what[i] != '.',
        forall|i: int| 0 <= i < what2.len() ==> what2[i] != '.',
        host_of_run(what, slug_of(run_id), suite) == host_of_run(what2, slug_of(run_id2), suite2),
    ensures
        what == what2,
        slug_of(run_id) == slug_of(run_id2),
        suite == suite2,
{
    let g = slug_of(run_id);
    let h = slug_of(run_id2);
    slugs_are_dns_labels(run_id);
    slugs_are_dns_labels(run_id2);
    assert forall|i: int| 0 <= i < g.len() implies g[i] != '.' by {
        assert(is_label_char(g[i]));
    }
    assert forall|i: int| 0 <= i < h.len() implies h[i] != '.' by {
        assert(is_label_char(h[i]));
    }
    let d = "."@;
    let x = suite + domain();
    let y = suite2 + domain();
    assert(host_of_run(what, g, suite) =~= what + d + (g + d + x));
    assert(host_of_run(what2, h, suite2) =~= what2 + d + (h + d + y));
    lemma_first_label(what, g + d + x, what2, h + d + y);
    lemma_first_label(g, x, h, y);
    assert(suite.len() == suite2.len());
    assert(suite =~= x.take(suite.len() as int));
    assert(suite2 =~= y.take(suite.len() as int));
}

/// Whether a variable is set to this text, which is not empty.
pub open spec fn holds(v: Option<String>, s: Seq<char>) -> bool {
    v matches Some(t) && t@ == s && s.len() > 0
}

/// Whether a variable is not set, or to nothing.
pub open spec fn is_unset(v: Option<String>) -> bool {
    v matches Some(t) ==> t@.len() == 0
}

/// What is set is taken as it stands.
pub proof fn what_is_set_is_taken_as_it_stands(v: Vars, e: Env, s: Seq<char>)
    requires
        is_read_from(v, e),
    ensures
        holds(v.suite, s) ==> e.suite@ == s,
        holds(v.node, s) ==> e.node@ == s,
        holds(v.run_id, s) ==> e.run_id@ == s,
        holds(v.namespace, s) ==> e.namespace@ == s,
        holds(v.api, s) ==> e.api@ == s,
        holds(v.router, s) ==> e.router@ == s,
        holds(v.stormd, s) && s != "none"@ ==> (e.stormd matches Some(t) && t@ == s),
        holds(v.stormd, s) && s == "none"@ ==> e.stormd is None,
        e.ca == v.ca,
{
}

/// What is not set, or to nothing, has its default: the suite `short`; the
/// node's own ports 80 and 180 for the router and the supervisor; the
/// ServiceAccount's namespace; thirty and twelve seconds for the two waits.
pub proof fn what_is_not_set_has_a_default(v: Vars, e: Env)
    requires
        is_read_from(v, e),
    ensures
        is_unset(v.suite) ==> e.suite@ == "short"@,
        is_unset(v.node) ==> e.node@.len() == 0,
        is_unset(v.run_id) ==> e.run_id@.len() == 0,
        is_unset(v.api) ==> e.api@.len() == 0,
        is_unset(v.router) ==> e.router@ == joined_host(e.node@, 80),
        is_unset(v.stormd) ==> (e.stormd matches Some(t) && t@ == joined_host(e.node@, 180)),
        is_unset(v.namespace) && v.account_namespace is None ==> e.namespace@.len() == 0,
        is_unset(v.namespace) ==> (v.account_namespace matches Some(t) ==> e.namespace@
            == text::trimmed(t@)),
        v.account_token is None ==> e.token is None,
        v.account_token matches Some(t) ==> {
            &&& text::trimmed(t@).len() == 0 ==> e.token is None
            &&& text::trimmed(t@).len() > 0 ==> (e.token matches Some(k) && k@ == text::trimmed(t@))
        },
        is_unset(v.route_wait) ==> e.route_wait == 30_000_000_000,
        is_unset(v.settle) ==> e.settle == 12_000_000_000,
        is_unset(v.timeout) && e.suite@ == "medium"@ ==> e.timeout == 1_800_000_000_000,
        is_unset(v.timeout) && e.suite@ == "long"@ ==> e.timeout == 28_800_000_000_000,
        is_unset(v.timeout) && e.suite@ != "medium"@ && e.suite@ != "long"@ ==> e.timeout
            == 120_000_000_000,
{
    reveal_strlit("");
    reveal_strlit("medium");
    reveal_strlit("long");
    assert("medium"@.len() != "long"@.len());
    if v.account_namespace is Some {
        let t = v.account_namespace->0;
        if text::trimmed(t@).len() == 0 {
            assert(text::trimmed(t@) =~= ""@);
        }
    }
}

/// Times are given in whole seconds; what is no number of them counts as not
/// set.
pub proof fn times_are_given_in_seconds(v: Vars, e: Env, s: Seq<char>, n: nat)
    requires
        is_read_from(v, e),
    ensures
        holds(v.timeout, s) && text::number(s, u64::MAX as nat) == Some(n) ==> e.timeout == n
            * 1_000_000_000,
        holds(v.route_wait, s) && text::number(s, u64::MAX as nat) == Some(n) ==> e.route_wait == n
            * 1_000_000_000,
        holds(v.settle, s) && text::number(s, u64::MAX as nat) == Some(n) ==> e.settle == n
            * 1_000_000_000,
        holds(v.route_wait, s) && text::number(s, u64::MAX as nat) is None ==> e.route_wait
            == 30_000_000_000,
        holds(v.settle, s) && text::number(s, u64::MAX as nat) is None ==> e.settle
            == 12_000_000_000,
        holds(v.timeout, s) && text::number(s, u64::MAX as nat) is None ==> (e.suite@ == "medium"@
            ==> e.timeout == 1_800_000_000_000),
{
}

/// A host with a colon in it is an address and stands between brackets before
/// its port, unless it does already; any other host is followed by its port.
pub proof fn addresses_with_colons_are_bracketed(a: Seq<char>, b: Seq<char>, port: u16)
    ensures
        ({
            let p = text::decimal(port as nat);
            let host = a + seq![':'] + b;
            &&& host[0] != '[' ==> joined_host(host, port) == "["@ + host + "]:"@ + p
            &&& host[0] == '[' ==> joined_host(host, port) == host + ":"@ + p
            &&& (forall|i: int| 0 <= i < a.len() ==> #[trigger] a[i] != ':') ==> joined_host(a, port)
                == a + ":"@ + p
        }),
{
    let host = a + seq![':'] + b;
    text::lemma_find(host, ':');
    assert(host[a.len() as int] == ':');
    text::lemma_find(a, ':');
}

/// What is missing, in this order: the node, where the router's address has no
/// host and there is no node; the apiserver; the run's id; the namespace.
pub proof fn what_is_missing_is_named(e: Env, name: Seq<char>)
    ensures
        e.missing_names().contains("STORM_API"@) <==> e.api@.len() == 0,
        e.missing_names().contains("STORM_RUN_ID"@) <==> e.run_id@.len() == 0,
        e.missing_names().contains("STORM_NAMESPACE"@) <==> e.namespace@.len() == 0,
        e.missing_names().contains("STORM_NODE"@) <==> e.node@.len() == 0 && e.router@.len() > 0
            && e.router@[0] == ':',
        e.missing_names().contains(name) ==> name == "STORM_NODE"@ || name == "STORM_API"@ || name
            == "STORM_RUN_ID"@ || name == "STORM_NAMESPACE"@,
        e.missing_names().len() == 4 ==> e.missing_names() == seq![
            "STORM_NODE"@,
            "STORM_API"@,
            "STORM_RUN_ID"@,
            "STORM_NAMESPACE"@,
        ],
{
    let m = e.missing_names();
    reveal_strlit("STORM_NODE");
    reveal_strlit("STORM_API");
    reveal_strlit("STORM_RUN_ID");
    reveal_strlit("STORM_NAMESPACE");
    let a = when(
        e.node@.len() == 0 && e.router@.len() > 0 && e.router@[0] == ':',
        "STORM_NODE"@,
    );
    let b = when(e.api@.len() == 0, "STORM_API"@);
    let c = when(e.run_id@.len() == 0, "STORM_RUN_ID"@);
    let d = when(e.namespace@.len() == 0, "STORM_NAMESPACE"@);
    assert(m == a + b + c + d);
    let na = a.len() as int;
    let nb = na + b.len();
    let nc = nb + c.len();
    if a.len() > 0 {
        assert(m[0] == "STORM_NODE"@);
    }
    if b.len() > 0 {
        assert(m[na] == "STORM_API"@);
    }
    if c.len() > 0 {
        assert(m[nb] == "STORM_RUN_ID"@);
    }
    if d.len() > 0 {
        assert(m[nc] == "STORM_NAMESPACE"@);
    }
    assert("STORM_NODE"@[6] == 'N' && "STORM_API"@[6] == 'A' && "STORM_RUN_ID"@[6] == 'R'
        && "STORM_NAMESPACE"@[6] == 'N');
    assert("STORM_NODE"@.len() != "STORM_NAMESPACE"@.len());
    assert forall|i: int| 0 <= i < m.len() implies #[trigger] m[i] == (if i < na {
        "STORM_NODE"@
    } else if i < nb {
        "STORM_API"@
    } else if i < nc {
        "STORM_RUN_ID"@
    } else {
        "STORM_NAMESPACE"@
    }) by {}
}

/// What is left of a time and what has passed of it make the whole, until
/// nothing is left; a wait goes on until it is over.
pub proof fn what_is_left_and_what_has_passed_make_the_whole(whole: u128, elapsed: u128)
    ensures
        elapsed <= whole ==> rest_of(whole, elapsed) + elapsed == whole,
        elapsed >= whole ==> rest_of(whole, elapsed) == 0,
        in_time(elapsed, whole) <==> rest_of(whole, elapsed) > 0,
{
}

/// A second has a thousand milliseconds; parts of either are cut off.
pub proof fn parts_of_a_time_are_cut_off(time: u128)
    ensures
        whole_secs(time) * 1_000_000_000 <= time < (whole_secs(time) + 1) * 1_000_000_000,
        whole_millis(time) * 1_000_000 <= time < (whole_millis(time) + 1) * 1_000_000,
{
}

/// The soft limit is the fourth word of the first line that begins with `Max
/// open files`, where it is a number.
pub proof fn the_limit_is_the_fourth_word_of_its_line(lines: Seq<Seq<char>>, i: int)
    requires
        0 <= i <= lines.len(),
        forall|j: int| 0 <= j < i ==> !text::begins(#[trigger] lines[j], "Max open files"@),
    ensures
        i == lines.len() ==> fd_limit_in(lines) is None,
        i < lines.len() && text::begins(lines[i], "Max open files"@) ==> {
            let w = text::words_of(lines[i]);
            &&& w.len() < 4 ==> fd_limit_in(lines) is None
            &&& w.len() >= 4 ==> fd_limit_in(lines) == text::number(w[3], u64::MAX as nat)
        },
    decreases lines.len(),
{
    if i > 0 {
        let t = lines.drop_first();
        assert(!text::begins(lines[0], "Max open files"@));
        assert forall|j: int| 0 <= j < i - 1 implies !text::begins(
            #[trigger] t[j],
            "Max open files"@,
        ) by {
            assert(t[j] == lines[j + 1]);
        }
        the_limit_is_the_fourth_word_of_its_line(t, i - 1);
        if i < lines.len() {
            assert(t[i - 1] == lines[i]);
        }
    }
}

/// A hostname of a run: what it is for, the run's label, the suite and the
/// domain, with dots between.
pub proof fn hostnames_are_under_the_domain(what: Seq<char>, slug: Seq<char>, suite: Seq<char>)
    ensures
        host_of_run(what, slug, suite) == what + "."@ + slug + "."@ + suite
            + ".stormlb-test.invalid"@,
{
}

/// Whether a character is an ASCII letter or digit.
pub open spec fn is_letter_or_digit(c: char) -> bool {
    'a' <= c <= 'z' || 'A' <= c <= 'Z' || '0' <= c <= '9'
}

/// A run id that begins and ends in a letter or a digit is kept but for its
/// case and for other characters, which become dashes; beyond forty characters
/// it is cut off, and so are the dashes before the cut.
pub proof fn slugs_keep_letters_and_digits(run_id: Seq<char>)
    requires
        run_id.len() > 0,
        is_letter_or_digit(run_id[0]),
        is_letter_or_digit(run_id.last()),
    ensures
        ({
            let s = slug_of(run_id);
            &&& run_id.len() <= 40 ==> s.len() == run_id.len()
            &&& s.len() <= run_id.len()
            &&& forall|i: int|
                0 <= i < s.len() ==> #[trigger] s[i] == (if is_letter_or_digit(run_id[i]) {
                    text::lower_char(run_id[i])
                } else {
                    '-'
                })
            &&& forall|i: int|
                s.len() <= i < 40 && i < run_id.len() ==> !is_letter_or_digit(#[trigger] run_id[i])
        }),
{
    let m = run_id.map_values(|c: char| label_char(c));
    let n = m.len() as int;
    assert forall|i: int| 0 <= i < n implies is_label_char(#[trigger] m[i]) by {
        assert(m[i] == label_char(run_id[i]));
    }
    assert(m[0] == label_char(run_id[0]));
    assert(m[n - 1] == label_char(run_id[n - 1]));
    assert(undashed_start(m) == m);
    assert(undashed_end(m) == m);
    let s = at_most(m, 40);
    assert forall|i: int| 0 <= i < s.len() implies is_label_char(#[trigger] s[i]) by {
        assert(s[i] == m[i]);
    }
    lemma_undashed_end(s);
    lemma_undashed_end_tail(s);
    let r = undashed_end(s);
    if n <= 40 {
        assert(s == m);
    }
    assert forall|i: int| 0 <= i < r.len() implies #[trigger] r[i] == (if is_letter_or_digit(
        run_id[i],
    ) {
        text::lower_char(run_id[i])
    } else {
        '-'
    }) by {
        assert(r[i] == s[i] && s[i] == m[i] && m[i] == label_char(run_id[i]));
    }
    assert forall|i: int| r.len() <= i < 40 && i < run_id.len() implies !is_letter_or_digit(
        #[trigger] run_id[i],
    ) by {
        assert(s[i] == '-');
        assert(m[i] == label_char(run_id[i]));
    }
}

/// What `undashed_end` leaves out is dashes.
proof fn lemma_undashed_end_tail(s: Seq<char>)
    ensures
        undashed_end(s).len() <= s.len(),
        forall|i: int| undashed_end(s).len() <= i < s.len() ==> #[trigger] s[i] == '-',
    decreases s.len(),
{
    if s.len() > 0 && s.last() == '-' {
        let t = s.drop_last();
        lemma_undashed_end_tail(t);
        assert forall|i: int| undashed_end(s).len() <= i < s.len() implies #[trigger] s[i] == '-' by {
            if i < t.len() {
                assert(t[i] == s[i]);
            }
        }
    }
}

/// What is no letter and no digit does not matter at the start of a run id;
/// a run id without any is `run`.
pub proof fn slugs_leave_out_what_stands_before(c: char, r: Seq<char>)
    requires
        !is_letter_or_digit(c),
    ensures
        slug_of(seq![c] + r) == slug_of(r),
        slug_of(seq![]) == "run"@,
{
    let m = (seq![c] + r).map_values(|x: char| label_char(x));
    let k = r.map_values(|x: char| label_char(x));
    assert(m[0] == label_char(c));
    assert(m.drop_first() =~= k);
    assert(undashed_start(m) == undashed_start(k));
    let none: Seq<char> = seq![];
    assert(none.map_values(|x: char| label_char(x)) =~= none);
}

} // verus!
