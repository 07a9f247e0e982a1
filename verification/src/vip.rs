//! Add/remove the VIP on a local interface, and announce takeover.
//!
//! Behind a trait so that what drives it can be tried without root: a test
//! uses a recording controller, production runs [`IpCmd`]'s commands
//! (iproute2).

use crate::text;
use vstd::prelude::*;

verus! {

/// Who holds the VIP's address on an interface.
pub trait VipController: Send + Sync {
    /// Bring the VIP up on `iface` (idempotent) and announce it (gratuitous
    /// ARP).
    fn claim(&self, vip: &str, iface: &str) -> Result<(), String>;

    /// Remove the VIP from `iface` (idempotent).
    fn release(&self, vip: &str, iface: &str) -> Result<(), String>;
}

/// A program to run, with its arguments.
pub struct Command {
    pub program: String,
    pub args: Vec<String>,
}

impl Command {
    /// The program's name and its arguments.
    pub open spec fn line(self) -> Seq<Seq<char>> {
        seq![self.program@] + text::texts(self.args@)
    }
}

/// iproute2-backed control: `ip addr add/del <vip>/32 dev <iface>`, and a
/// gratuitous ARP via `arping` when available.
pub struct IpCmd;

/// The VIP as a host route.
pub open spec fn host_prefix(vip: Seq<char>) -> Seq<char> {
    vip + "/32"@
}

/// `ip addr <verb> <vip>/32 dev <iface>`.
pub open spec fn ip_addr(verb: Seq<char>, vip: Seq<char>, iface: Seq<char>) -> Seq<Seq<char>> {
    seq!["ip"@, "addr"@, verb, host_prefix(vip), "dev"@, iface]
}

/// The command that adds the VIP to an interface.
pub open spec fn claim_line(vip: Seq<char>, iface: Seq<char>) -> Seq<Seq<char>> {
    ip_addr("add"@, vip, iface)
}

/// The command that removes the VIP from an interface.
pub open spec fn release_line(vip: Seq<char>, iface: Seq<char>) -> Seq<Seq<char>> {
    ip_addr("del"@, vip, iface)
}

/// The command that announces the VIP on an interface.
pub open spec fn announce_line(vip: Seq<char>, iface: Seq<char>) -> Seq<Seq<char>> {
    seq!["arping"@, "-c"@, "3"@, "-A"@, "-I"@, iface, vip]
}

/// A run that failed is as good as one that did not where its complaint is
/// one of these: the address was there already, or is gone already.
pub open spec fn tolerated(complaint: Seq<char>, tolerate: Seq<Seq<char>>) -> bool {
    exists|i: int| 0 <= i < tolerate.len() && text::has(complaint, #[trigger] tolerate[i])
}

/// What a run comes to: nothing, or the complaint.
pub open spec fn run_result(
    success: bool,
    stderr: Seq<char>,
    tolerate: Seq<Seq<char>>,
) -> Result<(), Seq<char>> {
    if success || tolerated(stderr, tolerate) {
        Ok(())
    } else {
        Err("command failed: "@ + text::trimmed(stderr))
    }
}

/// What adding an address that is there already says.
pub open spec fn exists_already() -> Seq<Seq<char>> {
    seq!["File exists"@, "RTNETLINK answers: File exists"@]
}

/// What removing an address that is not there says.
pub open spec fn gone_already() -> Seq<Seq<char>> {
    seq!["Cannot assign requested address"@, "does not exist"@]
}

/// The view of a result.
pub open spec fn result_text(r: Result<(), String>) -> Result<(), Seq<char>> {
    match r {
        Ok(()) => Ok(()),
        Err(e) => Err(e@),
    }
}

/// What a run comes to, treating any of `tolerate` in its complaint as
/// success (for idempotent add/del).
pub fn run_ok(success: bool, stderr: &[u8], tolerate: &Vec<String>) -> (r: Result<(), String>)
    ensures
        result_text(r) == run_result(
            success,
            text::lossy_text(stderr@),
            text::texts(tolerate@),
        ),
{
    if success {
        return Ok(());
    }
    let err = text::lossy(stderr);
    complaint(err.as_str(), tolerate)
}

/// What a failed run comes to, from its complaint.
pub fn complaint(err: &str, tolerate: &Vec<String>) -> (r: Result<(), String>)
    ensures
        result_text(r) == run_result(false, err@, text::texts(tolerate@)),
{
    let mut i: usize = 0;
    while i < tolerate.len()
        invariant
            i <= tolerate@.len(),
            forall|k: int| 0 <= k < i ==> !text::has(err@, #[trigger] text::texts(tolerate@)[k]),
        decreases tolerate.len() - i,
    {
        if text::text_has(err, tolerate[i].as_str()) {
            assert(text::has(err@, text::texts(tolerate@)[i as int]));
            return Ok(());
        }
        i += 1;
    }
    assert(!tolerated(err@, text::texts(tolerate@)));
    Err(String::from_str("command failed: ").concat(text::trim_text(err).as_str()))
}

/// `ip addr <verb> <vip>/32 dev <iface>`.
fn ip_addr_command(verb: &str, vip: &str, iface: &str) -> (r: Command)
    ensures
        r.line() == ip_addr(verb@, vip@, iface@),
{
    let prefix = String::from_str(vip).concat("/32");
    let args = text::list_of(&["addr", verb, prefix.as_str(), "dev", iface]);
    let r = Command { program: String::from_str("ip"), args };
    assert(r.line() =~= ip_addr(verb@, vip@, iface@));
    r
}

impl IpCmd {
    /// Adds the VIP to `iface`.
    pub fn claim_command(&self, vip: &str, iface: &str) -> (r: Command)
        ensures
            r.line() == ip_addr("add"@, vip@, iface@),
            r.line() == claim_line(vip@, iface@),
    {
        ip_addr_command("add", vip, iface)
    }

    /// Removes the VIP from `iface`.
    pub fn release_command(&self, vip: &str, iface: &str) -> (r: Command)
        ensures
            r.line() == ip_addr("del"@, vip@, iface@),
            r.line() == release_line(vip@, iface@),
    {
        ip_addr_command("del", vip, iface)
    }

    /// Gratuitous ARP, so that switches and hosts take notice at once. Its
    /// outcome does not matter.
    pub fn announce_command(&self, vip: &str, iface: &str) -> (r: Command)
        ensures
            r.line() == seq!["arping"@, "-c"@, "3"@, "-A"@, "-I"@, iface@, vip@],
            r.line() == announce_line(vip@, iface@),
    {
        let r = Command {
            program: String::from_str("arping"),
            args: text::list_of(&["-c", "3", "-A", "-I", iface, vip]),
        };
        assert(r.line() =~= seq!["arping"@, "-c"@, "3"@, "-A"@, "-I"@, iface@, vip@]);
        r
    }

    /// What a run of the claim command comes to.
    pub fn claim_result(&self, success: bool, stderr: &[u8]) -> (r: Result<(), String>)
        ensures
            result_text(r) == run_result(success, text::lossy_text(stderr@), exists_already()),
    {
        let tolerate = text::list_of(&["File exists", "RTNETLINK answers: File exists"]);
        assert(text::texts(tolerate@) =~= exists_already());
        run_ok(success, stderr, &tolerate)
    }

    /// What a run of the release command comes to.
    pub fn release_result(&self, success: bool, stderr: &[u8]) -> (r: Result<(), String>)
        ensures
            result_text(r) == run_result(success, text::lossy_text(stderr@), gone_already()),
    {
        let tolerate = text::list_of(&["Cannot assign requested address", "does not exist"]);
        assert(text::texts(tolerate@) =~= gone_already());
        run_ok(success, stderr, &tolerate)
    }
}

/// Claiming is idempotent: a claim that failed because the address is there
/// already succeeded.
pub proof fn claiming_twice_is_fine(stderr: Seq<char>)
    requires
        text::has(stderr, "File exists"@),
    ensures
        run_result(false, stderr, exists_already()) == Ok::<(), Seq<char>>(()),
{
    assert(text::has(stderr, exists_already()[0]));
}

/// Releasing is idempotent: a release that failed because the address is not
/// there succeeded.
pub proof fn releasing_twice_is_fine(stderr: Seq<char>)
    requires
        text::has(stderr, "Cannot assign requested address"@) || text::has(
            stderr,
            "does not exist"@,
        ),
    ensures
        run_result(false, stderr, gone_already()) == Ok::<(), Seq<char>>(()),
{
    if text::has(stderr, "Cannot assign requested address"@) {
        assert(text::has(stderr, gone_already()[0]));
    } else {
        assert(text::has(stderr, gone_already()[1]));
    }
}

/// A run is fine exactly where it succeeded, or where what it complained of
/// is one of the things that do not matter; otherwise the complaint is kept.
pub proof fn a_run_fails_with_its_complaint(success: bool, stderr: Seq<char>)
    ensures
        run_result(success, stderr, exists_already()) is Ok <==> success || text::has(
            stderr,
            "File exists"@,
        ),
        run_result(success, stderr, gone_already()) is Ok <==> success || text::has(
            stderr,
            "Cannot assign requested address"@,
        ) || text::has(stderr, "does not exist"@),
        run_result(success, stderr, exists_already()) matches Err(e) ==> e == "command failed: "@
            + text::trimmed(stderr),
        run_result(success, stderr, gone_already()) matches Err(e) ==> e == "command failed: "@
            + text::trimmed(stderr),
{
    let a = exists_already();
    let g = gone_already();
    if text::has(stderr, a[1]) {
        let k = choose|k: int| text::occurs_at(stderr, a[1], k);
        reveal_strlit("File exists");
        reveal_strlit("RTNETLINK answers: File exists");
        let w = stderr.subrange(k, k + a[1].len());
        assert(a[0] =~= a[1].subrange(19, 30));
        assert(stderr.subrange(k + 19, k + 30) =~= w.subrange(19, 30));
        assert(text::occurs_at(stderr, a[0], k + 19));
    }
    if text::has(stderr, a[0]) {
        assert(tolerated(stderr, a));
    }
    if text::has(stderr, g[0]) || text::has(stderr, g[1]) {
        assert(tolerated(stderr, g));
    }
}

/// The VIP is added and removed as a /32 of its own, on the interface that is
/// named; the two commands differ in the verb alone.
pub proof fn the_vip_is_moved_as_a_host_route(vip: Seq<char>, iface: Seq<char>, verb: Seq<char>)
    ensures
        ip_addr(verb, vip, iface).len() == 6,
        ip_addr(verb, vip, iface)[0] == "ip"@,
        ip_addr(verb, vip, iface)[1] == "addr"@,
        ip_addr(verb, vip, iface)[2] == verb,
        ip_addr(verb, vip, iface)[3] == vip + "/32"@,
        ip_addr(verb, vip, iface)[4] == "dev"@,
        ip_addr(verb, vip, iface)[5] == iface,
{
}

/// A claim adds the VIP and a release removes it, each on the interface that
/// is named; a claim is announced from that interface, three times over.
pub proof fn claims_add_and_releases_remove(vip: Seq<char>, iface: Seq<char>)
    ensures
        claim_line(vip, iface) == seq!["ip"@, "addr"@, "add"@, vip + "/32"@, "dev"@, iface],
        release_line(vip, iface) == seq!["ip"@, "addr"@, "del"@, vip + "/32"@, "dev"@, iface],
        announce_line(vip, iface).len() == 7,
        announce_line(vip, iface)[0] == "arping"@,
        announce_line(vip, iface)[1] == "-c"@ && announce_line(vip, iface)[2] == "3"@,
        announce_line(vip, iface)[3] == "-A"@,
        announce_line(vip, iface)[4] == "-I"@ && announce_line(vip, iface)[5] == iface,
        announce_line(vip, iface)[6] == vip,
{
}

} // verus!
