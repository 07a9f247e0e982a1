//! What became of one check of a suite.

use crate::json;
use crate::text;
use vstd::prelude::*;

verus! {

/// The outcome of a check, with what there is to say of it.
pub enum Outcome {
    Pass(String),
    Fail(String),
    /// Not applicable here.
    Skip(String),
    /// The check could not be made.
    Infra(String),
}

/// What an outcome is.
pub enum OutcomeView {
    Pass(Seq<char>),
    Fail(Seq<char>),
    Skip(Seq<char>),
    Infra(Seq<char>),
}

impl View for Outcome {
    type V = OutcomeView;

    open spec fn view(&self) -> OutcomeView {
        match self {
            Outcome::Pass(s) => OutcomeView::Pass(s@),
            Outcome::Fail(s) => OutcomeView::Fail(s@),
            Outcome::Skip(s) => OutcomeView::Skip(s@),
            Outcome::Infra(s) => OutcomeView::Infra(s@),
        }
    }
}

impl Outcome {
    /// Whether the check passed.
    pub fn passed(&self) -> (r: bool)
        ensures
            r == (self@ is Pass),
    {
        matches!(self, Outcome::Pass(_))
    }

    /// The word for the outcome.
    pub fn status(&self) -> (r: &'static str)
        ensures
            r@ == self@.word(),
    {
        match self {
            Outcome::Pass(_) => "pass",
            Outcome::Fail(_) => "fail",
            Outcome::Skip(_) => "skip",
            Outcome::Infra(_) => "infra",
        }
    }
}

impl OutcomeView {
    /// The word for an outcome.
    pub open spec fn word(self) -> Seq<char> {
        match self {
            OutcomeView::Pass(_) => "pass"@,
            OutcomeView::Fail(_) => "fail"@,
            OutcomeView::Skip(_) => "skip"@,
            OutcomeView::Infra(_) => "infra"@,
        }
    }

    /// What there is to say of it.
    pub open spec fn detail(self) -> Seq<char> {
        match self {
            OutcomeView::Pass(s) => s,
            OutcomeView::Fail(s) => s,
            OutcomeView::Skip(s) => s,
            OutcomeView::Infra(s) => s,
        }
    }
}

/// What a suite has reported.
pub struct Report {
    /// Every check and the word for its outcome.
    pub outcomes: Vec<(String, &'static str)>,
}

/// Some checks and the words for their outcomes.
pub open spec fn words(v: Seq<(String, &'static str)>) -> Seq<(Seq<char>, Seq<char>)> {
    v.map_values(|x: (String, &'static str)| (x.0@, x.1@))
}

/// Whether some check has an outcome.
pub open spec fn has_word(v: Seq<(Seq<char>, Seq<char>)>, word: Seq<char>) -> bool {
    exists|i: int| 0 <= i < v.len() && (#[trigger] v[i]).1 == word
}

/// The exit code for some outcomes: 1 where a check failed, else 2 where one
/// could not be made, else 0.
pub open spec fn code_of(v: Seq<(Seq<char>, Seq<char>)>) -> i32 {
    if has_word(v, "fail"@) {
        1
    } else if has_word(v, "infra"@) {
        2
    } else {
        0
    }
}

/// The line of a check: a JSON object. `extra` is more members of it.
pub open spec fn line_of(
    name: Seq<char>,
    o: OutcomeView,
    ms: u128,
    extra: Option<Seq<char>>,
) -> Seq<char> {
    "{\"test\": "@ + json::json_quoted(name) + ", \"status\": "@ + json::json_quoted(o.word())
        + ", \"ms\": "@ + text::decimal(ms as nat) + ", \"detail\": "@ + json::json_quoted(
        o.detail(),
    ) + (match extra {
        Some(e) => ", "@ + e,
        None => ""@,
    }) + "}"@
}

impl Report {
    /// Nothing reported yet.
    pub fn new() -> (r: Report)
        ensures
            r.outcomes@.len() == 0,
    {
        Report { outcomes: Vec::new() }
    }

    /// Takes in the outcome of a check. Returns its line, and whether it
    /// passed.
    pub fn record(&mut self, name: &str, o: &Outcome, ms: u128, extra: Option<&str>) -> (r: (
        String,
        bool,
    ))
        ensures
            words(final(self).outcomes@) == words(old(self).outcomes@).push((name@, o@.word())),
            r.0@ == line_of(name@, o@, ms, text::opt_str(extra)),
            r.1 == (o@ is Pass),
    {
        let ghost before = self.outcomes@;
        let status = o.status();
        self.outcomes.push((String::from_str(name), status));
        assert(words(self.outcomes@) =~= words(before).push((name@, o@.word())));
        let detail = match o {
            Outcome::Pass(d) => d,
            Outcome::Fail(d) => d,
            Outcome::Skip(d) => d,
            Outcome::Infra(d) => d,
        };
        let more = match extra {
            Some(e) => String::from_str(", ").concat(e),
            None => String::from_str(""),
        };
        let line = String::from_str("{\"test\": ").concat(json::quote(name).as_str()).concat(
            ", \"status\": ",
        ).concat(json::quote(status).as_str()).concat(", \"ms\": ").concat(
            text::decimal_text(ms).as_str(),
        ).concat(", \"detail\": ").concat(json::quote(detail.as_str()).as_str()).concat(
            more.as_str(),
        ).concat("}");
        (line, o.passed())
    }

    /// Whether some check has an outcome.
    fn has(&self, word: &str) -> (r: bool)
        ensures
            r == has_word(words(self.outcomes@), word@),
    {
        let ghost v = words(self.outcomes@);
        let mut i: usize = 0;
        while i < self.outcomes.len()
            invariant
                i <= self.outcomes@.len(),
                v == words(self.outcomes@),
                forall|k: int| 0 <= k < i ==> (#[trigger] v[k]).1 != word@,
            decreases self.outcomes.len() - i,
        {
            assert(v[i as int].1 == self.outcomes@[i as int].1@);
            if text::same(self.outcomes[i].1, word) {
                return true;
            }
            i += 1;
        }
        false
    }

    /// The exit code: 1 where a check failed, else 2 where one could not be
    /// made, else 0.
    pub fn finish(&self) -> (r: i32)
        ensures
            r == (if has_word(words(self.outcomes@), "fail"@) {
                1i32
            } else if has_word(words(self.outcomes@), "infra"@) {
                2
            } else {
                0
            }),
            r == code_of(words(self.outcomes@)),
    {
        if self.has("fail") {
            1
        } else if self.has("infra") {
            2
        } else {
            0
        }
    }
}

// ---------------------------------------------------------------------------
// Laws
// ---------------------------------------------------------------------------

/// Outcomes of different kinds have different words, and each kind has one.
pub proof fn outcomes_are_told_apart_by_their_words(a: OutcomeView, b: OutcomeView)
    ensures
        a.word() == "pass"@ <==> a is Pass,
        a.word() == "fail"@ <==> a is Fail,
        a.word() == "skip"@ <==> a is Skip,
        a.word() == "infra"@ <==> a is Infra,
        a.word() == b.word() <==> (a is Pass <==> b is Pass) && (a is Fail <==> b is Fail) && (
        a is Skip <==> b is Skip) && (a is Infra <==> b is Infra),
        a matches OutcomeView::Pass(s) ==> a.detail() == s,
        a matches OutcomeView::Fail(s) ==> a.detail() == s,
        a matches OutcomeView::Skip(s) ==> a.detail() == s,
        a matches OutcomeView::Infra(s) ==> a.detail() == s,
{
    reveal_strlit("pass");
    reveal_strlit("fail");
    reveal_strlit("skip");
    reveal_strlit("infra");
    assert("pass"@[0] == 'p' && "fail"@[0] == 'f' && "skip"@[0] == 's' && "infra"@[0] == 'i');
}

/// The exit code is 1 exactly where some check failed, 2 exactly where none
/// did and some could not be made, and 0 otherwise: skipped checks do not
/// count.
pub proof fn the_exit_code_is_that_of_the_worst(v: Seq<(Seq<char>, Seq<char>)>)
    ensures
        ({
            let failed = exists|i: int| 0 <= i < v.len() && (#[trigger] v[i]).1 == "fail"@;
            let unmade = exists|i: int| 0 <= i < v.len() && (#[trigger] v[i]).1 == "infra"@;
            &&& failed ==> code_of(v) == 1
            &&& !failed && unmade ==> code_of(v) == 2
            &&& !failed && !unmade ==> code_of(v) == 0
        }),
{
}

/// The line of a check is an object with its name, the word for its outcome,
/// how long it took and what there is to say, in this order, and with more
/// members behind where there are more.
pub proof fn lines_tell_name_outcome_time_and_detail(
    name: Seq<char>,
    o: OutcomeView,
    ms: u128,
    extra: Seq<char>,
)
    ensures
        ({
            let start = "{\"test\": "@ + json::json_quoted(name) + ", \"status\": "@
                + json::json_quoted(o.word()) + ", \"ms\": "@ + text::decimal(ms as nat)
                + ", \"detail\": "@ + json::json_quoted(o.detail());
            &&& line_of(name, o, ms, None) == start + "}"@
            &&& line_of(name, o, ms, Some(extra)) == start + (", "@ + extra) + "}"@
        }),
{
    reveal_strlit("");
    let start = "{\"test\": "@ + json::json_quoted(name) + ", \"status\": "@ + json::json_quoted(
        o.word(),
    ) + ", \"ms\": "@ + text::decimal(ms as nat) + ", \"detail\": "@ + json::json_quoted(
        o.detail(),
    );
    assert(start + ""@ =~= start);
}

} // verus!
