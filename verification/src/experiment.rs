//! The results ledger of the validation experiments: section headers and
//! checks that pass, fail or are skipped, the tally, and the exit code (0
//! when something was checked and nothing failed). Printing is the
//! caller's part.

use vstd::prelude::*;
use vstd::string::*;

verus! {

/// Outcome of a single check.
#[derive(Debug, Clone, Copy, PartialEq, Eq, Structural)]
pub enum Outcome {
    /// The check passed.
    Pass,
    /// The check failed.
    Fail,
    /// The check was skipped (a primal was unavailable).
    Skip,
}

/// A single check result, or a section header (empty label).
#[derive(Debug, Clone)]
pub struct CheckResult {
    /// The section the check belongs to.
    pub section: Option<String>,
    /// What was checked; empty for a section header.
    pub label: String,
    /// The outcome.
    pub outcome: Outcome,
}

/// The mathematical content of a result: (section, label, outcome).
pub open spec fn result_view(r: CheckResult) -> (Option<Seq<char>>, Seq<char>, Outcome) {
    (
        match r.section {
            Some(s) => Some(s@),
            None => None,
        },
        r.label@,
        r.outcome,
    )
}

/// The section of the most recent entry that names one.
pub open spec fn current_section(s: Seq<(Option<Seq<char>>, Seq<char>, Outcome)>) -> Option<Seq<char>>
    decreases s.len(),
{
    if s.len() == 0 {
        None
    } else if s.last().0 is Some {
        s.last().0
    } else {
        current_section(s.drop_last())
    }
}

/// The number of checks (entries with a label) with outcome `o`.
pub open spec fn count_outcome(s: Seq<(Option<Seq<char>>, Seq<char>, Outcome)>, o: Outcome) -> nat
    decreases s.len(),
{
    if s.len() == 0 {
        0
    } else {
        count_outcome(s.drop_last(), o) + if s.last().1.len() > 0 && s.last().2 == o {
            1nat
        } else {
            0nat
        }
    }
}

/// The exit code for a tally: 1 when nothing was checked or something
/// failed, 0 otherwise.
pub open spec fn exit_code_of(pass: nat, fail: nat, skip: nat) -> i32 {
    if pass + fail + skip == 0 || fail > 0 {
        1
    } else {
        0
    }
}

/// Counts never exceed the number of entries.
proof fn lemma_count_bounded(s: Seq<(Option<Seq<char>>, Seq<char>, Outcome)>, o: Outcome)
    ensures
        count_outcome(s, o) <= s.len(),
    decreases s.len(),
{
    if s.len() > 0 {
        lemma_count_bounded(s.drop_last(), o);
    }
}

/// The accumulated results of an experiment.
#[derive(Debug)]
pub struct Ledger {
    results: Vec<CheckResult>,
}

impl Ledger {
    /// The entries, in order.
    pub closed spec fn entries(&self) -> Seq<(Option<Seq<char>>, Seq<char>, Outcome)> {
        self.results@.map_values(|r: CheckResult| result_view(r))
    }

    /// An empty ledger.
    pub fn new() -> (r: Ledger)
        ensures
            r.entries() == Seq::<(Option<Seq<char>>, Seq<char>, Outcome)>::empty(),
    {
        let r = Ledger { results: Vec::new() };
        proof {
            assert(r.entries() =~= Seq::<(Option<Seq<char>>, Seq<char>, Outcome)>::empty());
        }
        r
    }

    /// Appends an entry.
    fn push_entry(&mut self, e: CheckResult)
        ensures
            final(self).entries() == old(self).entries().push(result_view(e)),
    {
        let ghost before = self.results@;
        self.results.push(e);
        proof {
            assert(self.results@ == before.push(e));
            assert(self.entries() =~= old(self).entries().push(result_view(e)));
        }
    }

    /// The section of the most recent entry that names one.
    fn section_now(&self) -> (r: Option<String>)
        ensures
            match r {
                Some(s) => current_section(self.entries()) == Some(s@),
                None => current_section(self.entries()) is None,
            },
    {
        let ghost es = self.entries();
        let mut i: usize = self.results.len();
        proof {
            assert(es.subrange(0, es.len() as int) =~= es);
        }
        while i > 0
            invariant
                i <= self.results@.len(),
                es == self.entries(),
                current_section(es) == current_section(es.subrange(0, i as int)),
            decreases i,
        {
            let ghost pre = es.subrange(0, i as int);
            proof {
                assert(pre.drop_last() =~= es.subrange(0, i - 1));
                assert(pre.last() == result_view(self.results@[i - 1]));
            }
            match &self.results[i - 1].section {
                Some(s) => {
                    return Some(s.clone());
                },
                None => {},
            }
            i = i - 1;
        }
        None
    }

    /// Opens a section: later checks belong to it.
    pub fn section(&mut self, name: &str)
        ensures
            final(self).entries() == old(self).entries().push((Some(name@), Seq::<char>::empty(), Outcome::Pass)),
    {
        self.push_entry(CheckResult { section: Some(String::from_str(name)), label: String::new(), outcome: Outcome::Pass });
    }

    /// Records a check that passed or failed, in the current section.
    pub fn check_bool(&mut self, label: &str, passed: bool)
        ensures
            final(self).entries() == old(self).entries().push(
                (current_section(old(self).entries()), label@, if passed { Outcome::Pass } else { Outcome::Fail }),
            ),
    {
        let section = self.section_now();
        let outcome = if passed { Outcome::Pass } else { Outcome::Fail };
        self.push_entry(CheckResult { section, label: String::from_str(label), outcome });
    }

    /// Records a skipped check, in the current section.
    pub fn check_skip(&mut self, label: &str)
        ensures
            final(self).entries() == old(self).entries().push((current_section(old(self).entries()), label@, Outcome::Skip)),
    {
        let section = self.section_now();
        self.push_entry(CheckResult { section, label: String::from_str(label), outcome: Outcome::Skip });
    }

    /// The checks recorded (section headers left out), in order.
    pub fn checks(&self) -> (r: Vec<CheckResult>)
        ensures
            r@.map_values(|c: CheckResult| result_view(c)) == self.entries().filter(
                |e: (Option<Seq<char>>, Seq<char>, Outcome)| e.1.len() > 0,
            ),
    {
        let ghost es = self.entries();
        let mut out: Vec<CheckResult> = Vec::new();
        let mut i: usize = 0;
        while i < self.results.len()
            invariant
                i <= self.results@.len(),
                es == self.entries(),
                out@.map_values(|c: CheckResult| result_view(c)) == es.subrange(0, i as int).filter(
                    |e: (Option<Seq<char>>, Seq<char>, Outcome)| e.1.len() > 0,
                ),
            decreases self.results@.len() - i,
        {
            let r = &self.results[i];
            proof {
                assert(es.subrange(0, i + 1) =~= es.subrange(0, i as int).push(result_view(*r)));
                es.subrange(0, i as int).filter_lemma(|e: (Option<Seq<char>>, Seq<char>, Outcome)| e.1.len() > 0);
                es.subrange(0, i as int).lemma_filter_push(result_view(*r), |e: (Option<Seq<char>>, Seq<char>, Outcome)| e.1.len() > 0);
            }
            if r.label.unicode_len() > 0 {
                let c = CheckResult {
                    section: match &r.section {
                        Some(s) => Some(s.clone()),
                        None => None,
                    },
                    label: r.label.clone(),
                    outcome: r.outcome,
                };
                let ghost before = out@;
                out.push(c);
                proof {
                    assert(out@ == before.push(c));
                    assert(out@.map_values(|c: CheckResult| result_view(c)) =~= before.map_values(|c: CheckResult| result_view(c)).push(
                        result_view(c),
                    ));
                }
            }
            i = i + 1;
        }
        proof {
            assert(es.subrange(0, es.len() as int) =~= es);
        }
        out
    }

    /// The numbers of checks that passed, failed and were skipped.
    pub fn tally(&self) -> (r: (usize, usize, usize))
        ensures
            r.0 == count_outcome(self.entries(), Outcome::Pass),
            r.1 == count_outcome(self.entries(), Outcome::Fail),
            r.2 == count_outcome(self.entries(), Outcome::Skip),
    {
        let ghost es = self.entries();
        let mut pass: usize = 0;
        let mut fail: usize = 0;
        let mut skip: usize = 0;
        let mut i: usize = 0;
        while i < self.results.len()
            invariant
                i <= self.results@.len(),
                es == self.entries(),
                pass == count_outcome(es.subrange(0, i as int), Outcome::Pass),
                fail == count_outcome(es.subrange(0, i as int), Outcome::Fail),
                skip == count_outcome(es.subrange(0, i as int), Outcome::Skip),
            decreases self.results@.len() - i,
        {
            let r = &self.results[i];
            proof {
                assert(es.subrange(0, i + 1).drop_last() =~= es.subrange(0, i as int));
                assert(es.subrange(0, i + 1).last() == result_view(*r));
                lemma_count_bounded(es.subrange(0, i as int), Outcome::Pass);
                lemma_count_bounded(es.subrange(0, i as int), Outcome::Fail);
                lemma_count_bounded(es.subrange(0, i as int), Outcome::Skip);
            }
            if r.label.unicode_len() > 0 {
                match r.outcome {
                    Outcome::Pass => {
                        pass = pass + 1;
                    },
                    Outcome::Fail => {
                        fail = fail + 1;
                    },
                    Outcome::Skip => {
                        skip = skip + 1;
                    },
                }
            }
            i = i + 1;
        }
        proof {
            assert(es.subrange(0, es.len() as int) =~= es);
        }
        (pass, fail, skip)
    }

    /// The exit code: 1 when nothing was checked or a check failed, else 0.
    pub fn finish(&self) -> (r: i32)
        ensures
            r == exit_code_of(
                count_outcome(self.entries(), Outcome::Pass),
                count_outcome(self.entries(), Outcome::Fail),
                count_outcome(self.entries(), Outcome::Skip),
            ),
    {
        let (pass, fail, skip) = self.tally();
        if pass == 0 && fail == 0 && skip == 0 {
            1
        } else if fail > 0 {
            1
        } else {
            0
        }
    }
}

/// A ledger whose checks all passed, with at least one check, finishes
/// with 0; one with a failed check finishes with 1.
pub proof fn law_exit_code(pass: nat, fail: nat, skip: nat)
    ensures
        fail > 0 ==> exit_code_of(pass, fail, skip) == 1,
        pass + fail + skip == 0 ==> exit_code_of(pass, fail, skip) == 1,
        fail == 0 && pass + skip > 0 ==> exit_code_of(pass, fail, skip) == 0,
{
}

} // verus!
