//! The in-kernel test suite: runs named checks, counts passes, failures and
//! skips, and keeps a record of every check that ran.
use vstd::prelude::*;
use crate::util::push_dec;

verus! {

/// What a check reports.
#[derive(Debug)]
pub enum TestOutcome {
    Pass,
    Fail(String),
    Skip(String),
}

/// The record of a check that ran.
#[derive(Debug)]
pub struct TestResult {
    pub name: String,
    pub passed: bool,
    pub message: String,
    pub duration_ticks: u64,
}

/// A record as plain values: name, passed, message, duration.
pub type ResultView = (Seq<char>, bool, Seq<char>, u64);

/// The plain values of a record.
pub open spec fn result_view(r: TestResult) -> ResultView {
    (r.name@, r.passed, r.message@, r.duration_ticks)
}

/// The records and counts of a run of the suite.
pub struct TestSuite {
    pub results: Vec<TestResult>,
    pub passed: usize,
    pub failed: usize,
    pub skipped: usize,
}

/// `a - b`, or 0 when `b` is larger.
pub open spec fn sat_sub(a: u64, b: u64) -> u64 {
    if a >= b { (a - b) as u64 } else { 0 }
}

/// The summary line.
pub open spec fn summary_text(total: nat, passed: nat, failed: nat, skipped: nat) -> Seq<char> {
    "TOTAL: "@ + crate::util::dec_of(total) + " | PASS: "@ + crate::util::dec_of(passed) + " | FAIL: "@
        + crate::util::dec_of(failed) + " | SKIP: "@ + crate::util::dec_of(skipped)
}

/// `s1` is `s0` after check `name` gave `o` in `dur` ticks: a skip is only
/// counted; a pass or a failure is counted and recorded.
pub open spec fn ran(s0: TestSuite, s1: TestSuite, name: Seq<char>, o: TestOutcome, dur: u64) -> bool {
    match o {
        TestOutcome::Skip(_) => s1.skipped == s0.skipped + 1 && s1.passed == s0.passed && s1.failed == s0.failed
            && s1.results_view() == s0.results_view(),
        TestOutcome::Pass => s1.passed == s0.passed + 1 && s1.failed == s0.failed && s1.skipped == s0.skipped
            && s1.results_view() == s0.results_view().push((name, true, "OK"@, dur)),
        TestOutcome::Fail(m) => s1.failed == s0.failed + 1 && s1.passed == s0.passed && s1.skipped == s0.skipped
            && s1.results_view() == s0.results_view().push((name, false, m@, dur)),
    }
}

impl TestSuite {
    /// The records as plain values.
    pub open spec fn results_view(&self) -> Seq<ResultView> {
        self.results@.map_values(|r: TestResult| result_view(r))
    }

    /// No records, all counts zero.
    pub fn new() -> (s: TestSuite)
        ensures
            s.results@.len() == 0 && s.passed == 0 && s.failed == 0 && s.skipped == 0,
    {
        TestSuite { results: Vec::new(), passed: 0, failed: 0, skipped: 0 }
    }

    /// Runs check `test` under `name`, timing it with `now`: a skipped check is
    /// only counted; a passed or failed one is counted and recorded with its
    /// message ("OK" when it passed) and the ticks it took.
    pub fn run<F: Fn() -> TestOutcome, C: Fn() -> u64>(&mut self, name: &str, test: F, now: C)
        requires
            call_requires(test, ()),
            call_requires(now, ()),
            old(self).passed < usize::MAX && old(self).failed < usize::MAX && old(self).skipped < usize::MAX,
        ensures
            exists|o: TestOutcome, t0: u64, t1: u64|
                #![trigger call_ensures(test, (), o), call_ensures(now, (), t0), call_ensures(now, (), t1)]
                call_ensures(test, (), o) && call_ensures(now, (), t0) && call_ensures(now, (), t1)
                    && ran(*old(self), *final(self), name@, o, sat_sub(t1, t0)),
    {
        let tick_start = now();
        let outcome = test();
        let tick_end = now();
        let ghost o = outcome;
        let duration = tick_end.saturating_sub(tick_start);
        let ghost v0 = self.results_view();
        match outcome {
            TestOutcome::Pass => {
                self.passed = self.passed + 1;
                self.results.push(TestResult { name: String::from_str(name), passed: true, message: String::from_str("OK"), duration_ticks: duration });
                assert(self.results_view() =~= v0.push((name@, true, "OK"@, sat_sub(tick_end, tick_start))));
            },
            TestOutcome::Fail(msg) => {
                self.failed = self.failed + 1;
                let ghost m = msg@;
                self.results.push(TestResult { name: String::from_str(name), passed: false, message: msg, duration_ticks: duration });
                assert(self.results_view() =~= v0.push((name@, false, m, sat_sub(tick_end, tick_start))));
            },
            TestOutcome::Skip(_) => {
                self.skipped = self.skipped + 1;
            },
        }
        assert(call_ensures(test, (), o) && call_ensures(now, (), tick_start) && call_ensures(now, (), tick_end));
        assert(ran(*old(self), *self, name@, o, sat_sub(tick_end, tick_start)));
    }

    /// "TOTAL: <recorded + skipped> | PASS: <n> | FAIL: <n> | SKIP: <n>".
    pub fn summary(&self) -> (s: String)
        requires
            self.results@.len() + self.skipped <= usize::MAX,
        ensures
            s@ == summary_text((self.results@.len() + self.skipped) as nat, self.passed as nat, self.failed as nat, self.skipped as nat),
    {
        let mut s = String::from_str("TOTAL: ");
        push_dec(&mut s, (self.results.len() + self.skipped) as u64);
        s.append(" | PASS: ");
        push_dec(&mut s, self.passed as u64);
        s.append(" | FAIL: ");
        push_dec(&mut s, self.failed as u64);
        s.append(" | SKIP: ");
        push_dec(&mut s, self.skipped as u64);
        s
    }

    /// Whether no check failed.
    pub fn all_passed(&self) -> (b: bool)
        ensures
            b == (self.failed == 0),
    {
        self.failed == 0
    }
}

/// Passed, failed and skipped counts.
pub fn get_summary(suite: &TestSuite) -> (r: (usize, usize, usize))
    ensures
        r == (suite.passed, suite.failed, suite.skipped),
{
    (suite.passed, suite.failed, suite.skipped)
}

} // verus!
