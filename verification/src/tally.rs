//! Pass and fail counters. A tally belongs to whoever holds it: there is
//! no counter that two runs could share without meaning to.

use crate::text::texts_view;
use vstd::prelude::*;

verus! {

/// One more than `n`, starting over at zero after the greatest number.
pub open spec fn bump(n: usize) -> usize {
    if n == usize::MAX {
        0
    } else {
        (n + 1) as usize
    }
}

/// How many checks passed and how many failed.
#[derive(Clone, Copy, Debug, PartialEq, Eq, Structural)]
pub struct Tally {
    pub passed: usize,
    pub failed: usize,
}

impl Tally {
    /// The tally after one more check that passed, or failed.
    pub open spec fn with(self, pass: bool) -> Tally {
        if pass {
            Tally { passed: bump(self.passed), failed: self.failed }
        } else {
            Tally { passed: self.passed, failed: bump(self.failed) }
        }
    }

    /// A tally of nothing.
    pub fn new() -> (r: Self)
        ensures
            r == (Tally { passed: 0, failed: 0 }),
    {
        Tally { passed: 0, failed: 0 }
    }

    /// Counts one check.
    pub fn record(&mut self, pass: bool)
        ensures
            *final(self) == old(self).with(pass),
    {
        if pass {
            self.passed = if self.passed == usize::MAX {
                0
            } else {
                self.passed + 1
            };
        } else {
            self.failed = if self.failed == usize::MAX {
                0
            } else {
                self.failed + 1
            };
        }
    }

    /// Whether any check failed.
    pub fn any_failed(&self) -> (r: bool)
        ensures
            r == (self.failed > 0),
    {
        self.failed > 0
    }
}

/// Counts a check that passes where `cond` holds. Returns whether it
/// passed.
pub fn assert_t(tally: &mut Tally, cond: bool) -> (pass: bool)
    ensures
        pass == cond,
        *final(tally) == old(tally).with(cond),
{
    tally.record(cond);
    cond
}

/// Counts a check that passes where `cond` does not hold. Returns whether
/// it passed.
pub fn assert_f(tally: &mut Tally, cond: bool) -> (pass: bool)
    ensures
        pass == !cond,
        *final(tally) == old(tally).with(!cond),
{
    tally.record(!cond);
    !cond
}

/// Reads the tally and starts it over: the counts so far, passed first, and
/// a tally of nothing left behind.
pub fn test_summary(tally: &mut Tally) -> (r: (usize, usize))
    ensures
        r == (old(tally).passed, old(tally).failed),
        *final(tally) == (Tally { passed: 0, failed: 0 }),
{
    let counts = (tally.passed, tally.failed);
    tally.passed = 0;
    tally.failed = 0;
    counts
}

/// The counters of one run of a definition: the checks it made, and the
/// calls of definitions themselves.
#[derive(Clone, Copy, Debug, PartialEq, Eq, Structural)]
pub struct Session {
    pub tests: Tally,
    pub calls: Tally,
}

impl Session {
    /// The session after a definition was called and ended well or not. A
    /// call that ended in an error counts as a failed call and as a failed
    /// check.
    pub open spec fn after_call(self, ok: bool) -> Session {
        if ok {
            Session { tests: self.tests, calls: self.calls.with(true) }
        } else {
            Session { tests: self.tests.with(false), calls: self.calls.with(false) }
        }
    }

    /// The exit code that the counters ask for: 1 where a check or a call
    /// failed, else 0.
    pub open spec fn spec_exit_code(&self) -> i32 {
        if self.tests.failed > 0 || self.calls.failed > 0 {
            1
        } else {
            0
        }
    }

    /// A session in which nothing was counted.
    pub fn new() -> (r: Self)
        ensures
            r.tests == (Tally { passed: 0, failed: 0 }),
            r.calls == (Tally { passed: 0, failed: 0 }),
    {
        Session { tests: Tally::new(), calls: Tally::new() }
    }

    /// Counts the call of a definition.
    pub fn record_call(&mut self, ok: bool)
        ensures
            *final(self) == old(self).after_call(ok),
    {
        if ok {
            self.calls.record(true);
        } else {
            self.tests.record(false);
            self.calls.record(false);
        }
    }

    /// Computes [`Self::spec_exit_code`].
    #[verifier::when_used_as_spec(spec_exit_code)]
    pub fn exit_code(&self) -> (r: i32)
        ensures
            r == self.spec_exit_code(),
    {
        if self.tests.failed > 0 || self.calls.failed > 0 {
            1
        } else {
            0
        }
    }
}

/// `a` and `b` together, starting over at zero after the greatest number.
pub open spec fn wrapped_sum(a: usize, b: usize) -> usize {
    if a + b > usize::MAX {
        (a + b - usize::MAX - 1) as usize
    } else {
        (a + b) as usize
    }
}

/// The counts of a run of tests, one test after the other.
#[derive(Debug, Clone, PartialEq, Eq)]
pub struct Overview {
    /// The checks that passed, over all tests.
    pub passed: usize,
    /// The checks that failed, over all tests.
    pub failed: usize,
    /// The names of the tests in which a check failed, in the order run.
    pub failed_tests: Vec<String>,
}

impl Overview {
    /// An overview of no test.
    pub fn new() -> (r: Self)
        ensures
            r.passed == 0,
            r.failed == 0,
            r.failed_tests@.len() == 0,
    {
        Overview { passed: 0, failed: 0, failed_tests: Vec::new() }
    }

    /// Adds the counts of the test `name`, as read from its tally. The test
    /// is listed as failed where one of its checks failed.
    pub fn add(&mut self, name: String, counts: (usize, usize))
        ensures
            final(self).passed == wrapped_sum(old(self).passed, counts.0),
            final(self).failed == wrapped_sum(old(self).failed, counts.1),
            texts_view(final(self).failed_tests@) == if counts.1 > 0 {
                texts_view(old(self).failed_tests@).push(name@)
            } else {
                texts_view(old(self).failed_tests@)
            },
    {
        self.passed = self.passed.wrapping_add(counts.0);
        self.failed = self.failed.wrapping_add(counts.1);
        if counts.1 > 0 {
            self.failed_tests.push(name);
            assert(texts_view(self.failed_tests@) =~= texts_view(old(self).failed_tests@).push(
                name@,
            ));
        }
    }

    /// The exit code that the overview asks for: 1 where a check failed,
    /// else 0.
    pub fn exit_code(&self) -> (r: i32)
        ensures
            r == if self.failed > 0 {
                1i32
            } else {
                0i32
            },
    {
        if self.failed > 0 {
            1
        } else {
            0
        }
    }
}

} // verus!
