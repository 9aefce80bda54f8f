use vstd::prelude::*;

verus! {

/// How one worker process ended.
#[derive(Debug, Clone, Copy, PartialEq, Eq, Structural)]
pub enum ExitClass {
    /// Exit code 0.
    Succeeded,
    /// A nonzero exit code.
    Failed { code: i32 },
    /// Ended by a signal: no exit code.
    Killed,
}

/// The outcome of the whole run once every worker has exited.
#[derive(Debug, Clone, Copy, PartialEq, Eq, Structural)]
pub enum RunVerdict {
    /// Every worker exited with code 0.
    Success,
    /// Some worker failed or was killed; the counts say how many of each.
    Failure { failed: usize, killed: usize },
}

/// The class of an exit status, given its exit code if there is one.
pub open spec fn class_of(code: Option<i32>) -> ExitClass {
    match code {
        Some(0) => ExitClass::Succeeded,
        Some(c) => ExitClass::Failed { code: c },
        None => ExitClass::Killed,
    }
}

/// Classifies one exit status.
pub fn classify_exit(code: Option<i32>) -> (r: ExitClass)
    ensures
        r == class_of(code),
{
    match code {
        Some(0) => ExitClass::Succeeded,
        Some(c) => ExitClass::Failed { code: c },
        None => ExitClass::Killed,
    }
}

/// Number of statuses in `s` with a nonzero exit code.
pub open spec fn count_failed(s: Seq<Option<i32>>) -> nat
    decreases s.len(),
{
    if s.len() == 0 {
        0
    } else {
        count_failed(s.drop_last()) + if s.last() is Some && s.last() != Some(0i32) {
            1nat
        } else {
            0nat
        }
    }
}

/// Number of statuses in `s` without an exit code.
pub open spec fn count_killed(s: Seq<Option<i32>>) -> nat
    decreases s.len(),
{
    if s.len() == 0 {
        0
    } else {
        count_killed(s.drop_last()) + if s.last() is None {
            1nat
        } else {
            0nat
        }
    }
}

/// Every status in `s` is exit code 0.
pub open spec fn all_succeeded(s: Seq<Option<i32>>) -> bool {
    forall|i: int| 0 <= i < s.len() ==> #[trigger] s[i] == Some(0i32)
}

/// Waits on a fixed number of workers, in whatever order they exit, and tallies
/// how each one ended.
pub struct Supervisor {
    expected: usize,
    exited: usize,
    failed: usize,
    killed: usize,
    statuses: Ghost<Seq<Option<i32>>>,
}

impl Supervisor {
    /// The exit statuses recorded so far, in the order they were observed.
    pub closed spec fn history(&self) -> Seq<Option<i32>> {
        self.statuses@
    }

    /// The number of workers being supervised.
    pub closed spec fn expected_count(&self) -> nat {
        self.expected as nat
    }

    pub closed spec fn wf(&self) -> bool {
        &&& self.exited == self.statuses@.len()
        &&& self.exited <= self.expected
        &&& self.failed == count_failed(self.statuses@)
        &&& self.killed == count_killed(self.statuses@)
    }

    /// A supervisor for `expected` workers, none exited yet.
    pub fn new(expected: usize) -> (r: Supervisor)
        ensures
            r.wf(),
            r.expected_count() == expected,
            r.history() == Seq::<Option<i32>>::empty(),
    {
        Supervisor { expected, exited: 0, failed: 0, killed: 0, statuses: Ghost(Seq::empty()) }
    }

    /// Whether every supervised worker has exited.
    pub fn all_exited(&self) -> (r: bool)
        requires
            self.wf(),
        ensures
            r == (self.history().len() == self.expected_count()),
    {
        self.exited == self.expected
    }

    /// Records that one more worker exited, with exit code `code` (none if it was
    /// killed by a signal), and returns how it ended.
    pub fn record(&mut self, code: Option<i32>) -> (r: ExitClass)
        requires
            old(self).wf(),
            old(self).history().len() < old(self).expected_count(),
        ensures
            final(self).wf(),
            final(self).expected_count() == old(self).expected_count(),
            final(self).history() == old(self).history().push(code),
            r == class_of(code),
    {
        let ghost before = self.statuses@;
        let ghost after = before.push(code);
        assert(after.drop_last() =~= before);
        proof {
            lemma_counts_bounded(before);
        }
        let r = classify_exit(code);
        match r {
            ExitClass::Failed { .. } => {
                self.failed = self.failed + 1;
            },
            ExitClass::Killed => {
                self.killed = self.killed + 1;
            },
            ExitClass::Succeeded => {},
        }
        self.exited = self.exited + 1;
        self.statuses = Ghost(after);
        r
    }

    /// The outcome of the run: a success exactly when every recorded status was
    /// exit code 0, else the numbers of failed and killed workers.
    pub fn verdict(&self) -> (r: RunVerdict)
        requires
            self.wf(),
        ensures
            (r == RunVerdict::Success) <==> all_succeeded(self.history()),
            r matches RunVerdict::Failure { failed, killed } ==> failed == count_failed(
                self.history(),
            ) && killed == count_killed(self.history()),
    {
        proof {
            lemma_counts_zero(self.statuses@);
        }
        if self.failed == 0 && self.killed == 0 {
            RunVerdict::Success
        } else {
            RunVerdict::Failure { failed: self.failed, killed: self.killed }
        }
    }
}

proof fn lemma_counts_bounded(s: Seq<Option<i32>>)
    ensures
        count_failed(s) + count_killed(s) <= s.len(),
    decreases s.len(),
{
    if s.len() > 0 {
        lemma_counts_bounded(s.drop_last());
    }
}

proof fn lemma_counts_zero(s: Seq<Option<i32>>)
    ensures
        (count_failed(s) == 0 && count_killed(s) == 0) <==> all_succeeded(s),
    decreases s.len(),
{
    if s.len() > 0 {
        let t = s.drop_last();
        lemma_counts_zero(t);
        if all_succeeded(s) {
            assert forall|i: int| 0 <= i < t.len() implies #[trigger] t[i] == Some(0i32) by {
                assert(t[i] == s[i]);
            }
            assert(s[s.len() - 1] == Some(0i32));
        }
        if count_failed(s) == 0 && count_killed(s) == 0 {
            assert forall|i: int| 0 <= i < s.len() implies #[trigger] s[i] == Some(0i32) by {
                if i < t.len() {
                    assert(t[i] == s[i]);
                }
            }
        }
    }
}

} // verus!
