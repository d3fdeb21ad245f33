use vstd::prelude::*;
use crate::scanner::ScanResult;

verus! {

/// Where a scan job stands. `Completed` and `Cancelled` are terminal.
#[derive(Debug, Clone, Copy, PartialEq, Eq, Structural)]
pub enum JobState {
    Idle,
    Enumerating,
    Scanning,
    Completed,
    Cancelled,
}

/// The mathematical state of a scan job.
pub struct JobView {
    pub state: JobState,
    /// Every path enumerated, in dispatch order.
    pub paths: Seq<String>,
    /// How many paths have been handed to workers.
    pub next: nat,
    /// Dispatched scans whose result has not come back yet.
    pub in_flight: nat,
    pub scanned: nat,
    pub clean: nat,
    pub infected: nat,
    pub errors: nat,
    /// Infected paths, in the order in which they were reported.
    pub infected_paths: Seq<String>,
}

impl JobView {
    pub open spec fn total(self) -> nat {
        self.paths.len()
    }

    /// The invariant of every job.
    pub open spec fn wf(self) -> bool {
        &&& self.clean + self.infected + self.errors == self.scanned
        &&& self.infected_paths.len() == self.infected
        &&& self.scanned + self.in_flight == self.next
        &&& self.next <= self.total()
        &&& (self.state == JobState::Idle || self.state == JobState::Enumerating) ==> {
            &&& self.paths.len() == 0
            &&& self.next == 0
        }
        &&& self.state == JobState::Scanning ==> self.scanned < self.total()
        &&& self.state == JobState::Completed ==> {
            &&& self.scanned == self.total()
            &&& self.in_flight == 0
        }
    }

    /// The fraction of the job that is done, as numerator and denominator.
    /// A job with nothing to scan is wholly done once it has completed.
    pub open spec fn progress(self) -> (nat, nat) {
        if self.total() == 0 {
            if self.state == JobState::Completed {
                (1, 1)
            } else {
                (0, 1)
            }
        } else {
            (self.scanned, self.total())
        }
    }

    pub open spec fn start_spec(self) -> JobView {
        if self.state == JobState::Idle {
            JobView { state: JobState::Enumerating, ..self }
        } else {
            self
        }
    }

    pub open spec fn enumerated_spec(self, paths: Seq<String>) -> JobView {
        if self.state == JobState::Enumerating {
            JobView {
                state: if paths.len() == 0 {
                    JobState::Completed
                } else {
                    JobState::Scanning
                },
                paths,
                ..self
            }
        } else {
            self
        }
    }

    pub open spec fn can_dispatch(self) -> bool {
        self.state == JobState::Scanning && self.next < self.total()
    }

    pub open spec fn dispatch_spec(self) -> JobView {
        if self.can_dispatch() {
            JobView { next: self.next + 1, in_flight: self.in_flight + 1, ..self }
        } else {
            self
        }
    }

    pub open spec fn record_spec(self, result: ScanResult) -> JobView {
        if self.in_flight > 0 {
            let scanned = self.scanned + 1;
            let counted = match result {
                ScanResult::Clean(_) => JobView {
                    in_flight: (self.in_flight - 1) as nat,
                    scanned,
                    clean: self.clean + 1,
                    ..self
                },
                ScanResult::Infected(p) => JobView {
                    in_flight: (self.in_flight - 1) as nat,
                    scanned,
                    infected: self.infected + 1,
                    infected_paths: self.infected_paths.push(p),
                    ..self
                },
                ScanResult::Error(_, _) => JobView {
                    in_flight: (self.in_flight - 1) as nat,
                    scanned,
                    errors: self.errors + 1,
                    ..self
                },
            };
            if self.state == JobState::Scanning && scanned == self.total() {
                JobView { state: JobState::Completed, ..counted }
            } else {
                counted
            }
        } else {
            self
        }
    }

    pub open spec fn cancel_spec(self) -> JobView {
        if self.state == JobState::Enumerating || self.state == JobState::Scanning {
            JobView { state: JobState::Cancelled, ..self }
        } else {
            self
        }
    }
}

/// `a` is no further along than `b`, comparing the fractions.
pub open spec fn progress_le(a: (nat, nat), b: (nat, nat)) -> bool {
    a.0 * b.1 <= b.0 * a.1
}

/// Every operation of a job keeps its invariant.
pub proof fn lemma_steps_preserve_wf(v: JobView)
    requires
        v.wf(),
    ensures
        v.start_spec().wf(),
        forall|paths: Seq<String>| #[trigger] v.enumerated_spec(paths).wf(),
        v.dispatch_spec().wf(),
        forall|result: ScanResult| #[trigger] v.record_spec(result).wf(),
        v.cancel_spec().wf(),
{
}

/// Progress never goes back, whatever operation the job goes through, and a
/// completed job is wholly done.
pub proof fn lemma_progress_monotone(v: JobView, paths: Seq<String>, result: ScanResult)
    requires
        v.wf(),
    ensures
        progress_le(v.progress(), v.start_spec().progress()),
        progress_le(v.progress(), v.enumerated_spec(paths).progress()),
        progress_le(v.progress(), v.dispatch_spec().progress()),
        progress_le(v.progress(), v.record_spec(result).progress()),
        progress_le(v.progress(), v.cancel_spec().progress()),
        v.state == JobState::Completed ==> v.progress().0 == v.progress().1 && v.progress().1 > 0,
{
    let s = v.scanned;
    let t = v.total();
    if v.in_flight > 0 {
        assert(s * t <= (s + 1) * t) by (nonlinear_arith);
    }
}

/// Once a job has completed, every enumerated file has exactly one verdict
/// among clean, infected and error.
pub proof fn lemma_completed_counts(v: JobView)
    requires
        v.wf(),
        v.state == JobState::Completed,
    ensures
        v.clean + v.infected + v.errors == v.total(),
        v.in_flight == 0,
{
}

/// A job that enumerates no file completes at once, wholly done, with no
/// infected file and no error.
pub proof fn lemma_empty_completes(v: JobView)
    requires
        v.wf(),
        v.state == JobState::Enumerating,
    ensures
        v.enumerated_spec(Seq::empty()).state == JobState::Completed,
        v.enumerated_spec(Seq::empty()).progress() == (1nat, 1nat),
        v.enumerated_spec(Seq::empty()).infected == 0,
        v.enumerated_spec(Seq::empty()).infected_paths.len() == 0,
        v.enumerated_spec(Seq::empty()).errors == 0,
{
}

/// A cancelled job hands out no more paths, and each scan still outstanding
/// is counted when its verdict comes back, so none stays pending.
pub proof fn lemma_cancel_halts_dispatch(v: JobView, result: ScanResult)
    requires
        v.wf(),
        v.state == JobState::Enumerating || v.state == JobState::Scanning,
    ensures
        v.cancel_spec().state == JobState::Cancelled,
        !v.cancel_spec().can_dispatch(),
        v.cancel_spec().dispatch_spec() == v.cancel_spec(),
        v.cancel_spec().cancel_spec() == v.cancel_spec(),
        v.cancel_spec().in_flight == v.in_flight,
        v.in_flight > 0 ==> {
            let after = v.cancel_spec().record_spec(result);
            &&& after.state == JobState::Cancelled
            &&& after.in_flight == v.in_flight - 1
            &&& after.scanned == v.scanned + 1
        },
{
}

/// One scan job: the paths to scan, the workers' progress through them, and
/// the tally of their results. Workers take paths with `dispatch` and report
/// each verdict with `record`; the job decides, and the caller carries out.
pub struct ScanJob {
    state: JobState,
    paths: Vec<String>,
    next: usize,
    in_flight: usize,
    scanned: usize,
    clean: usize,
    infected: usize,
    errors: usize,
    infected_paths: Vec<String>,
}

impl View for ScanJob {
    type V = JobView;

    closed spec fn view(&self) -> JobView {
        JobView {
            state: self.state,
            paths: self.paths@,
            next: self.next as nat,
            in_flight: self.in_flight as nat,
            scanned: self.scanned as nat,
            clean: self.clean as nat,
            infected: self.infected as nat,
            errors: self.errors as nat,
            infected_paths: self.infected_paths@,
        }
    }
}

impl ScanJob {
    /// A job that has not started.
    pub fn new() -> (r: ScanJob)
        ensures
            r@.wf(),
            r@.state == JobState::Idle,
            r@.paths.len() == 0,
            r@.scanned == 0,
            r@.in_flight == 0,
            r@.infected_paths.len() == 0,
    {
        ScanJob {
            state: JobState::Idle,
            paths: Vec::new(),
            next: 0,
            in_flight: 0,
            scanned: 0,
            clean: 0,
            infected: 0,
            errors: 0,
            infected_paths: Vec::new(),
        }
    }

    pub fn state(&self) -> (r: JobState)
        ensures
            r == self@.state,
    {
        self.state
    }

    /// The number of files enumerated; zero until enumeration has finished.
    pub fn total(&self) -> (r: usize)
        ensures
            r == self@.total(),
    {
        self.paths.len()
    }

    pub fn scanned(&self) -> (r: usize)
        ensures
            r == self@.scanned,
    {
        self.scanned
    }

    pub fn in_flight(&self) -> (r: usize)
        ensures
            r == self@.in_flight,
    {
        self.in_flight
    }

    pub fn clean_count(&self) -> (r: usize)
        ensures
            r == self@.clean,
    {
        self.clean
    }

    pub fn infected_count(&self) -> (r: usize)
        ensures
            r == self@.infected,
    {
        self.infected
    }

    pub fn error_count(&self) -> (r: usize)
        ensures
            r == self@.errors,
    {
        self.errors
    }

    /// Infected paths in the order in which they were reported.
    pub fn infected_paths(&self) -> (r: &Vec<String>)
        ensures
            r@ == self@.infected_paths,
    {
        &self.infected_paths
    }

    pub fn any_infected(&self) -> (r: bool)
        requires
            self@.wf(),
        ensures
            r == (self@.infected_paths.len() > 0),
    {
        self.infected > 0
    }

    pub fn is_completed(&self) -> (r: bool)
        ensures
            r == (self@.state == JobState::Completed),
    {
        self.state == JobState::Completed
    }

    pub fn is_cancelled(&self) -> (r: bool)
        ensures
            r == (self@.state == JobState::Cancelled),
    {
        self.state == JobState::Cancelled
    }

    /// The fraction done, as numerator and denominator (never zero).
    pub fn progress(&self) -> (r: (usize, usize))
        requires
            self@.wf(),
        ensures
            r.0 as nat == self@.progress().0,
            r.1 as nat == self@.progress().1,
            r.1 > 0,
            r.0 <= r.1,
    {
        if self.paths.len() == 0 {
            if self.state == JobState::Completed {
                (1, 1)
            } else {
                (0, 1)
            }
        } else {
            (self.scanned, self.paths.len())
        }
    }

    /// Idle to enumerating; returns whether the job was idle.
    pub fn start(&mut self) -> (r: bool)
        requires
            old(self)@.wf(),
        ensures
            final(self)@ == old(self)@.start_spec(),
            final(self)@.wf(),
            r == (old(self)@.state == JobState::Idle),
    {
        proof {
            lemma_steps_preserve_wf(self@);
        }
        if self.state == JobState::Idle {
            self.state = JobState::Enumerating;
            true
        } else {
            false
        }
    }

    /// Hands over the enumerated paths, which fixes the total. An empty set
    /// completes the job at once. Ignored unless the job is enumerating.
    pub fn enumerated(&mut self, paths: Vec<String>)
        requires
            old(self)@.wf(),
        ensures
            final(self)@ == old(self)@.enumerated_spec(paths@),
            final(self)@.wf(),
    {
        proof {
            lemma_steps_preserve_wf(self@);
        }
        if self.state == JobState::Enumerating {
            if paths.len() == 0 {
                self.state = JobState::Completed;
            } else {
                self.state = JobState::Scanning;
            }
            self.paths = paths;
        }
    }

    /// The next path for a worker, if the job is scanning and one is left.
    pub fn dispatch(&mut self) -> (r: Option<String>)
        requires
            old(self)@.wf(),
        ensures
            final(self)@ == old(self)@.dispatch_spec(),
            final(self)@.wf(),
            r == (if old(self)@.can_dispatch() {
                Some(old(self)@.paths[old(self)@.next as int])
            } else {
                None::<String>
            }),
    {
        proof {
            lemma_steps_preserve_wf(self@);
        }
        if self.state == JobState::Scanning && self.next < self.paths.len() {
            let p = self.paths[self.next].clone();
            self.next = self.next + 1;
            self.in_flight = self.in_flight + 1;
            Some(p)
        } else {
            None
        }
    }

    /// Takes back the verdict of a dispatched scan. Ignored when no scan is
    /// outstanding. Returns whether the job completed with this verdict.
    pub fn record(&mut self, result: ScanResult) -> (r: bool)
        requires
            old(self)@.wf(),
        ensures
            final(self)@ == old(self)@.record_spec(result),
            final(self)@.wf(),
            r == (old(self)@.state != JobState::Completed && final(self)@.state == JobState::Completed),
    {
        proof {
            lemma_steps_preserve_wf(self@);
        }
        if self.in_flight == 0 {
            return false;
        }
        self.in_flight = self.in_flight - 1;
        self.scanned = self.scanned + 1;
        match result {
            ScanResult::Clean(_) => {
                self.clean = self.clean + 1;
            },
            ScanResult::Infected(p) => {
                self.infected = self.infected + 1;
                self.infected_paths.push(p);
            },
            ScanResult::Error(_, _) => {
                self.errors = self.errors + 1;
            },
        }
        if self.state == JobState::Scanning && self.scanned == self.paths.len() {
            self.state = JobState::Completed;
            true
        } else {
            false
        }
    }

    /// Stops dispatch. Scans already handed out may still be recorded.
    /// Has no effect but while enumerating or scanning.
    pub fn cancel(&mut self)
        requires
            old(self)@.wf(),
        ensures
            final(self)@ == old(self)@.cancel_spec(),
            final(self)@.wf(),
    {
        proof {
            lemma_steps_preserve_wf(self@);
        }
        if self.state == JobState::Enumerating || self.state == JobState::Scanning {
            self.state = JobState::Cancelled;
        }
    }
}

} // verus!
