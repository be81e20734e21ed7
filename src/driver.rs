use crate::traces::{dedup_map, merge_maps, TraceMap};
use vstd::prelude::*;
use vstd::string::*;

verus! {

/// Why a coverage run failed.
#[derive(Clone, Debug, PartialEq, Eq)]
pub enum RunError {
    /// A traced test executable exited with a non-zero code.
    TestFailed,
    /// Tracing itself failed.
    TestCoverage(String),
    /// The test executables could not be built.
    BuildFailure(String),
}

/// The coverage of the executables of one configuration, gathered as each is
/// traced.
#[derive(Debug)]
pub struct CoverageRun {
    pub traces: TraceMap,
    /// The exit codes of the executables, or-ed together.
    pub return_code: i32,
}

impl CoverageRun {
    pub fn new() -> (r: CoverageRun)
        ensures
            r.traces.wf(),
            r.traces@ == Map::<crate::traces::TraceKey, u64>::empty(),
            r.return_code == 0,
    {
        CoverageRun { traces: TraceMap::new(), return_code: 0 }
    }

    /// Adds what tracing one executable gave.
    pub fn absorb(&mut self, traces: &TraceMap, code: i32)
        requires
            old(self).traces.wf(),
            traces.wf(),
        ensures
            final(self).traces.wf(),
            final(self).traces@ == merge_maps(old(self).traces@, traces@),
            final(self).return_code == old(self).return_code | code,
    {
        self.traces.merge(traces);
        self.return_code = self.return_code | code;
    }

    /// The deduplicated coverage and the combined exit code.
    pub fn finish(self) -> (r: (TraceMap, i32))
        requires
            self.traces.wf(),
        ensures
            r.0.wf(),
            r.0@ == dedup_map(self.traces@),
            r.1 == self.return_code,
    {
        let mut t = self.traces;
        t.dedup();
        (t, self.return_code)
    }
}

/// The outcome of every configuration of a run, gathered in turn: coverage
/// of the configurations that succeeded, and the first failure.
#[derive(Debug)]
pub struct TraceRun {
    pub run: CoverageRun,
    pub failure: Option<RunError>,
}

impl TraceRun {
    pub fn new() -> (r: TraceRun)
        ensures
            r.run.traces.wf(),
            r.run.traces@ == Map::<crate::traces::TraceKey, u64>::empty(),
            r.run.return_code == 0,
            r.failure is None,
    {
        TraceRun { run: CoverageRun::new(), failure: None }
    }

    /// Adds the outcome of one configuration. Its coverage is merged in; of
    /// failures only the first is kept.
    pub fn record(&mut self, outcome: Result<(TraceMap, i32), RunError>)
        requires
            old(self).run.traces.wf(),
            outcome matches Ok(o) ==> o.0.wf(),
        ensures
            final(self).run.traces.wf(),
            match outcome {
                Ok((t, c)) => {
                    &&& final(self).run.traces@ == merge_maps(old(self).run.traces@, t@)
                    &&& final(self).run.return_code == old(self).run.return_code | c
                    &&& final(self).failure == old(self).failure
                },
                Err(e) => {
                    &&& final(self).run.traces@ == old(self).run.traces@
                    &&& final(self).run.return_code == old(self).run.return_code
                    &&& final(self).failure == if old(self).failure is None {
                        Some(e)
                    } else {
                        old(self).failure
                    }
                },
            },
    {
        match outcome {
            Ok((t, c)) => self.run.absorb(&t, c),
            Err(e) => {
                if self.failure.is_none() {
                    self.failure = Some(e);
                }
            },
        }
    }

    /// The deduplicated coverage of the run; or the first failure; or, where
    /// some executable exited non-zero, `TestFailed`.
    pub fn finish(self) -> (r: Result<TraceMap, RunError>)
        requires
            self.run.traces.wf(),
        ensures
            match self.failure {
                Some(e) => r == Err::<TraceMap, RunError>(e),
                None => if self.run.return_code != 0 {
                    r == Err::<TraceMap, RunError>(RunError::TestFailed)
                } else {
                    r matches Ok(t) && t.wf() && t@ == dedup_map(self.run.traces@)
                },
            },
    {
        let failure = self.failure;
        let (t, code) = self.run.finish();
        match failure {
            Some(e) => Err(e),
            None => if code != 0 {
                Err(RunError::TestFailed)
            } else {
                Ok(t)
            },
        }
    }
}

/// Whether a configuration of this name is traced: one named `report` only
/// reports.
pub fn is_traced_config(name: &String) -> (r: bool)
    ensures
        r == (name@ != "report"@),
{
    let report = String::from_str("report");
    !(*name == report)
}

/// The configurations whose report is written, by index: the only one if
/// there is one; else those named `report`, or the first if none is.
pub fn report_targets(names: &Vec<String>) -> (r: Vec<usize>)
    ensures
        names@.len() == 0 ==> r@.len() == 0,
        names@.len() == 1 ==> r@ == seq![0usize],
        names@.len() > 1 ==> if exists|i: int| 0 <= i < names@.len() && #[trigger] names@[i]@
            == "report"@ {
            &&& forall|j: int, k: int| 0 <= j < k < r@.len() ==> r@[j] < r@[k]
            &&& forall|j: int|
                0 <= j < r@.len() ==> (#[trigger] r@[j]) < names@.len() && names@[r@[j] as int]@
                    == "report"@
            &&& forall|i: int|
                0 <= i < names@.len() && #[trigger] names@[i]@ == "report"@ ==> r@.contains(
                    i as usize,
                )
        } else {
            r@ == seq![0usize]
        },
{
    let mut r: Vec<usize> = Vec::new();
    if names.len() == 0 {
        return r;
    }
    if names.len() == 1 {
        r.push(0);
        return r;
    }
    let report = String::from_str("report");
    let mut i: usize = 0;
    while i < names.len()
        invariant
            report@ == "report"@,
            i <= names@.len(),
            forall|j: int, k: int| 0 <= j < k < r@.len() ==> r@[j] < r@[k],
            forall|j: int| 0 <= j < r@.len() ==> (#[trigger] r@[j]) < i && names@[r@[j] as int]@ == "report"@,
            forall|k: int| 0 <= k < i && #[trigger] names@[k]@ == "report"@ ==> r@.contains(k as usize),
        decreases names@.len() - i,
    {
        let ghost before = r@;
        if names[i] == report {
            r.push(i);
            assert(r@[r@.len() - 1] == i);
        }
        assert forall|k: int| 0 <= k < i + 1 && #[trigger] names@[k]@ == "report"@ implies r@.contains(
            k as usize,
        ) by {
            if k < i {
                let j = choose|j: int| 0 <= j < before.len() && before[j] == k as usize;
                assert(r@[j] == before[j]);
            } else {
                assert(r@[r@.len() - 1] == i);
            }
        }
        i = i + 1;
    }
    if r.len() == 0 {
        proof {
            if exists|i: int| 0 <= i < names@.len() && #[trigger] names@[i]@ == "report"@ {
                let i = choose|i: int| 0 <= i < names@.len() && #[trigger] names@[i]@ == "report"@;
                assert(r@.contains(i as usize));
            }
        }
        r.push(0);
        assert(r@ =~= seq![0usize]);
    } else {
        assert(names@[r@[0] as int]@ == "report"@);
    }
    r
}

/// The argument vector of a test executable: its path, `--ignored` where
/// only ignored tests are to run, then the extra arguments.
pub fn test_arguments(path: &String, ignored: bool, varargs: &Vec<String>) -> (r: Vec<String>)
    ensures
        r@.map_values(|s: String| s@) == seq![path@] + (if ignored {
            seq!["--ignored"@]
        } else {
            Seq::<Seq<char>>::empty()
        }) + varargs@.map_values(|s: String| s@),
{
    let mut r: Vec<String> = Vec::new();
    r.push(path.clone());
    if ignored {
        r.push(String::from_str("--ignored"));
    }
    let ghost head = r@.map_values(|s: String| s@);
    let ghost base = r@.len();
    let mut i: usize = 0;
    while i < varargs.len()
        invariant
            i <= varargs@.len(),
            base <= r@.len(),
            r@.len() == base + i,
            r@.map_values(|s: String| s@) == head + varargs@.take(i as int).map_values(
                |s: String| s@,
            ),
        decreases varargs@.len() - i,
    {
        let ghost prev = r@;
        r.push(varargs[i].clone());
        proof {
            assert(varargs@.take(i + 1) == varargs@.take(i as int).push(varargs@[i as int]));
            assert(r@.map_values(|s: String| s@) =~= prev.map_values(|s: String| s@).push(
                varargs@[i as int]@,
            ));
            assert(varargs@.take(i + 1).map_values(|s: String| s@) =~= varargs@.take(
                i as int,
            ).map_values(|s: String| s@).push(varargs@[i as int]@));
            assert(r@.map_values(|s: String| s@) =~= head + varargs@.take(i + 1).map_values(
                |s: String| s@,
            ));
        }
        i = i + 1;
    }
    proof {
        assert(varargs@.take(varargs@.len() as int) == varargs@);
    }
    r
}

/// `key=value`, as an environment entry.
pub open spec fn env_entry(key: Seq<char>, value: Seq<char>) -> Seq<char> {
    key + "="@ + value
}

/// The environment of a test executable: each inherited variable as
/// `key=value`, then `RUST_BACKTRACE=1` where backtraces are wanted.
pub fn test_environment(vars: &Vec<(String, String)>, backtrace: bool) -> (r: Vec<String>)
    ensures
        r@.len() == vars@.len() + if backtrace { 1int } else { 0int },
        forall|i: int|
            0 <= i < vars@.len() ==> (#[trigger] r@[i])@ == env_entry(vars@[i].0@, vars@[i].1@),
        backtrace ==> r@[vars@.len() as int]@ == "RUST_BACKTRACE=1"@,
{
    let mut r: Vec<String> = Vec::new();
    let mut i: usize = 0;
    while i < vars.len()
        invariant
            i <= vars@.len(),
            r@.len() == i,
            forall|j: int| 0 <= j < i ==> (#[trigger] r@[j])@ == env_entry(vars@[j].0@, vars@[j].1@),
        decreases vars@.len() - i,
    {
        let mut e = vars[i].0.clone();
        e.append("=");
        e.append(vars[i].1.as_str());
        r.push(e);
        i = i + 1;
    }
    if backtrace {
        r.push(String::from_str("RUST_BACKTRACE=1"));
    }
    r
}

} // verus!
