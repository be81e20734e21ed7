use crate::traces::{line_hit, TraceMap};
use vstd::prelude::*;

verus! {

/// A half-open interval `[start, end)` of 1-based source line numbers.
#[derive(Copy, Clone, Debug, PartialEq, Eq, Structural, Hash, PartialOrd, Ord)]
pub struct LineRange {
    /// First line of the range (inclusive).
    pub start: usize,
    /// End of the range (exclusive).
    pub end: usize,
}

impl LineRange {
    pub open spec fn wf(self) -> bool {
        self.start <= self.end
    }

    pub open spec fn spec_contains(self, line: int) -> bool {
        self.start <= line && line < self.end
    }

    /// Builds the range `[start, end)`.
    pub fn new(start: usize, end: usize) -> (r: LineRange)
        requires
            start <= end,
        ensures
            r.start == start,
            r.end == end,
            r.wf(),
    {
        LineRange { start, end }
    }

    /// Returns true if the line is contained within the line range.
    pub fn contains(&self, line: usize) -> (r: bool)
        ensures
            r == self.spec_contains(line as int),
    {
        line >= self.start && line < self.end
    }
}

/// A non-empty range contains its first and last line and not its end.
pub proof fn law_line_range_boundaries(r: LineRange)
    requires
        r.start < r.end,
    ensures
        r.spec_contains(r.start as int),
        r.spec_contains(r.end - 1),
        !r.spec_contains(r.end as int),
        forall|line: int| #[trigger] r.spec_contains(line) == (r.start <= line < r.end),
{
}

/// The possible branches of one decision point.
#[derive(Clone, Debug, PartialEq, Eq)]
pub struct Branches {
    /// Line ranges for each arm of the decision point.
    pub ranges: Vec<LineRange>,
    /// Whether there is an implicit or empty default arm, i.e. a missing or
    /// empty `else` of an `if`.
    pub implicit_default: bool,
}

/// Some line of `range` was hit in file `f` of `m`.
pub open spec fn arm_taken(m: Map<crate::traces::TraceKey, u64>, f: Seq<char>, range: LineRange) -> bool {
    exists|l: usize| range.start <= l < range.end && #[trigger] line_hit(m, f, l)
}

/// How many of `ranges` were taken in file `f` of `m`.
pub open spec fn count_taken(
    m: Map<crate::traces::TraceKey, u64>,
    f: Seq<char>,
    ranges: Seq<LineRange>,
) -> nat
    decreases ranges.len(),
{
    if ranges.len() == 0 {
        0
    } else {
        count_taken(m, f, ranges.drop_last()) + if arm_taken(m, f, ranges.last()) {
            1nat
        } else {
            0nat
        }
    }
}

/// Whether some line of `range` of `file` was hit.
pub fn is_arm_taken(traces: &TraceMap, file: &String, range: LineRange) -> (r: bool)
    requires
        traces.wf(),
    ensures
        r == arm_taken(traces@, file@, range),
{
    let mut l: usize = range.start;
    while l < range.end
        invariant
            traces.wf(),
            range.start <= l,
            forall|x: usize| range.start <= x < l ==> !#[trigger] line_hit(traces@, file@, x),
        decreases range.end - l,
    {
        if traces.is_line_hit(file, l) {
            assert(line_hit(traces@, file@, l));
            return true;
        }
        l = l + 1;
    }
    false
}

impl Branches {
    /// How many explicit arms were taken in `file`: an arm is taken where
    /// one of its lines was hit.
    pub fn taken_count(&self, traces: &TraceMap, file: &String) -> (r: usize)
        requires
            traces.wf(),
        ensures
            r == count_taken(traces@, file@, self.ranges@),
    {
        let mut count: usize = 0;
        let mut i: usize = 0;
        while i < self.ranges.len()
            invariant
                traces.wf(),
                i <= self.ranges@.len(),
                count == count_taken(traces@, file@, self.ranges@.take(i as int)),
                count <= i,
            decreases self.ranges@.len() - i,
        {
            let t = is_arm_taken(traces, file, self.ranges[i]);
            proof {
                let pre = self.ranges@.take(i as int);
                assert(self.ranges@.take(i + 1).drop_last() == pre);
                assert(self.ranges@.take(i + 1).last() == self.ranges@[i as int]);
            }
            if t {
                count = count + 1;
            }
            i = i + 1;
        }
        assert(self.ranges@.take(self.ranges@.len() as int) == self.ranges@);
        count
    }

    pub fn new(ranges: Vec<LineRange>, implicit_default: bool) -> (r: Branches)
        ensures
            r.ranges@ == ranges@,
            r.implicit_default == implicit_default,
    {
        Branches { ranges, implicit_default }
    }

    /// Number of arms, counting the implicit default arm if there is one.
    pub fn arm_count(&self) -> (r: usize)
        requires
            self.ranges@.len() < usize::MAX,
        ensures
            r == self.ranges@.len() + if self.implicit_default { 1int } else { 0int },
    {
        if self.implicit_default {
            self.ranges.len() + 1
        } else {
            self.ranges.len()
        }
    }
}

/// Branch information of one source file: each statement that introduces a
/// decision point is keyed by its own line range.
#[derive(Clone, Debug)]
pub struct BranchAnalysis {
    branches: Vec<(LineRange, Branches)>,
}

impl View for BranchAnalysis {
    type V = Seq<(LineRange, Branches)>;

    closed spec fn view(&self) -> Seq<(LineRange, Branches)> {
        self.branches@
    }
}

/// True iff some key range of `entries` contains `line`.
pub open spec fn some_key_contains(entries: Seq<(LineRange, Branches)>, line: int) -> bool {
    exists|i: int| 0 <= i < entries.len() && (#[trigger] entries[i]).0.spec_contains(line)
}

/// True iff `k` is a key of `entries`.
pub open spec fn has_key(entries: Seq<(LineRange, Branches)>, k: LineRange) -> bool {
    exists|i: int| 0 <= i < entries.len() && (#[trigger] entries[i]).0 == k
}

impl BranchAnalysis {
    /// Keys are unique.
    pub open spec fn wf(self) -> bool {
        forall|i: int, j: int|
            0 <= i < j < self@.len() ==> (#[trigger] self@[i]).0 != (#[trigger] self@[j]).0
    }

    pub open spec fn spec_is_branch(self, line: int) -> bool {
        some_key_contains(self@, line)
    }

    /// An analysis with no branch statements.
    pub fn new() -> (r: BranchAnalysis)
        ensures
            r.wf(),
            r@.len() == 0,
    {
        BranchAnalysis { branches: Vec::new() }
    }

    /// Registers the branches of the statement spanning `range`, replacing
    /// those already registered under the same range.
    pub fn insert(&mut self, range: LineRange, branches: Branches)
        requires
            old(self).wf(),
        ensures
            final(self).wf(),
            exists|i: int|
                0 <= i < final(self)@.len() && #[trigger] final(self)@[i] == (range, branches),
            forall|k: LineRange|
                #[trigger] has_key(final(self)@, k) <==> (k == range || has_key(old(self)@, k)),
            forall|line: int|
                #[trigger] final(self).spec_is_branch(line) <==> (range.spec_contains(line)
                    || old(self).spec_is_branch(line)),
    {
        let n = self.branches.len();
        let mut i: usize = 0;
        while i < n
            invariant
                n == self.branches@.len(),
                *self == *old(self),
                old(self).wf(),
                i <= n,
                forall|j: int| 0 <= j < i ==> (#[trigger] self.branches@[j]).0 != range,
            decreases n - i,
        {
            if self.branches[i].0 == range {
                assert(old(self)@[i as int].0 == range);
                self.branches.set(i, (range, branches));
                assert(self@[i as int] == (range, branches));
                assert forall|line: int|
                    #[trigger] self.spec_is_branch(line) <==> (range.spec_contains(line)
                        || old(self).spec_is_branch(line)) by {
                    if old(self).spec_is_branch(line) {
                        let j = choose|j: int|
                            0 <= j < old(self)@.len() && (#[trigger] old(self)@[j]).0.spec_contains(line);
                        if j != i {
                            assert(self@[j] == old(self)@[j]);
                        }
                    }
                    if self.spec_is_branch(line) {
                        let j = choose|j: int|
                            0 <= j < self@.len() && (#[trigger] self@[j]).0.spec_contains(line);
                        if j != i {
                            assert(self@[j] == old(self)@[j]);
                        }
                    }
                }
                assert forall|k: LineRange|
                    #[trigger] has_key(self@, k) <==> (k == range || has_key(old(self)@, k)) by {
                    if exists|j: int| 0 <= j < old(self)@.len() && (#[trigger] old(self)@[j]).0 == k {
                        let j = choose|j: int| 0 <= j < old(self)@.len() && (#[trigger] old(self)@[j]).0 == k;
                        assert(self@[j].0 == k);
                    }
                    if k == range {
                        assert(self@[i as int].0 == k);
                    }
                    if exists|a: int| 0 <= a < self@.len() && (#[trigger] self@[a]).0 == k {
                        let a = choose|a: int| 0 <= a < self@.len() && (#[trigger] self@[a]).0 == k;
                        if a != i {
                            assert(old(self)@[a].0 == k);
                        }
                    }
                }
                assert forall|a: int, b: int| 0 <= a < b < self@.len() implies (#[trigger] self@[a]).0
                    != (#[trigger] self@[b]).0 by {
                    assert(self@[a].0 == old(self)@[a].0);
                    assert(self@[b].0 == old(self)@[b].0);
                    assert(old(self)@[a].0 != old(self)@[b].0);
                }
                return;
            }
            i = i + 1;
        }
        self.branches.push((range, branches));
        assert(self@[n as int] == (range, branches));
        assert forall|line: int|
            #[trigger] self.spec_is_branch(line) <==> (range.spec_contains(line)
                || old(self).spec_is_branch(line)) by {
            if old(self).spec_is_branch(line) {
                let j = choose|j: int|
                    0 <= j < old(self)@.len() && (#[trigger] old(self)@[j]).0.spec_contains(line);
                assert(self@[j] == old(self)@[j]);
            }
            if self.spec_is_branch(line) {
                let j = choose|j: int| 0 <= j < self@.len() && (#[trigger] self@[j]).0.spec_contains(line);
                if j != n {
                    assert(self@[j] == old(self)@[j]);
                }
            }
        }
        assert forall|k: LineRange|
            #[trigger] has_key(self@, k) <==> (k == range || has_key(old(self)@, k)) by {
            if exists|j: int| 0 <= j < old(self)@.len() && (#[trigger] old(self)@[j]).0 == k {
                let j = choose|j: int| 0 <= j < old(self)@.len() && (#[trigger] old(self)@[j]).0 == k;
                assert(self@[j].0 == k);
            }
            if exists|a: int| 0 <= a < self@.len() && (#[trigger] self@[a]).0 == k {
                let a = choose|a: int| 0 <= a < self@.len() && (#[trigger] self@[a]).0 == k;
                if a != n {
                    assert(old(self)@[a].0 == k);
                }
            }
        }
    }

    /// Builds the analysis of a file from its branch statements.
    pub fn from_statements(statements: Vec<(LineRange, Branches)>) -> (r: BranchAnalysis)
        ensures
            r.wf(),
            forall|line: int|
                #[trigger] r.spec_is_branch(line) <==> some_key_contains(statements@, line),
    {
        let mut r = BranchAnalysis::new();
        let mut i: usize = 0;
        while i < statements.len()
            invariant
                r.wf(),
                i <= statements@.len(),
                forall|line: int|
                    #[trigger] r.spec_is_branch(line) <==> some_key_contains(
                        statements@.take(i as int),
                        line,
                    ),
            decreases statements@.len() - i,
        {
            let (range, b) = (statements[i].0, statements[i].1.clone());
            r.insert(range, b);
            assert forall|line: int|
                #[trigger] r.spec_is_branch(line) <==> some_key_contains(
                    statements@.take(i + 1),
                    line,
                ) by {
                let pre = statements@.take(i as int);
                let post = statements@.take(i + 1);
                if some_key_contains(pre, line) {
                    let j = choose|j: int| 0 <= j < pre.len() && (#[trigger] pre[j]).0.spec_contains(line);
                    assert(post[j] == pre[j]);
                }
                if range.spec_contains(line) {
                    assert(post[i as int].0 == range);
                }
                if some_key_contains(post, line) {
                    let j = choose|j: int| 0 <= j < post.len() && (#[trigger] post[j]).0.spec_contains(line);
                    if j < i {
                        assert(post[j] == pre[j]);
                    }
                }
            }
            i = i + 1;
        }
        assert(statements@.take(statements@.len() as int) == statements@);
        r
    }

    /// Returns true if the line is part of a branch statement.
    pub fn is_branch(&self, line: usize) -> (r: bool)
        ensures
            r == self.spec_is_branch(line as int),
    {
        let mut i: usize = 0;
        while i < self.branches.len()
            invariant
                i <= self@.len(),
                forall|j: int| 0 <= j < i ==> !(#[trigger] self@[j]).0.spec_contains(line as int),
            decreases self@.len() - i,
        {
            if self.branches[i].0.contains(line) {
                assert(self@[i as int].0.spec_contains(line as int));
                return true;
            }
            i = i + 1;
        }
        false
    }

    /// The branches registered for exactly the statement `range`, if any.
    pub fn get(&self, range: LineRange) -> (r: Option<&Branches>)
        requires
            self.wf(),
        ensures
            r is None <==> (forall|i: int| 0 <= i < self@.len() ==> (#[trigger] self@[i]).0 != range),
            r matches Some(b) ==> exists|i: int|
                0 <= i < self@.len() && #[trigger] self@[i] == (range, *b),
    {
        let mut i: usize = 0;
        while i < self.branches.len()
            invariant
                i <= self@.len(),
                forall|j: int| 0 <= j < i ==> (#[trigger] self@[j]).0 != range,
            decreases self@.len() - i,
        {
            if self.branches[i].0 == range {
                assert(self@[i as int] == (range, self.branches@[i as int].1));
                return Some(&self.branches[i].1);
            }
            i = i + 1;
        }
        None
    }
}

/// An analysis with no branch statements reports no line as a branch.
pub proof fn law_empty_analysis_has_no_branch(a: BranchAnalysis, line: int)
    requires
        a@.len() == 0,
    ensures
        !a.spec_is_branch(line),
{
}

/// Branch information of every analysed source file, keyed by the file's path.
#[derive(Clone, Debug)]
pub struct BranchContext {
    files: Vec<(String, BranchAnalysis)>,
}

impl View for BranchContext {
    type V = Seq<(Seq<char>, BranchAnalysis)>;

    closed spec fn view(&self) -> Seq<(Seq<char>, BranchAnalysis)> {
        self.files@.map_values(|e: (String, BranchAnalysis)| (e.0@, e.1))
    }
}

impl BranchContext {
    /// Paths are unique.
    pub open spec fn wf(self) -> bool {
        forall|i: int, j: int|
            0 <= i < j < self@.len() ==> (#[trigger] self@[i]).0 != (#[trigger] self@[j]).0
    }

    /// True iff the analysis of the file `path` has a branch statement
    /// containing `line`.
    pub open spec fn spec_is_branch(self, path: Seq<char>, line: int) -> bool {
        exists|i: int|
            0 <= i < self@.len() && (#[trigger] self@[i]).0 == path && self@[i].1.spec_is_branch(
                line,
            )
    }

    /// A context that knows no file.
    pub fn new() -> (r: BranchContext)
        ensures
            r.wf(),
            r@.len() == 0,
    {
        BranchContext { files: Vec::new() }
    }

    /// Records the analysis of the file `path`, replacing any earlier one.
    pub fn insert(&mut self, path: String, analysis: BranchAnalysis)
        requires
            old(self).wf(),
        ensures
            final(self).wf(),
            forall|p: Seq<char>, line: int|
                #[trigger] final(self).spec_is_branch(p, line) <==> if p == path@ {
                    analysis.spec_is_branch(line)
                } else {
                    old(self).spec_is_branch(p, line)
                },
    {
        let n = self.files.len();
        let mut i: usize = 0;
        while i < n
            invariant
                n == self.files@.len(),
                *self == *old(self),
                old(self).wf(),
                i <= n,
                forall|j: int| 0 <= j < i ==> (#[trigger] self@[j]).0 != path@,
            decreases n - i,
        {
            if self.files[i].0 == path {
                assert(old(self)@[i as int].0 == path@);
                let ghost p = path@;
                self.files.set(i, (path, analysis));
                assert(self@[i as int] == (p, analysis));
                assert forall|a: int, b: int| 0 <= a < b < self@.len() implies (#[trigger] self@[a]).0
                    != (#[trigger] self@[b]).0 by {
                    assert(self@[a].0 == old(self)@[a].0);
                    assert(self@[b].0 == old(self)@[b].0);
                    assert(old(self)@[a].0 != old(self)@[b].0);
                }
                assert forall|q: Seq<char>, line: int|
                    #[trigger] self.spec_is_branch(q, line) <==> if q == p {
                        analysis.spec_is_branch(line)
                    } else {
                        old(self).spec_is_branch(q, line)
                    } by {
                    if self.spec_is_branch(q, line) {
                        let j = choose|j: int|
                            0 <= j < self@.len() && (#[trigger] self@[j]).0 == q
                                && self@[j].1.spec_is_branch(line);
                        if j != i {
                            assert(self@[j] == old(self)@[j]);
                            assert(old(self)@[j].0 != old(self)@[i as int].0);
                        }
                    }
                    if old(self).spec_is_branch(q, line) && q != p {
                        let j = choose|j: int|
                            0 <= j < old(self)@.len() && (#[trigger] old(self)@[j]).0 == q
                                && old(self)@[j].1.spec_is_branch(line);
                        assert(self@[j] == old(self)@[j]);
                    }
                }
                return;
            }
            i = i + 1;
        }
        let ghost p = path@;
        self.files.push((path, analysis));
        assert(self@[n as int] == (p, analysis));
        assert forall|q: Seq<char>, line: int|
            #[trigger] self.spec_is_branch(q, line) <==> if q == p {
                analysis.spec_is_branch(line)
            } else {
                old(self).spec_is_branch(q, line)
            } by {
            if self.spec_is_branch(q, line) {
                let j = choose|j: int|
                    0 <= j < self@.len() && (#[trigger] self@[j]).0 == q && self@[j].1.spec_is_branch(
                        line,
                    );
                if j != n {
                    assert(self@[j] == old(self)@[j]);
                }
            }
            if old(self).spec_is_branch(q, line) && q != p {
                let j = choose|j: int|
                    0 <= j < old(self)@.len() && (#[trigger] old(self)@[j]).0 == q
                        && old(self)@[j].1.spec_is_branch(line);
                assert(self@[j] == old(self)@[j]);
            }
        }
        assert forall|a: int, b: int| 0 <= a < b < self@.len() implies (#[trigger] self@[a]).0
            != (#[trigger] self@[b]).0 by {
            assert(self@[a].0 == old(self)@[a].0);
            if b < n {
                assert(self@[b].0 == old(self)@[b].0);
            }
        }
    }

    /// Returns true if `line` of the file `path` is part of a branch
    /// statement; a file without analysis has no branches.
    pub fn is_branch(&self, path: &String, line: usize) -> (r: bool)
        ensures
            r == self.spec_is_branch(path@, line as int),
    {
        let mut i: usize = 0;
        while i < self.files.len()
            invariant
                i <= self@.len(),
                forall|j: int|
                    0 <= j < i ==> !((#[trigger] self@[j]).0 == path@ && self@[j].1.spec_is_branch(
                        line as int,
                    )),
            decreases self@.len() - i,
        {
            if self.files[i].0 == *path {
                if self.files[i].1.is_branch(line) {
                    assert(self@[i as int].0 == path@);
                    return true;
                }
            }
            assert(self@[i as int] == (self.files@[i as int].0@, self.files@[i as int].1));
            i = i + 1;
        }
        false
    }
}

} // verus!
