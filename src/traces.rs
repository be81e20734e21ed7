use vstd::prelude::*;

verus! {

/// One coverage record: a source coordinate, the address it was instrumented
/// at (if any) and how often it was hit.
#[derive(Clone, Debug, PartialEq, Eq)]
pub struct Trace {
    pub file: String,
    pub line: usize,
    pub address: Option<u64>,
    pub hits: u64,
}

/// What identifies a trace when maps are merged: file, line and address.
pub type TraceKey = (Seq<char>, usize, Option<u64>);

pub open spec fn key_of(t: Trace) -> TraceKey {
    (t.file@, t.line, t.address)
}

/// `a + b`, capped at `u64::MAX`.
pub open spec fn sat_add(a: u64, b: u64) -> u64 {
    if a + b > u64::MAX {
        u64::MAX
    } else {
        (a + b) as u64
    }
}

/// No two traces of `s` share a key.
pub open spec fn unique_keys(s: Seq<Trace>) -> bool {
    forall|i: int, j: int| 0 <= i < j < s.len() ==> key_of(#[trigger] s[i]) != key_of(#[trigger] s[j])
}

pub open spec fn has_trace_key(s: Seq<Trace>, k: TraceKey) -> bool {
    exists|i: int| 0 <= i < s.len() && #[trigger] key_of(s[i]) == k
}

/// The hit count of each key of `s`.
pub open spec fn hits_map(s: Seq<Trace>) -> Map<TraceKey, u64> {
    Map::new(
        |k: TraceKey| has_trace_key(s, k),
        |k: TraceKey| s[choose|i: int| 0 <= i < s.len() && #[trigger] key_of(s[i]) == k].hits,
    )
}

/// Adds `h` hits to key `k` of `m`, inserting the key if it is new.
pub open spec fn add_hits(m: Map<TraceKey, u64>, k: TraceKey, h: u64) -> Map<TraceKey, u64> {
    if m.contains_key(k) {
        m.insert(k, sat_add(m[k], h))
    } else {
        m.insert(k, h)
    }
}

/// The union of the keys of `a` and `b`; hit counts of shared keys are summed.
pub open spec fn merge_maps(a: Map<TraceKey, u64>, b: Map<TraceKey, u64>) -> Map<TraceKey, u64> {
    Map::new(
        |k: TraceKey| a.contains_key(k) || b.contains_key(k),
        |k: TraceKey|
            if a.contains_key(k) && b.contains_key(k) {
                sat_add(a[k], b[k])
            } else if a.contains_key(k) {
                a[k]
            } else {
                b[k]
            },
    )
}

/// Some trace of `m` was instrumented at `address`.
pub open spec fn has_address(m: Map<TraceKey, u64>, address: u64) -> bool {
    exists|k: TraceKey| #[trigger] m.contains_key(k) && k.2 == Some(address)
}

/// Some trace of `m` stands at line `l` of file `f`.
pub open spec fn line_present(m: Map<TraceKey, u64>, f: Seq<char>, l: usize) -> bool {
    exists|a: Option<u64>| #[trigger] m.contains_key((f, l, a))
}

/// Some trace of `m` at line `l` of file `f` was hit at least once.
pub open spec fn line_hit(m: Map<TraceKey, u64>, f: Seq<char>, l: usize) -> bool {
    exists|a: Option<u64>| #[trigger] m.contains_key((f, l, a)) && m[(f, l, a)] > 0
}

/// One trace per source line, without address, whose count is 1 if any
/// trace of that line in `m` was hit and 0 otherwise.
pub open spec fn dedup_map(m: Map<TraceKey, u64>) -> Map<TraceKey, u64> {
    Map::new(
        |k: TraceKey| k.2 is None && line_present(m, k.0, k.1),
        |k: TraceKey|
            if line_hit(m, k.0, k.1) {
                1u64
            } else {
                0u64
            },
    )
}

/// Folds `h` hits of line `l` of file `f` into a deduplicated map.
pub open spec fn dedup_step(d: Map<TraceKey, u64>, f: Seq<char>, l: usize, h: u64) -> Map<
    TraceKey,
    u64,
> {
    if d.contains_key((f, l, None)) {
        if h > 0 {
            d.insert((f, l, None), 1u64)
        } else {
            d
        }
    } else {
        d.insert((f, l, None), if h > 0 { 1u64 } else { 0u64 })
    }
}

/// Every trace instrumented at `address` gains one hit.
pub open spec fn bump_address(m: Map<TraceKey, u64>, address: u64) -> Map<TraceKey, u64> {
    Map::new(
        |k: TraceKey| m.contains_key(k),
        |k: TraceKey|
            if k.2 == Some(address) {
                sat_add(m[k], 1)
            } else {
                m[k]
            },
    )
}

proof fn lemma_hits_at(s: Seq<Trace>, i: int)
    requires
        unique_keys(s),
        0 <= i < s.len(),
    ensures
        hits_map(s).contains_key(key_of(s[i])),
        hits_map(s)[key_of(s[i])] == s[i].hits,
{
    let k = key_of(s[i]);
    assert(has_trace_key(s, k));
    let j = choose|j: int| 0 <= j < s.len() && #[trigger] key_of(s[j]) == k;
    if j != i {
        if j < i {
            assert(key_of(s[j]) != key_of(s[i]));
        } else {
            assert(key_of(s[i]) != key_of(s[j]));
        }
    }
}

proof fn lemma_hits_update(s: Seq<Trace>, i: int, t: Trace)
    requires
        unique_keys(s),
        0 <= i < s.len(),
        key_of(t) == key_of(s[i]),
    ensures
        unique_keys(s.update(i, t)),
        hits_map(s.update(i, t)) == hits_map(s).insert(key_of(t), t.hits),
{
    let s2 = s.update(i, t);
    assert forall|a: int, b: int| 0 <= a < b < s2.len() implies key_of(#[trigger] s2[a]) != key_of(
        #[trigger] s2[b],
    ) by {
        assert(key_of(s2[a]) == key_of(s[a]));
        assert(key_of(s2[b]) == key_of(s[b]));
        assert(key_of(s[a]) != key_of(s[b]));
    }
    let m = hits_map(s).insert(key_of(t), t.hits);
    assert forall|k: TraceKey| #[trigger] has_trace_key(s2, k) == m.contains_key(k) by {
        if has_trace_key(s2, k) {
            let j = choose|j: int| 0 <= j < s2.len() && #[trigger] key_of(s2[j]) == k;
            assert(key_of(s[j]) == k);
            assert(has_trace_key(s, k));
        }
        if has_trace_key(s, k) {
            let j = choose|j: int| 0 <= j < s.len() && #[trigger] key_of(s[j]) == k;
            assert(key_of(s2[j]) == k);
        }
    }
    assert forall|k: TraceKey| #[trigger] m.contains_key(k) implies hits_map(s2)[k] == m[k] by {
        assert(has_trace_key(s2, k));
        let j = choose|j: int| 0 <= j < s2.len() && #[trigger] key_of(s2[j]) == k;
        lemma_hits_at(s2, j);
        if j != i {
            lemma_hits_at(s, j);
        }
    }
    assert(hits_map(s2) =~= m);
}

proof fn lemma_hits_push(s: Seq<Trace>, t: Trace)
    requires
        unique_keys(s),
        !hits_map(s).contains_key(key_of(t)),
    ensures
        unique_keys(s.push(t)),
        hits_map(s.push(t)) == hits_map(s).insert(key_of(t), t.hits),
{
    let s2 = s.push(t);
    let n = s.len() as int;
    assert forall|a: int, b: int| 0 <= a < b < s2.len() implies key_of(#[trigger] s2[a]) != key_of(
        #[trigger] s2[b],
    ) by {
        assert(s2[a] == s[a]);
        if b < n {
            assert(s2[b] == s[b]);
        } else {
            assert(!has_trace_key(s, key_of(t)));
        }
    }
    let m = hits_map(s).insert(key_of(t), t.hits);
    assert forall|k: TraceKey| #[trigger] has_trace_key(s2, k) == m.contains_key(k) by {
        if has_trace_key(s2, k) {
            let j = choose|j: int| 0 <= j < s2.len() && #[trigger] key_of(s2[j]) == k;
            if j < n {
                assert(s2[j] == s[j]);
                assert(has_trace_key(s, k));
            }
        }
        if has_trace_key(s, k) {
            let j = choose|j: int| 0 <= j < s.len() && #[trigger] key_of(s[j]) == k;
            assert(s2[j] == s[j]);
        }
        if k == key_of(t) {
            assert(key_of(s2[n]) == k);
        }
    }
    assert forall|k: TraceKey| #[trigger] m.contains_key(k) implies hits_map(s2)[k] == m[k] by {
        assert(has_trace_key(s2, k));
        let j = choose|j: int| 0 <= j < s2.len() && #[trigger] key_of(s2[j]) == k;
        lemma_hits_at(s2, j);
        if j < n {
            assert(s2[j] == s[j]);
            lemma_hits_at(s, j);
        }
    }
    assert(hits_map(s2) =~= m);
}

proof fn lemma_merge_insert(a: Map<TraceKey, u64>, b: Map<TraceKey, u64>, k: TraceKey, h: u64)
    requires
        !b.contains_key(k),
    ensures
        merge_maps(a, b.insert(k, h)) == add_hits(merge_maps(a, b), k, h),
{
    assert(merge_maps(a, b.insert(k, h)) =~= add_hits(merge_maps(a, b), k, h));
}

proof fn lemma_dedup_insert(m: Map<TraceKey, u64>, k: TraceKey, h: u64)
    requires
        !m.contains_key(k),
    ensures
        dedup_map(m.insert(k, h)) == dedup_step(dedup_map(m), k.0, k.1, h),
{
    let m2 = m.insert(k, h);
    let lhs = dedup_map(m2);
    let rhs = dedup_step(dedup_map(m), k.0, k.1, h);
    assert(m2.contains_key((k.0, k.1, k.2)));
    assert forall|q: TraceKey| #[trigger] lhs.contains_key(q) == rhs.contains_key(q) by {
        if line_present(m, q.0, q.1) {
            let a = choose|a: Option<u64>| #[trigger] m.contains_key((q.0, q.1, a));
            assert(m2.contains_key((q.0, q.1, a)));
        }
        if line_present(m2, q.0, q.1) && (q.0, q.1) != (k.0, k.1) {
            let a = choose|a: Option<u64>| #[trigger] m2.contains_key((q.0, q.1, a));
            assert(m.contains_key((q.0, q.1, a)));
        }
    }
    assert forall|q: TraceKey| #[trigger] lhs.contains_key(q) implies lhs[q] == rhs[q] by {
        if line_hit(m, q.0, q.1) {
            let a = choose|a: Option<u64>|
                #[trigger] m.contains_key((q.0, q.1, a)) && m[(q.0, q.1, a)] > 0;
            assert(m2.contains_key((q.0, q.1, a)) && m2[(q.0, q.1, a)] > 0);
            assert(line_present(m, q.0, q.1));
        }
        if line_hit(m2, q.0, q.1) {
            let a = choose|a: Option<u64>|
                #[trigger] m2.contains_key((q.0, q.1, a)) && m2[(q.0, q.1, a)] > 0;
            if (q.0, q.1, a) != k {
                assert(m.contains_key((q.0, q.1, a)) && m[(q.0, q.1, a)] > 0);
            }
        }
        if (q.0, q.1) == (k.0, k.1) && h > 0 {
            assert(m2.contains_key((q.0, q.1, k.2)) && m2[(q.0, q.1, k.2)] > 0);
        }
        if line_present(m, q.0, q.1) {
            let a = choose|a: Option<u64>| #[trigger] m.contains_key((q.0, q.1, a));
            assert(m2.contains_key((q.0, q.1, a)));
        }
    }
    assert(lhs =~= rhs);
}

fn copy_trace(t: &Trace) -> (r: Trace)
    ensures
        r == *t,
{
    Trace { file: t.file.clone(), line: t.line, address: t.address, hits: t.hits }
}

fn same_key(a: &Trace, b: &Trace) -> (r: bool)
    ensures
        r == (key_of(*a) == key_of(*b)),
{
    let same_address = match (a.address, b.address) {
        (Some(x), Some(y)) => x == y,
        (None, None) => true,
        _ => false,
    };
    a.line == b.line && same_address && a.file == b.file
}

/// The coverage collected over one or more runs.
#[derive(Clone, Debug)]
pub struct TraceMap {
    traces: Vec<Trace>,
}

impl View for TraceMap {
    type V = Map<TraceKey, u64>;

    closed spec fn view(&self) -> Map<TraceKey, u64> {
        hits_map(self.traces@)
    }
}

impl TraceMap {
    /// Keys are unique.
    pub closed spec fn wf(self) -> bool {
        unique_keys(self.traces@)
    }

    /// An empty map.
    pub fn new() -> (r: TraceMap)
        ensures
            r.wf(),
            r@ == Map::<TraceKey, u64>::empty(),
    {
        let r = TraceMap { traces: Vec::new() };
        assert(r@ =~= Map::<TraceKey, u64>::empty());
        r
    }

    /// Adds a trace: its hits are summed into those of the trace with the
    /// same key, or it is inserted if there is none.
    pub fn add_trace(&mut self, t: Trace)
        requires
            old(self).wf(),
        ensures
            final(self).wf(),
            final(self)@ == add_hits(old(self)@, key_of(t), t.hits),
    {
        let n = self.traces.len();
        let mut i: usize = 0;
        while i < n
            invariant
                n == self.traces@.len(),
                *self == *old(self),
                old(self).wf(),
                i <= n,
                forall|j: int| 0 <= j < i ==> key_of(#[trigger] self.traces@[j]) != key_of(t),
            decreases n - i,
        {
            if same_key(&self.traces[i], &t) {
                let h = self.traces[i].hits.saturating_add(t.hits);
                let u = Trace { file: t.file, line: t.line, address: t.address, hits: h };
                proof {
                    lemma_hits_at(self.traces@, i as int);
                    lemma_hits_update(self.traces@, i as int, u);
                }
                self.traces.set(i, u);
                return;
            }
            i = i + 1;
        }
        proof {
            if has_trace_key(self.traces@, key_of(t)) {
                let j = choose|j: int|
                    0 <= j < self.traces@.len() && #[trigger] key_of(self.traces@[j]) == key_of(t);
                assert(key_of(self.traces@[j]) != key_of(t));
            }
            lemma_hits_push(self.traces@, t);
        }
        self.traces.push(t);
    }

    /// Merges `other` into this map: hit counts of shared keys are summed and
    /// the other keys are inserted.
    pub fn merge(&mut self, other: &TraceMap)
        requires
            old(self).wf(),
            other.wf(),
        ensures
            final(self).wf(),
            final(self)@ == merge_maps(old(self)@, other@),
    {
        let n = other.traces.len();
        let mut j: usize = 0;
        proof {
            assert(hits_map(other.traces@.take(0)) =~= Map::<TraceKey, u64>::empty());
            assert(merge_maps(old(self)@, Map::<TraceKey, u64>::empty()) =~= old(self)@);
        }
        while j < n
            invariant
                n == other.traces@.len(),
                other.wf(),
                self.wf(),
                j <= n,
                self@ == merge_maps(old(self)@, hits_map(other.traces@.take(j as int))),
            decreases n - j,
        {
            let t = copy_trace(&other.traces[j]);
            proof {
                let pre = other.traces@.take(j as int);
                assert(other.traces@.take(j + 1) == pre.push(t));
                assert(unique_keys(pre));
                if has_trace_key(pre, key_of(t)) {
                    let a = choose|a: int| 0 <= a < pre.len() && #[trigger] key_of(pre[a]) == key_of(t);
                    assert(key_of(other.traces@[a]) != key_of(other.traces@[j as int]));
                }
                lemma_hits_push(pre, t);
                lemma_merge_insert(old(self)@, hits_map(pre), key_of(t), t.hits);
            }
            self.add_trace(t);
            j = j + 1;
        }
        proof {
            assert(other.traces@.take(n as int) == other.traces@);
        }
    }

    /// Folds `h` hits of line `line` of `file` into this deduplicated map.
    fn fold_line(&mut self, file: String, line: usize, h: u64)
        requires
            old(self).wf(),
        ensures
            final(self).wf(),
            final(self)@ == dedup_step(old(self)@, file@, line, h),
    {
        let ghost file_view = file@;
        let probe = Trace { file: file.clone(), line, address: None, hits: if h > 0 { 1 } else { 0 } };
        let n = self.traces.len();
        let mut i: usize = 0;
        while i < n
            invariant
                n == self.traces@.len(),
                *self == *old(self),
                old(self).wf(),
                i <= n,
                key_of(probe) == (file_view, line, None::<u64>),
                file@ == file_view,
                probe.hits == if h > 0 { 1u64 } else { 0u64 },
                forall|j: int| 0 <= j < i ==> key_of(#[trigger] self.traces@[j]) != key_of(probe),
            decreases n - i,
        {
            if same_key(&self.traces[i], &probe) {
                proof {
                    lemma_hits_at(self.traces@, i as int);
                }
                if h > 0 {
                    proof {
                        lemma_hits_update(self.traces@, i as int, probe);
                    }
                    self.traces.set(i, probe);
                }
                return;
            }
            i = i + 1;
        }
        proof {
            if has_trace_key(self.traces@, key_of(probe)) {
                let j = choose|j: int|
                    0 <= j < self.traces@.len() && #[trigger] key_of(self.traces@[j]) == key_of(probe);
                assert(key_of(self.traces@[j]) != key_of(probe));
            }
            lemma_hits_push(self.traces@, probe);
        }
        self.traces.push(probe);
    }

    /// Collapses the traces of each source line into one trace without
    /// address, counted 1 if any of them was hit and 0 otherwise.
    pub fn dedup(&mut self)
        requires
            old(self).wf(),
        ensures
            final(self).wf(),
            final(self)@ == dedup_map(old(self)@),
    {
        let mut r = TraceMap::new();
        let n = self.traces.len();
        let mut j: usize = 0;
        proof {
            assert(hits_map(self.traces@.take(0)) =~= Map::<TraceKey, u64>::empty());
            assert(dedup_map(Map::<TraceKey, u64>::empty()) =~= Map::<TraceKey, u64>::empty());
        }
        while j < n
            invariant
                n == self.traces@.len(),
                *self == *old(self),
                old(self).wf(),
                r.wf(),
                j <= n,
                r@ == dedup_map(hits_map(self.traces@.take(j as int))),
            decreases n - j,
        {
            let t = &self.traces[j];
            proof {
                let pre = self.traces@.take(j as int);
                assert(self.traces@.take(j + 1) == pre.push(*t));
                assert(unique_keys(pre));
                if has_trace_key(pre, key_of(*t)) {
                    let a = choose|a: int| 0 <= a < pre.len() && #[trigger] key_of(pre[a]) == key_of(*t);
                    assert(key_of(self.traces@[a]) != key_of(self.traces@[j as int]));
                }
                lemma_hits_push(pre, *t);
                lemma_dedup_insert(hits_map(pre), key_of(*t), t.hits);
            }
            r.fold_line(t.file.clone(), t.line, t.hits);
            j = j + 1;
        }
        proof {
            assert(self.traces@.take(n as int) == self.traces@);
        }
        self.traces = r.traces;
    }

    /// Counts one hit of every trace instrumented at `address`.
    pub fn record_hit(&mut self, address: u64)
        requires
            old(self).wf(),
        ensures
            final(self).wf(),
            final(self)@ == bump_address(old(self)@, address),
    {
        let n = self.traces.len();
        let mut i: usize = 0;
        while i < n
            invariant
                n == self.traces@.len(),
                n == old(self).traces@.len(),
                old(self).wf(),
                i <= n,
                forall|j: int|
                    0 <= j < n ==> key_of(#[trigger] self.traces@[j]) == key_of(old(self).traces@[j]),
                forall|j: int|
                    0 <= j < n ==> (#[trigger] self.traces@[j]).hits == if j < i
                        && old(self).traces@[j].address == Some(address) {
                        sat_add(old(self).traces@[j].hits, 1)
                    } else {
                        old(self).traces@[j].hits
                    },
            decreases n - i,
        {
            let hit = match self.traces[i].address {
                Some(a) => a == address,
                None => false,
            };
            if hit {
                let t = &self.traces[i];
                let u = Trace {
                    file: t.file.clone(),
                    line: t.line,
                    address: t.address,
                    hits: t.hits.saturating_add(1),
                };
                self.traces.set(i, u);
            }
            i = i + 1;
        }
        proof {
            let s0 = old(self).traces@;
            let s1 = self.traces@;
            assert forall|a: int, b: int| 0 <= a < b < s1.len() implies key_of(#[trigger] s1[a])
                != key_of(#[trigger] s1[b]) by {
                assert(key_of(s0[a]) != key_of(s0[b]));
            }
            let m = bump_address(old(self)@, address);
            assert forall|k: TraceKey| #[trigger] has_trace_key(s1, k) == m.contains_key(k) by {
                if has_trace_key(s1, k) {
                    let j = choose|j: int| 0 <= j < s1.len() && #[trigger] key_of(s1[j]) == k;
                    assert(key_of(s0[j]) == k);
                }
                if has_trace_key(s0, k) {
                    let j = choose|j: int| 0 <= j < s0.len() && #[trigger] key_of(s0[j]) == k;
                    assert(key_of(s1[j]) == k);
                }
            }
            assert forall|k: TraceKey| #[trigger] m.contains_key(k) implies self@[k] == m[k] by {
                assert(has_trace_key(s1, k));
                let j = choose|j: int| 0 <= j < s1.len() && #[trigger] key_of(s1[j]) == k;
                lemma_hits_at(s1, j);
                assert(key_of(s0[j]) == k);
                lemma_hits_at(s0, j);
            }
            assert(self@ =~= m);
        }
    }

    /// The hit count of the trace with the given key, if there is one.
    pub fn get(&self, file: &String, line: usize, address: Option<u64>) -> (r: Option<u64>)
        requires
            self.wf(),
        ensures
            r == if self@.contains_key((file@, line, address)) {
                Some(self@[(file@, line, address)])
            } else {
                None::<u64>
            },
    {
        let probe = Trace { file: file.clone(), line, address, hits: 0 };
        let mut i: usize = 0;
        while i < self.traces.len()
            invariant
                i <= self.traces@.len(),
                self.wf(),
                key_of(probe) == (file@, line, address),
                forall|j: int| 0 <= j < i ==> key_of(#[trigger] self.traces@[j]) != key_of(probe),
            decreases self.traces@.len() - i,
        {
            if same_key(&self.traces[i], &probe) {
                proof {
                    lemma_hits_at(self.traces@, i as int);
                }
                return Some(self.traces[i].hits);
            }
            i = i + 1;
        }
        proof {
            if has_trace_key(self.traces@, key_of(probe)) {
                let j = choose|j: int|
                    0 <= j < self.traces@.len() && #[trigger] key_of(self.traces@[j]) == key_of(probe);
                assert(key_of(self.traces@[j]) != key_of(probe));
            }
        }
        None
    }

    /// Whether any trace of line `line` of `file` was hit at least once.
    pub fn is_line_hit(&self, file: &String, line: usize) -> (r: bool)
        requires
            self.wf(),
        ensures
            r == line_hit(self@, file@, line),
    {
        let mut i: usize = 0;
        while i < self.traces.len()
            invariant
                i <= self.traces@.len(),
                unique_keys(self.traces@),
                forall|j: int|
                    0 <= j < i ==> !((#[trigger] self.traces@[j]).file@ == file@
                        && self.traces@[j].line == line && self.traces@[j].hits > 0),
            decreases self.traces@.len() - i,
        {
            let t = &self.traces[i];
            if t.line == line && t.hits > 0 && t.file == *file {
                proof {
                    lemma_hits_at(self.traces@, i as int);
                    assert(self@.contains_key((file@, line, t.address)));
                }
                return true;
            }
            i = i + 1;
        }
        proof {
            if line_hit(self@, file@, line) {
                let a = choose|a: Option<u64>|
                    #[trigger] self@.contains_key((file@, line, a)) && self@[(file@, line, a)] > 0;
                let k = (file@, line, a);
                assert(has_trace_key(self.traces@, k));
                let j = choose|j: int|
                    0 <= j < self.traces@.len() && #[trigger] key_of(self.traces@[j]) == k;
                lemma_hits_at(self.traces@, j);
            }
        }
        false
    }

    /// The address of every trace that has one.
    pub fn instrumentation_addresses(&self) -> (r: Vec<u64>)
        requires
            self.wf(),
        ensures
            forall|k: TraceKey|
                #[trigger] self@.contains_key(k) && k.2 is Some ==> r@.contains(k.2->0),
            forall|j: int| 0 <= j < r@.len() ==> has_address(self@, #[trigger] r@[j]),
    {
        let mut r: Vec<u64> = Vec::new();
        let mut i: usize = 0;
        while i < self.traces.len()
            invariant
                i <= self.traces@.len(),
                self.wf(),
                forall|j: int|
                    0 <= j < i && (#[trigger] self.traces@[j]).address is Some ==> r@.contains(
                        self.traces@[j].address->0,
                    ),
                forall|j: int| 0 <= j < r@.len() ==> has_address(self@, #[trigger] r@[j]),
            decreases self.traces@.len() - i,
        {
            let ghost before = r@;
            match self.traces[i].address {
                Some(a) => {
                    proof {
                        lemma_hits_at(self.traces@, i as int);
                    }
                    r.push(a);
                    assert(r@[r@.len() - 1] == a);
                    assert forall|j: int| 0 <= j < r@.len() implies has_address(self@, #[trigger] r@[j]) by {
                        if j < before.len() {
                            assert(r@[j] == before[j]);
                        } else {
                            assert(self@.contains_key(key_of(self.traces@[i as int])));
                        }
                    }
                },
                None => {},
            }
            assert forall|j: int|
                0 <= j < i + 1 && (#[trigger] self.traces@[j]).address is Some implies r@.contains(
                    self.traces@[j].address->0,
                ) by {
                if j < i {
                    let x = choose|x: int| 0 <= x < before.len() && before[x] == self.traces@[j].address->0;
                    assert(r@[x] == before[x]);
                } else {
                    assert(r@[r@.len() - 1] == self.traces@[j].address->0);
                }
            }
            i = i + 1;
        }
        proof {
            assert forall|k: TraceKey|
                #[trigger] self@.contains_key(k) && k.2 is Some implies r@.contains(k.2->0) by {
                assert(has_trace_key(self.traces@, k));
                let j = choose|j: int| 0 <= j < self.traces@.len() && #[trigger] key_of(self.traces@[j]) == k;
            }
        }
        r
    }

    /// The traces, each key once, for read-only iteration.
    pub fn traces(&self) -> (r: &Vec<Trace>)
        requires
            self.wf(),
        ensures
            unique_keys(r@),
            hits_map(r@) == self@,
    {
        &self.traces
    }
}


/// Merging is commutative: `a` merged with `b` equals `b` merged with `a`.
pub proof fn law_merge_commutative(a: TraceMap, b: TraceMap)
    ensures
        merge_maps(a@, b@) == merge_maps(b@, a@),
{
    assert(merge_maps(a@, b@) =~= merge_maps(b@, a@));
}

/// Merging is associative, and the merged keys are the union of the keys.
pub proof fn law_merge_associative(a: TraceMap, b: TraceMap, c: TraceMap)
    ensures
        merge_maps(a@, merge_maps(b@, c@)) == merge_maps(merge_maps(a@, b@), c@),
        merge_maps(a@, merge_maps(b@, c@)).dom() == a@.dom() + b@.dom() + c@.dom(),
{
    let l = merge_maps(a@, merge_maps(b@, c@));
    let r = merge_maps(merge_maps(a@, b@), c@);
    assert forall|k: TraceKey| #[trigger] l.contains_key(k) implies l[k] == r[k] by {
        if a@.contains_key(k) && b@.contains_key(k) && c@.contains_key(k) {
            assert(sat_add(a@[k], sat_add(b@[k], c@[k])) == sat_add(sat_add(a@[k], b@[k]), c@[k]));
        }
    }
    assert(l =~= r);
    assert(l.dom() =~= a@.dom() + b@.dom() + c@.dom());
}

/// Merging two runs sums the hit counts of every key they share, so the
/// merged count is at least that of either run.
pub proof fn law_merge_sums_shared(a: TraceMap, b: TraceMap, k: TraceKey)
    requires
        a@.contains_key(k),
        b@.contains_key(k),
    ensures
        merge_maps(a@, b@).contains_key(k),
        merge_maps(a@, b@)[k] == sat_add(a@[k], b@[k]),
        merge_maps(a@, b@)[k] >= a@[k],
        merge_maps(a@, b@)[k] >= b@[k],
{
}

/// Deduplicating twice is the same as deduplicating once, and whether a line
/// was hit at least once is kept.
pub proof fn law_dedup_idempotent(m: TraceMap)
    ensures
        dedup_map(dedup_map(m@)) == dedup_map(m@),
        forall|f: Seq<char>, l: usize|
            #[trigger] line_hit(dedup_map(m@), f, l) == line_hit(m@, f, l),
        forall|f: Seq<char>, l: usize|
            #[trigger] line_present(dedup_map(m@), f, l) == line_present(m@, f, l),
{
    lemma_dedup_keeps_lines(m@);
    let d = dedup_map(m@);
    lemma_dedup_keeps_lines(d);
    assert(dedup_map(d) =~= d);
}

proof fn lemma_dedup_keeps_lines(m: Map<TraceKey, u64>)
    ensures
        forall|f: Seq<char>, l: usize|
            #[trigger] line_hit(dedup_map(m), f, l) == line_hit(m, f, l),
        forall|f: Seq<char>, l: usize|
            #[trigger] line_present(dedup_map(m), f, l) == line_present(m, f, l),
{
    let d = dedup_map(m);
    assert forall|f: Seq<char>, l: usize| #[trigger] line_present(d, f, l) == line_present(m, f, l) by {
        if line_present(m, f, l) {
            assert(d.contains_key((f, l, None)));
        }
        if line_present(d, f, l) {
            let a = choose|a: Option<u64>| #[trigger] d.contains_key((f, l, a));
        }
    }
    assert forall|f: Seq<char>, l: usize| #[trigger] line_hit(d, f, l) == line_hit(m, f, l) by {
        if line_hit(m, f, l) {
            let a = choose|a: Option<u64>| #[trigger] m.contains_key((f, l, a)) && m[(f, l, a)] > 0;
            assert(line_present(m, f, l));
            assert(d.contains_key((f, l, None)) && d[(f, l, None)] > 0);
        }
        if line_hit(d, f, l) {
            let a = choose|a: Option<u64>| #[trigger] d.contains_key((f, l, a)) && d[(f, l, a)] > 0;
        }
    }
}

/// Runs merged and then deduplicated: a line counts as hit iff either run hit
/// it, and no line is counted more than once.
pub proof fn law_merged_lines_union(a: TraceMap, b: TraceMap)
    ensures
        forall|f: Seq<char>, l: usize|
            #[trigger] line_hit(dedup_map(merge_maps(a@, b@)), f, l) == (line_hit(a@, f, l)
                || line_hit(b@, f, l)),
        forall|k: TraceKey|
            #[trigger] dedup_map(merge_maps(a@, b@)).contains_key(k) ==> dedup_map(
                merge_maps(a@, b@),
            )[k] <= 1,
{
    let m = merge_maps(a@, b@);
    lemma_dedup_keeps_lines(m);
    assert forall|f: Seq<char>, l: usize| #[trigger] line_hit(m, f, l) == (line_hit(a@, f, l)
        || line_hit(b@, f, l)) by {
        if line_hit(a@, f, l) {
            let x = choose|x: Option<u64>| #[trigger] a@.contains_key((f, l, x)) && a@[(f, l, x)] > 0;
            assert(m.contains_key((f, l, x)) && m[(f, l, x)] > 0);
        }
        if line_hit(b@, f, l) {
            let x = choose|x: Option<u64>| #[trigger] b@.contains_key((f, l, x)) && b@[(f, l, x)] > 0;
            assert(m.contains_key((f, l, x)) && m[(f, l, x)] > 0);
        }
        if line_hit(m, f, l) {
            let x = choose|x: Option<u64>| #[trigger] m.contains_key((f, l, x)) && m[(f, l, x)] > 0;
            if a@.contains_key((f, l, x)) && a@[(f, l, x)] > 0 {
            } else if b@.contains_key((f, l, x)) && b@[(f, l, x)] > 0 {
            } else {
                assert(false);
            }
        }
    }
}

} // verus!
