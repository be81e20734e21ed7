use crate::traces::{Trace, TraceKey, TraceMap};
use vstd::prelude::*;

verus! {

/// The coverable lines of one source file, each with the file offset of the
/// first instruction of that line.
#[derive(Clone, Debug)]
pub struct LineAnalysis {
    pub file: String,
    pub lines: Vec<(usize, u64)>,
}

/// Entry `j` of `analyses[i]`, relocated by `base`, lies in the address space.
pub open spec fn fits(analyses: Seq<LineAnalysis>, base: u64, i: int, j: int) -> bool {
    &&& 0 <= i < analyses.len()
    &&& 0 <= j < analyses[i].lines@.len()
    &&& base + analyses[i].lines@[j].1 <= u64::MAX
}

/// The key of the trace of entry `j` of `analyses[i]`, relocated by `base`.
pub open spec fn key_at(analyses: Seq<LineAnalysis>, base: u64, i: int, j: int) -> TraceKey {
    (
        analyses[i].file@,
        analyses[i].lines@[j].0,
        Some((base + analyses[i].lines@[j].1) as u64),
    )
}

/// Entry `j2` of file `i2` comes before entry `j` of file `i`.
pub open spec fn precedes(i2: int, j2: int, i: int, j: int) -> bool {
    i2 < i || (i2 == i && j2 < j)
}

/// Some entry before entry `j` of `analyses[i]` (in file order, then line
/// order) that fits has key `k`.
pub open spec fn key_before(
    analyses: Seq<LineAnalysis>,
    base: u64,
    i: int,
    j: int,
    k: TraceKey,
) -> bool {
    exists|i2: int, j2: int|
        precedes(i2, j2, i, j) && fits(analyses, base, i2, j2)
            && #[trigger] key_at(analyses, base, i2, j2) == k
}

/// The traces to collect for a process loaded at `base`: one per coverable
/// line and address, not yet hit. An entry whose relocated address would
/// not fit in the address space is left out.
pub fn generate_tracemap(analyses: &Vec<LineAnalysis>, base: u64) -> (r: TraceMap)
    ensures
        r.wf(),
        forall|k: TraceKey|
            #[trigger] r@.contains_key(k) <==> key_before(
                analyses@,
                base,
                analyses@.len() as int,
                0,
                k,
            ),
        forall|k: TraceKey| #[trigger] r@.contains_key(k) ==> r@[k] == 0,
{
    let mut r = TraceMap::new();
    let mut i: usize = 0;
    while i < analyses.len()
        invariant
            i <= analyses@.len(),
            r.wf(),
            forall|k: TraceKey|
                #[trigger] r@.contains_key(k) <==> key_before(analyses@, base, i as int, 0, k),
            forall|k: TraceKey| #[trigger] r@.contains_key(k) ==> r@[k] == 0,
        decreases analyses@.len() - i,
    {
        let a = &analyses[i];
        let mut j: usize = 0;
        assert forall|k: TraceKey|
            key_before(analyses@, base, i as int, 0, k) <==> key_before(
                analyses@,
                base,
                i as int,
                j as int,
                k,
            ) by {
            if key_before(analyses@, base, i as int, 0, k) {
                let (i2, j2) = choose|i2: int, j2: int|
                    precedes(i2, j2, i as int, 0) && fits(analyses@, base, i2, j2)
                        && #[trigger] key_at(analyses@, base, i2, j2) == k;
                assert(key_at(analyses@, base, i2, j2) == k);
            }
            if key_before(analyses@, base, i as int, j as int, k) {
                let (i2, j2) = choose|i2: int, j2: int|
                    precedes(i2, j2, i as int, j as int) && fits(analyses@, base, i2, j2)
                        && #[trigger] key_at(analyses@, base, i2, j2) == k;
                assert(key_at(analyses@, base, i2, j2) == k);
            }
        }
        while j < a.lines.len()
            invariant
                i < analyses@.len(),
                *a == analyses@[i as int],
                j <= a.lines@.len(),
                r.wf(),
                forall|k: TraceKey|
                    #[trigger] r@.contains_key(k) <==> key_before(
                        analyses@,
                        base,
                        i as int,
                        j as int,
                        k,
                    ),
                forall|k: TraceKey| #[trigger] r@.contains_key(k) ==> r@[k] == 0,
            decreases a.lines@.len() - j,
        {
            let (line, offset) = a.lines[j];
            let ghost before = r@;
            match base.checked_add(offset) {
                Some(address) => {
                    let t = Trace { file: a.file.clone(), line, address: Some(address), hits: 0 };
                    r.add_trace(t);
                    assert(key_at(analyses@, base, i as int, j as int) == (
                        a.file@,
                        line,
                        Some(address),
                    ));
                },
                None => {},
            }
            assert forall|k: TraceKey|
                #[trigger] r@.contains_key(k) <==> key_before(
                    analyses@,
                    base,
                    i as int,
                    j + 1,
                    k,
                ) by {
                if key_before(analyses@, base, i as int, j + 1, k) {
                    let (i2, j2) = choose|i2: int, j2: int|
                        precedes(i2, j2, i as int, j + 1) && fits(analyses@, base, i2, j2)
                            && #[trigger] key_at(analyses@, base, i2, j2) == k;
                    if i2 < i || j2 < j {
                        assert(key_before(analyses@, base, i as int, j as int, k));
                    }
                }
                if before.contains_key(k) {
                    let (i2, j2) = choose|i2: int, j2: int|
                        precedes(i2, j2, i as int, j as int) && fits(analyses@, base, i2, j2)
                            && #[trigger] key_at(analyses@, base, i2, j2) == k;
                    assert(key_at(analyses@, base, i2, j2) == k);
                }
                if r@.contains_key(k) && !before.contains_key(k) {
                    assert(fits(analyses@, base, i as int, j as int));
                    assert(key_at(analyses@, base, i as int, j as int) == k);
                }
            }
            j = j + 1;
        }
        assert forall|k: TraceKey|
            #[trigger] r@.contains_key(k) <==> key_before(analyses@, base, i + 1, 0, k) by {
            if key_before(analyses@, base, i + 1, 0, k) {
                let (i2, j2) = choose|i2: int, j2: int|
                    precedes(i2, j2, i + 1, 0) && fits(analyses@, base, i2, j2)
                        && #[trigger] key_at(analyses@, base, i2, j2) == k;
                assert(key_before(analyses@, base, i as int, j as int, k));
            }
            if key_before(analyses@, base, i as int, j as int, k) {
                let (i2, j2) = choose|i2: int, j2: int|
                    precedes(i2, j2, i as int, j as int) && fits(analyses@, base, i2, j2)
                        && #[trigger] key_at(analyses@, base, i2, j2) == k;
                assert(key_at(analyses@, base, i2, j2) == k);
            }
        }
        i = i + 1;
    }
    r
}

} // verus!
