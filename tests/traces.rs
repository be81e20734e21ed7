use tarpaulin_core::source_analysis::{generate_tracemap, LineAnalysis};
use tarpaulin_core::traces::{Trace, TraceMap};

fn at(file: &str, line: usize, address: Option<u64>, hits: u64) -> Trace {
    Trace { file: file.to_string(), line, address, hits }
}

fn map_of(ts: Vec<Trace>) -> TraceMap {
    let mut m = TraceMap::new();
    for t in ts {
        m.add_trace(t);
    }
    m
}

fn sorted(m: &TraceMap) -> Vec<(String, usize, Option<u64>, u64)> {
    let mut v: Vec<_> = m.traces().iter().map(|t| (t.file.clone(), t.line, t.address, t.hits)).collect();
    v.sort();
    v
}

#[test]
fn add_trace_sums_same_key() {
    let m = map_of(vec![at("f", 1, Some(16), 2), at("f", 1, Some(16), 3), at("f", 1, Some(17), 1)]);
    let f = "f".to_string();
    assert_eq!(m.get(&f, 1, Some(16)), Some(5));
    assert_eq!(m.get(&f, 1, Some(17)), Some(1));
    assert_eq!(m.get(&f, 2, Some(16)), None);
}

#[test]
fn add_trace_saturates() {
    let m = map_of(vec![at("f", 1, None, u64::MAX - 1), at("f", 1, None, 5)]);
    assert_eq!(m.get(&"f".to_string(), 1, None), Some(u64::MAX));
}

#[test]
fn merge_sums_and_inserts() {
    let mut a = map_of(vec![at("f", 1, None, 2), at("f", 2, None, 0)]);
    let b = map_of(vec![at("f", 1, None, 3), at("g", 7, None, 1)]);
    a.merge(&b);
    assert_eq!(
        sorted(&a),
        vec![
            ("f".to_string(), 1, None, 5),
            ("f".to_string(), 2, None, 0),
            ("g".to_string(), 7, None, 1)
        ]
    );
}

#[test]
fn merge_is_commutative_and_associative() {
    let a = map_of(vec![at("f", 1, None, 2), at("f", 2, Some(4), 1)]);
    let b = map_of(vec![at("f", 1, None, 3), at("g", 7, None, 1)]);
    let c = map_of(vec![at("g", 7, None, 4), at("f", 2, Some(4), 9)]);
    let mut ab = a.clone();
    ab.merge(&b);
    let mut ba = b.clone();
    ba.merge(&a);
    assert_eq!(sorted(&ab), sorted(&ba));
    let mut ab_c = ab.clone();
    ab_c.merge(&c);
    let mut bc = b.clone();
    bc.merge(&c);
    let mut a_bc = a.clone();
    a_bc.merge(&bc);
    assert_eq!(sorted(&ab_c), sorted(&a_bc));
    assert_eq!(ab_c.get(&"f".to_string(), 2, Some(4)), Some(10));
    assert_eq!(ab_c.get(&"g".to_string(), 7, None), Some(5));
}

#[test]
fn dedup_collapses_addresses_of_a_line() {
    let mut m = map_of(vec![
        at("f", 1, Some(16), 0),
        at("f", 1, Some(20), 4),
        at("f", 2, Some(24), 0),
        at("g", 1, Some(16), 2),
    ]);
    m.dedup();
    assert_eq!(
        sorted(&m),
        vec![
            ("f".to_string(), 1, None, 1),
            ("f".to_string(), 2, None, 0),
            ("g".to_string(), 1, None, 1)
        ]
    );
}

#[test]
fn dedup_is_idempotent() {
    let mut m = map_of(vec![at("f", 1, Some(16), 0), at("f", 1, Some(20), 4), at("f", 3, Some(24), 0)]);
    m.dedup();
    let once = sorted(&m);
    m.dedup();
    assert_eq!(sorted(&m), once);
    assert!(m.is_line_hit(&"f".to_string(), 1));
    assert!(!m.is_line_hit(&"f".to_string(), 3));
}

#[test]
fn record_hit_counts_by_address() {
    let mut m = map_of(vec![at("f", 1, Some(16), 0), at("f", 2, Some(20), 0), at("f", 3, None, 0)]);
    m.record_hit(16);
    m.record_hit(16);
    m.record_hit(99);
    let f = "f".to_string();
    assert_eq!(m.get(&f, 1, Some(16)), Some(2));
    assert_eq!(m.get(&f, 2, Some(20)), Some(0));
    assert_eq!(m.get(&f, 3, None), Some(0));
}

#[test]
fn instrumentation_addresses_lists_known_addresses() {
    let m = map_of(vec![at("f", 1, Some(16), 0), at("f", 2, Some(20), 0), at("f", 3, None, 0)]);
    let mut a = m.instrumentation_addresses();
    a.sort();
    assert_eq!(a, vec![16, 20]);
}

#[test]
fn disjoint_runs_merge_to_union_of_lines() {
    let mut a = map_of(vec![at("f", 1, Some(16), 1), at("f", 2, Some(20), 0), at("f", 3, Some(24), 2)]);
    let b = map_of(vec![at("f", 1, Some(16), 0), at("f", 2, Some(20), 5), at("f", 3, Some(24), 1)]);
    a.merge(&b);
    a.dedup();
    let f = "f".to_string();
    for l in 1..4 {
        assert!(a.is_line_hit(&f, l));
        assert_eq!(a.get(&f, l, None), Some(1));
    }
}

#[test]
fn rerun_merge_sums_shared_lines() {
    let run1 = map_of(vec![at("f", 1, Some(16), 2), at("f", 2, Some(20), 1)]);
    let run2 = map_of(vec![at("f", 1, Some(16), 3), at("f", 2, Some(20), 0)]);
    let mut m = run1.clone();
    m.merge(&run2);
    let f = "f".to_string();
    assert_eq!(m.get(&f, 1, Some(16)), Some(5));
    assert_eq!(m.get(&f, 2, Some(20)), Some(1));
    for (l, addr) in [(1usize, 16u64), (2, 20)] {
        let total = m.get(&f, l, Some(addr)).unwrap();
        assert!(total >= run1.get(&f, l, Some(addr)).unwrap());
        assert!(total >= run2.get(&f, l, Some(addr)).unwrap());
    }
}

#[test]
fn generate_tracemap_relocates_offsets() {
    let analyses = vec![
        LineAnalysis { file: "a.rs".to_string(), lines: vec![(3, 0x10), (4, 0x18), (3, 0x10)] },
        LineAnalysis { file: "b.rs".to_string(), lines: vec![(1, u64::MAX)] },
    ];
    let m = generate_tracemap(&analyses, 0x4000);
    assert_eq!(
        sorted(&m),
        vec![("a.rs".to_string(), 3, Some(0x4010), 0), ("a.rs".to_string(), 4, Some(0x4018), 0)]
    );
    let m0 = generate_tracemap(&analyses, 0);
    assert_eq!(m0.get(&"b.rs".to_string(), 1, Some(u64::MAX)), Some(0));
}
