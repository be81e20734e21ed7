use tarpaulin_core::branching::{BranchAnalysis, BranchContext, Branches, LineRange};
use tarpaulin_core::traces::{Trace, TraceMap};

fn hit(file: &str, line: usize, hits: u64) -> Trace {
    Trace { file: file.to_string(), line, address: None, hits }
}

#[test]
fn line_range_contains_boundaries() {
    let r = LineRange::new(3, 7);
    assert!(!r.contains(2));
    assert!(r.contains(3));
    assert!(r.contains(6));
    assert!(!r.contains(7));
    let empty = LineRange::new(5, 5);
    assert!(!empty.contains(5));
}

#[test]
fn analysis_is_branch_inside_registered_ranges() {
    let stmts = vec![
        (LineRange::new(10, 15), Branches::new(vec![LineRange::new(10, 13), LineRange::new(13, 15)], false)),
        (LineRange::new(20, 22), Branches::new(vec![LineRange::new(20, 22)], true)),
    ];
    let a = BranchAnalysis::from_statements(stmts);
    assert!(a.is_branch(10));
    assert!(a.is_branch(14));
    assert!(!a.is_branch(15));
    assert!(a.is_branch(21));
    assert!(!a.is_branch(9));
    assert!(!a.is_branch(30));
}

#[test]
fn empty_analysis_has_no_branch() {
    let a = BranchAnalysis::new();
    for l in 0..50 {
        assert!(!a.is_branch(l));
    }
}

#[test]
fn analysis_insert_replaces_same_range() {
    let mut a = BranchAnalysis::new();
    a.insert(LineRange::new(1, 4), Branches::new(vec![LineRange::new(1, 2)], false));
    a.insert(LineRange::new(1, 4), Branches::new(vec![LineRange::new(2, 4)], true));
    let b = a.get(LineRange::new(1, 4)).unwrap();
    assert_eq!(b.ranges, vec![LineRange::new(2, 4)]);
    assert!(b.implicit_default);
    assert!(a.get(LineRange::new(1, 5)).is_none());
}

#[test]
fn context_looks_up_by_path() {
    let mut ctx = BranchContext::new();
    let a = BranchAnalysis::from_statements(vec![(
        LineRange::new(5, 8),
        Branches::new(vec![LineRange::new(5, 6), LineRange::new(6, 8)], false),
    )]);
    ctx.insert("/src/lib.rs".to_string(), a);
    assert!(ctx.is_branch(&"/src/lib.rs".to_string(), 5));
    assert!(!ctx.is_branch(&"/src/lib.rs".to_string(), 8));
    assert!(!ctx.is_branch(&"/src/main.rs".to_string(), 5));
    ctx.insert("/src/lib.rs".to_string(), BranchAnalysis::new());
    assert!(!ctx.is_branch(&"/src/lib.rs".to_string(), 5));
}

#[test]
fn arm_count_counts_implicit_default() {
    let b = Branches::new(vec![LineRange::new(1, 2)], true);
    assert_eq!(b.arm_count(), 2);
    let c = Branches::new(vec![LineRange::new(1, 2), LineRange::new(2, 3)], false);
    assert_eq!(c.arm_count(), 2);
}

#[test]
fn taken_count_counts_arms_with_a_hit_line() {
    let mut m = TraceMap::new();
    m.add_trace(hit("a.rs", 11, 1));
    m.add_trace(hit("a.rs", 13, 0));
    m.add_trace(hit("b.rs", 14, 3));
    let b = Branches::new(vec![LineRange::new(10, 13), LineRange::new(13, 15)], false);
    assert_eq!(b.taken_count(&m, &"a.rs".to_string()), 1);
    assert_eq!(b.taken_count(&m, &"b.rs".to_string()), 1);
    assert_eq!(b.taken_count(&m, &"c.rs".to_string()), 0);
}
