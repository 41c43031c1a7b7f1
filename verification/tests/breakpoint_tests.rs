use std::collections::{HashMap, HashSet};

use gdb_server::breakpoints::BreakpointTable;
use gdb_server::breakpoint_set::BreakpointTable as BreakpointSet;

#[test]
fn empty_table_contains_nothing() {
    let table = BreakpointTable::new();
    assert_eq!(table.check_brkpt(0), None);
    assert_eq!(table.check_brkpt(0x1000), None);
    assert!(!table.uses_hash());
}

#[test]
fn set_then_check_and_remove() {
    let mut table = BreakpointTable::new();
    table.set_brkpt(0x1000, 7);
    assert_eq!(table.check_brkpt(0x1000), Some(7));
    assert_eq!(table.check_brkpt(0x1001), None);
    table.remove_brkpt(0x1000);
    assert_eq!(table.check_brkpt(0x1000), None);
}

#[test]
fn set_same_address_overwrites_id() {
    let mut table = BreakpointTable::new();
    table.set_brkpt(5, 1);
    table.set_brkpt(5, 2);
    assert_eq!(table.check_brkpt(5), Some(2));
}

#[test]
fn remove_absent_address_is_a_no_op() {
    let mut table = BreakpointTable::new();
    table.set_brkpt(1, 1);
    table.remove_brkpt(99);
    assert_eq!(table.check_brkpt(1), Some(1));
}

/// Model equivalence: a mixed run of operations, crossing the 30-entry
/// threshold, matches a reference hash-map model step by step; the
/// representation switches at the 31st distinct address and never reverts.
#[test]
fn model_equivalence_across_threshold() {
    let mut table = BreakpointTable::new();
    let mut model: HashMap<usize, i32> = HashMap::new();

    for i in 0..30usize {
        table.set_brkpt(i * 16, i as i32);
        model.insert(i * 16, i as i32);
        assert!(!table.uses_hash());
    }
    // The 31st distinct address migrates the table.
    table.set_brkpt(30 * 16, 30);
    model.insert(30 * 16, 30);
    assert!(table.uses_hash());

    // Every address agrees with the model.
    for i in 0..40usize {
        assert_eq!(table.check_brkpt(i * 16), model.get(&(i * 16)).copied());
    }

    // Removing far below the threshold does not revert the representation.
    for i in 0..28usize {
        table.remove_brkpt(i * 16);
        model.remove(&(i * 16));
        assert!(table.uses_hash());
    }
    for i in 0..40usize {
        assert_eq!(table.check_brkpt(i * 16), model.get(&(i * 16)).copied());
    }

    // Later operations still agree in the hash representation.
    table.set_brkpt(12345, -1);
    model.insert(12345, -1);
    table.set_brkpt(12345, -2);
    model.insert(12345, -2);
    table.remove_brkpt(30 * 16);
    model.remove(&(30 * 16));
    for addr in [0usize, 16, 28 * 16, 29 * 16, 30 * 16, 12345] {
        assert_eq!(table.check_brkpt(addr), model.get(&addr).copied());
    }
}

#[test]
fn address_set_basic_operations() {
    let mut set = BreakpointSet::new();
    assert!(!set.check_breakpoint(0x40));
    set.set_breakpoint(0x40);
    assert!(set.check_breakpoint(0x40));
    // Setting an address twice keeps a single membership.
    set.set_breakpoint(0x40);
    set.remove_breakpoint(0x40);
    assert!(!set.check_breakpoint(0x40));
    set.remove_breakpoint(0x40);
    assert!(!set.check_breakpoint(0x40));
}

#[test]
fn address_set_model_equivalence_across_threshold() {
    let mut set = BreakpointSet::new();
    let mut model: HashSet<usize> = HashSet::new();

    for i in 0..30usize {
        set.set_breakpoint(i * 8 + 1);
        model.insert(i * 8 + 1);
        assert!(!set.uses_hash());
    }
    set.set_breakpoint(30 * 8 + 1);
    model.insert(30 * 8 + 1);
    assert!(set.uses_hash());

    for i in 0..29usize {
        set.remove_breakpoint(i * 8 + 1);
        model.remove(&(i * 8 + 1));
        assert!(set.uses_hash());
    }
    for i in 0..35usize {
        let addr = i * 8 + 1;
        assert_eq!(set.check_breakpoint(addr), model.contains(&addr));
    }
}
