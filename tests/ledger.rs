use blocktrace::ledger::{is_valid_snapshot, Ledger, ProductHistory};
use blocktrace::order::sort_by_time;
use blocktrace::step::{validate, AddStepResult, Step, StepField};
use blocktrace::text::{is_blank, push_decimal};

fn step(product: &str, actor: &str, role: &str, action: &str, location: &str, notes: Option<&str>) -> Step {
    Step {
        product_id: product.to_string(),
        actor_name: actor.to_string(),
        role: role.to_string(),
        action: action.to_string(),
        location: location.to_string(),
        notes: notes.map(|n| n.to_string()),
        timestamp: 0,
    }
}

fn farm(product: &str, notes: Option<&str>) -> Step {
    step(product, "Alice", "Farmer", "Harvested", "Field A", notes)
}

fn added(r: AddStepResult) -> String {
    match r {
        AddStepResult::Added(m) => m,
        AddStepResult::Rejected(m) => panic!("rejected: {}", m),
    }
}

fn rejected(r: AddStepResult) -> String {
    match r {
        AddStepResult::Added(m) => panic!("added: {}", m),
        AddStepResult::Rejected(m) => m,
    }
}

#[test]
fn example_append_then_reject_empty_product() {
    let mut l = Ledger::new();
    let msg = added(l.add_step(farm("P1", Some("")), 1_000));
    assert_eq!(msg, "Step added successfully for product P1");
    let h = l.get_product_history(&"P1".to_string());
    assert_eq!(h.len(), 1);
    assert_eq!(h[0].notes, None);
    let err = rejected(l.add_step(farm("", None), 2_000));
    assert_eq!(err, "Product ID cannot be empty");
    assert_eq!(l.get_product_history(&"P1".to_string()).len(), 1);
}

#[test]
fn new_product_gets_store_timestamp() {
    let mut l = Ledger::new();
    let mut s = farm("P9", Some("fresh"));
    s.timestamp = 77;
    added(l.add_step(s, 123_456));
    let h = l.get_product_history(&"P9".to_string());
    assert_eq!(h.len(), 1);
    assert_eq!(h[0].timestamp, 123_456);
    assert_eq!(h[0].product_id, "P9");
    assert_eq!(h[0].actor_name, "Alice");
    assert_eq!(h[0].role, "Farmer");
    assert_eq!(h[0].action, "Harvested");
    assert_eq!(h[0].location, "Field A");
    assert_eq!(h[0].notes, Some("fresh".to_string()));
}

#[test]
fn each_blank_field_is_named() {
    let cases = vec![
        (step("  ", "a", "r", "x", "l", None), "Product ID cannot be empty"),
        (step("p", "\t", "r", "x", "l", None), "Actor name cannot be empty"),
        (step("p", "a", "", "x", "l", None), "Role cannot be empty"),
        (step("p", "a", "r", " \n ", "l", None), "Action cannot be empty"),
        (step("p", "a", "r", "x", "\u{3000}", None), "Location cannot be empty"),
    ];
    let mut l = Ledger::new();
    added(l.add_step(farm("P1", None), 5));
    for (s, expected) in cases {
        assert_eq!(rejected(l.add_step(s, 10)), expected);
        assert_eq!(l.get_total_steps_count(), 1);
    }
}

#[test]
fn first_blank_field_wins() {
    let r = validate(step("", "", "", "", "", None));
    assert_eq!(r.unwrap_err(), StepField::ProductId);
    let r = validate(step("p", "a", " ", "", "", None));
    assert_eq!(r.unwrap_err(), StepField::Role);
    assert_eq!(StepField::Location.message(), "Location cannot be empty");
}

#[test]
fn blank_notes_become_absent() {
    let mut l = Ledger::new();
    added(l.add_step(farm("N", Some("")), 1));
    added(l.add_step(farm("N", Some("   ")), 2));
    added(l.add_step(farm("N", Some(" kept ")), 3));
    added(l.add_step(farm("N", None), 4));
    let h = l.get_product_history(&"N".to_string());
    assert_eq!(h[0].notes, None);
    assert_eq!(h[1].notes, None);
    assert_eq!(h[2].notes, Some(" kept ".to_string()));
    assert_eq!(h[3].notes, None);
}

#[test]
fn history_sorted_with_ties_in_append_order() {
    let mut l = Ledger::new();
    added(l.add_step(step("P", "c", "r", "x", "l", None), 30));
    added(l.add_step(step("P", "a", "r", "x", "l", None), 10));
    added(l.add_step(step("Q", "q", "r", "x", "l", None), 20));
    added(l.add_step(step("P", "d", "r", "x", "l", None), 30));
    added(l.add_step(step("P", "b", "r", "x", "l", None), 20));
    added(l.add_step(step("P", "e", "r", "x", "l", None), 10));
    let h = l.get_product_history(&"P".to_string());
    let actors: Vec<&str> = h.iter().map(|s| s.actor_name.as_str()).collect();
    assert_eq!(actors, vec!["a", "e", "b", "c", "d"]);
    let times: Vec<u64> = h.iter().map(|s| s.timestamp).collect();
    assert_eq!(times, vec![10, 10, 20, 30, 30]);
}

#[test]
fn unknown_product_has_empty_history() {
    let mut l = Ledger::new();
    assert!(l.get_product_history(&"nope".to_string()).is_empty());
    added(l.add_step(farm("P1", None), 1));
    assert!(l.get_product_history(&"nope".to_string()).is_empty());
}

#[test]
fn products_listed_once_and_counted() {
    let mut l = Ledger::new();
    assert!(l.get_all_products().is_empty());
    assert_eq!(l.get_total_steps_count(), 0);
    added(l.add_step(farm("A", None), 1));
    added(l.add_step(farm("B", None), 2));
    added(l.add_step(farm("A", None), 3));
    rejected(l.add_step(farm(" ", None), 4));
    assert_eq!(l.get_all_products(), vec!["A".to_string(), "B".to_string()]);
    assert_eq!(l.get_total_steps_count(), 3);
    let sum: usize = l
        .get_all_products()
        .iter()
        .map(|p| l.get_product_history(p).len())
        .sum();
    assert_eq!(sum, 3);
}

#[test]
fn canister_info_summary() {
    let mut l = Ledger::new();
    assert_eq!(l.get_canister_info(), "BlockTrace Canister - Products: 0, Total Steps: 0");
    for i in 0..12u64 {
        let p = if i % 2 == 0 { "A" } else { "B" };
        added(l.add_step(farm(p, None), i + 1));
    }
    assert_eq!(l.get_canister_info(), "BlockTrace Canister - Products: 2, Total Steps: 12");
}

#[test]
fn snapshot_then_restore_is_identical() {
    let mut l = Ledger::new();
    added(l.add_step(farm("A", Some("x")), 5));
    added(l.add_step(farm("B", None), 3));
    added(l.add_step(farm("A", Some("  ")), 1));
    let snap = l.snapshot();
    let r = Ledger::restore(snap).expect("restorable");
    assert_eq!(r.get_all_products(), l.get_all_products());
    assert_eq!(r.get_total_steps_count(), 3);
    for p in l.get_all_products() {
        let a = l.get_product_history(&p);
        let b = r.get_product_history(&p);
        assert_eq!(format!("{:?}", a), format!("{:?}", b));
    }
    let a = r.get_product_history(&"A".to_string());
    assert_eq!(a[0].notes, None);
    assert_eq!(a[1].notes, Some("x".to_string()));
}

fn entry(id: &str, steps: Vec<Step>) -> ProductHistory {
    ProductHistory { product_id: id.to_string(), steps }
}

#[test]
fn restore_rejects_malformed_snapshots() {
    assert!(Ledger::restore(vec![]).is_some());
    assert!(Ledger::restore(vec![entry("A", vec![farm("A", None)])]).is_some());
    assert!(Ledger::restore(vec![entry("A", vec![])]).is_none());
    assert!(Ledger::restore(vec![entry("A", vec![farm("B", None)])]).is_none());
    assert!(Ledger::restore(vec![entry("A", vec![farm("A", None)]), entry("A", vec![farm("A", None)])]).is_none());
    assert!(Ledger::restore(vec![entry("A", vec![farm("A", Some(""))])]).is_none());
    assert!(Ledger::restore(vec![entry("A", vec![step("A", "", "r", "x", "l", None)])]).is_none());
    assert!(!is_valid_snapshot(&vec![entry("", vec![step("", "a", "r", "x", "l", None)])]));
}

#[test]
fn blank_means_whitespace_only() {
    assert!(is_blank(""));
    assert!(is_blank(" \t\r\n\u{a0}\u{2003}\u{3000}"));
    assert!(!is_blank(" a "));
    assert!(!is_blank("\u{200b}"));
}

#[test]
fn decimal_digits() {
    let mut s = String::from("n=");
    push_decimal(&mut s, 0);
    assert_eq!(s, "n=0");
    let mut s = String::new();
    push_decimal(&mut s, 1234509);
    assert_eq!(s, "1234509");
    let mut s = String::new();
    push_decimal(&mut s, u64::MAX);
    assert_eq!(s, u64::MAX.to_string());
}

#[test]
fn sort_keeps_equal_times_in_order() {
    let mut v = vec![];
    for (i, t) in [5u64, 1, 5, 0, 1].iter().enumerate() {
        let mut s = farm("S", None);
        s.timestamp = *t;
        s.actor_name = format!("x{}", i);
        v.push(s);
    }
    let r = sort_by_time(&v);
    let names: Vec<&str> = r.iter().map(|s| s.actor_name.as_str()).collect();
    assert_eq!(names, vec!["x3", "x1", "x4", "x0", "x2"]);
    assert_eq!(v.len(), 5);
}
