use etsdiff::report::{Report, TestReport};

#[test]
fn test_test_report() {
    let mut tr = TestReport::new("Test 1");
    tr.energy = 1_110_000;
    tr.transfer = 2;
    tr.storage = 3;

    assert_eq!("Test 1", tr.name);
    assert_eq!(1_110_000, tr.energy);
    assert_eq!(2, tr.transfer);
    assert_eq!(3, tr.storage);
}

fn record(name: &str, energy: u64, transfer: u64, storage: u64) -> TestReport {
    let mut tr = TestReport::new(name);
    tr.energy = energy;
    tr.transfer = transfer;
    tr.storage = storage;
    tr
}

fn view(v: &[TestReport]) -> Vec<(String, u64, u64, u64)> {
    v.iter()
        .map(|r| (r.name.clone(), r.energy, r.transfer, r.storage))
        .collect()
}

#[test]
fn test_report() {
    let mut r = Report::new();

    r.add_test_report(record("Test 1", 1_000_000, 0, 0));
    r.add_test_report(record("Test 2", 2_000_000, 0, 0));
    r.add_test_report(record("Test 1", 3_000_000, 0, 0));
    r.add_test_report(record("Test 2", 4_000_000, 0, 0));

    r.compute_total();

    assert_eq!(
        view(r.details()),
        vec![
            ("Test 1".to_string(), 1_000_000, 0, 0),
            ("Test 2".to_string(), 2_000_000, 0, 0),
            ("Test 1".to_string(), 3_000_000, 0, 0),
            ("Test 2".to_string(), 4_000_000, 0, 0),
        ]
    );
    assert_eq!(
        view(r.total()),
        vec![
            ("Test 1".to_string(), 2_000_000, 0, 0),
            ("Test 2".to_string(), 3_000_000, 0, 0),
        ]
    );
}

#[test]
fn totals_are_ordered_by_name_not_by_execution() {
    let mut r = Report::new();
    r.add_test_report(record("b", 1, 10, 100));
    r.add_test_report(record("a", 2, 20, 200));
    r.add_test_report(record("c", 3, 30, 300));
    r.add_test_report(record("B", 4, 40, 400));
    r.compute_total();
    let names: Vec<String> = r.total().iter().map(|t| t.name.clone()).collect();
    assert_eq!(names, ["B", "a", "b", "c"]);
}

#[test]
fn totals_use_truncated_means() {
    let mut r = Report::new();
    r.add_test_report(record("T", 1, 1, 10));
    r.add_test_report(record("T", 2, 2, 11));
    r.add_test_report(record("T", 2, 4, 11));
    r.compute_total();
    assert_eq!(view(r.total()), vec![("T".to_string(), 1, 2, 10)]);
}

#[test]
fn totals_of_large_values_do_not_overflow() {
    let mut r = Report::new();
    r.add_test_report(record("T", u64::MAX, u64::MAX, u64::MAX - 1));
    r.add_test_report(record("T", u64::MAX, u64::MAX - 2, u64::MAX - 1));
    r.compute_total();
    assert_eq!(
        view(r.total()),
        vec![("T".to_string(), u64::MAX, u64::MAX - 1, u64::MAX - 1)]
    );
}

#[test]
fn totals_are_idempotent() {
    let mut r = Report::new();
    r.add_test_report(record("T2", 5, 6, 7));
    r.add_test_report(record("T1", 1, 2, 3));
    r.add_test_report(record("T2", 7, 8, 9));
    r.compute_total();
    let first = view(r.total());
    r.compute_total();
    assert_eq!(first, view(r.total()));
    assert_eq!(
        first,
        vec![("T1".to_string(), 1, 2, 3), ("T2".to_string(), 6, 7, 8)]
    );
    assert_eq!(3, r.details().len());
}

#[test]
fn empty_report_has_no_totals() {
    let mut r = Report::new();
    r.compute_total();
    assert!(r.total().is_empty());
    assert!(r.details().is_empty());
}

#[test]
fn single_record_total_equals_record() {
    let mut r = Report::new();
    r.add_test_report(record("only", 42, 43, 44));
    r.compute_total();
    assert_eq!(view(r.total()), vec![("only".to_string(), 42, 43, 44)]);
}
