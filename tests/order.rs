use pardu::order::{collect, SizeOrErr};
use std::cmp::Ordering;

fn ok(n: u64, p: &str) -> SizeOrErr {
    SizeOrErr(Ok(n), p.to_string())
}

fn err(p: &str) -> SizeOrErr {
    SizeOrErr(Err("denied".to_string()), p.to_string())
}

#[test]
fn report_order_successes_then_errors() {
    let input = vec![ok(500, "A"), ok(2000, "B"), err("C"), ok(10, "D")];
    let out = collect(input);
    let names: Vec<&str> = out.iter().map(|s| s.1.as_str()).collect();
    assert_eq!(names, vec!["B", "A", "D", "C"]);
}

#[test]
fn errors_sort_after_every_success() {
    let input = vec![err("x"), ok(0, "zero"), err("y"), ok(7, "seven")];
    let out = collect(input);
    assert_eq!(out.len(), 4);
    assert_eq!(out[0].1, "seven");
    assert_eq!(out[1].1, "zero");
    assert!(out[2].0.is_err() && out[3].0.is_err());
}

#[test]
fn empty_and_equal_sizes() {
    assert!(collect(Vec::new()).is_empty());
    let out = collect(vec![ok(5, "a"), ok(5, "b")]);
    assert_eq!(out.len(), 2);
    assert!(out.iter().all(|s| s.0 == Ok(5)));
}

#[test]
fn comparison_rules() {
    assert_eq!(ok(3, "a").cmp(&ok(4, "b")), Ordering::Less);
    assert_eq!(ok(4, "a").cmp(&ok(3, "b")), Ordering::Greater);
    assert_eq!(ok(0, "a").cmp(&err("b")), Ordering::Greater);
    assert_eq!(err("a").cmp(&ok(0, "b")), Ordering::Less);
    assert_eq!(err("a").cmp(&err("b")), Ordering::Equal);
    assert!(err("a") == err("b"));
    assert!(ok(1, "a") > err("b"));
    assert!(ok(1, "a") < ok(2, "a"));
}
