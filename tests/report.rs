use pardu::order::SizeOrErr;
use pardu::report::{render_line, report};

#[test]
fn one_line_per_input_path() {
    let input = vec![
        SizeOrErr(Ok(500), "A".to_string()),
        SizeOrErr(Ok(2000), "B".to_string()),
        SizeOrErr(Err("denied".to_string()), "C".to_string()),
        SizeOrErr(Ok(10), "D".to_string()),
    ];
    let lines = report(input, true);
    assert_eq!(
        lines,
        vec![
            Ok("2000 B".to_string()),
            Ok("500 A".to_string()),
            Ok("10 D".to_string()),
            Err("Errored attempting 'C', err = denied".to_string()),
        ]
    );
}

#[test]
fn human_lines() {
    let line = render_line(&SizeOrErr(Ok(1536), "dir/x".to_string()), false);
    assert_eq!(line, Ok("1.5K dir/x".to_string()));
}

#[test]
fn no_input_no_lines() {
    assert!(report(Vec::new(), false).is_empty());
}
