use syslens_collect::cpu::{parse_stat_line, sample, sample_sums, stat_line_sums, usage_line, usage_ok};

#[test]
fn stat_line_totals() {
    assert_eq!(parse_stat_line("cpu  1 2 3 4 5 6 7 8 9 10"), Some((36, 9)));
    assert_eq!(parse_stat_line("cpu 10 0 5 100 3 0 0 0"), Some((118, 103)));
    assert_eq!(parse_stat_line("cpu 1 x 3 4 5 6 7 8"), Some((34, 9)));
    assert_eq!(parse_stat_line("cpu 1 2 3 4 5 6 7"), None);
    assert_eq!(parse_stat_line(""), None);
}

#[test]
fn stat_line_overflow_is_detected() {
    assert!(stat_line_sums("cpu 1 2 3 4 5 6 7 8"));
    assert!(!stat_line_sums("cpu 18446744073709551615 1 0 0 0 0 0 0"));
    assert!(stat_line_sums("cpu 1 2"));
}

#[test]
fn samples_and_their_errors() {
    assert_eq!(sample("cpu  100 0 100 800 0 0 0 0 0 0\ncpu0 1 2 3 4 5 6 7 8\n"), Ok((1000, 800)));
    assert_eq!(sample(""), Err("empty /proc/stat".to_string()));
    assert_eq!(sample("cpu 1 2\n"), Err("failed to parse /proc/stat".to_string()));
    assert!(sample_sums(""));
}

#[test]
fn usage_percent() {
    assert_eq!(usage_line((1000, 800), (1100, 850)), "cpu.usage_percent=50");
    assert_eq!(usage_line((1000, 800), (1000, 800)), "cpu.usage_percent=0");
    assert_eq!(usage_line((1000, 800), (1003, 802)), "cpu.usage_percent=33");
    assert_eq!(usage_line((0, 0), (100, 100)), "cpu.usage_percent=0");
    assert_eq!(usage_line((0, 0), (100, 0)), "cpu.usage_percent=100");
    assert!(usage_ok((0, 0), (100, 50)));
    assert!(!usage_ok((0, 0), (100, 150)));
}
