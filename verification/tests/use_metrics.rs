use ro11y::use_metrics::{parse_cpu_ticks, parse_rss_pages, rss_bytes, start, CpuTracker, Start};

#[test]
fn start_is_noop_on_non_linux() {
    // Should not panic on any platform. On non-Linux, this is a no-op.
    assert_eq!(start(false), Start::Disabled);
    assert_eq!(start(true), Start::Poll);
}

const STAT: &str = "4242 (my proc) S 1 4242 4242 0 -1 4194304 100 0 0 0 77 33 0 0 20 0 1 0 5 1 2";

#[test]
fn cpu_ticks_are_fields_14_and_15() {
    assert_eq!(parse_cpu_ticks(STAT), Some((77, 33)));
}

#[test]
fn cpu_ticks_ignore_the_command_name() {
    let odd = STAT.replace("(my proc)", "(a) 1 2 ) (b)");
    assert_eq!(parse_cpu_ticks(&odd), Some((77, 33)));
    let newline = STAT.replace("(my proc)", "(a\n\t)");
    assert_eq!(parse_cpu_ticks(&newline), Some((77, 33)));
}

#[test]
fn cpu_ticks_need_every_part() {
    assert_eq!(parse_cpu_ticks(""), None);
    assert_eq!(parse_cpu_ticks("no parenthesis 1 2 3 4 5 6 7 8 9 10 11 12 13"), None);
    assert_eq!(parse_cpu_ticks("1 (c) S 1 2 3 4 5 6 7 8 9 10 77"), None);
    assert_eq!(parse_cpu_ticks("1 (c) S 1 2 3 4 5 6 7 8 9 10 -7 33"), None);
    assert_eq!(parse_cpu_ticks("1 (c) S 1 2 3 4 5 6 7 8 9 10 77 x"), None);
}

#[test]
fn rss_is_the_second_field() {
    assert_eq!(parse_rss_pages("1000 250 30 4 0 60 0\n"), Some(250));
    assert_eq!(parse_rss_pages("  1000\t\n250"), Some(250));
    assert_eq!(parse_rss_pages("1000\u{2003}250\u{a0}3"), Some(250));
    assert_eq!(parse_rss_pages("1000"), None);
    assert_eq!(parse_rss_pages(""), None);
}

#[test]
fn numbers_are_read_as_std_reads_them() {
    let cases = [
        "0", "+5", "+", "-1", "12a", "007", "18446744073709551615", "18446744073709551616",
        "99999999999999999999999", "+18446744073709551615", "++1", "1_000", "\u{661}",
    ];
    for case in cases {
        let text = format!("x {}", case);
        assert_eq!(parse_rss_pages(&text), case.parse::<u64>().ok(), "{}", case);
    }
}

#[test]
fn white_space_is_what_std_splits_at() {
    for n in 0..0x3100u32 {
        if let Some(c) = char::from_u32(n) {
            let text = format!("1{}2", c);
            let expected = text.split_whitespace().nth(1).and_then(|w| w.parse::<u64>().ok());
            assert_eq!(parse_rss_pages(&text), expected, "{:x}", n);
        }
    }
}

#[test]
fn the_first_sample_is_a_baseline() {
    let mut tracker = CpuTracker::new();
    assert_eq!(tracker.sample(10, 5), None);
    assert_eq!(tracker.sample(20, 7), Some(12));
    assert_eq!(tracker.sample(20, 7), Some(0));
    // The clock went back.
    assert_eq!(tracker.sample(1, 1), Some(0));
    assert_eq!(tracker.sample(2, 3), Some(3));
}

#[test]
fn rss_in_bytes() {
    assert_eq!(rss_bytes(250, 4096), 1_024_000);
    assert_eq!(rss_bytes(0, 4096), 0);
}
