use minishell::timelog::elapsed_minutes;
use minishell::timelog::format_duration;
use minishell::timelog::parse_digits;
use minishell::timelog::parse_duration;
use minishell::timelog::session_reset_entry;
use minishell::timelog::total_work_summary;
use minishell::timelog::work_command_of;
use minishell::timelog::work_end_entry;
use minishell::timelog::work_start_entry;
use minishell::timelog::work_summary;
use minishell::WorkCmd;

#[test]
fn digits_parse_exactly() {
    assert_eq!(parse_digits(b"0"), Some(0));
    assert_eq!(parse_digits(b"0042"), Some(42));
    assert_eq!(parse_digits(b"18446744073709551615"), Some(u64::MAX));
    assert_eq!(parse_digits(b"18446744073709551616"), None);
    assert_eq!(parse_digits(b""), None);
    assert_eq!(parse_digits(b"1a"), None);
    assert_eq!(parse_digits(b"-1"), None);
}

#[test]
fn durations_parse_exactly() {
    assert_eq!(parse_duration(b"1:30"), Some(90));
    assert_eq!(parse_duration(b"0:05"), Some(5));
    assert_eq!(parse_duration(b"10:00"), Some(600));
    assert_eq!(parse_duration(b"0:75"), Some(75));
}

#[test]
fn malformed_durations_parse_to_nothing() {
    for bad in [
        &b""[..],
        &b"130"[..],
        &b":30"[..],
        &b"1:"[..],
        &b"1:3a"[..],
        &b"a:30"[..],
        &b"1:2:3"[..],
        &b"1 :30"[..],
    ] {
        assert_eq!(parse_duration(bad), None, "{:?}", bad);
    }
}

#[test]
fn durations_render_zero_padded() {
    assert_eq!(format_duration(90), b"1:30".to_vec());
    assert_eq!(format_duration(125), b"2:05".to_vec());
    assert_eq!(format_duration(0), b"0:00".to_vec());
    assert_eq!(format_duration(60), b"1:00".to_vec());
    assert_eq!(format_duration(59), b"0:59".to_vec());
    assert_eq!(format_duration(61 * 60 + 7), b"61:07".to_vec());
}

#[test]
fn duration_forms_round_trip() {
    for total in [0u64, 1, 59, 60, 61, 90, 600, 12345] {
        assert_eq!(parse_duration(&format_duration(total)), Some(total));
    }
}

#[test]
fn elapsed_minutes_rounds_down() {
    assert_eq!(elapsed_minutes(0, 5400), Some(90));
    assert_eq!(elapsed_minutes(100, 159), Some(0));
    assert_eq!(elapsed_minutes(100, 160), Some(1));
    assert_eq!(elapsed_minutes(5400, 0), None);
}

#[test]
fn reset_entry_is_the_header_row() {
    assert_eq!(session_reset_entry(), b"start\n".to_vec());
}

#[test]
fn start_entry_is_the_stamp_row() {
    assert_eq!(
        work_start_entry(b"2024-01-01T10:00:00+00:00".to_vec()),
        b"2024-01-01T10:00:00+00:00\n".to_vec()
    );
}

#[test]
fn end_entry_prices_the_span() {
    // 2024-01-01T10:00:00+00:00 is epoch second 1704103200; ninety minutes
    // later the span closes.
    let start_log = b"start\n2024-01-01T10:00:00+00:00\n";
    let r = work_end_entry(start_log, 1704103200 + 5400, b"later".to_vec());
    assert_eq!(
        r,
        Some(b"2024-01-01T10:00:00+00:00,later,1:30\n".to_vec())
    );
}

#[test]
fn end_entry_uses_the_last_stamp() {
    let start_log = b"start\n2024-01-01T10:00:00+00:00\n2024-01-02T00:00:00+00:00\n";
    // 2024-01-02T00:00:00+00:00 is epoch second 1704153600.
    let r = work_end_entry(start_log, 1704153600 + 60, b"e".to_vec());
    assert_eq!(r, Some(b"2024-01-02T00:00:00+00:00,e,0:01\n".to_vec()));
}

#[test]
fn end_entry_refuses_bad_logs() {
    // An empty log, a log whose last stamp is no RFC 3339 time, and an end
    // that lies before the start all yield nothing.
    assert_eq!(work_end_entry(b"", 100, b"e".to_vec()), None);
    assert_eq!(work_end_entry(b"start\nnot-a-time\n", 100, b"e".to_vec()), None);
    assert_eq!(
        work_end_entry(b"start\n2024-01-01T10:00:00+00:00\n", 0, b"e".to_vec()),
        None
    );
}

#[test]
fn summary_totals_and_prices() {
    // The first row of the log is read as a header; two spans follow.
    let log = b"s,e,d\na,b,1:30\nc,d,0:45\n";
    // 135 minutes: 2 hours and 15 minutes, priced 2*1500 + 15*25.
    assert_eq!(work_summary(log), Some((2, 15, 3375)));
    // The pay equals 25 per worked minute.
    assert_eq!(3375, 25 * 135);
}

#[test]
fn summary_of_an_empty_log_is_zero() {
    assert_eq!(work_summary(b""), Some((0, 0, 0)));
    assert_eq!(work_summary(b"s,e,d\n"), Some((0, 0, 0)));
}

#[test]
fn summary_refuses_malformed_records() {
    // A row whose third field is no duration reaches the library and is
    // refused.
    assert_eq!(work_summary(b"s,e,d\na,b,oops\n"), None);
    assert_eq!(work_summary(b"s,e,d\na,b,1:30\nc,d,\n"), None);
    // A row with too few fields never reaches the library: the reader
    // refuses rows whose width differs from the header's and leaves them
    // out, so the remaining spans are totalled.
    assert_eq!(work_summary(b"s,e,d\na,b,1:30\nc,d\n"), Some((1, 30, 2250)));
}

#[test]
fn summary_over_parsed_records() {
    let records = vec![
        vec![b"a".to_vec(), b"b".to_vec(), b"0:50".to_vec()],
        vec![b"c".to_vec(), b"d".to_vec(), b"0:20".to_vec()],
    ];
    assert_eq!(total_work_summary(&records), Some((1, 10, 1750)));
}

#[test]
fn work_subcommands() {
    let argv = |s: &[u8]| vec![b"work".to_vec(), s.to_vec()];
    assert_eq!(work_command_of(&argv(b"in")), Some(WorkCmd::Start));
    assert_eq!(work_command_of(&argv(b"out")), Some(WorkCmd::End));
    assert_eq!(work_command_of(&argv(b"ed")), Some(WorkCmd::Summary));
    assert_eq!(work_command_of(&argv(b"up")), None);
    assert_eq!(work_command_of(&vec![b"work".to_vec()]), None);
    assert_eq!(
        work_command_of(&vec![b"work".to_vec(), b"in".to_vec(), b"x".to_vec()]),
        None
    );
}
