use crawler::stats::Stats;
use crawler::text::{decimal_string, str_contains};

#[test]
fn decimal_of_small_and_large_numbers() {
    assert_eq!(decimal_string(0), "0");
    assert_eq!(decimal_string(7), "7");
    assert_eq!(decimal_string(10), "10");
    assert_eq!(decimal_string(1234567890), "1234567890");
    assert_eq!(decimal_string(usize::MAX), usize::MAX.to_string());
}

#[test]
fn decimal_reads_back() {
    for n in [0usize, 1, 9, 10, 99, 100, 101, 65535, 1 << 40] {
        let s = decimal_string(n);
        assert_eq!(s.parse::<usize>().unwrap(), n);
        assert!(s.len() == 1 || !s.starts_with('0'));
    }
}

#[test]
fn contains_finds_substrings() {
    assert!(str_contains("text/html; charset=utf-8", "text/html"));
    assert!(str_contains("abc", ""));
    assert!(!str_contains("image/png", "text/html"));
    assert!(!str_contains("ab", "abc"));
    assert!(str_contains("héllo wörld", "ö"));
}

#[test]
fn new_stats_are_zero() {
    let s = Stats::new();
    assert_eq!(s.urlreservoir_size, 0);
    assert_eq!(s.urlreservoir_getuu_calls, 0);
    assert_eq!(s.client_work_sent, 0);
    assert_eq!(s.worker_write_file_error, 0);
}

fn expected_report(s: &Stats) -> String {
    let mut t = String::new();
    t += "UrlReservoirAdd\n";
    t += &format!("----reservoir size: {}\n", s.urlreservoir_size);
    t += &format!("----add_urls calls: {}\n", s.urlreservoir_add_calls);
    t += &format!("----urls added: {}\n", s.urlreservoir_add_addedurls);
    t += "UrlReservoirGetuu\n";
    t += &format!("----calls: {}\n", s.urlreservoir_getuu_calls);
    t += &format!("----error locked: {}\n", s.urlreservoir_getuu_locked);
    t += &format!("----error emptyqueue: {}\n", s.urlreservoir_getuu_emptyqueue);
    t += &format!("----error illformat: {}\n", s.urlreservoir_getuu_illformat);
    t += &format!("----success: {}\n", s.urlreservoir_getuu_success);
    t += "Client\n";
    t += &format!("----work sent: {}\n", s.client_work_sent);
    t += &format!("----hyper error: {}\n", s.client_hyper_error);
    t += &format!("----timeout: {}\n", s.client_timeout);
    t += &format!("----timeout error: {}\n", s.client_timeout_error);
    t += &format!("----too large error: {}\n", s.client_too_large_error);
    t += &format!("----unwanted file: {}\n", s.client_unwanted_file);
    t += "Worker\n";
    t += &format!("----got total: {}\n", s.worker_got_html + s.worker_got_file);
    t += &format!("----got html: {}\n", s.worker_got_html);
    t += &format!("----got file: {}\n", s.worker_got_file);
    t += &format!("----got repeated file: {}\n", s.worker_got_repeated_file);
    t += &format!("----got write file error: {}\n", s.worker_write_file_error);
    t
}

#[test]
fn report_of_zero_stats() {
    let s = Stats::new();
    assert_eq!(s.report(), expected_report(&s));
    assert!(s.report().starts_with("UrlReservoirAdd\n----reservoir size: 0\n"));
}

#[test]
fn report_of_counted_stats() {
    let mut s = Stats::new();
    s.urlreservoir_size = 12;
    s.urlreservoir_add_calls = 3;
    s.urlreservoir_add_addedurls = 40;
    s.urlreservoir_getuu_success = 9;
    s.client_timeout = 5;
    s.worker_got_html = 100;
    s.worker_got_file = 23;
    let r = s.report();
    assert_eq!(r, expected_report(&s));
    assert!(r.contains("----got total: 123\n"));
    assert!(r.contains("----urls added: 40\n"));
}

#[test]
fn numbered_report_heading() {
    let s = Stats::new();
    let r = s.numbered_report(42);
    assert_eq!(r, format!("Report number 42:\n{}\n\n", expected_report(&s)));
}
