use crawler::stats::Stats;
use crawler::url_reservoir::{stream_step, GetUrlError, StreamStep, UrlReservoir, EMPTY_RESERVOIR_WAIT_MS};

fn urls(list: &[&str]) -> Vec<String> {
    list.iter().map(|s| s.to_string()).collect()
}

#[test]
fn urls_come_out_first_in_first_out() {
    let mut stats = Stats::new();
    let mut r = UrlReservoir::new(10);
    r.add_urls(urls(&["http://a.com/", "http://b.com/x"]), &mut stats);
    r.add_urls(urls(&["http://c.com/"]), &mut stats);
    assert_eq!(stats.urlreservoir_add_calls, 2);
    assert_eq!(stats.urlreservoir_add_addedurls, 3);
    assert_eq!(stats.urlreservoir_size, 3);
    let (u, uri) = r.try_get_url_and_uri(&mut stats).unwrap();
    assert_eq!(u, "http://a.com/");
    assert_eq!(uri.to_string(), "http://a.com/");
    assert_eq!(stats.urlreservoir_size, 2);
    let (u, _) = r.try_get_url_and_uri(&mut stats).unwrap();
    assert_eq!(u, "http://b.com/x");
    let (u, _) = r.try_get_url_and_uri(&mut stats).unwrap();
    assert_eq!(u, "http://c.com/");
    assert_eq!(stats.urlreservoir_getuu_calls, 3);
    assert_eq!(stats.urlreservoir_getuu_success, 3);
    assert_eq!(stats.urlreservoir_size, 0);
}

#[test]
fn empty_reservoir_answers_is_empty() {
    let mut stats = Stats::new();
    let mut r = UrlReservoir::new(4);
    assert!(matches!(r.try_get_url_and_uri(&mut stats), Err(GetUrlError::IsEmpty)));
    assert_eq!(stats.urlreservoir_getuu_calls, 1);
    assert_eq!(stats.urlreservoir_getuu_emptyqueue, 1);
    assert_eq!(stats.urlreservoir_size, 0);
}

#[test]
fn ill_formatted_urls_are_dropped() {
    let mut stats = Stats::new();
    let mut r = UrlReservoir::new(4);
    r.add_urls(urls(&["mailto:someone@example.com", "http://user@host.com/", "not a uri", "http://ok.org/"]), &mut stats);
    for _ in 0..3 {
        assert!(matches!(r.try_get_url_and_uri(&mut stats), Err(GetUrlError::IllFormattedUrl)));
    }
    assert_eq!(stats.urlreservoir_getuu_illformat, 3);
    let (u, _) = r.try_get_url_and_uri(&mut stats).unwrap();
    assert_eq!(u, "http://ok.org/");
    assert_eq!(stats.urlreservoir_getuu_success, 1);
    assert_eq!(stats.urlreservoir_getuu_calls, 4);
}

#[test]
fn closed_reservoir_takes_and_gives_nothing() {
    let mut stats = Stats::new();
    let mut r = UrlReservoir::new(4);
    r.add_urls(urls(&["http://a.com/"]), &mut stats);
    r.close();
    assert!(r.is_closed());
    assert!(matches!(r.try_get_url_and_uri(&mut stats), Err(GetUrlError::IsClosed)));
    assert_eq!(stats.urlreservoir_getuu_calls, 1);
    assert_eq!(stats.urlreservoir_getuu_emptyqueue, 0);
    r.add_urls(urls(&["http://b.com/"]), &mut stats);
    assert_eq!(stats.urlreservoir_add_calls, 2);
    assert_eq!(stats.urlreservoir_add_addedurls, 2);
    assert_eq!(stats.urlreservoir_size, 1);
    assert!(matches!(r.try_get_url_and_uri(&mut stats), Err(GetUrlError::IsClosed)));
}

#[test]
fn room_check_turns_urls_away() {
    let mut stats = Stats::new();
    let mut r = UrlReservoir::new(4);
    r.add_urls_if_room(4, urls(&["http://a.com/", "http://b.com/"]), &mut stats);
    assert_eq!(stats.urlreservoir_size, 2);
    assert_eq!(stats.urlreservoir_add_addedurls, 2);
    // 2 + 2 >= 4: turned away, only the call counts
    r.add_urls_if_room(4, urls(&["http://c.com/", "http://d.com/"]), &mut stats);
    assert_eq!(stats.urlreservoir_add_calls, 2);
    assert_eq!(stats.urlreservoir_add_addedurls, 2);
    assert_eq!(stats.urlreservoir_size, 2);
    // 2 + 1 < 4: taken
    r.add_urls_if_room(4, urls(&["http://e.com/"]), &mut stats);
    assert_eq!(stats.urlreservoir_add_addedurls, 3);
    assert_eq!(stats.urlreservoir_size, 3);
    let mut out = vec![];
    while let Ok((u, _)) = r.try_get_url_and_uri(&mut stats) {
        out.push(u);
    }
    assert_eq!(out, urls(&["http://a.com/", "http://b.com/", "http://e.com/"]));
}

#[test]
fn room_check_with_allocated_capacity() {
    let mut stats = Stats::new();
    let mut r = UrlReservoir::new(8);
    r.add_urls_if_len_lt_cap(urls(&["http://a.com/"]), &mut stats);
    assert_eq!(stats.urlreservoir_size, 1);
    assert_eq!(stats.urlreservoir_add_addedurls, 1);
    let many: Vec<String> = (0..10000).map(|i| format!("http://h{}.com/", i)).collect();
    r.add_urls_if_len_lt_cap(many, &mut stats);
    assert_eq!(stats.urlreservoir_add_calls, 2);
    assert_eq!(stats.urlreservoir_add_addedurls, 1);
    assert_eq!(stats.urlreservoir_size, 1);
}

#[test]
fn lock_failure_is_counted() {
    let mut stats = Stats::new();
    assert_eq!(UrlReservoir::lock_failed(&mut stats), GetUrlError::IsLocked);
    assert_eq!(stats.urlreservoir_getuu_calls, 1);
    assert_eq!(stats.urlreservoir_getuu_locked, 1);
}

#[test]
fn stream_steps() {
    assert_eq!(stream_step(GetUrlError::IsClosed), StreamStep::End);
    assert_eq!(stream_step(GetUrlError::IsEmpty), StreamStep::RetryAfter(EMPTY_RESERVOIR_WAIT_MS));
    assert_eq!(EMPTY_RESERVOIR_WAIT_MS, 2000);
    assert_eq!(stream_step(GetUrlError::IsLocked), StreamStep::RetryNow);
    assert_eq!(stream_step(GetUrlError::IllFormattedUrl), StreamStep::RetryNow);
}

#[test]
fn counters_wrap_around() {
    let mut stats = Stats::new();
    stats.urlreservoir_add_calls = usize::MAX;
    stats.urlreservoir_add_addedurls = usize::MAX;
    let mut r = UrlReservoir::new(2);
    r.add_urls(urls(&["http://a.com/", "http://b.com/"]), &mut stats);
    assert_eq!(stats.urlreservoir_add_calls, 0);
    assert_eq!(stats.urlreservoir_add_addedurls, 1);
}

#[test]
fn urls_that_fit_the_room_made_are_taken() {
    let mut stats = Stats::new();
    let mut r = UrlReservoir::new(8);
    r.add_urls_if_len_lt_cap(urls(&["http://a.com/"]), &mut stats);
    r.add_urls_if_len_lt_cap(urls(&["http://b.com/", "http://c.com/", "http://d.com/", "http://e.com/", "http://f.com/"]), &mut stats);
    assert_eq!(stats.urlreservoir_size, 6);
    assert_eq!(stats.urlreservoir_add_addedurls, 6);
    assert_eq!(stats.urlreservoir_add_calls, 2);
}

#[test]
fn every_attempt_is_counted_once() {
    let mut stats = Stats::new();
    let mut r = UrlReservoir::new(4);
    r.add_urls(urls(&["http://a.com/", "mailto:x@y.z"]), &mut stats);
    let _ = r.try_get_url_and_uri(&mut stats);
    let _ = r.try_get_url_and_uri(&mut stats);
    let _ = r.try_get_url_and_uri(&mut stats);
    let _ = UrlReservoir::lock_failed(&mut stats);
    r.close();
    let _ = r.try_get_url_and_uri(&mut stats);
    assert_eq!(stats.urlreservoir_getuu_calls, 5);
    let settled = stats.urlreservoir_getuu_locked
        + stats.urlreservoir_getuu_emptyqueue
        + stats.urlreservoir_getuu_illformat
        + stats.urlreservoir_getuu_success;
    assert_eq!(settled, 4);
}

#[test]
fn uri_is_the_parse_of_the_url() {
    let mut stats = Stats::new();
    let mut r = UrlReservoir::new(4);
    r.add_urls(urls(&["http://a.com/1", "http://b.com/2"]), &mut stats);
    let (u, v) = r.try_get_url_and_uri(&mut stats).unwrap();
    assert_eq!(u, "http://a.com/1");
    assert_eq!(v, "http://a.com/1".parse::<hyper::Uri>().unwrap());
    assert_eq!(stats.urlreservoir_size, 1);
    let (u, v) = r.try_get_url_and_uri(&mut stats).unwrap();
    assert_eq!(u, "http://b.com/2");
    assert_eq!(v.to_string(), "http://b.com/2");
}
