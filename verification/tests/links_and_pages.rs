use crawler::bloom_filter::BloomFilter;
use crawler::links::link_spans;
use crawler::murmur::murmur3;
use crawler::stats::Stats;
use crawler::config::FileConfig;
use crawler::file_store::FileStore;
use crawler::worker::{Work, WorkResult, handle_work, initial_urls, html_to_urls, new_url_filter, retain_unseen, MAX_URLS_PER_HTML};

fn spans_text(html: &str, limit: usize) -> Vec<String> {
    let chars: Vec<char> = html.chars().collect();
    link_spans(&chars, limit).iter().map(|(s, e)| chars[*s..*e].iter().collect()).collect()
}

fn regex_text(html: &str, limit: usize) -> Vec<String> {
    let re = regex::Regex::new("(?:href=|src=|url=)[\"']?([^\"' <>]*)").unwrap();
    re.captures_iter(html).take(limit).map(|c| c.get(1).unwrap().as_str().to_string()).collect()
}

const PAGES: &[&str] = &[
    "",
    "no links here",
    "<a href=\"/a\">x</a> <img src='b.png'> <meta content=\"0; url=http://c.com/\">",
    "href=href=src=url=",
    "<a href= x>",
    "<a href=\"\">",
    "href=\"a\"b\" src='''",
    "x href=/path?q=1&r=2#frag> tail src=é/ü.png url=\"http://exámple.com\"",
    "hrefhref=abc src=\tdef\nghi url=<x>",
    "srcsrc=src=x",
    "HREF=up href='single' href=\"double\" href=bare>",
];

#[test]
fn link_values_match_the_pattern() {
    for page in PAGES {
        for limit in [0usize, 1, 2, 100] {
            assert_eq!(spans_text(page, limit), regex_text(page, limit), "page {:?} limit {}", page, limit);
        }
    }
    let long: String = (0..300).map(|i| format!("<a href=\"/p{}\">", i)).collect();
    assert_eq!(spans_text(&long, MAX_URLS_PER_HTML), regex_text(&long, MAX_URLS_PER_HTML));
    assert_eq!(spans_text(&long, MAX_URLS_PER_HTML).len(), 100);
}

#[test]
fn page_links_resolve_against_base() {
    let html = "<a href=\"/a\">x</a><img src='img/b.png'><a href=\"https://other.org/z\"><a href=\"http://[::1\">";
    let urls = html_to_urls("http://example.com/dir/page.html", html);
    assert_eq!(
        urls,
        vec![
            "http://example.com/a".to_string(),
            "http://example.com/dir/img/b.png".to_string(),
            "https://other.org/z".to_string(),
        ]
    );
}

#[test]
fn at_most_four_urls_per_host() {
    let html: String = (0..10).map(|i| format!("<a href=\"/p{}\">", i)).collect::<String>()
        + "<a href=\"http://b.com/\"><a href=\"mailto:a@b.c\">";
    let urls = html_to_urls("http://a.com/", &html);
    assert_eq!(
        urls,
        vec![
            "http://a.com/p0".to_string(),
            "http://a.com/p1".to_string(),
            "http://a.com/p2".to_string(),
            "http://a.com/p3".to_string(),
            "http://b.com/".to_string(),
            "mailto:a@b.c".to_string(),
        ]
    );
}

#[test]
fn at_most_a_hundred_links_per_page() {
    let html: String = (0..150).map(|i| format!("<a href=\"http://h{}.com/\">", i)).collect();
    let urls = html_to_urls("http://a.com/", &html);
    assert_eq!(urls.len(), 100);
    assert_eq!(urls[99], "http://h99.com/");
}

#[test]
fn murmur3_known_values() {
    assert_eq!(murmur3(b"", 0), 0);
    assert_eq!(murmur3(b"", 1), 0x514E28B7);
    assert_eq!(murmur3(b"", 0xffffffff), 0x81F16F39);
    assert_eq!(murmur3(&[0, 0, 0, 0], 0), 0x2362F9DE);
    assert_eq!(murmur3(b"aaaa", 0x9747b28c), 0x5A97808A);
    assert_eq!(murmur3(b"abc", 0), 0xB3DD93FA);
    assert_eq!(murmur3(b"Hello, world!", 0x9747b28c), 0x24884CBA);
    assert_eq!(murmur3(b"The quick brown fox jumps over the lazy dog", 0x9747b28c), 0x2FA826CD);
}

#[test]
fn bloom_filter_never_forgets() {
    let mut f = BloomFilter::new(vec![1, 2, 3]);
    assert!(!f.contains_add(b"http://a.com/"));
    assert!(f.contains_add(b"http://a.com/"));
    assert!(!f.contains_add(b"http://b.com/"));
    assert!(f.contains_add(b"http://a.com/"));
    assert!(f.contains_add(b"http://b.com/"));
}

#[test]
fn urls_are_handed_over_once() {
    let mut f = new_url_filter();
    let batch = vec!["http://a.com/".to_string(), "http://b.com/".to_string(), "http://a.com/".to_string()];
    let kept = retain_unseen(batch, &mut f);
    assert_eq!(kept, vec!["http://a.com/".to_string(), "http://b.com/".to_string()]);
    let kept = retain_unseen(vec!["http://b.com/".to_string(), "http://c.com/".to_string()], &mut f);
    assert_eq!(kept, vec!["http://c.com/".to_string()]);
}

fn png_kind() -> Vec<FileConfig> {
    vec![FileConfig {
        mimetype: "image/png".to_string(),
        file_prefix: "img_".to_string(),
        file_extension: "png".to_string(),
        folder_name: "pngs".to_string(),
        min_size: 2,
        max_size: 5,
    }]
}

#[test]
fn handling_work() {
    let mut f = new_url_filter();
    let mut store = FileStore::new();
    let files = png_kind();
    let mut stats = Stats::new();
    let page = b"<a href=\"/x\"><a href=\"/y\"><a href=\"/x\">".to_vec();
    let found = handle_work(Work::Html("http://a.com/".to_string(), page.clone()), &mut f, &mut store, &files, &mut stats);
    assert_eq!(found, WorkResult::Urls(vec!["http://a.com/x".to_string(), "http://a.com/y".to_string()]));
    assert_eq!(stats.worker_got_html, 1);
    let found = handle_work(Work::Html("http://a.com/".to_string(), page), &mut f, &mut store, &files, &mut stats);
    assert_eq!(found, WorkResult::Urls(vec![]));
    assert_eq!(stats.worker_got_html, 2);
    let found = handle_work(Work::Html("http://a.com/".to_string(), vec![0xff, 0xfe]), &mut f, &mut store, &files, &mut stats);
    assert_eq!(found, WorkResult::Nothing);
    assert_eq!(stats.worker_got_html, 3);
}

#[test]
fn files_are_stored_once() {
    let mut f = new_url_filter();
    let mut store = FileStore::new();
    let files = png_kind();
    let mut stats = Stats::new();
    let found = handle_work(Work::File(0, vec![1, 2, 3]), &mut f, &mut store, &files, &mut stats);
    assert_eq!(found, WorkResult::Store("pngs/img_0.png".to_string(), vec![1, 2, 3]));
    let found = handle_work(Work::File(0, vec![1, 2, 3]), &mut f, &mut store, &files, &mut stats);
    assert_eq!(found, WorkResult::Nothing);
    assert_eq!(stats.worker_got_repeated_file, 1);
    let found = handle_work(Work::File(0, vec![4, 5, 6, 7, 8]), &mut f, &mut store, &files, &mut stats);
    assert_eq!(found, WorkResult::Store("pngs/img_1.png".to_string(), vec![4, 5, 6, 7, 8]));
    // too small, too large, no such kind
    assert_eq!(handle_work(Work::File(0, vec![9]), &mut f, &mut store, &files, &mut stats), WorkResult::Nothing);
    assert_eq!(handle_work(Work::File(0, vec![9; 6]), &mut f, &mut store, &files, &mut stats), WorkResult::Nothing);
    assert_eq!(handle_work(Work::File(1, vec![9, 9]), &mut f, &mut store, &files, &mut stats), WorkResult::Nothing);
    assert_eq!(stats.worker_got_file, 6);
    assert_eq!(stats.worker_got_repeated_file, 1);
    stats.record_write_error();
    assert_eq!(stats.worker_write_file_error, 1);
}

#[test]
fn starting_urls_are_parsed() {
    let texts = vec!["http://Example.COM".to_string(), "https://a.org/x/../y".to_string()];
    assert_eq!(initial_urls(&texts), Ok(vec!["http://example.com/".to_string(), "https://a.org/y".to_string()]));
    let bad = vec!["http://ok.com/".to_string(), "no url".to_string(), "also no url".to_string()];
    assert_eq!(initial_urls(&bad), Err(1));
}
