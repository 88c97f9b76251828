use vstd::prelude::*;
use crate::bloom_filter::{BloomFilter, selected_bits};
use crate::config::FileConfig;
use crate::file_store::{FileStore, file_path, filter_seeds, new_filter, size_wanted};
use crate::links::{lemma_link_values_shape, link_spans, link_values};
use crate::stats::{Stats, bumped};
use crate::text::chars_of;
use vstd::utf8::{decode_utf8, encode_utf8, valid_utf8};
use vstd::string::StringSliceAdditionalSpecFns;

verus! {

/// What a client fetched that a worker handles.
#[derive(PartialEq, Eq, Debug)]
pub enum Work {
    /// An HTML page: the URL it came from and its body.
    Html(String, Vec<u8>),
    /// A file of the kind at the given index of the configured files to
    /// gather, and its body.
    File(usize, Vec<u8>),
}

/// What `url::Url::parse(base)` then `Url::join(reference)` give, as text
/// (`Url::into_string`): `None` where the base is no absolute URL or the
/// reference cannot be resolved against it.
pub uninterp spec fn joined_url(base: Seq<char>, reference: Seq<char>) -> Option<Seq<char>>;

/// What `url::Url::parse(url)` then `Url::host` give: `None` where the text
/// is no URL; else the URL's host, if it has one, as a kind (0 for a domain,
/// 1 for an IPv4 address, 2 for an IPv6 address) and its text: the domain,
/// or the address as the standard library writes it. Two hosts are equal
/// exactly where their kinds and texts are.
pub uninterp spec fn url_host(url: Seq<char>) -> Option<Option<(u8, Seq<char>)>>;

/// What `url::Url::parse(text)` gives, as text (`Url::into_string`):
/// `None` where the text is no absolute URL.
pub uninterp spec fn parsed_url(text: Seq<char>) -> Option<Seq<char>>;

/// Parses `text` as an absolute URL with the `url` crate (`Url::parse`) and
/// gives its text. The outcome is named by `parsed_url`.
#[verifier::external_body]
fn parse_url(text: &str) -> (url: Option<String>)
    ensures
        match url {
            Some(u) => parsed_url(text@) == Some(u@),
            None => parsed_url(text@) is None,
        },
{
    url::Url::parse(text).ok().map(|u| u.into_string())
}

/// The URLs where a crawl starts, each parsed as an absolute URL and given as
/// the `url` crate writes it; `Err(i)` where the `i`-th text, the first of
/// them, is no URL.
pub fn initial_urls(texts: &Vec<String>) -> (urls: Result<Vec<String>, usize>)
    ensures
        match urls {
            Ok(v) => {
                &&& v@.len() == texts@.len()
                &&& forall|i: int| 0 <= i < texts@.len() ==> parsed_url(#[trigger] texts@[i]@) == Some(v@[i]@)
            },
            Err(i) => {
                &&& i < texts@.len()
                &&& parsed_url(texts@[i as int]@) is None
                &&& forall|j: int| 0 <= j < i ==> #[trigger] parsed_url(texts@[j]@) is Some
            },
        },
{
    let mut urls: Vec<String> = Vec::new();
    let mut i: usize = 0;
    while i < texts.len()
        invariant
            i <= texts@.len(),
            urls@.len() == i,
            forall|j: int| 0 <= j < i ==> parsed_url(#[trigger] texts@[j]@) == Some(urls@[j]@),
        decreases texts@.len() - i,
    {
        match parse_url(texts[i].as_str()) {
            Some(u) => {
                urls.push(u);
            },
            None => {
                return Err(i);
            },
        }
        i += 1;
    }
    Ok(urls)
}

/// Resolves `reference` against the absolute URL `base` with the `url`
/// crate (`Url::parse`, `Url::join`) and gives the result's text. The
/// outcome is named by `joined_url`.
#[verifier::external_body]
fn join_url(base: &str, reference: &str) -> (joined: Option<String>)
    ensures
        match joined {
            Some(u) => joined_url(base@, reference@) == Some(u@),
            None => joined_url(base@, reference@) is None,
        },
{
    match url::Url::parse(base) {
        Ok(b) => b.join(reference).ok().map(|u| u.into_string()),
        Err(_) => None,
    }
}

/// Parses `url` with the `url` crate (`Url::parse`) and gives its host
/// (`Url::host`) as a kind and a text. The outcome is named by `url_host`.
#[verifier::external_body]
fn host_of(url: &str) -> (host: Option<Option<(u8, String)>>)
    ensures
        match host {
            None => url_host(url@) is None,
            Some(None) => url_host(url@) == Some(None::<(u8, Seq<char>)>),
            Some(Some((kind, text))) => url_host(url@) == Some(Some((kind, text@))),
        },
{
    match url::Url::parse(url) {
        Err(_) => None,
        Ok(u) => Some(match u.host() {
            None => None,
            Some(url::Host::Domain(d)) => Some((0u8, d.to_string())),
            Some(url::Host::Ipv4(a)) => Some((1u8, a.to_string())),
            Some(url::Host::Ipv6(a)) => Some((2u8, a.to_string())),
        }),
    }
}

/// At most this many links of a page are considered.
pub const MAX_URLS_PER_HTML: usize = 100;

/// At most this many URLs with one host are taken from a page.
pub const MAX_URL_HOSTS_PER_HTML: usize = 4;

/// The host of a URL, as the crawler compares hosts: absent where the URL has
/// none (or is no URL).
pub open spec fn host_key(url: Seq<char>) -> Option<(u8, Seq<char>)> {
    match url_host(url) {
        Some(h) => h,
        None => None,
    }
}

/// How many of `urls` have the host `host`.
pub open spec fn count_with_host(urls: Seq<Seq<char>>, host: Option<(u8, Seq<char>)>) -> nat
    decreases urls.len(),
{
    if urls.len() == 0 {
        0
    } else {
        count_with_host(urls.drop_last(), host) + if host_key(urls.last()) == host {
            1nat
        } else {
            0nat
        }
    }
}

/// The URLs that a page at `base` yields from the link values `links`, taken
/// in order: each value is resolved against `base`; one that does not resolve
/// is skipped, and so is one whose host already has
/// `MAX_URL_HOSTS_PER_HTML` URLs among those taken before it.
pub open spec fn gathered_urls(base: Seq<char>, links: Seq<Seq<char>>) -> Seq<Seq<char>>
    decreases links.len(),
{
    if links.len() == 0 {
        Seq::empty()
    } else {
        let before = gathered_urls(base, links.drop_last());
        match joined_url(base, links.last()) {
            None => before,
            Some(u) => if count_with_host(before, host_key(u)) >= MAX_URL_HOSTS_PER_HTML {
                before
            } else {
                before.push(u)
            },
        }
    }
}

/// The URLs that the page `html` at `base` links to: the first
/// `MAX_URLS_PER_HTML` links, resolved and limited per host as
/// `gathered_urls` says.
pub open spec fn page_urls(base: Seq<char>, html: Seq<char>) -> Seq<Seq<char>> {
    gathered_urls(base, link_values(html, 0, MAX_URLS_PER_HTML as nat))
}

proof fn lemma_count_push(urls: Seq<Seq<char>>, u: Seq<char>, host: Option<(u8, Seq<char>)>)
    ensures
        count_with_host(urls.push(u), host) == count_with_host(urls, host) + if host_key(u) == host {
            1nat
        } else {
            0nat
        },
{
    assert(urls.push(u).drop_last() =~= urls);
}

proof fn lemma_gathered_bounded(base: Seq<char>, links: Seq<Seq<char>>)
    ensures
        gathered_urls(base, links).len() <= links.len(),
        forall|host: Option<(u8, Seq<char>)>|
            #[trigger] count_with_host(gathered_urls(base, links), host) <= MAX_URL_HOSTS_PER_HTML,
    decreases links.len(),
{
    if links.len() > 0 {
        let before = gathered_urls(base, links.drop_last());
        lemma_gathered_bounded(base, links.drop_last());
        match joined_url(base, links.last()) {
            None => {},
            Some(u) => {
                if count_with_host(before, host_key(u)) < MAX_URL_HOSTS_PER_HTML {
                    assert forall|host: Option<(u8, Seq<char>)>|
                        #[trigger] count_with_host(before.push(u), host) <= MAX_URL_HOSTS_PER_HTML by {
                        lemma_count_push(before, u, host);
                    }
                }
            },
        }
    }
}

/// A page yields at most `MAX_URLS_PER_HTML` URLs, and at most
/// `MAX_URL_HOSTS_PER_HTML` of them with any one host.
pub proof fn lemma_page_urls_bounded(base: Seq<char>, html: Seq<char>)
    ensures
        page_urls(base, html).len() <= MAX_URLS_PER_HTML,
        forall|host: Option<(u8, Seq<char>)>|
            #[trigger] count_with_host(page_urls(base, html), host) <= MAX_URL_HOSTS_PER_HTML,
{
    lemma_link_values_shape(html, 0, MAX_URLS_PER_HTML as nat);
    lemma_gathered_bounded(base, link_values(html, 0, MAX_URLS_PER_HTML as nat));
}

fn substring(chars: &Vec<char>, start: usize, end: usize) -> (s: String)
    requires
        start <= end <= chars@.len(),
    ensures
        s@ == chars@.subrange(start as int, end as int),
{
    let mut s = String::new();
    let mut i = start;
    while i < end
        invariant
            start <= i <= end <= chars@.len(),
            s@ == chars@.subrange(start as int, i as int),
        decreases end - i,
    {
        s.push(chars[i]);
        i += 1;
        assert(s@ =~= chars@.subrange(start as int, i as int));
    }
    s
}

fn count_hosts(hosts: &Vec<Option<(u8, String)>>, host: &Option<(u8, String)>, Ghost(urls): Ghost<Seq<Seq<char>>>) -> (count: usize)
    requires
        hosts@.len() == urls.len(),
        forall|i: int| 0 <= i < urls.len() ==> host_view(#[trigger] hosts@[i]) == host_key(urls[i]),
    ensures
        count == count_with_host(urls, host_view(*host)),
{
    let mut count: usize = 0;
    let mut i: usize = 0;
    while i < hosts.len()
        invariant
            i <= hosts@.len() == urls.len(),
            forall|j: int| 0 <= j < urls.len() ==> host_view(#[trigger] hosts@[j]) == host_key(urls[j]),
            count == count_with_host(urls.take(i as int), host_view(*host)),
            count <= i,
        decreases hosts@.len() - i,
    {
        assert(urls.take(i + 1).drop_last() =~= urls.take(i as int));
        if same_host(&hosts[i], host) {
            count += 1;
        }
        i += 1;
    }
    assert(urls.take(i as int) =~= urls);
    count
}

/// The view of a host as `host_key` gives it.
pub open spec fn host_view(host: Option<(u8, String)>) -> Option<(u8, Seq<char>)> {
    match host {
        Some((kind, text)) => Some((kind, text@)),
        None => None,
    }
}

fn same_host(a: &Option<(u8, String)>, b: &Option<(u8, String)>) -> (same: bool)
    ensures
        same == (host_view(*a) == host_view(*b)),
{
    match (a, b) {
        (None, None) => true,
        (Some((ka, ta)), Some((kb, tb))) => *ka == *kb && *ta == *tb,
        _ => false,
    }
}

/// The URLs that the page `html` at `base` links to, as `page_urls` says:
/// among its first `MAX_URLS_PER_HTML` links, those that resolve against
/// `base`, at most `MAX_URL_HOSTS_PER_HTML` for each host.
pub fn html_to_urls(base: &str, html: &str) -> (urls: Vec<String>)
    ensures
        urls.deep_view() == page_urls(base@, html@),
{
    let text = chars_of(html);
    let spans = link_spans(&text, MAX_URLS_PER_HTML);
    let ghost links = link_values(text@, 0, MAX_URLS_PER_HTML as nat);
    let mut urls: Vec<String> = Vec::new();
    let mut hosts: Vec<Option<(u8, String)>> = Vec::new();
    let mut i: usize = 0;
    while i < spans.len()
        invariant
            text@ == html@,
            links == link_values(text@, 0, MAX_URLS_PER_HTML as nat),
            spans@.len() == links.len(),
            forall|k: int|
                0 <= k < spans@.len() ==> {
                    &&& (#[trigger] spans@[k]).0 <= spans@[k].1 <= text@.len()
                    &&& text@.subrange(spans@[k].0 as int, spans@[k].1 as int) == links[k]
                },
            i <= spans@.len(),
            urls.deep_view() == gathered_urls(base@, links.take(i as int)),
            hosts@.len() == urls@.len(),
            forall|k: int| 0 <= k < urls@.len() ==> host_view(#[trigger] hosts@[k]) == host_key(urls@[k]@),
        decreases spans@.len() - i,
    {
        let (start, end) = spans[i];
        let link = substring(&text, start, end);
        assert(links.take(i + 1).drop_last() =~= links.take(i as int));
        assert(links.take(i + 1).last() == links[i as int]);
        match join_url(base, link.as_str()) {
            None => {},
            Some(u) => {
                let host = match host_of(u.as_str()) {
                    Some(h) => h,
                    None => None,
                };
                let shared = count_hosts(&hosts, &host, Ghost(urls.deep_view()));
                if shared < MAX_URL_HOSTS_PER_HTML {
                    let ghost before = urls.deep_view();
                    urls.push(u);
                    hosts.push(host);
                    assert(urls.deep_view() =~= before.push(u@));
                }
            },
        }
        i += 1;
    }
    assert(links.take(i as int) =~= links);
    urls
}

/// `String::from_utf8`: the bytes as a string where they are valid UTF-8,
/// holding the characters that they encode; `None` otherwise.
#[verifier::external_body]
fn string_from_utf8(bytes: Vec<u8>) -> (s: Option<String>)
    ensures
        s is Some <==> valid_utf8(bytes@),
        s matches Some(t) ==> t@ == decode_utf8(bytes@),
{
    String::from_utf8(bytes).ok()
}

/// A fresh filter of URLs already handed to the reservoir.
pub fn new_url_filter() -> (filter: BloomFilter)
    ensures
        filter.well_formed(),
        filter.seeds() == filter_seeds(),
        filter.bits() == Set::<u32>::empty(),
{
    new_filter()
}

/// Offers `urls`, in order, to a filter whose set bits are `bits`: the URLs
/// that it did not report present as they came, and its bits afterwards.
/// Each URL is keyed by its UTF-8 bytes.
pub open spec fn unseen_urls(bits: Set<u32>, seeds: Seq<u32>, urls: Seq<Seq<char>>) -> (Seq<Seq<char>>, Set<u32>)
    decreases urls.len(),
{
    if urls.len() == 0 {
        (Seq::empty(), bits)
    } else {
        let (kept, seen) = unseen_urls(bits, seeds, urls.drop_last());
        let selected = selected_bits(seeds, encode_utf8(urls.last()));
        (if selected.subset_of(seen) {
            kept
        } else {
            kept.push(urls.last())
        }, seen.union(selected))
    }
}

/// Offering URLs to the filter only ever adds bits, it marks every URL
/// offered, and it keeps only URLs that were offered.
pub proof fn lemma_unseen_marks(bits: Set<u32>, seeds: Seq<u32>, urls: Seq<Seq<char>>)
    ensures
        bits.subset_of(unseen_urls(bits, seeds, urls).1),
        forall|i: int|
            0 <= i < urls.len() ==> selected_bits(seeds, encode_utf8(#[trigger] urls[i])).subset_of(
                unseen_urls(bits, seeds, urls).1,
            ),
        forall|u: Seq<char>|
            #[trigger] unseen_urls(bits, seeds, urls).0.contains(u) ==> urls.contains(u),
    decreases urls.len(),
{
    if urls.len() > 0 {
        let prefix = urls.drop_last();
        lemma_unseen_marks(bits, seeds, prefix);
        assert forall|i: int|
            0 <= i < urls.len() implies selected_bits(seeds, encode_utf8(#[trigger] urls[i])).subset_of(
                unseen_urls(bits, seeds, urls).1,
            ) by {
            if i < urls.len() - 1 {
                assert(prefix[i] == urls[i]);
            }
        }
        assert forall|u: Seq<char>| #[trigger] unseen_urls(bits, seeds, urls).0.contains(u) implies urls.contains(
            u,
        ) by {
            if unseen_urls(bits, seeds, prefix).0.contains(u) {
                let j = choose|j: int| 0 <= j < prefix.len() && prefix[j] == u;
                assert(urls[j] == u);
            } else {
                assert(urls[urls.len() - 1] == u);
            }
        }
    }
}

proof fn lemma_seen_not_kept(bits: Set<u32>, seeds: Seq<u32>, urls: Seq<Seq<char>>, u: Seq<char>)
    requires
        selected_bits(seeds, encode_utf8(u)).subset_of(bits),
    ensures
        !unseen_urls(bits, seeds, urls).0.contains(u),
    decreases urls.len(),
{
    if urls.len() > 0 {
        let prefix = urls.drop_last();
        lemma_seen_not_kept(bits, seeds, prefix, u);
        lemma_unseen_marks(bits, seeds, prefix);
    }
}

proof fn lemma_kept_distinct(bits: Set<u32>, seeds: Seq<u32>, urls: Seq<Seq<char>>)
    ensures
        unseen_urls(bits, seeds, urls).0.no_duplicates(),
    decreases urls.len(),
{
    if urls.len() > 0 {
        let prefix = urls.drop_last();
        lemma_kept_distinct(bits, seeds, prefix);
        lemma_unseen_marks(bits, seeds, prefix);
        let (kept, seen) = unseen_urls(bits, seeds, prefix);
        let last = urls.last();
        if !selected_bits(seeds, encode_utf8(last)).subset_of(seen) {
            if kept.contains(last) {
                let j = choose|j: int| 0 <= j < prefix.len() && prefix[j] == last;
                assert(selected_bits(seeds, encode_utf8(prefix[j])).subset_of(seen));
            }
            assert forall|a: int, b: int|
                0 <= a < kept.push(last).len() && 0 <= b < kept.push(last).len() && a != b implies kept.push(
                    last,
                )[a] != kept.push(last)[b] by {
                if a == kept.len() {
                    assert(kept.contains(kept[b]));
                } else if b == kept.len() {
                    assert(kept.contains(kept[a]));
                }
            }
        }
    }
}

/// No URL is handed to the reservoir twice. Offering two batches of URLs in
/// turn to the filter (the second to a filter whose bits include what the
/// first left, as the filter only ever gains bits), each batch keeps no URL
/// twice, and the second keeps none that the first kept.
pub proof fn lemma_no_url_handed_twice(
    bits: Set<u32>,
    seeds: Seq<u32>,
    first: Seq<Seq<char>>,
    later_bits: Set<u32>,
    second: Seq<Seq<char>>,
)
    requires
        unseen_urls(bits, seeds, first).1.subset_of(later_bits),
    ensures
        unseen_urls(bits, seeds, first).0.no_duplicates(),
        unseen_urls(later_bits, seeds, second).0.no_duplicates(),
        forall|u: Seq<char>|
            #[trigger] unseen_urls(bits, seeds, first).0.contains(u) ==> !unseen_urls(
                later_bits,
                seeds,
                second,
            ).0.contains(u),
{
    lemma_kept_distinct(bits, seeds, first);
    lemma_kept_distinct(later_bits, seeds, second);
    lemma_unseen_marks(bits, seeds, first);
    assert forall|u: Seq<char>| #[trigger] unseen_urls(bits, seeds, first).0.contains(u) implies !unseen_urls(
        later_bits,
        seeds,
        second,
    ).0.contains(u) by {
        let j = choose|j: int| 0 <= j < first.len() && first[j] == u;
        assert(selected_bits(seeds, encode_utf8(first[j])).subset_of(later_bits));
        lemma_seen_not_kept(later_bits, seeds, second, u);
    }
}

/// Offers batches of URLs in turn to a filter whose set bits are `bits`, as
/// `handle_work` does with the URLs of one page after another (a file, or a
/// page that is not UTF-8, offers nothing): all the URLs kept, batch after
/// batch, and the filter's bits afterwards.
pub open spec fn unseen_batches(bits: Set<u32>, seeds: Seq<u32>, batches: Seq<Seq<Seq<char>>>) -> (Seq<Seq<char>>, Set<u32>)
    decreases batches.len(),
{
    if batches.len() == 0 {
        (Seq::empty(), bits)
    } else {
        let (kept, seen) = unseen_batches(bits, seeds, batches.drop_last());
        let (more, after) = unseen_urls(seen, seeds, batches.last());
        (kept + more, after)
    }
}

proof fn lemma_batches_marked(bits: Set<u32>, seeds: Seq<u32>, batches: Seq<Seq<Seq<char>>>)
    ensures
        forall|u: Seq<char>|
            #[trigger] unseen_batches(bits, seeds, batches).0.contains(u) ==> selected_bits(
                seeds,
                encode_utf8(u),
            ).subset_of(unseen_batches(bits, seeds, batches).1),
        unseen_batches(bits, seeds, batches).0.no_duplicates(),
    decreases batches.len(),
{
    if batches.len() > 0 {
        let prefix = batches.drop_last();
        lemma_batches_marked(bits, seeds, prefix);
        let (kept, seen) = unseen_batches(bits, seeds, prefix);
        let (more, after) = unseen_urls(seen, seeds, batches.last());
        lemma_unseen_marks(seen, seeds, batches.last());
        lemma_kept_distinct(seen, seeds, batches.last());
        assert forall|u: Seq<char>| #[trigger] (kept + more).contains(u) implies selected_bits(
            seeds,
            encode_utf8(u),
        ).subset_of(after) by {
            if kept.contains(u) {
            } else {
                let j = choose|j: int| 0 <= j < (kept + more).len() && (kept + more)[j] == u;
                assert(more[j - kept.len()] == u);
                assert(more.contains(u));
                let k = choose|k: int| 0 <= k < batches.last().len() && batches.last()[k] == u;
            }
        }
        assert forall|a: int, b: int|
            0 <= a < (kept + more).len() && 0 <= b < (kept + more).len() && a != b implies (kept + more)[a] != (
            kept + more)[b] by {
            if a < kept.len() && b >= kept.len() {
                let u = kept[a];
                assert(kept.contains(u));
                lemma_seen_not_kept(seen, seeds, batches.last(), u);
                assert(more[b - kept.len()] == (kept + more)[b]);
            } else if b < kept.len() && a >= kept.len() {
                let u = kept[b];
                assert(kept.contains(u));
                lemma_seen_not_kept(seen, seeds, batches.last(), u);
                assert(more[a - kept.len()] == (kept + more)[a]);
            }
        }
    }
}

/// No URL is handed to the reservoir twice, over any sequence of pages: the
/// URLs kept from all of them, taken together, hold no URL twice.
pub proof fn lemma_no_url_handed_twice_over_pages(bits: Set<u32>, seeds: Seq<u32>, batches: Seq<Seq<Seq<char>>>)
    ensures
        unseen_batches(bits, seeds, batches).0.no_duplicates(),
{
    lemma_batches_marked(bits, seeds, batches);
}

/// Keeps those of `urls` that `filter` does not report present, adding each
/// to the filter as it comes.
pub fn retain_unseen(urls: Vec<String>, filter: &mut BloomFilter) -> (kept: Vec<String>)
    requires
        old(filter).well_formed(),
    ensures
        final(filter).well_formed(),
        final(filter).seeds() == old(filter).seeds(),
        (kept.deep_view(), final(filter).bits()) == unseen_urls(old(filter).bits(), old(filter).seeds(), urls.deep_view()),
{
    let ghost start_bits = filter.bits();
    let ghost seeds = filter.seeds();
    let ghost all = urls.deep_view();
    let mut kept: Vec<String> = Vec::new();
    for url in it: urls.into_iter()
        invariant
            filter.well_formed(),
            filter.seeds() == seeds,
            it.seq() == urls@,
            all == urls.deep_view(),
            (kept.deep_view(), filter.bits()) == unseen_urls(start_bits, seeds, all.take(it.index() as int)),
    {
        let ghost i = it.index();
        assert(all.take(i + 1).drop_last() =~= all.take(i as int));
        assert(all.take(i + 1).last() == url@);
        let ghost before = kept.deep_view();
        let present = filter.contains_add(url.as_str().as_bytes());
        if !present {
            kept.push(url);
            assert(kept.deep_view() =~= before.push(all[i as int]));
        }
    }
    assert(all.take(all.len() as int) =~= all);
    kept
}

impl Stats {
    /// After a worker got an HTML page.
    pub open spec fn after_html(self) -> Stats {
        Stats { worker_got_html: bumped(self.worker_got_html), ..self }
    }

    /// After a worker got a file.
    pub open spec fn after_file(self) -> Stats {
        Stats { worker_got_file: bumped(self.worker_got_file), ..self }
    }
}

/// What a worker is left to do after handling a piece of work.
#[derive(PartialEq, Eq, Debug)]
pub enum WorkResult {
    /// Hand these URLs to the reservoir.
    Urls(Vec<String>),
    /// Write these bytes to the file at this path.
    Store(String, Vec<u8>),
    /// Nothing.
    Nothing,
}

/// Handles one piece of work. A page is counted; where its body is UTF-8,
/// the URLs it links to (as `page_urls` finds them, resolved against the URL
/// it came from) that the URL filter does not report present are the URLs to
/// hand to the reservoir, and they are added to the filter. A file is counted
/// and handed to the file store, which says whether and where it is written.
pub fn handle_work(
    work: Work,
    url_filter: &mut BloomFilter,
    file_store: &mut FileStore,
    files: &Vec<FileConfig>,
    stats: &mut Stats,
) -> (result: WorkResult)
    requires
        old(url_filter).well_formed(),
        old(file_store).filter().well_formed(),
    ensures
        final(url_filter).well_formed(),
        final(url_filter).seeds() == old(url_filter).seeds(),
        final(file_store).filter().well_formed(),
        final(file_store).filter().seeds() == old(file_store).filter().seeds(),
        match work {
            Work::File(index, bytes) => {
                &&& final(url_filter).bits() == old(url_filter).bits()
                &&& if index >= files@.len() || !size_wanted(files@[index as int], bytes@.len()) {
                    &&& result == WorkResult::Nothing
                    &&& final(file_store).filter().bits() == old(file_store).filter().bits()
                    &&& final(file_store).stored() == old(file_store).stored()
                    &&& *final(stats) == old(stats).after_file()
                } else if old(file_store).filter().reports(bytes@) {
                    &&& result == WorkResult::Nothing
                    &&& final(file_store).filter().bits() == old(file_store).filter().bits()
                    &&& final(file_store).stored() == old(file_store).stored()
                    &&& *final(stats) == old(stats).after_file().after_repeated_file()
                } else {
                    &&& result matches WorkResult::Store(p, b) && p@ == file_path(
                        files@[index as int],
                        old(file_store).stored() as nat,
                    ) && b == bytes
                    &&& final(file_store).filter().bits() == old(file_store).filter().bits().union(
                        selected_bits(old(file_store).filter().seeds(), bytes@),
                    )
                    &&& final(file_store).stored() == bumped(old(file_store).stored())
                    &&& *final(stats) == old(stats).after_file()
                }
            },
            Work::Html(url, bytes) => {
                &&& *final(stats) == old(stats).after_html()
                &&& *final(file_store) == *old(file_store)
                &&& if valid_utf8(bytes@) {
                    let (kept, bits) = unseen_urls(
                        old(url_filter).bits(),
                        old(url_filter).seeds(),
                        page_urls(url@, decode_utf8(bytes@)),
                    );
                    &&& result matches WorkResult::Urls(urls) && urls.deep_view() == kept
                    &&& final(url_filter).bits() == bits
                } else {
                    &&& result == WorkResult::Nothing
                    &&& final(url_filter).bits() == old(url_filter).bits()
                }
            },
        },
{
    match work {
        Work::Html(url, bytes) => {
            stats.worker_got_html = stats.worker_got_html.wrapping_add(1);
            match string_from_utf8(bytes) {
                Some(html) => {
                    let urls = html_to_urls(url.as_str(), html.as_str());
                    WorkResult::Urls(retain_unseen(urls, url_filter))
                },
                None => WorkResult::Nothing,
            }
        },
        Work::File(index, bytes) => {
            stats.worker_got_file = stats.worker_got_file.wrapping_add(1);
            match file_store.file_to_store(index, bytes.as_slice(), files, stats) {
                Some(path) => WorkResult::Store(path, bytes),
                None => WorkResult::Nothing,
            }
        },
    }
}

} // verus!
