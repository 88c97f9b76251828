use vstd::prelude::*;
use std::collections::VecDeque;
use std::str::FromStr;
use crate::stats::{Stats, bumped, raised};
use crate::text::{occurs_at, occurs_in, str_contains};

verus! {

/// hyper's URI type, carried through to the clients unread.
#[verifier::external_type_specification]
#[verifier::external_body]
pub struct ExUri(hyper::Uri);

/// What `hyper::Uri::from_str` makes of a text: `None` where the text is no
/// URI, else the text of the URI's authority part, where it has one.
pub uninterp spec fn uri_authority(text: Seq<char>) -> Option<Option<Seq<char>>>;

/// The URI that `hyper::Uri::from_str` makes of a text, where it makes one.
pub uninterp spec fn parsed_uri(text: Seq<char>) -> hyper::Uri;

/// The views of an optional string.
pub open spec fn opt_view(s: Option<String>) -> Option<Seq<char>> {
    match s {
        Some(t) => Some(t@),
        None => None,
    }
}

/// Parses `text` with `hyper::Uri::from_str` and hands back the URI with the
/// text of its authority part (`Uri::authority_part`, `Authority::as_str`).
/// The contract names the outcome by `uri_authority` and the URI by
/// `parsed_uri`.
#[verifier::external_body]
fn parse_uri(text: &str) -> (parsed: Option<(hyper::Uri, Option<String>)>)
    ensures
        match parsed {
            None => uri_authority(text@) is None,
            Some((uri, authority)) => {
                &&& uri == parsed_uri(text@)
                &&& uri_authority(text@) == Some(opt_view(authority))
            },
        },
{
    match hyper::Uri::from_str(text) {
        Err(_) => None,
        Ok(uri) => {
            let authority = uri.authority_part().map(|a| a.as_str().to_string());
            Some((uri, authority))
        },
    }
}

/// The room that a deque of URLs was made with: the capacity asked of
/// `VecDeque::with_capacity`.
pub uninterp spec fn deque_made_with(deque: VecDeque<String>) -> nat;

/// `VecDeque::with_capacity`: an empty deque with room for at least
/// `capacity` URLs, recorded as the room it was made with.
#[verifier::external_body]
fn deque_with_capacity(capacity: usize) -> (deque: VecDeque<String>)
    ensures
        deque@ == Seq::<String>::empty(),
        deque_made_with(deque) == capacity,
{
    VecDeque::with_capacity(capacity)
}

/// `VecDeque::capacity`: how many URLs the deque holds without reallocating.
/// That is never less than its length, nor than the room it was made with
/// (pushing and popping never shrink a deque). Nothing else is said of the
/// number: it is what the allocator gave.
#[verifier::external_body]
fn deque_capacity(deque: &VecDeque<String>) -> (capacity: usize)
    ensures
        capacity >= deque@.len(),
        capacity >= deque_made_with(*deque),
{
    deque.capacity()
}

/// `VecDeque::push_back`: appends a URL; the deque keeps the room it was made
/// with.
#[verifier::external_body]
fn deque_push_back(deque: &mut VecDeque<String>, url: String)
    ensures
        final(deque)@ == old(deque)@.push(url),
        deque_made_with(*final(deque)) == deque_made_with(*old(deque)),
{
    deque.push_back(url)
}

/// `VecDeque::pop_front`: takes the first URL, if any; the deque keeps the
/// room it was made with.
#[verifier::external_body]
fn deque_pop_front(deque: &mut VecDeque<String>) -> (front: Option<String>)
    ensures
        deque_made_with(*final(deque)) == deque_made_with(*old(deque)),
        match front {
            Some(url) => {
                &&& old(deque)@.len() > 0
                &&& url == old(deque)@[0]
                &&& final(deque)@ == old(deque)@.drop_first()
            },
            None => {
                &&& old(deque)@.len() == 0
                &&& final(deque)@ == old(deque)@
            },
        },
{
    deque.pop_front()
}

/// The text `@`.
pub open spec fn at_sign() -> Seq<char> {
    seq!['@']
}

/// A URL that the clients can request: it parses as a URI, and the URI has an
/// authority part without `@` in it.
pub open spec fn fetchable(url: Seq<char>) -> bool {
    match uri_authority(url) {
        Some(Some(authority)) => !occurs_in(authority, at_sign()),
        _ => false,
    }
}

/// A URL is handed out exactly when hyper parses it into a URI with an
/// authority part that holds no `@`; any other authority, such as a host with
/// a port, is fine.
pub proof fn lemma_fetchable_iff_authority_without_at(url: Seq<char>)
    ensures
        fetchable(url) <==> (uri_authority(url) matches Some(Some(authority)) && forall|k: int|
            0 <= k < authority.len() ==> #[trigger] authority[k] != '@'),
{
    if let Some(Some(authority)) = uri_authority(url) {
        if exists|k: int| 0 <= k < authority.len() && #[trigger] authority[k] == '@' {
            let k = choose|k: int| 0 <= k < authority.len() && #[trigger] authority[k] == '@';
            assert(authority.subrange(k, k + 1) =~= at_sign());
            assert(occurs_at(authority, at_sign(), k));
        } else {
            assert forall|start: int| !occurs_at(authority, at_sign(), start) by {
                if occurs_at(authority, at_sign(), start) {
                    assert(authority.subrange(start, start + 1)[0] == '@');
                }
            }
        }
    }
}

/// Why no URL came out of the reservoir.
#[derive(PartialEq, Eq, Structural, Clone, Copy, Debug)]
pub enum GetUrlError {
    IsLocked,
    IsEmpty,
    IllFormattedUrl,
    IsClosed,
}

/// What a stream of URLs from the reservoir does after a failed attempt.
#[derive(PartialEq, Eq, Structural, Clone, Copy, Debug)]
pub enum StreamStep {
    /// The reservoir is closed: the stream ends.
    End,
    /// Try again once the given number of milliseconds have passed.
    RetryAfter(u64),
    /// Try again at once.
    RetryNow,
}

/// How long a stream waits before it asks an empty reservoir again.
pub const EMPTY_RESERVOIR_WAIT_MS: u64 = 2000;

/// What the stream of URLs does after `error`: it ends on a closed
/// reservoir, waits before it asks an empty one again, and tries again at once
/// otherwise.
pub open spec fn step_after(error: GetUrlError) -> StreamStep {
    match error {
        GetUrlError::IsClosed => StreamStep::End,
        GetUrlError::IsEmpty => StreamStep::RetryAfter(EMPTY_RESERVOIR_WAIT_MS),
        _ => StreamStep::RetryNow,
    }
}

/// What the stream of URLs does after `error`, as `step_after` says.
pub fn stream_step(error: GetUrlError) -> (step: StreamStep)
    ensures
        step == step_after(error),
{
    match error {
        GetUrlError::IsClosed => StreamStep::End,
        GetUrlError::IsEmpty => StreamStep::RetryAfter(EMPTY_RESERVOIR_WAIT_MS),
        _ => StreamStep::RetryNow,
    }
}

/// A queue of URLs waiting to be visited, first in first out. Once closed it
/// holds nothing and takes nothing.
pub struct UrlReservoir {
    url_deque: Option<VecDeque<String>>,
}

impl View for UrlReservoir {
    type V = Option<Seq<String>>;

    /// `None` once closed, else the queued URLs, the next one first.
    closed spec fn view(&self) -> Option<Seq<String>> {
        match self.url_deque {
            Some(d) => Some(d@),
            None => None,
        }
    }
}

impl UrlReservoir {
    /// The room that an open reservoir was made with; 0 once closed.
    pub closed spec fn room(&self) -> nat {
        match self.url_deque {
            Some(d) => deque_made_with(d),
            None => 0,
        }
    }
}

impl Stats {
    /// After an `add_urls` call that found `len` URLs queued (`None` when
    /// closed) and was handed `n` URLs.
    pub open spec fn after_add(self, len: Option<nat>, n: nat) -> Stats {
        Stats {
            urlreservoir_add_calls: bumped(self.urlreservoir_add_calls),
            urlreservoir_add_addedurls: raised(self.urlreservoir_add_addedurls, n as usize),
            urlreservoir_size: match len {
                Some(l) => l as usize,
                None => self.urlreservoir_size,
            },
            ..self
        }
    }

    /// After an `add_urls_if_len_lt_cap` call that turned its URLs away.
    pub open spec fn after_refused_add(self) -> Stats {
        Stats { urlreservoir_add_calls: bumped(self.urlreservoir_add_calls), ..self }
    }

    /// After an attempt to take a URL from a closed reservoir.
    pub open spec fn after_get_closed(self) -> Stats {
        Stats { urlreservoir_getuu_calls: bumped(self.urlreservoir_getuu_calls), ..self }
    }

    /// After an attempt to take a URL from a reservoir that another holder had
    /// locked.
    pub open spec fn after_get_locked(self) -> Stats {
        Stats {
            urlreservoir_getuu_calls: bumped(self.urlreservoir_getuu_calls),
            urlreservoir_getuu_locked: bumped(self.urlreservoir_getuu_locked),
            ..self
        }
    }

    /// After an attempt to take a URL from an empty reservoir.
    pub open spec fn after_get_empty(self) -> Stats {
        Stats {
            urlreservoir_getuu_calls: bumped(self.urlreservoir_getuu_calls),
            urlreservoir_size: 0,
            urlreservoir_getuu_emptyqueue: bumped(self.urlreservoir_getuu_emptyqueue),
            ..self
        }
    }

    /// After a URL was taken from the reservoir, leaving `left` URLs there;
    /// `fetched` tells whether the clients can request it.
    pub open spec fn after_get_taken(self, left: nat, fetched: bool) -> Stats {
        Stats {
            urlreservoir_getuu_calls: bumped(self.urlreservoir_getuu_calls),
            urlreservoir_size: left as usize,
            urlreservoir_getuu_illformat: if fetched {
                self.urlreservoir_getuu_illformat
            } else {
                bumped(self.urlreservoir_getuu_illformat)
            },
            urlreservoir_getuu_success: if fetched {
                bumped(self.urlreservoir_getuu_success)
            } else {
                self.urlreservoir_getuu_success
            },
            ..self
        }
    }
}

/// The reservoir after `urls` were appended to it.
pub open spec fn appended(queue: Option<Seq<String>>, urls: Seq<String>) -> Option<Seq<String>> {
    match queue {
        Some(q) => Some(q + urls),
        None => None,
    }
}

/// The length of an open reservoir, `None` for a closed one.
pub open spec fn queue_len(queue: Option<Seq<String>>) -> Option<nat> {
    match queue {
        Some(q) => Some(q.len()),
        None => None,
    }
}

/// An open reservoir of `len` URLs with the given capacity has room for `n`
/// more.
pub open spec fn has_room(len: nat, n: nat, capacity: nat) -> bool {
    len + n < capacity
}

/// The outcome of offering `urls` to a reservoir (`before`, `after`, with the
/// statistics `stats_before`, `stats_after`) that takes them only where an
/// open reservoir of `len` URLs has `len + urls.len() < capacity`; a closed
/// one counts them and drops them, as `add_urls` does.
pub open spec fn added_if_room(
    before: Option<Seq<String>>,
    after: Option<Seq<String>>,
    stats_before: Stats,
    stats_after: Stats,
    urls: Seq<String>,
    capacity: nat,
) -> bool {
    match before {
        Some(q) if !has_room(q.len(), urls.len(), capacity) => {
            &&& after == before
            &&& stats_after == stats_before.after_refused_add()
        },
        _ => {
            &&& after == appended(before, urls)
            &&& stats_after == stats_before.after_add(queue_len(appended(before, urls)), urls.len())
        },
    }
}

impl UrlReservoir {
    /// An open, empty reservoir with room for `capacity` URLs before it
    /// grows.
    pub fn new(capacity: usize) -> (reservoir: UrlReservoir)
        ensures
            reservoir@ == Some(Seq::<String>::empty()),
            reservoir.room() == capacity,
    {
        UrlReservoir { url_deque: Some(deque_with_capacity(capacity)) }
    }

    /// Closes the reservoir: what it holds is dropped, and from now on it
    /// takes nothing and hands out nothing.
    pub fn close(&mut self)
        ensures
            final(self)@ is None,
    {
        self.url_deque = None;
    }

    /// Whether the reservoir is closed.
    pub fn is_closed(&self) -> (closed: bool)
        ensures
            closed == self@ is None,
    {
        self.url_deque.is_none()
    }

    fn extend(deque: &mut VecDeque<String>, urls: Vec<String>)
        ensures
            final(deque)@ == old(deque)@ + urls@,
            deque_made_with(*final(deque)) == deque_made_with(*old(deque)),
    {
        let ghost start = deque@;
        let ghost made_with = deque_made_with(*deque);
        for url in it: urls.into_iter()
            invariant
                deque@ == start + it.seq().take(it.index() as int),
                deque_made_with(*deque) == made_with,
                it.seq() == urls@,
        {
            deque_push_back(deque, url);
        }
        assert(urls@.take(urls@.len() as int) =~= urls@);
    }

    /// Appends `urls` at the back of an open reservoir; a closed one drops
    /// them. Either way the call and the number of URLs handed over are
    /// counted, and an open reservoir's new length is recorded.
    pub fn add_urls(&mut self, urls: Vec<String>, stats: &mut Stats)
        ensures
            final(self)@ == appended(old(self)@, urls@),
            final(self).room() == old(self).room(),
            *final(stats) == old(stats).after_add(queue_len(appended(old(self)@, urls@)), urls@.len()),
    {
        let n = urls.len();
        stats.urlreservoir_add_calls = stats.urlreservoir_add_calls.wrapping_add(1);
        match self.url_deque.take() {
            Some(mut deque) => {
                UrlReservoir::extend(&mut deque, urls);
                stats.urlreservoir_size = deque.len();
                self.url_deque = Some(deque);
            },
            None => {},
        }
        stats.urlreservoir_add_addedurls = stats.urlreservoir_add_addedurls.wrapping_add(n);
    }

    /// As `add_urls`, but an open reservoir of `len` URLs turns the `n` new
    /// ones away unless `len + n < capacity`; turned away, they are not
    /// counted as added.
    pub fn add_urls_if_room(&mut self, capacity: usize, urls: Vec<String>, stats: &mut Stats)
        ensures
            added_if_room(old(self)@, final(self)@, *old(stats), *final(stats), urls@, capacity as nat),
            final(self).room() == old(self).room(),
    {
        let n = urls.len();
        stats.urlreservoir_add_calls = stats.urlreservoir_add_calls.wrapping_add(1);
        match self.url_deque.take() {
            Some(mut deque) => {
                let len = deque.len();
                if len >= capacity || n >= capacity - len {
                    self.url_deque = Some(deque);
                    return;
                }
                UrlReservoir::extend(&mut deque, urls);
                stats.urlreservoir_size = deque.len();
                self.url_deque = Some(deque);
            },
            None => {},
        }
        stats.urlreservoir_add_addedurls = stats.urlreservoir_add_addedurls.wrapping_add(n);
    }

    /// As `add_urls`, but an open reservoir turns the URLs away, all of them,
    /// where they would not fit in the room that its deque has allocated:
    /// `len + n < capacity` must hold. That room is what the allocator gave;
    /// it is at least the reservoir's length and at least the room that the
    /// reservoir was made with, so URLs that fit in the latter are always
    /// taken. Whichever room it was, the outcome is that of
    /// `add_urls_if_room` with it.
    pub fn add_urls_if_len_lt_cap(&mut self, urls: Vec<String>, stats: &mut Stats)
        ensures
            exists|capacity: nat|
                {
                    &&& (old(self)@ matches Some(q) ==> q.len() <= capacity && old(self).room() <= capacity)
                    &&& #[trigger] added_if_room(
                        old(self)@,
                        final(self)@,
                        *old(stats),
                        *final(stats),
                        urls@,
                        capacity,
                    )
                },
            old(self)@ matches Some(q) && has_room(q.len(), urls@.len(), old(self).room()) ==> {
                &&& final(self)@ == appended(old(self)@, urls@)
                &&& *final(stats) == old(stats).after_add(queue_len(appended(old(self)@, urls@)), urls@.len())
            },
            final(self).room() == old(self).room(),
    {
        let capacity = match &self.url_deque {
            Some(deque) => deque_capacity(deque),
            None => 0,
        };
        self.add_urls_if_room(capacity, urls, stats);
    }

    /// Records an attempt to take a URL while another holder had the
    /// reservoir locked.
    pub fn lock_failed(stats: &mut Stats) -> (error: GetUrlError)
        ensures
            error == GetUrlError::IsLocked,
            *final(stats) == old(stats).after_get_locked(),
    {
        stats.urlreservoir_getuu_calls = stats.urlreservoir_getuu_calls.wrapping_add(1);
        stats.urlreservoir_getuu_locked = stats.urlreservoir_getuu_locked.wrapping_add(1);
        GetUrlError::IsLocked
    }

    /// Takes the next URL out of the reservoir, with the URI to request it
    /// by. A closed reservoir answers `IsClosed` and an empty one `IsEmpty`;
    /// a URL that does not make a URI with an authority part free of `@` is
    /// dropped with `IllFormattedUrl`.
    pub fn try_get_url_and_uri(&mut self, stats: &mut Stats) -> (res: Result<(String, hyper::Uri), GetUrlError>)
        ensures
            final(self).room() == old(self).room(),
            match old(self)@ {
                None => {
                    &&& res == Err::<(String, hyper::Uri), GetUrlError>(GetUrlError::IsClosed)
                    &&& final(self)@ is None
                    &&& *final(stats) == old(stats).after_get_closed()
                },
                Some(q) => if q.len() == 0 {
                    &&& res == Err::<(String, hyper::Uri), GetUrlError>(GetUrlError::IsEmpty)
                    &&& final(self)@ == old(self)@
                    &&& *final(stats) == old(stats).after_get_empty()
                } else {
                    &&& final(self)@ == Some(q.drop_first())
                    &&& *final(stats) == old(stats).after_get_taken((q.len() - 1) as nat, fetchable(q[0]@))
                    &&& if fetchable(q[0]@) {
                        res matches Ok((url, uri)) && url == q[0] && uri == parsed_uri(q[0]@)
                    } else {
                        res == Err::<(String, hyper::Uri), GetUrlError>(GetUrlError::IllFormattedUrl)
                    }
                },
            },
    {
        stats.urlreservoir_getuu_calls = stats.urlreservoir_getuu_calls.wrapping_add(1);
        let mut deque = match self.url_deque.take() {
            Some(deque) => deque,
            None => {
                return Err(GetUrlError::IsClosed);
            },
        };
        let popped = deque_pop_front(&mut deque);
        stats.urlreservoir_size = deque.len();
        self.url_deque = Some(deque);
        let url = match popped {
            Some(url) => url,
            None => {
                stats.urlreservoir_getuu_emptyqueue = stats.urlreservoir_getuu_emptyqueue.wrapping_add(1);
                return Err(GetUrlError::IsEmpty);
            },
        };
        let at_str = "@";
        proof {
            reveal_strlit("@");
        }
        assert(at_str@ =~= at_sign());
        match parse_uri(url.as_str()) {
            None => {
                stats.urlreservoir_getuu_illformat = stats.urlreservoir_getuu_illformat.wrapping_add(1);
                Err(GetUrlError::IllFormattedUrl)
            },
            Some((uri, authority)) => {
                let usable = match &authority {
                    Some(a) => !str_contains(a.as_str(), at_str),
                    None => false,
                };
                if usable {
                    stats.urlreservoir_getuu_success = stats.urlreservoir_getuu_success.wrapping_add(1);
                    Ok((url, uri))
                } else {
                    stats.urlreservoir_getuu_illformat = stats.urlreservoir_getuu_illformat.wrapping_add(1);
                    Err(GetUrlError::IllFormattedUrl)
                }
            },
        }
    }
}

/// A closed reservoir stays closed: adding to it, with or without a room
/// check, leaves it closed (and taking from it or closing it again does too,
/// as their contracts say).
pub proof fn lemma_closed_stays_closed(
    after: Option<Seq<String>>,
    stats_before: Stats,
    stats_after: Stats,
    urls: Seq<String>,
    capacity: nat,
)
    requires
        added_if_room(None, after, stats_before, stats_after, urls, capacity),
    ensures
        appended(None, urls) is None,
        after is None,
{
}

/// Closing the reservoir ends its streams: every later attempt to take a URL
/// answers `IsClosed` (as `try_get_url_and_uri` says of a closed reservoir),
/// upon which a stream ends.
pub proof fn lemma_closed_ends_stream()
    ensures
        step_after(GetUrlError::IsClosed) == StreamStep::End,
        forall|e: GetUrlError| step_after(e) == StreamStep::End ==> e == GetUrlError::IsClosed,
{
}

/// URLs leave the reservoir in the order in which they came: after `urls`
/// are appended to an open reservoir holding `queue`, the URLs that come out
/// first are those of `queue`, then those of `urls`, in order.
pub proof fn lemma_first_in_first_out(queue: Seq<String>, urls: Seq<String>)
    ensures
        appended(Some(queue), urls) matches Some(q) && q.take(queue.len() as int) == queue && q.skip(
            queue.len() as int,
        ) == urls,
{
    assert((queue + urls).take(queue.len() as int) =~= queue);
    assert((queue + urls).skip(queue.len() as int) =~= urls);
}

/// The room check never lets an open reservoir reach its capacity: where it
/// held fewer URLs than the capacity, it still does afterwards.
pub proof fn lemma_room_respected(
    queue: Seq<String>,
    after: Option<Seq<String>>,
    stats_before: Stats,
    stats_after: Stats,
    urls: Seq<String>,
    capacity: nat,
)
    requires
        added_if_room(Some(queue), after, stats_before, stats_after, urls, capacity),
        queue.len() < capacity,
    ensures
        after matches Some(q) && q.len() < capacity,
{
}

/// The recorded reservoir size follows the reservoir: after URLs are added
/// to an open reservoir, or one is taken from it, the size counter holds its
/// new length.
pub proof fn lemma_size_follows_length(queue: Seq<String>, urls: Seq<String>, stats: Stats, fetched: bool)
    requires
        queue.len() + urls.len() <= usize::MAX,
    ensures
        stats.after_add(queue_len(appended(Some(queue), urls)), urls.len()).urlreservoir_size == (queue
            + urls).len(),
        queue.len() == 0 ==> stats.after_get_empty().urlreservoir_size == queue.len(),
        queue.len() > 0 ==> stats.after_get_taken((queue.len() - 1) as nat, fetched).urlreservoir_size
            == queue.drop_first().len(),
{
}

/// One call on the reservoir, by its effect on the queue: URLs appended (by
/// `add_urls`, or by a room-checked add that took them; one that turned them
/// away changes nothing), one URL taken from the front (by
/// `try_get_url_and_uri`, whether it answered `Ok` or `IllFormattedUrl`), or
/// the reservoir closed.
pub enum QueueCall {
    Append(Seq<String>),
    Take,
    Close,
}

/// The queue after a call, with the URLs taken so far and the URLs appended
/// so far, as the calls' contracts describe it.
pub open spec fn after_call(
    state: (Option<Seq<String>>, Seq<String>, Seq<String>),
    call: QueueCall,
) -> (Option<Seq<String>>, Seq<String>, Seq<String>) {
    let (queue, taken, added) = state;
    match call {
        QueueCall::Append(urls) => match queue {
            Some(q) => (Some(q + urls), taken, added + urls),
            None => state,
        },
        QueueCall::Take => match queue {
            Some(q) => if q.len() > 0 {
                (Some(q.drop_first()), taken.push(q[0]), added)
            } else {
                state
            },
            None => state,
        },
        QueueCall::Close => (None, taken, added),
    }
}

/// The state after a sequence of calls on a new reservoir.
pub open spec fn after_calls(calls: Seq<QueueCall>) -> (Option<Seq<String>>, Seq<String>, Seq<String>)
    decreases calls.len(),
{
    if calls.len() == 0 {
        (Some(Seq::empty()), Seq::empty(), Seq::empty())
    } else {
        after_call(after_calls(calls.drop_last()), calls.last())
    }
}

/// First in, first out, over any sequence of calls on a new reservoir: the
/// URLs taken, in the order taken, are a prefix of the URLs appended, in the
/// order appended; while the reservoir is open, the rest of them is exactly
/// what it holds. So no URL is taken twice, none is taken that was not
/// appended, and none overtakes another.
pub proof fn lemma_fifo_over_calls(calls: Seq<QueueCall>)
    ensures
        after_calls(calls).1.is_prefix_of(after_calls(calls).2),
        after_calls(calls).0 matches Some(q) ==> after_calls(calls).1 + q == after_calls(calls).2,
    decreases calls.len(),
{
    if calls.len() == 0 {
        assert(Seq::<String>::empty() + Seq::<String>::empty() =~= Seq::<String>::empty());
    } else {
        lemma_fifo_over_calls(calls.drop_last());
        let (queue, taken, added) = after_calls(calls.drop_last());
        match calls.last() {
            QueueCall::Append(urls) => {
                if let Some(q) = queue {
                    assert(taken + (q + urls) =~= added + urls);
                    assert(taken.is_prefix_of(added + urls)) by {
                        assert forall|i: int| 0 <= i < taken.len() implies taken[i] == (added + urls)[i] by {
                            assert(taken[i] == added[i]);
                        }
                    }
                }
            },
            QueueCall::Take => {
                if let Some(q) = queue {
                    if q.len() > 0 {
                        assert(taken.push(q[0]) + q.drop_first() =~= taken + q);
                        assert(taken.push(q[0]).is_prefix_of(added)) by {
                            assert forall|i: int| 0 <= i < taken.len() + 1 implies taken.push(q[0])[i] == added[i] by {
                                assert((taken + q)[i] == added[i]);
                            }
                        }
                    }
                }
            },
            QueueCall::Close => {},
        }
    }
}

/// Once closed, always closed, over any sequence of calls: after a `Close`
/// at position `k`, the reservoir stays closed, nothing more is appended and
/// nothing more is taken, whatever calls follow (and `try_get_url_and_uri`
/// answers `IsClosed` on a closed reservoir, as its contract says).
pub proof fn lemma_closed_for_good(calls: Seq<QueueCall>, k: int)
    requires
        0 <= k < calls.len(),
        calls[k] matches QueueCall::Close,
    ensures
        after_calls(calls).0 is None,
        after_calls(calls).1 == after_calls(calls.take(k + 1)).1,
        after_calls(calls).2 == after_calls(calls.take(k + 1)).2,
    decreases calls.len(),
{
    if k == calls.len() - 1 {
        assert(calls.take(k + 1) =~= calls);
    } else {
        let prefix = calls.drop_last();
        assert(prefix[k] == calls[k]);
        lemma_closed_for_good(prefix, k);
        assert(prefix.take(k + 1) =~= calls.take(k + 1));
    }
}

/// One call on the reservoir, by what it does to the statistics.
pub enum StatsCall {
    /// URLs handed to `add_urls` (or taken by a room-checked add), with the
    /// reservoir's new length if open.
    Added(Option<nat>, nat),
    /// URLs turned away by a room-checked add.
    Refused,
    /// An attempt to take a URL from a closed reservoir.
    GetClosed,
    /// An attempt that found the reservoir locked.
    GetLocked,
    /// An attempt on an empty reservoir.
    GetEmpty,
    /// A URL taken, leaving the given number, and whether it was fetchable.
    GetTaken(nat, bool),
}

/// The statistics after a call.
pub open spec fn stats_after_call(s: Stats, call: StatsCall) -> Stats {
    match call {
        StatsCall::Added(len, n) => s.after_add(len, n),
        StatsCall::Refused => s.after_refused_add(),
        StatsCall::GetClosed => s.after_get_closed(),
        StatsCall::GetLocked => s.after_get_locked(),
        StatsCall::GetEmpty => s.after_get_empty(),
        StatsCall::GetTaken(left, fetched) => s.after_get_taken(left, fetched),
    }
}

/// The statistics after a sequence of calls.
pub open spec fn stats_after_calls(s: Stats, calls: Seq<StatsCall>) -> Stats
    decreases calls.len(),
{
    if calls.len() == 0 {
        s
    } else {
        stats_after_call(stats_after_calls(s, calls.drop_last()), calls.last())
    }
}

/// How many of the calls are attempts to take a URL.
pub open spec fn get_attempts(calls: Seq<StatsCall>) -> int
    decreases calls.len(),
{
    if calls.len() == 0 {
        0
    } else {
        get_attempts(calls.drop_last()) + match calls.last() {
            StatsCall::Added(_, _) | StatsCall::Refused => 0int,
            _ => 1int,
        }
    }
}

/// How many of the calls are attempts on a closed reservoir.
pub open spec fn closed_attempts(calls: Seq<StatsCall>) -> int
    decreases calls.len(),
{
    if calls.len() == 0 {
        0
    } else {
        closed_attempts(calls.drop_last()) + match calls.last() {
            StatsCall::GetClosed => 1int,
            _ => 0int,
        }
    }
}

/// The attempts to take a URL that were settled one way or another.
pub open spec fn settled_gets(s: Stats) -> int {
    s.urlreservoir_getuu_locked + s.urlreservoir_getuu_emptyqueue + s.urlreservoir_getuu_illformat
        + s.urlreservoir_getuu_success
}

/// Every attempt to take a URL is counted once, and every one that did not
/// find the reservoir closed is counted under exactly one outcome; other
/// calls touch neither. This holds over any sequence of calls while no
/// counter wraps around.
pub proof fn lemma_get_attempts_counted(s: Stats, calls: Seq<StatsCall>)
    requires
        s.urlreservoir_getuu_calls + calls.len() <= usize::MAX,
        s.urlreservoir_getuu_locked + calls.len() <= usize::MAX,
        s.urlreservoir_getuu_emptyqueue + calls.len() <= usize::MAX,
        s.urlreservoir_getuu_illformat + calls.len() <= usize::MAX,
        s.urlreservoir_getuu_success + calls.len() <= usize::MAX,
    ensures
        stats_after_calls(s, calls).urlreservoir_getuu_calls == s.urlreservoir_getuu_calls + get_attempts(calls),
        settled_gets(stats_after_calls(s, calls)) == settled_gets(s) + get_attempts(calls) - closed_attempts(calls),
    decreases calls.len(),
{
    if calls.len() > 0 {
        let prefix = calls.drop_last();
        lemma_get_attempts_counted(s, prefix);
        lemma_counters_bounded(s, prefix);
    }
}

proof fn lemma_counters_bounded(s: Stats, calls: Seq<StatsCall>)
    requires
        s.urlreservoir_getuu_locked + calls.len() <= usize::MAX,
        s.urlreservoir_getuu_emptyqueue + calls.len() <= usize::MAX,
        s.urlreservoir_getuu_illformat + calls.len() <= usize::MAX,
        s.urlreservoir_getuu_success + calls.len() <= usize::MAX,
    ensures
        get_attempts(calls) <= calls.len(),
        0 <= closed_attempts(calls) <= get_attempts(calls),
        s.urlreservoir_getuu_locked <= stats_after_calls(s, calls).urlreservoir_getuu_locked
            <= s.urlreservoir_getuu_locked + calls.len(),
        s.urlreservoir_getuu_emptyqueue <= stats_after_calls(s, calls).urlreservoir_getuu_emptyqueue
            <= s.urlreservoir_getuu_emptyqueue + calls.len(),
        s.urlreservoir_getuu_illformat <= stats_after_calls(s, calls).urlreservoir_getuu_illformat
            <= s.urlreservoir_getuu_illformat + calls.len(),
        s.urlreservoir_getuu_success <= stats_after_calls(s, calls).urlreservoir_getuu_success
            <= s.urlreservoir_getuu_success + calls.len(),
    decreases calls.len(),
{
    if calls.len() > 0 {
        lemma_counters_bounded(s, calls.drop_last());
    }
}

} // verus!
