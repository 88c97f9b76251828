use vstd::prelude::*;
use crate::stats::{Stats, bumped};
use crate::text::{chars_of, contains_chars, occurs_at, occurs_in};
use crate::worker::Work;

verus! {

/// Why a request gave the workers nothing.
#[derive(PartialEq, Eq, Structural, Clone, Copy, Debug)]
pub enum RunClientError {
    /// The HTTP client failed.
    HyperError,
    /// The response did not come before the timeout.
    Timeout,
    /// The timer failed.
    TimeoutError,
    /// The body was longer than allowed.
    TooLargeError,
    /// The response's content type is none that the crawler wants.
    UnwantedFile,
}

/// What a response holds, as its content type tells.
#[derive(PartialEq, Eq, Structural, Clone, Copy, Debug)]
pub enum ContentKind {
    /// An HTML page.
    Html,
    /// A file of the kind at the given index of the configured files to
    /// gather.
    File(usize),
}

/// The text `text/html`.
pub open spec fn html_mimetype() -> Seq<char> {
    seq!['t', 'e', 'x', 't', '/', 'h', 't', 'm', 'l']
}

/// The index of the first of `mimetypes[from..]` that occurs in
/// `content_type`.
pub open spec fn first_mimetype_in(content_type: Seq<char>, mimetypes: Seq<Seq<char>>, from: int) -> Option<int>
    decreases mimetypes.len() - from,
{
    if from < 0 || from >= mimetypes.len() {
        None
    } else if occurs_in(content_type, mimetypes[from]) {
        Some(from)
    } else {
        first_mimetype_in(content_type, mimetypes, from + 1)
    }
}

/// What a response with the given content type header holds: HTML where the
/// header mentions `text/html`, else a file of the first wanted mimetype that
/// it mentions; `None` without a header or without a match.
pub open spec fn content_kind(content_type: Option<Seq<char>>, mimetypes: Seq<Seq<char>>) -> Option<ContentKind> {
    match content_type {
        None => None,
        Some(ct) => if occurs_in(ct, html_mimetype()) {
            Some(ContentKind::Html)
        } else {
            match first_mimetype_in(ct, mimetypes, 0) {
                Some(i) => Some(ContentKind::File(i as usize)),
                None => None,
            }
        },
    }
}

/// A response is HTML exactly when its content type holds the whole text
/// `text/html`; failing that, it is a file of the first wanted mimetype that
/// the content type holds; and it is unwanted where it holds neither (or has
/// no content type).
pub proof fn lemma_content_kind_by_occurrence(content_type: Seq<char>, mimetypes: Seq<Seq<char>>)
    requires
        mimetypes.len() <= usize::MAX,
    ensures
        content_kind(Some(content_type), mimetypes) == Some(ContentKind::Html) <==> exists|start: int|
            0 <= start && start + 9 <= content_type.len() && #[trigger] content_type.subrange(start, start + 9)
                == seq!['t', 'e', 'x', 't', '/', 'h', 't', 'm', 'l'],
        content_kind(Some(content_type), mimetypes) is None <==> (!(exists|start: int|
            0 <= start && start + 9 <= content_type.len() && #[trigger] content_type.subrange(start, start + 9)
                == seq!['t', 'e', 'x', 't', '/', 'h', 't', 'm', 'l']) && forall|i: int|
            0 <= i < mimetypes.len() ==> !occurs_in(content_type, #[trigger] mimetypes[i])),
        forall|i: usize|
            #[trigger] content_kind(Some(content_type), mimetypes) == Some(ContentKind::File(i)) ==> i
                < mimetypes.len() && occurs_in(content_type, mimetypes[i as int]) && forall|j: int|
                0 <= j < i ==> !occurs_in(content_type, #[trigger] mimetypes[j]),
        content_kind(None, mimetypes) is None,
{
    let html = seq!['t', 'e', 'x', 't', '/', 'h', 't', 'm', 'l'];
    assert(html =~= html_mimetype());
    if occurs_in(content_type, html_mimetype()) {
        let s = choose|s: int| occurs_at(content_type, html_mimetype(), s);
        assert(content_type.subrange(s, s + 9) == html);
    } else {
        assert forall|s: int|
            0 <= s && s + 9 <= content_type.len() implies #[trigger] content_type.subrange(s, s + 9) != html by {
            if content_type.subrange(s, s + 9) == html {
                assert(occurs_at(content_type, html_mimetype(), s));
            }
        }
    }
    lemma_first_mimetype(content_type, mimetypes, 0);
}

proof fn lemma_first_mimetype(content_type: Seq<char>, mimetypes: Seq<Seq<char>>, from: int)
    requires
        0 <= from,
    ensures
        first_mimetype_in(content_type, mimetypes, from) is None <==> forall|i: int|
            from <= i < mimetypes.len() ==> !occurs_in(content_type, #[trigger] mimetypes[i]),
        first_mimetype_in(content_type, mimetypes, from) matches Some(i) ==> from <= i < mimetypes.len()
            && occurs_in(content_type, mimetypes[i]) && forall|j: int|
            from <= j < i ==> !occurs_in(content_type, #[trigger] mimetypes[j]),
    decreases mimetypes.len() - from,
{
    if from < mimetypes.len() && !occurs_in(content_type, mimetypes[from]) {
        lemma_first_mimetype(content_type, mimetypes, from + 1);
    }
}

/// Decides from the content type header of a response (its text, where it
/// has one that is visible ASCII) whether the crawler wants the body and as
/// what. A response that it does not want gives `UnwantedFile`.
pub fn classify_response(content_type: Option<&str>, desired_mimetypes: &Vec<String>) -> (kind: Result<ContentKind, RunClientError>)
    ensures
        match content_kind(
            match content_type {
                Some(ct) => Some(ct@),
                None => None,
            },
            desired_mimetypes.deep_view(),
        ) {
            Some(k) => kind == Ok::<ContentKind, RunClientError>(k),
            None => kind == Err::<ContentKind, RunClientError>(RunClientError::UnwantedFile),
        },
{
    let ct = match content_type {
        None => {
            return Err(RunClientError::UnwantedFile);
        },
        Some(ct) => ct,
    };
    let html = "text/html";
    proof {
        reveal_strlit("text/html");
    }
    assert(html@ =~= html_mimetype());
    let chars = chars_of(ct);
    let html_chars = chars_of(html);
    if contains_chars(&chars, &html_chars) {
        return Ok(ContentKind::Html);
    }
    let ghost mimetypes = desired_mimetypes.deep_view();
    let mut i: usize = 0;
    while i < desired_mimetypes.len()
        invariant
            chars@ == ct@,
            content_type == Some(ct),
            !occurs_in(ct@, html_mimetype()),
            mimetypes == desired_mimetypes.deep_view(),
            i <= mimetypes.len(),
            first_mimetype_in(ct@, mimetypes, 0) == first_mimetype_in(ct@, mimetypes, i as int),
        decreases mimetypes.len() - i,
    {
        let wanted = chars_of(desired_mimetypes[i].as_str());
        assert(mimetypes[i as int] == desired_mimetypes@[i as int]@);
        if contains_chars(&chars, &wanted) {
            assert(first_mimetype_in(ct@, mimetypes, i as int) == Some(i as int));
            return Ok(ContentKind::File(i));
        }
        i += 1;
    }
    Err(RunClientError::UnwantedFile)
}

/// Adds a chunk of a response's body to what came before, unless the body
/// would then be longer than `max_body_len`.
pub fn append_chunk(body: &mut Vec<u8>, chunk: &[u8], max_body_len: usize) -> (res: Result<(), RunClientError>)
    ensures
        if old(body)@.len() + chunk@.len() > max_body_len {
            &&& res == Err::<(), RunClientError>(RunClientError::TooLargeError)
            &&& final(body)@ == old(body)@
        } else {
            &&& res == Ok::<(), RunClientError>(())
            &&& final(body)@ == old(body)@ + chunk@
        },
        old(body)@.len() <= max_body_len ==> final(body)@.len() <= max_body_len,
{
    if chunk.len() > max_body_len || body.len() > max_body_len - chunk.len() {
        return Err(RunClientError::TooLargeError);
    }
    let ghost start = body@;
    let mut i: usize = 0;
    while i < chunk.len()
        invariant
            i <= chunk@.len(),
            body@ == start + chunk@.subrange(0, i as int),
        decreases chunk@.len() - i,
    {
        body.push(chunk[i]);
        i += 1;
        assert(body@ =~= start + chunk@.subrange(0, i as int));
    }
    assert(chunk@.subrange(0, chunk@.len() as int) =~= chunk@);
    Ok(())
}

/// The work that a wanted response makes, from the URL requested, what its
/// content type says it is and its body.
pub fn make_work(url: String, kind: ContentKind, body: Vec<u8>) -> (work: Work)
    ensures
        work == match kind {
            ContentKind::Html => Work::Html(url, body),
            ContentKind::File(i) => Work::File(i, body),
        },
{
    match kind {
        ContentKind::Html => Work::Html(url, body),
        ContentKind::File(i) => Work::File(i, body),
    }
}

/// How a request raced against its timeout.
pub enum RaceOutcome {
    /// The request finished first, with this result.
    Request(Result<Work, RunClientError>),
    /// The timeout fired first.
    TimerFired,
    /// The timer failed first.
    TimerFailed,
}

/// The result of a request raced against its timeout.
pub fn settle_request(outcome: RaceOutcome) -> (res: Result<Work, RunClientError>)
    ensures
        res == match outcome {
            RaceOutcome::Request(r) => r,
            RaceOutcome::TimerFired => Err(RunClientError::Timeout),
            RaceOutcome::TimerFailed => Err(RunClientError::TimeoutError),
        },
{
    match outcome {
        RaceOutcome::Request(r) => r,
        RaceOutcome::TimerFired => Err(RunClientError::Timeout),
        RaceOutcome::TimerFailed => Err(RunClientError::TimeoutError),
    }
}

impl Stats {
    /// After a client finished a request with the given outcome: work for
    /// the workers counts as sent, an error is counted by its kind.
    pub open spec fn after_request(self, error: Option<RunClientError>) -> Stats {
        match error {
            None => Stats { client_work_sent: bumped(self.client_work_sent), ..self },
            Some(RunClientError::HyperError) => Stats { client_hyper_error: bumped(self.client_hyper_error), ..self },
            Some(RunClientError::Timeout) => Stats { client_timeout: bumped(self.client_timeout), ..self },
            Some(RunClientError::TimeoutError) => Stats {
                client_timeout_error: bumped(self.client_timeout_error),
                ..self
            },
            Some(RunClientError::TooLargeError) => Stats {
                client_too_large_error: bumped(self.client_too_large_error),
                ..self
            },
            Some(RunClientError::UnwantedFile) => Stats {
                client_unwanted_file: bumped(self.client_unwanted_file),
                ..self
            },
        }
    }

    /// Counts the outcome of a client's request.
    pub fn record_request(&mut self, outcome: &Result<Work, RunClientError>)
        ensures
            *final(self) == old(self).after_request(
                match outcome {
                    Ok(_) => None,
                    Err(e) => Some(*e),
                },
            ),
    {
        match outcome {
            Ok(_) => {
                self.client_work_sent = self.client_work_sent.wrapping_add(1);
            },
            Err(RunClientError::HyperError) => {
                self.client_hyper_error = self.client_hyper_error.wrapping_add(1);
            },
            Err(RunClientError::Timeout) => {
                self.client_timeout = self.client_timeout.wrapping_add(1);
            },
            Err(RunClientError::TimeoutError) => {
                self.client_timeout_error = self.client_timeout_error.wrapping_add(1);
            },
            Err(RunClientError::TooLargeError) => {
                self.client_too_large_error = self.client_too_large_error.wrapping_add(1);
            },
            Err(RunClientError::UnwantedFile) => {
                self.client_unwanted_file = self.client_unwanted_file.wrapping_add(1);
            },
        }
    }
}

} // verus!
