use crawler::client::{append_chunk, classify_response, make_work, settle_request, ContentKind, RaceOutcome, RunClientError};
use crawler::worker::Work;
use crawler::stats::Stats;

fn mimes() -> Vec<String> {
    vec!["image/png".to_string(), "application/pdf".to_string()]
}

#[test]
fn content_types_are_classified() {
    assert_eq!(classify_response(Some("text/html; charset=UTF-8"), &mimes()), Ok(ContentKind::Html));
    assert_eq!(classify_response(Some("image/png"), &mimes()), Ok(ContentKind::File(0)));
    assert_eq!(classify_response(Some("application/pdf"), &mimes()), Ok(ContentKind::File(1)));
    assert_eq!(classify_response(Some("image/jpeg"), &mimes()), Err(RunClientError::UnwantedFile));
    assert_eq!(classify_response(None, &mimes()), Err(RunClientError::UnwantedFile));
    assert_eq!(classify_response(Some("text/html"), &vec![]), Ok(ContentKind::Html));
    let overlapping = vec!["image/png".to_string(), "image".to_string()];
    assert_eq!(classify_response(Some("image/png"), &overlapping), Ok(ContentKind::File(0)));
    assert_eq!(classify_response(Some("image/gif"), &overlapping), Ok(ContentKind::File(1)));
}

#[test]
fn bodies_are_capped() {
    let mut body = vec![];
    assert_eq!(append_chunk(&mut body, b"hello", 8), Ok(()));
    assert_eq!(body, b"hello".to_vec());
    assert_eq!(append_chunk(&mut body, b"abc", 8), Ok(()));
    assert_eq!(body, b"helloabc".to_vec());
    assert_eq!(append_chunk(&mut body, b"x", 8), Err(RunClientError::TooLargeError));
    assert_eq!(body, b"helloabc".to_vec());
    assert_eq!(append_chunk(&mut vec![], &[0u8; 9], 8), Err(RunClientError::TooLargeError));
}

#[test]
fn work_from_responses() {
    assert_eq!(make_work("http://a/".to_string(), ContentKind::Html, vec![1]), Work::Html("http://a/".to_string(), vec![1]));
    assert_eq!(make_work("http://a/".to_string(), ContentKind::File(3), vec![2]), Work::File(3, vec![2]));
}

#[test]
fn races_settle() {
    assert_eq!(settle_request(RaceOutcome::TimerFired), Err(RunClientError::Timeout));
    assert_eq!(settle_request(RaceOutcome::TimerFailed), Err(RunClientError::TimeoutError));
    assert_eq!(settle_request(RaceOutcome::Request(Err(RunClientError::HyperError))), Err(RunClientError::HyperError));
    assert_eq!(settle_request(RaceOutcome::Request(Ok(Work::File(0, vec![])))), Ok(Work::File(0, vec![])));
}

#[test]
fn outcomes_are_counted() {
    let mut s = Stats::new();
    s.record_request(&Ok(Work::File(0, vec![])));
    s.record_request(&Err(RunClientError::HyperError));
    s.record_request(&Err(RunClientError::Timeout));
    s.record_request(&Err(RunClientError::Timeout));
    s.record_request(&Err(RunClientError::TimeoutError));
    s.record_request(&Err(RunClientError::TooLargeError));
    s.record_request(&Err(RunClientError::UnwantedFile));
    assert_eq!(s.client_work_sent, 1);
    assert_eq!(s.client_hyper_error, 1);
    assert_eq!(s.client_timeout, 2);
    assert_eq!(s.client_timeout_error, 1);
    assert_eq!(s.client_too_large_error, 1);
    assert_eq!(s.client_unwanted_file, 1);
}
