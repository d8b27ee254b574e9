//! What errors say.

use weaver::error::{AsyncExecutorError, CoordinatorError, WorkerError};

fn s(text: &str) -> String {
    text.to_string()
}

#[test]
fn executor_errors() {
    assert_eq!(
        AsyncExecutorError::HttpClientBuild(s("e")).to_string(),
        "failed to build HTTP client: e"
    );
    assert_eq!(AsyncExecutorError::StdinRead(s("e")).to_string(), "stdin read error: e");
    assert_eq!(
        AsyncExecutorError::HttpRequest { url: s("u"), source: s("e") }.to_string(),
        "HTTP request failed for u: e"
    );
    assert_eq!(
        AsyncExecutorError::HttpStatus { url: s("u"), status: s("404 Not Found") }.to_string(),
        "HTTP 404 Not Found for u"
    );
    assert_eq!(
        AsyncExecutorError::NonHtmlContent { url: s("u"), content_type: s("image/png") }
            .to_string(),
        "non-HTML content type 'image/png' for u"
    );
    assert_eq!(
        AsyncExecutorError::BodyDecode { url: s("u"), source: s("e") }.to_string(),
        "body decode failed for u: e"
    );
    assert_eq!(AsyncExecutorError::ChannelSend.to_string(), "channel send failed");
    assert_eq!(AsyncExecutorError::SemaphoreClosed.to_string(), "semaphore closed during shutdown");
}

#[test]
fn coordinator_errors() {
    assert_eq!(
        CoordinatorError::ProgressWrite(s("e")).to_string(),
        "progress log write failed: e"
    );
    assert_eq!(CoordinatorError::WorkerChannelSend.to_string(), "worker channel send failed");
    assert_eq!(CoordinatorError::AsyncChannelSend.to_string(), "async channel send failed");
    assert_eq!(
        CoordinatorError::DomainStateNotFound(s("a.com")).to_string(),
        "domain state not found for 'a.com'"
    );
}

#[test]
fn worker_errors() {
    assert_eq!(WorkerError::ResultChannelSend.to_string(), "result channel send failed");
    assert_eq!(WorkerError::WorkChannelRecv.to_string(), "work channel closed");
}
