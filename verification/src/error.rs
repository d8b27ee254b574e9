//! The errors of the parts of the crawler, and what they say.
//!
//! An error of another library is held as the text that it shows.

use vstd::prelude::*;
use vstd::string::*;

verus! {

/// Errors of the fetching side.
#[derive(Debug)]
pub enum AsyncExecutorError {
    /// The HTTP client could not be built.
    HttpClientBuild(String),
    /// The input could not be read.
    StdinRead(String),
    /// A request failed.
    HttpRequest { url: String, source: String },
    /// A response does not have a status of success.
    HttpStatus { url: String, status: String },
    /// A response is not HTML.
    NonHtmlContent { url: String, content_type: String },
    /// The body of a response could not be decoded.
    BodyDecode { url: String, source: String },
    /// A message could not be sent: the receiver is gone.
    ChannelSend,
    /// There are no more permits: the crawler shuts down.
    SemaphoreClosed,
}

/// What an error of the fetching side says.
pub open spec fn executor_error_text(e: AsyncExecutorError) -> Seq<char> {
    match e {
        AsyncExecutorError::HttpClientBuild(e) => "failed to build HTTP client: "@ + e@,
        AsyncExecutorError::StdinRead(e) => "stdin read error: "@ + e@,
        AsyncExecutorError::HttpRequest { url, source } => "HTTP request failed for "@ + url@
            + ": "@ + source@,
        AsyncExecutorError::HttpStatus { url, status } => "HTTP "@ + status@ + " for "@ + url@,
        AsyncExecutorError::NonHtmlContent { url, content_type } => "non-HTML content type '"@
            + content_type@ + "' for "@ + url@,
        AsyncExecutorError::BodyDecode { url, source } => "body decode failed for "@ + url@ + ": "@
            + source@,
        AsyncExecutorError::ChannelSend => "channel send failed"@,
        AsyncExecutorError::SemaphoreClosed => "semaphore closed during shutdown"@,
    }
}

/// Joins texts.
fn joined(a: &str, b: &str, c: &str, d: &str) -> (r: String)
    ensures
        r@ == a@ + b@ + c@ + d@,
{
    let mut r = a.to_string();
    r.append(b);
    r.append(c);
    r.append(d);
    r
}

/// Joins texts.
fn joined_pair(a: &str, b: &str) -> (r: String)
    ensures
        r@ == a@ + b@,
{
    let mut r = a.to_string();
    r.append(b);
    r
}

impl AsyncExecutorError {
    /// What the error says.
    pub fn to_string(&self) -> (r: String)
        ensures
            r@ == executor_error_text(*self),
    {
        match self {
            AsyncExecutorError::HttpClientBuild(e) => {
                joined_pair("failed to build HTTP client: ", e.as_str())
            },
            AsyncExecutorError::StdinRead(e) => joined_pair("stdin read error: ", e.as_str()),
            AsyncExecutorError::HttpRequest { url, source } => {
                joined("HTTP request failed for ", url.as_str(), ": ", source.as_str())
            },
            AsyncExecutorError::HttpStatus { url, status } => {
                joined("HTTP ", status.as_str(), " for ", url.as_str())
            },
            AsyncExecutorError::NonHtmlContent { url, content_type } => {
                joined("non-HTML content type '", content_type.as_str(), "' for ", url.as_str())
            },
            AsyncExecutorError::BodyDecode { url, source } => {
                joined("body decode failed for ", url.as_str(), ": ", source.as_str())
            },
            AsyncExecutorError::ChannelSend => "channel send failed".to_string(),
            AsyncExecutorError::SemaphoreClosed => "semaphore closed during shutdown".to_string(),
        }
    }
}

/// Errors of the coordinator.
#[derive(Debug)]
pub enum CoordinatorError {
    /// The progress log could not be written.
    ProgressWrite(String),
    /// Work could not be sent: the workers are gone.
    WorkerChannelSend,
    /// A request could not be sent: the fetching side is gone.
    AsyncChannelSend,
    /// A domain has no state.
    DomainStateNotFound(String),
}

/// What an error of the coordinator says.
pub open spec fn coordinator_error_text(e: CoordinatorError) -> Seq<char> {
    match e {
        CoordinatorError::ProgressWrite(e) => "progress log write failed: "@ + e@,
        CoordinatorError::WorkerChannelSend => "worker channel send failed"@,
        CoordinatorError::AsyncChannelSend => "async channel send failed"@,
        CoordinatorError::DomainStateNotFound(d) => "domain state not found for '"@ + d@ + "'"@,
    }
}

impl CoordinatorError {
    /// What the error says.
    pub fn to_string(&self) -> (r: String)
        ensures
            r@ == coordinator_error_text(*self),
    {
        match self {
            CoordinatorError::ProgressWrite(e) => {
                joined_pair("progress log write failed: ", e.as_str())
            },
            CoordinatorError::WorkerChannelSend => "worker channel send failed".to_string(),
            CoordinatorError::AsyncChannelSend => "async channel send failed".to_string(),
            CoordinatorError::DomainStateNotFound(d) => {
                let mut r = joined_pair("domain state not found for '", d.as_str());
                r.append("'");
                r
            },
        }
    }
}

/// Errors of the workers.
#[derive(Debug)]
pub enum WorkerError {
    /// A result could not be sent: the coordinator is gone.
    ResultChannelSend,
    /// There is no more work: the coordinator is gone.
    WorkChannelRecv,
}

/// What an error of a worker says.
pub open spec fn worker_error_text(e: WorkerError) -> Seq<char> {
    match e {
        WorkerError::ResultChannelSend => "result channel send failed"@,
        WorkerError::WorkChannelRecv => "work channel closed"@,
    }
}

impl WorkerError {
    /// What the error says.
    pub fn to_string(&self) -> (r: String)
        ensures
            r@ == worker_error_text(*self),
    {
        match self {
            WorkerError::ResultChannelSend => "result channel send failed".to_string(),
            WorkerError::WorkChannelRecv => "work channel closed".to_string(),
        }
    }
}

/// An error names its URL, its domain and its cause in full.
pub proof fn law_errors_name_their_causes(url: String, cause: String)
    ensures
        executor_error_text(AsyncExecutorError::HttpClientBuild(cause))
            == "failed to build HTTP client: "@ + cause@,
        executor_error_text(AsyncExecutorError::StdinRead(cause)) == "stdin read error: "@ + cause@,
        executor_error_text(AsyncExecutorError::HttpRequest { url, source: cause })
            == "HTTP request failed for "@ + url@ + ": "@ + cause@,
        executor_error_text(AsyncExecutorError::HttpStatus { url, status: cause }) == "HTTP "@
            + cause@ + " for "@ + url@,
        executor_error_text(AsyncExecutorError::NonHtmlContent { url, content_type: cause })
            == "non-HTML content type '"@ + cause@ + "' for "@ + url@,
        executor_error_text(AsyncExecutorError::BodyDecode { url, source: cause })
            == "body decode failed for "@ + url@ + ": "@ + cause@,
        coordinator_error_text(CoordinatorError::ProgressWrite(cause))
            == "progress log write failed: "@ + cause@,
        coordinator_error_text(CoordinatorError::DomainStateNotFound(url))
            == "domain state not found for '"@ + url@ + "'"@,
{
}

} // verus!
