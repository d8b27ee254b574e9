//! The fetching side.

use std::time::Duration;

use weaver::async_executor::{
    after_eof, AsyncExecutorConfig, ExecutorState, Next, Reply, StdinLine, MAX_REDIRECTS,
    USER_AGENT,
};
use weaver::fetch::{is_html_type, Content, FetchStep, FetchTask, ResponseHead};
use weaver::messages::{AsyncToCpu, CpuToAsync, LogoContext};
use weaver::progress::{load_progress, CrawlState};

fn fresh() -> ExecutorState {
    ExecutorState::new(CrawlState::default())
}

fn line(text: &str) -> StdinLine {
    StdinLine::Line(text.to_string())
}

fn page(domain: &str, path: &str, depth: usize) -> CpuToAsync {
    CpuToAsync::FetchPath { domain: domain.to_string(), path: path.to_string(), depth }
}

fn page_task() -> FetchTask {
    FetchTask::Page { domain: "a.com".to_string(), path: "/x".to_string(), depth: 2 }
}

fn logo_task() -> FetchTask {
    FetchTask::Logo {
        domain: "a.com".to_string(),
        url: "https://cdn.com/l".to_string(),
        context: LogoContext { found_on_path: "/".to_string(), candidate_url: "l".to_string() },
    }
}

fn head(status: u16, content_type: Option<&str>) -> Option<ResponseHead> {
    Some(ResponseHead { status, content_type: content_type.map(String::from) })
}

fn failed(message: AsyncToCpu) -> bool {
    matches!(message, AsyncToCpu::FetchFailed { domain } if domain == "a.com")
}

fn recovered() -> ExecutorState {
    let lines: Vec<String> = [
        "STARTED a.com",
        "QUEUED a.com /x 2",
        "SEARCHED a.com /",
        "STARTED b.com",
        "QUEUED b.com /y 1",
        "QUEUED b.com /z 3",
        "COMPLETED c.com NO_LOGO",
    ]
    .iter()
    .map(|l| l.to_string())
    .collect();
    ExecutorState::new(load_progress(&lines))
}

#[test]
fn configurations() {
    let config = AsyncExecutorConfig::new(7);
    assert_eq!(config.max_concurrent_fetches, 7);
    assert_eq!(config.http_timeout, Duration::from_secs(10));
    let config = AsyncExecutorConfig::default();
    assert_eq!(config.max_concurrent_fetches, 100);
    assert_eq!(config.http_timeout, Duration::from_secs(10));
    assert_eq!(MAX_REDIRECTS, 5);
    assert!(USER_AGENT.starts_with("Mozilla/5.0 (X11; Linux x86_64; rv:10.0)"));
}

#[test]
fn a_line_starts_the_crawl_of_a_domain_once() {
    let mut state = fresh();
    let task = state.handle_stdin_line(line("  a.com \n"));
    assert!(matches!(
        task,
        Some(FetchTask::Page { domain, path, depth: 0 }) if domain == "a.com" && path == "/"
    ));
    assert!(state.handle_stdin_line(line("a.com")).is_none());
    assert!(state.handle_stdin_line(line("   ")).is_none());
    assert!(state.handle_stdin_line(line("A.com")).is_some());
    assert!(state.reads_stdin());
}

#[test]
fn a_page_is_fetched_once() {
    let mut state = fresh();
    assert!(matches!(
        state.handle_coordinator_message(Some(page("a.com", "/x", 3))),
        Reply::Fetch(FetchTask::Page { domain, path, depth: 3 })
        if domain == "a.com" && path == "/x"
    ));
    assert!(matches!(
        state.handle_coordinator_message(Some(page("a.com", "/x", 1))),
        Reply::Answer(AsyncToCpu::FetchFailed { domain }) if domain == "a.com"
    ));
    assert!(matches!(
        state.handle_coordinator_message(Some(page("b.com", "/x", 1))),
        Reply::Fetch(_)
    ));
    assert!(matches!(
        state.handle_coordinator_message(Some(page("a.com", "/", 1))),
        Reply::Fetch(_)
    ));
    assert!(state.handle_stdin_line(line("a.com")).is_none());
}

#[test]
fn a_path_is_new_once() {
    let mut state = fresh();
    assert!(state.try_insert_path("a.com", "/"));
    assert!(!state.try_insert_path("a.com", "/"));
    assert!(state.try_insert_path("a.com", "/b"));
    assert!(state.try_insert_path("b.com", "/"));
}

#[test]
fn logos_are_always_fetched() {
    let mut state = fresh();
    for _ in 0..2 {
        let request = CpuToAsync::FetchLogo {
            domain: "a.com".to_string(),
            url: "u".to_string(),
            context: LogoContext {
                found_on_path: "/p".to_string(),
                candidate_url: "c".to_string(),
            },
        };
        assert!(matches!(
            state.handle_coordinator_message(Some(request)),
            Reply::Fetch(FetchTask::Logo { domain, url, context })
            if domain == "a.com" && url == "u" && context.found_on_path == "/p"
                && context.candidate_url == "c"
        ));
    }
    assert!(matches!(state.handle_coordinator_message(None), Reply::Exit));
}

#[test]
fn a_restart_fetches_what_was_queued() {
    let state = recovered();
    let mut tasks: Vec<(String, String, usize)> = Vec::new();
    for task in state.requeue_pending_paths() {
        let FetchTask::Page { domain, path, depth } = task else {
            panic!("Expected a page");
        };
        tasks.push((domain, path, depth));
    }
    tasks.sort();
    assert_eq!(
        tasks,
        vec![
            ("a.com".to_string(), "/x".to_string(), 2),
            ("b.com".to_string(), "/y".to_string(), 1),
            ("b.com".to_string(), "/z".to_string(), 3),
        ]
    );
    assert!(fresh().requeue_pending_paths().is_empty());
}

#[test]
fn a_restart_does_not_fetch_again() {
    let mut state = recovered();
    assert!(matches!(
        state.handle_coordinator_message(Some(page("a.com", "/x", 2))),
        Reply::Answer(_)
    ));
    assert!(matches!(
        state.handle_coordinator_message(Some(page("a.com", "/", 0))),
        Reply::Answer(_)
    ));
    assert!(state.handle_stdin_line(line("a.com")).is_none());
    assert!(state.handle_stdin_line(line("c.com")).is_none());
    assert!(state.handle_stdin_line(line("b.com")).is_some());
    assert!(state.handle_stdin_line(line("d.com")).is_some());
    assert!(matches!(
        state.handle_coordinator_message(Some(page("a.com", "/new", 1))),
        Reply::Fetch(_)
    ));
}

#[test]
fn the_end_is_told_once_and_when_idle() {
    let mut state = fresh();
    assert_eq!(state.after_event(true), Next::Listen);
    assert!(state.handle_stdin_line(StdinLine::End).is_none());
    assert!(!state.reads_stdin());
    assert_eq!(state.after_event(false), Next::Listen);
    assert_eq!(state.after_event(true), Next::SendEof);
    assert_eq!(state.after_event(true), Next::AwaitCoordinator);
    assert_eq!(state.after_event(false), Next::Listen);
    assert_eq!(state.after_event(true), Next::AwaitCoordinator);
    assert_eq!(after_eof(true), Next::AwaitCoordinator);
    assert_eq!(after_eof(false), Next::Stop);
}

#[test]
fn reading_stops_on_an_interrupt_and_on_a_failure() {
    let mut state = fresh();
    state.handle_interrupt();
    assert!(!state.reads_stdin());
    assert_eq!(state.after_event(true), Next::SendEof);
    let mut state = fresh();
    assert!(state.handle_stdin_line(StdinLine::Failed).is_none());
    assert!(!state.reads_stdin());
}

#[test]
fn a_fetch_starts_with_a_permit() {
    assert!(matches!(
        page_task().start(true),
        FetchStep::Get { url } if url == "https://a.com/x"
    ));
    assert!(matches!(
        logo_task().start(true),
        FetchStep::Get { url } if url == "https://cdn.com/l"
    ));
    for task in [page_task(), logo_task()] {
        let FetchStep::Finish(message) = task.start(false) else {
            panic!("Expected the end");
        };
        assert!(failed(message));
    }
}

#[test]
fn a_page_is_read_on_if_it_is_one() {
    let task = page_task();
    for accepted in [
        head(200, Some("text/html; charset=utf-8")),
        head(299, Some("")),
        head(200, None),
        head(204, Some("x text/html")),
    ] {
        assert!(matches!(task.respond(accepted), FetchStep::ReadText));
    }
    for refused in [
        None,
        head(199, None),
        head(300, None),
        head(404, Some("text/html")),
        head(200, Some("image/png")),
        head(200, Some("TEXT/HTML")),
    ] {
        let FetchStep::Finish(message) = task.respond(refused) else {
            panic!("Expected the end");
        };
        assert!(failed(message));
    }
}

#[test]
fn a_logo_is_read_on_whatever_its_type() {
    let task = logo_task();
    assert!(matches!(task.respond(head(200, Some("image/png"))), FetchStep::ReadBytes));
    assert!(matches!(task.respond(head(200, None)), FetchStep::ReadBytes));
    for refused in [None, head(500, Some("image/png"))] {
        let FetchStep::Finish(message) = task.respond(refused) else {
            panic!("Expected the end");
        };
        assert!(failed(message));
    }
}

#[test]
fn what_was_read_is_handed_on() {
    assert!(matches!(
        page_task().finish(Content::Text("body".to_string())),
        AsyncToCpu::Html { domain, path, depth: 2, body }
        if domain == "a.com" && path == "/x" && body == "body"
    ));
    assert!(matches!(
        logo_task().finish(Content::Bytes(vec![1, 2])),
        AsyncToCpu::LogoBitmap { domain, context, bytes }
        if domain == "a.com" && context.candidate_url == "l" && bytes == vec![1, 2]
    ));
    assert!(failed(page_task().finish(Content::Unreadable)));
    assert!(failed(page_task().finish(Content::Bytes(vec![]))));
    assert!(failed(logo_task().finish(Content::Unreadable)));
    assert!(failed(logo_task().finish(Content::Text(String::new()))));
    assert!(failed(page_task().failure()));
}

#[test]
fn content_types_of_pages() {
    assert!(is_html_type(&None));
    assert!(is_html_type(&Some(String::new())));
    assert!(is_html_type(&Some("text/html".to_string())));
    assert!(!is_html_type(&Some("text/plain".to_string())));
}
