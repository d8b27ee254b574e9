//! The coordinator.

use std::ops::ControlFlow;

use weaver::coordinator::{
    next_phase, Action, Coordinator, CoordinatorConfig, DomainState, LoopEvent, LoopPhase, Step,
};
use weaver::messages::{
    AsyncToCpu, CpuToAsync, LogoContext, LogoFound, WorkPayload, WorkerResult, WorkerResultPayload,
};

const DOMAIN: &str = "a.com";

fn coordinator(max_pages: usize, max_depth: usize) -> Coordinator {
    Coordinator::new(CoordinatorConfig::new(max_pages, max_depth))
}

fn html(path: &str, depth: usize) -> AsyncToCpu {
    AsyncToCpu::Html {
        domain: DOMAIN.to_string(),
        path: path.to_string(),
        depth,
        body: "body".to_string(),
    }
}

fn failed() -> AsyncToCpu {
    AsyncToCpu::FetchFailed { domain: DOMAIN.to_string() }
}

fn bitmap() -> AsyncToCpu {
    AsyncToCpu::LogoBitmap {
        domain: DOMAIN.to_string(),
        context: LogoContext {
            found_on_path: "/p".to_string(),
            candidate_url: "/logo.png".to_string(),
        },
        bytes: vec![1],
    }
}

fn fetch_path(path: &str, depth: usize) -> CpuToAsync {
    CpuToAsync::FetchPath { domain: DOMAIN.to_string(), path: path.to_string(), depth }
}

fn fetch_logo() -> CpuToAsync {
    CpuToAsync::FetchLogo {
        domain: DOMAIN.to_string(),
        url: "https://a.com/logo.png".to_string(),
        context: LogoContext {
            found_on_path: "/".to_string(),
            candidate_url: "/logo.png".to_string(),
        },
    }
}

fn searched(path: &str, new_work: Vec<CpuToAsync>) -> WorkerResult {
    WorkerResult {
        domain: DOMAIN.to_string(),
        payload: WorkerResultPayload::Html { searched_path: path.to_string(), new_work },
    }
}

fn logo() -> WorkerResult {
    WorkerResult {
        domain: DOMAIN.to_string(),
        payload: WorkerResultPayload::LogoFound(LogoFound {
            page_path: "/".to_string(),
            logo_url: "/logo.png".to_string(),
            hash: "ab".to_string(),
        }),
    }
}

fn shown(actions: &[Action]) -> Vec<String> {
    actions
        .iter()
        .map(|a| match a {
            Action::Log(entry) => entry.to_string(),
            Action::Dispatch(item) => match &item.payload {
                WorkPayload::Html(body) => {
                    format!("html {} {} {} {}", item.domain, item.path, item.depth, body)
                }
                WorkPayload::LogoBitmap { context, bytes } => format!(
                    "logo {} {} {} {} {:?}",
                    item.domain, item.path, item.depth, context.candidate_url, bytes
                ),
            },
            Action::Fetch(CpuToAsync::FetchPath { domain, path, depth }) => {
                format!("fetch {domain} {path} {depth}")
            }
            Action::Fetch(CpuToAsync::FetchLogo { domain, url, .. }) => {
                format!("fetch logo {domain} {url}")
            }
            Action::CloseAsync => "close".to_string(),
        })
        .collect()
}

fn over(step: &Step) -> bool {
    step.flow == ControlFlow::Break(())
}

/// Hands in a worker's answer, all of whose requests are delivered.
fn answer(c: &mut Coordinator, result: WorkerResult) -> Vec<String> {
    let domain = result.domain.clone();
    let actions = c.handle_worker_result(result);
    let delivered = actions.iter().filter(|a| matches!(a, Action::Fetch(_))).count();
    let mut all = shown(&actions);
    assert!(c.can_settle(&domain, delivered));
    all.extend(shown(&c.settle_worker_result(&domain, delivered)));
    all
}

fn state(c: &Coordinator) -> (usize, usize, bool, bool) {
    let s = c.domain_state(DOMAIN).unwrap();
    (s.pending_fetches, s.pages_crawled, s.logo_found, s.logged_complete)
}

#[test]
fn limits_of_a_crawl() {
    let config = CoordinatorConfig::default();
    assert_eq!(config.max_pages_per_domain, 50);
    assert_eq!(config.max_depth, 3);
    let domain = DomainState { pages_crawled: 2, ..DomainState::default() };
    assert!(domain.at_page_limit(&CoordinatorConfig::new(2, 0)));
    assert!(!domain.at_page_limit(&CoordinatorConfig::new(3, 0)));
}

#[test]
fn a_domain_from_start_to_logo() {
    let mut c = coordinator(5, 3);
    let step = c.handle_async_message(html("/", 0));
    assert_eq!(shown(&step.actions), vec!["STARTED a.com", "html a.com / 0 body"]);
    assert!(!over(&step));
    assert_eq!(state(&c), (0, 1, false, false));

    let shown_actions = answer(&mut c, searched("/", vec![fetch_logo(), fetch_path("/x", 1)]));
    assert_eq!(
        shown_actions,
        vec![
            "SEARCHED a.com /",
            "fetch logo a.com https://a.com/logo.png",
            "QUEUED a.com /x 1",
            "fetch a.com /x 1",
        ]
    );
    assert_eq!(state(&c), (2, 1, false, false));

    let step = c.handle_async_message(bitmap());
    assert_eq!(shown(&step.actions), vec!["logo a.com /p 0 /logo.png [1]"]);
    assert_eq!(
        answer(&mut c, logo()),
        vec!["COMPLETED a.com LOGO_FOUND / /logo.png ab"]
    );
    assert_eq!(state(&c), (1, 1, true, true));

    let step = c.handle_async_message(AsyncToCpu::Eof);
    assert!(!over(&step));
    let step = c.handle_async_message(html("/x", 1));
    assert_eq!(shown(&step.actions), vec!["close"]);
    assert!(over(&step));
    assert!(c.domain_state(DOMAIN).is_none());
}

#[test]
fn a_later_logo_changes_nothing() {
    let mut c = coordinator(5, 3);
    c.handle_async_message(html("/", 0));
    answer(&mut c, searched("/", vec![fetch_logo(), fetch_logo(), fetch_path("/x", 1)]));
    assert_eq!(answer(&mut c, logo()).len(), 1);
    assert!(answer(&mut c, logo()).is_empty());
    assert_eq!(state(&c), (1, 1, true, true));
    let step = c.handle_async_message(bitmap());
    assert!(step.actions.is_empty());
    assert!(c.domain_state(DOMAIN).is_none());
}

#[test]
fn a_domain_without_a_logo() {
    let mut c = coordinator(5, 3);
    c.handle_async_message(html("/", 0));
    assert_eq!(
        answer(&mut c, searched("/", vec![])),
        vec!["SEARCHED a.com /", "COMPLETED a.com NO_LOGO"]
    );
    assert!(c.domain_state(DOMAIN).is_none());
}

#[test]
fn an_empty_logo_ends_its_fetch() {
    let mut c = coordinator(5, 3);
    c.handle_async_message(html("/", 0));
    answer(&mut c, searched("/", vec![fetch_logo()]));
    let empty =
        WorkerResult { domain: DOMAIN.to_string(), payload: WorkerResultPayload::LogoEmpty };
    assert_eq!(answer(&mut c, empty), vec!["COMPLETED a.com NO_LOGO"]);
}

#[test]
fn pages_beyond_the_depth_are_not_requested() {
    let mut c = coordinator(5, 2);
    c.handle_async_message(html("/", 0));
    assert_eq!(
        answer(&mut c, searched("/", vec![fetch_path("/deep", 3), fetch_path("/ok", 2)])),
        vec!["SEARCHED a.com /", "QUEUED a.com /ok 2", "fetch a.com /ok 2"]
    );
    let step = c.handle_async_message(html("/deep", 3));
    assert_eq!(shown(&step.actions), vec!["COMPLETED a.com LIMIT_REACHED"]);
}

#[test]
fn pages_beyond_the_limit_are_not_searched() {
    let mut c = coordinator(1, 3);
    c.handle_async_message(html("/", 0));
    c.settle_worker_result(DOMAIN, 2);
    assert_eq!(state(&c), (2, 1, false, false));
    let step = c.handle_async_message(html("/x", 1));
    assert!(step.actions.is_empty());
    assert_eq!(state(&c), (1, 1, false, false));
    assert_eq!(
        shown(&c.handle_worker_result(searched("/", vec![fetch_path("/y", 1)]))),
        vec!["SEARCHED a.com /"]
    );
    let step = c.handle_async_message(html("/z", 1));
    assert_eq!(shown(&step.actions), vec!["COMPLETED a.com LIMIT_REACHED"]);
    assert!(c.domain_state(DOMAIN).is_none());
}

#[test]
fn a_first_page_beyond_the_limits_starts_and_completes() {
    let mut c = coordinator(0, 3);
    let step = c.handle_async_message(html("/", 0));
    assert_eq!(shown(&step.actions), vec!["STARTED a.com", "COMPLETED a.com LIMIT_REACHED"]);
    assert!(!over(&step));
}

#[test]
fn failed_fetches_end_a_domain() {
    let mut c = coordinator(5, 3);
    assert!(c.handle_async_message(failed()).actions.is_empty());
    c.handle_async_message(html("/", 0));
    answer(&mut c, searched("/", vec![fetch_path("/x", 1), fetch_path("/y", 1)]));
    assert!(c.handle_async_message(failed()).actions.is_empty());
    c.handle_async_message(AsyncToCpu::Eof);
    let step = c.handle_async_message(failed());
    assert_eq!(shown(&step.actions), vec!["COMPLETED a.com NO_LOGO", "close"]);
    assert!(over(&step));
}

#[test]
fn a_failed_fetch_at_the_page_limit() {
    let mut c = coordinator(1, 3);
    c.handle_async_message(html("/", 0));
    c.settle_worker_result(DOMAIN, 1);
    assert_eq!(
        shown(&c.handle_async_message(failed()).actions),
        vec!["COMPLETED a.com LIMIT_REACHED"]
    );
}

#[test]
fn the_crawl_is_over_when_nothing_is_left() {
    let mut c = coordinator(5, 3);
    assert_eq!(c.check_shutdown().flow, ControlFlow::Continue(()));
    let step = c.handle_async_message(AsyncToCpu::Eof);
    assert_eq!(shown(&step.actions), vec!["close"]);
    assert!(over(&step));
    // A page of a worker is still logged; it leads to no requests.
    assert_eq!(
        shown(&c.handle_worker_result(searched("/", vec![fetch_logo()]))),
        vec!["SEARCHED a.com /"]
    );
}

#[test]
fn requests_that_are_not_delivered_are_not_awaited() {
    let mut c = coordinator(5, 3);
    c.handle_async_message(html("/", 0));
    let actions = c.handle_worker_result(searched("/", vec![fetch_logo()]));
    assert_eq!(actions.len(), 2);
    assert_eq!(shown(&c.settle_worker_result(DOMAIN, 0)), vec!["COMPLETED a.com NO_LOGO"]);
}

#[test]
fn the_number_of_fetches_has_a_limit() {
    let mut c = coordinator(5, 3);
    assert!(c.can_settle(DOMAIN, usize::MAX));
    c.handle_async_message(html("/", 0));
    c.settle_worker_result(DOMAIN, 3);
    assert!(c.can_settle(DOMAIN, usize::MAX - 2));
    assert!(!c.can_settle(DOMAIN, usize::MAX - 1));
}

#[test]
fn the_loop_goes_round() {
    assert_eq!(next_phase(LoopPhase::PollAsync, LoopEvent::AsyncHandled { shutdown: false }), LoopPhase::PollAsync);
    assert_eq!(next_phase(LoopPhase::PollAsync, LoopEvent::AsyncHandled { shutdown: true }), LoopPhase::Drain);
    assert_eq!(next_phase(LoopPhase::PollAsync, LoopEvent::AsyncEmpty), LoopPhase::AwaitWorker);
    assert_eq!(next_phase(LoopPhase::PollAsync, LoopEvent::AsyncDisconnected), LoopPhase::Drain);
    assert_eq!(next_phase(LoopPhase::AwaitWorker, LoopEvent::ResultHandled { shutdown: false }), LoopPhase::PollAsync);
    assert_eq!(next_phase(LoopPhase::AwaitWorker, LoopEvent::ResultHandled { shutdown: true }), LoopPhase::Drain);
    assert_eq!(next_phase(LoopPhase::AwaitWorker, LoopEvent::ResultTimeout), LoopPhase::PollAsync);
    assert_eq!(next_phase(LoopPhase::AwaitWorker, LoopEvent::WorkersDisconnected), LoopPhase::Stopped);
    assert_eq!(next_phase(LoopPhase::Drain, LoopEvent::ResultHandled { shutdown: false }), LoopPhase::Drain);
    assert_eq!(next_phase(LoopPhase::Drain, LoopEvent::ResultEmpty), LoopPhase::Stopped);
    assert_eq!(next_phase(LoopPhase::Drain, LoopEvent::WorkersDisconnected), LoopPhase::Stopped);
    assert_eq!(next_phase(LoopPhase::Stopped, LoopEvent::AsyncHandled { shutdown: false }), LoopPhase::Stopped);
}
