//! An interrupted crawl: what was logged is taken up again.

use weaver::async_executor::{ExecutorState, Reply, StdinLine};
use weaver::coordinator::{Action, Coordinator, CoordinatorConfig};
use weaver::fetch::FetchTask;
use weaver::messages::{AsyncToCpu, CpuToAsync, WorkPayload};
use weaver::progress::load_progress;
use weaver::worker::process_work_item;

/// Performs actions: lines are logged, work is done at once, requests are kept.
fn perform(
    c: &mut Coordinator,
    actions: Vec<Action>,
    log: &mut Vec<String>,
    requests: &mut Vec<CpuToAsync>,
) -> usize {
    let mut delivered = 0;
    for action in actions {
        match action {
            Action::Log(entry) => log.push(entry.to_string()),
            Action::Fetch(request) => {
                requests.push(request);
                delivered += 1;
            }
            Action::Dispatch(item) => {
                assert!(matches!(item.payload, WorkPayload::Html(_)));
                let domain = item.domain.clone();
                let actions = c.handle_worker_result(process_work_item(item));
                let sent = perform(c, actions, log, requests);
                assert!(c.can_settle(&domain, sent));
                let actions = c.settle_worker_result(&domain, sent);
                perform(c, actions, log, requests);
            }
            Action::CloseAsync => panic!("the crawl is not over"),
        }
    }
    delivered
}

fn page(domain: &str, path: &str, depth: usize, body: &str) -> AsyncToCpu {
    AsyncToCpu::Html {
        domain: domain.to_string(),
        path: path.to_string(),
        depth,
        body: body.to_string(),
    }
}

#[test]
fn requested_pages_are_fetched_at_the_next_start() {
    let mut c = Coordinator::new(CoordinatorConfig::default());
    let mut log: Vec<String> = Vec::new();
    let mut requests: Vec<CpuToAsync> = Vec::new();

    let step = c.handle_async_message(page(
        "a.com",
        "/",
        0,
        "<a href='/x'>x</a><a href='/y/'>y</a><img src='/logo.png'>",
    ));
    perform(&mut c, step.actions, &mut log, &mut requests);
    let step = c.handle_async_message(page("a.com", "/x", 1, "<a href='/y'>y</a>"));
    perform(&mut c, step.actions, &mut log, &mut requests);
    let step = c.handle_async_message(page("b.com", "/", 0, "nothing"));
    perform(&mut c, step.actions, &mut log, &mut requests);

    assert_eq!(
        log,
        vec![
            "STARTED a.com",
            "SEARCHED a.com /",
            "QUEUED a.com /x 1",
            "QUEUED a.com /y 1",
            "SEARCHED a.com /x",
            "QUEUED a.com /y 2",
            "STARTED b.com",
            "SEARCHED b.com /",
            "COMPLETED b.com NO_LOGO",
        ]
    );
    assert_eq!(requests.len(), 4);

    let mut state = ExecutorState::new(load_progress(&log));
    let tasks = state.requeue_pending_paths();
    assert_eq!(tasks.len(), 1);
    assert!(matches!(
        &tasks[0],
        FetchTask::Page { domain, path, depth: 2 } if domain == "a.com" && path == "/y"
    ));
    for domain in ["b.com", " b.com "] {
        assert!(state.handle_stdin_line(StdinLine::Line(domain.to_string())).is_none());
    }
    for path in ["/x", "/y", "/"] {
        let request = CpuToAsync::FetchPath {
            domain: "a.com".to_string(),
            path: path.to_string(),
            depth: 1,
        };
        let reply = state.handle_coordinator_message(Some(request));
        assert!(matches!(reply, Reply::Answer(AsyncToCpu::FetchFailed { .. })));
    }
}

fn at_next_start(log: &[&str]) -> ExecutorState {
    let lines: Vec<String> = log.iter().map(|l| l.to_string()).collect();
    ExecutorState::new(load_progress(&lines))
}

#[test]
fn a_second_restart_takes_up_what_the_first_did() {
    let mut state = at_next_start(&[
        "STARTED a.com",
        "SEARCHED a.com /",
        "QUEUED a.com /x 1",
        "QUEUED a.com /y 2",
        "STARTED a.com",
        "SEARCHED a.com /y",
        "QUEUED a.com / 3",
        "STARTED a.com",
    ]);
    let tasks = state.requeue_pending_paths();
    assert_eq!(tasks.len(), 1);
    assert!(matches!(
        &tasks[0],
        FetchTask::Page { domain, path, depth: 1 } if domain == "a.com" && path == "/x"
    ));
    assert!(state.handle_stdin_line(StdinLine::Line("a.com".to_string())).is_none());
    for path in ["/", "/x", "/y"] {
        assert!(!state.try_insert_path("a.com", path));
    }
}

#[test]
fn a_completed_domain_is_not_taken_up_again() {
    let mut state = at_next_start(&[
        "STARTED b.com",
        "QUEUED b.com /z 1",
        "COMPLETED a.com NO_LOGO",
        "STARTED a.com",
        "QUEUED a.com /x 1",
        "STARTED c.com",
        "QUEUED c.com /z 1",
    ]);
    let mut domains: Vec<String> = Vec::new();
    for task in state.requeue_pending_paths() {
        let FetchTask::Page { domain, .. } = task else {
            panic!("Expected a page");
        };
        domains.push(domain);
    }
    domains.sort();
    assert_eq!(domains, vec!["b.com", "c.com"]);
    assert!(state.handle_stdin_line(StdinLine::Line("a.com".to_string())).is_none());
}

#[test]
fn a_resumed_domain_is_complete_when_all_its_pages_were_answered() {
    let lines: Vec<String> = [
        "STARTED a.com",
        "SEARCHED a.com /",
        "QUEUED a.com /x 1",
        "QUEUED a.com /y 1",
        "STARTED b.com",
        "SEARCHED b.com /",
        "COMPLETED c.com NO_LOGO",
        "STARTED c.com",
        "QUEUED c.com /z 1",
    ]
    .iter()
    .map(|l| l.to_string())
    .collect();
    let crawl = load_progress(&lines);
    let mut c = Coordinator::resume(CoordinatorConfig::default(), &crawl);
    assert_eq!(c.domain_state("a.com").unwrap().pending_fetches, 2);
    assert!(c.domain_state("b.com").is_none());
    assert!(c.domain_state("c.com").is_none());
    assert_eq!(ExecutorState::new(crawl).requeue_pending_paths().len(), 2);

    let mut log: Vec<String> = Vec::new();
    let mut requests: Vec<CpuToAsync> = Vec::new();
    let step = c.handle_async_message(page("a.com", "/x", 1, "nothing"));
    perform(&mut c, step.actions, &mut log, &mut requests);
    assert_eq!(log, vec!["SEARCHED a.com /x"]);
    assert_eq!(c.domain_state("a.com").unwrap().pending_fetches, 1);

    let step = c.handle_async_message(AsyncToCpu::FetchFailed { domain: "a.com".to_string() });
    perform(&mut c, step.actions, &mut log, &mut requests);
    assert_eq!(log, vec!["SEARCHED a.com /x", "COMPLETED a.com NO_LOGO"]);
    assert!(c.domain_state("a.com").is_none());
    assert!(requests.is_empty());
}

#[test]
fn a_fresh_start_crawls_nothing_yet() {
    let c = Coordinator::resume(CoordinatorConfig::new(1, 2), &load_progress(&Vec::new()));
    assert!(c.domain_state("a.com").is_none());
}
