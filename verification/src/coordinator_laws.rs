//! What holds of the coordinator, whatever messages it gets.

use vstd::prelude::*;

#[allow(unused_imports)]
use crate::coordinator;
use crate::coordinator::{ActionView, CoordinatorConfig, CoordinatorView, LoopEvent, LoopPhase};
use crate::log_entry::{LogEntryView, ReasonView};
use crate::messages::{
    AsyncToCpuView, CpuToAsyncView, LogoContextView, LogoView, WorkPayloadView,
    WorkerResultPayloadView, WorkerResultView,
};

verus! {

/// What is true of the state of every domain between two messages: the limit of
/// pages is kept; a completion is logged exactly for the domains with a logo,
/// and these are kept only while a fetch is under way.
pub open spec fn domains_consistent(s: CoordinatorView) -> bool {
    forall|d: Seq<char>| #[trigger]
        s.domains.contains_key(d) ==> {
            &&& s.domains[d].pages_crawled <= s.config.max_pages_per_domain
            &&& s.domains[d].logo_found == s.domains[d].logged_complete
            &&& s.domains[d].logged_complete ==> s.domains[d].pending_fetches > 0
        }
}

/// Whether the state of a domain is the same in two states.
pub open spec fn same_domain_state(s: CoordinatorView, t: CoordinatorView, d: Seq<char>) -> bool {
    &&& s.domains.contains_key(d) == t.domains.contains_key(d)
    &&& s.domains.contains_key(d) ==> s.domains[d] == t.domains[d]
}

/// Whether an action logs the completion of a domain.
pub open spec fn logs_completion(a: ActionView, d: Seq<char>) -> bool {
    a matches ActionView::Log(LogEntryView::Completed { domain, .. }) && domain == d
}

/// The domain that a message is about.
pub open spec fn message_domain(msg: AsyncToCpuView) -> Option<Seq<char>> {
    match msg {
        AsyncToCpuView::Html { domain, .. } => Some(domain),
        AsyncToCpuView::LogoBitmap { domain, .. } => Some(domain),
        AsyncToCpuView::FetchFailed { domain } => Some(domain),
        AsyncToCpuView::Eof => None,
    }
}

/// The invariant holds at the start.
pub proof fn law_invariant_at_start(config: CoordinatorConfig)
    ensures
        domains_consistent(CoordinatorView::new(config)),
{
}

/// A message of the fetching side keeps the invariant.
pub proof fn law_async_message_keeps_domains_consistent(s: CoordinatorView, msg: AsyncToCpuView)
    requires
        domains_consistent(s),
    ensures
        domains_consistent(s.handle_async_message(msg).state),
{
}

/// A worker's answer keeps the invariant.
pub proof fn law_worker_result_keeps_domains_consistent(s: CoordinatorView, result: WorkerResultView)
    requires
        domains_consistent(s),
    ensures
        domains_consistent(s.handle_worker_result(result).0),
{
}

/// Settling a worker's answer keeps the invariant.
pub proof fn law_settling_keeps_domains_consistent(s: CoordinatorView, domain: Seq<char>, delivered: usize)
    requires
        domains_consistent(s),
        s.can_settle(domain, delivered),
    ensures
        domains_consistent(s.settle_worker_result(domain, delivered).0),
{
}

/// A page goes to a worker only within both limits, and is counted.
pub proof fn law_pages_within_limits(s: CoordinatorView, msg: AsyncToCpuView, i: int)
    requires
        0 <= i < s.handle_async_message(msg).actions.len(),
    ensures
        ({
            let step = s.handle_async_message(msg);
            step.actions[i] matches ActionView::Dispatch(item) ==> (item.payload is Html ==> {
                &&& item.depth <= s.config.max_depth
                &&& s.state_of(item.domain).pages_crawled < s.config.max_pages_per_domain
                &&& step.state.domains.contains_key(item.domain)
                &&& step.state.domains[item.domain].pages_crawled == s.state_of(
                    item.domain,
                ).pages_crawled + 1
            })
        }),
{
}

/// A page of a domain with a logo goes to no worker, and neither does a logo.
pub proof fn law_done_domain_gets_no_work(s: CoordinatorView, msg: AsyncToCpuView, i: int)
    requires
        0 <= i < s.handle_async_message(msg).actions.len(),
        message_domain(msg) matches Some(d) && s.domains.contains_key(d) && s.domains[d].is_done(),
    ensures
        !(s.handle_async_message(msg).actions[i] is Dispatch),
{
}

/// A page is requested only within the limit of depth.
pub proof fn law_requests_within_depth(
    s: CoordinatorView,
    domain: Seq<char>,
    new_work: Seq<CpuToAsyncView>,
    i: int,
)
    requires
        0 <= i < s.fetches(domain, new_work).len(),
    ensures
        s.fetches(domain, new_work)[i] matches ActionView::Fetch(
            CpuToAsyncView::FetchPath { depth, .. },
        ) ==> depth <= s.config.max_depth,
    decreases new_work.len(),
{
    if new_work.len() > 0 {
        let before = s.fetches(domain, new_work.drop_last());
        if i < before.len() {
            law_requests_within_depth(s, domain, new_work.drop_last(), i);
            assert(s.fetches(domain, new_work)[i] == before[i]);
        }
    }
}

/// A page is requested only after that was logged, so that an interruption
/// loses no request.
pub proof fn law_requests_are_logged_first(
    s: CoordinatorView,
    domain: Seq<char>,
    new_work: Seq<CpuToAsyncView>,
    i: int,
)
    requires
        0 <= i < s.fetches(domain, new_work).len(),
    ensures
        s.fetches(domain, new_work)[i] matches ActionView::Fetch(
            CpuToAsyncView::FetchPath { path, depth, .. },
        ) ==> i > 0 && s.fetches(domain, new_work)[i - 1] == ActionView::Log(
            LogEntryView::Queued { domain, path, depth },
        ),
    decreases new_work.len(),
{
    if new_work.len() > 0 {
        let before = s.fetches(domain, new_work.drop_last());
        if i < before.len() {
            law_requests_are_logged_first(s, domain, new_work.drop_last(), i);
            assert(s.fetches(domain, new_work)[i] == before[i]);
            if i > 0 {
                assert(s.fetches(domain, new_work)[i - 1] == before[i - 1]);
            }
        }
    }
}

/// Every request within the limit of depth is passed on, and no other.
pub proof fn law_requests_are_passed_on(
    s: CoordinatorView,
    domain: Seq<char>,
    new_work: Seq<CpuToAsyncView>,
    work: CpuToAsyncView,
)
    ensures
        s.fetches(domain, new_work).contains(ActionView::Fetch(work)) <==> new_work.contains(work)
            && (work matches CpuToAsyncView::FetchPath { depth, .. } ==> depth
            <= s.config.max_depth),
    decreases new_work.len(),
{
    if new_work.len() > 0 {
        let rest = new_work.drop_last();
        let before = s.fetches(domain, rest);
        let all = s.fetches(domain, new_work);
        let request = ActionView::Fetch(work);
        law_requests_are_passed_on(s, domain, rest, work);
        if before.contains(request) {
            let i = choose|i: int| 0 <= i < before.len() && before[i] == request;
            assert(all[i] == request);
        }
        if rest.contains(work) {
            let i = choose|i: int| 0 <= i < rest.len() && rest[i] == work;
            assert(new_work[i] == work);
        }
        if new_work.last() == work {
            assert(new_work[new_work.len() - 1] == work);
            if !(work matches CpuToAsyncView::FetchPath { depth, .. } && depth
                > s.config.max_depth) {
                assert(all[all.len() - 1] == request);
            }
        }
        if all.contains(request) && !before.contains(request) {
            let i = choose|i: int| 0 <= i < all.len() && all[i] == request;
            if i < before.len() {
                assert(before[i] == request);
            }
            assert(new_work.last() == work);
        }
        if new_work.contains(work) && new_work.last() != work {
            let i = choose|i: int| 0 <= i < new_work.len() && new_work[i] == work;
            assert(rest[i] == work);
        }
    }
}

/// A message changes nothing of a domain that it is not about.
pub proof fn law_message_is_about_its_domain(
    s: CoordinatorView,
    msg: AsyncToCpuView,
    other: Seq<char>,
)
    requires
        message_domain(msg) != Some(other),
    ensures
        same_domain_state(s, s.handle_async_message(msg).state, other),
{
}

/// A worker's answer changes nothing of a domain that it is not about.
pub proof fn law_result_is_about_its_domain(
    s: CoordinatorView,
    result: WorkerResultView,
    delivered: usize,
    other: Seq<char>,
)
    requires
        result.domain != other,
    ensures
        same_domain_state(s, s.handle_worker_result(result).0, other),
        same_domain_state(
            s,
            s.handle_worker_result(result).0.settle_worker_result(result.domain, delivered).0,
            other,
        ),
{
}

/// The completion of a domain is not logged again while the domain is kept.
pub proof fn law_completion_is_logged_once(s: CoordinatorView, msg: AsyncToCpuView, i: int)
    requires
        0 <= i < s.handle_async_message(msg).actions.len(),
    ensures
        forall|d: Seq<char>| #[trigger]
            logs_completion(s.handle_async_message(msg).actions[i], d) ==> {
                &&& message_domain(msg) == Some(d)
                &&& !s.state_of(d).logged_complete
                &&& !s.handle_async_message(msg).state.domains.contains_key(d)
            },
{
}

/// A completion that a worker's answer leads to is logged once: afterwards the
/// domain is kept as logged, or not kept.
pub proof fn law_result_completion_is_logged_once(
    s: CoordinatorView,
    result: WorkerResultView,
    i: int,
)
    requires
        0 <= i < s.handle_worker_result(result).1.len(),
    ensures
        forall|d: Seq<char>| #[trigger]
            logs_completion(s.handle_worker_result(result).1[i], d) ==> {
                let after = s.handle_worker_result(result).0;
                &&& d == result.domain
                &&& !s.state_of(d).logged_complete
                &&& after.domains.contains_key(d) ==> after.domains[d].logged_complete
            },
{
    if let WorkerResultPayloadView::Html { searched_path, new_work } = result.payload {
        let searched = seq![
            ActionView::Log(
                LogEntryView::Searched { domain: result.domain, path: searched_path },
            ),
        ];
        let actions = s.handle_html_result(result.domain, searched_path, new_work);
        if i > 0 {
            lemma_fetches_log_no_completion(s, result.domain, new_work, i - 1);
            assert(actions[i] == s.fetches(result.domain, new_work)[i - 1]);
        }
    }
}

/// Among the requests there is no completion.
proof fn lemma_fetches_log_no_completion(
    s: CoordinatorView,
    domain: Seq<char>,
    new_work: Seq<CpuToAsyncView>,
    i: int,
)
    requires
        0 <= i < s.fetches(domain, new_work).len(),
    ensures
        forall|d: Seq<char>| !#[trigger] logs_completion(s.fetches(domain, new_work)[i], d),
    decreases new_work.len(),
{
    if new_work.len() > 0 {
        let before = s.fetches(domain, new_work.drop_last());
        if i < before.len() {
            lemma_fetches_log_no_completion(s, domain, new_work.drop_last(), i);
            assert(s.fetches(domain, new_work)[i] == before[i]);
        }
    }
}

/// The first logo of a domain completes it, and is what is logged.
pub proof fn law_first_logo_completes(s: CoordinatorView, domain: Seq<char>, logo: LogoView)
    requires
        !s.state_of(domain).is_done(),
    ensures
        ({
            let (after, actions) = s.handle_logo_found(domain, logo);
            &&& actions == seq![
                ActionView::Log(
                    LogEntryView::Completed { domain, reason: ReasonView::LogoFound(logo) },
                ),
            ]
            &&& after.domains.contains_key(domain) ==> after.domains[domain].is_done()
        }),
{
}

/// A later logo changes nothing.
pub proof fn law_later_logo_changes_nothing(s: CoordinatorView, domain: Seq<char>, logo: LogoView)
    requires
        s.state_of(domain).logo_found,
    ensures
        s.handle_logo_found(domain, logo) == (s, Seq::<ActionView>::empty()),
{
}

/// The crawl ends only when no more domains will come and none is left; then
/// the channel of requests is closed.
pub proof fn law_shutdown_when_nothing_is_left(s: CoordinatorView, msg: AsyncToCpuView)
    requires
        s.handle_async_message(msg).shutdown,
    ensures
        ({
            let step = s.handle_async_message(msg);
            &&& step.state.eof_received
            &&& step.state.domains == Map::<Seq<char>, crate::coordinator::DomainState>::empty()
            &&& !step.state.async_open
            &&& step.actions.len() > 0
            &&& step.actions.last() == ActionView::CloseAsync
        }),
{
}

/// When a domain was the last one and no more will come, its end ends the crawl.
pub proof fn law_last_domain_ends_crawl(s: CoordinatorView, msg: AsyncToCpuView)
    requires
        message_domain(msg) matches Some(d) && s.domains.contains_key(d),
        s.eof_received,
        s.handle_async_message(msg).state.domains == Map::<
            Seq<char>,
            crate::coordinator::DomainState,
        >::empty(),
    ensures
        s.handle_async_message(msg).shutdown,
{
    let d = message_domain(msg)->0;
    assert(!s.handle_async_message(msg).state.domains.contains_key(d));
}

/// When the channel of requests is closed it stays closed, and nothing is requested.
pub proof fn law_nothing_is_requested_after_close(
    s: CoordinatorView,
    msg: AsyncToCpuView,
    result: WorkerResultView,
    delivered: usize,
)
    requires
        !s.async_open,
    ensures
        !s.handle_async_message(msg).state.async_open,
        !s.handle_worker_result(result).0.async_open,
        !s.settle_worker_result(result.domain, delivered).0.async_open,
        forall|i: int|
            0 <= i < s.handle_worker_result(result).1.len() ==> !(#[trigger] s.handle_worker_result(
                result,
            ).1[i] is Fetch),
{
}

/// A message never leads to a request.
pub proof fn law_messages_request_nothing(s: CoordinatorView, msg: AsyncToCpuView, i: int)
    requires
        0 <= i < s.handle_async_message(msg).actions.len(),
    ensures
        !(s.handle_async_message(msg).actions[i] is Fetch),
{
}

/// The limits and the end of the input never change back.
pub proof fn law_limits_are_kept(
    s: CoordinatorView,
    msg: AsyncToCpuView,
    result: WorkerResultView,
    delivered: usize,
)
    ensures
        s.handle_async_message(msg).state.config == s.config,
        s.handle_worker_result(result).0.config == s.config,
        s.settle_worker_result(result.domain, delivered).0.config == s.config,
        s.eof_received ==> s.handle_async_message(msg).state.eof_received,
        s.handle_worker_result(result).0.eof_received == s.eof_received,
        s.settle_worker_result(result.domain, delivered).0.eof_received == s.eof_received,
{
}

/// Once the crawl is over, the loop takes no message of the fetching side any
/// more; once it has ended, it does not start again.
pub proof fn law_loop_does_not_resume(phase: LoopPhase, event: LoopEvent)
    ensures
        phase == LoopPhase::Drain ==> coordinator::next_phase_of(phase, event) == LoopPhase::Drain
            || coordinator::next_phase_of(phase, event) == LoopPhase::Stopped,
        phase == LoopPhase::Stopped ==> coordinator::next_phase_of(phase, event)
            == LoopPhase::Stopped,
{
}

/// What happens to the coordinator.
pub enum CoordinatorEvent {
    /// A message of the fetching side.
    Message(AsyncToCpuView),
    /// A worker's answer, of whose requests some were delivered.
    Answer { result: WorkerResultView, delivered: usize },
}

/// Whether the number that goes with a worker's answer can be settled.
pub open spec fn can_happen(s: CoordinatorView, event: CoordinatorEvent) -> bool {
    event matches CoordinatorEvent::Answer { result, delivered } ==> s.handle_worker_result(
        result,
    ).0.can_settle(result.domain, delivered)
}

/// The state after an event.
pub open spec fn step(s: CoordinatorView, event: CoordinatorEvent) -> CoordinatorView {
    match event {
        CoordinatorEvent::Message(msg) => s.handle_async_message(msg).state,
        CoordinatorEvent::Answer { result, delivered } => s.handle_worker_result(
            result,
        ).0.settle_worker_result(result.domain, delivered).0,
    }
}

/// The actions of an event.
pub open spec fn actions_of(s: CoordinatorView, event: CoordinatorEvent) -> Seq<ActionView> {
    match event {
        CoordinatorEvent::Message(msg) => s.handle_async_message(msg).actions,
        CoordinatorEvent::Answer { result, delivered } => s.handle_worker_result(result).1
            + s.handle_worker_result(result).0.settle_worker_result(result.domain, delivered).1,
    }
}

/// By how much an event changes the number of fetches of a domain that are
/// under way. A message that is handed to a worker ends none yet; any other
/// ends one, and so does a worker's answer, after which those that were
/// delivered are under way.
pub open spec fn change(s: CoordinatorView, event: CoordinatorEvent, domain: Seq<char>) -> int {
    match event {
        CoordinatorEvent::Message(msg) => {
            let actions = s.handle_async_message(msg).actions;
            if message_domain(msg) != Some(domain) || (actions.len() > 0
                && actions.last() is Dispatch) {
                0
            } else {
                -1
            }
        },
        CoordinatorEvent::Answer { result, delivered } => if result.domain == domain {
            delivered - 1
        } else {
            0
        },
    }
}

/// Whether an action logs that a domain was searched in vain, or up to a limit.
pub open spec fn logs_exhaustion(a: ActionView, domain: Seq<char>) -> bool {
    a matches ActionView::Log(LogEntryView::Completed { domain: d, reason }) && d == domain
        && !(reason is LogoFound)
}

/// The state after some events.
pub open spec fn run(s: CoordinatorView, events: Seq<CoordinatorEvent>) -> CoordinatorView
    decreases events.len(),
{
    if events.len() == 0 {
        s
    } else {
        step(run(s, events.drop_last()), events.last())
    }
}

/// The number of fetches of a domain that are under way after some events.
pub open spec fn fetches_left(
    s: CoordinatorView,
    events: Seq<CoordinatorEvent>,
    domain: Seq<char>,
) -> int
    decreases events.len(),
{
    if events.len() == 0 {
        s.state_of(domain).pending_fetches as int
    } else {
        let before = events.drop_last();
        fetches_left(s, before, domain) + change(run(s, before), events.last(), domain)
    }
}

/// Whether at all times a fetch of a domain is under way.
pub open spec fn stays_busy(
    s: CoordinatorView,
    events: Seq<CoordinatorEvent>,
    domain: Seq<char>,
) -> bool
    decreases events.len(),
{
    &&& fetches_left(s, events, domain) > 0
    &&& events.len() > 0 ==> {
        &&& can_happen(run(s, events.drop_last()), events.last())
        &&& stays_busy(s, events.drop_last(), domain)
    }
}

/// Whether an event changes the number of pending fetches of a domain by what
/// it starts and ends, and the domain is forgotten when none is left.
pub open spec fn is_counted(
    s: CoordinatorView,
    event: CoordinatorEvent,
    domain: Seq<char>,
) -> bool {
    let left = s.domains[domain].pending_fetches + change(s, event, domain);
    let next = step(s, event);
    &&& left >= 0
    &&& next.domains.contains_key(domain) <==> left > 0
    &&& left > 0 ==> next.domains[domain].pending_fetches == left
}

#[verifier::rlimit(30)]
proof fn lemma_page_is_counted(s: CoordinatorView, d: Seq<char>, path: Seq<char>, depth: usize, body: Seq<char>, domain: Seq<char>)
    requires
        domains_consistent(s),
        s.domains.contains_key(domain),
        s.domains[domain].pending_fetches > 0,
    ensures
        is_counted(s, CoordinatorEvent::Message(AsyncToCpuView::Html { domain: d, path, depth, body }), domain),
{
}

proof fn lemma_logo_is_counted(s: CoordinatorView, d: Seq<char>, context: LogoContextView, bytes: Seq<u8>, domain: Seq<char>)
    requires
        domains_consistent(s),
        s.domains.contains_key(domain),
        s.domains[domain].pending_fetches > 0,
    ensures
        is_counted(s, CoordinatorEvent::Message(AsyncToCpuView::LogoBitmap { domain: d, context, bytes }), domain),
{
}

proof fn lemma_failure_is_counted(s: CoordinatorView, d: Seq<char>, domain: Seq<char>)
    requires
        domains_consistent(s),
        s.domains.contains_key(domain),
        s.domains[domain].pending_fetches > 0,
    ensures
        is_counted(s, CoordinatorEvent::Message(AsyncToCpuView::FetchFailed { domain: d }), domain),
{
}

#[verifier::rlimit(30)]
proof fn lemma_answer_is_counted(s: CoordinatorView, result: WorkerResultView, delivered: usize, domain: Seq<char>)
    requires
        domains_consistent(s),
        can_happen(s, CoordinatorEvent::Answer { result, delivered }),
        s.domains.contains_key(domain),
        s.domains[domain].pending_fetches > 0,
    ensures
        is_counted(s, CoordinatorEvent::Answer { result, delivered }, domain),
{
    let mid = s.handle_worker_result(result).0;
    assert(mid.domains.contains_key(domain));
    assert(mid.domains[domain].pending_fetches == s.domains[domain].pending_fetches);
    law_worker_result_keeps_domains_consistent(s, result);
}

/// An event changes the number of pending fetches of a domain that has some by
/// what it starts and ends; the domain is forgotten when none is left.
#[verifier::rlimit(30)]
pub proof fn law_fetches_are_counted(
    s: CoordinatorView,
    event: CoordinatorEvent,
    domain: Seq<char>,
)
    requires
        domains_consistent(s),
        can_happen(s, event),
        s.domains.contains_key(domain),
        s.domains[domain].pending_fetches > 0,
    ensures
        domains_consistent(step(s, event)),
        is_counted(s, event, domain),
{
    match event {
        CoordinatorEvent::Message(msg) => {
            law_async_message_keeps_domains_consistent(s, msg);
            match msg {
                AsyncToCpuView::Html { domain: d, path, depth, body } => {
                    lemma_page_is_counted(s, d, path, depth, body, domain);
                },
                AsyncToCpuView::LogoBitmap { domain: d, context, bytes } => {
                    lemma_logo_is_counted(s, d, context, bytes, domain);
                },
                AsyncToCpuView::FetchFailed { domain: d } => {
                    lemma_failure_is_counted(s, d, domain);
                },
                AsyncToCpuView::Eof => {},
            }
        },
        CoordinatorEvent::Answer { result, delivered } => {
            let mid = s.handle_worker_result(result).0;
            law_worker_result_keeps_domains_consistent(s, result);
            law_settling_keeps_domains_consistent(mid, result.domain, delivered);
            lemma_answer_is_counted(s, result, delivered, domain);
        },
    }
}

/// That a domain is exhausted is logged only when no fetch of it that is
/// counted is left.
#[verifier::rlimit(30)]
pub proof fn law_exhaustion_ends_last_fetch(
    s: CoordinatorView,
    event: CoordinatorEvent,
    domain: Seq<char>,
    i: int,
)
    requires
        domains_consistent(s),
        can_happen(s, event),
        0 <= i < actions_of(s, event).len(),
        logs_exhaustion(actions_of(s, event)[i], domain),
    ensures
        s.state_of(domain).pending_fetches + change(s, event, domain) <= 0,
{
    if let CoordinatorEvent::Answer { result, delivered } = event {
        let (mid, first) = s.handle_worker_result(result);
        if i < first.len() {
            assert(actions_of(s, event)[i] == first[i]);
            if let WorkerResultPayloadView::Html { searched_path, new_work } = result.payload {
                let fetches = s.fetches(result.domain, new_work);
                if i > 0 {
                    lemma_fetches_log_no_completion(s, result.domain, new_work, i - 1);
                    assert(first[i] == fetches[i - 1]);
                    assert(!logs_completion(fetches[i - 1], domain));
                }
            }
        } else {
            let second = mid.settle_worker_result(result.domain, delivered).1;
            assert(actions_of(s, event)[i] == second[i - first.len()]);
        }
    }
}

/// As long as a fetch of a domain is under way, the domain is kept with their
/// number.
pub proof fn law_busy_domain_is_kept(
    s: CoordinatorView,
    events: Seq<CoordinatorEvent>,
    domain: Seq<char>,
)
    requires
        domains_consistent(s),
        s.domains.contains_key(domain),
        stays_busy(s, events, domain),
    ensures
        domains_consistent(run(s, events)),
        run(s, events).domains.contains_key(domain),
        run(s, events).domains[domain].pending_fetches == fetches_left(s, events, domain),
    decreases events.len(),
{
    if events.len() > 0 {
        let before = events.drop_last();
        law_busy_domain_is_kept(s, before, domain);
        law_fetches_are_counted(run(s, before), events.last(), domain);
    }
}

/// That a domain is exhausted is logged only by the event that ends the last of
/// its fetches.
pub proof fn law_busy_domain_is_not_exhausted(
    s: CoordinatorView,
    events: Seq<CoordinatorEvent>,
    event: CoordinatorEvent,
    domain: Seq<char>,
    i: int,
)
    requires
        domains_consistent(s),
        s.domains.contains_key(domain),
        stays_busy(s, events, domain),
        can_happen(run(s, events), event),
        0 <= i < actions_of(run(s, events), event).len(),
        logs_exhaustion(actions_of(run(s, events), event)[i], domain),
    ensures
        fetches_left(s, events.push(event), domain) == 0,
{
    law_busy_domain_is_kept(s, events, domain);
    law_exhaustion_ends_last_fetch(run(s, events), event, domain, i);
    law_fetches_are_counted(run(s, events), event, domain);
    assert(events.push(event).drop_last() =~= events);
}

} // verus!
