//! What each event leads to, told from the state of its domain: when a page or
//! a logo goes to a worker, when a domain is complete and for which reason, and
//! when the crawl is over.

use vstd::prelude::*;

use crate::coordinator::{ActionView, CoordinatorConfig, CoordinatorView, DomainState};
use crate::coordinator::{LoopEvent, LoopPhase};
use crate::log_entry::{LogEntryView, ReasonView};
use crate::messages::{
    AsyncToCpuView, CpuToAsyncView, LogoContextView, LogoView, WorkItemView, WorkPayloadView,
    WorkerResultPayloadView, WorkerResultView,
};
use crate::progress::CrawlStateView;
#[allow(unused_imports)]
use crate::{coordinator, progress};

verus! {

/// Whether a domain is crawled and a logo of it was found, or its completion logged.
pub open spec fn has_ended(s: CoordinatorView, d: Seq<char>) -> bool {
    s.domains.contains_key(d) && (s.domains[d].logo_found || s.domains[d].logged_complete)
}

/// The number of pages of a domain that went to workers.
pub open spec fn pages_of(s: CoordinatorView, d: Seq<char>) -> int {
    if s.domains.contains_key(d) {
        s.domains[d].pages_crawled as int
    } else {
        0
    }
}

/// The number of fetches of a domain under way when one of them ends.
pub open spec fn left_of(s: CoordinatorView, d: Seq<char>) -> int {
    if s.domains.contains_key(d) && s.domains[d].pending_fetches > 0 {
        s.domains[d].pending_fetches - 1
    } else {
        0
    }
}

/// The entry that the first page of a domain leads to, and no other.
pub open spec fn start_logged(s: CoordinatorView, d: Seq<char>) -> Seq<ActionView> {
    if s.domains.contains_key(d) && (s.domains[d].pages_crawled > 0 || s.domains[d].pending_fetches
        > 0) {
        seq![]
    } else {
        seq![ActionView::Log(LogEntryView::Started(d))]
    }
}

/// Whether no domain is left when one of them is forgotten, and no more will come.
pub open spec fn is_last(s: CoordinatorView, d: Seq<char>) -> bool {
    s.eof_received && forall|other: Seq<char>| #[trigger]
        s.domains.contains_key(other) ==> other == d
}

/// The closing of the channel, if a domain was the last one.
pub open spec fn closing(s: CoordinatorView, d: Seq<char>) -> Seq<ActionView> {
    if is_last(s, d) {
        seq![ActionView::CloseAsync]
    } else {
        seq![]
    }
}

proof fn lemma_last(s: CoordinatorView, d: Seq<char>)
    ensures
        is_last(s, d) <==> s.eof_received && s.domains.remove(d) == Map::<
            Seq<char>,
            DomainState,
        >::empty(),
{
    let rest = s.domains.remove(d);
    if is_last(s, d) {
        assert(rest =~= Map::<Seq<char>, DomainState>::empty());
    }
    if rest == Map::<Seq<char>, DomainState>::empty() {
        assert forall|other: Seq<char>| #[trigger] s.domains.contains_key(other) implies other
            == d by {
            if other != d {
                assert(rest.contains_key(other));
            }
        }
    }
}

/// A page within both limits, of a domain that has not ended, goes to a worker
/// as it was fetched, and is counted; nothing else of the state changes. The
/// first page of a domain is logged.
#[verifier::rlimit(30)]
pub proof fn law_page_within_limits_is_searched(
    s: CoordinatorView,
    d: Seq<char>,
    path: Seq<char>,
    depth: usize,
    body: Seq<char>,
)
    requires
        !has_ended(s, d),
        depth <= s.config.max_depth,
        pages_of(s, d) < s.config.max_pages_per_domain,
    ensures
        ({
            let step = s.handle_async_message(
                AsyncToCpuView::Html { domain: d, path, depth, body },
            );
            let page = WorkItemView { domain: d, path, depth, payload: WorkPayloadView::Html(body) };
            &&& step.actions == start_logged(s, d).push(ActionView::Dispatch(page))
            &&& !step.shutdown
            &&& step.state.config == s.config
            &&& step.state.eof_received == s.eof_received
            &&& step.state.async_open == s.async_open
            &&& step.state.domains.contains_key(d)
            &&& step.state.domains == s.domains.insert(d, step.state.domains[d])
            &&& step.state.domains[d].pages_crawled == pages_of(s, d) + 1
            &&& step.state.domains[d].pending_fetches == (if s.domains.contains_key(d) {
                s.domains[d].pending_fetches
            } else {
                0
            })
            &&& !step.state.domains[d].logo_found
            &&& !step.state.domains[d].logged_complete
        }),
{
    let step = s.handle_async_message(AsyncToCpuView::Html { domain: d, path, depth, body });
    assert(step.actions =~= start_logged(s, d).push(step.actions.last()));
}

/// A page is withheld from the workers only if its domain has ended or a limit
/// is reached; then one fetch less is under way. With the last one the domain
/// is forgotten, and complete because of the limit unless it had ended.
#[verifier::rlimit(30)]
pub proof fn law_page_beyond_limits_is_withheld(
    s: CoordinatorView,
    d: Seq<char>,
    path: Seq<char>,
    depth: usize,
    body: Seq<char>,
)
    requires
        has_ended(s, d) || depth > s.config.max_depth || pages_of(s, d)
            >= s.config.max_pages_per_domain,
    ensures
        ({
            let step = s.handle_async_message(
                AsyncToCpuView::Html { domain: d, path, depth, body },
            );
            let limit = ActionView::Log(
                LogEntryView::Completed { domain: d, reason: ReasonView::LimitReached },
            );
            &&& step.state.config == s.config
            &&& step.state.eof_received == s.eof_received
            &&& if left_of(s, d) > 0 {
                &&& step.actions == start_logged(s, d)
                &&& !step.shutdown
                &&& step.state.async_open == s.async_open
                &&& step.state.domains == s.domains.insert(d, DomainState {
                    pending_fetches: left_of(s, d) as usize,
                    ..s.domains[d]
                })
            } else {
                &&& step.actions == start_logged(s, d) + (if has_ended(s, d) {
                    seq![]
                } else {
                    seq![limit]
                }) + closing(s, d)
                &&& step.shutdown == is_last(s, d)
                &&& step.state.async_open == (s.async_open && !is_last(s, d))
                &&& step.state.domains == s.domains.remove(d)
            }
        }),
{
    lemma_last(s, d);
    let step = s.handle_async_message(AsyncToCpuView::Html { domain: d, path, depth, body });
    if left_of(s, d) > 0 {
        assert(step.actions =~= start_logged(s, d));
    } else {
        assert(step.state.domains =~= s.domains.remove(d));
        let limit = ActionView::Log(
            LogEntryView::Completed { domain: d, reason: ReasonView::LimitReached },
        );
        assert(step.actions =~= start_logged(s, d) + (if has_ended(s, d) {
            seq![]
        } else {
            seq![limit]
        }) + closing(s, d));
    }
}

/// A logo candidate of a domain that has not ended goes to a worker as it was
/// fetched, and changes nothing; one of a domain that has ended goes to none,
/// and one fetch less is under way.
pub proof fn law_logo_is_hashed_unless_ended(
    s: CoordinatorView,
    d: Seq<char>,
    context: LogoContextView,
    bytes: Seq<u8>,
)
    ensures
        ({
            let step = s.handle_async_message(
                AsyncToCpuView::LogoBitmap { domain: d, context, bytes },
            );
            let logo = WorkItemView {
                domain: d,
                path: context.found_on_path,
                depth: 0,
                payload: WorkPayloadView::LogoBitmap { context, bytes },
            };
            if !has_ended(s, d) {
                &&& step.actions == seq![ActionView::Dispatch(logo)]
                &&& step.state == s
                &&& !step.shutdown
            } else if left_of(s, d) > 0 {
                &&& step.actions == Seq::<ActionView>::empty()
                &&& !step.shutdown
                &&& step.state.async_open == s.async_open
                &&& step.state.domains == s.domains.insert(d, DomainState {
                    pending_fetches: left_of(s, d) as usize,
                    ..s.domains[d]
                })
            } else {
                &&& step.actions == closing(s, d)
                &&& step.shutdown == is_last(s, d)
                &&& step.state.async_open == (s.async_open && !is_last(s, d))
                &&& step.state.domains == s.domains.remove(d)
            }
        }),
{
    lemma_last(s, d);
}

/// The reason for which a domain without a logo is complete when nothing of it
/// is under way: the limit if as many pages as allowed were searched, else that
/// there is no logo.
pub open spec fn exhausted(s: CoordinatorView, d: Seq<char>) -> ActionView {
    ActionView::Log(
        LogEntryView::Completed {
            domain: d,
            reason: if pages_of(s, d) >= s.config.max_pages_per_domain {
                ReasonView::LimitReached
            } else {
                ReasonView::NoLogo
            },
        },
    )
}

/// A failed fetch of a domain that is not crawled changes nothing; of any other
/// one fetch less is under way. With the last one the domain is forgotten, and
/// complete unless that was logged.
#[verifier::rlimit(30)]
pub proof fn law_failed_fetch_is_one_less(s: CoordinatorView, d: Seq<char>)
    requires
        s.domains.contains_key(d) ==> s.domains[d].logo_found == s.domains[d].logged_complete,
    ensures
        ({
            let step = s.handle_async_message(AsyncToCpuView::FetchFailed { domain: d });
            if !s.domains.contains_key(d) {
                &&& step.actions == Seq::<ActionView>::empty()
                &&& step.state == s
                &&& !step.shutdown
            } else if left_of(s, d) > 0 {
                &&& step.actions == Seq::<ActionView>::empty()
                &&& !step.shutdown
                &&& step.state.async_open == s.async_open
                &&& step.state.domains == s.domains.insert(d, DomainState {
                    pending_fetches: left_of(s, d) as usize,
                    ..s.domains[d]
                })
            } else {
                &&& step.actions == (if has_ended(s, d) {
                    seq![]
                } else {
                    seq![exhausted(s, d)]
                }) + closing(s, d)
                &&& step.shutdown == is_last(s, d)
                &&& step.state.async_open == (s.async_open && !is_last(s, d))
                &&& step.state.domains == s.domains.remove(d)
            }
        }),
{
    lemma_last(s, d);
    let step = s.handle_async_message(AsyncToCpuView::FetchFailed { domain: d });
    if s.domains.contains_key(d) && left_of(s, d) == 0 {
        assert(step.state.domains =~= s.domains.remove(d));
        assert(step.actions =~= (if has_ended(s, d) {
            seq![]
        } else {
            seq![exhausted(s, d)]
        }) + closing(s, d));
    }
}

/// At the end of the input the crawl is over exactly if no domain is crawled.
pub proof fn law_end_of_input(s: CoordinatorView)
    ensures
        ({
            let step = s.handle_async_message(AsyncToCpuView::Eof);
            let over = forall|d: Seq<char>| !(#[trigger] s.domains.contains_key(d));
            &&& step.state.eof_received
            &&& step.state.domains == s.domains
            &&& step.state.config == s.config
            &&& step.shutdown == over
            &&& step.state.async_open == (s.async_open && !over)
            &&& step.actions == (if over {
                seq![ActionView::CloseAsync]
            } else {
                seq![]
            })
        }),
{
    if forall|d: Seq<char>| !(#[trigger] s.domains.contains_key(d)) {
        assert(s.domains =~= Map::<Seq<char>, DomainState>::empty());
    } else {
        let d = choose|d: Seq<char>| #[trigger] s.domains.contains_key(d);
        assert(s.domains != Map::<Seq<char>, DomainState>::empty());
    }
}

/// The crawl is over exactly if no more domains will come and none is crawled.
pub proof fn law_crawl_is_over(s: CoordinatorView)
    ensures
        ({
            let over = s.eof_received && forall|d: Seq<char>|
                !(#[trigger] s.domains.contains_key(d));
            &&& s.check_shutdown().shutdown == over
            &&& s.check_shutdown().state.domains == s.domains
            &&& s.check_shutdown().actions == (if over {
                seq![ActionView::CloseAsync]
            } else {
                seq![]
            })
        }),
{
    if forall|d: Seq<char>| !(#[trigger] s.domains.contains_key(d)) {
        assert(s.domains =~= Map::<Seq<char>, DomainState>::empty());
    } else {
        let d = choose|d: Seq<char>| #[trigger] s.domains.contains_key(d);
        assert(s.domains != Map::<Seq<char>, DomainState>::empty());
    }
}

/// A logo that a worker found completes its domain with exactly that logo, if
/// it is the first one, and changes nothing otherwise. The domain is kept only
/// while a fetch of it is under way.
#[verifier::rlimit(30)]
pub proof fn law_first_logo_is_logged(s: CoordinatorView, d: Seq<char>, logo: LogoView)
    requires
        s.domains.contains_key(d) ==> s.domains[d].logo_found == s.domains[d].logged_complete,
    ensures
        ({
            let (after, actions) = s.handle_worker_result(
                WorkerResultView { domain: d, payload: WorkerResultPayloadView::LogoFound(logo) },
            );
            if has_ended(s, d) {
                after == s && actions == Seq::<ActionView>::empty()
            } else {
                &&& actions == seq![
                    ActionView::Log(
                        LogEntryView::Completed { domain: d, reason: ReasonView::LogoFound(logo) },
                    ),
                ]
                &&& after.config == s.config && after.eof_received == s.eof_received
                    && after.async_open == s.async_open
                &&& if s.domains.contains_key(d) && s.domains[d].pending_fetches > 0 {
                    after.domains == s.domains.insert(
                        d,
                        DomainState { logo_found: true, logged_complete: true, ..s.domains[d] },
                    )
                } else {
                    after.domains == s.domains.remove(d)
                }
            }
        }),
{
    let (after, actions) = s.handle_worker_result(
        WorkerResultView { domain: d, payload: WorkerResultPayloadView::LogoFound(logo) },
    );
    if !has_ended(s, d) {
        if s.domains.contains_key(d) && s.domains[d].pending_fetches > 0 {
            assert(after.domains =~= s.domains.insert(
                d,
                DomainState { logo_found: true, logged_complete: true, ..s.domains[d] },
            ));
        } else {
            assert(after.domains =~= s.domains.remove(d));
        }
    }
}

/// An empty logo candidate changes nothing by itself.
pub proof fn law_empty_logo_changes_nothing(s: CoordinatorView, d: Seq<char>)
    ensures
        s.handle_worker_result(
            WorkerResultView { domain: d, payload: WorkerResultPayloadView::LogoEmpty },
        ) == (s, Seq::<ActionView>::empty()),
{
}

/// The requests of two lists of work are those of the first, then those of the
/// second.
pub proof fn law_requests_keep_their_order(
    s: CoordinatorView,
    d: Seq<char>,
    first: Seq<CpuToAsyncView>,
    second: Seq<CpuToAsyncView>,
)
    ensures
        s.fetches(d, first + second) == s.fetches(d, first) + s.fetches(d, second),
    decreases second.len(),
{
    if second.len() == 0 {
        assert(first + second =~= first);
        assert(s.fetches(d, first) + s.fetches(d, second) =~= s.fetches(d, first));
    } else {
        let rest = second.drop_last();
        law_requests_keep_their_order(s, d, first, rest);
        assert((first + second).drop_last() =~= first + rest);
        assert(s.fetches(d, first + second) =~= s.fetches(d, first) + s.fetches(d, second));
    }
}

/// A page within the limit of depth is logged as queued and then requested; one
/// beyond it is neither; a logo is requested.
pub proof fn law_one_request(s: CoordinatorView, d: Seq<char>, work: CpuToAsyncView)
    ensures
        s.fetches(d, seq![work]) == (match work {
            CpuToAsyncView::FetchPath { path, depth, .. } => if depth <= s.config.max_depth {
                seq![
                    ActionView::Log(LogEntryView::Queued { domain: d, path, depth }),
                    ActionView::Fetch(work),
                ]
            } else {
                seq![]
            },
            CpuToAsyncView::FetchLogo { .. } => seq![ActionView::Fetch(work)],
        }),
{
    let one = seq![work];
    assert(one.drop_last() =~= Seq::empty());
    assert(s.fetches(d, one.drop_last()) =~= Seq::empty());
    assert(one.last() == work);
}

/// A searched page is logged first. What it led to is requested if its domain
/// is crawled, has not ended, may be searched further, and the channel is open;
/// else nothing is. The state does not change.
pub proof fn law_searched_page_leads_on(
    s: CoordinatorView,
    d: Seq<char>,
    path: Seq<char>,
    new_work: Seq<CpuToAsyncView>,
)
    ensures
        ({
            let (after, actions) = s.handle_worker_result(
                WorkerResultView {
                    domain: d,
                    payload: WorkerResultPayloadView::Html { searched_path: path, new_work },
                },
            );
            let searched = ActionView::Log(LogEntryView::Searched { domain: d, path });
            &&& after == s
            &&& if s.domains.contains_key(d) && !has_ended(s, d) && pages_of(s, d)
                < s.config.max_pages_per_domain && s.async_open {
                actions == seq![searched] + s.fetches(d, new_work)
            } else {
                actions == seq![searched]
            }
        }),
{
}

/// When a worker's answer is settled, the fetches that were delivered are under
/// way in place of one. If none is, the domain is forgotten, and complete
/// unless that was logged.
#[verifier::rlimit(30)]
pub proof fn law_settled_answer(s: CoordinatorView, d: Seq<char>, delivered: usize)
    requires
        s.domains.contains_key(d) ==> s.domains[d].logo_found == s.domains[d].logged_complete,
        left_of(s, d) + delivered <= usize::MAX,
    ensures
        s.can_settle(d, delivered),
        ({
            let (after, actions) = s.settle_worker_result(d, delivered);
            &&& after.config == s.config && after.eof_received == s.eof_received
                && after.async_open == s.async_open
            &&& if !s.domains.contains_key(d) {
                after == s && actions == Seq::<ActionView>::empty()
            } else if left_of(s, d) + delivered > 0 {
                &&& actions == Seq::<ActionView>::empty()
                &&& after.domains == s.domains.insert(d, DomainState {
                    pending_fetches: (left_of(s, d) + delivered) as usize,
                    ..s.domains[d]
                })
            } else {
                &&& after.domains == s.domains.remove(d)
                &&& actions == (if has_ended(s, d) {
                    seq![]
                } else {
                    seq![exhausted(s, d)]
                })
            }
        }),
{
    let (after, actions) = s.settle_worker_result(d, delivered);
    if s.domains.contains_key(d) && left_of(s, d) + delivered == 0 {
        assert(after.domains =~= s.domains.remove(d));
    }
}

/// A crawl that goes on starts with the domains that are in progress, not
/// completed, and have paths to be searched; as many fetches are under way as
/// there are such paths, and nothing else happened yet.
pub proof fn law_resumed_domains(config: CoordinatorConfig, crawl: CrawlStateView, d: Seq<char>)
    requires
        crawl.in_progress.contains_key(d) ==> crawl.in_progress[d].queued.dom().len() <= usize::MAX,
    ensures
        ({
            let s = CoordinatorView::resume(config, crawl);
            &&& s.config == config && !s.eof_received && s.async_open
            &&& s.domains.contains_key(d) <==> crawl.in_progress.contains_key(d)
                && !crawl.completed.contains_key(d) && crawl.in_progress[d].queued.dom().len() > 0
            &&& s.domains.contains_key(d) ==> {
                &&& s.domains[d].pending_fetches == crawl.in_progress[d].queued.dom().len()
                &&& s.domains[d].pages_crawled == 0
                &&& !s.domains[d].logo_found
                &&& !s.domains[d].logged_complete
            }
        }),
{
}

/// A new crawl starts with no domain.
pub proof fn law_new_crawl(config: CoordinatorConfig)
    ensures
        ({
            let s = CoordinatorView::new(config);
            &&& s.config == config && !s.eof_received && s.async_open
            &&& forall|d: Seq<char>| !(#[trigger] s.domains.contains_key(d))
        }),
{
}

/// The loop takes messages until there is none or the crawl is over, then waits
/// for a worker once. When the crawl is over it handles answers until there is
/// none.
pub proof fn law_loop_order(phase: LoopPhase, event: LoopEvent)
    ensures
        ({
            let next = coordinator::next_phase_of(phase, event);
            &&& next == LoopPhase::AwaitWorker && phase != LoopPhase::AwaitWorker <==> phase
                == LoopPhase::PollAsync && event == LoopEvent::AsyncEmpty
            &&& next == LoopPhase::PollAsync && phase != LoopPhase::PollAsync <==> phase
                == LoopPhase::AwaitWorker && (event == LoopEvent::ResultTimeout || event == (
            LoopEvent::ResultHandled { shutdown: false }))
            &&& next == LoopPhase::Drain && phase != LoopPhase::Drain <==> (phase
                == LoopPhase::PollAsync && (event == LoopEvent::AsyncDisconnected || event == (
            LoopEvent::AsyncHandled { shutdown: true }))) || (phase == LoopPhase::AwaitWorker
                && event == (LoopEvent::ResultHandled { shutdown: true }))
            &&& next == LoopPhase::Stopped && phase != LoopPhase::Stopped <==> (phase
                == LoopPhase::AwaitWorker && event == LoopEvent::WorkersDisconnected) || (phase
                == LoopPhase::Drain && (event == LoopEvent::ResultEmpty || event
                == LoopEvent::WorkersDisconnected))
        }),
{
}

} // verus!
