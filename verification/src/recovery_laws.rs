//! What an interrupted crawl finds again: what the coordinator logs, the log
//! tells, and the fetching side takes up, seen together.

use vstd::prelude::*;

use crate::async_executor::ExecutorView;
use crate::coordinator::{ActionView, CoordinatorConfig, CoordinatorView};
use crate::coordinator_laws::CoordinatorEvent;
use crate::fetch::FetchTaskView;
use crate::log_entry::LogEntryView;
use crate::messages::{AsyncToCpuView, CpuToAsyncView, WorkerResultPayloadView, WorkerResultView};
use crate::progress::CrawlStateView;
#[allow(unused_imports)]
use crate::{async_executor, coordinator_laws, log_entry, progress, text};

verus! {

/// The entries that actions write to the log, in their order.
pub open spec fn logged(actions: Seq<ActionView>) -> Seq<LogEntryView>
    decreases actions.len(),
{
    if actions.len() == 0 {
        Seq::empty()
    } else {
        match actions.last() {
            ActionView::Log(entry) => logged(actions.drop_last()).push(entry),
            _ => logged(actions.drop_last()),
        }
    }
}

/// What is known of a crawl after an action.
pub open spec fn after_action(crawl: CrawlStateView, action: ActionView) -> CrawlStateView {
    match action {
        ActionView::Log(entry) => crawl.apply(entry),
        _ => crawl,
    }
}

/// What is known of a crawl after some actions.
pub open spec fn after_actions(crawl: CrawlStateView, actions: Seq<ActionView>) -> CrawlStateView
    decreases actions.len(),
{
    if actions.len() == 0 {
        crawl
    } else {
        after_action(after_actions(crawl, actions.drop_last()), actions.last())
    }
}

/// Every domain that the coordinator crawls, and whose completion it has not
/// logged, is in progress as far as the log tells.
pub open spec fn recorded(s: CoordinatorView, crawl: CrawlStateView) -> bool {
    forall|d: Seq<char>| #[trigger]
        s.domains.contains_key(d) && !s.domains[d].logged_complete ==> crawl.in_progress.contains_key(d)
}

/// The actions of a list after those of another.
proof fn lemma_after_more(crawl: CrawlStateView, a: Seq<ActionView>, b: Seq<ActionView>)
    ensures
        after_actions(crawl, a + b) == after_actions(after_actions(crawl, a), b),
    decreases b.len(),
{
    if b.len() == 0 {
        assert(a + b =~= a);
    } else {
        lemma_after_more(crawl, a, b.drop_last());
        assert((a + b).drop_last() =~= a + b.drop_last());
    }
}

proof fn lemma_after_one(crawl: CrawlStateView, action: ActionView)
    ensures
        after_actions(crawl, seq![action]) == after_action(crawl, action),
{
    lemma_after_push(crawl, Seq::empty(), action);
    assert(Seq::empty().push(action) =~= seq![action]);
}

proof fn lemma_after_push(crawl: CrawlStateView, actions: Seq<ActionView>, action: ActionView)
    ensures
        after_actions(crawl, actions.push(action)) == after_action(
            after_actions(crawl, actions),
            action,
        ),
{
    assert(actions.push(action).drop_last() =~= actions);
}

/// What is known after some actions is what the log tells when it is replayed,
/// once their entries are written at its end.
pub proof fn law_log_tells_what_is_known(log: Seq<char>, actions: Seq<ActionView>)
    requires
        text::is_ended(log),
        forall|i: int|
            0 <= i < logged(actions).len() ==> log_entry::fits_line(#[trigger] logged(actions)[i]),
    ensures
        progress::replay_text(log + progress::written_text(logged(actions))) == after_actions(
            progress::replay_text(log),
            actions,
        ),
        text::is_ended(log + progress::written_text(logged(actions))),
    decreases actions.len(),
{
    if actions.len() == 0 {
        assert(log + progress::written_text(logged(actions)) =~= log);
    } else {
        let before = actions.drop_last();
        let earlier = log + progress::written_text(logged(before));
        assert forall|i: int| 0 <= i < logged(before).len() implies log_entry::fits_line(
            #[trigger] logged(before)[i],
        ) by {
            assert(logged(before)[i] == logged(actions)[i]);
        }
        law_log_tells_what_is_known(log, before);
        if let ActionView::Log(entry) = actions.last() {
            assert(logged(actions)[logged(before).len() as int] == entry);
            assert(logged(actions).drop_last() =~= logged(before));
            progress::law_append_entry(earlier, entry);
            assert(log + progress::written_text(logged(actions)) =~= earlier + (
            log_entry::entry_text(entry) + "\n"@));
        }
    }
}

/// At the start the coordinator crawls no domain.
pub proof fn law_recorded_at_start(config: CoordinatorConfig, crawl: CrawlStateView)
    ensures
        recorded(CoordinatorView::new(config), crawl),
{
}

/// A crawl that goes on starts with domains that are in progress, as far as the
/// log tells, and none of which is logged as complete.
pub proof fn law_recorded_at_resume(config: CoordinatorConfig, crawl: CrawlStateView)
    ensures
        recorded(CoordinatorView::resume(config, crawl), crawl),
        coordinator_laws::domains_consistent(CoordinatorView::resume(config, crawl)),
{
}

/// The fetches of a domain among some.
pub open spec fn tasks_of(tasks: Seq<FetchTaskView>, domain: Seq<char>) -> Seq<FetchTaskView> {
    tasks.filter(|t: FetchTaskView| t.domain() == domain)
}

proof fn lemma_filter_keeps_distinct(tasks: Seq<FetchTaskView>, domain: Seq<char>)
    requires
        tasks.no_duplicates(),
    ensures
        tasks_of(tasks, domain).no_duplicates(),
        forall|t: FetchTaskView| #[trigger]
            tasks_of(tasks, domain).contains(t) <==> tasks.contains(t) && t.domain() == domain,
    decreases tasks.len(),
{
    reveal(Seq::filter);
    let some = tasks_of(tasks, domain);
    if tasks.len() > 0 {
        let rest = tasks.drop_last();
        let last = tasks.last();
        let before = tasks_of(rest, domain);
        lemma_filter_keeps_distinct(rest, domain);
        if rest.contains(last) {
            let i = choose|i: int| 0 <= i < rest.len() && rest[i] == last;
            assert(tasks[i] == tasks[tasks.len() - 1]);
        }
        assert forall|t: FetchTaskView| tasks.contains(t) <==> rest.contains(t) || t == last by {
            if rest.contains(t) {
                let i = choose|i: int| 0 <= i < rest.len() && rest[i] == t;
                assert(tasks[i] == t);
            }
            if t == last {
                assert(tasks[tasks.len() - 1] == t);
            } else if tasks.contains(t) {
                let i = choose|i: int| 0 <= i < tasks.len() && tasks[i] == t;
                assert(rest[i] == t);
            }
        }
        if last.domain() == domain {
            assert(some =~= before.push(last));
            assert forall|i: int, j: int|
                0 <= i < some.len() && 0 <= j < some.len() && i != j implies some[i] != some[j] by {
                if i < before.len() {
                    assert(before.contains(before[i]));
                }
                if j < before.len() {
                    assert(before.contains(before[j]));
                }
            }
            assert forall|t: FetchTaskView| some.contains(t) <==> before.contains(t) || t
                == last by {
                if before.contains(t) {
                    let i = choose|i: int| 0 <= i < before.len() && before[i] == t;
                    assert(some[i] == t);
                }
                if t == last {
                    assert(some[before.len() as int] == t);
                } else if some.contains(t) {
                    let i = choose|i: int| 0 <= i < some.len() && some[i] == t;
                    assert(before[i] == t);
                }
            }
        }
    }
}

/// Of each domain, as many fetches are started at the start as the coordinator
/// takes to be under way.
pub proof fn law_fetches_at_start_are_counted(
    crawl: CrawlStateView,
    tasks: Seq<FetchTaskView>,
    domain: Seq<char>,
)
    requires
        tasks.no_duplicates(),
        forall|t: FetchTaskView| #[trigger]
            tasks.contains(t) <==> async_executor::is_pending_task(crawl, t),
    ensures
        tasks_of(tasks, domain).len() == progress::pending_pages(crawl, domain),
{
    let some = tasks_of(tasks, domain);
    lemma_filter_keeps_distinct(tasks, domain);
    if crawl.in_progress.contains_key(domain) && !crawl.completed.contains_key(domain) {
        let queued = crawl.in_progress[domain].queued;
        let paths = some.map_values(|t: FetchTaskView| t->Page_path);
        assert forall|i: int| 0 <= i < some.len() implies async_executor::is_pending_task(
            crawl,
            #[trigger] some[i],
        ) && some[i].domain() == domain by {
            assert(some.contains(some[i]));
            assert(tasks.contains(some[i]));
        }
        assert forall|i: int, j: int|
            0 <= i < paths.len() && 0 <= j < paths.len() && i != j implies paths[i] != paths[j] by {
            assert(some[i] != some[j]);
        }
        assert forall|p: Seq<char>| paths.to_set().contains(p) <==> queued.dom().contains(p) by {
            if paths.contains(p) {
                let i = choose|i: int| 0 <= i < paths.len() && paths[i] == p;
                assert(async_executor::is_pending_task(crawl, some[i]));
            }
            if queued.contains_key(p) {
                let task = FetchTaskView::Page { domain, path: p, depth: queued[p] };
                assert(async_executor::is_pending_task(crawl, task));
                assert(tasks.contains(task));
                assert(some.contains(task));
                let i = choose|i: int| 0 <= i < some.len() && some[i] == task;
                assert(paths[i] == p);
            }
        }
        paths.unique_seq_to_set();
        assert(paths.to_set() =~= queued.dom());
    } else if some.len() > 0 {
        assert(some.contains(some[0]));
        assert(tasks.contains(some[0]));
        assert(async_executor::is_pending_task(crawl, some[0]));
    }
}

/// When a crawl goes on, that a domain with pages taken up is exhausted is
/// logged only by the event that ends the last of its fetches: none of these
/// pages is lost to a completion that comes too early.
pub proof fn law_resumed_domain_is_not_exhausted_early(
    config: CoordinatorConfig,
    crawl: CrawlStateView,
    events: Seq<CoordinatorEvent>,
    event: CoordinatorEvent,
    domain: Seq<char>,
    i: int,
)
    requires
        0 < progress::pending_pages(crawl, domain) <= usize::MAX,
        coordinator_laws::stays_busy(CoordinatorView::resume(config, crawl), events, domain),
        ({
            let s = coordinator_laws::run(CoordinatorView::resume(config, crawl), events);
            &&& coordinator_laws::can_happen(s, event)
            &&& 0 <= i < coordinator_laws::actions_of(s, event).len()
            &&& coordinator_laws::logs_exhaustion(
                coordinator_laws::actions_of(s, event)[i],
                domain,
            )
        }),
    ensures
        ({
            let s = CoordinatorView::resume(config, crawl);
            &&& coordinator_laws::fetches_left(s, Seq::empty(), domain) == progress::pending_pages(
                crawl,
                domain,
            )
            &&& coordinator_laws::fetches_left(s, events.push(event), domain) == 0
        }),
{
    let s = CoordinatorView::resume(config, crawl);
    assert(s.domains.contains_key(domain));
    coordinator_laws::law_busy_domain_is_not_exhausted(s, events, event, domain, i);
}

/// What is known after up to three actions.
proof fn lemma_few_actions(crawl: CrawlStateView, actions: Seq<ActionView>)
    requires
        actions.len() <= 3,
    ensures
        actions.len() == 0 ==> after_actions(crawl, actions) == crawl,
        actions.len() == 1 ==> after_actions(crawl, actions) == after_action(crawl, actions[0]),
        actions.len() == 2 ==> after_actions(crawl, actions) == after_action(
            after_action(crawl, actions[0]),
            actions[1],
        ),
        actions.len() == 3 ==> after_actions(crawl, actions) == after_action(
            after_action(after_action(crawl, actions[0]), actions[1]),
            actions[2],
        ),
    decreases actions.len(),
{
    if actions.len() > 0 {
        lemma_few_actions(crawl, actions.drop_last());
    }
}

/// A message of the fetching side keeps every domain recorded.
pub proof fn law_message_keeps_recorded(
    s: CoordinatorView,
    crawl: CrawlStateView,
    msg: AsyncToCpuView,
)
    requires
        coordinator_laws::domains_consistent(s),
        recorded(s, crawl),
    ensures
        recorded(
            s.handle_async_message(msg).state,
            after_actions(crawl, s.handle_async_message(msg).actions),
        ),
{
    lemma_few_actions(crawl, s.handle_async_message(msg).actions);
}

/// Requests for the work that a page led to take no domain out of progress, and
/// tell nothing of searched paths and completed domains.
proof fn lemma_fetches_keep_progress(
    s: CoordinatorView,
    crawl: CrawlStateView,
    domain: Seq<char>,
    new_work: Seq<CpuToAsyncView>,
)
    ensures
        forall|d: Seq<char>| #[trigger]
            crawl.in_progress.contains_key(d) ==> after_actions(
                crawl,
                s.fetches(domain, new_work),
            ).in_progress.contains_key(d),
        forall|d: Seq<char>| #[trigger]
            crawl.in_progress.contains_key(d) ==> after_actions(
                crawl,
                s.fetches(domain, new_work),
            ).in_progress[d].searched == crawl.in_progress[d].searched,
        after_actions(crawl, s.fetches(domain, new_work)).completed == crawl.completed,
    decreases new_work.len(),
{
    if new_work.len() > 0 {
        lemma_fetches_keep_progress(s, crawl, domain, new_work.drop_last());
        lemma_last_fetch(s, crawl, domain, new_work);
    }
}

/// What the last piece of work adds.
proof fn lemma_last_fetch(
    s: CoordinatorView,
    crawl: CrawlStateView,
    domain: Seq<char>,
    new_work: Seq<CpuToAsyncView>,
)
    requires
        new_work.len() > 0,
    ensures
        after_actions(crawl, s.fetches(domain, new_work)) == ({
            let before = after_actions(crawl, s.fetches(domain, new_work.drop_last()));
            match new_work.last() {
                CpuToAsyncView::FetchPath { path, depth, .. } => if depth > s.config.max_depth {
                    before
                } else {
                    before.queue_path(domain, path, depth)
                },
                CpuToAsyncView::FetchLogo { .. } => before,
            }
        }),
{
    let before = s.fetches(domain, new_work.drop_last());
    let all = s.fetches(domain, new_work);
    match new_work.last() {
        CpuToAsyncView::FetchPath { path, depth, .. } => {
            if depth <= s.config.max_depth {
                let log = ActionView::Log(LogEntryView::Queued { domain, path, depth });
                assert(all.drop_last() =~= before.push(log));
                assert(all.last() is Fetch);
                lemma_after_push(crawl, before, log);
            }
        },
        CpuToAsyncView::FetchLogo { .. } => {
            assert(all.drop_last() =~= before);
        },
    }
}

/// A worker's answer keeps every domain recorded.
pub proof fn law_answer_keeps_recorded(
    s: CoordinatorView,
    crawl: CrawlStateView,
    result: WorkerResultView,
)
    requires
        coordinator_laws::domains_consistent(s),
        recorded(s, crawl),
    ensures
        recorded(
            s.handle_worker_result(result).0,
            after_actions(crawl, s.handle_worker_result(result).1),
        ),
{
    let actions = s.handle_worker_result(result).1;
    match result.payload {
        WorkerResultPayloadView::Html { searched_path, new_work } => {
            let log = ActionView::Log(
                LogEntryView::Searched { domain: result.domain, path: searched_path },
            );
            let fetches = s.fetches(result.domain, new_work);
            lemma_after_one(crawl, log);
            lemma_after_more(crawl, seq![log], fetches);
            lemma_fetches_keep_progress(
                s,
                after_actions(crawl, seq![log]),
                result.domain,
                new_work,
            );
            assert forall|d: Seq<char>|
                s.domains.contains_key(d) && !s.domains[d].logged_complete implies #[trigger] after_actions(
                crawl,
                actions,
            ).in_progress.contains_key(d) by {
                assert(crawl.in_progress.contains_key(d));
                assert(after_actions(crawl, seq![log]).in_progress.contains_key(d));
            }
        },
        _ => {
            lemma_few_actions(crawl, actions);
        },
    }
}

/// Settling a worker's answer keeps every domain recorded.
pub proof fn law_settling_keeps_recorded(
    s: CoordinatorView,
    crawl: CrawlStateView,
    domain: Seq<char>,
    delivered: usize,
)
    requires
        coordinator_laws::domains_consistent(s),
        recorded(s, crawl),
        s.can_settle(domain, delivered),
    ensures
        recorded(
            s.settle_worker_result(domain, delivered).0,
            after_actions(crawl, s.settle_worker_result(domain, delivered).1),
        ),
{
    lemma_few_actions(crawl, s.settle_worker_result(domain, delivered).1);
}

proof fn lemma_requested_is_pending(
    s: CoordinatorView,
    crawl: CrawlStateView,
    domain: Seq<char>,
    new_work: Seq<CpuToAsyncView>,
    path: Seq<char>,
    depth: usize,
)
    requires
        crawl.in_progress.contains_key(domain),
        !crawl.in_progress[domain].searched.contains(path),
        new_work.contains(CpuToAsyncView::FetchPath { domain, path, depth }),
        depth <= s.config.max_depth,
    ensures
        progress::is_pending(after_actions(crawl, s.fetches(domain, new_work)), domain, path),
    decreases new_work.len(),
{
    let work = CpuToAsyncView::FetchPath { domain, path, depth };
    let rest = new_work.drop_last();
    lemma_last_fetch(s, crawl, domain, new_work);
    lemma_fetches_keep_progress(s, crawl, domain, rest);
    if new_work.last() != work {
        let i = choose|i: int| 0 <= i < new_work.len() && new_work[i] == work;
        assert(rest[i] == work);
        lemma_requested_is_pending(s, crawl, domain, rest, path, depth);
    }
}

/// A page that is requested of the fetching side was searched before, or is one
/// to be searched, as far as the log tells: if the crawl is interrupted then,
/// the page is fetched at the next start, unless the domain was completed
/// before.
pub proof fn law_requested_page_is_pending(
    s: CoordinatorView,
    crawl: CrawlStateView,
    domain: Seq<char>,
    searched_path: Seq<char>,
    new_work: Seq<CpuToAsyncView>,
    path: Seq<char>,
    depth: usize,
)
    requires
        recorded(s, crawl),
        s.handle_html_result(domain, searched_path, new_work).contains(
            ActionView::Fetch(CpuToAsyncView::FetchPath { domain, path, depth }),
        ),
    ensures
        ({
            let after = after_actions(
                crawl,
                s.handle_html_result(domain, searched_path, new_work),
            );
            let progress = after.in_progress[domain];
            &&& after.in_progress.contains_key(domain)
            &&& if crawl.in_progress[domain].searched.contains(path) || path == searched_path {
                progress.searched.contains(path)
            } else {
                &&& progress::is_pending(after, domain, path)
                &&& !crawl.completed.contains_key(domain) ==> async_executor::is_pending_task(
                    after,
                    FetchTaskView::Page { domain, path, depth: progress.queued[path] },
                )
            }
        }),
{
    let work = CpuToAsyncView::FetchPath { domain, path, depth };
    let actions = s.handle_html_result(domain, searched_path, new_work);
    let log = ActionView::Log(LogEntryView::Searched { domain, path: searched_path });
    let fetches = s.fetches(domain, new_work);
    let i = choose|i: int| 0 <= i < actions.len() && actions[i] == ActionView::Fetch(work);
    assert(i > 0);
    assert(fetches[i - 1] == ActionView::Fetch(work));
    coordinator_laws::law_requests_are_passed_on(s, domain, new_work, work);
    lemma_after_one(crawl, log);
    lemma_after_more(crawl, seq![log], fetches);
    assert(s.domains.contains_key(domain) && !s.domains[domain].logged_complete);
    let mid = after_actions(crawl, seq![log]);
    assert(mid.in_progress.contains_key(domain));
    lemma_fetches_keep_progress(s, mid, domain, new_work);
    if !mid.in_progress[domain].searched.contains(path) {
        lemma_requested_is_pending(s, mid, domain, new_work, path, depth);
    }
}

/// Whether an entry ends that a path is to be searched, or changes its depth.
pub open spec fn touches(entry: LogEntryView, domain: Seq<char>, path: Seq<char>) -> bool {
    match entry {
        LogEntryView::Started(_) => false,
        LogEntryView::Queued { domain: d, path: p, .. } => d == domain && p == path,
        LogEntryView::Searched { domain: d, path: p } => d == domain && p == path,
        LogEntryView::Completed { domain: d, .. } => d == domain,
    }
}

proof fn lemma_pending_is_kept(
    entries: Seq<LogEntryView>,
    more: Seq<LogEntryView>,
    domain: Seq<char>,
    path: Seq<char>,
    depth: usize,
)
    requires
        async_executor::is_pending_task(
            progress::apply_all(entries),
            FetchTaskView::Page { domain, path, depth },
        ),
        forall|i: int| 0 <= i < more.len() ==> !touches(#[trigger] more[i], domain, path),
    ensures
        async_executor::is_pending_task(
            progress::apply_all(entries + more),
            FetchTaskView::Page { domain, path, depth },
        ),
    decreases more.len(),
{
    if more.len() == 0 {
        assert(entries + more =~= entries);
    } else {
        let rest = more.drop_last();
        assert forall|i: int| 0 <= i < rest.len() implies !touches(
            #[trigger] rest[i],
            domain,
            path,
        ) by {
            assert(rest[i] == more[i]);
        }
        lemma_pending_is_kept(entries, rest, domain, path, depth);
        assert((entries + more).drop_last() =~= entries + rest);
        assert(!touches(more[more.len() - 1], domain, path));
    }
}

/// A path that was found while its domain was in progress, was not searched
/// before, and of which the log tells nothing since, is fetched at the next
/// start, at its depth, however often the crawl was started in between; and it
/// is then not fetched once more.
pub proof fn law_found_page_is_fetched_at_next_start(
    entries: Seq<LogEntryView>,
    more: Seq<LogEntryView>,
    domain: Seq<char>,
    path: Seq<char>,
    depth: usize,
)
    requires
        forall|i: int| 0 <= i < entries.len() ==> log_entry::fits_line(#[trigger] entries[i]),
        forall|i: int| 0 <= i < more.len() ==> log_entry::fits_line(#[trigger] more[i]),
        entries.len() > 0,
        entries.last() == (LogEntryView::Queued { domain, path, depth }),
        progress::apply_all(entries.drop_last()).in_progress.contains_key(domain),
        !progress::apply_all(entries.drop_last()).in_progress[domain].searched.contains(path),
        !progress::apply_all(entries.drop_last()).completed.contains_key(domain),
        forall|i: int| 0 <= i < more.len() ==> !touches(#[trigger] more[i], domain, path),
    ensures
        ({
            let crawl = progress::replay_text(progress::written_text(entries + more));
            &&& async_executor::is_pending_task(crawl, FetchTaskView::Page { domain, path, depth })
            &&& ExecutorView::new(crawl).knows(domain, path)
        }),
{
    let all = entries + more;
    assert forall|i: int| 0 <= i < all.len() implies log_entry::fits_line(#[trigger] all[i]) by {
        if i < entries.len() {
            assert(all[i] == entries[i]);
        } else {
            assert(all[i] == more[i - entries.len()]);
        }
    }
    progress::law_replay_of_written_log(all);
    lemma_pending_is_kept(entries, more, domain, path, depth);
}

proof fn lemma_searched_or_completed(
    lines: Seq<Seq<char>>,
    more: Seq<Seq<char>>,
    domain: Seq<char>,
    path: Seq<char>,
)
    requires
        progress::replay(lines).in_progress.contains_key(domain),
        progress::replay(lines).in_progress[domain].searched.contains(path),
    ensures
        ({
            let crawl = progress::replay(lines + more);
            crawl.completed.contains_key(domain) || (crawl.in_progress.contains_key(domain)
                && crawl.in_progress[domain].searched.contains(path))
        }),
    decreases more.len(),
{
    if more.len() == 0 {
        assert(lines + more =~= lines);
    } else {
        lemma_searched_or_completed(lines, more.drop_last(), domain, path);
        assert((lines + more).drop_last() =~= lines + more.drop_last());
    }
}

/// A path that was searched is not fetched at any later start, however the log
/// goes on.
pub proof fn law_searched_page_is_skipped_at_every_start(
    lines: Seq<Seq<char>>,
    more: Seq<Seq<char>>,
    domain: Seq<char>,
    path: Seq<char>,
    depth: usize,
)
    requires
        progress::replay(lines).in_progress.contains_key(domain),
        progress::replay(lines).in_progress[domain].searched.contains(path),
    ensures
        !async_executor::is_pending_task(
            progress::replay(lines + more),
            FetchTaskView::Page { domain, path, depth },
        ),
{
    let crawl = progress::replay(lines + more);
    lemma_searched_or_completed(lines, more, domain, path);
    if crawl.in_progress.contains_key(domain) {
        progress::law_searched_is_never_queued(lines + more, domain, path);
    }
}

/// A domain that was completed is not taken up at any later start, however the
/// log goes on.
pub proof fn law_completed_domain_is_skipped_at_every_start(
    lines: Seq<Seq<char>>,
    more: Seq<Seq<char>>,
    task: FetchTaskView,
)
    requires
        progress::replay(lines).completed.contains_key(task.domain()),
    ensures
        !async_executor::is_pending_task(progress::replay(lines + more), task),
{
    progress::law_completed_stays_completed(lines, more, task.domain());
}

} // verus!
