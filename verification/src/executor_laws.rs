//! What holds of the fetching side, whatever happens to it.

use vstd::prelude::*;

use crate::async_executor::{ExecutorView, Next, ReplyView, StdinLineView};
use crate::fetch::FetchTaskView;
use crate::messages::{AsyncToCpuView, CpuToAsyncView, LogoContextView};
use crate::progress::CrawlStateView;
#[allow(unused_imports)]
use crate::{async_executor, progress, text};

verus! {

/// What can happen to the fetching side.
pub enum ExecutorEvent {
    /// Reading domains was interrupted.
    Interrupt,
    /// A line was read.
    Line(StdinLineView),
    /// A message of the coordinator came, or it will send no more.
    Message(Option<CpuToAsyncView>),
    /// It was looked whether there is anything left to fetch.
    Check { no_tasks: bool },
}

/// The state after an event.
pub open spec fn step(s: ExecutorView, event: ExecutorEvent) -> ExecutorView {
    match event {
        ExecutorEvent::Interrupt => s.close_stdin(),
        ExecutorEvent::Line(line) => s.handle_stdin_line(line).0,
        ExecutorEvent::Message(msg) => s.handle_coordinator_message(msg).0,
        ExecutorEvent::Check { no_tasks } => s.after_event(no_tasks).0,
    }
}

/// The fetch that an event starts.
pub open spec fn started(s: ExecutorView, event: ExecutorEvent) -> Option<FetchTaskView> {
    match event {
        ExecutorEvent::Line(line) => s.handle_stdin_line(line).1,
        ExecutorEvent::Message(msg) => match s.handle_coordinator_message(msg).1 {
            ReplyView::Fetch(task) => Some(task),
            _ => None,
        },
        _ => None,
    }
}

/// Whether the coordinator is told that no more domains will come.
pub open spec fn tells_end(s: ExecutorView, event: ExecutorEvent) -> bool {
    event matches ExecutorEvent::Check { no_tasks } && s.after_event(no_tasks).1 == Next::SendEof
}

/// The state after some events.
pub open spec fn run(s: ExecutorView, events: Seq<ExecutorEvent>) -> ExecutorView
    decreases events.len(),
{
    if events.len() == 0 {
        s
    } else {
        step(run(s, events.drop_last()), events.last())
    }
}

/// The fetches that some events start.
pub open spec fn all_started(s: ExecutorView, events: Seq<ExecutorEvent>) -> Seq<FetchTaskView>
    decreases events.len(),
{
    if events.len() == 0 {
        Seq::empty()
    } else {
        let before = all_started(s, events.drop_last());
        match started(run(s, events.drop_last()), events.last()) {
            Some(task) => before.push(task),
            None => before,
        }
    }
}

/// How often the coordinator is told that no more domains will come.
pub open spec fn ends_told(s: ExecutorView, events: Seq<ExecutorEvent>) -> nat
    decreases events.len(),
{
    if events.len() == 0 {
        0
    } else {
        let before = ends_told(s, events.drop_last());
        if tells_end(run(s, events.drop_last()), events.last()) {
            before + 1
        } else {
            before
        }
    }
}

/// Whether two fetches are of the same page.
pub open spec fn same_page(a: FetchTaskView, b: FetchTaskView) -> bool {
    a is Page && b is Page && a->Page_domain == b->Page_domain && a->Page_path == b->Page_path
}

/// After a restart, the known paths are those that were searched or queued in
/// the domains in progress.
pub proof fn law_recovered_paths_are_known(crawl: CrawlStateView, domain: Seq<char>, path: Seq<char>)
    ensures
        ExecutorView::new(crawl).knows(domain, path) <==> crawl.in_progress.contains_key(domain) && (
        crawl.in_progress[domain].searched.contains(path)
            || crawl.in_progress[domain].queued.contains_key(path)),
{
}

/// A page that is known is not fetched: the coordinator is told that the fetch
/// failed, and nothing changes.
pub proof fn law_known_page_is_refused(
    s: ExecutorView,
    domain: Seq<char>,
    path: Seq<char>,
    depth: usize,
)
    requires
        s.knows(domain, path),
    ensures
        s.handle_coordinator_message(Some(CpuToAsyncView::FetchPath { domain, path, depth })) == (
            s,
            ReplyView::Answer(AsyncToCpuView::FetchFailed { domain }),
        ),
{
}

/// A page that is not known is fetched.
pub proof fn law_new_page_is_fetched(
    s: ExecutorView,
    domain: Seq<char>,
    path: Seq<char>,
    depth: usize,
)
    requires
        !s.knows(domain, path),
    ensures
        started(
            s,
            ExecutorEvent::Message(Some(CpuToAsyncView::FetchPath { domain, path, depth })),
        ) == Some(FetchTaskView::Page { domain, path, depth }),
{
}

/// No event makes a path unknown, opens the input again, takes back that the
/// coordinator was told of its end, or changes what the log told at the start.
pub proof fn law_nothing_is_forgotten(s: ExecutorView, event: ExecutorEvent)
    ensures
        forall|domain: Seq<char>, path: Seq<char>| #[trigger]
            s.knows(domain, path) ==> step(s, event).knows(domain, path),
        s.stdin_closed ==> step(s, event).stdin_closed,
        s.eof_sent ==> step(s, event).eof_sent,
        step(s, event).crawl == s.crawl,
{
}

/// An event starts the fetch of a page only if it is not known; then it is known.
pub proof fn law_started_page_is_new(s: ExecutorView, event: ExecutorEvent)
    ensures
        started(s, event) matches Some(FetchTaskView::Page { domain, path, .. }) ==> !s.knows(
            domain,
            path,
        ) && step(s, event).knows(domain, path),
{
}

proof fn lemma_started_are_known(s: ExecutorView, events: Seq<ExecutorEvent>)
    ensures
        forall|domain: Seq<char>, path: Seq<char>| #[trigger]
            s.knows(domain, path) ==> run(s, events).knows(domain, path),
        forall|i: int|
            0 <= i < all_started(s, events).len() ==> (#[trigger] all_started(s, events)[i] matches FetchTaskView::Page {
                domain,
                path,
                ..
            } ==> !s.knows(domain, path) && run(s, events).knows(domain, path)),
    decreases events.len(),
{
    if events.len() > 0 {
        let earlier = events.drop_last();
        let mid = run(s, earlier);
        lemma_started_are_known(s, earlier);
        law_nothing_is_forgotten(mid, events.last());
        law_started_page_is_new(mid, events.last());
        let before = all_started(s, earlier);
        let after = all_started(s, events);
        assert forall|i: int| 0 <= i < after.len() implies (#[trigger] after[i] matches FetchTaskView::Page {
            domain,
            path,
            ..
        } ==> !s.knows(domain, path) && run(s, events).knows(domain, path)) by {
            if i < before.len() {
                assert(after[i] == before[i]);
            }
        }
    }
}

/// Whatever happens, no page is fetched twice, and none that was known before.
pub proof fn law_no_page_is_fetched_twice(s: ExecutorView, events: Seq<ExecutorEvent>)
    ensures
        forall|i: int, j: int|
            0 <= i < j < all_started(s, events).len() ==> !same_page(
                #[trigger] all_started(s, events)[i],
                #[trigger] all_started(s, events)[j],
            ),
        forall|i: int|
            0 <= i < all_started(s, events).len() ==> (#[trigger] all_started(s, events)[i] matches FetchTaskView::Page {
                domain,
                path,
                ..
            } ==> !s.knows(domain, path)),
    decreases events.len(),
{
    lemma_started_are_known(s, events);
    if events.len() > 0 {
        let earlier = events.drop_last();
        let mid = run(s, earlier);
        law_no_page_is_fetched_twice(s, earlier);
        lemma_started_are_known(s, earlier);
        law_started_page_is_new(mid, events.last());
        let before = all_started(s, earlier);
        let after = all_started(s, events);
        assert forall|i: int, j: int| 0 <= i < j < after.len() implies !same_page(
            #[trigger] after[i],
            #[trigger] after[j],
        ) by {
            assert(after[i] == before[i]);
            if j < before.len() {
                assert(after[j] == before[j]);
            }
        }
    }
}

/// A path that was queued before a restart, in a domain that is not completed,
/// is fetched at the start, and is then not fetched again, whatever happens.
pub proof fn law_requeued_page_is_not_fetched_again(
    crawl: CrawlStateView,
    task: FetchTaskView,
    events: Seq<ExecutorEvent>,
)
    requires
        async_executor::is_pending_task(crawl, task),
    ensures
        forall|i: int|
            0 <= i < all_started(ExecutorView::new(crawl), events).len() ==> !same_page(
                #[trigger] all_started(ExecutorView::new(crawl), events)[i],
                task,
            ),
{
    law_no_page_is_fetched_twice(ExecutorView::new(crawl), events);
}

/// A path that was searched before a restart is fetched neither at the start
/// nor later, whatever happens.
pub proof fn law_searched_page_is_not_fetched_again(
    lines: Seq<Seq<char>>,
    domain: Seq<char>,
    path: Seq<char>,
    depth: usize,
    events: Seq<ExecutorEvent>,
)
    requires
        progress::replay(lines).in_progress.contains_key(domain),
        progress::replay(lines).in_progress[domain].searched.contains(path),
    ensures
        ({
            let crawl = progress::replay(lines);
            let page = FetchTaskView::Page { domain, path, depth };
            &&& !async_executor::is_pending_task(crawl, page)
            &&& forall|i: int|
                0 <= i < all_started(ExecutorView::new(crawl), events).len() ==> !same_page(
                    #[trigger] all_started(ExecutorView::new(crawl), events)[i],
                    page,
                )
        }),
{
    progress::law_searched_is_never_queued(lines, domain, path);
    law_no_page_is_fetched_twice(ExecutorView::new(progress::replay(lines)), events);
}

/// A domain that is completed is crawled again neither when a line names it nor
/// at the start.
pub proof fn law_completed_domain_is_skipped(s: ExecutorView, line: Seq<char>)
    requires
        s.crawl.completed.contains_key(text::trim(line)),
    ensures
        s.handle_stdin_line(StdinLineView::Line(line)) == (s, None::<FetchTaskView>),
        forall|task: FetchTaskView| #[trigger]
            async_executor::is_pending_task(s.crawl, task) ==> task.domain() != text::trim(line),
{
}

/// A line with nothing but white space starts nothing.
pub proof fn law_blank_line_is_skipped(s: ExecutorView, line: Seq<char>)
    requires
        text::trim(line).len() == 0,
    ensures
        s.handle_stdin_line(StdinLineView::Line(line)) == (s, None::<FetchTaskView>),
{
}

/// The coordinator is told of the end only when no more domains will come and
/// no fetch is under way.
pub proof fn law_end_is_told_when_idle(s: ExecutorView, event: ExecutorEvent)
    requires
        tells_end(s, event),
    ensures
        s.stdin_closed,
        event == (ExecutorEvent::Check { no_tasks: true }),
        !s.eof_sent,
        step(s, event).eof_sent,
{
}

/// Whatever happens, the coordinator is told of the end at most once.
pub proof fn law_end_is_told_once(s: ExecutorView, events: Seq<ExecutorEvent>)
    ensures
        ends_told(s, events) <= 1,
        ends_told(s, events) == 1 ==> !s.eof_sent && run(s, events).eof_sent,
        s.eof_sent ==> run(s, events).eof_sent,
    decreases events.len(),
{
    if events.len() > 0 {
        law_end_is_told_once(s, events.drop_last());
        law_nothing_is_forgotten(run(s, events.drop_last()), events.last());
    }
}

/// A line that names a domain starts the crawl of it, with its root page, if
/// the domain is not completed and the root page not known.
pub proof fn law_line_starts_domain(s: ExecutorView, line: Seq<char>)
    requires
        text::trim(line).len() > 0,
        !s.crawl.completed.contains_key(text::trim(line)),
        !s.knows(text::trim(line), "/"@),
    ensures
        s.handle_stdin_line(StdinLineView::Line(line)).1 == Some(
            FetchTaskView::Page { domain: text::trim(line), path: "/"@, depth: 0 },
        ),
        s.handle_stdin_line(StdinLineView::Line(line)).0.knows(text::trim(line), "/"@),
        s.handle_stdin_line(StdinLineView::Line(line)).0.stdin_closed == s.stdin_closed,
{
}

/// A line that names a domain whose root page is known starts nothing.
pub proof fn law_known_domain_is_not_started(s: ExecutorView, line: Seq<char>)
    requires
        s.knows(text::trim(line), "/"@),
    ensures
        s.handle_stdin_line(StdinLineView::Line(line)) == (s, None::<FetchTaskView>),
{
}

/// At the end of the lines, and when reading them fails, no more are read;
/// nothing else changes, and nothing is fetched.
pub proof fn law_end_of_lines(s: ExecutorView, line: StdinLineView)
    requires
        line is End || line is Failed,
    ensures
        s.handle_stdin_line(line) == (ExecutorView { stdin_closed: true, ..s }, None::<FetchTaskView>),
        s.close_stdin() == (ExecutorView { stdin_closed: true, ..s }),
{
}

/// A path is known exactly if it is in the set of its domain; an event makes
/// known only the page whose fetch it starts.
pub proof fn law_only_started_pages_become_known(
    s: ExecutorView,
    event: ExecutorEvent,
    domain: Seq<char>,
    path: Seq<char>,
)
    ensures
        s.knows(domain, path) <==> s.searched.contains_key(domain) && s.searched[domain].contains(
            path,
        ),
        !s.knows(domain, path) && step(s, event).knows(domain, path) ==> (started(s, event) matches Some(
            FetchTaskView::Page { domain: d, path: p, .. },
        ) && d == domain && p == path),
{
}

/// A requested logo is always fetched, as it was requested.
pub proof fn law_requested_logo_is_fetched(
    s: ExecutorView,
    domain: Seq<char>,
    url: Seq<char>,
    context: LogoContextView,
)
    ensures
        s.handle_coordinator_message(Some(CpuToAsyncView::FetchLogo { domain, url, context })) == (
            s,
            ReplyView::Fetch(FetchTaskView::Logo { domain, url, context }),
        ),
{
}

/// The fetching side stops exactly when the coordinator will send no more.
pub proof fn law_stops_with_coordinator(s: ExecutorView, msg: Option<CpuToAsyncView>)
    ensures
        s.handle_coordinator_message(msg).1 is Exit <==> msg is None,
        s.handle_coordinator_message(None) == (s, ReplyView::Exit),
{
}

/// After an event, the coordinator is told of the end if no more domains will
/// come, no fetch is under way and it was not told before. If it was told, and
/// no fetch is under way, it alone is waited for; else any event is.
pub proof fn law_after_an_event(s: ExecutorView, no_tasks: bool)
    ensures
        s.after_event(no_tasks).1 == (if !no_tasks {
            Next::Listen
        } else if s.eof_sent {
            Next::AwaitCoordinator
        } else if s.stdin_closed {
            Next::SendEof
        } else {
            Next::Listen
        }),
        s.after_event(no_tasks).0 == (ExecutorView {
            eof_sent: s.eof_sent || (s.stdin_closed && no_tasks),
            ..s
        }),
{
}

/// A page is fetched at the start exactly if its domain is in progress and not
/// completed, and the page was queued at that depth and not searched since.
pub proof fn law_pages_taken_up(
    crawl: CrawlStateView,
    domain: Seq<char>,
    path: Seq<char>,
    depth: usize,
)
    ensures
        async_executor::is_pending_task(crawl, FetchTaskView::Page { domain, path, depth })
            <==> crawl.in_progress.contains_key(domain) && !crawl.completed.contains_key(domain)
            && crawl.in_progress[domain].queued.contains_key(path)
            && crawl.in_progress[domain].queued[path] == depth,
{
}

/// No logo is fetched at the start.
pub proof fn law_no_logo_is_taken_up(
    crawl: CrawlStateView,
    domain: Seq<char>,
    url: Seq<char>,
    context: LogoContextView,
)
    ensures
        !async_executor::is_pending_task(crawl, FetchTaskView::Logo { domain, url, context }),
{
}

/// At the start domains are read, the end was not told, and the log is as it
/// was recovered.
pub proof fn law_fetching_at_start(crawl: CrawlStateView)
    ensures
        !ExecutorView::new(crawl).stdin_closed,
        !ExecutorView::new(crawl).eof_sent,
        ExecutorView::new(crawl).crawl == crawl,
{
}

} // verus!
