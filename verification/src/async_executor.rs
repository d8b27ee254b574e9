//! The fetching side of the crawler: which pages and logos are fetched, and
//! when there is nothing more to fetch.

use std::collections::HashSet;
use std::time::Duration;

use dashmap::DashMap;
use vstd::prelude::*;

use crate::fetch::{FetchTask, FetchTaskView};
use crate::messages::{AsyncToCpu, AsyncToCpuView, CpuToAsync, CpuToAsyncView};
use crate::progress::{CrawlState, CrawlStateView};
use crate::text::{from_chars, to_chars, trim_chars};
#[allow(unused_imports)]
use crate::{progress, string_map, text};

verus! {

/// What the fetching side calls itself.
pub const USER_AGENT: &'static str =
    "Mozilla/5.0 (X11; Linux x86_64; rv:10.0) Gecko/20100101 Firefox/10.0";

/// How many redirects are followed.
pub const MAX_REDIRECTS: usize = 5;

/// What `Duration::from_secs` makes of a number of seconds.
pub uninterp spec fn duration_of_seconds(secs: u64) -> Duration;

/// `Duration::from_secs`: the duration depends on the number alone.
pub assume_specification[ Duration::from_secs ](secs: u64) -> (d: Duration)
    ensures
        d == duration_of_seconds(secs),
;

/// Configuration of the fetching side.
pub struct AsyncExecutorConfig {
    /// How many fetches may run at the same time.
    pub max_concurrent_fetches: usize,
    /// How long a request may take.
    pub http_timeout: Duration,
}

impl AsyncExecutorConfig {
    /// A configuration with the given limit; requests may take ten seconds.
    #[must_use]
    pub fn new(max_concurrent_fetches: usize) -> (r: AsyncExecutorConfig)
        ensures
            r.max_concurrent_fetches == max_concurrent_fetches,
            r.http_timeout == duration_of_seconds(10),
    {
        AsyncExecutorConfig { max_concurrent_fetches, http_timeout: Duration::from_secs(10) }
    }
}

impl Default for AsyncExecutorConfig {
    fn default() -> (r: AsyncExecutorConfig)
        ensures
            r.max_concurrent_fetches == 100,
            r.http_timeout == duration_of_seconds(10),
    {
        AsyncExecutorConfig { max_concurrent_fetches: 100, http_timeout: Duration::from_secs(10) }
    }
}

/// The concurrent map of the crate `dashmap`.
#[verifier::external_type_specification]
#[verifier::external_body]
#[verifier::reject_recursive_types(K)]
#[verifier::reject_recursive_types(V)]
#[verifier::reject_recursive_types(S)]
pub struct ExDashMap<K, V, S>(dashmap::DashMap<K, V, S>);

/// What a map holds: for each key, the set of strings that is its value.
pub uninterp spec fn path_sets(m: DashMap<String, HashSet<String>>) -> Map<
    Seq<char>,
    Set<Seq<char>>,
>;

/// The set of strings of a key; that of an absent key is empty.
pub open spec fn paths_of(sets: Map<Seq<char>, Set<Seq<char>>>, domain: Seq<char>) -> Set<
    Seq<char>,
> {
    if sets.contains_key(domain) {
        sets[domain]
    } else {
        Set::empty()
    }
}

/// `DashMap::new`: the map is empty.
#[verifier::external_body]
pub(crate) fn new_path_sets() -> (r: DashMap<String, HashSet<String>>)
    ensures
        forall|d: Seq<char>| !(#[trigger] path_sets(r).contains_key(d)),
{
    DashMap::new()
}

/// `DashMap::insert`: the key then has the given strings, in place of what it
/// had; other keys keep theirs.
#[verifier::external_body]
pub(crate) fn set_paths(m: &mut DashMap<String, HashSet<String>>, domain: String, paths: Vec<String>)
    ensures
        path_sets(*final(m)) == path_sets(*old(m)).insert(
            domain@,
            progress::string_views(paths@).to_set(),
        ),
{
    m.insert(domain, paths.into_iter().collect());
}

/// `DashMap::entry`, `or_default` on the entry, and `insert` on the set that it
/// hands out: the string is then in the set of the key, which is empty before
/// if the key is new; other keys keep theirs. Returns whether the string is new.
#[verifier::external_body]
pub(crate) fn add_path(m: &mut DashMap<String, HashSet<String>>, domain: String, path: String) -> (r:
    bool)
    ensures
        r == !paths_of(path_sets(*old(m)), domain@).contains(path@),
        path_sets(*final(m)) == path_sets(*old(m)).insert(
            domain@,
            paths_of(path_sets(*old(m)), domain@).insert(path@),
        ),
{
    m.entry(domain).or_default().insert(path)
}

/// What reading a line of domains gave.
#[derive(Debug, Clone)]
pub enum StdinLine {
    /// A line.
    Line(String),
    /// There are no more lines.
    End,
    /// Reading failed.
    Failed,
}

/// View of a [`StdinLine`].
pub enum StdinLineView {
    Line(Seq<char>),
    End,
    Failed,
}

impl View for StdinLine {
    type V = StdinLineView;

    open spec fn view(&self) -> StdinLineView {
        match self {
            StdinLine::Line(line) => StdinLineView::Line(line@),
            StdinLine::End => StdinLineView::End,
            StdinLine::Failed => StdinLineView::Failed,
        }
    }
}

/// What a message of the coordinator leads to.
#[derive(Debug)]
pub enum Reply {
    /// A fetch is started.
    Fetch(FetchTask),
    /// The coordinator is answered at once.
    Answer(AsyncToCpu),
    /// The fetching side stops.
    Exit,
}

/// View of a [`Reply`].
pub enum ReplyView {
    Fetch(FetchTaskView),
    Answer(AsyncToCpuView),
    Exit,
}

impl View for Reply {
    type V = ReplyView;

    open spec fn view(&self) -> ReplyView {
        match self {
            Reply::Fetch(task) => ReplyView::Fetch(task@),
            Reply::Answer(message) => ReplyView::Answer(message@),
            Reply::Exit => ReplyView::Exit,
        }
    }
}

/// What the fetching side does after an event.
#[derive(Debug, Clone, Copy, PartialEq, Eq, Structural)]
pub enum Next {
    /// Wait for any event.
    Listen,
    /// Tell the coordinator that no more domains will come.
    SendEof,
    /// Wait for the coordinator alone.
    AwaitCoordinator,
    /// Stop.
    Stop,
}

/// The state of the fetching side.
pub struct ExecutorState {
    searched: DashMap<String, HashSet<String>>,
    crawl_state: CrawlState,
    stdin_closed: bool,
    eof_sent: bool,
}

/// View of an [`ExecutorState`].
#[verifier::ext_equal]
pub struct ExecutorView {
    /// The paths of each domain for which a fetch was started.
    pub searched: Map<Seq<char>, Set<Seq<char>>>,
    /// The state of the crawl at the start.
    pub crawl: CrawlStateView,
    /// Whether there are no more domains to read.
    pub stdin_closed: bool,
    /// Whether the coordinator was told so.
    pub eof_sent: bool,
}

impl View for ExecutorState {
    type V = ExecutorView;

    closed spec fn view(&self) -> ExecutorView {
        ExecutorView {
            searched: path_sets(self.searched),
            crawl: self.crawl_state@,
            stdin_closed: self.stdin_closed,
            eof_sent: self.eof_sent,
        }
    }
}

/// The paths that need not be asked for again after a restart: those that were
/// searched, and those that are fetched at the start.
pub open spec fn recovered_paths(crawl: CrawlStateView) -> Map<Seq<char>, Set<Seq<char>>> {
    crawl.in_progress.map_values(
        |p: progress::DomainProgressView| p.searched.union(p.queued.dom()),
    )
}

/// The fetch of the root page of a domain.
pub open spec fn root_task(domain: Seq<char>) -> FetchTaskView {
    FetchTaskView::Page { domain, path: "/"@, depth: 0 }
}

impl ExecutorView {
    /// The state at the start.
    pub open spec fn new(crawl: CrawlStateView) -> ExecutorView {
        ExecutorView {
            searched: recovered_paths(crawl),
            crawl,
            stdin_closed: false,
            eof_sent: false,
        }
    }

    /// Whether a fetch of the path was started before.
    pub open spec fn knows(self, domain: Seq<char>, path: Seq<char>) -> bool {
        paths_of(self.searched, domain).contains(path)
    }

    /// A fetch of the path is started.
    pub open spec fn learn(self, domain: Seq<char>, path: Seq<char>) -> ExecutorView {
        ExecutorView {
            searched: self.searched.insert(domain, paths_of(self.searched, domain).insert(path)),
            ..self
        }
    }

    /// There are no more domains to read.
    pub open spec fn close_stdin(self) -> ExecutorView {
        ExecutorView { stdin_closed: true, ..self }
    }

    /// Whether a line names a domain whose crawl is to start.
    pub open spec fn starts(self, line: Seq<char>) -> bool {
        let domain = text::trim(line);
        domain.len() > 0 && !self.crawl.completed.contains_key(domain) && !self.knows(domain, "/"@)
    }

    /// A line was read.
    pub open spec fn handle_stdin_line(self, line: StdinLineView) -> (
        ExecutorView,
        Option<FetchTaskView>,
    ) {
        match line {
            StdinLineView::Line(line) => if self.starts(line) {
                (self.learn(text::trim(line), "/"@), Some(root_task(text::trim(line))))
            } else {
                (self, None)
            },
            _ => (self.close_stdin(), None),
        }
    }

    /// A message of the coordinator came, or it will send no more.
    pub open spec fn handle_coordinator_message(self, msg: Option<CpuToAsyncView>) -> (
        ExecutorView,
        ReplyView,
    ) {
        match msg {
            Some(CpuToAsyncView::FetchPath { domain, path, depth }) => if self.knows(domain, path) {
                (self, ReplyView::Answer(AsyncToCpuView::FetchFailed { domain }))
            } else {
                (
                    self.learn(domain, path),
                    ReplyView::Fetch(FetchTaskView::Page { domain, path, depth }),
                )
            },
            Some(CpuToAsyncView::FetchLogo { domain, url, context }) => (
                self,
                ReplyView::Fetch(FetchTaskView::Logo { domain, url, context }),
            ),
            None => (self, ReplyView::Exit),
        }
    }

    /// An event was dealt with; `no_tasks` says that no fetch is under way.
    pub open spec fn after_event(self, no_tasks: bool) -> (ExecutorView, Next) {
        if self.stdin_closed && no_tasks && !self.eof_sent {
            (ExecutorView { eof_sent: true, ..self }, Next::SendEof)
        } else if self.eof_sent && no_tasks {
            (self, Next::AwaitCoordinator)
        } else {
            (self, Next::Listen)
        }
    }
}

/// The view of a message that there may be.
pub open spec fn message_view(msg: Option<CpuToAsync>) -> Option<CpuToAsyncView> {
    match msg {
        Some(msg) => Some(msg@),
        None => None,
    }
}

/// The view of a fetch that there may be.
pub open spec fn task_view(task: Option<FetchTask>) -> Option<FetchTaskView> {
    match task {
        Some(task) => Some(task@),
        None => None,
    }
}

/// The views of a list of fetches.
pub open spec fn task_views(tasks: Seq<FetchTask>) -> Seq<FetchTaskView> {
    tasks.map_values(|t: FetchTask| t@)
}

/// Whether a fetch is that of a path which was found before a restart and not
/// searched, in a domain that is not completed.
pub open spec fn is_pending_task(crawl: CrawlStateView, task: FetchTaskView) -> bool {
    task matches FetchTaskView::Page { domain, path, depth } && !crawl.completed.contains_key(
        domain,
    ) && progress::is_pending(crawl, domain, path) && crawl.in_progress[domain].queued[path] == depth
}

/// The paths of a domain that need not be asked for again after a restart.
fn known_paths(p: &progress::DomainProgress) -> (r: Vec<String>)
    requires
        p.wf(),
    ensures
        progress::string_views(r@).to_set() == p@.searched.union(p@.queued.dom()),
{
    let searched = p.searched_paths();
    let queued = p.queued_paths();
    proof {
        searched.lemma_items();
        queued.lemma_keys();
    }
    let ghost items = searched.items();
    let ghost keys = queued.keys();
    let mut r: Vec<String> = Vec::new();
    let mut i: usize = 0;
    assert(progress::string_views(r@) =~= items.take(0));
    while i < searched.len()
        invariant
            i <= items.len(),
            items == searched.items(),
            progress::string_views(r@) == items.take(i as int),
        decreases items.len() - i,
    {
        let ghost before = progress::string_views(r@);
        r.push(searched.item_at(i).clone());
        proof {
            assert(progress::string_views(r@) =~= before.push(items[i as int]));
            assert(items.take(i + 1) =~= before.push(items[i as int]));
        }
        i += 1;
    }
    assert(items.take(i as int) =~= items);
    let mut k: usize = 0;
    assert(progress::string_views(r@) =~= items + keys.take(0));
    while k < queued.len()
        invariant
            k <= keys.len(),
            keys == queued.keys(),
            progress::string_views(r@) == items + keys.take(k as int),
        decreases keys.len() - k,
    {
        let ghost before = progress::string_views(r@);
        r.push(queued.key_at(k).clone());
        proof {
            assert(progress::string_views(r@) =~= before.push(keys[k as int]));
            assert(keys.take(k + 1) =~= keys.take(k as int).push(keys[k as int]));
            assert(progress::string_views(r@) =~= items + keys.take(k + 1));
        }
        k += 1;
    }
    proof {
        let views = progress::string_views(r@);
        let all = p@.searched.union(p@.queued.dom());
        assert(views =~= items + keys);
        assert forall|x: Seq<char>| views.to_set().contains(x) <==> all.contains(x) by {
            if p@.searched.contains(x) {
                assert(items.to_set().contains(x));
                let j = choose|j: int| 0 <= j < items.len() && items[j] == x;
                assert(views[j] == x);
            }
            if p@.queued.dom().contains(x) {
                assert(queued@.contains_key(x));
                let j = choose|j: int| 0 <= j < keys.len() && keys[j] == x;
                assert(views[items.len() + j] == x);
            }
            if views.contains(x) {
                let j = choose|j: int| 0 <= j < views.len() && views[j] == x;
                if j < items.len() {
                    assert(items.to_set().contains(items[j]));
                } else {
                    assert(queued@.contains_key(keys[j - items.len()]));
                }
            }
        }
        assert(views.to_set() =~= all);
    }
    r
}

impl ExecutorState {
    /// The state of the crawl is well formed.
    pub closed spec fn wf(&self) -> bool {
        self.crawl_state.wf()
    }

    /// The state at the start, in which the paths of domains in progress are known.
    pub fn new(crawl_state: CrawlState) -> (r: ExecutorState)
        requires
            crawl_state.wf(),
        ensures
            r.wf(),
            r@ == ExecutorView::new(crawl_state@),
    {
        let mut searched = new_path_sets();
        let domains = crawl_state.in_progress();
        let ghost keys = domains.keys();
        let ghost all = recovered_paths(crawl_state@);
        proof {
            domains.lemma_keys();
        }
        let mut i: usize = 0;
        while i < domains.len()
            invariant
                i <= keys.len(),
                keys == domains.keys(),
                domains.wf(),
                forall|d: Seq<char>| #[trigger] domains@.contains_key(d) ==> domains@[d].wf(),
                forall|j: int| 0 <= j < keys.len() ==> #[trigger] domains@.contains_key(keys[j]),
                progress::progress_views(domains@) == crawl_state@.in_progress,
                all == recovered_paths(crawl_state@),
                forall|d: Seq<char>| #[trigger]
                    path_sets(searched).contains_key(d) <==> keys.take(i as int).contains(d),
                forall|d: Seq<char>| #[trigger]
                    path_sets(searched).contains_key(d) ==> path_sets(searched)[d] == all[d],
            decreases keys.len() - i,
        {
            let domain = domains.key_at(i);
            let p = domains.value_at(i);
            assert(domains@.contains_key(keys[i as int]));
            let paths = known_paths(p);
            let ghost before = path_sets(searched);
            set_paths(&mut searched, domain.clone(), paths);
            proof {
                let d0 = keys[i as int];
                assert(crawl_state@.in_progress.contains_key(d0));
                assert(crawl_state@.in_progress[d0] == p@);
                assert(all[d0] == p@.searched.union(p@.queued.dom()));
                assert forall|d: Seq<char>| #[trigger]
                    path_sets(searched).contains_key(d) <==> keys.take(i + 1).contains(d) by {
                    if d == d0 {
                        assert(keys.take(i + 1)[i as int] == d);
                    } else if before.contains_key(d) {
                        let j = choose|j: int|
                            0 <= j < keys.take(i as int).len() && keys.take(i as int)[j] == d;
                        assert(keys.take(i + 1)[j] == d);
                    } else if keys.take(i + 1).contains(d) {
                        let next = keys.take(i + 1);
                        let j = choose|j: int| 0 <= j < next.len() && next[j] == d;
                        assert(keys.take(i as int)[j] == d);
                    }
                }
            }
            i += 1;
        }
        proof {
            assert(keys.take(i as int) =~= keys);
            assert forall|d: Seq<char>| path_sets(searched).contains_key(d) <==> all.contains_key(
                d,
            ) by {
                assert(domains@.contains_key(d) <==> keys.contains(d));
                assert(progress::progress_views(domains@).contains_key(d) <==> domains@.contains_key(
                    d,
                ));
            }
            assert(path_sets(searched) =~= all);
        }
        ExecutorState { searched, crawl_state, stdin_closed: false, eof_sent: false }
    }

    /// The fetches of the paths that were found before a restart and not
    /// searched: each of them once, in any order. Completed domains are skipped.
    pub fn requeue_pending_paths(&self) -> (r: Vec<FetchTask>)
        requires
            self.wf(),
        ensures
            task_views(r@).no_duplicates(),
            forall|t: FetchTaskView| #[trigger]
                task_views(r@).contains(t) <==> is_pending_task(self@.crawl, t),
    {
        let mut r: Vec<FetchTask> = Vec::new();
        let domains = self.crawl_state.in_progress();
        let ghost crawl = self@.crawl;
        let ghost keys = domains.keys();
        proof {
            domains.lemma_keys();
        }
        let mut i: usize = 0;
        while i < domains.len()
            invariant
                i <= keys.len(),
                keys == domains.keys(),
                keys.no_duplicates(),
                domains.wf(),
                forall|d: Seq<char>| #[trigger] domains@.contains_key(d) ==> domains@[d].wf(),
                forall|j: int| 0 <= j < keys.len() ==> #[trigger] domains@.contains_key(keys[j]),
                forall|d: Seq<char>| #[trigger] domains@.contains_key(d) <==> keys.contains(d),
                progress::progress_views(domains@) == crawl.in_progress,
                crawl == self.crawl_state@,
                task_views(r@).no_duplicates(),
                forall|t: FetchTaskView| #[trigger]
                    task_views(r@).contains(t) <==> is_pending_task(crawl, t) && keys.take(
                        i as int,
                    ).contains(t.domain()),
            decreases keys.len() - i,
        {
            let domain = domains.key_at(i);
            let p = domains.value_at(i);
            assert(domains@.contains_key(keys[i as int]));
            assert(crawl.in_progress.contains_key(domain@));
            assert(crawl.in_progress[domain@] == p@);
            if self.crawl_state.should_skip(domain.as_str()) {
                proof {
                    assert(keys.take(i + 1) =~= keys.take(i as int).push(domain@));
                    assert forall|t: FetchTaskView| #[trigger]
                        task_views(r@).contains(t) <==> is_pending_task(crawl, t) && keys.take(
                            i + 1,
                        ).contains(t.domain()) by {
                        string_map::lemma_pushed(keys.take(i as int), domain@, t.domain());
                    }
                }
                i += 1;
                continue;
            }
            let queued = p.queued_paths();
            let ghost paths = queued.keys();
            let ghost done = task_views(r@);
            proof {
                queued.lemma_keys();
                assert forall|j: int| 0 <= j < i implies keys[j] != domain@ by {}
                assert forall|t: FetchTaskView| #[trigger] done.contains(t) implies t.domain()
                    != domain@ by {
                    let j = choose|j: int|
                        0 <= j < keys.take(i as int).len() && keys.take(i as int)[j] == t.domain();
                    assert(keys[j] == t.domain());
                }
            }
            let mut k: usize = 0;
            assert(paths.take(0) =~= Seq::empty());
            while k < queued.len()
                invariant
                    k <= paths.len(),
                    paths == queued.keys(),
                    paths.no_duplicates(),
                    forall|j: int| 0 <= j < paths.len() ==> #[trigger] queued@.contains_key(paths[j]),
                    queued@ == p@.queued,
                    queued.wf(),
                    crawl.in_progress.contains_key(domain@),
                    crawl.in_progress[domain@] == p@,
                    !crawl.completed.contains_key(domain@),
                    forall|t: FetchTaskView| #[trigger] done.contains(t) ==> t.domain() != domain@,
                    done.len() <= task_views(r@).len(),
                    task_views(r@).no_duplicates(),
                    forall|t: FetchTaskView| #[trigger]
                        task_views(r@).contains(t) <==> done.contains(t) || (is_pending_task(
                            crawl,
                            t,
                        ) && t.domain() == domain@ && paths.take(k as int).contains(t->Page_path)),
                decreases paths.len() - k,
            {
                let path = queued.key_at(k);
                let depth = *queued.value_at(k);
                let ghost before = task_views(r@);
                assert(queued@.contains_key(paths[k as int]));
                let task = FetchTask::Page { domain: domain.clone(), path: path.clone(), depth };
                r.push(task);
                proof {
                    let t0 = task@;
                    let after = task_views(r@);
                    assert(after =~= before.push(t0));
                    assert(is_pending_task(crawl, t0));
                    if before.contains(t0) {
                        assert(paths.take(k as int).contains(paths[k as int]));
                        let j = choose|j: int|
                            0 <= j < paths.take(k as int).len() && paths.take(k as int)[j]
                                == paths[k as int];
                        assert(paths[j] == paths[k as int]);
                    }
                    assert forall|a: int, b: int|
                        0 <= a < after.len() && 0 <= b < after.len() && a != b implies after[a]
                        != after[b] by {
                        if a < before.len() {
                            assert(before.contains(before[a]));
                        }
                        if b < before.len() {
                            assert(before.contains(before[b]));
                        }
                    }
                    assert forall|t: FetchTaskView| #[trigger]
                        after.contains(t) <==> done.contains(t) || (is_pending_task(crawl, t)
                            && t.domain() == domain@ && paths.take(k + 1).contains(
                            t->Page_path,
                        )) by {
                        if after.contains(t) {
                            let j = choose|j: int| 0 <= j < after.len() && after[j] == t;
                            if j < before.len() {
                                assert(before[j] == t);
                                assert(before.contains(t));
                                if !done.contains(t) {
                                    let m = choose|m: int|
                                        0 <= m < paths.take(k as int).len() && paths.take(k as int)[m]
                                            == t->Page_path;
                                    assert(paths.take(k + 1)[m] == t->Page_path);
                                }
                            } else {
                                assert(paths.take(k + 1)[k as int] == t->Page_path);
                            }
                        }
                        if before.contains(t) {
                            let j = choose|j: int| 0 <= j < before.len() && before[j] == t;
                            assert(after[j] == t);
                        }
                        if is_pending_task(crawl, t) && t.domain() == domain@ && paths.take(
                            k + 1,
                        ).contains(t->Page_path) {
                            let next = paths.take(k + 1);
                            let m = choose|m: int| 0 <= m < next.len() && next[m] == t->Page_path;
                            if m == k {
                                assert(t == t0);
                                assert(after[before.len() as int] == t0);
                            } else {
                                assert(paths.take(k as int)[m] == t->Page_path);
                                assert(before.contains(t));
                            }
                        }
                    }
                }
                k += 1;
            }
            proof {
                assert(paths.take(k as int) =~= paths);
                let after = task_views(r@);
                assert forall|t: FetchTaskView| #[trigger]
                    after.contains(t) <==> is_pending_task(crawl, t) && keys.take(i + 1).contains(
                        t.domain(),
                    ) by {
                    if after.contains(t) {
                        if done.contains(t) {
                            let j = choose|j: int|
                                0 <= j < keys.take(i as int).len() && keys.take(i as int)[j]
                                    == t.domain();
                            assert(keys.take(i + 1)[j] == t.domain());
                        } else {
                            assert(keys.take(i + 1)[i as int] == t.domain());
                        }
                    }
                    if is_pending_task(crawl, t) && keys.take(i + 1).contains(t.domain()) {
                        let next = keys.take(i + 1);
                        let j = choose|j: int| 0 <= j < next.len() && next[j] == t.domain();
                        if j == i {
                            assert(queued@.contains_key(t->Page_path));
                            assert(paths.contains(t->Page_path));
                        } else {
                            assert(keys.take(i as int)[j] == t.domain());
                            assert(done.contains(t));
                        }
                    }
                }
            }
            i += 1;
        }
        proof {
            assert(keys.take(i as int) =~= keys);
            assert forall|t: FetchTaskView| #[trigger]
                task_views(r@).contains(t) <==> is_pending_task(crawl, t) by {
                if is_pending_task(crawl, t) {
                    assert(progress::progress_views(domains@).contains_key(t.domain()));
                    assert(domains@.contains_key(t.domain()));
                }
            }
        }
        r
    }

    /// Notes that the path is fetched; returns whether it is new.
    pub fn try_insert_path(&mut self, domain: &str, path: &str) -> (r: bool)
        requires
            old(self).wf(),
        ensures
            final(self).wf(),
            r == !old(self)@.knows(domain@, path@),
            final(self)@ == old(self)@.learn(domain@, path@),
    {
        add_path(&mut self.searched, domain.to_string(), path.to_string())
    }

    /// Whether lines of domains are still read.
    pub fn reads_stdin(&self) -> (r: bool)
        ensures
            r == !self@.stdin_closed,
    {
        !self.stdin_closed
    }

    /// Reading domains was interrupted: no more are read.
    pub fn handle_interrupt(&mut self)
        requires
            old(self).wf(),
        ensures
            final(self).wf(),
            final(self)@ == old(self)@.close_stdin(),
    {
        self.stdin_closed = true;
    }

    /// Deals with a line, which names a domain; returns the fetch of its root page.
    ///
    /// A line without a domain, a domain that is completed and one whose root
    /// page is known give nothing. At the end, or when reading fails, no more
    /// lines are read.
    pub fn handle_stdin_line(&mut self, line: StdinLine) -> (r: Option<FetchTask>)
        requires
            old(self).wf(),
        ensures
            final(self).wf(),
            (final(self)@, task_view(r)) == old(self)@.handle_stdin_line(line@),
    {
        let line = match line {
            StdinLine::Line(line) => line,
            StdinLine::End => {
                self.stdin_closed = true;
                return None;
            },
            StdinLine::Failed => {
                self.stdin_closed = true;
                return None;
            },
        };
        let all = to_chars(line.as_str());
        let chars = trim_chars(&all);
        if chars.len() == 0 {
            return None;
        }
        let domain = from_chars(chars);
        if self.crawl_state.should_skip(domain.as_str()) {
            return None;
        }
        if !self.try_insert_path(domain.as_str(), "/") {
            proof {
                lemma_learned_twice(old(self)@, domain@, "/"@);
            }
            return None;
        }
        Some(FetchTask::Page { domain, path: "/".to_string(), depth: 0 })
    }

    /// Deals with a message of the coordinator, or with the end of its messages.
    ///
    /// A page that is known is not fetched again: the coordinator is told that
    /// the fetch failed.
    pub fn handle_coordinator_message(&mut self, msg: Option<CpuToAsync>) -> (r: Reply)
        requires
            old(self).wf(),
        ensures
            final(self).wf(),
            (final(self)@, r@) == old(self)@.handle_coordinator_message(message_view(msg)),
    {
        match msg {
            Some(CpuToAsync::FetchPath { domain, path, depth }) => {
                if self.try_insert_path(domain.as_str(), path.as_str()) {
                    Reply::Fetch(FetchTask::Page { domain, path, depth })
                } else {
                    proof {
                        lemma_learned_twice(old(self)@, domain@, path@);
                    }
                    Reply::Answer(AsyncToCpu::FetchFailed { domain })
                }
            },
            Some(CpuToAsync::FetchLogo { domain, url, context }) => {
                Reply::Fetch(FetchTask::Logo { domain, url, context })
            },
            None => Reply::Exit,
        }
    }

    /// What to do after an event; `no_tasks` says that no fetch is under way.
    pub fn after_event(&mut self, no_tasks: bool) -> (r: Next)
        requires
            old(self).wf(),
        ensures
            final(self).wf(),
            (final(self)@, r) == old(self)@.after_event(no_tasks),
    {
        if self.stdin_closed && no_tasks && !self.eof_sent {
            self.eof_sent = true;
            return Next::SendEof;
        }
        if self.eof_sent && no_tasks {
            Next::AwaitCoordinator
        } else {
            Next::Listen
        }
    }
}

/// What to do after the coordinator was told that no more domains will come;
/// `delivered` says whether the message reached it.
pub fn after_eof(delivered: bool) -> (r: Next)
    ensures
        r == (if delivered {
            Next::AwaitCoordinator
        } else {
            Next::Stop
        }),
{
    if delivered {
        Next::AwaitCoordinator
    } else {
        Next::Stop
    }
}

proof fn lemma_learned_twice(s: ExecutorView, domain: Seq<char>, path: Seq<char>)
    requires
        s.knows(domain, path),
    ensures
        s.learn(domain, path) == s,
{
    let paths = paths_of(s.searched, domain);
    assert(paths.insert(path) =~= paths);
    assert(s.searched.insert(domain, paths) =~= s.searched);
}

} // verus!
