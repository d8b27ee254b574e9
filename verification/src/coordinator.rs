//! The coordinator: the state of every domain being crawled, and what each
//! message changes in it.
//!
//! The coordinator performs nothing itself. Every handler returns the actions
//! that are to be performed, in their order. A fetch request may turn out not
//! to be deliverable; so the handling of a worker's answer has two halves, and
//! the second one is told how many requests were delivered.

use std::ops::ControlFlow;

use vstd::prelude::*;

use crate::log_entry::{CompletionReason, LogEntry, LogEntryView, LogoInfo, ReasonView};
use crate::messages::{
    AsyncToCpu, AsyncToCpuView, CpuToAsync, CpuToAsyncView, LogoContext, LogoContextView,
    LogoFound, LogoView, WorkItem, WorkItemView, WorkPayload, WorkPayloadView, WorkerResult,
    WorkerResultPayload, WorkerResultPayloadView, WorkerResultView,
};
use crate::progress::{CrawlState, CrawlStateView};
#[allow(unused_imports)]
use crate::{messages, progress, string_map};
use crate::string_map::StringMap;

verus! {

/// The limits of a crawl.
#[derive(Debug, Clone, Copy)]
pub struct CoordinatorConfig {
    /// Largest number of pages that are searched per domain.
    pub max_pages_per_domain: usize,
    /// Largest depth of a page, counted in links from the root.
    pub max_depth: usize,
}

impl CoordinatorConfig {
    /// The given limits.
    #[must_use]
    pub fn new(max_pages_per_domain: usize, max_depth: usize) -> (r: CoordinatorConfig)
        ensures
            r.max_pages_per_domain == max_pages_per_domain,
            r.max_depth == max_depth,
    {
        CoordinatorConfig { max_pages_per_domain, max_depth }
    }
}

impl Default for CoordinatorConfig {
    fn default() -> (r: CoordinatorConfig)
        ensures
            r.max_pages_per_domain == 50,
            r.max_depth == 3,
    {
        CoordinatorConfig { max_pages_per_domain: 50, max_depth: 3 }
    }
}

/// The state of a domain being crawled.
#[derive(Debug, Clone, Copy)]
pub struct DomainState {
    /// Number of fetches under way (pages and logos) that were requested, or
    /// taken up at the start. The fetch of the root page of a new domain is not
    /// counted: nothing else of the domain is under way then.
    pub pending_fetches: usize,
    /// Number of pages handed to workers.
    pub pages_crawled: usize,
    /// Whether a logo was found.
    pub logo_found: bool,
    /// Whether the completion was logged.
    pub logged_complete: bool,
}

impl DomainState {
    /// A domain of which nothing is known yet.
    pub open spec fn fresh() -> DomainState {
        DomainState {
            pending_fetches: 0,
            pages_crawled: 0,
            logo_found: false,
            logged_complete: false,
        }
    }

    /// The state with one fetch less under way, if there is one.
    pub open spec fn one_less(self) -> DomainState {
        DomainState {
            pending_fetches: if self.pending_fetches > 0 {
                (self.pending_fetches - 1) as usize
            } else {
                0
            },
            ..self
        }
    }

    /// Whether the domain is searched no more.
    pub open spec fn is_done(self) -> bool {
        self.logo_found || self.logged_complete
    }

    /// Whether the domain has reached its limit of pages.
    pub fn at_page_limit(&self, config: &CoordinatorConfig) -> (r: bool)
        ensures
            r == (self.pages_crawled >= config.max_pages_per_domain),
    {
        self.pages_crawled >= config.max_pages_per_domain
    }

    /// A fetch of the domain ended.
    fn without_one_fetch(self) -> (r: DomainState)
        ensures
            r == self.one_less(),
    {
        DomainState { pending_fetches: self.pending_fetches.saturating_sub(1), ..self }
    }
}

impl Default for DomainState {
    fn default() -> (r: DomainState)
        ensures
            r == DomainState::fresh(),
    {
        DomainState {
            pending_fetches: 0,
            pages_crawled: 0,
            logo_found: false,
            logged_complete: false,
        }
    }
}

/// What is to be done.
#[derive(Debug)]
pub enum Action {
    /// Write an entry to the progress log.
    Log(LogEntry),
    /// Hand work to a worker.
    Dispatch(WorkItem),
    /// Request a fetch.
    Fetch(CpuToAsync),
    /// Close the channel of fetch requests.
    CloseAsync,
}

/// View of an [`Action`].
pub enum ActionView {
    Log(LogEntryView),
    Dispatch(WorkItemView),
    Fetch(CpuToAsyncView),
    CloseAsync,
}

impl View for Action {
    type V = ActionView;

    open spec fn view(&self) -> ActionView {
        match self {
            Action::Log(entry) => ActionView::Log(entry@),
            Action::Dispatch(item) => ActionView::Dispatch(item@),
            Action::Fetch(request) => ActionView::Fetch(request@),
            Action::CloseAsync => ActionView::CloseAsync,
        }
    }
}

/// The views of a list of actions.
pub open spec fn action_views(actions: Seq<Action>) -> Seq<ActionView> {
    actions.map_values(|a: Action| a@)
}

/// Adds an action to a list.
fn add_action(actions: &mut Vec<Action>, action: Action)
    ensures
        action_views(final(actions)@) == action_views(old(actions)@).push(action@),
{
    let ghost before = action_views(actions@);
    actions.push(action);
    assert(action_views(actions@) =~= before.push(action@));
}

/// Adds the actions of another list.
fn add_actions(actions: &mut Vec<Action>, more: Vec<Action>)
    ensures
        action_views(final(actions)@) == action_views(old(actions)@) + action_views(more@),
{
    let ghost before = action_views(actions@);
    let mut rest = more;
    actions.append(&mut rest);
    assert(action_views(actions@) =~= before + action_views(more@));
}

/// An empty list of actions.
fn no_actions() -> (r: Vec<Action>)
    ensures
        action_views(r@) == Seq::<ActionView>::empty(),
{
    let r: Vec<Action> = Vec::new();
    assert(action_views(r@) =~= Seq::<ActionView>::empty());
    r
}

/// The outcome of handling a message.
#[derive(Debug)]
pub struct Step {
    /// What is to be done, in this order.
    pub actions: Vec<Action>,
    /// `Break` when the crawl is over.
    pub flow: ControlFlow<()>,
}

/// View of a state and of the outcome that led to it.
#[verifier::ext_equal]
pub struct StepView {
    pub state: CoordinatorView,
    pub actions: Seq<ActionView>,
    pub shutdown: bool,
}

impl StepView {
    /// The same outcome, after the given actions.
    pub open spec fn after(self, actions: Seq<ActionView>) -> StepView {
        StepView { actions: actions + self.actions, ..self }
    }
}

/// The coordinator's state.
pub struct Coordinator {
    domains: StringMap<DomainState>,
    config: CoordinatorConfig,
    eof_received: bool,
    async_open: bool,
}

/// View of a [`Coordinator`].
#[verifier::ext_equal]
pub struct CoordinatorView {
    /// The domains being crawled.
    pub domains: Map<Seq<char>, DomainState>,
    /// The limits.
    pub config: CoordinatorConfig,
    /// Whether no more domains will come.
    pub eof_received: bool,
    /// Whether the channel of fetch requests is open.
    pub async_open: bool,
}

impl View for Coordinator {
    type V = CoordinatorView;

    closed spec fn view(&self) -> CoordinatorView {
        CoordinatorView {
            domains: self.domains@,
            config: self.config,
            eof_received: self.eof_received,
            async_open: self.async_open,
        }
    }
}

impl CoordinatorView {
    /// The state before any message.
    pub open spec fn new(config: CoordinatorConfig) -> CoordinatorView {
        CoordinatorView {
            domains: Map::empty(),
            config,
            eof_received: false,
            async_open: true,
        }
    }

    /// The state before any message of a crawl that goes on: the domains with
    /// pages that are taken up are being crawled, and these pages are under way.
    pub open spec fn resume(config: CoordinatorConfig, crawl: CrawlStateView) -> CoordinatorView {
        CoordinatorView {
            domains: Map::new(
                |d: Seq<char>| progress::pending_pages(crawl, d) > 0,
                |d: Seq<char>|
                    DomainState {
                        pending_fetches: progress::pending_pages(crawl, d) as usize,
                        ..DomainState::fresh()
                    },
            ),
            ..CoordinatorView::new(config)
        }
    }

    /// The state of a domain; that of a new one, if it is not being crawled.
    pub open spec fn state_of(self, domain: Seq<char>) -> DomainState {
        if self.domains.contains_key(domain) {
            self.domains[domain]
        } else {
            DomainState::fresh()
        }
    }

    /// Sets the state of a domain.
    pub open spec fn with(self, domain: Seq<char>, state: DomainState) -> CoordinatorView {
        CoordinatorView { domains: self.domains.insert(domain, state), ..self }
    }

    /// Forgets a domain.
    pub open spec fn without(self, domain: Seq<char>) -> CoordinatorView {
        CoordinatorView { domains: self.domains.remove(domain), ..self }
    }

    /// Whether a state has reached the limit of pages.
    pub open spec fn at_page_limit(self, state: DomainState) -> bool {
        state.pages_crawled >= self.config.max_pages_per_domain
    }

    /// The crawl is over when no more domains will come and none is left.
    pub open spec fn check_shutdown(self) -> StepView {
        if self.eof_received && self.domains == Map::<Seq<char>, DomainState>::empty() {
            StepView {
                state: CoordinatorView { async_open: false, ..self },
                actions: seq![ActionView::CloseAsync],
                shutdown: true,
            }
        } else {
            StepView { state: self, actions: Seq::empty(), shutdown: false }
        }
    }

    /// A domain is complete: that is logged once, and the domain is forgotten
    /// when no fetch is under way.
    pub open spec fn complete_domain(self, domain: Seq<char>, reason: ReasonView) -> (
        CoordinatorView,
        Seq<ActionView>,
    ) {
        if !self.domains.contains_key(domain) {
            (self, Seq::empty())
        } else {
            let state = self.domains[domain];
            let actions = if state.logged_complete {
                Seq::empty()
            } else {
                seq![ActionView::Log(LogEntryView::Completed { domain, reason })]
            };
            if state.pending_fetches == 0 {
                (self.without(domain), actions)
            } else {
                (self.with(domain, DomainState { logged_complete: true, ..state }), actions)
            }
        }
    }

    /// A page was fetched: it goes to a worker, unless the domain is done or a
    /// limit is reached.
    pub open spec fn handle_html(
        self,
        domain: Seq<char>,
        path: Seq<char>,
        depth: usize,
        body: Seq<char>,
    ) -> StepView {
        let state = self.state_of(domain);
        let less = state.one_less();
        let started = if state.pages_crawled == 0 && state.pending_fetches == 0 {
            seq![ActionView::Log(LogEntryView::Started(domain))]
        } else {
            Seq::empty()
        };
        if state.is_done() {
            if less.pending_fetches == 0 {
                self.without(domain).check_shutdown().after(started)
            } else {
                StepView { state: self.with(domain, less), actions: started, shutdown: false }
            }
        } else if depth > self.config.max_depth || self.at_page_limit(state) {
            if less.pending_fetches == 0 {
                let (next, actions) = self.with(domain, less).complete_domain(
                    domain,
                    ReasonView::LimitReached,
                );
                next.check_shutdown().after(started + actions)
            } else {
                StepView { state: self.with(domain, less), actions: started, shutdown: false }
            }
        } else {
            let crawled = DomainState {
                pages_crawled: (state.pages_crawled + 1) as usize,
                ..state
            };
            let item = WorkItemView { domain, path, depth, payload: WorkPayloadView::Html(body) };
            StepView {
                state: self.with(domain, crawled),
                actions: started.push(ActionView::Dispatch(item)),
                shutdown: false,
            }
        }
    }

    /// A logo candidate was fetched: it goes to a worker, unless the domain is done.
    pub open spec fn handle_logo_bitmap(
        self,
        domain: Seq<char>,
        context: LogoContextView,
        bytes: Seq<u8>,
    ) -> StepView {
        if self.domains.contains_key(domain) && self.domains[domain].is_done() {
            let less = self.domains[domain].one_less();
            if less.pending_fetches == 0 {
                self.without(domain).check_shutdown()
            } else {
                StepView {
                    state: self.with(domain, less),
                    actions: Seq::empty(),
                    shutdown: false,
                }
            }
        } else {
            let item = WorkItemView {
                domain,
                path: context.found_on_path,
                depth: 0,
                payload: WorkPayloadView::LogoBitmap { context, bytes },
            };
            StepView { state: self, actions: seq![ActionView::Dispatch(item)], shutdown: false }
        }
    }

    /// Nothing of a domain that is counted is under way any more: it is complete,
    /// if it was not before.
    pub open spec fn nothing_pending(self, domain: Seq<char>) -> (CoordinatorView, Seq<ActionView>)
        recommends
            self.domains.contains_key(domain),
    {
        let state = self.domains[domain];
        if state.logged_complete {
            (self.without(domain), Seq::empty())
        } else if !state.logo_found {
            let reason = if self.at_page_limit(state) {
                ReasonView::LimitReached
            } else {
                ReasonView::NoLogo
            };
            self.complete_domain(domain, reason)
        } else {
            (self, Seq::empty())
        }
    }

    /// A fetch failed.
    pub open spec fn handle_fetch_failed(self, domain: Seq<char>) -> StepView {
        if !self.domains.contains_key(domain) {
            StepView { state: self, actions: Seq::empty(), shutdown: false }
        } else {
            let less = self.domains[domain].one_less();
            let next = self.with(domain, less);
            if less.pending_fetches == 0 {
                let (last, actions) = next.nothing_pending(domain);
                last.check_shutdown().after(actions)
            } else {
                StepView { state: next, actions: Seq::empty(), shutdown: false }
            }
        }
    }

    /// A message of the fetching side.
    pub open spec fn handle_async_message(self, msg: AsyncToCpuView) -> StepView {
        match msg {
            AsyncToCpuView::Html { domain, path, depth, body } => self.handle_html(
                domain,
                path,
                depth,
                body,
            ),
            AsyncToCpuView::LogoBitmap { domain, context, bytes } => self.handle_logo_bitmap(
                domain,
                context,
                bytes,
            ),
            AsyncToCpuView::FetchFailed { domain } => self.handle_fetch_failed(domain),
            AsyncToCpuView::Eof => CoordinatorView { eof_received: true, ..self }.check_shutdown(),
        }
    }

    /// A logo was found: the first one completes its domain.
    pub open spec fn handle_logo_found(self, domain: Seq<char>, logo: LogoView) -> (
        CoordinatorView,
        Seq<ActionView>,
    ) {
        let state = self.state_of(domain);
        if state.logo_found {
            (self, Seq::empty())
        } else {
            self.with(domain, DomainState { logo_found: true, ..state }).complete_domain(
                domain,
                ReasonView::LogoFound(logo),
            )
        }
    }

    /// The fetch requests for the work that a page led to. A page is requested
    /// only within the limit of depth, and after that was logged.
    pub open spec fn fetches(self, domain: Seq<char>, new_work: Seq<CpuToAsyncView>) -> Seq<
        ActionView,
    >
        decreases new_work.len(),
    {
        if new_work.len() == 0 {
            Seq::empty()
        } else {
            let before = self.fetches(domain, new_work.drop_last());
            let work = new_work.last();
            match work {
                CpuToAsyncView::FetchPath { path, depth, .. } => if depth > self.config.max_depth {
                    before
                } else {
                    before.push(
                        ActionView::Log(LogEntryView::Queued { domain, path, depth }),
                    ).push(ActionView::Fetch(work))
                },
                CpuToAsyncView::FetchLogo { .. } => before.push(ActionView::Fetch(work)),
            }
        }
    }

    /// A page was searched: that is logged, and what it led to is requested,
    /// unless the domain is not searched further.
    pub open spec fn handle_html_result(
        self,
        domain: Seq<char>,
        searched_path: Seq<char>,
        new_work: Seq<CpuToAsyncView>,
    ) -> Seq<ActionView> {
        let searched = seq![
            ActionView::Log(LogEntryView::Searched { domain, path: searched_path }),
        ];
        if !self.domains.contains_key(domain) || self.domains[domain].is_done()
            || self.at_page_limit(self.domains[domain]) || !self.async_open {
            searched
        } else {
            searched + self.fetches(domain, new_work)
        }
    }

    /// A worker's answer, first half: what it leads to.
    pub open spec fn handle_worker_result(self, result: WorkerResultView) -> (
        CoordinatorView,
        Seq<ActionView>,
    ) {
        match result.payload {
            WorkerResultPayloadView::LogoFound(logo) => self.handle_logo_found(result.domain, logo),
            WorkerResultPayloadView::LogoEmpty => (self, Seq::empty()),
            WorkerResultPayloadView::Html { searched_path, new_work } => (
                self,
                self.handle_html_result(result.domain, searched_path, new_work),
            ),
        }
    }

    /// Whether the number of pending fetches of a domain can grow by `delivered`.
    pub open spec fn can_settle(self, domain: Seq<char>, delivered: usize) -> bool {
        self.domains.contains_key(domain) ==> self.domains[domain].one_less().pending_fetches
            + delivered <= usize::MAX
    }

    /// A worker's answer, second half: `delivered` fetches are under way in place
    /// of the one that was answered.
    pub open spec fn settle_worker_result(self, domain: Seq<char>, delivered: usize) -> (
        CoordinatorView,
        Seq<ActionView>,
    ) {
        if !self.domains.contains_key(domain) {
            (self, Seq::empty())
        } else {
            let less = self.domains[domain].one_less();
            let settled = DomainState {
                pending_fetches: (less.pending_fetches + delivered) as usize,
                ..less
            };
            let next = self.with(domain, settled);
            if settled.pending_fetches == 0 {
                next.nothing_pending(domain)
            } else {
                (next, Seq::empty())
            }
        }
    }
}

impl Coordinator {
    /// The map of domains is well formed.
    pub closed spec fn wf(&self) -> bool {
        self.domains.wf()
    }

    /// A coordinator with the given limits.
    #[must_use]
    pub fn new(config: CoordinatorConfig) -> (r: Coordinator)
        ensures
            r.wf(),
            r@ == CoordinatorView::new(config),
    {
        Coordinator { domains: StringMap::new(), config, eof_received: false, async_open: true }
    }

    /// A coordinator of a crawl that goes on after an interruption.
    ///
    /// The fetching side takes up the pages that were queued and not searched;
    /// they count as under way, so that their domain is complete only when all
    /// of them were answered.
    #[must_use]
    pub fn resume(config: CoordinatorConfig, crawl: &CrawlState) -> (r: Coordinator)
        requires
            crawl.wf(),
        ensures
            r.wf(),
            r@ == CoordinatorView::resume(config, crawl@),
    {
        let mut domains: StringMap<DomainState> = StringMap::new();
        let in_progress = crawl.in_progress();
        let ghost keys = in_progress.keys();
        let ghost all = CoordinatorView::resume(config, crawl@).domains;
        proof {
            in_progress.lemma_keys();
        }
        let mut i: usize = 0;
        while i < in_progress.len()
            invariant
                i <= keys.len(),
                keys == in_progress.keys(),
                crawl.wf(),
                in_progress.wf(),
                forall|d: Seq<char>| #[trigger]
                    in_progress@.contains_key(d) ==> in_progress@[d].wf(),
                forall|j: int| 0 <= j < keys.len() ==> #[trigger] in_progress@.contains_key(keys[j]),
                progress::progress_views(in_progress@) == crawl@.in_progress,
                all == CoordinatorView::resume(config, crawl@).domains,
                domains.wf(),
                forall|d: Seq<char>| #[trigger]
                    domains@.contains_key(d) <==> all.contains_key(d) && keys.take(
                        i as int,
                    ).contains(d),
                forall|d: Seq<char>| #[trigger] domains@.contains_key(d) ==> domains@[d] == all[d],
            decreases keys.len() - i,
        {
            let domain = in_progress.key_at(i);
            let p = in_progress.value_at(i);
            let ghost d0 = keys[i as int];
            proof {
                assert(in_progress@.contains_key(d0));
                assert(crawl@.in_progress.contains_key(d0));
                assert(crawl@.in_progress[d0] == p@);
                assert(keys.take(i + 1) =~= keys.take(i as int).push(d0));
                assert forall|d: Seq<char>|
                    keys.take(i + 1).contains(d) <==> keys.take(i as int).contains(d) || d
                        == d0 by {
                    string_map::lemma_pushed(keys.take(i as int), d0, d);
                }
            }
            let queued = p.queued_paths();
            proof {
                queued.lemma_keys();
            }
            let pending = queued.len();
            if pending > 0 && !crawl.should_skip(domain.as_str()) {
                domains.insert(
                    domain.clone(),
                    DomainState { pending_fetches: pending, ..DomainState::default() },
                );
            }
            i += 1;
        }
        proof {
            assert(keys.take(i as int) =~= keys);
            assert forall|d: Seq<char>| all.contains_key(d) implies keys.contains(d) by {
                assert(progress::progress_views(in_progress@).contains_key(d));
                assert(in_progress@.contains_key(d));
            }
            assert(domains@ =~= all);
        }
        Coordinator { domains, config, eof_received: false, async_open: true }
    }

    /// The state of a domain being crawled.
    pub fn domain_state(&self, domain: &str) -> (r: Option<DomainState>)
        requires
            self.wf(),
        ensures
            r == (if self@.domains.contains_key(domain@) {
                Some(self@.domains[domain@])
            } else {
                None
            }),
    {
        match self.domains.get(domain) {
            Some(state) => Some(*state),
            None => None,
        }
    }

    /// Whether the crawl is over.
    pub fn check_shutdown(&mut self) -> (r: Step)
        requires
            old(self).wf(),
        ensures
            final(self).wf(),
            ({
                let step = old(self)@.check_shutdown();
                &&& final(self)@ == step.state
                &&& action_views(r.actions@) == step.actions
                &&& (r.flow is Break) == step.shutdown
            }),
    {
        let mut actions = no_actions();
        if self.eof_received && self.domains.is_empty() {
            self.async_open = false;
            add_action(&mut actions, Action::CloseAsync);
            assert(action_views(actions@) =~= seq![ActionView::CloseAsync]);
            Step { actions, flow: ControlFlow::Break(()) }
        } else {
            Step { actions, flow: ControlFlow::Continue(()) }
        }
    }

    /// Ends a step with the test for the end of the crawl.
    fn end_step(&mut self, actions: Vec<Action>) -> (r: Step)
        requires
            old(self).wf(),
        ensures
            final(self).wf(),
            ({
                let step = old(self)@.check_shutdown().after(action_views(actions@));
                &&& final(self)@ == step.state
                &&& action_views(r.actions@) == step.actions
                &&& (r.flow is Break) == step.shutdown
            }),
    {
        let mut all = actions;
        let last = self.check_shutdown();
        add_actions(&mut all, last.actions);
        Step { actions: all, flow: last.flow }
    }

    /// Marks a domain as complete.
    pub fn complete_domain(&mut self, domain: &str, reason: CompletionReason) -> (r: Vec<Action>)
        requires
            old(self).wf(),
        ensures
            final(self).wf(),
            (final(self)@, action_views(r@)) == old(self)@.complete_domain(domain@, reason@),
    {
        let mut actions = no_actions();
        let state = match self.domains.get(domain) {
            Some(state) => *state,
            None => {
                return actions;
            },
        };
        if !state.logged_complete {
            add_action(
                &mut actions,
                Action::Log(LogEntry::Completed { domain: domain.to_string(), reason }),
            );
            assert(action_views(actions@) =~= seq![
                ActionView::Log(LogEntryView::Completed { domain: domain@, reason: reason@ }),
            ]);
        }
        if state.pending_fetches == 0 {
            self.domains.remove(domain);
        } else {
            self.domains.insert(
                domain.to_string(),
                DomainState { logged_complete: true, ..state },
            );
        }
        actions
    }

    /// Handles a fetched page.
    pub fn handle_html(
        &mut self,
        domain: &str,
        path: String,
        depth: usize,
        body: String,
    ) -> (r: Step)
        requires
            old(self).wf(),
        ensures
            final(self).wf(),
            ({
                let step = old(self)@.handle_html(domain@, path@, depth, body@);
                &&& final(self)@ == step.state
                &&& action_views(r.actions@) == step.actions
                &&& (r.flow is Break) == step.shutdown
            }),
    {
        let state = match self.domains.get(domain) {
            Some(state) => *state,
            None => DomainState::default(),
        };
        let mut actions = no_actions();
        if state.pages_crawled == 0 && state.pending_fetches == 0 {
            add_action(&mut actions, Action::Log(LogEntry::Started(domain.to_string())));
            assert(action_views(actions@) =~= seq![
                ActionView::Log(LogEntryView::Started(domain@)),
            ]);
        }
        let less = state.without_one_fetch();
        if state.logo_found || state.logged_complete {
            if less.pending_fetches == 0 {
                self.domains.remove(domain);
                return self.end_step(actions);
            }
            self.domains.insert(domain.to_string(), less);
            return Step { actions, flow: ControlFlow::Continue(()) };
        }
        if depth > self.config.max_depth || state.at_page_limit(&self.config) {
            self.domains.insert(domain.to_string(), less);
            if less.pending_fetches == 0 {
                let completion = self.complete_domain(domain, CompletionReason::LimitReached);
                add_actions(&mut actions, completion);
                return self.end_step(actions);
            }
            return Step { actions, flow: ControlFlow::Continue(()) };
        }
        self.domains.insert(
            domain.to_string(),
            DomainState { pages_crawled: state.pages_crawled + 1, ..state },
        );
        let item = WorkItem {
            domain: domain.to_string(),
            path,
            depth,
            payload: WorkPayload::Html(body),
        };
        add_action(&mut actions, Action::Dispatch(item));
        Step { actions, flow: ControlFlow::Continue(()) }
    }

    /// Handles a fetched logo candidate.
    pub fn handle_logo_bitmap(
        &mut self,
        domain: &str,
        context: LogoContext,
        bytes: Vec<u8>,
    ) -> (r: Step)
        requires
            old(self).wf(),
        ensures
            final(self).wf(),
            ({
                let step = old(self)@.handle_logo_bitmap(domain@, context@, bytes@);
                &&& final(self)@ == step.state
                &&& action_views(r.actions@) == step.actions
                &&& (r.flow is Break) == step.shutdown
            }),
    {
        let known = match self.domains.get(domain) {
            Some(state) => Some(*state),
            None => None,
        };
        if let Some(state) = known {
            if state.logo_found || state.logged_complete {
                let less = state.without_one_fetch();
                if less.pending_fetches == 0 {
                    self.domains.remove(domain);
                    return self.check_shutdown();
                }
                self.domains.insert(domain.to_string(), less);
                return Step { actions: no_actions(), flow: ControlFlow::Continue(()) };
            }
        }
        let mut actions = no_actions();
        let item = WorkItem {
            domain: domain.to_string(),
            path: context.found_on_path.clone(),
            depth: 0,
            payload: WorkPayload::LogoBitmap { context, bytes },
        };
        add_action(&mut actions, Action::Dispatch(item));
        assert(action_views(actions@) =~= seq![ActionView::Dispatch(item@)]);
        Step { actions, flow: ControlFlow::Continue(()) }
    }

    /// Completes or forgets a domain of which nothing is under way.
    fn nothing_pending(&mut self, domain: &str, state: DomainState) -> (r: Vec<Action>)
        requires
            old(self).wf(),
            old(self)@.domains.contains_key(domain@),
            old(self)@.domains[domain@] == state,
        ensures
            final(self).wf(),
            (final(self)@, action_views(r@)) == old(self)@.nothing_pending(domain@),
    {
        if state.logged_complete {
            self.domains.remove(domain);
            no_actions()
        } else if !state.logo_found {
            let reason = if state.at_page_limit(&self.config) {
                CompletionReason::LimitReached
            } else {
                CompletionReason::NoLogo
            };
            self.complete_domain(domain, reason)
        } else {
            no_actions()
        }
    }

    /// Handles a failed fetch.
    pub fn handle_fetch_failed(&mut self, domain: &str) -> (r: Step)
        requires
            old(self).wf(),
        ensures
            final(self).wf(),
            ({
                let step = old(self)@.handle_fetch_failed(domain@);
                &&& final(self)@ == step.state
                &&& action_views(r.actions@) == step.actions
                &&& (r.flow is Break) == step.shutdown
            }),
    {
        let state = match self.domains.get(domain) {
            Some(state) => *state,
            None => {
                return Step { actions: no_actions(), flow: ControlFlow::Continue(()) };
            },
        };
        let less = state.without_one_fetch();
        self.domains.insert(domain.to_string(), less);
        if less.pending_fetches == 0 {
            let actions = self.nothing_pending(domain, less);
            return self.end_step(actions);
        }
        Step { actions: no_actions(), flow: ControlFlow::Continue(()) }
    }

    /// Handles a message of the fetching side.
    pub fn handle_async_message(&mut self, msg: AsyncToCpu) -> (r: Step)
        requires
            old(self).wf(),
        ensures
            final(self).wf(),
            ({
                let step = old(self)@.handle_async_message(msg@);
                &&& final(self)@ == step.state
                &&& action_views(r.actions@) == step.actions
                &&& (r.flow is Break) == step.shutdown
            }),
    {
        match msg {
            AsyncToCpu::Html { domain, path, depth, body } => self.handle_html(
                domain.as_str(),
                path,
                depth,
                body,
            ),
            AsyncToCpu::LogoBitmap { domain, context, bytes } => self.handle_logo_bitmap(
                domain.as_str(),
                context,
                bytes,
            ),
            AsyncToCpu::FetchFailed { domain } => self.handle_fetch_failed(domain.as_str()),
            AsyncToCpu::Eof => {
                self.eof_received = true;
                self.check_shutdown()
            },
        }
    }

    /// Records a logo.
    pub fn handle_logo_found(&mut self, domain: &str, logo: LogoFound) -> (r: Vec<Action>)
        requires
            old(self).wf(),
        ensures
            final(self).wf(),
            (final(self)@, action_views(r@)) == old(self)@.handle_logo_found(domain@, logo@),
    {
        let state = match self.domains.get(domain) {
            Some(state) => *state,
            None => DomainState::default(),
        };
        if state.logo_found {
            return no_actions();
        }
        self.domains.insert(domain.to_string(), DomainState { logo_found: true, ..state });
        let info = LogoInfo::from(logo);
        self.complete_domain(domain, CompletionReason::LogoFound(info))
    }

    /// The actions that a searched page leads to.
    pub fn handle_html_result(
        &self,
        domain: &str,
        searched_path: &str,
        new_work: Vec<CpuToAsync>,
    ) -> (r: Vec<Action>)
        requires
            self.wf(),
        ensures
            action_views(r@) == self@.handle_html_result(
                domain@,
                searched_path@,
                messages::request_views(new_work@),
            ),
    {
        let mut actions = no_actions();
        add_action(
            &mut actions,
            Action::Log(
                LogEntry::Searched {
                    domain: domain.to_string(),
                    path: searched_path.to_string(),
                },
            ),
        );
        let ghost searched = action_views(actions@);
        assert(searched =~= seq![
            ActionView::Log(LogEntryView::Searched { domain: domain@, path: searched_path@ }),
        ]);
        let state = match self.domains.get(domain) {
            Some(state) => *state,
            None => {
                return actions;
            },
        };
        if state.logo_found || state.logged_complete || state.at_page_limit(&self.config)
            || !self.async_open {
            return actions;
        }
        let ghost views = messages::request_views(new_work@);
        assert(views.take(0) =~= Seq::empty());
        assert(searched + self@.fetches(domain@, views.take(0)) =~= searched);
        for work in it: new_work
            invariant
                it.seq() == new_work@,
                views == messages::request_views(new_work@),
                action_views(actions@) == searched + self@.fetches(
                    domain@,
                    views.take(it.index()),
                ),
        {
            proof {
                assert(views.take(it.index() + 1).drop_last() =~= views.take(it.index()));
                assert(views.take(it.index() + 1).last() == work@);
            }
            let ghost before = self@.fetches(domain@, views.take(it.index()));
            let mut skip = false;
            if let CpuToAsync::FetchPath { path, depth, .. } = &work {
                if *depth > self.config.max_depth {
                    skip = true;
                } else {
                    let entry = LogEntry::Queued {
                        domain: domain.to_string(),
                        path: path.clone(),
                        depth: *depth,
                    };
                    add_action(&mut actions, Action::Log(entry));
                    assert(action_views(actions@) =~= searched + before.push(
                        ActionView::Log(entry@),
                    ));
                }
            }
            if !skip {
                let ghost so_far = action_views(actions@);
                add_action(&mut actions, Action::Fetch(work));
                assert(action_views(actions@) =~= so_far.push(ActionView::Fetch(work@)));
            }
            assert(action_views(actions@) =~= searched + self@.fetches(
                domain@,
                views.take(it.index() + 1),
            ));
        }
        assert(views.take(views.len() as int) =~= views);
        actions
    }

    /// Handles a worker's answer, first half.
    ///
    /// The fetch requests among the actions are to be delivered; then
    /// `settle_worker_result` is to be told how many were.
    pub fn handle_worker_result(&mut self, result: WorkerResult) -> (r: Vec<Action>)
        requires
            old(self).wf(),
        ensures
            final(self).wf(),
            (final(self)@, action_views(r@)) == old(self)@.handle_worker_result(result@),
    {
        match result.payload {
            WorkerResultPayload::LogoFound(logo) => self.handle_logo_found(
                result.domain.as_str(),
                logo,
            ),
            WorkerResultPayload::LogoEmpty => no_actions(),
            WorkerResultPayload::Html { searched_path, new_work } => self.handle_html_result(
                result.domain.as_str(),
                searched_path.as_str(),
                new_work,
            ),
        }
    }

    /// Whether `settle_worker_result` can be told this number.
    pub fn can_settle(&self, domain: &str, delivered: usize) -> (r: bool)
        requires
            self.wf(),
        ensures
            r == self@.can_settle(domain@, delivered),
    {
        match self.domains.get(domain) {
            Some(state) => state.without_one_fetch().pending_fetches <= usize::MAX - delivered,
            None => true,
        }
    }

    /// Handles a worker's answer, second half: `delivered` requests were sent.
    pub fn settle_worker_result(&mut self, domain: &str, delivered: usize) -> (r: Vec<Action>)
        requires
            old(self).wf(),
            old(self)@.can_settle(domain@, delivered),
        ensures
            final(self).wf(),
            (final(self)@, action_views(r@)) == old(self)@.settle_worker_result(
                domain@,
                delivered,
            ),
    {
        let state = match self.domains.get(domain) {
            Some(state) => *state,
            None => {
                return no_actions();
            },
        };
        let less = state.without_one_fetch();
        let settled = DomainState { pending_fetches: less.pending_fetches + delivered, ..less };
        self.domains.insert(domain.to_string(), settled);
        if settled.pending_fetches == 0 {
            self.nothing_pending(domain, settled)
        } else {
            no_actions()
        }
    }
}

/// Where the loop around the coordinator stands.
#[derive(Debug, Clone, Copy, PartialEq, Eq, Structural)]
pub enum LoopPhase {
    /// Messages of the fetching side are taken, as long as there are any.
    PollAsync,
    /// A worker's answer is awaited, for a short time.
    AwaitWorker,
    /// The crawl is over; answers that workers have given are still handled.
    Drain,
    /// The loop has ended.
    Stopped,
}

/// What the loop around the coordinator met.
#[derive(Debug, Clone, Copy, PartialEq, Eq, Structural)]
pub enum LoopEvent {
    /// A message of the fetching side was handled; whether the crawl is over.
    AsyncHandled { shutdown: bool },
    /// There is no message of the fetching side.
    AsyncEmpty,
    /// The fetching side is gone.
    AsyncDisconnected,
    /// A worker's answer was handled; whether the crawl is over.
    ResultHandled { shutdown: bool },
    /// No worker answered.
    ResultTimeout,
    /// There is no answer of a worker.
    ResultEmpty,
    /// The workers are gone.
    WorkersDisconnected,
}

/// Where the loop goes on. An event that a phase does not wait for changes nothing.
pub open spec fn next_phase_of(phase: LoopPhase, event: LoopEvent) -> LoopPhase {
    match (phase, event) {
        (LoopPhase::PollAsync, LoopEvent::AsyncHandled { shutdown: true }) => LoopPhase::Drain,
        (LoopPhase::PollAsync, LoopEvent::AsyncEmpty) => LoopPhase::AwaitWorker,
        (LoopPhase::PollAsync, LoopEvent::AsyncDisconnected) => LoopPhase::Drain,
        (LoopPhase::AwaitWorker, LoopEvent::ResultHandled { shutdown: true }) => LoopPhase::Drain,
        (LoopPhase::AwaitWorker, LoopEvent::ResultHandled { shutdown: false }) => LoopPhase::PollAsync,
        (LoopPhase::AwaitWorker, LoopEvent::ResultTimeout) => LoopPhase::PollAsync,
        (LoopPhase::AwaitWorker, LoopEvent::WorkersDisconnected) => LoopPhase::Stopped,
        (LoopPhase::Drain, LoopEvent::ResultEmpty) => LoopPhase::Stopped,
        (LoopPhase::Drain, LoopEvent::WorkersDisconnected) => LoopPhase::Stopped,
        _ => phase,
    }
}

/// Where the loop goes on.
pub fn next_phase(phase: LoopPhase, event: LoopEvent) -> (r: LoopPhase)
    ensures
        r == next_phase_of(phase, event),
{
    match phase {
        LoopPhase::PollAsync => match event {
            LoopEvent::AsyncHandled { shutdown } => if shutdown {
                LoopPhase::Drain
            } else {
                LoopPhase::PollAsync
            },
            LoopEvent::AsyncEmpty => LoopPhase::AwaitWorker,
            LoopEvent::AsyncDisconnected => LoopPhase::Drain,
            _ => phase,
        },
        LoopPhase::AwaitWorker => match event {
            LoopEvent::ResultHandled { shutdown } => if shutdown {
                LoopPhase::Drain
            } else {
                LoopPhase::PollAsync
            },
            LoopEvent::ResultTimeout => LoopPhase::PollAsync,
            LoopEvent::WorkersDisconnected => LoopPhase::Stopped,
            _ => phase,
        },
        LoopPhase::Drain => match event {
            LoopEvent::ResultEmpty => LoopPhase::Stopped,
            LoopEvent::WorkersDisconnected => LoopPhase::Stopped,
            _ => phase,
        },
        LoopPhase::Stopped => phase,
    }
}

} // verus!
