//! What the progress log tells: the state of a crawl.

use vstd::prelude::*;
use vstd::string::*;

use crate::log_entry::{CompletionReason, LogEntry, LogEntryView, ReasonView};
#[allow(unused_imports)]
use crate::{log_entry, text};
use crate::string_map::{StringMap, StringSet};

verus! {

/// What is known of a domain whose crawl has not ended.
pub struct DomainProgress {
    searched_paths: StringSet,
    queued_paths: StringMap<usize>,
}

/// View of a [`DomainProgress`].
#[verifier::ext_equal]
pub struct DomainProgressView {
    /// The paths that were searched.
    pub searched: Set<Seq<char>>,
    /// The paths that are to be searched, with their depths.
    pub queued: Map<Seq<char>, usize>,
}

impl View for DomainProgress {
    type V = DomainProgressView;

    closed spec fn view(&self) -> DomainProgressView {
        DomainProgressView { searched: self.searched_paths@, queued: self.queued_paths@ }
    }
}

impl DomainProgressView {
    /// Nothing found, nothing searched.
    pub open spec fn new() -> DomainProgressView {
        DomainProgressView { searched: Set::empty(), queued: Map::empty() }
    }

    /// A path is to be searched, unless it was searched before.
    pub open spec fn queue_path(self, path: Seq<char>, depth: usize) -> DomainProgressView {
        if self.searched.contains(path) {
            self
        } else {
            DomainProgressView { queued: self.queued.insert(path, depth), ..self }
        }
    }

    /// A path was searched, and is no longer to be searched.
    pub open spec fn mark_searched(self, path: Seq<char>) -> DomainProgressView {
        DomainProgressView {
            searched: self.searched.insert(path),
            queued: self.queued.remove(path),
        }
    }
}

impl DomainProgress {
    /// Both collections are well formed.
    pub closed spec fn wf(&self) -> bool {
        self.searched_paths.wf() && self.queued_paths.wf()
    }

    /// The set of searched paths.
    pub fn searched_paths(&self) -> (r: &StringSet)
        requires
            self.wf(),
        ensures
            r.wf(),
            r@ == self@.searched,
    {
        &self.searched_paths
    }

    /// The map of queued paths to their depths.
    pub fn queued_paths(&self) -> (r: &StringMap<usize>)
        requires
            self.wf(),
        ensures
            r.wf(),
            r@ == self@.queued,
    {
        &self.queued_paths
    }

    /// Marks a path as queued with the given depth; a searched path is left alone.
    pub fn queue_path(&mut self, path: String, depth: usize)
        requires
            old(self).wf(),
        ensures
            final(self).wf(),
            final(self)@ == old(self)@.queue_path(path@, depth),
    {
        if !self.searched_paths.contains(path.as_str()) {
            self.queued_paths.insert(path, depth);
        }
    }

    /// Marks a path as searched; it is no longer queued.
    pub fn mark_searched(&mut self, path: &str)
        requires
            old(self).wf(),
        ensures
            final(self).wf(),
            final(self)@ == old(self)@.mark_searched(path@),
    {
        let _ = self.searched_paths.insert(path.to_string());
        self.queued_paths.remove(path);
    }
}

impl Default for DomainProgress {
    fn default() -> (r: DomainProgress)
        ensures
            r.wf(),
            r@ == DomainProgressView::new(),
    {
        DomainProgress { searched_paths: StringSet::new(), queued_paths: StringMap::new() }
    }
}

/// The state of a crawl, as the progress log tells it.
pub struct CrawlState {
    in_progress: StringMap<DomainProgress>,
    completed: StringMap<CompletionReason>,
}

/// The views of the domains in progress.
pub open spec fn progress_views(m: Map<Seq<char>, DomainProgress>) -> Map<
    Seq<char>,
    DomainProgressView,
> {
    m.map_values(|p: DomainProgress| p@)
}

/// The views of the completion reasons.
pub open spec fn reason_views(m: Map<Seq<char>, CompletionReason>) -> Map<Seq<char>, ReasonView> {
    m.map_values(|r: CompletionReason| r@)
}

/// View of a [`CrawlState`].
#[verifier::ext_equal]
pub struct CrawlStateView {
    /// The domains whose crawl started and has not ended.
    pub in_progress: Map<Seq<char>, DomainProgressView>,
    /// The domains whose crawl ended, and why.
    pub completed: Map<Seq<char>, ReasonView>,
    /// The completed domains, in the order in which they were completed first.
    pub order: Seq<Seq<char>>,
}

impl View for CrawlState {
    type V = CrawlStateView;

    closed spec fn view(&self) -> CrawlStateView {
        CrawlStateView {
            in_progress: progress_views(self.in_progress@),
            completed: reason_views(self.completed@),
            order: self.completed.keys(),
        }
    }
}

impl CrawlStateView {
    /// No domain is known.
    pub open spec fn new() -> CrawlStateView {
        CrawlStateView { in_progress: Map::empty(), completed: Map::empty(), order: Seq::empty() }
    }

    /// The crawl of a domain starts, with nothing known of it, or goes on with
    /// what is known of it.
    pub open spec fn start_domain(self, domain: Seq<char>) -> CrawlStateView {
        if self.in_progress.contains_key(domain) {
            self
        } else {
            CrawlStateView {
                in_progress: self.in_progress.insert(domain, DomainProgressView::new()),
                ..self
            }
        }
    }

    /// A path of a domain in progress is to be searched.
    pub open spec fn queue_path(
        self,
        domain: Seq<char>,
        path: Seq<char>,
        depth: usize,
    ) -> CrawlStateView {
        if self.in_progress.contains_key(domain) {
            CrawlStateView {
                in_progress: self.in_progress.insert(
                    domain,
                    self.in_progress[domain].queue_path(path, depth),
                ),
                ..self
            }
        } else {
            self
        }
    }

    /// A path of a domain in progress was searched.
    pub open spec fn mark_searched(self, domain: Seq<char>, path: Seq<char>) -> CrawlStateView {
        if self.in_progress.contains_key(domain) {
            CrawlStateView {
                in_progress: self.in_progress.insert(
                    domain,
                    self.in_progress[domain].mark_searched(path),
                ),
                ..self
            }
        } else {
            self
        }
    }

    /// The crawl of a domain ended.
    pub open spec fn complete_domain(
        self,
        domain: Seq<char>,
        reason: ReasonView,
    ) -> CrawlStateView {
        CrawlStateView {
            in_progress: self.in_progress.remove(domain),
            completed: self.completed.insert(domain, reason),
            order: if self.completed.contains_key(domain) {
                self.order
            } else {
                self.order.push(domain)
            },
        }
    }

    /// What an entry of the log tells.
    pub open spec fn apply(self, entry: LogEntryView) -> CrawlStateView {
        match entry {
            LogEntryView::Started(domain) => self.start_domain(domain),
            LogEntryView::Queued { domain, path, depth } => self.queue_path(domain, path, depth),
            LogEntryView::Searched { domain, path } => self.mark_searched(domain, path),
            LogEntryView::Completed { domain, reason } => self.complete_domain(domain, reason),
        }
    }

    /// What a line of the log tells: nothing, if it is no entry.
    pub open spec fn apply_line(self, line: Seq<char>) -> CrawlStateView {
        match log_entry::parse_entry(line) {
            Some(entry) => self.apply(entry),
            None => self,
        }
    }
}

/// The state that the lines of a log tell, one after the other.
pub open spec fn replay(lines: Seq<Seq<char>>) -> CrawlStateView
    decreases lines.len(),
{
    if lines.len() == 0 {
        CrawlStateView::new()
    } else {
        replay(lines.drop_last()).apply_line(lines.last())
    }
}

/// The views of a list of strings.
pub open spec fn string_views(v: Seq<String>) -> Seq<Seq<char>> {
    v.map_values(|s: String| s@)
}

impl CrawlState {
    /// Every collection is well formed.
    pub closed spec fn wf(&self) -> bool {
        &&& self.in_progress.wf()
        &&& self.completed.wf()
        &&& forall|d: Seq<char>| #[trigger]
            self.in_progress@.contains_key(d) ==> self.in_progress@[d].wf()
    }

    /// Whether the domain is completed, so that it is not crawled again.
    pub fn should_skip(&self, domain: &str) -> (r: bool)
        ensures
            r == self@.completed.contains_key(domain@),
    {
        self.completed.contains_key(domain)
    }

    /// The domains in progress.
    pub fn in_progress(&self) -> (r: &StringMap<DomainProgress>)
        requires
            self.wf(),
        ensures
            r.wf(),
            forall|d: Seq<char>| #[trigger] r@.contains_key(d) ==> r@[d].wf(),
            progress_views(r@) == self@.in_progress,
    {
        &self.in_progress
    }

    /// The completed domains.
    pub fn completed(&self) -> (r: &StringMap<CompletionReason>)
        requires
            self.wf(),
        ensures
            r.wf(),
            reason_views(r@) == self@.completed,
            r.keys() == self@.order,
    {
        &self.completed
    }

    /// Records that the crawl of a domain started; one in progress is left alone.
    pub fn start_domain(&mut self, domain: String)
        requires
            old(self).wf(),
        ensures
            final(self).wf(),
            final(self)@ == old(self)@.start_domain(domain@),
    {
        let ghost before = *self;
        if !self.in_progress.contains_key(domain.as_str()) {
            self.in_progress.insert(domain, DomainProgress::default());
        }
        assert(self@.in_progress =~= before@.start_domain(domain@).in_progress);
    }

    /// Records that a path of a domain was queued.
    pub fn queue_path(&mut self, domain: &str, path: String, depth: usize)
        requires
            old(self).wf(),
        ensures
            final(self).wf(),
            final(self)@ == old(self)@.queue_path(domain@, path@, depth),
    {
        let ghost before = *self;
        if let Some(progress) = self.in_progress.get_mut(domain) {
            progress.queue_path(path, depth);
        }
        assert(self@.in_progress =~= before@.queue_path(domain@, path@, depth).in_progress);
    }

    /// Records that a path of a domain was searched.
    pub fn mark_searched(&mut self, domain: &str, path: &str)
        requires
            old(self).wf(),
        ensures
            final(self).wf(),
            final(self)@ == old(self)@.mark_searched(domain@, path@),
    {
        let ghost before = *self;
        if let Some(progress) = self.in_progress.get_mut(domain) {
            progress.mark_searched(path);
        }
        assert(self@.in_progress =~= before@.mark_searched(domain@, path@).in_progress);
    }

    /// Records that the crawl of a domain ended.
    pub fn complete_domain(&mut self, domain: String, reason: CompletionReason)
        requires
            old(self).wf(),
        ensures
            final(self).wf(),
            final(self)@ == old(self)@.complete_domain(domain@, reason@),
    {
        let ghost before = *self;
        self.in_progress.remove(domain.as_str());
        self.completed.insert(domain, reason);
        assert(self@.in_progress =~= before@.complete_domain(domain@, reason@).in_progress);
        assert(self@.completed =~= before@.complete_domain(domain@, reason@).completed);
    }

    /// Records what an entry of the log tells.
    pub fn apply(&mut self, entry: LogEntry)
        requires
            old(self).wf(),
        ensures
            final(self).wf(),
            final(self)@ == old(self)@.apply(entry@),
    {
        match entry {
            LogEntry::Started(domain) => self.start_domain(domain),
            LogEntry::Queued { domain, path, depth } => self.queue_path(
                domain.as_str(),
                path,
                depth,
            ),
            LogEntry::Searched { domain, path } => self.mark_searched(
                domain.as_str(),
                path.as_str(),
            ),
            LogEntry::Completed { domain, reason } => self.complete_domain(domain, reason),
        }
    }
}

impl Default for CrawlState {
    fn default() -> (r: CrawlState)
        ensures
            r.wf(),
            r@ == CrawlStateView::new(),
    {
        let r = CrawlState { in_progress: StringMap::new(), completed: StringMap::new() };
        assert(r@.in_progress =~= Map::empty());
        assert(r@.completed =~= Map::empty());
        r
    }
}

/// The state that the lines of a progress log tell.
///
/// A line that is no entry is skipped.
pub fn load_progress(lines: &Vec<String>) -> (r: CrawlState)
    ensures
        r.wf(),
        r@ == replay(string_views(lines@)),
{
    let mut state = CrawlState::default();
    let mut i: usize = 0;
    let ghost views = string_views(lines@);
    assert(views.take(0) =~= Seq::empty());
    while i < lines.len()
        invariant
            i <= lines.len(),
            views == string_views(lines@),
            state.wf(),
            state@ == replay(views.take(i as int)),
        decreases lines.len() - i,
    {
        assert(views.take(i + 1).drop_last() =~= views.take(i as int));
        assert(views.take(i + 1).last() == lines@[i as int]@);
        if let Ok(entry) = LogEntry::from_str(lines[i].as_str()) {
            state.apply(entry);
        }
        i += 1;
    }
    assert(views.take(i as int) =~= views);
    state
}

/// The state that entries tell, one after the other.
pub open spec fn apply_all(entries: Seq<LogEntryView>) -> CrawlStateView
    decreases entries.len(),
{
    if entries.len() == 0 {
        CrawlStateView::new()
    } else {
        apply_all(entries.drop_last()).apply(entries.last())
    }
}

/// The lines to which entries are written.
pub open spec fn entry_lines(entries: Seq<LogEntryView>) -> Seq<Seq<char>> {
    entries.map_values(|e: LogEntryView| log_entry::entry_text(e))
}

/// The domain that an entry is about.
pub open spec fn entry_domain(entry: LogEntryView) -> Seq<char> {
    match entry {
        LogEntryView::Started(domain) => domain,
        LogEntryView::Queued { domain, .. } => domain,
        LogEntryView::Searched { domain, .. } => domain,
        LogEntryView::Completed { domain, .. } => domain,
    }
}

/// Whether a path of a domain is to be searched.
pub open spec fn is_pending(state: CrawlStateView, domain: Seq<char>, path: Seq<char>) -> bool {
    state.in_progress.contains_key(domain) && state.in_progress[domain].queued.contains_key(path)
}

/// How many paths of a domain that is not completed are to be searched.
pub open spec fn pending_pages(state: CrawlStateView, domain: Seq<char>) -> nat {
    if state.in_progress.contains_key(domain) && !state.completed.contains_key(domain) {
        state.in_progress[domain].queued.dom().len()
    } else {
        0
    }
}

/// The text that entries are written to, each with its line end.
pub open spec fn written_text(entries: Seq<LogEntryView>) -> Seq<char>
    decreases entries.len(),
{
    if entries.len() == 0 {
        Seq::empty()
    } else {
        written_text(entries.drop_last()) + (log_entry::entry_text(entries.last()) + "\n"@)
    }
}

/// The state that the text of a log tells.
pub open spec fn replay_text(log: Seq<char>) -> CrawlStateView {
    replay(text::text_lines(log))
}

/// An entry that is written at the end of a log adds what it tells.
pub proof fn law_append_entry(log: Seq<char>, entry: LogEntryView)
    requires
        text::is_ended(log),
        log_entry::fits_line(entry),
    ensures
        replay_text(log + (log_entry::entry_text(entry) + "\n"@)) == replay_text(log).apply(entry),
        text::is_ended(log + (log_entry::entry_text(entry) + "\n"@)),
{
    let lines = text::text_lines(log);
    let line = log_entry::entry_text(entry);
    log_entry::law_entry_roundtrip(entry);
    log_entry::lemma_append_entry_line(log, entry);
    assert(lines.push(line).drop_last() =~= lines);
}

/// The lines of a written log are the notations of its entries, one for each.
pub proof fn law_lines_of_written_log(entries: Seq<LogEntryView>)
    requires
        forall|i: int| 0 <= i < entries.len() ==> log_entry::fits_line(#[trigger] entries[i]),
    ensures
        text::text_lines(written_text(entries)) == entry_lines(entries),
        text::is_ended(written_text(entries)),
    decreases entries.len(),
{
    let lines = entry_lines(entries);
    if entries.len() == 0 {
        assert(text::text_lines(written_text(entries)) =~= lines);
    } else {
        let before = entries.drop_last();
        assert forall|i: int| 0 <= i < before.len() implies log_entry::fits_line(
            #[trigger] before[i],
        ) by {
            assert(before[i] == entries[i]);
        }
        law_lines_of_written_log(before);
        assert(log_entry::fits_line(entries[entries.len() - 1]));
        log_entry::lemma_append_entry_line(written_text(before), entries.last());
        assert(lines =~= entry_lines(before).push(log_entry::entry_text(entries.last())));
    }
}

/// A log of written entries is replayed to what the entries tell: nothing of a
/// crawl is lost when it is interrupted after any of them.
pub proof fn law_replay_of_written_log(entries: Seq<LogEntryView>)
    requires
        forall|i: int| 0 <= i < entries.len() ==> log_entry::fits_line(#[trigger] entries[i]),
    ensures
        replay_text(written_text(entries)) == apply_all(entries),
    decreases entries.len(),
{
    if entries.len() == 0 {
        assert(text::text_lines(written_text(entries)) =~= Seq::empty());
    } else {
        let before = entries.drop_last();
        assert forall|i: int| 0 <= i < before.len() implies log_entry::fits_line(
            #[trigger] before[i],
        ) by {
            assert(before[i] == entries[i]);
        }
        law_replay_of_written_log(before);
        law_lines_of_written_log(before);
        assert(log_entry::fits_line(entries[entries.len() - 1]));
        law_append_entry(written_text(before), entries.last());
    }
}

/// A line that is no entry changes nothing, wherever in a log it stands.
pub proof fn law_other_lines_are_skipped(
    lines: Seq<Seq<char>>,
    line: Seq<char>,
    more: Seq<Seq<char>>,
)
    requires
        log_entry::parse_entry(line) is None,
    ensures
        replay(lines.push(line) + more) == replay(lines + more),
    decreases more.len(),
{
    let with = lines.push(line) + more;
    if more.len() == 0 {
        assert(with =~= lines.push(line));
        assert(with.drop_last() =~= lines);
        assert(lines + more =~= lines);
    } else {
        let rest = more.drop_last();
        law_other_lines_are_skipped(lines, line, rest);
        assert(with.drop_last() =~= lines.push(line) + rest);
        assert((lines + more).drop_last() =~= lines + rest);
    }
}

/// A completed domain is skipped, however the log goes on.
pub proof fn law_completed_stays_completed(
    lines: Seq<Seq<char>>,
    more: Seq<Seq<char>>,
    domain: Seq<char>,
)
    requires
        replay(lines).completed.contains_key(domain),
    ensures
        replay(lines + more).completed.contains_key(domain),
    decreases more.len(),
{
    if more.len() == 0 {
        assert(lines + more =~= lines);
    } else {
        law_completed_stays_completed(lines, more.drop_last(), domain);
        assert((lines + more).drop_last() =~= lines + more.drop_last());
    }
}

/// A completion ends the crawl of the domain and is what is known of it.
pub proof fn law_completion_ends_domain(
    state: CrawlStateView,
    domain: Seq<char>,
    reason: ReasonView,
)
    ensures
        ({
            let after = state.apply(LogEntryView::Completed { domain, reason });
            &&& after.completed.contains_key(domain)
            &&& after.completed[domain] == reason
            &&& !after.in_progress.contains_key(domain)
        }),
{
}

/// A path that was searched is known as searched, and is not to be searched again.
pub proof fn law_searched_is_not_pending(
    state: CrawlStateView,
    domain: Seq<char>,
    path: Seq<char>,
)
    ensures
        ({
            let after = state.apply(LogEntryView::Searched { domain, path });
            &&& !is_pending(after, domain, path)
            &&& state.in_progress.contains_key(domain) ==> after.in_progress.contains_key(domain)
                && after.in_progress[domain].searched.contains(path)
        }),
{
}

/// A path that was found while its domain is in progress, and was not searched
/// before, is to be searched.
pub proof fn law_queued_is_pending(
    state: CrawlStateView,
    domain: Seq<char>,
    path: Seq<char>,
    depth: usize,
)
    requires
        state.in_progress.contains_key(domain),
        !state.in_progress[domain].searched.contains(path),
    ensures
        ({
            let after = state.apply(LogEntryView::Queued { domain, path, depth });
            &&& is_pending(after, domain, path)
            &&& after.in_progress[domain].queued[path] == depth
        }),
{
}

/// A path stays to be searched until it is searched, or its domain is completed.
pub proof fn law_pending_until_searched(
    state: CrawlStateView,
    entry: LogEntryView,
    domain: Seq<char>,
    path: Seq<char>,
)
    requires
        is_pending(state, domain, path),
    ensures
        is_pending(state.apply(entry), domain, path) <==> !(match entry {
            LogEntryView::Started(_) => false,
            LogEntryView::Queued { .. } => false,
            LogEntryView::Searched { domain: d, path: p } => d == domain && p == path,
            LogEntryView::Completed { domain: d, .. } => d == domain,
        }),
{
}

/// A path stays searched until its domain is completed.
pub proof fn law_searched_stays_searched(
    state: CrawlStateView,
    entry: LogEntryView,
    domain: Seq<char>,
    path: Seq<char>,
)
    requires
        state.in_progress.contains_key(domain),
        state.in_progress[domain].searched.contains(path),
        !(entry matches LogEntryView::Completed { domain: d, .. } && d == domain),
    ensures
        state.apply(entry).in_progress.contains_key(domain),
        state.apply(entry).in_progress[domain].searched.contains(path),
{
}

/// Starting a domain in progress again, as the first page after a restart does,
/// keeps all that is known.
pub proof fn law_starting_again_keeps_progress(log: Seq<char>, domain: Seq<char>)
    requires
        text::is_ended(log),
        replay_text(log).in_progress.contains_key(domain),
        log_entry::fits_line(LogEntryView::Started(domain)),
    ensures
        replay_text(log + (log_entry::entry_text(LogEntryView::Started(domain)) + "\n"@))
            == replay_text(log),
{
    law_append_entry(log, LogEntryView::Started(domain));
}

/// Whatever the log, no path of a domain in progress is both searched and to be
/// searched.
pub proof fn law_searched_is_never_queued(
    lines: Seq<Seq<char>>,
    domain: Seq<char>,
    path: Seq<char>,
)
    requires
        replay(lines).in_progress.contains_key(domain),
    ensures
        !(replay(lines).in_progress[domain].searched.contains(path)
            && replay(lines).in_progress[domain].queued.contains_key(path)),
    decreases lines.len(),
{
    if lines.len() > 0 {
        let before = lines.drop_last();
        if replay(before).in_progress.contains_key(domain) {
            law_searched_is_never_queued(before, domain, path);
        }
    }
}

/// A path becomes one to be searched only by an entry that says so.
pub proof fn law_pending_was_queued(
    state: CrawlStateView,
    entry: LogEntryView,
    domain: Seq<char>,
    path: Seq<char>,
)
    requires
        !is_pending(state, domain, path),
        is_pending(state.apply(entry), domain, path),
    ensures
        entry matches LogEntryView::Queued { domain: d, path: p, .. } && d == domain && p == path,
{
}

/// An entry says nothing of another domain.
pub proof fn law_entry_is_about_its_domain(
    state: CrawlStateView,
    entry: LogEntryView,
    other: Seq<char>,
)
    requires
        other != entry_domain(entry),
    ensures
        state.apply(entry).in_progress.contains_key(other) == state.in_progress.contains_key(other),
        state.in_progress.contains_key(other) ==> state.apply(entry).in_progress[other]
            == state.in_progress[other],
        state.apply(entry).completed.contains_key(other) == state.completed.contains_key(other),
        state.completed.contains_key(other) ==> state.apply(entry).completed[other]
            == state.completed[other],
{
}

/// The order lists every completed domain once.
pub proof fn law_order_lists_completed(lines: Seq<Seq<char>>)
    ensures
        replay(lines).order.no_duplicates(),
        replay(lines).order.to_set() == replay(lines).completed.dom(),
    decreases lines.len(),
{
    if lines.len() == 0 {
        assert(replay(lines).order.to_set() =~= replay(lines).completed.dom());
    } else {
        let before = replay(lines.drop_last());
        law_order_lists_completed(lines.drop_last());
        let after = replay(lines);
        if let Some(LogEntryView::Completed { domain, reason }) = log_entry::parse_entry(
            lines.last(),
        ) {
            assert(before.order.contains(domain) <==> before.order.to_set().contains(domain));
            if !before.completed.contains_key(domain) {
                assert forall|d: Seq<char>| after.order.contains(d) <==> after.completed.dom().contains(d) by {
                    if d == domain {
                        assert(after.order[before.order.len() as int] == d);
                    } else if after.completed.dom().contains(d) {
                        assert(before.order.to_set().contains(d));
                        let i = choose|i: int| 0 <= i < before.order.len() && before.order[i] == d;
                        assert(after.order[i] == d);
                    } else if after.order.contains(d) {
                        let i = choose|i: int| 0 <= i < after.order.len() && after.order[i] == d;
                        assert(before.order[i] == d);
                        assert(before.order.to_set().contains(d));
                    }
                }
            }
            assert(after.order.to_set() =~= after.completed.dom());
        }
    }
}

/// An empty log tells nothing, and each further line adds what its entry tells.
pub proof fn law_replay_line_by_line(
    lines: Seq<Seq<char>>,
    line: Seq<char>,
    entry: LogEntryView,
    domain: Seq<char>,
)
    ensures
        !replay(Seq::empty()).in_progress.contains_key(domain),
        !replay(Seq::empty()).completed.contains_key(domain),
        replay(Seq::empty()).order.len() == 0,
        log_entry::parse_entry(line) == Some(entry) ==> replay(lines.push(line)) == replay(
            lines,
        ).apply(entry),
{
    assert(lines.push(line).drop_last() =~= lines);
}

/// What an entry tells of a domain and a path of it: a domain is in progress
/// from its start to its completion; a path is searched once that is told; and
/// it is queued from when that is told, unless it was searched, until it is
/// searched. All else stays.
#[verifier::rlimit(30)]
pub proof fn law_what_an_entry_tells(
    state: CrawlStateView,
    entry: LogEntryView,
    domain: Seq<char>,
    path: Seq<char>,
)
    ensures
        ({
            let after = state.apply(entry);
            let was = state.in_progress.contains_key(domain);
            let is = after.in_progress.contains_key(domain);
            let searches = entry == (LogEntryView::Searched { domain, path });
            let queues = entry matches LogEntryView::Queued { domain: d, path: p, .. } && d
                == domain && p == path;
            let completes = entry matches LogEntryView::Completed { domain: d, .. } && d == domain;
            let was_searched = was && state.in_progress[domain].searched.contains(path);
            let was_queued = was && state.in_progress[domain].queued.contains_key(path);
            &&& is == ((was || entry == LogEntryView::Started(domain)) && !completes)
            &&& after.completed.contains_key(domain) == (state.completed.contains_key(domain)
                || completes)
            &&& completes ==> after.completed[domain] == entry->Completed_reason
            &&& !completes && state.completed.contains_key(domain) ==> after.completed[domain]
                == state.completed[domain]
            &&& is ==> {
                &&& after.in_progress[domain].searched.contains(path) == (was_searched || (was
                    && searches))
                &&& after.in_progress[domain].queued.contains_key(path) == ((was_queued
                    && !searches) || (was && queues && !was_searched))
                &&& after.in_progress[domain].queued.contains_key(path) ==> {
                    after.in_progress[domain].queued[path] == (if queues && !was_searched {
                        entry->Queued_depth
                    } else {
                        state.in_progress[domain].queued[path]
                    })
                }
            }
        }),
{
}

/// Domains are listed in the order in which they were completed first.
pub proof fn law_order_of_completion(state: CrawlStateView, entry: LogEntryView)
    ensures
        state.apply(entry).order == (match entry {
            LogEntryView::Completed { domain, .. } => if state.completed.contains_key(domain) {
                state.order
            } else {
                state.order.push(domain)
            },
            _ => state.order,
        }),
{
}

} // verus!
