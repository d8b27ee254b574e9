//! The messages that the parts of the crawler exchange.
//!
//! Every message type has a view, in which strings are sequences of characters.

use vstd::prelude::*;

verus! {

/// Where a logo candidate was found; kept while the candidate is fetched.
#[derive(Debug, Clone)]
pub struct LogoContext {
    /// Path of the page on which the candidate stands.
    pub found_on_path: String,
    /// The candidate as the page names it.
    pub candidate_url: String,
}

/// View of a [`LogoContext`].
pub struct LogoContextView {
    pub found_on_path: Seq<char>,
    pub candidate_url: Seq<char>,
}

impl View for LogoContext {
    type V = LogoContextView;

    open spec fn view(&self) -> LogoContextView {
        LogoContextView {
            found_on_path: self.found_on_path@,
            candidate_url: self.candidate_url@,
        }
    }
}

/// Messages from the fetching side to the coordinator.
#[derive(Debug)]
pub enum AsyncToCpu {
    /// A page was fetched.
    Html { domain: String, path: String, depth: usize, body: String },
    /// A logo candidate was fetched.
    LogoBitmap { domain: String, context: LogoContext, bytes: Vec<u8> },
    /// A fetch failed (HTTP error, network error and the like).
    FetchFailed { domain: String },
    /// No more domains will come, and no fetch is under way.
    Eof,
}

/// View of an [`AsyncToCpu`].
pub enum AsyncToCpuView {
    Html { domain: Seq<char>, path: Seq<char>, depth: usize, body: Seq<char> },
    LogoBitmap { domain: Seq<char>, context: LogoContextView, bytes: Seq<u8> },
    FetchFailed { domain: Seq<char> },
    Eof,
}

impl View for AsyncToCpu {
    type V = AsyncToCpuView;

    open spec fn view(&self) -> AsyncToCpuView {
        match self {
            AsyncToCpu::Html { domain, path, depth, body } => AsyncToCpuView::Html {
                domain: domain@,
                path: path@,
                depth: *depth,
                body: body@,
            },
            AsyncToCpu::LogoBitmap { domain, context, bytes } => AsyncToCpuView::LogoBitmap {
                domain: domain@,
                context: context@,
                bytes: bytes@,
            },
            AsyncToCpu::FetchFailed { domain } => AsyncToCpuView::FetchFailed { domain: domain@ },
            AsyncToCpu::Eof => AsyncToCpuView::Eof,
        }
    }
}

/// Messages from the coordinator to the fetching side.
#[derive(Debug, Clone)]
pub enum CpuToAsync {
    /// Fetch a page.
    FetchPath { domain: String, path: String, depth: usize },
    /// Fetch a logo candidate.
    FetchLogo { domain: String, url: String, context: LogoContext },
}

/// View of a [`CpuToAsync`].
pub enum CpuToAsyncView {
    FetchPath { domain: Seq<char>, path: Seq<char>, depth: usize },
    FetchLogo { domain: Seq<char>, url: Seq<char>, context: LogoContextView },
}

impl View for CpuToAsync {
    type V = CpuToAsyncView;

    open spec fn view(&self) -> CpuToAsyncView {
        match self {
            CpuToAsync::FetchPath { domain, path, depth } => CpuToAsyncView::FetchPath {
                domain: domain@,
                path: path@,
                depth: *depth,
            },
            CpuToAsync::FetchLogo { domain, url, context } => CpuToAsyncView::FetchLogo {
                domain: domain@,
                url: url@,
                context: context@,
            },
        }
    }
}

/// The views of a list of requests.
pub open spec fn request_views(work: Seq<CpuToAsync>) -> Seq<CpuToAsyncView> {
    work.map_values(|w: CpuToAsync| w@)
}

/// What a worker is to process.
#[derive(Debug)]
pub enum WorkPayload {
    /// The text of a page.
    Html(String),
    /// The bytes of a logo candidate.
    LogoBitmap { context: LogoContext, bytes: Vec<u8> },
}

/// View of a [`WorkPayload`].
pub enum WorkPayloadView {
    Html(Seq<char>),
    LogoBitmap { context: LogoContextView, bytes: Seq<u8> },
}

impl View for WorkPayload {
    type V = WorkPayloadView;

    open spec fn view(&self) -> WorkPayloadView {
        match self {
            WorkPayload::Html(body) => WorkPayloadView::Html(body@),
            WorkPayload::LogoBitmap { context, bytes } => WorkPayloadView::LogoBitmap {
                context: context@,
                bytes: bytes@,
            },
        }
    }
}

/// Work that the coordinator hands to a worker.
#[derive(Debug)]
pub struct WorkItem {
    pub domain: String,
    pub path: String,
    pub depth: usize,
    pub payload: WorkPayload,
}

/// View of a [`WorkItem`].
pub struct WorkItemView {
    pub domain: Seq<char>,
    pub path: Seq<char>,
    pub depth: usize,
    pub payload: WorkPayloadView,
}

impl View for WorkItem {
    type V = WorkItemView;

    open spec fn view(&self) -> WorkItemView {
        WorkItemView {
            domain: self.domain@,
            path: self.path@,
            depth: self.depth,
            payload: self.payload@,
        }
    }
}

/// A logo that was found and hashed.
#[derive(Debug, Clone)]
pub struct LogoFound {
    pub page_path: String,
    pub logo_url: String,
    pub hash: String,
}

/// View of a [`LogoFound`], and of the record of it in the progress log.
pub struct LogoView {
    pub page_path: Seq<char>,
    pub logo_url: Seq<char>,
    pub hash: Seq<char>,
}

impl View for LogoFound {
    type V = LogoView;

    open spec fn view(&self) -> LogoView {
        LogoView { page_path: self.page_path@, logo_url: self.logo_url@, hash: self.hash@ }
    }
}

/// What a worker found.
#[derive(Debug)]
pub enum WorkerResultPayload {
    /// A page was searched; these requests follow from it.
    Html { searched_path: String, new_work: Vec<CpuToAsync> },
    /// A logo was hashed.
    LogoFound(LogoFound),
    /// The logo candidate was empty.
    LogoEmpty,
}

/// View of a [`WorkerResultPayload`].
pub enum WorkerResultPayloadView {
    Html { searched_path: Seq<char>, new_work: Seq<CpuToAsyncView> },
    LogoFound(LogoView),
    LogoEmpty,
}

impl View for WorkerResultPayload {
    type V = WorkerResultPayloadView;

    open spec fn view(&self) -> WorkerResultPayloadView {
        match self {
            WorkerResultPayload::Html { searched_path, new_work } => WorkerResultPayloadView::Html {
                searched_path: searched_path@,
                new_work: request_views(new_work@),
            },
            WorkerResultPayload::LogoFound(logo) => WorkerResultPayloadView::LogoFound(logo@),
            WorkerResultPayload::LogoEmpty => WorkerResultPayloadView::LogoEmpty,
        }
    }
}

/// A worker's answer to the coordinator.
#[derive(Debug)]
pub struct WorkerResult {
    pub domain: String,
    pub payload: WorkerResultPayload,
}

/// View of a [`WorkerResult`].
pub struct WorkerResultView {
    pub domain: Seq<char>,
    pub payload: WorkerResultPayloadView,
}

impl View for WorkerResult {
    type V = WorkerResultView;

    open spec fn view(&self) -> WorkerResultView {
        WorkerResultView { domain: self.domain@, payload: self.payload@ }
    }
}

} // verus!
