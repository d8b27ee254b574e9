//! Fetching a page or a logo candidate, step by step.
//!
//! A fetch waits for a permit, asks for a URL, looks at the head of the
//! response, reads the rest, and answers with exactly one message.

use vstd::prelude::*;
use vstd::string::*;

use crate::messages::{AsyncToCpu, AsyncToCpuView, LogoContext, LogoContextView};
use crate::text::{contains_text, to_chars};
#[allow(unused_imports)]
use crate::{text, url_utils};

verus! {

/// What is to be fetched.
#[derive(Debug, Clone)]
pub enum FetchTask {
    /// A page.
    Page { domain: String, path: String, depth: usize },
    /// A logo candidate.
    Logo { domain: String, url: String, context: LogoContext },
}

/// View of a [`FetchTask`].
pub enum FetchTaskView {
    Page { domain: Seq<char>, path: Seq<char>, depth: usize },
    Logo { domain: Seq<char>, url: Seq<char>, context: LogoContextView },
}

impl View for FetchTask {
    type V = FetchTaskView;

    open spec fn view(&self) -> FetchTaskView {
        match self {
            FetchTask::Page { domain, path, depth } => FetchTaskView::Page {
                domain: domain@,
                path: path@,
                depth: *depth,
            },
            FetchTask::Logo { domain, url, context } => FetchTaskView::Logo {
                domain: domain@,
                url: url@,
                context: context@,
            },
        }
    }
}

/// The head of a response.
#[derive(Debug, Clone)]
pub struct ResponseHead {
    /// The HTTP status.
    pub status: u16,
    /// The content type, if there is one and it is text.
    pub content_type: Option<String>,
}

/// View of a [`ResponseHead`].
pub struct ResponseHeadView {
    pub status: u16,
    pub content_type: Option<Seq<char>>,
}

impl View for ResponseHead {
    type V = ResponseHeadView;

    open spec fn view(&self) -> ResponseHeadView {
        ResponseHeadView {
            status: self.status,
            content_type: url_utils::text_view(self.content_type),
        }
    }
}

/// The view of a head that there may be.
pub open spec fn head_view(head: Option<ResponseHead>) -> Option<ResponseHeadView> {
    match head {
        Some(head) => Some(head@),
        None => None,
    }
}

/// The rest of a response.
#[derive(Debug, Clone)]
pub enum Content {
    /// Read as text.
    Text(String),
    /// Read as bytes.
    Bytes(Vec<u8>),
    /// It could not be read.
    Unreadable,
}

/// View of a [`Content`].
pub enum ContentView {
    Text(Seq<char>),
    Bytes(Seq<u8>),
    Unreadable,
}

impl View for Content {
    type V = ContentView;

    open spec fn view(&self) -> ContentView {
        match self {
            Content::Text(body) => ContentView::Text(body@),
            Content::Bytes(bytes) => ContentView::Bytes(bytes@),
            Content::Unreadable => ContentView::Unreadable,
        }
    }
}

/// What a fetch does next.
#[derive(Debug)]
pub enum FetchStep {
    /// Ask for a URL.
    Get { url: String },
    /// Read the rest of the response as text.
    ReadText,
    /// Read the rest of the response as bytes.
    ReadBytes,
    /// Answer, and stop.
    Finish(AsyncToCpu),
}

/// View of a [`FetchStep`].
pub enum FetchStepView {
    Get { url: Seq<char> },
    ReadText,
    ReadBytes,
    Finish(AsyncToCpuView),
}

impl View for FetchStep {
    type V = FetchStepView;

    open spec fn view(&self) -> FetchStepView {
        match self {
            FetchStep::Get { url } => FetchStepView::Get { url: url@ },
            FetchStep::ReadText => FetchStepView::ReadText,
            FetchStep::ReadBytes => FetchStepView::ReadBytes,
            FetchStep::Finish(message) => FetchStepView::Finish(message@),
        }
    }
}

/// Whether a status says that a request succeeded.
pub open spec fn is_success(status: u16) -> bool {
    200 <= status < 300
}

/// Whether a content type is that of a page; a response that does not say is
/// taken for a page.
pub open spec fn is_html(content_type: Option<Seq<char>>) -> bool {
    match content_type {
        Some(t) => t.len() == 0 || text::has_text(t, "text/html"@),
        None => true,
    }
}

impl FetchTaskView {
    /// The domain for which something is fetched.
    pub open spec fn domain(self) -> Seq<char> {
        match self {
            FetchTaskView::Page { domain, .. } => domain,
            FetchTaskView::Logo { domain, .. } => domain,
        }
    }

    /// The URL that is asked for.
    pub open spec fn url(self) -> Seq<char> {
        match self {
            FetchTaskView::Page { domain, path, .. } => "https://"@ + domain + path,
            FetchTaskView::Logo { url, .. } => url,
        }
    }

    /// The answer when the fetch fails.
    pub open spec fn failure(self) -> AsyncToCpuView {
        AsyncToCpuView::FetchFailed { domain: self.domain() }
    }

    /// The first step: with a permit, the URL is asked for.
    pub open spec fn start(self, granted: bool) -> FetchStepView {
        if granted {
            FetchStepView::Get { url: self.url() }
        } else {
            FetchStepView::Finish(self.failure())
        }
    }

    /// Whether the response with this head is read on.
    pub open spec fn accepts(self, head: ResponseHeadView) -> bool {
        is_success(head.status) && (self is Page ==> is_html(head.content_type))
    }

    /// The second step: a response that is accepted is read on.
    pub open spec fn respond(self, head: Option<ResponseHeadView>) -> FetchStepView {
        if head is Some && self.accepts(head->0) {
            if self is Page {
                FetchStepView::ReadText
            } else {
                FetchStepView::ReadBytes
            }
        } else {
            FetchStepView::Finish(self.failure())
        }
    }

    /// The last step: what was read is handed on.
    pub open spec fn finish(self, content: ContentView) -> AsyncToCpuView {
        match (self, content) {
            (
                FetchTaskView::Page { domain, path, depth },
                ContentView::Text(body),
            ) => AsyncToCpuView::Html { domain, path, depth, body },
            (
                FetchTaskView::Logo { domain, context, .. },
                ContentView::Bytes(bytes),
            ) => AsyncToCpuView::LogoBitmap { domain, context, bytes },
            _ => self.failure(),
        }
    }

    /// The answer to a fetch as a whole.
    pub open spec fn answer(
        self,
        granted: bool,
        head: Option<ResponseHeadView>,
        content: ContentView,
    ) -> AsyncToCpuView {
        match self.start(granted) {
            FetchStepView::Finish(message) => message,
            _ => match self.respond(head) {
                FetchStepView::Finish(message) => message,
                _ => self.finish(content),
            },
        }
    }
}

/// Whether a content type is that of a page; a response that does not say is
/// taken for a page.
pub fn is_html_type(content_type: &Option<String>) -> (r: bool)
    ensures
        r == is_html(url_utils::text_view(*content_type)),
{
    match content_type {
        Some(t) => {
            let chars = to_chars(t.as_str());
            chars.len() == 0 || contains_text(&chars, "text/html")
        },
        None => true,
    }
}

impl FetchTask {
    /// The URL that is asked for.
    pub fn url(&self) -> (r: String)
        ensures
            r@ == self@.url(),
    {
        match self {
            FetchTask::Page { domain, path, .. } => {
                let mut r = "https://".to_string();
                r.append(domain.as_str());
                r.append(path.as_str());
                r
            },
            FetchTask::Logo { url, .. } => url.clone(),
        }
    }

    /// The answer when the fetch fails.
    pub fn failure(&self) -> (r: AsyncToCpu)
        ensures
            r@ == self@.failure(),
    {
        match self {
            FetchTask::Page { domain, .. } => AsyncToCpu::FetchFailed { domain: domain.clone() },
            FetchTask::Logo { domain, .. } => AsyncToCpu::FetchFailed { domain: domain.clone() },
        }
    }

    /// The first step, once it is known whether there is a permit.
    pub fn start(&self, granted: bool) -> (r: FetchStep)
        ensures
            r@ == self@.start(granted),
    {
        if granted {
            FetchStep::Get { url: self.url() }
        } else {
            FetchStep::Finish(self.failure())
        }
    }

    /// The second step, once there is a response, or the request has failed.
    pub fn respond(&self, head: Option<ResponseHead>) -> (r: FetchStep)
        ensures
            r@ == self@.respond(head_view(head)),
    {
        let head = match head {
            Some(head) => head,
            None => {
                return FetchStep::Finish(self.failure());
            },
        };
        if !(200 <= head.status && head.status < 300) {
            return FetchStep::Finish(self.failure());
        }
        match self {
            FetchTask::Page { .. } => {
                if is_html_type(&head.content_type) {
                    FetchStep::ReadText
                } else {
                    FetchStep::Finish(self.failure())
                }
            },
            FetchTask::Logo { .. } => FetchStep::ReadBytes,
        }
    }

    /// The last step, once the rest of the response was read.
    pub fn finish(self, content: Content) -> (r: AsyncToCpu)
        ensures
            r@ == self@.finish(content@),
    {
        match (self, content) {
            (FetchTask::Page { domain, path, depth }, Content::Text(body)) => {
                AsyncToCpu::Html { domain, path, depth, body }
            },
            (FetchTask::Logo { domain, context, .. }, Content::Bytes(bytes)) => {
                AsyncToCpu::LogoBitmap { domain, context, bytes }
            },
            (task, _) => task.failure(),
        }
    }
}

/// A page is delivered if and only if there was a permit, the response
/// succeeded with a page, and its text could be read; else the fetch is
/// answered as failed.
pub proof fn law_page_is_delivered(
    domain: Seq<char>,
    path: Seq<char>,
    depth: usize,
    granted: bool,
    head: Option<ResponseHeadView>,
    content: ContentView,
)
    ensures
        ({
            let answer = (FetchTaskView::Page { domain, path, depth }).answer(
                granted,
                head,
                content,
            );
            let delivered = granted && head is Some && is_success(head->0.status) && is_html(
                head->0.content_type,
            ) && content is Text;
            if delivered {
                answer == (AsyncToCpuView::Html { domain, path, depth, body: content->Text_0 })
            } else {
                answer == (AsyncToCpuView::FetchFailed { domain })
            }
        }),
{
}

/// A logo candidate is delivered if and only if there was a permit, the
/// response succeeded, and its bytes could be read; else the fetch is answered
/// as failed.
pub proof fn law_logo_is_delivered(
    domain: Seq<char>,
    url: Seq<char>,
    context: LogoContextView,
    granted: bool,
    head: Option<ResponseHeadView>,
    content: ContentView,
)
    ensures
        ({
            let answer = (FetchTaskView::Logo { domain, url, context }).answer(
                granted,
                head,
                content,
            );
            if granted && head is Some && is_success(head->0.status) && content is Bytes {
                answer == (AsyncToCpuView::LogoBitmap { domain, context, bytes: content->Bytes_0 })
            } else {
                answer == (AsyncToCpuView::FetchFailed { domain })
            }
        }),
{
}

/// A page is asked for under its path on its domain, and a logo candidate under
/// its URL; without a permit nothing is asked for, and the fetch has failed.
pub proof fn law_what_is_asked_for(
    domain: Seq<char>,
    path: Seq<char>,
    depth: usize,
    url: Seq<char>,
    context: LogoContextView,
)
    ensures
        ({
            let page = FetchTaskView::Page { domain, path, depth };
            let logo = FetchTaskView::Logo { domain, url, context };
            let failed = FetchStepView::Finish(AsyncToCpuView::FetchFailed { domain });
            &&& page.start(true) == (FetchStepView::Get { url: "https://"@ + domain + path })
            &&& logo.start(true) == (FetchStepView::Get { url })
            &&& page.start(false) == failed
            &&& logo.start(false) == failed
        }),
{
}

/// A response is read on exactly if its status is one of success and, for a
/// page, its content type is absent, empty, or has that of HTML in it: a page
/// as text, a logo candidate as bytes. Else the fetch has failed.
pub proof fn law_which_responses_are_read(task: FetchTaskView, head: Option<ResponseHeadView>)
    ensures
        ({
            let html = match head {
                Some(h) => match h.content_type {
                    Some(t) => t.len() == 0 || exists|before: Seq<char>, after: Seq<char>|
                        t == #[trigger] (before + "text/html"@ + after),
                    None => true,
                },
                None => false,
            };
            let success = head is Some && 200 <= head->0.status <= 299;
            task.respond(head) == (match task {
                FetchTaskView::Page { domain, .. } => if success && html {
                    FetchStepView::ReadText
                } else {
                    FetchStepView::Finish(AsyncToCpuView::FetchFailed { domain })
                },
                FetchTaskView::Logo { domain, .. } => if success {
                    FetchStepView::ReadBytes
                } else {
                    FetchStepView::Finish(AsyncToCpuView::FetchFailed { domain })
                },
            })
        }),
{
    if head is Some && head->0.content_type is Some {
        text::law_text_in_text(head->0.content_type->0, "text/html"@);
    }
}

/// What was read is handed on whole, with what was asked for; what could not be
/// read is a failure.
pub proof fn law_what_was_read_is_handed_on(
    domain: Seq<char>,
    path: Seq<char>,
    depth: usize,
    url: Seq<char>,
    context: LogoContextView,
    content: ContentView,
)
    ensures
        (FetchTaskView::Page { domain, path, depth }).finish(content) == (match content {
            ContentView::Text(body) => AsyncToCpuView::Html { domain, path, depth, body },
            _ => AsyncToCpuView::FetchFailed { domain },
        }),
        (FetchTaskView::Logo { domain, url, context }).finish(content) == (match content {
            ContentView::Bytes(bytes) => AsyncToCpuView::LogoBitmap { domain, context, bytes },
            _ => AsyncToCpuView::FetchFailed { domain },
        }),
{
}

} // verus!
