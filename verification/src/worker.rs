//! The work of a worker: searching pages and hashing logos.

use vstd::prelude::*;

use crate::document::{DocumentView, HtmlDocument};
use crate::heuristics::{find_logo_candidates, without_repeats};
use crate::messages::{
    CpuToAsync, CpuToAsyncView, LogoContext, LogoContextView, LogoFound, LogoView, WorkItem,
    WorkItemView, WorkPayload, WorkPayloadView, WorkerResult, WorkerResultPayload,
    WorkerResultPayloadView, WorkerResultView,
};
use crate::url_utils::{
    build_base_url, join_url, normalize_to_internal_path, resolve_logo_url,
};
#[allow(unused_imports)]
use crate::{document, heuristics, messages, progress, url_utils};

verus! {

/// The digit of a number below sixteen.
pub open spec fn hex_digit(n: int) -> char {
    if n < 10 {
        ('0' as int + n) as char
    } else {
        ('a' as int + (n - 10)) as char
    }
}

/// Bytes in hexadecimal, two digits for each.
pub open spec fn hex(bytes: Seq<u8>) -> Seq<char> {
    Seq::new(
        2 * bytes.len(),
        |i: int|
            if i % 2 == 0 {
                hex_digit(bytes[i / 2] as int / 16)
            } else {
                hex_digit(bytes[i / 2] as int % 16)
            },
    )
}

/// Whether a character is a digit or a lower-case letter up to `f`.
pub open spec fn is_hex_digit(c: char) -> bool {
    '0' <= c <= '9' || 'a' <= c <= 'f'
}

/// The digit of a number below sixteen.
fn hex_digit_of(n: u8) -> (r: char)
    requires
        n < 16,
    ensures
        r == hex_digit(n as int),
{
    if n < 10 {
        (48u8 + n) as char
    } else {
        (97u8 + (n - 10)) as char
    }
}

/// Bytes in hexadecimal, two digits for each.
pub fn to_hex(bytes: &Vec<u8>) -> (r: String)
    ensures
        r@ == hex(bytes@),
{
    let mut r = String::new();
    let mut i: usize = 0;
    while i < bytes.len()
        invariant
            i <= bytes.len(),
            r@ == hex(bytes@).take(2 * i as int),
        decreases bytes.len() - i,
    {
        let b = bytes[i];
        r.push(hex_digit_of(b / 16));
        r.push(hex_digit_of(b % 16));
        proof {
            let all = hex(bytes@);
            let k = 2 * i as int;
            assert(k / 2 == i && k % 2 == 0 && (k + 1) / 2 == i && (k + 1) % 2 == 1);
            assert(r@ =~= all.take(k).push(all[k]).push(all[k + 1]));
            assert(all.take(k + 2) =~= all.take(k).push(all[k]).push(all[k + 1]));
        }
        i += 1;
    }
    assert(hex(bytes@).take(2 * i as int) =~= hex(bytes@));
    r
}

/// What `sha2::Sha256` makes of bytes.
pub uninterp spec fn sha256(bytes: Seq<u8>) -> Seq<u8>;

/// `sha2::Sha256`, made by `new`, fed with the bytes by one `update` and read by
/// `finalize`: the digest depends on the bytes alone, and has 32 bytes.
#[verifier::external_body]
pub(crate) fn sha256_digest(bytes: &[u8]) -> (r: Vec<u8>)
    ensures
        r@ == sha256(bytes@),
        r@.len() == 32,
{
    let mut hasher = <sha2::Sha256 as sha2::Digest>::new();
    sha2::Digest::update(&mut hasher, bytes);
    sha2::Digest::finalize(hasher).to_vec()
}

/// The logo that bytes with a digest are.
pub open spec fn hashed_logo(context: LogoContextView, digest: Seq<u8>) -> LogoView {
    LogoView {
        page_path: context.found_on_path,
        logo_url: context.candidate_url,
        hash: hex(digest),
    }
}

/// The answer to a logo candidate.
pub open spec fn logo_result(
    domain: Seq<char>,
    context: LogoContextView,
    bytes: Seq<u8>,
) -> WorkerResultView {
    WorkerResultView {
        domain,
        payload: if bytes.len() == 0 {
            WorkerResultPayloadView::LogoEmpty
        } else {
            WorkerResultPayloadView::LogoFound(hashed_logo(context, sha256(bytes)))
        },
    }
}

/// The logo that bytes with a digest are.
pub fn logo_of_digest(context: LogoContext, digest: &Vec<u8>) -> (r: LogoFound)
    ensures
        r@ == hashed_logo(context@, digest@),
{
    let hash = to_hex(digest);
    LogoFound { page_path: context.found_on_path, logo_url: context.candidate_url, hash }
}

/// Processes a logo candidate: hashes its bytes. The hash has 64 hexadecimal digits.
pub fn process_logo(domain: String, context: LogoContext, bytes: &[u8]) -> (r: WorkerResult)
    ensures
        r@ == logo_result(domain@, context@, bytes@),
        r.domain@ == domain@,
        bytes@.len() == 0 <==> r.payload is LogoEmpty,
        bytes@.len() > 0 ==> (r.payload matches WorkerResultPayload::LogoFound(logo) && logo.hash@
            == hex(sha256(bytes@)) && logo.page_path@ == context.found_on_path@ && logo.logo_url@
            == context.candidate_url@),
        r.payload matches WorkerResultPayload::LogoFound(logo) ==> logo.hash@.len() == 64
            && forall|i: int| 0 <= i < 64 ==> is_hex_digit(#[trigger] logo.hash@[i]),
{
    if bytes.len() == 0 {
        return WorkerResult { domain, payload: WorkerResultPayload::LogoEmpty };
    }
    let digest = sha256_digest(bytes);
    proof {
        law_hex_digits(digest@);
    }
    let logo = logo_of_digest(context, &digest);
    WorkerResult { domain, payload: WorkerResultPayload::LogoFound(logo) }
}

/// What there is in a list of what there may be.
pub open spec fn present(s: Seq<Option<Seq<char>>>) -> Seq<Seq<char>>
    decreases s.len(),
{
    if s.len() == 0 {
        Seq::empty()
    } else {
        match s.last() {
            Some(x) => present(s.drop_last()).push(x),
            None => present(s.drop_last()),
        }
    }
}

/// What each link on a page with the URL `base` leads to: the path of a page of
/// the domain, or nothing.
pub open spec fn link_paths(
    anchors: Seq<Option<Seq<char>>>,
    domain: Seq<char>,
    base: Seq<char>,
) -> Seq<Option<Seq<char>>> {
    anchors.map_values(
        |a: Option<Seq<char>>|
            match a {
                Some(href) => url_utils::internal_path_of_href(href, domain, base),
                None => None,
            },
    )
}

/// The URL that links on a page are relative to: that of the page, or else that
/// of the root page.
pub open spec fn page_base(domain: Seq<char>, path: Seq<char>) -> Option<Seq<char>> {
    match url_utils::base_url_of(domain) {
        Some(root) => match url_utils::joined_url(root.href, path) {
            Some(url) => Some(url.href),
            None => Some(root.href),
        },
        None => None,
    }
}

/// The paths of the pages of the domain that a page links to, each once.
pub open spec fn internal_links(
    anchors: Seq<Option<Seq<char>>>,
    domain: Seq<char>,
    path: Seq<char>,
) -> Seq<Seq<char>> {
    match page_base(domain, path) {
        Some(base) => heuristics::keep_first(present(link_paths(anchors, domain, base))),
        None => Seq::empty(),
    }
}

/// The paths of a list, each once, given what each link leads to.
pub fn distinct_paths(paths: &Vec<Option<String>>) -> (r: Vec<String>)
    ensures
        progress::string_views(r@) == heuristics::keep_first(present(document::attribute_views(paths@))),
{
    let mut all: Vec<String> = Vec::new();
    let ghost views = document::attribute_views(paths@);
    assert(views.take(0) =~= Seq::empty());
    assert(progress::string_views(all@) =~= Seq::empty());
    let mut i: usize = 0;
    while i < paths.len()
        invariant
            i <= paths.len(),
            views == document::attribute_views(paths@),
            progress::string_views(all@) == present(views.take(i as int)),
        decreases paths.len() - i,
    {
        assert(views.take(i + 1).drop_last() =~= views.take(i as int));
        assert(views.take(i + 1).last() == document::attribute_view(paths@[i as int]));
        let ghost before = progress::string_views(all@);
        if let Some(path) = &paths[i] {
            all.push(path.clone());
            assert(progress::string_views(all@) =~= before.push(path@));
        }
        i += 1;
    }
    assert(views.take(i as int) =~= views);
    without_repeats(all)
}

/// Finds the links on a page that lead to pages of the domain; gives each path once.
pub fn extract_internal_links(document: &HtmlDocument, domain: &str, current_path: &str) -> (r: Vec<
    String,
>)
    ensures
        progress::string_views(r@) == internal_links(document@.anchors, domain@, current_path@),
{
    let root = match build_base_url(domain) {
        Some(url) => url,
        None => {
            let none: Vec<String> = Vec::new();
            assert(progress::string_views(none@) =~= Seq::empty());
            return none;
        },
    };
    let base = match join_url(root.href.as_str(), current_path) {
        Some(url) => url,
        None => root,
    };
    let ghost paths_view = link_paths(document@.anchors, domain@, base@.href);
    let mut paths: Vec<Option<String>> = Vec::new();
    let mut i: usize = 0;
    while i < document.anchors.len()
        invariant
            i <= document.anchors.len(),
            paths@.len() == i,
            paths_view == link_paths(document@.anchors, domain@, base@.href),
            forall|j: int| 0 <= j < i ==> document::attribute_view(#[trigger] paths@[j]) == paths_view[j],
        decreases document.anchors.len() - i,
    {
        assert(document@.anchors[i as int] == document::attribute_view(document.anchors@[i as int]));
        let path = match &document.anchors[i] {
            Some(href) => normalize_to_internal_path(href.as_str(), domain, &base),
            None => None,
        };
        paths.push(path);
        i += 1;
    }
    assert(document::attribute_views(paths@) =~= paths_view);
    distinct_paths(&paths)
}

/// The requests for the logo candidates on a page that have a URL.
pub open spec fn logo_requests(
    domain: Seq<char>,
    path: Seq<char>,
    candidates: Seq<Seq<char>>,
    urls: Seq<Option<Seq<char>>>,
) -> Seq<CpuToAsyncView>
    decreases candidates.len(),
{
    if candidates.len() == 0 || urls.len() == 0 {
        Seq::empty()
    } else {
        let before = logo_requests(domain, path, candidates.drop_last(), urls.drop_last());
        match urls.last() {
            Some(url) => before.push(
                CpuToAsyncView::FetchLogo {
                    domain,
                    url,
                    context: LogoContextView {
                        found_on_path: path,
                        candidate_url: candidates.last(),
                    },
                },
            ),
            None => before,
        }
    }
}

/// The requests for pages of a domain.
pub open spec fn path_requests(domain: Seq<char>, links: Seq<Seq<char>>, depth: usize) -> Seq<
    CpuToAsyncView,
> {
    links.map_values(|path: Seq<char>| CpuToAsyncView::FetchPath { domain, path, depth })
}

/// The URLs of the logo candidates on a page.
pub open spec fn logo_urls(
    candidates: Seq<Seq<char>>,
    domain: Seq<char>,
    path: Seq<char>,
) -> Seq<Option<Seq<char>>> {
    candidates.map_values(|c: Seq<char>| url_utils::logo_url_of(c, domain, path))
}

/// The requests that follow from a page: for its logo candidates, then for the
/// pages that it links to, which are one link further from the root.
pub open spec fn page_requests(
    domain: Seq<char>,
    path: Seq<char>,
    depth: usize,
    candidates: Seq<Seq<char>>,
    urls: Seq<Option<Seq<char>>>,
    links: Seq<Seq<char>>,
) -> Seq<CpuToAsyncView> {
    logo_requests(domain, path, candidates, urls) + path_requests(
        domain,
        links,
        (depth + 1) as usize,
    )
}

/// The requests that follow from a page, given what stands on it.
pub open spec fn document_requests(
    domain: Seq<char>,
    path: Seq<char>,
    depth: usize,
    document: DocumentView,
) -> Seq<CpuToAsyncView> {
    let candidates = heuristics::logo_candidates(document);
    page_requests(
        domain,
        path,
        depth,
        candidates,
        logo_urls(candidates, domain, path),
        internal_links(document.anchors, domain, path),
    )
}

/// The answer to a page.
pub open spec fn html_result(
    domain: Seq<char>,
    path: Seq<char>,
    depth: usize,
    body: Seq<char>,
) -> WorkerResultView {
    WorkerResultView {
        domain,
        payload: WorkerResultPayloadView::Html {
            searched_path: path,
            new_work: document_requests(domain, path, depth, document::parsed_document(body)),
        },
    }
}

/// The answer to work.
pub open spec fn work_result(item: WorkItemView) -> WorkerResultView {
    match item.payload {
        WorkPayloadView::Html(body) => html_result(item.domain, item.path, item.depth, body),
        WorkPayloadView::LogoBitmap { context, bytes } => logo_result(item.domain, context, bytes),
    }
}

/// The requests that follow from a page, given the logo candidates on it, their
/// URLs, and the paths that it links to.
pub fn requests_of_page(
    domain: &str,
    path: &str,
    depth: usize,
    candidates: &Vec<String>,
    urls: &Vec<Option<String>>,
    links: &Vec<String>,
) -> (r: Vec<CpuToAsync>)
    requires
        depth < usize::MAX || links@.len() == 0,
        candidates@.len() == urls@.len(),
    ensures
        messages::request_views(r@) == page_requests(
            domain@,
            path@,
            depth,
            progress::string_views(candidates@),
            document::attribute_views(urls@),
            progress::string_views(links@),
        ),
{
    let mut r: Vec<CpuToAsync> = Vec::new();
    let ghost cs = progress::string_views(candidates@);
    let ghost us = document::attribute_views(urls@);
    let ghost ls = progress::string_views(links@);
    assert(messages::request_views(r@) =~= Seq::empty());
    let mut i: usize = 0;
    while i < candidates.len()
        invariant
            i <= candidates.len(),
            candidates@.len() == urls@.len(),
            cs == progress::string_views(candidates@),
            us == document::attribute_views(urls@),
            messages::request_views(r@) == logo_requests(domain@, path@, cs.take(i as int), us.take(i as int)),
        decreases candidates.len() - i,
    {
        assert(cs.take(i + 1).drop_last() =~= cs.take(i as int));
        assert(us.take(i + 1).drop_last() =~= us.take(i as int));
        assert(cs.take(i + 1).last() == candidates@[i as int]@);
        assert(us.take(i + 1).last() == document::attribute_view(urls@[i as int]));
        let ghost before = messages::request_views(r@);
        if let Some(url) = &urls[i] {
            let context = LogoContext {
                found_on_path: path.to_string(),
                candidate_url: candidates[i].clone(),
            };
            let request = CpuToAsync::FetchLogo {
                domain: domain.to_string(),
                url: url.clone(),
                context,
            };
            r.push(request);
            assert(messages::request_views(r@) =~= before.push(request@));
        }
        i += 1;
    }
    assert(cs.take(i as int) =~= cs);
    assert(us.take(i as int) =~= us);
    let ghost logos = messages::request_views(r@);
    let ghost paths = path_requests(domain@, ls, (depth + 1) as usize);
    assert(paths.take(0) =~= Seq::empty());
    let mut k: usize = 0;
    while k < links.len()
        invariant
            k <= links.len(),
            depth < usize::MAX || links@.len() == 0,
            ls == progress::string_views(links@),
            paths == path_requests(domain@, ls, (depth + 1) as usize),
            messages::request_views(r@) == logos + paths.take(k as int),
        decreases links.len() - k,
    {
        let ghost before = messages::request_views(r@);
        let request = CpuToAsync::FetchPath {
            domain: domain.to_string(),
            path: links[k].clone(),
            depth: depth + 1,
        };
        r.push(request);
        proof {
            assert(request@ == paths[k as int]);
            assert(messages::request_views(r@) =~= before.push(request@));
            assert(paths.take(k + 1) =~= paths.take(k as int).push(paths[k as int]));
            assert(messages::request_views(r@) =~= logos + paths.take(k + 1));
        }
        k += 1;
    }
    assert(paths.take(k as int) =~= paths);
    r
}

/// The requests that follow from a page, given what stands on it.
pub fn search_document(domain: &str, path: &str, depth: usize, document: &HtmlDocument) -> (r: Vec<
    CpuToAsync,
>)
    requires
        depth < usize::MAX,
    ensures
        messages::request_views(r@) == document_requests(domain@, path@, depth, document@),
{
    let candidates = find_logo_candidates(document);
    let ghost cs = progress::string_views(candidates@);
    let ghost us = logo_urls(cs, domain@, path@);
    let mut urls: Vec<Option<String>> = Vec::new();
    let mut i: usize = 0;
    while i < candidates.len()
        invariant
            i <= candidates.len(),
            urls@.len() == i,
            cs == progress::string_views(candidates@),
            us == logo_urls(cs, domain@, path@),
            forall|j: int| 0 <= j < i ==> document::attribute_view(#[trigger] urls@[j]) == us[j],
        decreases candidates.len() - i,
    {
        assert(cs[i as int] == candidates@[i as int]@);
        urls.push(resolve_logo_url(candidates[i].as_str(), domain, path));
        i += 1;
    }
    assert(document::attribute_views(urls@) =~= us);
    let links = extract_internal_links(document, domain, path);
    requests_of_page(domain, path, depth, &candidates, &urls, &links)
}

/// Processes a page: finds logo candidates and links.
pub fn process_html(domain: String, path: String, depth: usize, body: &str) -> (r: WorkerResult)
    requires
        depth < usize::MAX,
        body@.len() <= document::MAX_PAGE_CHARS,
    ensures
        r@ == html_result(domain@, path@, depth, body@),
{
    let document = HtmlDocument::parse_document(body);
    let new_work = search_document(domain.as_str(), path.as_str(), depth, &document);
    WorkerResult { domain, payload: WorkerResultPayload::Html { searched_path: path, new_work } }
}

/// Processes one piece of work.
pub fn process_work_item(item: WorkItem) -> (r: WorkerResult)
    requires
        item.payload matches WorkPayload::Html(body) ==> item.depth < usize::MAX && body@.len()
            <= document::MAX_PAGE_CHARS,
    ensures
        r@ == work_result(item@),
{
    match item.payload {
        WorkPayload::Html(body) => process_html(item.domain, item.path, item.depth, body.as_str()),
        WorkPayload::LogoBitmap { context, bytes } => {
            process_logo(item.domain, context, bytes.as_slice())
        },
    }
}

/// Bytes in hexadecimal are digits, two for each byte.
pub proof fn law_hex_digits(bytes: Seq<u8>)
    ensures
        hex(bytes).len() == 2 * bytes.len(),
        forall|i: int| 0 <= i < hex(bytes).len() ==> is_hex_digit(#[trigger] hex(bytes)[i]),
{
    assert forall|i: int| 0 <= i < hex(bytes).len() implies is_hex_digit(
        #[trigger] hex(bytes)[i],
    ) by {
        let b = bytes[i / 2];
        assert(0 <= b as int / 16 < 16 && 0 <= b as int % 16 < 16);
    }
}

/// Different bytes are different in hexadecimal, so logos have the same hash
/// only if they have the same digest.
pub proof fn law_hex_is_injective(a: Seq<u8>, b: Seq<u8>)
    requires
        hex(a) == hex(b),
    ensures
        a == b,
{
    assert(hex(a).len() == 2 * a.len() && hex(b).len() == 2 * b.len());
    assert forall|i: int| 0 <= i < a.len() implies a[i] == b[i] by {
        let k = 2 * i;
        assert(k / 2 == i && k % 2 == 0 && (k + 1) / 2 == i && (k + 1) % 2 == 1);
        assert(hex(a)[k] == hex_digit(a[k / 2] as int / 16));
        assert(hex(b)[k] == hex_digit(b[k / 2] as int / 16));
        assert(hex(a)[k + 1] == hex_digit(a[(k + 1) / 2] as int % 16));
        assert(hex(b)[k + 1] == hex_digit(b[(k + 1) / 2] as int % 16));
    }
    assert(a =~= b);
}

proof fn lemma_present(s: Seq<Option<Seq<char>>>, x: Seq<char>)
    ensures
        present(s).contains(x) <==> s.contains(Some(x)),
    decreases s.len(),
{
    if s.len() > 0 {
        let t = s.drop_last();
        lemma_present(t, x);
        let before = present(t);
        let after = present(s);
        if before.contains(x) {
            let i = choose|i: int| 0 <= i < before.len() && before[i] == x;
            assert(after[i] == x);
        }
        if t.contains(Some(x)) {
            let i = choose|i: int| 0 <= i < t.len() && t[i] == Some(x);
            assert(s[i] == Some(x));
        }
        if s.last() == Some(x) {
            assert(s[s.len() - 1] == Some(x));
            assert(after[before.len() as int] == x);
        } else {
            if after.contains(x) {
                let i = choose|i: int| 0 <= i < after.len() && after[i] == x;
                assert(i < before.len());
                assert(before[i] == x);
            }
            if s.contains(Some(x)) {
                let i = choose|i: int| 0 <= i < s.len() && s[i] == Some(x);
                assert(t[i] == Some(x));
            }
        }
    }
}

/// The links of a page are the pages of the domain that its anchors lead to,
/// each once.
pub proof fn law_links_are_what_anchors_lead_to(
    anchors: Seq<Option<Seq<char>>>,
    domain: Seq<char>,
    path: Seq<char>,
    base: Seq<char>,
    link: Seq<char>,
)
    requires
        page_base(domain, path) == Some(base),
    ensures
        internal_links(anchors, domain, path).no_duplicates(),
        internal_links(anchors, domain, path).contains(link) <==> exists|i: int|
            0 <= i < anchors.len() && (#[trigger] anchors[i] matches Some(href)
                && url_utils::internal_path_of_href(href, domain, base) == Some(link)),
{
    let paths = link_paths(anchors, domain, base);
    heuristics::law_kept_are_distinct(present(paths));
    heuristics::law_all_are_kept(present(paths), link);
    lemma_present(paths, link);
    if paths.contains(Some(link)) {
        let i = choose|i: int| 0 <= i < paths.len() && paths[i] == Some(link);
        assert(anchors[i] is Some);
    }
    if exists|i: int|
        0 <= i < anchors.len() && (#[trigger] anchors[i] matches Some(href)
            && url_utils::internal_path_of_href(href, domain, base) == Some(link)) {
        let i = choose|i: int|
            0 <= i < anchors.len() && (#[trigger] anchors[i] matches Some(href)
                && url_utils::internal_path_of_href(href, domain, base) == Some(link));
        assert(paths[i] == Some(link));
    }
}

proof fn lemma_logo_requests(
    domain: Seq<char>,
    path: Seq<char>,
    candidates: Seq<Seq<char>>,
    urls: Seq<Option<Seq<char>>>,
    i: int,
)
    requires
        candidates.len() == urls.len(),
        0 <= i < logo_requests(domain, path, candidates, urls).len(),
    ensures
        logo_requests(domain, path, candidates, urls)[i] matches CpuToAsyncView::FetchLogo {
            domain: d,
            url,
            context,
        } && d == domain && context.found_on_path == path && exists|j: int|
            0 <= j < candidates.len() && #[trigger] candidates[j] == context.candidate_url
                && urls[j] == Some(url),
    decreases candidates.len(),
{
    if candidates.len() > 0 {
        let cs = candidates.drop_last();
        let us = urls.drop_last();
        let before = logo_requests(domain, path, cs, us);
        if i < before.len() {
            lemma_logo_requests(domain, path, cs, us, i);
            let request = before[i];
            let context = request->FetchLogo_context;
            let j = choose|j: int|
                0 <= j < cs.len() && #[trigger] cs[j] == context.candidate_url && us[j] == Some(
                    request->FetchLogo_url,
                );
            assert(candidates[j] == context.candidate_url);
        } else {
            assert(candidates[candidates.len() - 1] == candidates.last());
        }
    }
}

/// What a page asks for is of its domain: logos that are candidates on it, and
/// pages that it links to, which are one link further from the root.
pub proof fn law_page_requests(
    domain: Seq<char>,
    path: Seq<char>,
    depth: usize,
    document: DocumentView,
    i: int,
)
    requires
        depth < usize::MAX,
        0 <= i < document_requests(domain, path, depth, document).len(),
    ensures
        match document_requests(domain, path, depth, document)[i] {
            CpuToAsyncView::FetchLogo { domain: d, url, context } => {
                &&& d == domain
                &&& context.found_on_path == path
                &&& heuristics::logo_candidates(document).contains(context.candidate_url)
                &&& url_utils::logo_url_of(context.candidate_url, domain, path) == Some(url)
            },
            CpuToAsyncView::FetchPath { domain: d, path: link, depth: further } => {
                &&& d == domain
                &&& further == depth + 1
                &&& internal_links(document.anchors, domain, path).contains(link)
            },
        },
{
    let candidates = heuristics::logo_candidates(document);
    let urls = logo_urls(candidates, domain, path);
    let links = internal_links(document.anchors, domain, path);
    let logos = logo_requests(domain, path, candidates, urls);
    if i < logos.len() {
        lemma_logo_requests(domain, path, candidates, urls, i);
        let request = logos[i];
        let context = request->FetchLogo_context;
        let j = choose|j: int|
            0 <= j < candidates.len() && #[trigger] candidates[j] == context.candidate_url
                && urls[j] == Some(request->FetchLogo_url);
        assert(urls[j] == url_utils::logo_url_of(candidates[j], domain, path));
    } else {
        assert(links[i - logos.len()] == links[i - logos.len()]);
    }
}

proof fn lemma_logo_requested(
    domain: Seq<char>,
    path: Seq<char>,
    candidates: Seq<Seq<char>>,
    urls: Seq<Option<Seq<char>>>,
    j: int,
)
    requires
        candidates.len() == urls.len(),
        0 <= j < candidates.len(),
        urls[j] is Some,
    ensures
        logo_requests(domain, path, candidates, urls).contains(
            CpuToAsyncView::FetchLogo {
                domain,
                url: urls[j]->0,
                context: LogoContextView { found_on_path: path, candidate_url: candidates[j] },
            },
        ),
    decreases candidates.len(),
{
    let request = CpuToAsyncView::FetchLogo {
        domain,
        url: urls[j]->0,
        context: LogoContextView { found_on_path: path, candidate_url: candidates[j] },
    };
    let before = logo_requests(domain, path, candidates.drop_last(), urls.drop_last());
    let after = logo_requests(domain, path, candidates, urls);
    if j < candidates.len() - 1 {
        lemma_logo_requested(domain, path, candidates.drop_last(), urls.drop_last(), j);
        let i = choose|i: int| 0 <= i < before.len() && before[i] == request;
        assert(after[i] == request);
    } else {
        assert(after[before.len() as int] == request);
    }
}

/// A page asks for every logo candidate that has a URL.
pub proof fn law_candidates_are_requested(
    domain: Seq<char>,
    path: Seq<char>,
    depth: usize,
    document: DocumentView,
    candidate: Seq<char>,
)
    requires
        heuristics::logo_candidates(document).contains(candidate),
        url_utils::logo_url_of(candidate, domain, path) is Some,
    ensures
        document_requests(domain, path, depth, document).contains(
            CpuToAsyncView::FetchLogo {
                domain,
                url: url_utils::logo_url_of(candidate, domain, path)->0,
                context: LogoContextView { found_on_path: path, candidate_url: candidate },
            },
        ),
{
    let candidates = heuristics::logo_candidates(document);
    let urls = logo_urls(candidates, domain, path);
    let logos = logo_requests(domain, path, candidates, urls);
    let j = choose|j: int| 0 <= j < candidates.len() && candidates[j] == candidate;
    lemma_logo_requested(domain, path, candidates, urls, j);
    let request = CpuToAsyncView::FetchLogo {
        domain,
        url: urls[j]->0,
        context: LogoContextView { found_on_path: path, candidate_url: candidate },
    };
    let i = choose|i: int| 0 <= i < logos.len() && logos[i] == request;
    assert(document_requests(domain, path, depth, document)[i] == request);
}

/// A page asks for every page of its domain that it links to.
pub proof fn law_links_are_requested(
    domain: Seq<char>,
    path: Seq<char>,
    depth: usize,
    document: DocumentView,
    link: Seq<char>,
)
    requires
        depth < usize::MAX,
        internal_links(document.anchors, domain, path).contains(link),
    ensures
        document_requests(domain, path, depth, document).contains(
            CpuToAsyncView::FetchPath { domain, path: link, depth: (depth + 1) as usize },
        ),
{
    let candidates = heuristics::logo_candidates(document);
    let logos = logo_requests(domain, path, candidates, logo_urls(candidates, domain, path));
    let links = internal_links(document.anchors, domain, path);
    let j = choose|j: int| 0 <= j < links.len() && links[j] == link;
    assert(document_requests(domain, path, depth, document)[logos.len() + j]
        == (CpuToAsyncView::FetchPath { domain, path: link, depth: (depth + 1) as usize }));
}

/// Work is answered for its domain.
pub proof fn law_result_is_of_its_domain(item: WorkItemView)
    ensures
        work_result(item).domain == item.domain,
{
}

/// The number that a hexadecimal digit stands for.
pub open spec fn hex_value(c: char) -> int {
    if '0' <= c <= '9' {
        c as int - '0' as int
    } else {
        c as int - 'a' as int + 10
    }
}

/// Each byte is written in two digits, the higher one first.
pub proof fn law_hex_of_byte(bytes: Seq<u8>, i: int)
    requires
        0 <= i < bytes.len(),
    ensures
        hex(bytes).len() == 2 * bytes.len(),
        is_hex_digit(hex(bytes)[2 * i]),
        is_hex_digit(hex(bytes)[2 * i + 1]),
        16 * hex_value(hex(bytes)[2 * i]) + hex_value(hex(bytes)[2 * i + 1]) == bytes[i],
{
    law_hex_digits(bytes);
    let k = 2 * i;
    assert(k / 2 == i && k % 2 == 0 && (k + 1) / 2 == i && (k + 1) % 2 == 1);
    assert(hex(bytes)[k] == hex_digit(bytes[k / 2] as int / 16));
    assert(hex(bytes)[k + 1] == hex_digit(bytes[(k + 1) / 2] as int % 16));
    let b = bytes[i] as int;
    assert(16 * (b / 16) + b % 16 == b);
}

/// A logo candidate is reported with the digest of all of its bytes, whatever
/// their number, and with the page and the name under which it was found; an
/// empty one is reported as such.
pub proof fn law_logo_is_reported(domain: Seq<char>, context: LogoContextView, bytes: Seq<u8>)
    ensures
        ({
            let result = work_result(
                WorkItemView {
                    domain,
                    path: context.found_on_path,
                    depth: 0,
                    payload: WorkPayloadView::LogoBitmap { context, bytes },
                },
            );
            &&& result.domain == domain
            &&& result == logo_result(domain, context, bytes)
            &&& bytes.len() == 0 ==> result.payload is LogoEmpty
            &&& bytes.len() > 0 ==> result.payload == WorkerResultPayloadView::LogoFound(
                LogoView {
                    page_path: context.found_on_path,
                    logo_url: context.candidate_url,
                    hash: hex(sha256(bytes)),
                },
            )
        }),
{
}

/// Two logos are reported with the same hash exactly if all of their bytes have
/// the same digest.
pub proof fn law_same_hash_means_same_digest(
    context: LogoContextView,
    a: Seq<u8>,
    b: Seq<u8>,
    domain: Seq<char>,
)
    requires
        a.len() > 0,
        b.len() > 0,
    ensures
        logo_result(domain, context, a).payload == logo_result(domain, context, b).payload
            <==> sha256(a) == sha256(b),
{
    if logo_result(domain, context, a).payload == logo_result(domain, context, b).payload {
        let la = logo_result(domain, context, a).payload->LogoFound_0;
        let lb = logo_result(domain, context, b).payload->LogoFound_0;
        assert(la.hash == lb.hash);
        law_hex_is_injective(sha256(a), sha256(b));
    }
}

/// The answer to a page names the page, and asks for what stands in its whole
/// text; it depends on the page alone.
pub proof fn law_page_is_answered(item: WorkItemView, body: Seq<char>)
    requires
        item.payload == WorkPayloadView::Html(body),
    ensures
        work_result(item) == (WorkerResultView {
            domain: item.domain,
            payload: WorkerResultPayloadView::Html {
                searched_path: item.path,
                new_work: document_requests(
                    item.domain,
                    item.path,
                    item.depth,
                    document::parsed_document(body),
                ),
            },
        }),
        work_result(item) == html_result(item.domain, item.path, item.depth, body),
{
}

/// The URL that links on a page are relative to is that of the page, or that of
/// the root page if the page has none.
pub proof fn law_links_are_relative_to_page(domain: Seq<char>, path: Seq<char>)
    ensures
        page_base(domain, path) == (match url_utils::parsed_url("https://"@ + domain + "/"@) {
            None => None,
            Some(root) => Some(
                match url_utils::joined_url(root.href, path) {
                    Some(page) => page.href,
                    None => root.href,
                },
            ),
        }),
{
}

/// A page of a domain without a URL has no links.
pub proof fn law_no_links_without_url(
    anchors: Seq<Option<Seq<char>>>,
    domain: Seq<char>,
    path: Seq<char>,
)
    requires
        url_utils::parsed_url("https://"@ + domain + "/"@) is None,
    ensures
        internal_links(anchors, domain, path).len() == 0,
{
}

/// A page asks for its logo candidates that have a URL, in their order, and then
/// for each of its links.
pub proof fn law_page_asks_in_order(
    domain: Seq<char>,
    path: Seq<char>,
    depth: usize,
    document: DocumentView,
)
    requires
        depth < usize::MAX,
    ensures
        ({
            let requests = document_requests(domain, path, depth, document);
            let links = internal_links(document.anchors, domain, path);
            let logos = heuristics::logo_candidates(document).filter(
                |c: Seq<char>| url_utils::logo_url_of(c, domain, path) is Some,
            );
            &&& requests.len() == logos.len() + links.len()
            &&& forall|i: int|
                0 <= i < logos.len() ==> #[trigger] requests[i] == (CpuToAsyncView::FetchLogo {
                    domain,
                    url: url_utils::logo_url_of(logos[i], domain, path)->0,
                    context: LogoContextView { found_on_path: path, candidate_url: logos[i] },
                })
            &&& forall|i: int|
                logos.len() <= i < requests.len() ==> #[trigger] requests[i] == (
                CpuToAsyncView::FetchPath {
                    domain,
                    path: links[i - logos.len()],
                    depth: (depth + 1) as usize,
                })
        }),
{
    let candidates = heuristics::logo_candidates(document);
    lemma_logos_in_order(domain, path, candidates);
}

proof fn lemma_logos_in_order(domain: Seq<char>, path: Seq<char>, candidates: Seq<Seq<char>>)
    ensures
        ({
            let some = candidates.filter(
                |c: Seq<char>| url_utils::logo_url_of(c, domain, path) is Some,
            );
            let requests = logo_requests(
                domain,
                path,
                candidates,
                logo_urls(candidates, domain, path),
            );
            &&& requests.len() == some.len()
            &&& forall|i: int|
                0 <= i < some.len() ==> #[trigger] requests[i] == (CpuToAsyncView::FetchLogo {
                    domain,
                    url: url_utils::logo_url_of(some[i], domain, path)->0,
                    context: LogoContextView { found_on_path: path, candidate_url: some[i] },
                })
        }),
    decreases candidates.len(),
{
    reveal(Seq::filter);
    if candidates.len() > 0 {
        let rest = candidates.drop_last();
        lemma_logos_in_order(domain, path, rest);
        assert(logo_urls(candidates, domain, path).drop_last() =~= logo_urls(rest, domain, path));
    }
}

} // verus!
