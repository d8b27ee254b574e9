//! Addresses: which links lead to pages of a domain, and where a logo is.

use vstd::prelude::*;
use vstd::slice::slice_subrange;
use vstd::string::*;

use crate::text::{
    ends_with, from_chars, same_text, starts_with, to_ascii_lower, to_chars, to_lowercase,
    trim_chars,
};
#[allow(unused_imports)]
use crate::text;

verus! {

/// A URL, with the parts of it that the crawler looks at.
#[derive(Debug, Clone, PartialEq, Eq)]
pub struct ParsedUrl {
    /// The URL as text.
    pub href: String,
    /// The scheme, without the colon.
    pub scheme: String,
    /// The host, if there is one.
    pub host: Option<String>,
    /// The path, percent-encoded.
    pub path: String,
}

/// View of a [`ParsedUrl`].
pub struct UrlView {
    pub href: Seq<char>,
    pub scheme: Seq<char>,
    pub host: Option<Seq<char>>,
    pub path: Seq<char>,
}

impl View for ParsedUrl {
    type V = UrlView;

    open spec fn view(&self) -> UrlView {
        UrlView {
            href: self.href@,
            scheme: self.scheme@,
            host: match self.host {
                Some(host) => Some(host@),
                None => None,
            },
            path: self.path@,
        }
    }
}

/// The view of a URL that there may be.
pub open spec fn url_view(url: Option<ParsedUrl>) -> Option<UrlView> {
    match url {
        Some(url) => Some(url@),
        None => None,
    }
}

/// What `url::Url::parse` makes of a text: the URL, or nothing if it is none.
pub uninterp spec fn parsed_url(text: Seq<char>) -> Option<UrlView>;

/// What `url::Url::join` makes of a reference in the URL with the text `base`:
/// the URL, or nothing if it is none or `base` is none.
pub uninterp spec fn joined_url(base: Seq<char>, reference: Seq<char>) -> Option<UrlView>;

/// `url::Url::parse`: the result depends on the text alone. Its scheme, host
/// and path are what `Url` says they are.
#[verifier::external_body]
pub(crate) fn parse_url(text: &str) -> (r: Option<ParsedUrl>)
    ensures
        url_view(r) == parsed_url(text@),
{
    let url = url::Url::parse(text).ok()?;
    Some(
        ParsedUrl {
            href: url.as_str().to_string(),
            scheme: url.scheme().to_string(),
            host: url.host_str().map(String::from),
            path: url.path().to_string(),
        },
    )
}

/// `url::Url::join`, on the URL that a text denotes: the result depends on the
/// two texts alone. Its scheme, host and path are what `Url` says they are.
#[verifier::external_body]
pub(crate) fn join_url(base: &str, reference: &str) -> (r: Option<ParsedUrl>)
    ensures
        url_view(r) == joined_url(base@, reference@),
{
    let url = url::Url::parse(base).ok()?.join(reference).ok()?;
    Some(
        ParsedUrl {
            href: url.as_str().to_string(),
            scheme: url.scheme().to_string(),
            host: url.host_str().map(String::from),
            path: url.path().to_string(),
        },
    )
}

/// Whether a link leads to no page: it is empty, leads elsewhere on the same
/// page, or is not for fetching.
pub open spec fn is_skipped_href(href: Seq<char>) -> bool {
    ||| href.len() == 0
    ||| "javascript:"@.is_prefix_of(href)
    ||| "mailto:"@.is_prefix_of(href)
    ||| "tel:"@.is_prefix_of(href)
    ||| "data:"@.is_prefix_of(href)
    ||| "#"@.is_prefix_of(href)
}

/// What a link on the page with the URL `base` leads to.
pub open spec fn resolved_url(base: Seq<char>, href: Seq<char>) -> Option<UrlView> {
    if is_skipped_href(text::trim(href)) {
        None
    } else {
        joined_url(base, text::trim(href))
    }
}

/// The text of a link that leads to a page: without white space around it.
pub fn followable_href(href: &str) -> (r: Option<String>)
    ensures
        match r {
            Some(t) => !is_skipped_href(text::trim(href@)) && t@ == text::trim(href@),
            None => is_skipped_href(text::trim(href@)),
        },
{
    let all = to_chars(href);
    let chars = trim_chars(&all);
    if chars.len() == 0 || starts_with(chars, "javascript:") || starts_with(chars, "mailto:")
        || starts_with(chars, "tel:") || starts_with(chars, "data:") || starts_with(chars, "#") {
        return None;
    }
    Some(from_chars(chars))
}

/// Resolves a link on a page, which may be relative.
pub fn resolve_url(base: &ParsedUrl, href: &str) -> (r: Option<ParsedUrl>)
    ensures
        url_view(r) == resolved_url(base@.href, href@),
{
    match followable_href(href) {
        Some(reference) => join_url(base.href.as_str(), reference.as_str()),
        None => None,
    }
}

/// `s` without any `www.` at its start.
pub open spec fn strip_www(s: Seq<char>) -> Seq<char>
    decreases s.len(),
{
    if s.len() >= 4 && s.take(4) == seq!['w', 'w', 'w', '.'] {
        strip_www(s.skip(4))
    } else {
        s
    }
}

/// Whether two hosts count as the same domain: but for `www.` at their starts,
/// they differ at most in the case of ASCII letters.
pub open spec fn same_domain(host: Seq<char>, domain: Seq<char>) -> bool {
    text::ascii_lowercase(strip_www(host)) == text::ascii_lowercase(strip_www(domain))
}

/// Removes any `www.` at the start.
fn strip_www_chars(cs: &[char]) -> (r: &[char])
    ensures
        r@ == strip_www(cs@),
{
    let mut rest: &[char] = cs;
    while starts_with(rest, "www.")
        invariant
            strip_www(rest@) == strip_www(cs@),
        decreases rest@.len(),
    {
        proof {
            reveal_strlit("www.");
            assert("www."@ =~= seq!['w', 'w', 'w', '.']);
            assert(rest@.take(4) =~= "www."@);
            assert(rest@.skip(4) =~= rest@.subrange(4, rest@.len() as int));
        }
        rest = slice_subrange(rest, 4, rest.len());
    }
    proof {
        reveal_strlit("www.");
        assert("www."@ =~= seq!['w', 'w', 'w', '.']);
        if rest@.len() >= 4 && rest@.take(4) == seq!['w', 'w', 'w', '.'] {
            assert("www."@ =~= rest@.subrange(0, 4));
        }
    }
    rest
}

/// Whether two hosts count as the same domain.
pub fn is_same_domain(host: &str, domain: &str) -> (r: bool)
    ensures
        r == same_domain(host@, domain@),
{
    let host_chars = to_chars(host);
    let domain_chars = to_chars(domain);
    let a = strip_www_chars(&host_chars);
    let b = strip_www_chars(&domain_chars);
    let ghost la = text::ascii_lowercase(a@);
    let ghost lb = text::ascii_lowercase(b@);
    if a.len() != b.len() {
        assert(la.len() != lb.len());
        return false;
    }
    let mut i: usize = 0;
    while i < a.len()
        invariant
            i <= a.len(),
            a.len() == b.len(),
            a@ == strip_www(host@),
            b@ == strip_www(domain@),
            la == text::ascii_lowercase(a@),
            lb == text::ascii_lowercase(b@),
            forall|j: int| 0 <= j < i ==> la[j] == lb[j],
        decreases a.len() - i,
    {
        if to_ascii_lower(a[i]) != to_ascii_lower(b[i]) {
            assert(la[i as int] != lb[i as int]);
            return false;
        }
        i += 1;
    }
    assert(la =~= lb);
    true
}

/// The endings of paths that lead to no page.
pub open spec fn static_extensions() -> Seq<Seq<char>> {
    seq![
        ".css"@,
        ".js"@,
        ".json"@,
        ".xml"@,
        ".txt"@,
        ".pdf"@,
        ".doc"@,
        ".docx"@,
        ".xls"@,
        ".xlsx"@,
        ".ppt"@,
        ".pptx"@,
        ".zip"@,
        ".tar"@,
        ".gz"@,
        ".rar"@,
        ".7z"@,
        ".mp3"@,
        ".mp4"@,
        ".avi"@,
        ".mov"@,
        ".wmv"@,
        ".flv"@,
        ".webm"@,
        ".ogg"@,
        ".wav"@,
        ".woff"@,
        ".woff2"@,
        ".ttf"@,
        ".eot"@,
        ".otf"@,
    ]
}

/// Whether a path in lower case leads to no page.
pub open spec fn is_static(lower_path: Seq<char>) -> bool {
    exists|i: int|
        0 <= i < static_extensions().len() && (#[trigger] static_extensions()[i]).is_suffix_of(
            lower_path,
        )
}

/// Whether a path in lower case leads to no page.
pub fn is_static_resource(lower_path: &str) -> (r: bool)
    ensures
        r == is_static(lower_path@),
{
    let extensions: Vec<&str> = vec![
        ".css", ".js", ".json", ".xml", ".txt", ".pdf", ".doc", ".docx", ".xls", ".xlsx", ".ppt",
        ".pptx", ".zip", ".tar", ".gz", ".rar", ".7z", ".mp3", ".mp4", ".avi", ".mov", ".wmv",
        ".flv", ".webm", ".ogg", ".wav", ".woff", ".woff2", ".ttf", ".eot", ".otf",
    ];
    let chars = to_chars(lower_path);
    assert(extensions@.map_values(|e: &str| e@) =~= static_extensions());
    let mut i: usize = 0;
    while i < extensions.len()
        invariant
            i <= extensions.len(),
            chars@ == lower_path@,
            extensions@.map_values(|e: &str| e@) == static_extensions(),
            forall|j: int|
                0 <= j < i ==> !(#[trigger] static_extensions()[j]).is_suffix_of(lower_path@),
        decreases extensions.len() - i,
    {
        assert(static_extensions()[i as int] == extensions@[i as int]@);
        if ends_with(&chars, extensions[i]) {
            return true;
        }
        i += 1;
    }
    false
}

/// `s` without the slashes at its end.
pub open spec fn strip_slashes(s: Seq<char>) -> Seq<char>
    decreases s.len(),
{
    if s.len() > 0 && s.last() == '/' {
        strip_slashes(s.drop_last())
    } else {
        s
    }
}

/// The form of a path in which it is compared: with a slash at its start, and
/// none at its end unless it is the root.
pub open spec fn normalized_path(path: Seq<char>) -> Seq<char> {
    let stripped = strip_slashes(text::trim(path));
    if stripped.len() > 0 && stripped[0] == '/' {
        stripped
    } else {
        seq!['/'] + stripped
    }
}

/// Brings a path into its normal form.
pub fn normalize_path(path: &str) -> (r: String)
    ensures
        r@ == normalized_path(path@),
{
    let all = to_chars(path);
    let chars = trim_chars(&all);
    let mut end: usize = chars.len();
    assert(chars@.take(end as int) =~= chars@);
    while end > 0 && chars[end - 1] == '/'
        invariant
            end <= chars.len(),
            strip_slashes(chars@.take(end as int)) == strip_slashes(chars@),
        decreases end,
    {
        assert(chars@.take(end as int).drop_last() =~= chars@.take(end - 1));
        end -= 1;
    }
    let stripped = slice_subrange(chars, 0, end);
    assert(stripped@ =~= chars@.take(end as int));
    if end > 0 && chars[0] == '/' {
        from_chars(stripped)
    } else {
        let mut r = "/".to_string();
        r.append(from_chars(stripped).as_str());
        proof {
            reveal_strlit("/");
            assert("/"@ =~= seq!['/']);
        }
        r
    }
}

/// The path of a page of `domain`, given what a link leads to and its path in
/// lower case; nothing, if the link leads to no page of the domain.
pub open spec fn internal_path_of(
    resolved: UrlView,
    lower_path: Seq<char>,
    domain: Seq<char>,
) -> Option<Seq<char>> {
    match resolved.host {
        Some(host) => if same_domain(host, domain) && (resolved.scheme == "http"@
            || resolved.scheme == "https"@) && !is_static(lower_path) {
            Some(normalized_path(resolved.path))
        } else {
            None
        },
        None => None,
    }
}

/// The path of the page that a link leads to, if it is a page of `domain`.
pub open spec fn internal_path_of_href(
    href: Seq<char>,
    domain: Seq<char>,
    base: Seq<char>,
) -> Option<Seq<char>> {
    match resolved_url(base, href) {
        Some(resolved) => internal_path_of(resolved, text::lowercase(resolved.path), domain),
        None => None,
    }
}

/// The view of a text that there may be.
pub open spec fn text_view(s: Option<String>) -> Option<Seq<char>> {
    match s {
        Some(s) => Some(s@),
        None => None,
    }
}

/// The path of a page of `domain`, given what a link leads to and its path in
/// lower case.
pub fn internal_path(resolved: &ParsedUrl, lower_path: &str, domain: &str) -> (r: Option<String>)
    ensures
        text_view(r) == internal_path_of(resolved@, lower_path@, domain@),
{
    let host = match &resolved.host {
        Some(host) => host,
        None => {
            return None;
        },
    };
    if !is_same_domain(host.as_str(), domain) {
        return None;
    }
    let scheme = to_chars(resolved.scheme.as_str());
    if !same_text(&scheme, "http") && !same_text(&scheme, "https") {
        return None;
    }
    if is_static_resource(lower_path) {
        return None;
    }
    Some(normalize_path(resolved.path.as_str()))
}

/// The path of the page that a link leads to, if it is a page of `domain`.
///
/// A link to another domain, one that is not for fetching and one to a file
/// that is no page give nothing.
pub fn normalize_to_internal_path(href: &str, domain: &str, base_url: &ParsedUrl) -> (r: Option<
    String,
>)
    ensures
        text_view(r) == internal_path_of_href(href@, domain@, base_url@.href),
{
    let resolved = match resolve_url(base_url, href) {
        Some(resolved) => resolved,
        None => {
            return None;
        },
    };
    let lower_path = to_lowercase(resolved.path.as_str());
    internal_path(&resolved, lower_path.as_str(), domain)
}

/// The text of the root page of a domain.
pub open spec fn root_text(domain: Seq<char>) -> Seq<char> {
    "https://"@ + domain + "/"@
}

/// The text of the root page of a domain.
pub fn root_of(domain: &str) -> (r: String)
    ensures
        r@ == root_text(domain@),
{
    let mut r = "https://".to_string();
    r.append(domain);
    r.append("/");
    r
}

/// The URL of the root page of a domain.
pub open spec fn base_url_of(domain: Seq<char>) -> Option<UrlView> {
    parsed_url(root_text(domain))
}

/// The URL of a page of a domain.
pub open spec fn url_of(domain: Seq<char>, path: Seq<char>) -> Option<UrlView> {
    match base_url_of(domain) {
        Some(base) => joined_url(base.href, path),
        None => None,
    }
}

/// Builds the URL of the root page of a domain.
pub fn build_base_url(domain: &str) -> (r: Option<ParsedUrl>)
    ensures
        url_view(r) == base_url_of(domain@),
{
    parse_url(root_of(domain).as_str())
}

/// Builds the URL of a page of a domain.
pub fn build_url(domain: &str, path: &str) -> (r: Option<ParsedUrl>)
    ensures
        url_view(r) == url_of(domain@, path@),
{
    match build_base_url(domain) {
        Some(base) => join_url(base.href.as_str(), path),
        None => None,
    }
}

/// The URL of a logo that is named by a URL, with or without its scheme.
pub open spec fn direct_logo_url_of(href: Seq<char>) -> Option<Seq<char>> {
    if "http://"@.is_prefix_of(href) || "https://"@.is_prefix_of(href) {
        Some(href)
    } else if "//"@.is_prefix_of(href) {
        Some("https:"@ + href)
    } else {
        None
    }
}

/// The URL of a logo that a page names.
pub open spec fn logo_url_of(
    logo_href: Seq<char>,
    domain: Seq<char>,
    page_path: Seq<char>,
) -> Option<Seq<char>> {
    let href = text::trim(logo_href);
    match direct_logo_url_of(href) {
        Some(url) => Some(url),
        None => match url_of(domain, page_path) {
            Some(base) => match resolved_url(base.href, href) {
                Some(resolved) => Some(resolved.href),
                None => None,
            },
            None => None,
        },
    }
}

/// The URL of a logo that is named by a URL, with or without its scheme.
pub fn direct_logo_url(logo_href: &str) -> (r: Option<String>)
    ensures
        text_view(r) == direct_logo_url_of(text::trim(logo_href@)),
{
    let all = to_chars(logo_href);
    let href = trim_chars(&all);
    if starts_with(href, "http://") || starts_with(href, "https://") {
        return Some(from_chars(href));
    }
    if starts_with(href, "//") {
        let mut r = "https:".to_string();
        r.append(from_chars(href).as_str());
        return Some(r);
    }
    None
}

/// Resolves what a page names as a logo, absolute or relative, to a URL.
pub fn resolve_logo_url(logo_href: &str, domain: &str, page_path: &str) -> (r: Option<String>)
    ensures
        text_view(r) == logo_url_of(logo_href@, domain@, page_path@),
{
    if let Some(url) = direct_logo_url(logo_href) {
        return Some(url);
    }
    let all = to_chars(logo_href);
    let href = from_chars(trim_chars(&all));
    let base = match build_url(domain, page_path) {
        Some(base) => base,
        None => {
            return None;
        },
    };
    match resolve_url(&base, href.as_str()) {
        Some(resolved) => Some(resolved.href),
        None => None,
    }
}

proof fn lemma_strip_slashes(s: Seq<char>)
    ensures
        strip_slashes(s).len() <= s.len(),
        strip_slashes(s) == s.take(strip_slashes(s).len() as int),
        strip_slashes(s).len() > 0 ==> strip_slashes(s).last() != '/',
    decreases s.len(),
{
    if s.len() > 0 && s.last() == '/' {
        let t = s.drop_last();
        lemma_strip_slashes(t);
        assert(t.take(strip_slashes(t).len() as int) =~= s.take(strip_slashes(t).len() as int));
    } else {
        assert(s.take(s.len() as int) =~= s);
    }
}

/// A path in normal form starts with a slash, and does not end in one unless
/// it is the root.
pub proof fn law_normal_form(path: Seq<char>)
    ensures
        ({
            let n = normalized_path(path);
            &&& n.len() > 0
            &&& n[0] == '/'
            &&& n.last() == '/' ==> n == seq!['/']
        }),
{
    let stripped = strip_slashes(text::trim(path));
    lemma_strip_slashes(text::trim(path));
    if stripped.len() == 0 {
        assert(normalized_path(path) =~= seq!['/']);
    } else {
        assert(normalized_path(path).last() == stripped.last());
    }
}

/// The normal form of a normal form is that form, exactly when it does not end
/// in white space.
pub proof fn law_normal_form_is_stable(path: Seq<char>)
    ensures
        ({
            let n = normalized_path(path);
            normalized_path(n) == n <==> !text::is_white_space(n.last())
        }),
{
    let n = normalized_path(path);
    law_normal_form(path);
    text::lemma_trim_of_visible_start(n);
    let t = text::trim(n);
    lemma_strip_slashes(t);
    let stripped = strip_slashes(t);
    if text::is_white_space(n.last()) {
        assert(n.len() >= 2);
        if stripped.len() > 0 {
            assert(stripped[0] == t[0]);
        }
        assert(normalized_path(n).len() < n.len());
    } else if n.last() == '/' {
        assert(stripped.len() == 0) by {
            assert(n.drop_last() =~= Seq::empty());
        }
        assert(normalized_path(n) =~= n);
    }
}

/// Being the same domain is an equivalence.
pub proof fn law_same_domain_is_equivalence(a: Seq<char>, b: Seq<char>, c: Seq<char>)
    ensures
        same_domain(a, a),
        same_domain(a, b) == same_domain(b, a),
        same_domain(a, b) && same_domain(b, c) ==> same_domain(a, c),
{
}

/// A `www.` in front of a host does not matter.
pub proof fn law_www_does_not_matter(host: Seq<char>, domain: Seq<char>)
    ensures
        same_domain("www."@ + host, domain) == same_domain(host, domain),
        same_domain(host, "www."@ + domain) == same_domain(host, domain),
{
    lemma_strip_one_www(host);
    lemma_strip_one_www(domain);
}

proof fn lemma_strip_one_www(s: Seq<char>)
    ensures
        strip_www("www."@ + s) == strip_www(s),
{
    reveal_strlit("www.");
    let w = "www."@ + s;
    assert(w.take(4) =~= seq!['w', 'w', 'w', '.']);
    assert(w.skip(4) =~= s);
}

/// A link that is not for fetching leads to no page, whatever page it is on.
pub proof fn law_skipped_links_lead_nowhere(href: Seq<char>, domain: Seq<char>, base: Seq<char>)
    requires
        is_skipped_href(text::trim(href)),
    ensures
        resolved_url(base, href) is None,
        internal_path_of_href(href, domain, base) is None,
{
}

/// A link is followed only to a page of the domain, by HTTP, and under a path
/// in normal form.
pub proof fn law_internal_links_stay_in_domain(
    href: Seq<char>,
    domain: Seq<char>,
    base: Seq<char>,
)
    ensures
        internal_path_of_href(href, domain, base) matches Some(path) ==> {
            &&& path.len() > 0
            &&& path[0] == '/'
            &&& path.last() == '/' ==> path == seq!['/']
            &&& resolved_url(base, href) matches Some(url)
            &&& url.host matches Some(host)
            &&& same_domain(host, domain)
            &&& url.scheme == "http"@ || url.scheme == "https"@
            &&& !is_static(text::lowercase(url.path))
            &&& path == normalized_path(url.path)
        },
{
    if let Some(url) = resolved_url(base, href) {
        law_normal_form(url.path);
    }
}

/// The URL of a logo that is named by a URL depends on no page: it is kept, and
/// gets a scheme if it has none.
pub proof fn law_absolute_logo_is_kept(
    logo_href: Seq<char>,
    domain: Seq<char>,
    page_path: Seq<char>,
)
    ensures
        ({
            let href = text::trim(logo_href);
            let url = logo_url_of(logo_href, domain, page_path);
            &&& "http://"@.is_prefix_of(href) || "https://"@.is_prefix_of(href) ==> url == Some(href)
            &&& "//"@.is_prefix_of(href) ==> url == Some("https:"@ + href)
        }),
{
    reveal_strlit("http://");
    reveal_strlit("https://");
    reveal_strlit("//");
    let href = text::trim(logo_href);
    if "//"@.is_prefix_of(href) {
        assert("//"@[0] == href[0]);
        if "http://"@.is_prefix_of(href) {
            assert("http://"@[0] == href[0]);
        }
        if "https://"@.is_prefix_of(href) {
            assert("https://"@[0] == href[0]);
        }
    }
}

/// Whether two characters are the same but for the case of an ASCII letter.
pub open spec fn same_letter(a: char, b: char) -> bool {
    ||| a == b
    ||| 'A' <= a <= 'Z' && b as int == a as int + 32
    ||| 'A' <= b <= 'Z' && a as int == b as int + 32
}

/// Hosts without `www.` in front are the same domain exactly if they have the
/// same characters, but for the case of ASCII letters: a subdomain is another
/// domain.
pub proof fn law_hosts_are_compared_by_letters(host: Seq<char>, domain: Seq<char>)
    requires
        !"www."@.is_prefix_of(host),
        !"www."@.is_prefix_of(domain),
    ensures
        same_domain(host, domain) <==> host.len() == domain.len() && forall|i: int|
            0 <= i < host.len() ==> same_letter(#[trigger] host[i], domain[i]),
{
    reveal_strlit("www.");
    assert("www."@ =~= seq!['w', 'w', 'w', '.']);
    assert(strip_www(host) == host) by {
        if host.len() >= 4 && host.take(4) == seq!['w', 'w', 'w', '.'] {
            assert("www."@ =~= host.subrange(0, 4));
        }
    }
    assert(strip_www(domain) == domain) by {
        if domain.len() >= 4 && domain.take(4) == seq!['w', 'w', 'w', '.'] {
            assert("www."@ =~= domain.subrange(0, 4));
        }
    }
    let a = text::ascii_lowercase(host);
    let b = text::ascii_lowercase(domain);
    if same_domain(host, domain) {
        assert(a.len() == b.len());
        assert forall|i: int| 0 <= i < host.len() implies same_letter(
            #[trigger] host[i],
            domain[i],
        ) by {
            assert(a[i] == b[i]);
        }
    }
    if host.len() == domain.len() && forall|i: int|
        0 <= i < host.len() ==> same_letter(#[trigger] host[i], domain[i]) {
        assert forall|i: int| 0 <= i < a.len() implies a[i] == b[i] by {
            assert(same_letter(host[i], domain[i]));
        }
        assert(a =~= b);
    }
}

/// A link is resolved as it stands, but for white space around it, unless it is
/// empty, leads to a place on its page, or names a scheme that is not for pages.
pub proof fn law_links_are_resolved(base: Seq<char>, href: Seq<char>)
    ensures
        ({
            let link = text::trim(href);
            resolved_url(base, href) == (if link.len() == 0 || link[0] == '#'
                || "javascript:"@.is_prefix_of(link) || "mailto:"@.is_prefix_of(link)
                || "tel:"@.is_prefix_of(link) || "data:"@.is_prefix_of(link) {
                None
            } else {
                joined_url(base, link)
            })
        }),
{
    reveal_strlit("#");
    let link = text::trim(href);
    assert("#"@ =~= seq!['#']);
    if link.len() > 0 && link[0] == '#' {
        assert("#"@ =~= link.subrange(0, 1));
    }
    if "#"@.is_prefix_of(link) {
        assert("#"@[0] == link[0]);
    }
}

/// The paths that lead to no page are those with one of these endings.
pub proof fn law_static_endings(p: Seq<char>)
    ensures
        is_static(p) <==> {
            ||| ".css"@.is_suffix_of(p) || ".js"@.is_suffix_of(p) || ".json"@.is_suffix_of(p)
            ||| ".xml"@.is_suffix_of(p) || ".txt"@.is_suffix_of(p) || ".pdf"@.is_suffix_of(p)
            ||| ".doc"@.is_suffix_of(p) || ".docx"@.is_suffix_of(p) || ".xls"@.is_suffix_of(p)
            ||| ".xlsx"@.is_suffix_of(p) || ".ppt"@.is_suffix_of(p) || ".pptx"@.is_suffix_of(p)
            ||| ".zip"@.is_suffix_of(p) || ".tar"@.is_suffix_of(p) || ".gz"@.is_suffix_of(p)
            ||| ".rar"@.is_suffix_of(p) || ".7z"@.is_suffix_of(p) || ".mp3"@.is_suffix_of(p)
            ||| ".mp4"@.is_suffix_of(p) || ".avi"@.is_suffix_of(p) || ".mov"@.is_suffix_of(p)
            ||| ".wmv"@.is_suffix_of(p) || ".flv"@.is_suffix_of(p) || ".webm"@.is_suffix_of(p)
            ||| ".ogg"@.is_suffix_of(p) || ".wav"@.is_suffix_of(p) || ".woff"@.is_suffix_of(p)
            ||| ".woff2"@.is_suffix_of(p) || ".ttf"@.is_suffix_of(p) || ".eot"@.is_suffix_of(p)
            ||| ".otf"@.is_suffix_of(p)
        },
{
    let all = static_extensions();
    assert(all[0] == ".css"@ && all[1] == ".js"@ && all[2] == ".json"@ && all[3] == ".xml"@);
    assert(all[4] == ".txt"@ && all[5] == ".pdf"@ && all[6] == ".doc"@ && all[7] == ".docx"@);
    assert(all[8] == ".xls"@ && all[9] == ".xlsx"@ && all[10] == ".ppt"@ && all[11] == ".pptx"@);
    assert(all[12] == ".zip"@ && all[13] == ".tar"@ && all[14] == ".gz"@ && all[15] == ".rar"@);
    assert(all[16] == ".7z"@ && all[17] == ".mp3"@ && all[18] == ".mp4"@ && all[19] == ".avi"@);
    assert(all[20] == ".mov"@ && all[21] == ".wmv"@ && all[22] == ".flv"@ && all[23] == ".webm"@);
    assert(all[24] == ".ogg"@ && all[25] == ".wav"@ && all[26] == ".woff"@);
    assert(all[27] == ".woff2"@ && all[28] == ".ttf"@ && all[29] == ".eot"@ && all[30] == ".otf"@);
}

/// Every link to a page of the domain is followed: if it is for fetching, leads
/// to a host of the domain by HTTP, and to no static resource, its path is that
/// of the page, in normal form.
pub proof fn law_links_to_pages_are_followed(
    href: Seq<char>,
    domain: Seq<char>,
    base: Seq<char>,
    url: UrlView,
    host: Seq<char>,
)
    requires
        resolved_url(base, href) == Some(url),
        url.host == Some(host),
        same_domain(host, domain),
        url.scheme == "http"@ || url.scheme == "https"@,
        !is_static(text::lowercase(url.path)),
    ensures
        internal_path_of_href(href, domain, base) == Some(normalized_path(url.path)),
{
}

/// The normal form of a path is what is left of it without the white space
/// around it and the slashes at its end, after a slash.
pub proof fn law_normal_form_of(path: Seq<char>, kept: Seq<char>, slashes: nat)
    requires
        text::trim(path) == kept + Seq::new(slashes, |i: int| '/'),
        kept.len() > 0 ==> kept.last() != '/',
    ensures
        normalized_path(path) == (if kept.len() > 0 && kept[0] == '/' {
            kept
        } else {
            seq!['/'] + kept
        }),
    decreases slashes,
{
    lemma_slashes_are_stripped(kept, slashes);
}

proof fn lemma_slashes_are_stripped(kept: Seq<char>, slashes: nat)
    requires
        kept.len() > 0 ==> kept.last() != '/',
    ensures
        strip_slashes(kept + Seq::new(slashes, |i: int| '/')) == kept,
    decreases slashes,
{
    let s = kept + Seq::new(slashes, |i: int| '/');
    if slashes == 0 {
        assert(s =~= kept);
    } else {
        let fewer = (slashes - 1) as nat;
        lemma_slashes_are_stripped(kept, fewer);
        assert(s.drop_last() =~= kept + Seq::new(fewer, |i: int| '/'));
    }
}

/// The URL of a page is what joining exactly its path to the URL of the root
/// page gives, and that is the URL of `https://`, the domain and a slash.
pub proof fn law_url_of_page(domain: Seq<char>, path: Seq<char>)
    ensures
        base_url_of(domain) == parsed_url("https://"@ + domain + "/"@),
        url_of(domain, path) == (match parsed_url("https://"@ + domain + "/"@) {
            Some(root) => joined_url(root.href, path),
            None => None,
        }),
{
}

/// A logo that is named by a relative link has the URL to which the link leads
/// from its page; it has none if there is no such URL, or the link is not for
/// fetching.
pub proof fn law_relative_logo(logo_href: Seq<char>, domain: Seq<char>, page_path: Seq<char>)
    requires
        !"http://"@.is_prefix_of(text::trim(logo_href)),
        !"https://"@.is_prefix_of(text::trim(logo_href)),
        !"//"@.is_prefix_of(text::trim(logo_href)),
    ensures
        ({
            let link = text::trim(logo_href);
            logo_url_of(logo_href, domain, page_path) == (if link.len() == 0 || link[0] == '#'
                || "javascript:"@.is_prefix_of(link) || "mailto:"@.is_prefix_of(link)
                || "tel:"@.is_prefix_of(link) || "data:"@.is_prefix_of(link) {
                None
            } else {
                match parsed_url("https://"@ + domain + "/"@) {
                    Some(root) => match joined_url(root.href, page_path) {
                        Some(page) => match joined_url(page.href, link) {
                            Some(logo) => Some(logo.href),
                            None => None,
                        },
                        None => None,
                    },
                    None => None,
                }
            })
        }),
{
    let link = text::trim(logo_href);
    text::lemma_trim_ends(logo_href);
    assert(text::trim(link) == link) by {
        assert(Seq::empty() + link + Seq::empty() =~= link);
        text::law_white_space_is_trimmed(Seq::empty(), link, Seq::empty());
    }
    if let Some(root) = parsed_url("https://"@ + domain + "/"@) {
        if let Some(page) = joined_url(root.href, page_path) {
            law_links_are_resolved(page.href, link);
        }
    }
    if url_of(domain, page_path) is Some {
        law_links_are_resolved(url_of(domain, page_path)->0.href, link);
    }
}

} // verus!
