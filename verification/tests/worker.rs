//! The work of a worker.

use weaver::document::HtmlDocument;
use weaver::messages::{
    CpuToAsync, LogoContext, WorkItem, WorkPayload, WorkerResultPayload,
};
use weaver::worker::{
    distinct_paths, extract_internal_links, logo_of_digest, process_html, process_logo,
    process_work_item, requests_of_page, search_document, to_hex,
};

fn context() -> LogoContext {
    LogoContext { found_on_path: "/".to_string(), candidate_url: "/logo.png".to_string() }
}

#[test]
fn test_process_html_finds_logos() {
    let html = r#"
            <html>
            <head>
                <link rel="icon" href="/favicon.ico">
            </head>
            <body>
                <img src="/logo.png" alt="Logo">
                <a href="/about">About</a>
            </body>
            </html>
        "#;

    let result = process_html("example.com".to_string(), "/".to_string(), 0, html);

    assert_eq!(result.domain, "example.com");

    let WorkerResultPayload::Html { searched_path, new_work } = result.payload else {
        panic!("Expected Html payload");
    };

    assert_eq!(searched_path, "/");

    let logo_fetches = new_work.iter().find(|w| matches!(w, CpuToAsync::FetchLogo { .. }));
    assert!(logo_fetches.is_some());

    let path_fetches = new_work.iter().find(|w| matches!(w, CpuToAsync::FetchPath { .. }));
    assert!(path_fetches.is_some());
}

#[test]
fn test_process_logo_hashes() {
    let bytes = vec![0x89, 0x50, 0x4E, 0x47];
    let context =
        LogoContext { found_on_path: "/".to_string(), candidate_url: "/logo.png".to_string() };

    let result = process_logo("example.com".to_string(), context, &bytes);

    let WorkerResultPayload::LogoFound(logo) = result.payload else {
        panic!("Expected LogoFound payload");
    };

    assert!(!logo.hash.is_empty());
    assert_eq!(logo.page_path, "/");
    assert_eq!(logo.logo_url, "/logo.png");
    assert_eq!(logo.hash.len(), 64);
}

#[test]
fn test_process_logo_empty_bytes() {
    let context =
        LogoContext { found_on_path: "/".to_string(), candidate_url: "/logo.png".to_string() };

    let result = process_logo("example.com".to_string(), context, &[]);

    assert!(matches!(result.payload, WorkerResultPayload::LogoEmpty));
}

#[test]
fn test_extract_internal_links() {
    let html = r#"
            <html>
            <body>
                <a href="/about">About</a>
                <a href="/contact/">Contact</a>
                <a href="https://example.com/page">Page</a>
                <a href="https://other.com/external">External</a>
                <a href="javascript:void(0)">JS</a>
                <a href="mailto:test@example.com">Email</a>
            </body>
            </html>
        "#;

    let document = HtmlDocument::parse_document(html);
    let links = extract_internal_links(&document, "example.com", "/");

    assert!(links.contains(&"/about".to_string()));
    assert!(links.contains(&"/contact".to_string()));
    assert!(links.contains(&"/page".to_string()));
    assert!(!links.iter().any(|l| l.contains("other.com")));
    assert!(!links.iter().any(|l| l.contains("javascript")));
    assert!(!links.iter().any(|l| l.contains("mailto")));
}

#[test]
fn the_hash_is_sha_256_in_hexadecimal() {
    let result = process_logo("example.com".to_string(), context(), b"abc");
    let WorkerResultPayload::LogoFound(logo) = result.payload else {
        panic!("Expected LogoFound payload");
    };
    assert_eq!(
        logo.hash,
        "ba7816bf8f01cfea414140de5dae2223b00361a396177a9cb410ff61f20015ad"
    );
    assert_eq!(result.domain, "example.com");
}

#[test]
fn bytes_in_hexadecimal() {
    assert_eq!(to_hex(&vec![]), "");
    assert_eq!(to_hex(&vec![0x00, 0x0f, 0xa0, 0xff, 0x12]), "000fa0ff12");
    let logo = logo_of_digest(context(), &vec![1, 0xab]);
    assert_eq!(logo.hash, "01ab");
    assert_eq!(logo.page_path, "/");
    assert_eq!(logo.logo_url, "/logo.png");
}

#[test]
fn links_come_once_and_are_relative_to_the_page() {
    let document = HtmlDocument::parse_document(
        "<a href='x'>1</a><a href='/dir/x/'>2</a><a href='/s.css'>3</a><a href='#f'>4</a>\
         <a href='http://www.example.com/y'>5</a><a href='?q'>6</a>",
    );
    assert_eq!(
        extract_internal_links(&document, "example.com", "/dir/page"),
        vec!["/dir/x", "/y", "/dir/page"]
    );
    assert!(extract_internal_links(&document, "not a domain", "/").is_empty());
}

#[test]
fn links_of_a_page_without_a_url_are_relative_to_the_root() {
    let document = HtmlDocument::parse_document("<a href='x'>1</a>");
    assert_eq!(extract_internal_links(&document, "example.com", "http://[bad"), vec!["/x"]);
}

#[test]
fn paths_come_once() {
    let paths = vec![
        Some("/b".to_string()),
        None,
        Some("/a".to_string()),
        Some("/b".to_string()),
    ];
    assert_eq!(distinct_paths(&paths), vec!["/b", "/a"]);
}

#[test]
fn requests_name_where_they_come_from() {
    let candidates = vec!["c1".to_string(), "c2".to_string()];
    let urls = vec![None, Some("https://example.com/c2".to_string())];
    let links = vec!["/l".to_string()];
    let requests = requests_of_page("example.com", "/p", 4, &candidates, &urls, &links);
    assert_eq!(requests.len(), 2);
    assert!(matches!(
        &requests[0],
        CpuToAsync::FetchLogo { domain, url, context }
        if domain == "example.com" && url == "https://example.com/c2"
            && context.found_on_path == "/p" && context.candidate_url == "c2"
    ));
    assert!(matches!(
        &requests[1],
        CpuToAsync::FetchPath { domain, path, depth: 5 }
        if domain == "example.com" && path == "/l"
    ));
}

#[test]
fn a_page_asks_for_its_logos_first() {
    let document = HtmlDocument::parse_document(
        "<a href='/next'>n</a><img src='logo.png'><link rel='icon' href='//cdn.com/i'>\
         <img src='data:logo'>",
    );
    let requests = search_document("example.com", "/dir/", 0, &document);
    assert_eq!(requests.len(), 3);
    assert!(matches!(
        &requests[0],
        CpuToAsync::FetchLogo { url, context, .. }
        if url == "https://cdn.com/i" && context.candidate_url == "//cdn.com/i"
    ));
    assert!(matches!(
        &requests[1],
        CpuToAsync::FetchLogo { url, context, .. }
        if url == "https://example.com/dir/logo.png" && context.found_on_path == "/dir/"
    ));
    assert!(matches!(
        &requests[2],
        CpuToAsync::FetchPath { path, depth: 1, .. } if path == "/next"
    ));
}

#[test]
fn work_is_done_by_its_kind() {
    let page = WorkItem {
        domain: "a.com".to_string(),
        path: "/p".to_string(),
        depth: 2,
        payload: WorkPayload::Html("<a href='/q'>q</a>".to_string()),
    };
    let result = process_work_item(page);
    assert_eq!(result.domain, "a.com");
    let WorkerResultPayload::Html { searched_path, new_work } = result.payload else {
        panic!("Expected Html payload");
    };
    assert_eq!(searched_path, "/p");
    assert!(matches!(
        &new_work[..],
        [CpuToAsync::FetchPath { path, depth: 3, .. }] if path == "/q"
    ));

    let logo = WorkItem {
        domain: "a.com".to_string(),
        path: "/".to_string(),
        depth: 0,
        payload: WorkPayload::LogoBitmap { context: context(), bytes: vec![] },
    };
    assert!(matches!(process_work_item(logo).payload, WorkerResultPayload::LogoEmpty));
}
