//! Which addresses on a page may be those of logos.

use weaver::document::{HtmlDocument, ImageTag, LinkTag};
use weaver::heuristics::{
    find_icon_links, find_logo_candidates, find_logo_images, find_og_image, icon_href, logo_src,
    without_repeats,
};

fn some(text: &str) -> Option<String> {
    Some(text.to_string())
}

#[test]
fn test_find_og_image() {
    let html = r#"
            <html>
            <head>
                <meta property="og:image" content="https://example.com/og.png">
                <meta property="og:title" content="Title">
            </head>
            </html>
        "#;
    let document = HtmlDocument::parse_document(html);
    let og_images = find_og_image(&document);

    assert_eq!(og_images.len(), 1);
    assert_eq!(og_images[0], "https://example.com/og.png");
}

#[test]
fn test_find_logo_images() {
    let html = r#"
            <html>
            <body>
                <img src="/logo.png" alt="Company Logo">
                <img src="/header-logo.svg" class="site-logo">
                <img src="/photo.jpg" alt="Photo">
                <img src="/image.png" id="main-logo">
            </body>
            </html>
        "#;
    let document = HtmlDocument::parse_document(html);
    let logos = find_logo_images(&document);

    assert_eq!(logos.len(), 3);
    assert!(logos.contains(&"/logo.png".to_string()));
    assert!(logos.contains(&"/header-logo.svg".to_string()));
    assert!(logos.contains(&"/image.png".to_string()));
}

#[test]
fn test_find_logo_candidates_priority() {
    let html = r#"
            <html>
            <head>
                <meta property="og:image" content="/og.png">
            </head>
            <body>
                <img src="/logo.png" alt="Logo">
            </body>
            </html>
        "#;
    let document = HtmlDocument::parse_document(html);
    let candidates = find_logo_candidates(&document);

    // OG image should come first, then logo image
    assert_eq!(candidates.len(), 2);
    assert_eq!(candidates[0], "/og.png");
    assert_eq!(candidates[1], "/logo.png");
}

#[test]
fn a_page_has_its_elements_in_order() {
    let document = HtmlDocument::parse_document(
        "<link rel='ICON' href='/i'><link href='/no-rel'><link rel='x'>\
         <img src='/a' alt='A' class='C' id='I'><img alt='no src'>\
         <a href='/1'>1</a><a>2</a><a href=''>3</a>",
    );
    assert_eq!(document.links.len(), 2);
    assert_eq!(document.links[0].rel, some("ICON"));
    assert_eq!(document.links[0].href, some("/i"));
    assert_eq!(document.links[1].rel, some("x"));
    assert_eq!(document.links[1].href, None);
    assert_eq!(document.images.len(), 1);
    assert_eq!(document.images[0].src, some("/a"));
    assert_eq!(document.images[0].alt, some("A"));
    assert_eq!(document.images[0].class, some("C"));
    assert_eq!(document.images[0].id, some("I"));
    assert_eq!(document.anchors, vec![some("/1"), some("")]);
    assert!(document.og_images.is_empty());
}

#[test]
fn icons_are_found_by_their_relation() {
    let document = HtmlDocument::parse_document(
        "<link rel='stylesheet' href='/s.css'>\
         <link rel='Shortcut ICON' href=' /favicon.ico '>\
         <link rel='apple-touch-icon' href='/apple.png'>\
         <link rel='icon' href='  '><link rel='icon'>",
    );
    assert_eq!(find_icon_links(&document), vec!["/favicon.ico", "/apple.png"]);
}

#[test]
fn candidates_come_once_and_by_priority() {
    let document = HtmlDocument::parse_document(
        "<img src='/logo.png'><img src='/x.png' alt='LOGO'>\
         <meta property='og:image' content='/og.png'><meta property='og:image' content='/logo.png'>\
         <meta property='og:image'><link rel='icon' href='/og.png'><link rel='icon' href='/i.ico'>",
    );
    assert_eq!(find_og_image(&document), vec!["/og.png", "/logo.png"]);
    assert_eq!(find_logo_images(&document), vec!["/logo.png", "/x.png"]);
    assert_eq!(
        find_logo_candidates(&document),
        vec!["/og.png", "/i.ico", "/logo.png", "/x.png"]
    );
}

#[test]
fn what_a_link_names_goes_by_its_relation_in_lower_case() {
    let link = LinkTag { rel: some("ICON"), href: some(" /i ") };
    assert_eq!(icon_href(&link, "icon"), some("/i"));
    assert_eq!(icon_href(&link, "ICON"), None);
    assert_eq!(icon_href(&link, ""), None);
    let nowhere = LinkTag { rel: some("icon"), href: None };
    assert_eq!(icon_href(&nowhere, "icon"), None);
}

#[test]
fn what_an_image_names_goes_by_its_attributes_in_lower_case() {
    let image = ImageTag { src: some("/a.png\n"), alt: None, class: None, id: None };
    assert_eq!(logo_src(&image, "/a.png  the logo "), some("/a.png"));
    assert_eq!(logo_src(&image, "/a.png   "), None);
    assert_eq!(logo_src(&image, "LOGO"), None);
    let blank = ImageTag { src: some(" "), alt: some("logo"), class: None, id: None };
    assert_eq!(logo_src(&blank, "  logo  "), None);
}

#[test]
fn the_word_may_not_span_attributes() {
    let document = HtmlDocument::parse_document("<img src='/lo' alt='go'><img src='/x' class='lo' id='go'>");
    assert!(find_logo_images(&document).is_empty());
}

#[test]
fn repeats_are_dropped() {
    let texts = ["b", "a", "b", "", "a", ""].iter().map(|t| t.to_string()).collect();
    assert_eq!(without_repeats(texts), vec!["b", "a", ""]);
    assert!(without_repeats(Vec::new()).is_empty());
}
