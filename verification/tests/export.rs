//! The CSV of a crawl.

use weaver::export::{csv_of_state, generate_csv};
use weaver::progress::CrawlState;

#[test]
fn rows_are_the_logos_in_the_order_of_completion() {
    let lines: Vec<String> = [
        "STARTED b.com",
        "COMPLETED b.com LOGO_FOUND / /logo.png abc123",
        "COMPLETED c.com NO_LOGO",
        "COMPLETED a.com LOGO_FOUND /about https://a.com/l.png ff00",
        "STARTED d.com",
    ]
    .iter()
    .map(|l| l.to_string())
    .collect();
    assert_eq!(
        generate_csv(&lines),
        "domain,page_path,logo_url,hash\n\
         b.com,/,/logo.png,abc123\n\
         a.com,/about,https://a.com/l.png,ff00\n"
    );
}

#[test]
fn without_logos_there_is_a_header() {
    assert_eq!(csv_of_state(&CrawlState::default()), "domain,page_path,logo_url,hash\n");
    assert_eq!(generate_csv(&Vec::new()), "domain,page_path,logo_url,hash\n");
}

#[test]
fn special_fields_are_quoted() {
    let lines = vec!["COMPLETED a.com LOGO_FOUND /x,y /\"logo\".png h".to_string()];
    assert_eq!(
        generate_csv(&lines),
        "domain,page_path,logo_url,hash\na.com,\"/x,y\",\"/\"\"logo\"\".png\",h\n"
    );
}

#[test]
fn empty_and_spaced_fields_stand_as_they_are() {
    let lines = vec!["COMPLETED a.com LOGO_FOUND   h 'x' #".to_string()];
    assert_eq!(generate_csv(&lines), "domain,page_path,logo_url,hash\na.com,,,h 'x' #\n");
}
