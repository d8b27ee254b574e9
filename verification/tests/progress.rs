//! The progress log: entries, replay, and what follows for a restart.

use weaver::log_entry::{CompletionReason, LogEntry, LogoInfo, ParseLogEntryError};
use weaver::messages::LogoFound;
use weaver::progress::{load_progress, CrawlState, DomainProgress};

fn lines(texts: &[&str]) -> Vec<String> {
    texts.iter().map(|t| t.to_string()).collect()
}

fn logo() -> LogoInfo {
    LogoInfo {
        page_path: "/".to_string(),
        logo_url: "https://example.com/logo.png".to_string(),
        hash: "abc123".to_string(),
    }
}

#[test]
fn test_parse_log_entry() {
    assert!(matches!(
        "STARTED example.com".parse::<LogEntry>(),
        Ok(LogEntry::Started(d)) if d == "example.com"
    ));

    assert!(matches!(
        "QUEUED example.com /about 2".parse::<LogEntry>(),
        Ok(LogEntry::Queued { domain, path, depth })
        if domain == "example.com" && path == "/about" && depth == 2
    ));

    assert!(matches!(
        "SEARCHED example.com /about".parse::<LogEntry>(),
        Ok(LogEntry::Searched { domain, path }) if domain == "example.com" && path == "/about"
    ));

    let entry: Result<LogEntry, _> =
        "COMPLETED example.com LOGO_FOUND /about https://example.com/logo.png abc123".parse();
    assert!(matches!(
        entry,
        Ok(LogEntry::Completed { domain, reason: CompletionReason::LogoFound(ref logo) })
        if domain == "example.com"
            && logo.page_path == "/about"
            && logo.logo_url == "https://example.com/logo.png"
            && logo.hash == "abc123"
    ));

    assert!(matches!(
        "COMPLETED example.com NO_LOGO".parse::<LogEntry>(),
        Ok(LogEntry::Completed { domain, reason: CompletionReason::NoLogo }) if domain == "example.com"
    ));

    // Invalid entries should fail to parse.
    assert!("".parse::<LogEntry>().is_err());
    assert!("INVALID".parse::<LogEntry>().is_err());
    assert!("QUEUED example.com".parse::<LogEntry>().is_err());
}

#[test]
fn test_log_entry_roundtrip() {
    let entries = [
        LogEntry::Started("example.com".to_string()),
        LogEntry::Queued {
            domain: "example.com".to_string(),
            path: "/about".to_string(),
            depth: 2,
        },
        LogEntry::Searched { domain: "example.com".to_string(), path: "/contact".to_string() },
        LogEntry::Completed {
            domain: "example.com".to_string(),
            reason: CompletionReason::NoLogo,
        },
        LogEntry::Completed {
            domain: "example.com".to_string(),
            reason: CompletionReason::LimitReached,
        },
        LogEntry::Completed {
            domain: "example.com".to_string(),
            reason: CompletionReason::LogoFound(LogoInfo {
                page_path: "/".to_string(),
                logo_url: "https://example.com/logo.png".to_string(),
                hash: "abc123".to_string(),
            }),
        },
    ];

    for entry in entries {
        let serialized = entry.to_string();
        let parsed: LogEntry = serialized.parse().expect("should parse");
        assert_eq!(serialized, parsed.to_string());
    }
}

#[test]
fn test_load_progress() {
    let state = load_progress(&lines(&[
        "STARTED example.com",
        "QUEUED example.com /about 1",
        "QUEUED example.com /contact 1",
        "SEARCHED example.com /",
        "SEARCHED example.com /about",
        "STARTED other.com",
        "COMPLETED other.com NO_LOGO",
    ]));

    assert!(state.in_progress().contains_key("example.com"));
    let dp = state.in_progress().get("example.com").unwrap();
    assert!(dp.searched_paths().contains("/"));
    assert!(dp.searched_paths().contains("/about"));
    // /about was queued then searched, so not in queued_paths.
    assert!(!dp.queued_paths().contains_key("/about"));
    // /contact was queued but not searched.
    assert_eq!(dp.queued_paths().get("/contact"), Some(&1));

    assert!(state.completed().contains_key("other.com"));
    assert!(!state.in_progress().contains_key("other.com"));
}

#[test]
fn test_should_skip() {
    let mut state = CrawlState::default();
    state.complete_domain(
        "done.com".to_string(),
        CompletionReason::LogoFound(LogoInfo {
            page_path: "/".to_string(),
            logo_url: "https://example.com/logo.png".to_string(),
            hash: "abc123".to_string(),
        }),
    );

    assert!(state.should_skip("done.com"));
    assert!(!state.should_skip("new.com"));
}

#[test]
fn entries_are_written_as_they_are_read() {
    let found = CompletionReason::LogoFound(logo());
    assert_eq!(found.to_string(), "LOGO_FOUND / https://example.com/logo.png abc123");
    assert_eq!(CompletionReason::NoLogo.to_string(), "NO_LOGO");
    assert_eq!(CompletionReason::LimitReached.to_string(), "LIMIT_REACHED");
    let entry = LogEntry::Completed { domain: "example.com".to_string(), reason: found };
    assert_eq!(
        entry.to_string(),
        "COMPLETED example.com LOGO_FOUND / https://example.com/logo.png abc123"
    );
    assert_eq!(
        entry.to_line(),
        "COMPLETED example.com LOGO_FOUND / https://example.com/logo.png abc123\n"
    );
    let queued =
        LogEntry::Queued { domain: "a.com".to_string(), path: "/x".to_string(), depth: 18 };
    assert_eq!(queued.to_string(), "QUEUED a.com /x 18");
}

#[test]
fn entries_that_are_not_entries() {
    for line in [
        " ",
        "STARTED",
        "started a.com",
        "QUEUED a.com /x",
        "QUEUED a.com /x many",
        "QUEUED a.com /x -1",
        "QUEUED a.com /x 1 2",
        "QUEUED a.com /x 99999999999999999999999999",
        "SEARCHED a.com",
        "COMPLETED a.com",
        "COMPLETED a.com MAYBE",
        "COMPLETED a.com LOGO_FOUND / url",
    ] {
        assert!(matches!(LogEntry::from_str(line), Err(ParseLogEntryError)), "{line}");
    }
    assert_eq!(ParseLogEntryError.to_string(), "invalid log entry format");
}

#[test]
fn entries_at_the_edges_of_the_format() {
    assert!(matches!(
        LogEntry::from_str("  STARTED a b  \r\n"),
        Ok(LogEntry::Started(d)) if d == "a b"
    ));
    assert!(matches!(
        LogEntry::from_str("QUEUED a.com /x +7"),
        Ok(LogEntry::Queued { depth: 7, .. })
    ));
    assert!(matches!(
        LogEntry::from_str("SEARCHED a.com /x y"),
        Ok(LogEntry::Searched { path, .. }) if path == "/x y"
    ));
    assert!(matches!(
        LogEntry::from_str("COMPLETED a.com NO_LOGO and more"),
        Ok(LogEntry::Completed { reason: CompletionReason::NoLogo, .. })
    ));
    assert!(matches!(
        LogEntry::from_str("COMPLETED a.com LOGO_FOUND / url h a s h"),
        Ok(LogEntry::Completed { reason: CompletionReason::LogoFound(logo), .. })
        if logo.hash == "h a s h"
    ));
}

#[test]
fn an_entry_with_a_space_in_its_domain_is_read_back_as_another() {
    let entry = LogEntry::Searched { domain: "a b".to_string(), path: "/".to_string() };
    assert!(matches!(
        LogEntry::from_str(&entry.to_string()),
        Ok(LogEntry::Searched { domain, path }) if domain == "a" && path == "b /"
    ));
}

#[test]
fn a_logo_keeps_its_fields_in_the_log() {
    let found = LogoFound {
        page_path: "/p".to_string(),
        logo_url: "/l.png".to_string(),
        hash: "00ff".to_string(),
    };
    let info = LogoInfo::from(found);
    assert_eq!(info.page_path, "/p");
    assert_eq!(info.logo_url, "/l.png");
    assert_eq!(info.hash, "00ff");
}

#[test]
fn other_lines_of_a_log_are_skipped() {
    let state = load_progress(&lines(&[
        "STARTED a.com",
        "",
        "noise",
        "QUEUED b.com /x 1",
        "SEARCHED b.com /y",
        "QUEUED a.com /x 1",
    ]));
    assert_eq!(state.in_progress().len(), 1);
    assert!(!state.in_progress().contains_key("b.com"));
    assert_eq!(state.in_progress().get("a.com").unwrap().queued_paths().get("/x"), Some(&1));
}

#[test]
fn the_order_of_completion_is_kept() {
    let state = load_progress(&lines(&[
        "COMPLETED b.com NO_LOGO",
        "COMPLETED a.com NO_LOGO",
        "COMPLETED b.com LIMIT_REACHED",
    ]));
    assert_eq!(state.completed().len(), 2);
    assert_eq!(state.completed().key_at(0), "b.com");
    assert_eq!(state.completed().key_at(1), "a.com");
    assert_eq!(state.completed().get("b.com"), Some(&CompletionReason::LimitReached));
}

#[test]
fn a_path_is_pending_until_it_is_searched() {
    let mut progress = DomainProgress::default();
    progress.queue_path("/a".to_string(), 2);
    progress.queue_path("/a".to_string(), 3);
    assert_eq!(progress.queued_paths().get("/a"), Some(&3));
    assert!(!progress.searched_paths().contains("/a"));
    progress.mark_searched("/a");
    assert!(progress.queued_paths().is_empty());
    assert!(progress.searched_paths().contains("/a"));
    progress.queue_path("/a".to_string(), 1);
    assert!(progress.queued_paths().is_empty());
}

#[test]
fn starting_again_keeps_the_paths() {
    let mut state = CrawlState::default();
    state.start_domain("a.com".to_string());
    state.queue_path("a.com", "/x".to_string(), 1);
    state.mark_searched("a.com", "/y");
    state.apply(LogEntry::Started("a.com".to_string()));
    let progress = state.in_progress().get("a.com").unwrap();
    assert_eq!(progress.queued_paths().get("/x"), Some(&1));
    assert!(progress.searched_paths().contains("/y"));
}

#[test]
fn a_resumed_run_keeps_what_the_log_tells() {
    let state = load_progress(&lines(&[
        "STARTED a.com",
        "SEARCHED a.com /",
        "QUEUED a.com /x 1",
        "STARTED a.com",
    ]));
    let progress = state.in_progress().get("a.com").unwrap();
    assert!(progress.searched_paths().contains("/"));
    assert_eq!(progress.queued_paths().get("/x"), Some(&1));
}

#[test]
fn a_searched_path_is_never_queued() {
    let state = load_progress(&lines(&["STARTED a.com", "SEARCHED a.com /", "QUEUED a.com / 1"]));
    let progress = state.in_progress().get("a.com").unwrap();
    assert!(progress.searched_paths().contains("/"));
    assert!(progress.queued_paths().is_empty());
}

#[test]
fn a_domain_starts_afresh_after_its_completion() {
    let state = load_progress(&lines(&[
        "STARTED a.com",
        "SEARCHED a.com /",
        "COMPLETED a.com NO_LOGO",
        "STARTED a.com",
    ]));
    assert!(state.should_skip("a.com"));
    assert_eq!(state.in_progress().get("a.com").unwrap().searched_paths().len(), 0);
}

#[test]
fn a_log_that_was_written_is_replayed() {
    let entries = vec![
        LogEntry::Started("a.com".to_string()),
        LogEntry::Queued { domain: "a.com".to_string(), path: "/x".to_string(), depth: 1 },
        LogEntry::Searched { domain: "a.com".to_string(), path: "/".to_string() },
        LogEntry::Started("b.com".to_string()),
        LogEntry::Completed {
            domain: "b.com".to_string(),
            reason: CompletionReason::LogoFound(logo()),
        },
    ];
    let written: Vec<String> = entries.iter().map(|e| e.to_string()).collect();
    let mut applied = CrawlState::default();
    for entry in entries {
        applied.apply(entry);
    }
    let replayed = load_progress(&written);
    for state in [applied, replayed] {
        assert!(state.should_skip("b.com"));
        assert_eq!(
            state.completed().get("b.com"),
            Some(&CompletionReason::LogoFound(logo()))
        );
        let progress = state.in_progress().get("a.com").unwrap();
        assert_eq!(progress.queued_paths().get("/x"), Some(&1));
        assert!(progress.searched_paths().contains("/"));
        assert_eq!(state.in_progress().len(), 1);
    }
}

fn found(logo_url: &str) -> LogEntry {
    LogEntry::Completed {
        domain: "a.com".to_string(),
        reason: CompletionReason::LogoFound(LogoInfo {
            page_path: "/".to_string(),
            logo_url: logo_url.to_string(),
            hash: "ab".to_string(),
        }),
    }
}

#[test]
fn the_text_of_a_log_is_replayed_line_by_line() {
    let entries = [
        LogEntry::Started("a.com".to_string()),
        LogEntry::Queued { domain: "a.com".to_string(), path: "/x".to_string(), depth: 1 },
        found("/logo.png"),
    ];
    let text: String = entries.iter().map(|e| e.to_line()).collect();
    let read: Vec<String> = text.lines().map(String::from).collect();
    let written: Vec<String> = entries.iter().map(|e| e.to_string()).collect();
    assert_eq!(read, written);
    assert!(load_progress(&read).should_skip("a.com"));
}

#[test]
fn an_entry_with_a_line_end_in_it_is_no_line() {
    let entry = found("/lo\ngo.png");
    assert!(LogEntry::from_str(&entry.to_string()).is_ok());
    let read: Vec<String> = entry.to_line().lines().map(String::from).collect();
    assert_eq!(read.len(), 2);
    assert!(!load_progress(&read).should_skip("a.com"));
}
