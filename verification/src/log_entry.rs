//! The entries of the progress log: how they are written and read.

use std::str::FromStr;

use vstd::prelude::*;
use vstd::string::*;

use crate::messages::{LogoFound, LogoView};
use crate::text::{
    decimal_chars, from_chars, parse_usize_chars, same_text, split_once_chars, splitn_chars,
    to_chars, trim_chars,
};
#[allow(unused_imports)]
use crate::text;

verus! {

/// The record of a logo.
#[derive(Debug, Clone, PartialEq, Eq)]
pub struct LogoInfo {
    pub page_path: String,
    pub logo_url: String,
    pub hash: String,
}

impl View for LogoInfo {
    type V = LogoView;

    open spec fn view(&self) -> LogoView {
        LogoView { page_path: self.page_path@, logo_url: self.logo_url@, hash: self.hash@ }
    }
}

impl From<LogoFound> for LogoInfo {
    fn from(logo: LogoFound) -> (r: LogoInfo) {
        LogoInfo { page_path: logo.page_path, logo_url: logo.logo_url, hash: logo.hash }
    }
}

impl vstd::std_specs::convert::FromSpecImpl<LogoFound> for LogoInfo {
    open spec fn obeys_from_spec() -> bool {
        true
    }

    open spec fn from_spec(logo: LogoFound) -> LogoInfo {
        LogoInfo { page_path: logo.page_path, logo_url: logo.logo_url, hash: logo.hash }
    }
}

/// Why the search of a domain ended.
#[derive(Debug, Clone, PartialEq, Eq)]
pub enum CompletionReason {
    /// A logo was found.
    LogoFound(LogoInfo),
    /// Nothing is left to search, and no logo was found.
    NoLogo,
    /// A limit of the crawl was reached.
    LimitReached,
}

/// View of a [`CompletionReason`].
pub enum ReasonView {
    LogoFound(LogoView),
    NoLogo,
    LimitReached,
}

impl View for CompletionReason {
    type V = ReasonView;

    open spec fn view(&self) -> ReasonView {
        match self {
            CompletionReason::LogoFound(logo) => ReasonView::LogoFound(logo@),
            CompletionReason::NoLogo => ReasonView::NoLogo,
            CompletionReason::LimitReached => ReasonView::LimitReached,
        }
    }
}

/// The notation of a completion reason.
pub open spec fn reason_text(reason: ReasonView) -> Seq<char> {
    match reason {
        ReasonView::LogoFound(logo) => "LOGO_FOUND "@ + logo.page_path + " "@ + logo.logo_url
            + " "@ + logo.hash,
        ReasonView::NoLogo => "NO_LOGO"@,
        ReasonView::LimitReached => "LIMIT_REACHED"@,
    }
}

impl CompletionReason {
    /// The notation of the reason in the log.
    pub fn to_string(&self) -> (r: String)
        ensures
            r@ == reason_text(self@),
    {
        match self {
            CompletionReason::LogoFound(logo) => {
                let mut r = "LOGO_FOUND ".to_string();
                r.append(logo.page_path.as_str());
                r.append(" ");
                r.append(logo.logo_url.as_str());
                r.append(" ");
                r.append(logo.hash.as_str());
                r
            },
            CompletionReason::NoLogo => "NO_LOGO".to_string(),
            CompletionReason::LimitReached => "LIMIT_REACHED".to_string(),
        }
    }
}

/// An entry of the progress log.
#[derive(Debug, Clone)]
pub enum LogEntry {
    /// The crawl of a domain started.
    Started(String),
    /// A path was found, and is to be searched.
    Queued { domain: String, path: String, depth: usize },
    /// A path was searched.
    Searched { domain: String, path: String },
    /// The search of a domain ended.
    Completed { domain: String, reason: CompletionReason },
}

/// View of a [`LogEntry`].
pub enum LogEntryView {
    Started(Seq<char>),
    Queued { domain: Seq<char>, path: Seq<char>, depth: usize },
    Searched { domain: Seq<char>, path: Seq<char> },
    Completed { domain: Seq<char>, reason: ReasonView },
}

impl View for LogEntry {
    type V = LogEntryView;

    open spec fn view(&self) -> LogEntryView {
        match self {
            LogEntry::Started(domain) => LogEntryView::Started(domain@),
            LogEntry::Queued { domain, path, depth } => LogEntryView::Queued {
                domain: domain@,
                path: path@,
                depth: *depth,
            },
            LogEntry::Searched { domain, path } => LogEntryView::Searched {
                domain: domain@,
                path: path@,
            },
            LogEntry::Completed { domain, reason } => LogEntryView::Completed {
                domain: domain@,
                reason: reason@,
            },
        }
    }
}

/// The notation of an entry: one line of the log, without its end.
pub open spec fn entry_text(entry: LogEntryView) -> Seq<char> {
    match entry {
        LogEntryView::Started(domain) => "STARTED "@ + domain,
        LogEntryView::Queued { domain, path, depth } => "QUEUED "@ + domain + " "@ + path + " "@
            + text::decimal(depth as nat),
        LogEntryView::Searched { domain, path } => "SEARCHED "@ + domain + " "@ + path,
        LogEntryView::Completed { domain, reason } => "COMPLETED "@ + domain + " "@ + reason_text(
            reason,
        ),
    }
}

impl LogEntry {
    /// The notation of the entry in the log.
    pub fn to_string(&self) -> (r: String)
        ensures
            r@ == entry_text(self@),
    {
        match self {
            LogEntry::Started(domain) => {
                let mut r = "STARTED ".to_string();
                r.append(domain.as_str());
                r
            },
            LogEntry::Queued { domain, path, depth } => {
                let mut r = "QUEUED ".to_string();
                r.append(domain.as_str());
                r.append(" ");
                r.append(path.as_str());
                r.append(" ");
                r.append(from_chars(&decimal_chars(*depth)).as_str());
                r
            },
            LogEntry::Searched { domain, path } => {
                let mut r = "SEARCHED ".to_string();
                r.append(domain.as_str());
                r.append(" ");
                r.append(path.as_str());
                r
            },
            LogEntry::Completed { domain, reason } => {
                let mut r = "COMPLETED ".to_string();
                r.append(domain.as_str());
                r.append(" ");
                r.append(reason.to_string().as_str());
                r
            },
        }
    }
}

impl LogEntry {
    /// The line of the log that holds the entry, with its end.
    pub fn to_line(&self) -> (r: String)
        ensures
            r@ == entry_text(self@) + "\n"@,
    {
        let mut r = self.to_string();
        r.append("\n");
        r
    }
}

/// A line that is no log entry.
#[derive(Debug, Clone, PartialEq, Eq)]
pub struct ParseLogEntryError;

impl ParseLogEntryError {
    /// The message of the error.
    pub fn to_string(&self) -> (r: String)
        ensures
            r@ == "invalid log entry format"@,
    {
        "invalid log entry format".to_string()
    }
}

/// The completion that a sequence of words after `COMPLETED` denotes.
pub open spec fn parse_completed(parts: Seq<Seq<char>>) -> Option<LogEntryView> {
    if parts.len() < 2 {
        None
    } else if parts[1] == "LOGO_FOUND"@ && parts.len() == 5 {
        Some(
            LogEntryView::Completed {
                domain: parts[0],
                reason: ReasonView::LogoFound(
                    LogoView { page_path: parts[2], logo_url: parts[3], hash: parts[4] },
                ),
            },
        )
    } else if parts[1] == "NO_LOGO"@ {
        Some(LogEntryView::Completed { domain: parts[0], reason: ReasonView::NoLogo })
    } else if parts[1] == "LIMIT_REACHED"@ {
        Some(LogEntryView::Completed { domain: parts[0], reason: ReasonView::LimitReached })
    } else {
        None
    }
}

/// The entry that a line denotes, if it denotes one.
pub open spec fn parse_entry(line: Seq<char>) -> Option<LogEntryView> {
    match text::split_once(text::trim(line), ' ') {
        None => None,
        Some((kind, rest)) => if kind == "STARTED"@ {
            Some(LogEntryView::Started(rest))
        } else if kind == "QUEUED"@ {
            let parts = text::splitn(rest, 3, ' ');
            if parts.len() != 3 {
                None
            } else {
                match text::parse_usize(parts[2]) {
                    Some(depth) => Some(
                        LogEntryView::Queued { domain: parts[0], path: parts[1], depth },
                    ),
                    None => None,
                }
            }
        } else if kind == "SEARCHED"@ {
            match text::split_once(rest, ' ') {
                Some((domain, path)) => Some(LogEntryView::Searched { domain, path }),
                None => None,
            }
        } else if kind == "COMPLETED"@ {
            parse_completed(text::splitn(rest, 5, ' '))
        } else {
            None
        },
    }
}

/// Reads what follows `COMPLETED`.
fn completed_from_parts(parts: &Vec<&[char]>) -> (r: Result<LogEntry, ParseLogEntryError>)
    ensures
        match r {
            Ok(entry) => parse_completed(text::pieces(parts@)) == Some(entry@),
            Err(_) => parse_completed(text::pieces(parts@)) is None,
        },
{
    let ghost views = text::pieces(parts@);
    if parts.len() < 2 {
        return Err(ParseLogEntryError);
    }
    assert(views[0] == parts@[0]@ && views[1] == parts@[1]@);
    let domain = from_chars(parts[0]);
    if same_text(parts[1], "LOGO_FOUND") && parts.len() == 5 {
        assert(views[2] == parts@[2]@ && views[3] == parts@[3]@ && views[4] == parts@[4]@);
        let logo = LogoInfo {
            page_path: from_chars(parts[2]),
            logo_url: from_chars(parts[3]),
            hash: from_chars(parts[4]),
        };
        Ok(LogEntry::Completed { domain, reason: CompletionReason::LogoFound(logo) })
    } else if same_text(parts[1], "NO_LOGO") {
        Ok(LogEntry::Completed { domain, reason: CompletionReason::NoLogo })
    } else if same_text(parts[1], "LIMIT_REACHED") {
        Ok(LogEntry::Completed { domain, reason: CompletionReason::LimitReached })
    } else {
        Err(ParseLogEntryError)
    }
}

impl LogEntry {
    /// Reads one line of the log.
    pub fn from_str(line: &str) -> (r: Result<LogEntry, ParseLogEntryError>)
        ensures
            match r {
                Ok(entry) => parse_entry(line@) == Some(entry@),
                Err(_) => parse_entry(line@) is None,
            },
    {
        let all = to_chars(line);
        let chars = trim_chars(&all);
        let (kind, rest) = match split_once_chars(chars, ' ') {
            Some(split) => split,
            None => {
                return Err(ParseLogEntryError);
            },
        };
        if same_text(kind, "STARTED") {
            Ok(LogEntry::Started(from_chars(rest)))
        } else if same_text(kind, "QUEUED") {
            let parts = splitn_chars(rest, 3, ' ');
            let ghost views = text::pieces(parts@);
            if parts.len() != 3 {
                return Err(ParseLogEntryError);
            }
            assert(views[0] == parts@[0]@ && views[1] == parts@[1]@ && views[2] == parts@[2]@);
            match parse_usize_chars(parts[2]) {
                Some(depth) => Ok(
                    LogEntry::Queued {
                        domain: from_chars(parts[0]),
                        path: from_chars(parts[1]),
                        depth,
                    },
                ),
                None => Err(ParseLogEntryError),
            }
        } else if same_text(kind, "SEARCHED") {
            match split_once_chars(rest, ' ') {
                Some((domain, path)) => Ok(
                    LogEntry::Searched { domain: from_chars(domain), path: from_chars(path) },
                ),
                None => Err(ParseLogEntryError),
            }
        } else if same_text(kind, "COMPLETED") {
            completed_from_parts(&splitn_chars(rest, 5, ' '))
        } else {
            Err(ParseLogEntryError)
        }
    }
}

impl FromStr for LogEntry {
    type Err = ParseLogEntryError;

    fn from_str(line: &str) -> (r: Result<LogEntry, ParseLogEntryError>)
        ensures
            match r {
                Ok(entry) => parse_entry(line@) == Some(entry@),
                Err(_) => parse_entry(line@) is None,
            },
    {
        LogEntry::from_str(line)
    }
}

/// Whether `s` is not empty and does not end in white space.
pub open spec fn ends_in_text(s: Seq<char>) -> bool {
    s.len() > 0 && !text::is_white_space(s.last())
}

/// The entries that are read back from their notation: no field but the last
/// one has a space in it, and the notation does not end in white space. A field
/// may still hold a line end; then the notation is no single line.
pub open spec fn loggable(entry: LogEntryView) -> bool {
    match entry {
        LogEntryView::Started(domain) => ends_in_text(domain),
        LogEntryView::Queued { domain, path, .. } => !domain.contains(' ') && !path.contains(' '),
        LogEntryView::Searched { domain, path } => !domain.contains(' ') && ends_in_text(path),
        LogEntryView::Completed { domain, reason } => {
            &&& !domain.contains(' ')
            &&& match reason {
                ReasonView::LogoFound(logo) => {
                    &&& !logo.page_path.contains(' ')
                    &&& !logo.logo_url.contains(' ')
                    &&& ends_in_text(logo.hash)
                },
                _ => true,
            }
        },
    }
}

/// The entries that a line of a log can hold: they are read back from their
/// notation, and there is no line end in it.
pub open spec fn fits_line(entry: LogEntryView) -> bool {
    loggable(entry) && !entry_text(entry).contains('\n')
}

/// The words of the notation.
proof fn lemma_words()
    ensures
        " "@ =~= seq![' '],
        "STARTED "@ =~= "STARTED"@ + seq![' '],
        "QUEUED "@ =~= "QUEUED"@ + seq![' '],
        "SEARCHED "@ =~= "SEARCHED"@ + seq![' '],
        "COMPLETED "@ =~= "COMPLETED"@ + seq![' '],
        "LOGO_FOUND "@ =~= "LOGO_FOUND"@ + seq![' '],
        !"STARTED"@.contains(' '),
        !"QUEUED"@.contains(' '),
        !"SEARCHED"@.contains(' '),
        !"COMPLETED"@.contains(' '),
        !"LOGO_FOUND"@.contains(' '),
        !"NO_LOGO"@.contains(' '),
        !"LIMIT_REACHED"@.contains(' '),
        "STARTED"@.len() == 7 && "STARTED"@[0] == 'S' && "STARTED"@[1] == 'T',
        "QUEUED"@.len() == 6 && "QUEUED"@[0] == 'Q',
        "SEARCHED"@.len() == 8 && "SEARCHED"@[0] == 'S',
        "COMPLETED"@.len() == 9 && "COMPLETED"@[0] == 'C',
        "LOGO_FOUND"@.len() == 10,
        "NO_LOGO"@.len() == 7 && "NO_LOGO"@[6] == 'O',
        "LIMIT_REACHED"@.len() == 13 && "LIMIT_REACHED"@[12] == 'D',
{
    reveal_strlit(" ");
    reveal_strlit("STARTED ");
    reveal_strlit("QUEUED ");
    reveal_strlit("SEARCHED ");
    reveal_strlit("COMPLETED ");
    reveal_strlit("LOGO_FOUND ");
    reveal_strlit("STARTED");
    reveal_strlit("QUEUED");
    reveal_strlit("SEARCHED");
    reveal_strlit("COMPLETED");
    reveal_strlit("LOGO_FOUND");
    reveal_strlit("NO_LOGO");
    reveal_strlit("LIMIT_REACHED");
}

/// A line made of a first word and a rest is read by that word.
proof fn lemma_line(kind: Seq<char>, rest: Seq<char>)
    requires
        kind.len() > 0,
        !text::is_white_space(kind[0]),
        !kind.contains(' '),
        ends_in_text(rest),
    ensures
        text::split_once(text::trim(kind + seq![' '] + rest), ' ') == Some((kind, rest)),
{
    let line = kind + seq![' '] + rest;
    assert(line.last() == rest.last());
    assert(line[0] == kind[0]);
    text::lemma_split_once_joined(kind, rest, ' ');
}

/// A queued path is read back.
proof fn lemma_queued_is_read_back(domain: Seq<char>, path: Seq<char>, depth: usize)
    requires
        !domain.contains(' '),
        !path.contains(' '),
    ensures
        ({
            let entry = LogEntryView::Queued { domain, path, depth };
            parse_entry(entry_text(entry)) == Some(entry)
        }),
{
    lemma_words();
    let entry = LogEntryView::Queued { domain, path, depth };
    let number = text::decimal(depth as nat);
    text::lemma_decimal(depth as nat);
    text::law_decimal_roundtrip(depth);
    let tail = path + seq![' '] + number;
    let rest = domain + seq![' '] + tail;
    assert(text::is_digit(number[number.len() - 1]));
    assert(rest.last() == number.last());
    lemma_line("QUEUED"@, rest);
    assert(entry_text(entry) =~= "QUEUED"@ + seq![' '] + rest);
    text::lemma_splitn_joined(domain, tail, 3, ' ');
    text::lemma_splitn_joined(path, number, 2, ' ');
    text::lemma_splitn_whole(number, 1, ' ');
    assert(text::splitn(rest, 3, ' ') =~= seq![domain, path, number]);
    assert("QUEUED"@ != "STARTED"@);
}

/// A searched path is read back.
proof fn lemma_searched_is_read_back(domain: Seq<char>, path: Seq<char>)
    requires
        !domain.contains(' '),
        ends_in_text(path),
    ensures
        ({
            let entry = LogEntryView::Searched { domain, path };
            parse_entry(entry_text(entry)) == Some(entry)
        }),
{
    lemma_words();
    let entry = LogEntryView::Searched { domain, path };
    let rest = domain + seq![' '] + path;
    assert(rest.last() == path.last());
    lemma_line("SEARCHED"@, rest);
    assert(entry_text(entry) =~= "SEARCHED"@ + seq![' '] + rest);
    text::lemma_split_once_joined(domain, path, ' ');
    assert("SEARCHED"@.len() != "STARTED"@.len());
    assert("SEARCHED"@.len() != "QUEUED"@.len());
}

/// The pieces of a completion are read back.
proof fn lemma_reason_is_read_back(domain: Seq<char>, reason: ReasonView)
    requires
        loggable(LogEntryView::Completed { domain, reason }),
    ensures
        ends_in_text(domain + seq![' '] + reason_text(reason)),
        parse_completed(text::splitn(domain + seq![' '] + reason_text(reason), 5, ' ')) == Some(
            LogEntryView::Completed { domain, reason },
        ),
{
    lemma_words();
    let tail = reason_text(reason);
    let rest = domain + seq![' '] + tail;
    text::lemma_splitn_joined(domain, tail, 5, ' ');
    match reason {
        ReasonView::LogoFound(logo) => {
            let from_url = logo.logo_url + seq![' '] + logo.hash;
            let from_path = logo.page_path + seq![' '] + from_url;
            assert(tail =~= "LOGO_FOUND"@ + seq![' '] + from_path);
            assert(rest.last() == logo.hash.last());
            text::lemma_splitn_joined("LOGO_FOUND"@, from_path, 4, ' ');
            text::lemma_splitn_joined(logo.page_path, from_url, 3, ' ');
            text::lemma_splitn_joined(logo.logo_url, logo.hash, 2, ' ');
            text::lemma_splitn_whole(logo.hash, 1, ' ');
            assert(text::splitn(rest, 5, ' ') =~= seq![
                domain,
                "LOGO_FOUND"@,
                logo.page_path,
                logo.logo_url,
                logo.hash,
            ]);
        },
        _ => {
            assert(rest.last() == tail.last());
            text::lemma_splitn_whole(tail, 4, ' ');
            assert(text::splitn(rest, 5, ' ') =~= seq![domain, tail]);
            assert("NO_LOGO"@.len() != "LIMIT_REACHED"@.len());
            assert("LOGO_FOUND"@.len() != "LIMIT_REACHED"@.len());
            assert("LOGO_FOUND"@.len() != "NO_LOGO"@.len());
        },
    }
}

/// A completion is read back.
proof fn lemma_completed_is_read_back(domain: Seq<char>, reason: ReasonView)
    requires
        loggable(LogEntryView::Completed { domain, reason }),
    ensures
        ({
            let entry = LogEntryView::Completed { domain, reason };
            parse_entry(entry_text(entry)) == Some(entry)
        }),
{
    lemma_words();
    let entry = LogEntryView::Completed { domain, reason };
    let rest = domain + seq![' '] + reason_text(reason);
    lemma_reason_is_read_back(domain, reason);
    lemma_line("COMPLETED"@, rest);
    assert(entry_text(entry) =~= "COMPLETED"@ + seq![' '] + rest);
    assert("COMPLETED"@.len() != "STARTED"@.len());
    assert("COMPLETED"@.len() != "QUEUED"@.len());
    assert("COMPLETED"@.len() != "SEARCHED"@.len());
}

/// An entry without stray spaces is read back from its notation.
proof fn lemma_loggable_is_read_back(entry: LogEntryView)
    requires
        loggable(entry),
    ensures
        parse_entry(entry_text(entry)) == Some(entry),
{
    match entry {
        LogEntryView::Started(domain) => {
            lemma_words();
            lemma_line("STARTED"@, domain);
        },
        LogEntryView::Queued { domain, path, depth } => {
            lemma_queued_is_read_back(domain, path, depth);
        },
        LogEntryView::Searched { domain, path } => {
            lemma_searched_is_read_back(domain, path);
        },
        LogEntryView::Completed { domain, reason } => {
            lemma_completed_is_read_back(domain, reason);
        },
    }
}

/// What comes after the first space of a text ends as the text does.
proof fn lemma_after_ends_in_text(s: Seq<char>)
    requires
        ends_in_text(s),
    ensures
        text::split_once(s, ' ') matches Some((_, after)) ==> ends_in_text(after),
{
    text::lemma_split_once_before(s, ' ');
    if let Some((before, after)) = text::split_once(s, ' ') {
        if after.len() == 0 {
            assert(s.last() == ' ');
        } else {
            assert(s.last() == after.last());
        }
    }
}

/// The notation of an entry that is read back does not end in white space.
proof fn lemma_notation_ends_in_text(entry: LogEntryView)
    requires
        loggable(entry),
    ensures
        ends_in_text(entry_text(entry)),
{
    lemma_words();
    let line = entry_text(entry);
    match entry {
        LogEntryView::Started(domain) => {
            assert(line.last() == domain.last());
        },
        LogEntryView::Queued { depth, .. } => {
            let number = text::decimal(depth as nat);
            text::lemma_decimal(depth as nat);
            assert(text::is_digit(number[number.len() - 1]));
            assert(line.last() == number.last());
        },
        LogEntryView::Searched { path, .. } => {
            assert(line.last() == path.last());
        },
        LogEntryView::Completed { reason, .. } => {
            match reason {
                ReasonView::LogoFound(logo) => {
                    assert(reason_text(reason).last() == logo.hash.last());
                },
                _ => {},
            }
            assert(line.last() == reason_text(reason).last());
        },
    }
}

/// An entry that fits in a line, written at the end of a log, is its last line.
pub proof fn lemma_append_entry_line(log: Seq<char>, entry: LogEntryView)
    requires
        text::is_ended(log),
        fits_line(entry),
    ensures
        text::text_lines(log + (entry_text(entry) + "\n"@)) == text::text_lines(log).push(
            entry_text(entry),
        ),
        text::is_ended(log + (entry_text(entry) + "\n"@)),
{
    reveal_strlit("\n");
    let line = entry_text(entry);
    assert("\n"@ =~= seq!['\n']);
    assert(log + (line + "\n"@) =~= log + line + seq!['\n']);
    lemma_notation_ends_in_text(entry);
    text::lemma_append_line(log, line);
}

/// What is written of an entry is one line from which it is read back, exactly
/// when the entry fits in a line.
pub proof fn law_line_roundtrip(entry: LogEntryView)
    ensures
        ({
            let lines = text::text_lines(entry_text(entry) + "\n"@);
            lines.len() == 1 && parse_entry(lines[0]) == Some(entry)
        }) <==> fits_line(entry),
{
    reveal_strlit("\n");
    let line = entry_text(entry);
    assert("\n"@ =~= seq!['\n']);
    law_entry_roundtrip(entry);
    if line.contains('\n') {
        text::lemma_more_than_one_line(line);
    } else {
        assert(Seq::empty() + line + seq!['\n'] =~= line + "\n"@);
        text::lemma_append_line(Seq::empty(), line);
        assert(text::text_lines(Seq::<char>::empty()) =~= Seq::empty());
        if loggable(entry) {
            lemma_notation_ends_in_text(entry);
        } else {
            law_parsed_is_loggable(text::strip_return(line));
        }
    }
}

/// Whatever is read from a line is read back from its notation.
pub proof fn law_parsed_is_loggable(line: Seq<char>)
    ensures
        parse_entry(line) matches Some(entry) ==> loggable(entry),
{
    let trimmed = text::trim(line);
    text::lemma_trim_ends(line);
    text::lemma_split_once_before(trimmed, ' ');
    reveal_with_fuel(text::splitn, 6);
    if let Some((kind, rest)) = text::split_once(trimmed, ' ') {
        lemma_after_ends_in_text(trimmed);
        text::lemma_split_once_before(rest, ' ');
        lemma_after_ends_in_text(rest);
        if let Some((first, rest1)) = text::split_once(rest, ' ') {
            text::lemma_split_once_before(rest1, ' ');
            lemma_after_ends_in_text(rest1);
            if let Some((second, rest2)) = text::split_once(rest1, ' ') {
                text::lemma_split_once_before(rest2, ' ');
                lemma_after_ends_in_text(rest2);
                if let Some((third, rest3)) = text::split_once(rest2, ' ') {
                    text::lemma_split_once_before(rest3, ' ');
                    lemma_after_ends_in_text(rest3);
                }
            }
        }
    }
}

/// An entry is read back from its notation exactly when no space stands where
/// it would be taken for a separator or for white space at the end.
pub proof fn law_entry_roundtrip(entry: LogEntryView)
    ensures
        parse_entry(entry_text(entry)) == Some(entry) <==> loggable(entry),
{
    if loggable(entry) {
        lemma_loggable_is_read_back(entry);
    } else {
        law_parsed_is_loggable(entry_text(entry));
    }
}

/// Reading a line, writing the entry and reading again changes nothing.
pub proof fn law_rewriting_keeps_entries(line: Seq<char>)
    ensures
        parse_entry(line) matches Some(entry) ==> parse_entry(entry_text(entry)) == Some(entry),
{
    law_parsed_is_loggable(line);
    if let Some(entry) = parse_entry(line) {
        lemma_loggable_is_read_back(entry);
    }
}

/// The notation of an entry is its kind and its fields, with a space between
/// each two.
pub proof fn law_notation_by_fields(domain: Seq<char>, path: Seq<char>, depth: usize, logo: LogoView)
    ensures
        entry_text(LogEntryView::Started(domain)) == "STARTED "@ + domain,
        entry_text(LogEntryView::Queued { domain, path, depth }) == "QUEUED "@ + domain + " "@
            + path + " "@ + text::decimal(depth as nat),
        entry_text(LogEntryView::Searched { domain, path }) == "SEARCHED "@ + domain + " "@ + path,
        entry_text(LogEntryView::Completed { domain, reason: ReasonView::NoLogo })
            == "COMPLETED "@ + domain + " NO_LOGO"@,
        entry_text(LogEntryView::Completed { domain, reason: ReasonView::LimitReached })
            == "COMPLETED "@ + domain + " LIMIT_REACHED"@,
        entry_text(LogEntryView::Completed { domain, reason: ReasonView::LogoFound(logo) })
            == "COMPLETED "@ + domain + " LOGO_FOUND "@ + logo.page_path + " "@ + logo.logo_url
            + " "@ + logo.hash,
{
    reveal_strlit(" ");
    reveal_strlit(" NO_LOGO");
    reveal_strlit(" LIMIT_REACHED");
    reveal_strlit(" LOGO_FOUND ");
    reveal_strlit("NO_LOGO");
    reveal_strlit("LIMIT_REACHED");
    reveal_strlit("LOGO_FOUND ");
    assert(" NO_LOGO"@ =~= " "@ + "NO_LOGO"@);
    assert(" LIMIT_REACHED"@ =~= " "@ + "LIMIT_REACHED"@);
    assert(" LOGO_FOUND "@ =~= " "@ + "LOGO_FOUND "@);
    assert("COMPLETED "@ + domain + " "@ + "NO_LOGO"@ =~= "COMPLETED "@ + domain + " NO_LOGO"@);
    assert("COMPLETED "@ + domain + " "@ + "LIMIT_REACHED"@ =~= "COMPLETED "@ + domain
        + " LIMIT_REACHED"@);
    assert("COMPLETED "@ + domain + " "@ + ("LOGO_FOUND "@ + logo.page_path + " "@ + logo.logo_url
        + " "@ + logo.hash) =~= "COMPLETED "@ + domain + " LOGO_FOUND "@ + logo.page_path + " "@
        + logo.logo_url + " "@ + logo.hash);
}

/// The line of a started domain is its kind and the domain, with a space
/// between them and white space around them at will.
pub proof fn law_started_line(line: Seq<char>, domain: Seq<char>)
    ensures
        parse_entry(line) == Some(LogEntryView::Started(domain)) <==> text::trim(line)
            == "STARTED"@ + seq![' '] + domain,
{
    lemma_words();
    let t = text::trim(line);
    text::lemma_split_once_before(t, ' ');
    text::lemma_split_once_joined("STARTED"@, domain, ' ');
}

/// The line of a searched path is its kind, the domain, in which there is no
/// space, and the path.
pub proof fn law_searched_line(line: Seq<char>, domain: Seq<char>, path: Seq<char>)
    ensures
        parse_entry(line) == Some(LogEntryView::Searched { domain, path }) <==> text::trim(line)
            == "SEARCHED"@ + seq![' '] + (domain + seq![' '] + path) && !domain.contains(' '),
{
    lemma_words();
    let t = text::trim(line);
    let rest = domain + seq![' '] + path;
    text::lemma_split_once_before(t, ' ');
    text::lemma_split_once_joined("SEARCHED"@, rest, ' ');
    assert("SEARCHED"@.len() != "STARTED"@.len());
    assert("SEARCHED"@.len() != "QUEUED"@.len());
    if let Some((_, after)) = text::split_once(t, ' ') {
        text::lemma_split_once_before(after, ' ');
    }
    if !domain.contains(' ') {
        text::lemma_split_once_joined(domain, path, ' ');
    }
}

/// The line of a queued path is its kind, the domain and the path, in which
/// there is no space, and a number.
#[verifier::rlimit(30)]
pub proof fn law_queued_line(line: Seq<char>, domain: Seq<char>, path: Seq<char>, depth: usize)
    ensures
        parse_entry(line) == Some(LogEntryView::Queued { domain, path, depth })
            <==> exists|number: Seq<char>|
            #[trigger] text::parse_usize(number) == Some(depth) && text::trim(line) == "QUEUED"@
                + seq![' '] + (domain + seq![' '] + (path + seq![' '] + number))
                && !domain.contains(' ') && !path.contains(' '),
{
    lemma_words();
    let t = text::trim(line);
    text::lemma_split_once_before(t, ' ');
    assert("QUEUED"@.len() != "STARTED"@.len());
    if parse_entry(line) == Some(LogEntryView::Queued { domain, path, depth }) {
        let (kind, rest) = text::split_once(t, ' ')->0;
        reveal_with_fuel(text::splitn, 4);
        text::lemma_split_once_before(rest, ' ');
        let (first, rest1) = text::split_once(rest, ' ')->0;
        text::lemma_split_once_before(rest1, ' ');
        let parts = text::splitn(rest, 3, ' ');
        assert(parts.len() == 3);
        let (second, rest2) = text::split_once(rest1, ' ')->0;
        assert(parts[0] == first && parts[1] == second && parts[2] == rest2);
        assert(text::parse_usize(rest2) == Some(depth));
    }
    if exists|number: Seq<char>|
        #[trigger] text::parse_usize(number) == Some(depth) && t == "QUEUED"@ + seq![' '] + (domain
            + seq![' '] + (path + seq![' '] + number)) && !domain.contains(' ') && !path.contains(
            ' ',
        ) {
        let number = choose|number: Seq<char>|
            #[trigger] text::parse_usize(number) == Some(depth) && t == "QUEUED"@ + seq![' '] + (
            domain + seq![' '] + (path + seq![' '] + number)) && !domain.contains(' ')
                && !path.contains(' ');
        let tail = path + seq![' '] + number;
        let rest = domain + seq![' '] + tail;
        text::lemma_split_once_joined("QUEUED"@, rest, ' ');
        text::lemma_splitn_joined(domain, tail, 3, ' ');
        text::lemma_splitn_joined(path, number, 2, ' ');
        text::lemma_splitn_whole(number, 1, ' ');
        assert(text::splitn(rest, 3, ' ') =~= seq![domain, path, number]);
    }
}

/// What stands after the first word of the lines of completed domains: the
/// domain, in which there is no space, and the reason.
proof fn lemma_completed_line(line: Seq<char>, rest: Seq<char>)
    requires
        text::trim(line) == "COMPLETED"@ + seq![' '] + rest,
    ensures
        parse_entry(line) == parse_completed(text::splitn(rest, 5, ' ')),
{
    lemma_words();
    text::lemma_split_once_joined("COMPLETED"@, rest, ' ');
    assert("COMPLETED"@.len() != "STARTED"@.len());
    assert("COMPLETED"@.len() != "QUEUED"@.len());
    assert("COMPLETED"@.len() != "SEARCHED"@.len());
}

/// A completion is read only from a line of that kind.
proof fn lemma_completion_is_of_its_kind(line: Seq<char>)
    requires
        parse_entry(line) is Some,
        parse_entry(line)->0 is Completed,
    ensures
        exists|rest: Seq<char>|
            text::trim(line) == #[trigger] ("COMPLETED"@ + seq![' '] + rest) && parse_entry(line)
                == parse_completed(text::splitn(rest, 5, ' ')),
{
    let t = text::trim(line);
    text::lemma_split_once_before(t, ' ');
    let (kind, rest) = text::split_once(t, ' ')->0;
    assert(t == "COMPLETED"@ + seq![' '] + rest);
    lemma_completed_line(line, rest);
}

/// A word and what may follow it after a space.
pub open spec fn starts_with_word(s: Seq<char>, word: Seq<char>) -> bool {
    s == word || exists|more: Seq<char>| s == #[trigger] (word + seq![' '] + more)
}

proof fn lemma_first_words(rest: Seq<char>, domain: Seq<char>, word: Seq<char>)
    requires
        !word.contains(' '),
    ensures
        ({
            let parts = text::splitn(rest, 5, ' ');
            parts.len() >= 2 && parts[0] == domain && parts[1] == word
        }) <==> !domain.contains(' ') && exists|tail: Seq<char>|
            rest == #[trigger] (domain + seq![' '] + tail) && starts_with_word(tail, word),
{
    reveal_with_fuel(text::splitn, 3);
    text::lemma_split_once_before(rest, ' ');
    let parts = text::splitn(rest, 5, ' ');
    if parts.len() >= 2 && parts[0] == domain && parts[1] == word {
        let (first, tail) = text::split_once(rest, ' ')->0;
        text::lemma_split_once_before(tail, ' ');
        assert(first == domain);
        assert(rest == domain + seq![' '] + tail);
        match text::split_once(tail, ' ') {
            Some((second, more)) => {
                assert(parts[1] == second);
                assert(tail == word + seq![' '] + more);
            },
            None => {
                assert(parts[1] == tail);
            },
        }
    }
    if !domain.contains(' ') && exists|tail: Seq<char>|
        rest == #[trigger] (domain + seq![' '] + tail) && starts_with_word(tail, word) {
        let tail = choose|tail: Seq<char>|
            rest == #[trigger] (domain + seq![' '] + tail) && starts_with_word(tail, word);
        text::lemma_splitn_joined(domain, tail, 5, ' ');
        if tail == word {
            text::lemma_splitn_whole(tail, 4, ' ');
        } else {
            let more = choose|more: Seq<char>| tail == #[trigger] (word + seq![' '] + more);
            text::lemma_splitn_joined(word, more, 4, ' ');
        }
        assert(parts[0] == domain);
        assert(parts[1] == word);
    }
}

/// The line of a domain that is completed without a logo is its kind, the
/// domain, in which there is no space, and the reason; anything may follow.
#[verifier::rlimit(30)]
pub proof fn law_completed_line_without_logo(
    line: Seq<char>,
    domain: Seq<char>,
    reason: ReasonView,
)
    requires
        !(reason is LogoFound),
    ensures
        ({
            let word = if reason is NoLogo {
                "NO_LOGO"@
            } else {
                "LIMIT_REACHED"@
            };
            parse_entry(line) == Some(LogEntryView::Completed { domain, reason })
                <==> !domain.contains(' ') && exists|tail: Seq<char>|
                text::trim(line) == "COMPLETED"@ + seq![' '] + #[trigger] (domain + seq![' ']
                    + tail) && starts_with_word(tail, word)
        }),
{
    lemma_words();
    let t = text::trim(line);
    let word = if reason is NoLogo {
        "NO_LOGO"@
    } else {
        "LIMIT_REACHED"@
    };
    assert("NO_LOGO"@.len() != "LIMIT_REACHED"@.len());
    assert("LOGO_FOUND"@.len() != "LIMIT_REACHED"@.len());
    assert("LOGO_FOUND"@.len() != "NO_LOGO"@.len());
    if parse_entry(line) == Some(LogEntryView::Completed { domain, reason }) {
        lemma_completion_is_of_its_kind(line);
        let rest = choose|rest: Seq<char>|
            t == #[trigger] ("COMPLETED"@ + seq![' '] + rest) && parse_entry(line)
                == parse_completed(text::splitn(rest, 5, ' '));
        lemma_first_words(rest, domain, word);
        let tail = choose|tail: Seq<char>|
            rest == #[trigger] (domain + seq![' '] + tail) && starts_with_word(tail, word);
        assert(t == "COMPLETED"@ + seq![' '] + (domain + seq![' '] + tail));
    }
    if !domain.contains(' ') && exists|tail: Seq<char>|
        t == "COMPLETED"@ + seq![' '] + #[trigger] (domain + seq![' '] + tail) && starts_with_word(
            tail,
            word,
        ) {
        let tail = choose|tail: Seq<char>|
            t == "COMPLETED"@ + seq![' '] + #[trigger] (domain + seq![' '] + tail)
                && starts_with_word(tail, word);
        let rest = domain + seq![' '] + tail;
        lemma_completed_line(line, rest);
        lemma_first_words(rest, domain, word);
    }
}

/// The line of a domain that is completed with a logo is its kind, the domain,
/// the reason, and the fields of the logo; only in the last one there may be
/// spaces.
#[verifier::rlimit(30)]
pub proof fn law_completed_line_with_logo(line: Seq<char>, domain: Seq<char>, logo: LogoView)
    ensures
        parse_entry(line) == Some(
            LogEntryView::Completed { domain, reason: ReasonView::LogoFound(logo) },
        ) <==> text::trim(line) == "COMPLETED"@ + seq![' '] + (domain + seq![' '] + ("LOGO_FOUND"@
            + seq![' '] + (logo.page_path + seq![' '] + (logo.logo_url + seq![' '] + logo.hash))))
            && !domain.contains(' ') && !logo.page_path.contains(' ') && !logo.logo_url.contains(
            ' ',
        ),
{
    lemma_words();
    let t = text::trim(line);
    let from_url = logo.logo_url + seq![' '] + logo.hash;
    let from_path = logo.page_path + seq![' '] + from_url;
    let tail = "LOGO_FOUND"@ + seq![' '] + from_path;
    let rest = domain + seq![' '] + tail;
    if parse_entry(line) == Some(
        LogEntryView::Completed { domain, reason: ReasonView::LogoFound(logo) },
    ) {
        lemma_completion_is_of_its_kind(line);
        let r0 = choose|r0: Seq<char>|
            t == #[trigger] ("COMPLETED"@ + seq![' '] + r0) && parse_entry(line)
                == parse_completed(text::splitn(r0, 5, ' '));
        reveal_with_fuel(text::splitn, 6);
        let parts = text::splitn(r0, 5, ' ');
        assert(parts.len() == 5);
        text::lemma_split_once_before(r0, ' ');
        let (p0, r1) = text::split_once(r0, ' ')->0;
        text::lemma_split_once_before(r1, ' ');
        let (p1, r2) = text::split_once(r1, ' ')->0;
        text::lemma_split_once_before(r2, ' ');
        let (p2, r3) = text::split_once(r2, ' ')->0;
        text::lemma_split_once_before(r3, ' ');
        let (p3, r4) = text::split_once(r3, ' ')->0;
        assert(parts =~= seq![p0, p1, p2, p3, r4]);
        assert(parts[0] == p0 && parts[1] == p1 && parts[2] == p2 && parts[3] == p3 && parts[4]
            == r4);
        assert(r0 == rest);
    }
    if t == "COMPLETED"@ + seq![' '] + rest && !domain.contains(' ') && !logo.page_path.contains(
        ' ',
    ) && !logo.logo_url.contains(' ') {
        lemma_completed_line(line, rest);
        text::lemma_splitn_joined(domain, tail, 5, ' ');
        text::lemma_splitn_joined("LOGO_FOUND"@, from_path, 4, ' ');
        text::lemma_splitn_joined(logo.page_path, from_url, 3, ' ');
        text::lemma_splitn_joined(logo.logo_url, logo.hash, 2, ' ');
        text::lemma_splitn_whole(logo.hash, 1, ' ');
        assert(text::splitn(rest, 5, ' ') =~= seq![
            domain,
            "LOGO_FOUND"@,
            logo.page_path,
            logo.logo_url,
            logo.hash,
        ]);
    }
}

} // verus!
