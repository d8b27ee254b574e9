//! The result of a crawl as CSV: one row for each domain with a logo.

use vstd::prelude::*;
use vstd::string::*;

use crate::log_entry::{CompletionReason, ReasonView};
use crate::messages::LogoView;
use crate::progress::{load_progress, CrawlState};
#[allow(unused_imports)]
use crate::progress;

verus! {

/// Whether a CSV field has a character because of which it is quoted.
pub open spec fn needs_quotes(field: Seq<char>) -> bool {
    field.contains(',') || field.contains('"') || field.contains('\n') || field.contains('\r')
}

/// `field` with every quotation mark doubled.
pub open spec fn double_quotes(field: Seq<char>) -> Seq<char>
    decreases field.len(),
{
    if field.len() == 0 {
        Seq::empty()
    } else if field.last() == '"' {
        double_quotes(field.drop_last()).push('"').push('"')
    } else {
        double_quotes(field.drop_last()).push(field.last())
    }
}

/// The notation of a CSV field.
pub open spec fn csv_field(field: Seq<char>) -> Seq<char> {
    if needs_quotes(field) {
        seq!['"'] + double_quotes(field) + seq!['"']
    } else {
        field
    }
}

/// The notation of CSV fields, with a comma between each two.
pub open spec fn csv_fields(fields: Seq<Seq<char>>) -> Seq<char>
    decreases fields.len(),
{
    if fields.len() == 0 {
        Seq::empty()
    } else if fields.len() == 1 {
        csv_field(fields[0])
    } else {
        csv_fields(fields.drop_last()).push(',') + csv_field(fields.last())
    }
}

/// The line of a CSV record; a line that would be empty holds two quotation marks.
pub open spec fn csv_line(fields: Seq<Seq<char>>) -> Seq<char> {
    let text = csv_fields(fields);
    (if text.len() == 0 {
        seq!['"', '"']
    } else {
        text
    }).push('\n')
}

/// `csv::Writer::write_record` on a writer that has written nothing yet, over
/// memory: the one line of the record. A field with a comma, a quotation mark
/// or a line end in it is quoted, with its quotation marks doubled; the others
/// stand as they are. A record without any text is a pair of quotation marks.
/// Writing to memory does not fail.
#[verifier::external_body]
pub(crate) fn csv_record(fields: &Vec<String>) -> (r: String)
    ensures
        r@ == csv_line(progress::string_views(fields@)),
{
    let mut writer = csv::Writer::from_writer(Vec::new());
    writer.write_record(fields).unwrap();
    String::from_utf8(writer.into_inner().unwrap()).unwrap()
}

/// The row of a domain with a logo.
pub open spec fn csv_row(domain: Seq<char>, logo: LogoView) -> Seq<Seq<char>> {
    seq![domain, logo.page_path, logo.logo_url, logo.hash]
}

/// The names of the columns.
pub open spec fn csv_header() -> Seq<Seq<char>> {
    seq!["domain"@, "page_path"@, "logo_url"@, "hash"@]
}

/// The rows of the domains with a logo, in the given order.
pub open spec fn csv_rows(
    order: Seq<Seq<char>>,
    completed: Map<Seq<char>, ReasonView>,
) -> Seq<Seq<Seq<char>>>
    decreases order.len(),
{
    if order.len() == 0 {
        Seq::empty()
    } else {
        let rows = csv_rows(order.drop_last(), completed);
        match completed[order.last()] {
            ReasonView::LogoFound(logo) => rows.push(csv_row(order.last(), logo)),
            _ => rows,
        }
    }
}

/// The lines of records, one after the other.
pub open spec fn csv_text(records: Seq<Seq<Seq<char>>>) -> Seq<char>
    decreases records.len(),
{
    if records.len() == 0 {
        Seq::empty()
    } else {
        csv_text(records.drop_last()) + csv_line(records.last())
    }
}

/// The records of the CSV file: the header, then the rows.
pub open spec fn csv_records(state: progress::CrawlStateView) -> Seq<Seq<Seq<char>>> {
    seq![csv_header()] + csv_rows(state.order, state.completed)
}

/// The CSV file for a state.
pub fn csv_of_state(state: &CrawlState) -> (r: String)
    requires
        state.wf(),
    ensures
        r@ == csv_text(csv_records(state@)),
{
    let mut header: Vec<String> = Vec::new();
    header.push("domain".to_string());
    header.push("page_path".to_string());
    header.push("logo_url".to_string());
    header.push("hash".to_string());
    assert(progress::string_views(header@) =~= csv_header());
    let mut r = csv_record(&header);
    let completed = state.completed();
    let mut i: usize = 0;
    let ghost order = state@.order;
    let ghost reasons = state@.completed;
    proof {
        completed.lemma_keys();
        reveal_with_fuel(csv_text, 2);
        assert(seq![csv_header()].drop_last() =~= Seq::empty());
        assert(seq![csv_header()] + csv_rows(order.take(0), reasons) =~= seq![csv_header()]);
    }
    while i < completed.len()
        invariant
            i <= order.len(),
            completed.wf(),
            completed.keys() == order,
            progress::reason_views(completed@) == reasons,
            forall|j: int| 0 <= j < order.len() ==> #[trigger] completed@.contains_key(order[j]),
            r@ == csv_text(seq![csv_header()] + csv_rows(order.take(i as int), reasons)),
        decreases order.len() - i,
    {
        let ghost records = seq![csv_header()] + csv_rows(order.take(i as int), reasons);
        assert(order.take(i + 1).drop_last() =~= order.take(i as int));
        assert(completed@.contains_key(order[i as int]));
        let domain = completed.key_at(i);
        if let CompletionReason::LogoFound(logo) = completed.value_at(i) {
            let mut row: Vec<String> = Vec::new();
            row.push(domain.clone());
            row.push(logo.page_path.clone());
            row.push(logo.logo_url.clone());
            row.push(logo.hash.clone());
            assert(progress::string_views(row@) =~= csv_row(order[i as int], logo@));
            let line = csv_record(&row);
            r.append(line.as_str());
            proof {
                let next = seq![csv_header()] + csv_rows(order.take(i + 1), reasons);
                assert(next.drop_last() =~= records);
                assert(next.last() == csv_row(order[i as int], logo@));
            }
        }
        i += 1;
    }
    assert(order.take(i as int) =~= order);
    r
}

/// The CSV file for a progress log.
pub fn generate_csv(lines: &Vec<String>) -> (r: String)
    ensures
        r@ == csv_text(csv_records(progress::replay(progress::string_views(lines@)))),
{
    let state = load_progress(lines);
    csv_of_state(&state)
}

/// A field without special characters stands as it is.
pub proof fn law_plain_field_stands_as_it_is(field: Seq<char>)
    requires
        !needs_quotes(field),
    ensures
        csv_field(field) == field,
{
}

/// There is a row for a domain exactly when it was completed with a logo, and
/// the row holds that logo.
pub proof fn law_rows_are_the_logos(
    order: Seq<Seq<char>>,
    completed: Map<Seq<char>, ReasonView>,
    domain: Seq<char>,
    logo: LogoView,
)
    requires
        order.to_set() == completed.dom(),
    ensures
        csv_rows(order, completed).contains(csv_row(domain, logo)) <==> completed.contains_key(domain)
            && completed[domain] == ReasonView::LogoFound(logo),
{
    lemma_rows_of_order(order, completed, domain, logo);
    assert(order.contains(domain) <==> order.to_set().contains(domain));
}

/// The CSV of a log has a row for a domain exactly when the log tells that the
/// domain was completed with a logo, and the row holds that logo.
pub proof fn law_csv_of_log(lines: Seq<Seq<char>>, domain: Seq<char>, logo: LogoView)
    ensures
        ({
            let state = progress::replay(lines);
            csv_records(state).skip(1).contains(csv_row(domain, logo))
                <==> state.completed.contains_key(domain) && state.completed[domain]
                == ReasonView::LogoFound(logo)
        }),
{
    let state = progress::replay(lines);
    progress::law_order_lists_completed(lines);
    law_rows_are_the_logos(state.order, state.completed, domain, logo);
    assert(csv_records(state).skip(1) =~= csv_rows(state.order, state.completed));
}

/// The rows of an order are those of its members.
proof fn lemma_rows_of_order(
    order: Seq<Seq<char>>,
    completed: Map<Seq<char>, ReasonView>,
    domain: Seq<char>,
    logo: LogoView,
)
    ensures
        csv_rows(order, completed).contains(csv_row(domain, logo)) <==> order.contains(domain)
            && completed[domain] == ReasonView::LogoFound(logo),
    decreases order.len(),
{
    if order.len() > 0 {
        let before = order.drop_last();
        let rows = csv_rows(order, completed);
        let rows_before = csv_rows(before, completed);
        let row = csv_row(domain, logo);
        lemma_rows_of_order(before, completed, domain, logo);
        if rows_before.contains(row) {
            let i = choose|i: int| 0 <= i < rows_before.len() && rows_before[i] == row;
            assert(rows[i] == row);
        }
        if before.contains(domain) {
            let i = choose|i: int| 0 <= i < before.len() && before[i] == domain;
            assert(order[i] == domain);
        }
        if rows.contains(row) && !rows_before.contains(row) {
            let i = choose|i: int| 0 <= i < rows.len() && rows[i] == row;
            if i < rows_before.len() {
                assert(rows_before[i] == row);
            }
            if let ReasonView::LogoFound(last) = completed[order.last()] {
                lemma_row_determines_domain(domain, logo, order.last(), last);
            }
            assert(order[order.len() - 1] == domain);
        }
        if order.contains(domain) && completed[domain] == ReasonView::LogoFound(logo) && !before.contains(
            domain,
        ) {
            let i = choose|i: int| 0 <= i < order.len() && order[i] == domain;
            if i < before.len() {
                assert(before[i] == domain);
            }
            assert(rows[rows_before.len() as int] == row);
        }
    }
}

/// A row tells its domain and its logo.
proof fn lemma_row_determines_domain(d1: Seq<char>, l1: LogoView, d2: Seq<char>, l2: LogoView)
    requires
        csv_row(d1, l1) == csv_row(d2, l2),
    ensures
        d1 == d2,
        l1 == l2,
{
    let a = csv_row(d1, l1);
    let b = csv_row(d2, l2);
    assert(a[0] == b[0] && a[1] == b[1] && a[2] == b[2] && a[3] == b[3]);
}

/// The text of two lists of records is that of the first, then that of the
/// second; that of one record is its line.
pub proof fn law_records_line_by_line(a: Seq<Seq<Seq<char>>>, b: Seq<Seq<Seq<char>>>)
    ensures
        csv_text(a + b) == csv_text(a) + csv_text(b),
        b.len() == 1 ==> csv_text(b) == csv_line(b[0]),
    decreases b.len(),
{
    if b.len() == 0 {
        assert(a + b =~= a);
        assert(csv_text(a) + csv_text(b) =~= csv_text(a));
    } else {
        law_records_line_by_line(a, b.drop_last());
        assert((a + b).drop_last() =~= a + b.drop_last());
        assert(csv_text(a + b) =~= csv_text(a) + csv_text(b));
        if b.len() == 1 {
            assert(b.drop_last() =~= Seq::empty());
            assert(csv_text(b) =~= csv_line(b[0]));
        }
    }
}

/// The file starts with the names of the columns; the rows follow in the order
/// in which the domains were completed.
pub proof fn law_header_then_rows(
    state: progress::CrawlStateView,
    a: Seq<Seq<char>>,
    b: Seq<Seq<char>>,
)
    requires
        state.order == a + b,
    ensures
        csv_records(state) == seq![seq!["domain"@, "page_path"@, "logo_url"@, "hash"@]] + (
        csv_rows(a, state.completed) + csv_rows(b, state.completed)),
{
    lemma_rows_in_order(a, b, state.completed);
}

proof fn lemma_rows_in_order(
    a: Seq<Seq<char>>,
    b: Seq<Seq<char>>,
    completed: Map<Seq<char>, ReasonView>,
)
    ensures
        csv_rows(a + b, completed) == csv_rows(a, completed) + csv_rows(b, completed),
    decreases b.len(),
{
    if b.len() == 0 {
        assert(a + b =~= a);
        assert(csv_rows(a, completed) + csv_rows(b, completed) =~= csv_rows(a, completed));
    } else {
        lemma_rows_in_order(a, b.drop_last(), completed);
        assert((a + b).drop_last() =~= a + b.drop_last());
        assert(csv_rows(a + b, completed) =~= csv_rows(a, completed) + csv_rows(b, completed));
    }
}

/// A domain has a row exactly if it was completed with a logo: the domain, the
/// page, the name of the logo on it, and its hash.
pub proof fn law_row_of_domain(domain: Seq<char>, completed: Map<Seq<char>, ReasonView>)
    ensures
        csv_rows(seq![domain], completed) == (match completed[domain] {
            ReasonView::LogoFound(logo) => seq![
                seq![domain, logo.page_path, logo.logo_url, logo.hash],
            ],
            _ => seq![],
        }),
{
    let one = seq![domain];
    assert(one.drop_last() =~= Seq::empty());
    assert(csv_rows(one.drop_last(), completed) =~= Seq::empty());
    assert(csv_rows(one, completed) =~= (match completed[domain] {
        ReasonView::LogoFound(logo) => seq![seq![domain, logo.page_path, logo.logo_url, logo.hash]],
        _ => seq![],
    }));
}

/// The quotation marks of a text are doubled, and nothing else is changed.
pub proof fn law_only_quotes_are_doubled(a: Seq<char>, c: char)
    ensures
        double_quotes(Seq::empty()) == Seq::<char>::empty(),
        double_quotes(a.push(c)) == double_quotes(a) + (if c == '"' {
            seq!['"', '"']
        } else {
            seq![c]
        }),
{
    assert(a.push(c).drop_last() =~= a);
    assert(double_quotes(a.push(c)) =~= double_quotes(a) + (if c == '"' {
        seq!['"', '"']
    } else {
        seq![c]
    }));
}

/// A field with a comma, a quotation mark or a line end in it stands between
/// quotation marks, and only such a one.
pub proof fn law_which_fields_are_quoted(field: Seq<char>)
    ensures
        csv_field(field) == (if exists|i: int|
            0 <= i < field.len() && (#[trigger] field[i] == ',' || field[i] == '"' || field[i]
                == '\n' || field[i] == '\r') {
            seq!['"'] + double_quotes(field) + seq!['"']
        } else {
            field
        }),
{
    if needs_quotes(field) {
        let c = if field.contains(',') {
            ','
        } else if field.contains('"') {
            '"'
        } else if field.contains('\n') {
            '\n'
        } else {
            '\r'
        };
        let i = choose|i: int| 0 <= i < field.len() && field[i] == c;
        assert(field[i] == c);
    }
}

/// The line of a row is its fields with commas between them, and a line end.
pub proof fn law_line_of_row(a: Seq<char>, b: Seq<char>, c: Seq<char>, d: Seq<char>)
    ensures
        csv_line(seq![a, b, c, d]) == csv_field(a) + seq![','] + csv_field(b) + seq![',']
            + csv_field(c) + seq![','] + csv_field(d) + seq!['\n'],
{
    let all = seq![a, b, c, d];
    assert(all.drop_last() =~= seq![a, b, c]);
    assert(seq![a, b, c].drop_last() =~= seq![a, b]);
    assert(seq![a, b].drop_last() =~= seq![a]);
    assert(csv_fields(seq![a]) == csv_field(a));
    assert(csv_fields(seq![a, b]) == csv_field(a).push(',') + csv_field(b));
    assert(csv_fields(seq![a, b, c]) == csv_fields(seq![a, b]).push(',') + csv_field(c));
    assert(csv_fields(all) == csv_fields(seq![a, b, c]).push(',') + csv_field(d));
    assert(csv_line(all) =~= csv_field(a) + seq![','] + csv_field(b) + seq![','] + csv_field(c)
        + seq![','] + csv_field(d) + seq!['\n']);
}

} // verus!
