//! The report as CSV (RFC 4180), with the records of a row joined by `|`. Lines
//! end in a carriage return and a line feed.

use vstd::prelude::*;

use crate::escape::{csv_quoted, push_csv_field};
use crate::model::{QueryResult, Resolver, RowState, Summary};
use crate::rows::{once_row, row_detail, row_elapsed_nat, row_status, row_ttl_nat, row_values, shown};
use crate::text::{decimal, joined, lemma_concat, push_decimal, push_joined, texts};

verus! {

/// The names of the columns.
pub open spec fn csv_columns() -> Seq<Seq<char>> {
    seq![
        "name"@,
        "location"@,
        "ip"@,
        "status"@,
        "elapsed_ms"@,
        "ttl"@,
        "values"@,
        "detail"@,
    ]
}

/// A number, or nothing.
pub open spec fn csv_number(n: Option<nat>) -> Seq<char> {
    match n {
        Some(n) => decimal(n),
        None => seq![],
    }
}

/// What stands in the eight columns of a row, before quoting.
pub open spec fn csv_values(resolver: Resolver, row: RowState, in_majority: bool) -> Seq<
    Seq<char>,
> {
    seq![
        resolver.name@,
        resolver.location@,
        resolver.ip@,
        row_status(row, in_majority),
        csv_number(row_elapsed_nat(row)),
        csv_number(row_ttl_nat(row)),
        joined(row_values(row), "|"@),
        match row_detail(row) {
            Some(detail) => detail,
            None => seq![],
        },
    ]
}

/// One line of the CSV report. The status word and the numbers need no quotes.
pub open spec fn csv_line(resolver: Resolver, row: RowState, in_majority: bool) -> Seq<char> {
    let v = csv_values(resolver, row, in_majority);
    csv_quoted(v[0]) + ","@ + csv_quoted(v[1]) + ","@ + csv_quoted(v[2]) + ","@ + v[3] + ","@ + v[4]
        + ","@ + v[5] + ","@ + csv_quoted(v[6]) + ","@ + csv_quoted(v[7]) + "\r\n"@
}

/// The first `n` lines behind the header.
pub open spec fn csv_lines(
    resolvers: Seq<Resolver>,
    rows: Seq<RowState>,
    majority: Seq<bool>,
    n: int,
) -> Seq<char>
    decreases n,
{
    if n <= 0 {
        seq![]
    } else {
        csv_lines(resolvers, rows, majority, n - 1) + csv_line(
            resolvers[n - 1],
            rows[n - 1],
            majority[n - 1],
        )
    }
}

/// The whole CSV report.
pub open spec fn csv_document(
    resolvers: Seq<Resolver>,
    rows: Seq<RowState>,
    majority: Seq<bool>,
) -> Seq<char> {
    joined(csv_columns(), ","@) + "\r\n"@ + csv_lines(
        resolvers,
        rows,
        majority,
        shown(resolvers, rows),
    )
}

fn csv_line_of(resolver: &Resolver, row: &RowState, in_majority: bool) -> (r: String)
    ensures
        r@ == csv_line(*resolver, *row, in_majority),
{
    let flat = once_row(row, in_majority);
    let mut out = String::new();
    push_csv_field(&mut out, resolver.name);
    assert(out@ =~= csv_quoted(resolver.name@));
    out.push_str(",");
    push_csv_field(&mut out, resolver.location);
    out.push_str(",");
    push_csv_field(&mut out, resolver.ip);
    out.push_str(",");
    out.push_str(flat.status);
    out.push_str(",");
    if let Some(ms) = flat.elapsed_ms {
        push_decimal(&mut out, ms);
    } else {
        assert(out@ =~= out@ + csv_number(None));
    }
    out.push_str(",");
    if let Some(ttl) = flat.ttl {
        push_decimal(&mut out, ttl as u128);
    } else {
        assert(out@ =~= out@ + csv_number(None));
    }
    out.push_str(",");
    let mut values = String::new();
    push_joined(&mut values, flat.values, "|");
    assert(values@ =~= joined(row_values(*row), "|"@));
    push_csv_field(&mut out, values.as_str());
    out.push_str(",");
    match flat.detail {
        Some(detail) => push_csv_field(&mut out, detail),
        None => push_csv_field(&mut out, String::new().as_str()),
    }
    out.push_str("\r\n");
    out
}

/// The report for spreadsheets: a header and one line per resolver.
pub fn csv_report(resolvers: &[Resolver], rows: &[RowState], summary: &Summary) -> (r: String)
    requires
        shown(resolvers@, rows@) <= summary.majority_rows@.len(),
    ensures
        r@ == csv_document(resolvers@, rows@, summary.majority_rows@),
{
    let mut columns: Vec<String> = Vec::new();
    columns.push("name".to_owned());
    columns.push("location".to_owned());
    columns.push("ip".to_owned());
    columns.push("status".to_owned());
    columns.push("elapsed_ms".to_owned());
    columns.push("ttl".to_owned());
    columns.push("values".to_owned());
    columns.push("detail".to_owned());
    assert(texts(columns@) =~= csv_columns());
    let mut out = String::new();
    push_joined(&mut out, columns.as_slice(), ",");
    assert(out@ =~= joined(csv_columns(), ","@));
    out.push_str("\r\n");
    let ghost head = out@;
    let n: usize = if resolvers.len() < rows.len() {
        resolvers.len()
    } else {
        rows.len()
    };
    assert(head + csv_lines(resolvers@, rows@, summary.majority_rows@, 0) =~= head);
    for i in 0..n
        invariant
            n == shown(resolvers@, rows@) <= summary.majority_rows@.len(),
            out@ == head + csv_lines(resolvers@, rows@, summary.majority_rows@, i as int),
    {
        let line = csv_line_of(&resolvers[i], &rows[i], summary.majority_rows[i]);
        out.push_str(line.as_str());
        proof {
            lemma_concat(
                head,
                csv_lines(resolvers@, rows@, summary.majority_rows@, i as int),
                line@,
            );
        }
    }
    out
}

proof fn lemma_csv_lines_flatten(
    resolvers: Seq<Resolver>,
    rows: Seq<RowState>,
    majority: Seq<bool>,
    lines: Seq<Seq<char>>,
)
    requires
        forall|i: int|
            0 <= i < lines.len() ==> #[trigger] lines[i] == csv_line(
                resolvers[i],
                rows[i],
                majority[i],
            ),
    ensures
        csv_lines(resolvers, rows, majority, lines.len() as int) == lines.flatten_alt(),
    decreases lines.len(),
{
    if lines.len() > 0 {
        lemma_csv_lines_flatten(resolvers, rows, majority, lines.drop_last());
        assert(lines.last() == lines[lines.len() - 1]);
    }
}

/// The CSV report is a header and one line for each resolver that has a row.
pub proof fn law_csv_report_says_everything(
    resolvers: Seq<Resolver>,
    rows: Seq<RowState>,
    majority: Seq<bool>,
) -> (lines: Seq<Seq<char>>)
    ensures
        lines.len() == (if resolvers.len() < rows.len() {
            resolvers.len()
        } else {
            rows.len()
        }),
        csv_document(resolvers, rows, majority) == joined(
            seq![
                "name"@,
                "location"@,
                "ip"@,
                "status"@,
                "elapsed_ms"@,
                "ttl"@,
                "values"@,
                "detail"@,
            ],
            ","@,
        ) + "\r\n"@ + lines.flatten(),
        forall|i: int|
            0 <= i < lines.len() ==> #[trigger] lines[i] == csv_quoted(resolvers[i].name@) + ","@
                + csv_quoted(resolvers[i].location@) + ","@ + csv_quoted(resolvers[i].ip@) + ","@
                + (match rows[i] {
                RowState::Done { result: QueryResult::Records { .. }, .. } => if majority[i] {
                    "ok"@
                } else {
                    "differs"@
                },
                RowState::Done { result: QueryResult::NoRecords(_), .. } => "none"@,
                RowState::Done { result: QueryResult::Error(_), .. } => "error"@,
                _ => "unknown"@,
            }) + ","@ + (match rows[i] {
                RowState::Done { elapsed_ms, .. } => decimal(elapsed_ms as nat),
                _ => seq![],
            }) + ","@ + (match rows[i] {
                RowState::Done { result: QueryResult::Records { min_ttl, .. }, .. } => decimal(
                    min_ttl as nat,
                ),
                _ => seq![],
            }) + ","@ + (match rows[i] {
                RowState::Done { result: QueryResult::Records { values, .. }, .. } => csv_quoted(
                    joined(texts(values@), "|"@),
                ),
                _ => seq![],
            }) + ","@ + (match rows[i] {
                RowState::Done { result: QueryResult::NoRecords(code), .. } => csv_quoted(code@),
                RowState::Done { result: QueryResult::Error(err), .. } => csv_quoted(err@),
                _ => seq![],
            }) + "\r\n"@,
{
    let lines = Seq::new(
        shown(resolvers, rows) as nat,
        |i: int| csv_line(resolvers[i], rows[i], majority[i]),
    );
    lemma_csv_lines_flatten(resolvers, rows, majority, lines);
    lines.lemma_flatten_and_flatten_alt_are_equivalent();
    assert(joined(seq![], "|"@) =~= seq![]);
    assert(csv_quoted(seq![]) =~= seq![]);
    lines
}

} // verus!
