//! The report for people.

use vstd::prelude::*;

use crate::consensus::{has_records, row_has_records};
use crate::model::{QueryResult, Resolver, RowState, Summary, SummaryView};
use crate::rows::shown;
use crate::text::{
    decimal, joined, lemma_concat, pad_left, pad_right, push_decimal, push_joined, push_padded_left,
    push_padded_right, texts, to_decimal,
};

verus! {

/// One row of the text report behind the resolver's columns.
pub open spec fn text_result(row: RowState, in_majority: bool) -> Seq<char> {
    match row {
        RowState::Done { result: QueryResult::Records { values, min_ttl }, elapsed_ms } => (if in_majority {
            "OK     "@
        } else {
            "DIFFERS"@
        }) + " "@ + pad_left(decimal(elapsed_ms as nat), 5) + "ms  ttl="@ + pad_right(
            decimal(min_ttl as nat),
            7,
        ) + " "@ + joined(texts(values@), ", "@),
        RowState::Done { result: QueryResult::NoRecords(code), elapsed_ms } => "NONE    "@
            + pad_left(decimal(elapsed_ms as nat), 5) + "ms  "@ + code@,
        RowState::Done { result: QueryResult::Error(err), elapsed_ms } => "ERR     "@ + pad_left(
            decimal(elapsed_ms as nat),
            5,
        ) + "ms  "@ + err@,
        _ => "??"@,
    }
}

/// One line of the text report.
pub open spec fn text_line(resolver: Resolver, row: RowState, in_majority: bool) -> Seq<char> {
    pad_right(resolver.name@, 22) + " "@ + pad_right(resolver.location@, 8) + " "@ + pad_right(
        resolver.ip@,
        16,
    ) + " "@ + text_result(row, in_majority) + "\n"@
}

/// The first `n` lines of the text report.
pub open spec fn text_lines(
    resolvers: Seq<Resolver>,
    rows: Seq<RowState>,
    majority: Seq<bool>,
    n: int,
) -> Seq<char>
    decreases n,
{
    if n <= 0 {
        seq![]
    } else {
        text_lines(resolvers, rows, majority, n - 1) + text_line(
            resolvers[n - 1],
            rows[n - 1],
            majority[n - 1],
        )
    }
}

/// The tallies at the foot of the text report; the line on propagation is
/// there only when some group exists.
pub open spec fn text_foot(summary: SummaryView) -> Seq<char> {
    let tally = "\n"@ + decimal(summary.ok) + " of "@ + decimal(summary.responding)
        + " responding · "@ + decimal(summary.errors) + " unreachable · "@ + decimal(
        summary.groups,
    ) + " answer group(s)\n"@;
    if summary.agree > 0 {
        tally + "propagation ("@ + decimal(summary.agree) + "/"@ + decimal(
            summary.responding,
        ) + " responding): "@ + joined(summary.majority_values, ", "@) + "\n"@
    } else {
        tally
    }
}

/// The whole text report.
pub open spec fn text_document(
    domain: Seq<char>,
    record_type: Seq<char>,
    resolvers: Seq<Resolver>,
    rows: Seq<RowState>,
    summary: SummaryView,
) -> Seq<char> {
    domain + " "@ + record_type + "\n\n"@ + text_lines(
        resolvers,
        rows,
        summary.majority_rows,
        shown(resolvers, rows),
    ) + text_foot(summary)
}

fn text_result_of(row: &RowState, in_majority: bool) -> (r: String)
    ensures
        r@ == text_result(*row, in_majority),
{
    let mut out = String::new();
    match row {
        RowState::Done { result, elapsed_ms } => match result {
            QueryResult::Records { values, min_ttl } => {
                if in_majority {
                    out.push_str("OK     ");
                    assert(out@ =~= "OK     "@);
                } else {
                    out.push_str("DIFFERS");
                    assert(out@ =~= "DIFFERS"@);
                }
                out.push_str(" ");
                push_padded_left(&mut out, to_decimal(*elapsed_ms).as_str(), 5);
                out.push_str("ms  ttl=");
                push_padded_right(&mut out, to_decimal(*min_ttl as u128).as_str(), 7);
                out.push_str(" ");
                push_joined(&mut out, values.as_slice(), ", ");
            },
            QueryResult::NoRecords(code) => {
                out.push_str("NONE    ");
                assert(out@ =~= "NONE    "@);
                push_padded_left(&mut out, to_decimal(*elapsed_ms).as_str(), 5);
                out.push_str("ms  ");
                out.push_str(code.as_str());
            },
            QueryResult::Error(err) => {
                out.push_str("ERR     ");
                assert(out@ =~= "ERR     "@);
                push_padded_left(&mut out, to_decimal(*elapsed_ms).as_str(), 5);
                out.push_str("ms  ");
                out.push_str(err.as_str());
            },
        },
        _ => {
            out.push_str("??");
            assert(out@ =~= "??"@);
        },
    }
    out
}

fn text_line_of(resolver: &Resolver, row: &RowState, in_majority: bool) -> (r: String)
    ensures
        r@ == text_line(*resolver, *row, in_majority),
{
    let mut out = String::new();
    push_padded_right(&mut out, resolver.name, 22);
    assert(out@ =~= pad_right(resolver.name@, 22));
    out.push_str(" ");
    push_padded_right(&mut out, resolver.location, 8);
    out.push_str(" ");
    push_padded_right(&mut out, resolver.ip, 16);
    out.push_str(" ");
    out.push_str(text_result_of(row, in_majority).as_str());
    out.push_str("\n");
    out
}

fn text_foot_of(summary: &Summary) -> (r: String)
    ensures
        r@ == text_foot(summary@),
{
    let mut out = String::new();
    out.push_str("\n");
    assert(out@ =~= "\n"@);
    push_decimal(&mut out, summary.ok as u128);
    out.push_str(" of ");
    push_decimal(&mut out, summary.responding as u128);
    out.push_str(" responding · ");
    push_decimal(&mut out, summary.errors as u128);
    out.push_str(" unreachable · ");
    push_decimal(&mut out, summary.groups as u128);
    out.push_str(" answer group(s)\n");
    if summary.agree > 0 {
        out.push_str("propagation (");
        push_decimal(&mut out, summary.agree as u128);
        out.push_str("/");
        push_decimal(&mut out, summary.responding as u128);
        out.push_str(" responding): ");
        push_joined(&mut out, summary.majority_values.as_slice(), ", ");
        out.push_str("\n");
    }
    out
}

/// The line of a row without records does not depend on the majority.
pub proof fn law_line_without_records_ignores_majority(
    resolver: Resolver,
    row: RowState,
    a: bool,
    b: bool,
)
    requires
        !has_records(row),
    ensures
        text_line(resolver, row, a) == text_line(resolver, row, b),
{
}

/// The report for people: a heading, one line per resolver and the tallies. The
/// summary says of every row with records whether it is in the majority.
pub fn text_report(
    domain: &str,
    record_type: &str,
    resolvers: &[Resolver],
    rows: &[RowState],
    summary: &Summary,
) -> (r: String)
    requires
        forall|i: int|
            0 <= i < shown(resolvers@, rows@) && has_records(#[trigger] rows@[i]) ==> i
                < summary.majority_rows@.len(),
    ensures
        r@ == text_document(domain@, record_type@, resolvers@, rows@, summary@),
{
    let mut out = String::new();
    out.push_str(domain);
    assert(out@ =~= domain@);
    out.push_str(" ");
    out.push_str(record_type);
    out.push_str("\n\n");
    let ghost head = out@;
    let n: usize = if resolvers.len() < rows.len() {
        resolvers.len()
    } else {
        rows.len()
    };
    assert(head + text_lines(resolvers@, rows@, summary.majority_rows@, 0) =~= head);
    for i in 0..n
        invariant
            n == shown(resolvers@, rows@),
            forall|i: int|
                0 <= i < n && has_records(#[trigger] rows@[i]) ==> i
                    < summary.majority_rows@.len(),
            out@ == head + text_lines(resolvers@, rows@, summary.majority_rows@, i as int),
    {
        let inside = row_has_records(&rows[i]) && summary.majority_rows[i];
        let line = text_line_of(&resolvers[i], &rows[i], inside);
        out.push_str(line.as_str());
        proof {
            lemma_concat(
                head,
                text_lines(resolvers@, rows@, summary.majority_rows@, i as int),
                line@,
            );
        }
    }
    out.push_str(text_foot_of(summary).as_str());
    out
}

proof fn lemma_text_lines_flatten(
    resolvers: Seq<Resolver>,
    rows: Seq<RowState>,
    majority: Seq<bool>,
    lines: Seq<Seq<char>>,
)
    requires
        forall|i: int|
            0 <= i < lines.len() ==> #[trigger] lines[i] == text_line(
                resolvers[i],
                rows[i],
                majority[i],
            ),
    ensures
        text_lines(resolvers, rows, majority, lines.len() as int) == lines.flatten_alt(),
    decreases lines.len(),
{
    if lines.len() > 0 {
        lemma_text_lines_flatten(resolvers, rows, majority, lines.drop_last());
        assert(lines.last() == lines[lines.len() - 1]);
    }
}

/// The text report is a heading, one line for each resolver that has a row, and
/// the tallies. Behind the tallies, and only when some resolver is in the
/// majority, it says how many of those that respond are, and what they
/// returned.
pub proof fn law_text_report_says_everything(
    domain: Seq<char>,
    record_type: Seq<char>,
    resolvers: Seq<Resolver>,
    rows: Seq<RowState>,
    summary: SummaryView,
) -> (lines: Seq<Seq<char>>)
    ensures
        lines.len() == (if resolvers.len() < rows.len() {
            resolvers.len()
        } else {
            rows.len()
        }),
        summary.agree > 0 ==> text_document(domain, record_type, resolvers, rows, summary) == domain
            + " "@ + record_type + "\n\n"@ + lines.flatten() + ("\n"@ + decimal(summary.ok) + " of "@
            + decimal(summary.responding) + " responding · "@ + decimal(summary.errors)
            + " unreachable · "@ + decimal(summary.groups) + " answer group(s)\n"@
            + "propagation ("@ + decimal(summary.agree) + "/"@ + decimal(summary.responding)
            + " responding): "@ + joined(summary.majority_values, ", "@) + "\n"@),
        summary.agree == 0 ==> text_document(domain, record_type, resolvers, rows, summary)
            == domain + " "@ + record_type + "\n\n"@ + lines.flatten() + ("\n"@ + decimal(summary.ok)
            + " of "@ + decimal(summary.responding) + " responding · "@ + decimal(summary.errors)
            + " unreachable · "@ + decimal(summary.groups) + " answer group(s)\n"@),
        forall|i: int|
            0 <= i < lines.len() ==> #[trigger] lines[i] == pad_right(resolvers[i].name@, 22)
                + " "@ + pad_right(resolvers[i].location@, 8) + " "@ + pad_right(
                resolvers[i].ip@,
                16,
            ) + " "@ + (match rows[i] {
                RowState::Done {
                    result: QueryResult::Records { values, min_ttl },
                    elapsed_ms,
                } => (if summary.majority_rows[i] {
                    "OK     "@
                } else {
                    "DIFFERS"@
                }) + " "@ + pad_left(decimal(elapsed_ms as nat), 5) + "ms  ttl="@ + pad_right(
                    decimal(min_ttl as nat),
                    7,
                ) + " "@ + joined(texts(values@), ", "@),
                RowState::Done { result: QueryResult::NoRecords(code), elapsed_ms } => "NONE    "@
                    + pad_left(decimal(elapsed_ms as nat), 5) + "ms  "@ + code@,
                RowState::Done { result: QueryResult::Error(err), elapsed_ms } => "ERR     "@
                    + pad_left(decimal(elapsed_ms as nat), 5) + "ms  "@ + err@,
                _ => "??"@,
            }) + "\n"@,
{
    let lines = Seq::new(
        shown(resolvers, rows) as nat,
        |i: int| text_line(resolvers[i], rows[i], summary.majority_rows[i]),
    );
    lemma_text_lines_flatten(resolvers, rows, summary.majority_rows, lines);
    lines.lemma_flatten_and_flatten_alt_are_equivalent();
    lines
}

} // verus!
