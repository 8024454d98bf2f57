//! The report as JSON.

use vstd::prelude::*;

use crate::escape::{json_quoted, json_string};
use crate::model::{QueryResult, Resolver, RowState, Summary, SummaryView};
use crate::rows::{
    once_row, row_detail, row_elapsed_nat, row_status, row_ttl_nat, row_values, shown,
};
use crate::text::{decimal, joined, lemma_concat, push_joined, texts, to_decimal};

verus! {

/// A number, or `null`.
pub open spec fn json_number(n: Option<nat>) -> Seq<char> {
    match n {
        Some(n) => decimal(n),
        None => "null"@,
    }
}

/// A string literal, or `null`.
pub open spec fn json_optional(s: Option<Seq<char>>) -> Seq<char> {
    match s {
        Some(s) => json_quoted(s),
        None => "null"@,
    }
}

/// An array of string literals on one line.
pub open spec fn json_strings(values: Seq<Seq<char>>) -> Seq<char> {
    "["@ + joined(values.map_values(|v: Seq<char>| json_quoted(v)), ", "@) + "]"@
}

/// One member of an object.
pub open spec fn json_member(key: Seq<char>, value: Seq<char>) -> Seq<char> {
    json_quoted(key) + ": "@ + value
}

/// An object on one line.
pub open spec fn json_object(members: Seq<Seq<char>>) -> Seq<char> {
    "{"@ + joined(members, ", "@) + "}"@
}

/// One resolver's result as an object.
pub open spec fn json_row(resolver: Resolver, row: RowState, in_majority: bool) -> Seq<char> {
    json_object(
        seq![
            json_member("name"@, json_quoted(resolver.name@)),
            json_member("location"@, json_quoted(resolver.location@)),
            json_member("ip"@, json_quoted(resolver.ip@)),
            json_member("status"@, json_quoted(row_status(row, in_majority))),
            json_member("elapsed_ms"@, json_number(row_elapsed_nat(row))),
            json_member("ttl"@, json_number(row_ttl_nat(row))),
            json_member("values"@, json_strings(row_values(row))),
            json_member("detail"@, json_optional(row_detail(row))),
        ],
    )
}

/// One line of the array of resolvers; a comma follows when there are more.
pub open spec fn json_line(
    resolver: Resolver,
    row: RowState,
    in_majority: bool,
    more: bool,
) -> Seq<char> {
    "    "@ + json_row(resolver, row, in_majority) + (if more {
        ",\n"@
    } else {
        "\n"@
    })
}

/// The first `n` lines of the array of resolvers; a comma follows each object
/// but the last that is shown.
pub open spec fn json_lines(
    resolvers: Seq<Resolver>,
    rows: Seq<RowState>,
    majority: Seq<bool>,
    n: int,
) -> Seq<char>
    decreases n,
{
    if n <= 0 {
        seq![]
    } else {
        json_lines(resolvers, rows, majority, n - 1) + json_line(
            resolvers[n - 1],
            rows[n - 1],
            majority[n - 1],
            n < shown(resolvers, rows),
        )
    }
}

/// The tallies as an object.
pub open spec fn json_tallies(summary: SummaryView) -> Seq<char> {
    json_object(
        seq![
            json_member("ok"@, decimal(summary.ok)),
            json_member("responding"@, decimal(summary.responding)),
            json_member("unreachable"@, decimal(summary.errors)),
            json_member("groups"@, decimal(summary.groups)),
            json_member("agree"@, decimal(summary.agree)),
            json_member("majority_values"@, json_strings(summary.majority_values)),
        ],
    )
}

/// The whole JSON report.
pub open spec fn json_document(
    domain: Seq<char>,
    record_type: Seq<char>,
    resolvers: Seq<Resolver>,
    rows: Seq<RowState>,
    summary: SummaryView,
) -> Seq<char> {
    "{\n  "@ + joined(
        seq![
            json_member("domain"@, json_quoted(domain)),
            json_member("record_type"@, json_quoted(record_type)),
            json_member(
                "resolvers"@,
                "[\n"@ + json_lines(
                    resolvers,
                    rows,
                    summary.majority_rows,
                    shown(resolvers, rows),
                ) + "  ]"@,
            ),
            json_member("summary"@, json_tallies(summary)),
        ],
        ",\n  "@,
    ) + "\n}\n"@
}

fn json_number_of(n: Option<u128>) -> (r: String)
    ensures
        r@ == json_number(
            match n {
                Some(n) => Some(n as nat),
                None => None,
            },
        ),
{
    match n {
        Some(n) => to_decimal(n),
        None => "null".to_owned(),
    }
}

fn json_strings_of(values: &[String]) -> (r: String)
    ensures
        r@ == json_strings(texts(values@)),
{
    let mut parts: Vec<String> = Vec::new();
    for i in 0..values.len()
        invariant
            parts@.len() == i,
            forall|j: int| 0 <= j < i ==> (#[trigger] parts@[j])@ == json_quoted(values@[j]@),
    {
        parts.push(json_string(values[i].as_str()));
    }
    assert(texts(parts@) =~= texts(values@).map_values(|v: Seq<char>| json_quoted(v)));
    let mut out = String::new();
    out.push_str("[");
    assert(out@ =~= "["@);
    push_joined(&mut out, parts.as_slice(), ", ");
    out.push_str("]");
    out
}

fn json_member_of(key: &str, value: &str) -> (r: String)
    ensures
        r@ == json_member(key@, value@),
{
    let mut out = json_string(key);
    out.push_str(": ");
    out.push_str(value);
    out
}

fn json_object_of(members: &[String]) -> (r: String)
    ensures
        r@ == json_object(texts(members@)),
{
    let mut out = String::new();
    out.push_str("{");
    assert(out@ =~= "{"@);
    push_joined(&mut out, members, ", ");
    out.push_str("}");
    out
}

fn json_row_of(resolver: &Resolver, row: &RowState, in_majority: bool) -> (r: String)
    ensures
        r@ == json_row(*resolver, *row, in_majority),
{
    let flat = once_row(row, in_majority);
    let mut members: Vec<String> = Vec::new();
    members.push(json_member_of("name", json_string(resolver.name).as_str()));
    members.push(json_member_of("location", json_string(resolver.location).as_str()));
    members.push(json_member_of("ip", json_string(resolver.ip).as_str()));
    members.push(json_member_of("status", json_string(flat.status).as_str()));
    members.push(json_member_of("elapsed_ms", json_number_of(flat.elapsed_ms).as_str()));
    let ttl: Option<u128> = match flat.ttl {
        Some(ttl) => Some(ttl as u128),
        None => None,
    };
    members.push(json_member_of("ttl", json_number_of(ttl).as_str()));
    members.push(json_member_of("values", json_strings_of(flat.values).as_str()));
    let detail: String = match flat.detail {
        Some(detail) => json_string(detail),
        None => "null".to_owned(),
    };
    members.push(json_member_of("detail", detail.as_str()));
    assert(texts(members@) =~= seq![
        json_member("name"@, json_quoted(resolver.name@)),
        json_member("location"@, json_quoted(resolver.location@)),
        json_member("ip"@, json_quoted(resolver.ip@)),
        json_member("status"@, json_quoted(row_status(*row, in_majority))),
        json_member("elapsed_ms"@, json_number(row_elapsed_nat(*row))),
        json_member("ttl"@, json_number(row_ttl_nat(*row))),
        json_member("values"@, json_strings(row_values(*row))),
        json_member("detail"@, json_optional(row_detail(*row))),
    ]);
    json_object_of(members.as_slice())
}

fn json_line_of(resolver: &Resolver, row: &RowState, in_majority: bool, more: bool) -> (r: String)
    ensures
        r@ == json_line(*resolver, *row, in_majority, more),
{
    let mut out = String::new();
    out.push_str("    ");
    assert(out@ =~= "    "@);
    out.push_str(json_row_of(resolver, row, in_majority).as_str());
    if more {
        out.push_str(",\n");
    } else {
        out.push_str("\n");
    }
    out
}

fn json_tallies_of(summary: &Summary) -> (r: String)
    ensures
        r@ == json_tallies(summary@),
{
    let mut members: Vec<String> = Vec::new();
    members.push(json_member_of("ok", to_decimal(summary.ok as u128).as_str()));
    members.push(json_member_of("responding", to_decimal(summary.responding as u128).as_str()));
    members.push(json_member_of("unreachable", to_decimal(summary.errors as u128).as_str()));
    members.push(json_member_of("groups", to_decimal(summary.groups as u128).as_str()));
    members.push(json_member_of("agree", to_decimal(summary.agree as u128).as_str()));
    members.push(
        json_member_of(
            "majority_values",
            json_strings_of(summary.majority_values.as_slice()).as_str(),
        ),
    );
    assert(texts(members@) =~= seq![
        json_member("ok"@, decimal(summary.ok as nat)),
        json_member("responding"@, decimal(summary.responding as nat)),
        json_member("unreachable"@, decimal(summary.errors as nat)),
        json_member("groups"@, decimal(summary.groups as nat)),
        json_member("agree"@, decimal(summary.agree as nat)),
        json_member("majority_values"@, json_strings(texts(summary.majority_values@))),
    ]);
    json_object_of(members.as_slice())
}

fn json_resolvers_of(resolvers: &[Resolver], rows: &[RowState], summary: &Summary) -> (r: String)
    requires
        shown(resolvers@, rows@) <= summary.majority_rows@.len(),
    ensures
        r@ == "[\n"@ + json_lines(
            resolvers@,
            rows@,
            summary.majority_rows@,
            shown(resolvers@, rows@),
        ) + "  ]"@,
{
    let mut out = String::new();
    out.push_str("[\n");
    assert(out@ =~= "[\n"@);
    let ghost head = out@;
    let n: usize = if resolvers.len() < rows.len() {
        resolvers.len()
    } else {
        rows.len()
    };
    assert(head + json_lines(resolvers@, rows@, summary.majority_rows@, 0) =~= head);
    for i in 0..n
        invariant
            n == shown(resolvers@, rows@) <= summary.majority_rows@.len(),
            out@ == head + json_lines(resolvers@, rows@, summary.majority_rows@, i as int),
    {
        let more = i + 1 < n;
        let line = json_line_of(&resolvers[i], &rows[i], summary.majority_rows[i], more);
        out.push_str(line.as_str());
        proof {
            lemma_concat(
                head,
                json_lines(resolvers@, rows@, summary.majority_rows@, i as int),
                line@,
            );
        }
    }
    out.push_str("  ]");
    out
}

/// The report for programs: one JSON object.
pub fn json_report(
    domain: &str,
    record_type: &str,
    resolvers: &[Resolver],
    rows: &[RowState],
    summary: &Summary,
) -> (r: String)
    requires
        shown(resolvers@, rows@) <= summary.majority_rows@.len(),
    ensures
        r@ == json_document(domain@, record_type@, resolvers@, rows@, summary@),
{
    let mut members: Vec<String> = Vec::new();
    members.push(json_member_of("domain", json_string(domain).as_str()));
    members.push(json_member_of("record_type", json_string(record_type).as_str()));
    let list = json_resolvers_of(resolvers, rows, summary);
    members.push(json_member_of("resolvers", list.as_str()));
    members.push(json_member_of("summary", json_tallies_of(summary).as_str()));
    assert(texts(members@) =~= seq![
        json_member("domain"@, json_quoted(domain@)),
        json_member("record_type"@, json_quoted(record_type@)),
        json_member("resolvers"@, list@),
        json_member("summary"@, json_tallies(summary@)),
    ]);
    let mut out = String::new();
    out.push_str("{\n  ");
    assert(out@ =~= "{\n  "@);
    push_joined(&mut out, members.as_slice(), ",\n  ");
    out.push_str("\n}\n");
    out
}

proof fn lemma_json_lines_flatten(
    resolvers: Seq<Resolver>,
    rows: Seq<RowState>,
    majority: Seq<bool>,
    lines: Seq<Seq<char>>,
)
    requires
        forall|i: int|
            0 <= i < lines.len() ==> #[trigger] lines[i] == json_line(
                resolvers[i],
                rows[i],
                majority[i],
                i + 1 < shown(resolvers, rows),
            ),
    ensures
        json_lines(resolvers, rows, majority, lines.len() as int) == lines.flatten_alt(),
    decreases lines.len(),
{
    if lines.len() > 0 {
        lemma_json_lines_flatten(resolvers, rows, majority, lines.drop_last());
        assert(lines.last() == lines[lines.len() - 1]);
    }
}

/// The object of a resolver names it and says what its row holds. Returned are
/// the texts behind its status, its milliseconds, its time to live, each of its
/// values and its detail.
pub proof fn law_json_object_says_everything(
    resolver: Resolver,
    row: RowState,
    in_majority: bool,
) -> (said: (Seq<char>, Seq<char>, Seq<char>, Seq<Seq<char>>, Seq<char>))
    ensures
        json_row(resolver, row, in_majority) == "{"@ + joined(
            seq![
                json_quoted("name"@) + ": "@ + json_quoted(resolver.name@),
                json_quoted("location"@) + ": "@ + json_quoted(resolver.location@),
                json_quoted("ip"@) + ": "@ + json_quoted(resolver.ip@),
                json_quoted("status"@) + ": "@ + said.0,
                json_quoted("elapsed_ms"@) + ": "@ + said.1,
                json_quoted("ttl"@) + ": "@ + said.2,
                json_quoted("values"@) + ": "@ + ("["@ + joined(said.3, ", "@) + "]"@),
                json_quoted("detail"@) + ": "@ + said.4,
            ],
            ", "@,
        ) + "}"@,
        match row {
            RowState::Done { result: QueryResult::Records { values, min_ttl }, elapsed_ms } => {
                &&& in_majority ==> said.0 == json_quoted("ok"@)
                &&& !in_majority ==> said.0 == json_quoted("differs"@)
                &&& said.1 == decimal(elapsed_ms as nat)
                &&& said.2 == decimal(min_ttl as nat)
                &&& said.3.len() == values@.len()
                &&& forall|x: int|
                    0 <= x < values@.len() ==> #[trigger] said.3[x] == json_quoted(values@[x]@)
                &&& said.4 == "null"@
            },
            RowState::Done { result: QueryResult::NoRecords(code), elapsed_ms } => {
                &&& said.0 == json_quoted("none"@)
                &&& said.1 == decimal(elapsed_ms as nat)
                &&& said.2 == "null"@
                &&& said.3.len() == 0
                &&& said.4 == json_quoted(code@)
            },
            RowState::Done { result: QueryResult::Error(err), elapsed_ms } => {
                &&& said.0 == json_quoted("error"@)
                &&& said.1 == decimal(elapsed_ms as nat)
                &&& said.2 == "null"@
                &&& said.3.len() == 0
                &&& said.4 == json_quoted(err@)
            },
            _ => {
                &&& said.0 == json_quoted("unknown"@)
                &&& said.1 == "null"@
                &&& said.2 == "null"@
                &&& said.3.len() == 0
                &&& said.4 == "null"@
            },
        },
{
    let quoted = row_values(row).map_values(|v: Seq<char>| json_quoted(v));
    assert(json_strings(row_values(row)) == "["@ + joined(quoted, ", "@) + "]"@);
    (
        json_quoted(row_status(row, in_majority)),
        json_number(row_elapsed_nat(row)),
        json_number(row_ttl_nat(row)),
        quoted,
        json_optional(row_detail(row)),
    )
}

/// The JSON report is an object of the domain, the record type, a list of one
/// object for each resolver that has a row, and the tallies.
pub proof fn law_json_report_says_everything(
    domain: Seq<char>,
    record_type: Seq<char>,
    resolvers: Seq<Resolver>,
    rows: Seq<RowState>,
    summary: SummaryView,
) -> (lines: Seq<Seq<char>>)
    ensures
        lines.len() == (if resolvers.len() < rows.len() {
            resolvers.len()
        } else {
            rows.len()
        }),
        json_document(domain, record_type, resolvers, rows, summary) == "{\n  "@ + joined(
            seq![
                json_quoted("domain"@) + ": "@ + json_quoted(domain),
                json_quoted("record_type"@) + ": "@ + json_quoted(record_type),
                json_quoted("resolvers"@) + ": "@ + ("[\n"@ + lines.flatten() + "  ]"@),
                json_quoted("summary"@) + ": "@ + ("{"@ + joined(
                    seq![
                        json_quoted("ok"@) + ": "@ + decimal(summary.ok),
                        json_quoted("responding"@) + ": "@ + decimal(summary.responding),
                        json_quoted("unreachable"@) + ": "@ + decimal(summary.errors),
                        json_quoted("groups"@) + ": "@ + decimal(summary.groups),
                        json_quoted("agree"@) + ": "@ + decimal(summary.agree),
                        json_quoted("majority_values"@) + ": "@ + ("["@ + joined(
                            summary.majority_values.map_values(|v: Seq<char>| json_quoted(v)),
                            ", "@,
                        ) + "]"@),
                    ],
                    ", "@,
                ) + "}"@),
            ],
            ",\n  "@,
        ) + "\n}\n"@,
        forall|i: int|
            0 <= i < lines.len() ==> #[trigger] lines[i] == "    "@ + json_row(
                resolvers[i],
                rows[i],
                summary.majority_rows[i],
            ) + (if i + 1 < lines.len() {
                ",\n"@
            } else {
                "\n"@
            }),
{
    let lines = Seq::new(
        shown(resolvers, rows) as nat,
        |i: int|
            json_line(
                resolvers[i],
                rows[i],
                summary.majority_rows[i],
                i + 1 < shown(resolvers, rows),
            ),
    );
    lemma_json_lines_flatten(resolvers, rows, summary.majority_rows, lines);
    lines.lemma_flatten_and_flatten_alt_are_equivalent();
    lines
}

} // verus!
