//! The single check of `--once`, and the questions of a round.

use vstd::prelude::*;

use crate::args::{ArgsError, ArgsProblem, OutputFormat};
use crate::consensus::summary_of;
use crate::csv_report::{csv_document, csv_report};
use crate::json_reader::{law_json_reader_finds_every_resolver, read_document, Json};
use crate::json_report::{json_document, json_report};
use crate::model::{QueryOutcome, QueryResult, Resolver, RowState};
use crate::record::{
    offered_index, offered_name, record_name, record_type_index, record_type_to_string,
    RECORD_TYPES,
};
use crate::state::{law_rows_hold_their_last_replies, App, AppView, Request};
use crate::text_report::{text_document, text_report};

verus! {

/// One question of a round: what to ask of which resolver.
#[derive(Debug)]
pub struct Probe {
    pub resolver_index: usize,
    pub ip: &'static str,
    pub domain: String,
    pub code: u16,
    pub generation: u64,
}

impl Probe {
    /// The question of a round for resolver number `i`.
    pub open spec fn asks(self, resolvers: Seq<Resolver>, request: Request, i: int) -> bool {
        &&& self.resolver_index == i
        &&& self.ip == resolvers[i].ip
        &&& self.domain@ == request.domain@
        &&& self.code == request.code
        &&& self.generation == request.generation
    }

    /// The reply to this question.
    pub open spec fn reply(self, result: QueryResult, elapsed_ms: u128) -> QueryOutcome {
        QueryOutcome {
            resolver_index: self.resolver_index,
            generation: self.generation,
            result,
            elapsed_ms,
        }
    }

    /// The reply to this question.
    pub fn outcome(self, result: QueryResult, elapsed_ms: u128) -> (r: QueryOutcome)
        ensures
            r == self.reply(result, elapsed_ms),
            r.resolver_index == self.resolver_index,
            r.generation == self.generation,
            r.result == result,
            r.elapsed_ms == elapsed_ms,
    {
        QueryOutcome {
            resolver_index: self.resolver_index,
            generation: self.generation,
            result,
            elapsed_ms,
        }
    }
}

/// The questions of a round: the same one to every resolver.
pub fn spawn_round(resolvers: &[Resolver], request: &Request) -> (r: Vec<Probe>)
    ensures
        r@.len() == resolvers@.len(),
        forall|i: int| 0 <= i < r@.len() ==> (#[trigger] r@[i]).asks(resolvers@, *request, i),
        forall|i: int|
            0 <= i < resolvers@.len() ==> {
                &&& (#[trigger] r@[i]).resolver_index == i
                &&& r@[i].ip == resolvers@[i].ip
                &&& r@[i].domain@ == request.domain@
                &&& r@[i].code == request.code
                &&& r@[i].generation == request.generation
            },
{
    let mut probes: Vec<Probe> = Vec::new();
    for i in 0..resolvers.len()
        invariant
            probes@.len() == i,
            forall|j: int|
                0 <= j < i ==> (#[trigger] probes@[j]).asks(resolvers@, *request, j),
    {
        probes.push(
            Probe {
                resolver_index: i,
                ip: resolvers[i].ip,
                domain: request.domain.clone(),
                code: request.code,
                generation: request.generation,
            },
        );
    }
    probes
}

/// The state of a single check before its round begins. A record type that is
/// not among the offered ones is checked as the first of them.
pub open spec fn once_state(domain: Seq<char>, code: u16, resolvers: nat) -> AppView {
    AppView {
        rtype_idx: match offered_index(code) {
            Some(i) => i,
            None => 0,
        },
        ..AppView::fresh(domain, resolvers)
    }
}

/// Begins a single check; an empty domain is refused.
pub fn begin_once(domain: String, code: u16, resolvers: usize) -> (r: Result<
    (App, Request),
    ArgsError,
>)
    ensures
        match once_state(domain@, code, resolvers as nat).begin_query() {
            None => r is Err && r->Err_0@ == ArgsProblem::EmptyDomain,
            Some(next) => {
                &&& r is Ok
                &&& r->Ok_0.0@ == next
                &&& r->Ok_0.1@ == next.request()
                &&& next.wf()
            },
        },
        r is Err <==> domain@.len() == 0,
        r matches Ok((app, request)) ==> {
            &&& request.domain@ == domain@
            &&& request.code == (if RECORD_TYPES@.contains(code) {
                code
            } else {
                1
            })
            &&& request.generation == app.generation
            &&& app.rows@.len() == resolvers
            &&& forall|i: int| 0 <= i < resolvers ==> #[trigger] app.rows@[i] is Pending
        },
{
    let mut app = App::new(domain, resolvers);
    app.rtype_idx = record_type_index(code);
    match app.begin_query() {
        Some(request) => Ok((app, request)),
        None => Err(ArgsError::EmptyDomain),
    }
}

/// What a finished check prints, given the name of its record type.
pub open spec fn once_document(
    format: OutputFormat,
    domain: Seq<char>,
    record_type: Seq<char>,
    resolvers: Seq<Resolver>,
    rows: Seq<RowState>,
) -> Seq<char> {
    match format {
        OutputFormat::Text => text_document(
            domain,
            record_type,
            resolvers,
            rows,
            summary_of(rows),
        ),
        OutputFormat::Json => json_document(
            domain,
            record_type,
            resolvers,
            rows,
            summary_of(rows),
        ),
        OutputFormat::Csv => csv_document(resolvers, rows, summary_of(rows).majority_rows),
    }
}

/// What a finished check prints, given the name of its record type.
pub fn report(
    format: OutputFormat,
    domain: &str,
    record_type: &str,
    resolvers: &[Resolver],
    app: &App,
) -> (r: String)
    ensures
        r@ == once_document(format, domain@, record_type@, resolvers@, app@.rows),
{
    let summary = app.summary();
    assert(summary@.majority_rows.len() == app@.rows.len());
    let rows = app.rows.as_slice();
    match format {
        OutputFormat::Text => text_report(domain, record_type, resolvers, rows, &summary),
        OutputFormat::Json => json_report(domain, record_type, resolvers, rows, &summary),
        OutputFormat::Csv => csv_report(resolvers, rows, &summary),
    }
}

/// Takes in the replies to a single check and says what it prints.
pub fn run_once(
    format: OutputFormat,
    resolvers: &[Resolver],
    app: &mut App,
    request: &Request,
    outcomes: Vec<QueryOutcome>,
) -> (r: String)
    ensures
        final(app)@ == old(app)@.apply_all(outcomes@, outcomes@.len() as int),
        r@ == once_document(
            format,
            request.domain@,
            record_name(request.code),
            resolvers@,
            final(app)@.rows,
        ),
        offered_name(request.code) matches Some(name) ==> record_name(request.code) == name,
{
    app.apply_all(outcomes);
    let name = record_type_to_string(request.code);
    report(format, request.domain.as_str(), name.as_str(), resolvers, app)
}

/// A single check asks for the given domain and, when the record type is among
/// the offered ones, for that type; otherwise for the first of them.
pub proof fn law_once_asks_for_the_type(domain: Seq<char>, code: u16, resolvers: nat)
    requires
        domain.len() > 0,
    ensures
        ({
            let next = once_state(domain, code, resolvers).begin_query();
            &&& next is Some
            &&& next->0.request().domain == domain
            &&& next->0.request().code == if RECORD_TYPES@.contains(code) {
                code
            } else {
                RECORD_TYPES@[0]
            }
        }),
{
}

/// The reply to a question fills the row of the resolver that was asked, and
/// no other, as long as its round is the current one.
pub proof fn law_reply_fills_the_row_asked(
    app: AppView,
    resolvers: Seq<Resolver>,
    request: Request,
    probe: Probe,
    i: int,
    result: QueryResult,
    elapsed_ms: u128,
)
    requires
        request@ == app.request(),
        probe.asks(resolvers, request, i),
        0 <= i < app.rows.len(),
    ensures
        app.apply(probe.reply(result, elapsed_ms)) == (AppView {
            rows: app.rows.update(i, RowState::Done { result, elapsed_ms }),
            ..app
        }),
{
}

/// Each format has its report, of the same check: its domain, its record type,
/// its resolvers, its rows and their tallies.
pub proof fn law_each_format_has_its_report(
    domain: Seq<char>,
    record_type: Seq<char>,
    resolvers: Seq<Resolver>,
    rows: Seq<RowState>,
)
    ensures
        once_document(OutputFormat::Text, domain, record_type, resolvers, rows) == text_document(
            domain,
            record_type,
            resolvers,
            rows,
            summary_of(rows),
        ),
        once_document(OutputFormat::Json, domain, record_type, resolvers, rows) == json_document(
            domain,
            record_type,
            resolvers,
            rows,
            summary_of(rows),
        ),
        once_document(OutputFormat::Csv, domain, record_type, resolvers, rows) == csv_document(
            resolvers,
            rows,
            summary_of(rows).majority_rows,
        ),
{
}

/// A single check that has heard from every resolver reports of each what it
/// replied: a reader of the JSON finds the records, with their time to live and
/// the time they took.
pub proof fn law_check_reports_what_was_replied(
    app: AppView,
    outcomes: Seq<QueryOutcome>,
    resolvers: Seq<Resolver>,
    domain: Seq<char>,
    record_type: Seq<char>,
    k: int,
) -> (r: (Seq<Json>, Seq<Json>))
    requires
        resolvers.len() == app.rows.len(),
        0 <= k < outcomes.len(),
        outcomes[k].generation == app.generation,
        outcomes[k].resolver_index < app.rows.len(),
        forall|l: int|
            k < l < outcomes.len() ==> (#[trigger] outcomes[l]).generation != app.generation
                || outcomes[l].resolver_index != outcomes[k].resolver_index,
    ensures
        ({
            let rows = app.apply_all(outcomes, outcomes.len() as int).rows;
            let i = outcomes[k].resolver_index as int;
            &&& read_document(
                once_document(OutputFormat::Json, domain, record_type, resolvers, rows),
            ) == Some(
                Json::Object(
                    seq![
                        ("domain"@, Json::Text(domain)),
                        ("record_type"@, Json::Text(record_type)),
                        ("resolvers"@, Json::List(r.0)),
                        (
                            "summary"@,
                            Json::Object(
                                seq![
                                    ("ok"@, Json::Number(summary_of(rows).ok)),
                                    ("responding"@, Json::Number(summary_of(rows).responding)),
                                    ("unreachable"@, Json::Number(summary_of(rows).errors)),
                                    ("groups"@, Json::Number(summary_of(rows).groups)),
                                    ("agree"@, Json::Number(summary_of(rows).agree)),
                                    ("majority_values"@, Json::List(r.1)),
                                ],
                            ),
                        ),
                    ],
                ),
            )
            &&& r.0.len() == resolvers.len()
            &&& r.0[i] matches Json::Object(members) && {
                &&& members.len() == 8
                &&& members[0] == ("name"@, Json::Text(resolvers[i].name@))
                &&& members[4] == ("elapsed_ms"@, Json::Number(outcomes[k].elapsed_ms as nat))
                &&& match outcomes[k].result {
                    QueryResult::Records { values, min_ttl } => {
                        &&& members[5] == ("ttl"@, Json::Number(min_ttl as nat))
                        &&& members[6].1 matches Json::List(items) && items.len() == values@.len()
                            && forall|x: int|
                            0 <= x < items.len() ==> #[trigger] items[x] == Json::Text(values@[x]@)
                    },
                    QueryResult::NoRecords(code) => members[7] == ("detail"@, Json::Text(code@)),
                    QueryResult::Error(err) => members[7] == ("detail"@, Json::Text(err@)),
                }
            }
        }),
{
    let i = outcomes[k].resolver_index as int;
    let rows = app.apply_all(outcomes, outcomes.len() as int).rows;
    law_rows_hold_their_last_replies(app, outcomes, i);
    let done = RowState::Done { result: outcomes[k].result, elapsed_ms: outcomes[k].elapsed_ms };
    assert(outcomes[k].resolver_index == i);
    assert(rows[i] == done);
    let r = law_json_reader_finds_every_resolver(
        domain,
        record_type,
        resolvers,
        rows,
        summary_of(rows),
    );
    assert(r.0[i] is Object);
    r
}

} // verus!
