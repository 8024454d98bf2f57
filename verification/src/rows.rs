//! The rows of a report, flattened.

use vstd::prelude::*;

use crate::model::{QueryResult, Resolver, RowState};
use crate::text::texts;

verus! {

/// One resolver's result flattened for machine-readable output. `ttl` and
/// `detail` (response code or error message) are mutually exclusive by status.
#[derive(Debug, Clone, Copy)]
pub struct OnceRow<'a> {
    pub status: &'static str,
    pub elapsed_ms: Option<u128>,
    pub ttl: Option<u32>,
    pub values: &'a [String],
    pub detail: Option<&'a str>,
}

/// The status word of a row.
pub open spec fn row_status(row: RowState, in_majority: bool) -> Seq<char> {
    match row {
        RowState::Done { result: QueryResult::Records { .. }, .. } => if in_majority {
            "ok"@
        } else {
            "differs"@
        },
        RowState::Done { result: QueryResult::NoRecords(_), .. } => "none"@,
        RowState::Done { result: QueryResult::Error(_), .. } => "error"@,
        _ => "unknown"@,
    }
}

/// The milliseconds that a row took, once it is done.
pub open spec fn row_elapsed(row: RowState) -> Option<u128> {
    match row {
        RowState::Done { elapsed_ms, .. } => Some(elapsed_ms),
        _ => None,
    }
}

/// The time to live of a row with records.
pub open spec fn row_ttl(row: RowState) -> Option<u32> {
    match row {
        RowState::Done { result: QueryResult::Records { min_ttl, .. }, .. } => Some(min_ttl),
        _ => None,
    }
}

/// The milliseconds of a row as a natural number.
pub open spec fn row_elapsed_nat(row: RowState) -> Option<nat> {
    match row_elapsed(row) {
        Some(ms) => Some(ms as nat),
        None => None,
    }
}

/// The time to live of a row as a natural number.
pub open spec fn row_ttl_nat(row: RowState) -> Option<nat> {
    match row_ttl(row) {
        Some(ttl) => Some(ttl as nat),
        None => None,
    }
}

/// The records of a row; none unless the resolver returned some.
pub open spec fn row_values(row: RowState) -> Seq<Seq<char>> {
    match row {
        RowState::Done { result: QueryResult::Records { values, .. }, .. } => texts(values@),
        _ => seq![],
    }
}

/// The response code or error message of a row that is done without records.
pub open spec fn row_detail(row: RowState) -> Option<Seq<char>> {
    match row {
        RowState::Done { result: QueryResult::NoRecords(code), .. } => Some(code@),
        RowState::Done { result: QueryResult::Error(err), .. } => Some(err@),
        _ => None,
    }
}

/// The contents of an optional string slice.
pub open spec fn opt_text(s: Option<&str>) -> Option<Seq<char>> {
    match s {
        Some(t) => Some(t@),
        None => None,
    }
}

/// Flattens one row.
pub fn once_row<'a>(row: &'a RowState, in_majority: bool) -> (r: OnceRow<'a>)
    ensures
        r.status@ == row_status(*row, in_majority),
        r.elapsed_ms == row_elapsed(*row),
        r.ttl == row_ttl(*row),
        texts(r.values@) == row_values(*row),
        opt_text(r.detail) == row_detail(*row),
        match r.detail {
            Some(text) => row_detail(*row) == Some(text@),
            None => row_detail(*row) is None,
        },
{
    match row {
        RowState::Done { result, elapsed_ms } => {
            let elapsed_ms = Some(*elapsed_ms);
            match result {
                QueryResult::Records { values, min_ttl } => OnceRow {
                    status: if in_majority {
                        "ok"
                    } else {
                        "differs"
                    },
                    elapsed_ms,
                    ttl: Some(*min_ttl),
                    values: values.as_slice(),
                    detail: None,
                },
                QueryResult::NoRecords(code) => OnceRow {
                    status: "none",
                    elapsed_ms,
                    ttl: None,
                    values: &[],
                    detail: Some(code.as_str()),
                },
                QueryResult::Error(err) => OnceRow {
                    status: "error",
                    elapsed_ms,
                    ttl: None,
                    values: &[],
                    detail: Some(err.as_str()),
                },
            }
        },
        _ => OnceRow {
            status: "unknown",
            elapsed_ms: None,
            ttl: None,
            values: &[],
            detail: None,
        },
    }
}

/// How many rows a report shows: one per resolver that has a row.
pub open spec fn shown(resolvers: Seq<Resolver>, rows: Seq<RowState>) -> int {
    if resolvers.len() < rows.len() {
        resolvers.len() as int
    } else {
        rows.len() as int
    }
}

/// A time to live and a detail exclude each other, and a row that is done has
/// one of them.
pub proof fn law_ttl_or_detail(row: RowState)
    ensures
        row_ttl(row) is None || row_detail(row) is None,
        row is Done <==> row_ttl(row) is Some || row_detail(row) is Some,
        row is Done <==> row_elapsed(row) is Some,
{
}

/// An answer outside the majority, and nothing else, is flagged as differing.
pub proof fn law_outliers_are_flagged(row: RowState, in_majority: bool)
    ensures
        row_status(row, in_majority) == "differs"@ <==> row_ttl(row) is Some && !in_majority,
        row_status(row, in_majority) == "ok"@ <==> row_ttl(row) is Some && in_majority,
{
    reveal_strlit("ok");
    reveal_strlit("differs");
    reveal_strlit("none");
    reveal_strlit("error");
    reveal_strlit("unknown");
    assert("ok"@.len() == 2);
    assert("none"@.len() == 4);
    assert("error"@.len() == 5);
    assert("differs"@.len() == 7 && "differs"@[0] == 'd');
    assert("unknown"@.len() == 7 && "unknown"@[0] == 'u');
}

/// A report shows a row for each resolver that has one: as many as there are
/// resolvers and rows alike, and of lists of different lengths as many as the
/// shorter has.
pub proof fn law_every_resolver_with_a_row_is_shown(resolvers: Seq<Resolver>, rows: Seq<RowState>)
    ensures
        resolvers.len() <= rows.len() ==> shown(resolvers, rows) == resolvers.len(),
        rows.len() <= resolvers.len() ==> shown(resolvers, rows) == rows.len(),
{
}

/// What a report says of each kind of row.
pub proof fn law_rows_are_reported(row: RowState, in_majority: bool)
    ensures
        match row {
            RowState::Done { result: QueryResult::Records { values, min_ttl }, elapsed_ms } => {
                &&& in_majority ==> row_status(row, in_majority) == "ok"@
                &&& !in_majority ==> row_status(row, in_majority) == "differs"@
                &&& row_elapsed(row) == Some(elapsed_ms)
                &&& row_elapsed_nat(row) == Some(elapsed_ms as nat)
                &&& row_ttl(row) == Some(min_ttl)
                &&& row_ttl_nat(row) == Some(min_ttl as nat)
                &&& row_values(row).len() == values@.len()
                &&& forall|x: int|
                    0 <= x < values@.len() ==> #[trigger] row_values(row)[x] == values@[x]@
                &&& row_detail(row) is None
            },
            RowState::Done { result: QueryResult::NoRecords(code), elapsed_ms } => {
                &&& row_status(row, in_majority) == "none"@
                &&& row_elapsed(row) == Some(elapsed_ms)
                &&& row_elapsed_nat(row) == Some(elapsed_ms as nat)
                &&& row_ttl(row) is None
                &&& row_ttl_nat(row) is None
                &&& row_values(row).len() == 0
                &&& row_detail(row) == Some(code@)
            },
            RowState::Done { result: QueryResult::Error(err), elapsed_ms } => {
                &&& row_status(row, in_majority) == "error"@
                &&& row_elapsed(row) == Some(elapsed_ms)
                &&& row_elapsed_nat(row) == Some(elapsed_ms as nat)
                &&& row_ttl(row) is None
                &&& row_ttl_nat(row) is None
                &&& row_values(row).len() == 0
                &&& row_detail(row) == Some(err@)
            },
            _ => {
                &&& row_status(row, in_majority) == "unknown"@
                &&& row_elapsed(row) is None
                &&& row_elapsed_nat(row) is None
                &&& row_ttl(row) is None
                &&& row_ttl_nat(row) is None
                &&& row_values(row).len() == 0
                &&& row_detail(row) is None
            },
        },
{
}

} // verus!
