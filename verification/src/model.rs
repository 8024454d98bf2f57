//! The values that travel through a check: resolvers, answers and tallies.

use vstd::prelude::*;

use crate::text::texts;

verus! {

/// One public DNS resolver.
#[derive(Debug, Clone, Copy)]
pub struct Resolver {
    pub name: &'static str,
    pub location: &'static str,
    pub ip: &'static str,
}

/// What one resolver said.
#[derive(Debug, PartialEq, Eq)]
pub enum QueryResult {
    /// Records came back: their values and the smallest time to live.
    Records { values: Vec<String>, min_ttl: u32 },
    /// The resolver answered that there are none; the response code as text.
    NoRecords(String),
    /// The resolver refused or could not be reached; the reason as text.
    Error(String),
}

/// The state of one line of the resolver table.
#[derive(Debug, PartialEq, Eq)]
pub enum RowState {
    /// Nothing was asked yet.
    Idle,
    /// Asked, and still waiting.
    Pending,
    /// Answered after `elapsed_ms` milliseconds.
    Done { result: QueryResult, elapsed_ms: u128 },
}

/// A resolver's reply, with the round that it belongs to.
#[derive(Debug, PartialEq, Eq)]
pub struct QueryOutcome {
    pub resolver_index: usize,
    pub generation: u64,
    pub result: QueryResult,
    pub elapsed_ms: u128,
}

/// How far the answers agree.
#[derive(Debug, PartialEq, Eq)]
pub struct Summary {
    /// Resolvers that returned records.
    pub ok: usize,
    /// Resolvers that answered, with records or without.
    pub responding: usize,
    /// Resolvers that refused or could not be reached.
    pub errors: usize,
    /// Groups of answers that share records.
    pub groups: usize,
    /// Resolvers in the largest group.
    pub agree: usize,
    /// For each row, whether it is in the largest group.
    pub majority_rows: Vec<bool>,
    /// The records of the largest group.
    pub majority_values: Vec<String>,
}

/// The contents of a `Summary`.
#[verifier::ext_equal]
pub struct SummaryView {
    pub ok: nat,
    pub responding: nat,
    pub errors: nat,
    pub groups: nat,
    pub agree: nat,
    pub majority_rows: Seq<bool>,
    pub majority_values: Seq<Seq<char>>,
}

impl View for Summary {
    type V = SummaryView;

    open spec fn view(&self) -> SummaryView {
        SummaryView {
            ok: self.ok as nat,
            responding: self.responding as nat,
            errors: self.errors as nat,
            groups: self.groups as nat,
            agree: self.agree as nat,
            majority_rows: self.majority_rows@,
            majority_values: texts(self.majority_values@),
        }
    }
}

/// The contents of a summary are its fields, each under its own name.
pub proof fn law_summary_shows_its_fields(summary: Summary)
    ensures
        summary@.ok == summary.ok,
        summary@.responding == summary.responding,
        summary@.errors == summary.errors,
        summary@.groups == summary.groups,
        summary@.agree == summary.agree,
        summary@.majority_rows == summary.majority_rows@,
        summary@.majority_values.len() == summary.majority_values@.len(),
        forall|i: int|
            0 <= i < summary.majority_values@.len() ==> #[trigger] summary@.majority_values[i]
                == summary.majority_values@[i]@,
{
}

} // verus!
