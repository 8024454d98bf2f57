//! How a row is marked in the table.

use vstd::prelude::*;

use crate::consensus::{has_records, in_majority, lemma_linked_answered, majority, summary_of};
use crate::model::{QueryResult, RowState, Summary};
use crate::state::{App, AppView};

verus! {

/// The mark of a row.
#[derive(Debug, Clone, Copy, PartialEq, Eq, Structural)]
pub enum Mark {
    /// Nothing was asked yet.
    Idle,
    /// The reply is awaited.
    InFlight,
    /// Records came back; who agrees is known once all replies are in.
    Answered,
    /// The answer is in the largest group.
    Agrees,
    /// The answer is outside the largest group.
    Differs,
    /// The resolver has no records.
    NoRecords,
    /// The resolver refused or could not be reached.
    Failed,
}

/// The mark of a row, given whether it is in the largest group and whether all
/// replies are in.
pub open spec fn mark_of(row: RowState, inside: bool, complete: bool) -> Mark {
    match row {
        RowState::Idle => Mark::Idle,
        RowState::Pending => Mark::InFlight,
        RowState::Done { result: QueryResult::NoRecords(_), .. } => Mark::NoRecords,
        RowState::Done { result: QueryResult::Error(_), .. } => Mark::Failed,
        RowState::Done { result: QueryResult::Records { .. }, .. } => if inside {
            Mark::Agrees
        } else if complete {
            Mark::Differs
        } else {
            Mark::Answered
        },
    }
}

/// The mark of every row of a table.
pub open spec fn marks_of(app: AppView) -> Seq<Mark> {
    Seq::new(
        app.rows.len(),
        |i: int| mark_of(app.rows[i], in_majority(app.rows, i), !app.in_flight()),
    )
}

/// The mark of a row.
fn row_mark(row: &RowState, inside: bool, complete: bool) -> (r: Mark)
    ensures
        r == mark_of(*row, inside, complete),
{
    match row {
        RowState::Idle => Mark::Idle,
        RowState::Pending => Mark::InFlight,
        RowState::Done { result, .. } => match result {
            QueryResult::NoRecords(_) => Mark::NoRecords,
            QueryResult::Error(_) => Mark::Failed,
            QueryResult::Records { .. } => if inside {
                Mark::Agrees
            } else if complete {
                Mark::Differs
            } else {
                Mark::Answered
            },
        },
    }
}

impl App {
    /// The mark of every row.
    pub fn marks(&self) -> (r: Vec<Mark>)
        ensures
            r@ == marks_of(self@),
    {
        let summary: Summary = self.summary();
        let complete = !self.in_flight();
        let mut marks: Vec<Mark> = Vec::new();
        assert(summary@.majority_rows.len() == self@.rows.len());
        for i in 0..self.rows.len()
            invariant
                complete == !self@.in_flight(),
                summary.majority_rows@ == Seq::new(
                    self@.rows.len(),
                    |i: int| in_majority(self@.rows, i),
                ),
                marks@ == marks_of(self@).take(i as int),
        {
            marks.push(row_mark(&self.rows[i], summary.majority_rows[i], complete));
            assert(marks@ =~= marks_of(self@).take(i + 1));
        }
        assert(marks_of(self@).take(self@.rows.len() as int) =~= marks_of(self@));
        marks
    }
}

/// Once all replies are in, and not before, every answer outside the largest
/// group is flagged, and nothing else is.
pub proof fn law_outliers_are_marked(app: AppView, i: int)
    requires
        0 <= i < app.rows.len(),
    ensures
        marks_of(app)[i] is Differs <==> has_records(app.rows[i]) && !in_majority(app.rows, i)
            && !app.in_flight(),
        marks_of(app)[i] is Agrees <==> has_records(app.rows[i]) && in_majority(app.rows, i),
{
    if in_majority(app.rows, i) {
        lemma_linked_answered(app.rows, majority(app.rows)->0, i);
    }
}

/// What each row of the table is marked as.
pub proof fn law_rows_are_marked(app: AppView, i: int)
    requires
        0 <= i < app.rows.len(),
    ensures
        marks_of(app).len() == app.rows.len(),
        match app.rows[i] {
            RowState::Idle => marks_of(app)[i] is Idle,
            RowState::Pending => marks_of(app)[i] is InFlight,
            RowState::Done { result: QueryResult::NoRecords(_), .. } => marks_of(app)[i] is NoRecords,
            RowState::Done { result: QueryResult::Error(_), .. } => marks_of(app)[i] is Failed,
            RowState::Done { result: QueryResult::Records { .. }, .. } => {
                &&& summary_of(app.rows).majority_rows[i] ==> marks_of(app)[i] is Agrees
                &&& !summary_of(app.rows).majority_rows[i] && (forall|j: int|
                    0 <= j < app.rows.len() ==> !(#[trigger] app.rows[j] is Pending))
                    ==> marks_of(app)[i] is Differs
                &&& !summary_of(app.rows).majority_rows[i] && (exists|j: int|
                    0 <= j < app.rows.len() && #[trigger] app.rows[j] is Pending)
                    ==> marks_of(app)[i] is Answered
            },
        },
{
}

} // verus!
