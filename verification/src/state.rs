//! The state behind the table: the input field, the rows and the watch.

use vstd::prelude::*;

use crate::model::{QueryOutcome, RowState};
use crate::record::RECORD_TYPES;
use crate::text::{from_chars, to_chars};

verus! {

/// By which column the table is sorted.
#[derive(Debug, Clone, Copy, PartialEq, Eq, Structural)]
pub enum SortKey {
    Resolver,
    Location,
    Time,
    Status,
    Answer,
}

impl SortKey {
    /// The order behind this one; the last leads back to the first.
    pub open spec fn spec_next(self) -> SortKey {
        match self {
            SortKey::Resolver => SortKey::Location,
            SortKey::Location => SortKey::Time,
            SortKey::Time => SortKey::Status,
            SortKey::Status => SortKey::Answer,
            SortKey::Answer => SortKey::Resolver,
        }
    }

    /// The order behind this one; the last leads back to the first.
    pub fn next(self) -> (r: SortKey)
        ensures
            r == self.spec_next(),
    {
        match self {
            SortKey::Resolver => SortKey::Location,
            SortKey::Location => SortKey::Time,
            SortKey::Time => SortKey::Status,
            SortKey::Status => SortKey::Answer,
            SortKey::Answer => SortKey::Resolver,
        }
    }
}

/// A domain and the code of a record type, as last queried.
#[derive(Debug)]
pub struct Queried {
    pub domain: String,
    pub code: u16,
}

/// A round to ask of every resolver.
#[derive(Debug)]
pub struct Request {
    pub domain: String,
    pub code: u16,
    pub generation: u64,
}

/// The contents of a `Request`.
pub struct RequestView {
    pub domain: Seq<char>,
    pub code: u16,
    pub generation: u64,
}

impl View for Request {
    type V = RequestView;

    open spec fn view(&self) -> RequestView {
        RequestView { domain: self.domain@, code: self.code, generation: self.generation }
    }
}

/// The contents of an optional request.
pub open spec fn opt_request(r: Option<Request>) -> Option<RequestView> {
    match r {
        Some(request) => Some(request@),
        None => None,
    }
}

/// The state of the program. Times are milliseconds on the caller's clock.
#[derive(Debug)]
pub struct App {
    /// The text of the input field.
    pub domain: Vec<char>,
    /// The place in the input field before which characters are typed.
    pub cursor: usize,
    /// The selected record type, by its place in `RECORD_TYPES`.
    pub rtype_idx: usize,
    /// One row per resolver.
    pub rows: Vec<RowState>,
    /// The number of the current round; replies to earlier rounds are stale.
    pub generation: u64,
    /// What was last queried.
    pub queried: Option<Queried>,
    /// Whether rounds repeat until the answers agree.
    pub auto_refresh: bool,
    /// When the next round is due.
    pub next_poll: Option<u64>,
    /// By which column the table is sorted.
    pub sort: SortKey,
    /// The first row on the screen.
    pub scroll: usize,
    /// The frame of the spinner.
    pub spinner_frame: usize,
    /// Whether the program is to end.
    pub should_quit: bool,
}

/// The contents of an `App`.
#[verifier::ext_equal]
pub struct AppView {
    pub domain: Seq<char>,
    pub cursor: int,
    pub rtype_idx: int,
    pub rows: Seq<RowState>,
    pub generation: u64,
    pub queried: Option<(Seq<char>, u16)>,
    pub auto_refresh: bool,
    pub next_poll: Option<u64>,
    pub sort: SortKey,
    pub scroll: int,
    pub spinner_frame: usize,
    pub should_quit: bool,
}

impl View for App {
    type V = AppView;

    open spec fn view(&self) -> AppView {
        AppView {
            domain: self.domain@,
            cursor: self.cursor as int,
            rtype_idx: self.rtype_idx as int,
            rows: self.rows@,
            generation: self.generation,
            queried: match self.queried {
                Some(q) => Some((q.domain@, q.code)),
                None => None,
            },
            auto_refresh: self.auto_refresh,
            next_poll: self.next_poll,
            sort: self.sort,
            scroll: self.scroll as int,
            spinner_frame: self.spinner_frame,
            should_quit: self.should_quit,
        }
    }
}

/// The number of the round behind round `g`.
pub open spec fn next_generation(g: u64) -> u64 {
    if g == u64::MAX {
        0
    } else {
        (g + 1) as u64
    }
}

/// The row that a reply leaves.
pub open spec fn row_of(outcome: QueryOutcome) -> RowState {
    RowState::Done { result: outcome.result, elapsed_ms: outcome.elapsed_ms }
}

impl AppView {
    /// The cursor stands in the input field and a record type is selected.
    pub open spec fn wf(self) -> bool {
        &&& 0 <= self.cursor <= self.domain.len()
        &&& 0 <= self.rtype_idx < RECORD_TYPES@.len()
    }

    /// A fresh state with one idle row per resolver and the cursor at the end.
    pub open spec fn fresh(domain: Seq<char>, resolvers: nat) -> AppView {
        AppView {
            domain,
            cursor: domain.len() as int,
            rtype_idx: 0,
            rows: Seq::new(resolvers, |i: int| RowState::Idle),
            generation: 0,
            queried: None,
            auto_refresh: false,
            next_poll: None,
            sort: SortKey::Resolver,
            scroll: 0,
            spinner_frame: 0,
            should_quit: false,
        }
    }

    /// Some row still waits for its reply.
    pub open spec fn in_flight(self) -> bool {
        exists|i: int| 0 <= i < self.rows.len() && #[trigger] self.rows[i] is Pending
    }

    pub open spec fn insert_char(self, c: char) -> AppView {
        AppView {
            domain: self.domain.insert(self.cursor, c),
            cursor: self.cursor + 1,
            ..self
        }
    }

    pub open spec fn backspace(self) -> AppView {
        if self.cursor == 0 {
            self
        } else {
            AppView {
                domain: self.domain.remove(self.cursor - 1),
                cursor: self.cursor - 1,
                ..self
            }
        }
    }

    pub open spec fn delete(self) -> AppView {
        if self.cursor < self.domain.len() {
            AppView { domain: self.domain.remove(self.cursor), ..self }
        } else {
            self
        }
    }

    pub open spec fn move_cursor_left(self) -> AppView {
        if self.cursor == 0 {
            self
        } else {
            AppView { cursor: self.cursor - 1, ..self }
        }
    }

    pub open spec fn move_cursor_right(self) -> AppView {
        if self.cursor < self.domain.len() {
            AppView { cursor: self.cursor + 1, ..self }
        } else {
            self
        }
    }

    pub open spec fn clear_domain(self) -> AppView {
        AppView { domain: seq![], cursor: 0, ..self }
    }

    pub open spec fn cycle_record_type(self, forward: bool) -> AppView {
        AppView {
            rtype_idx: if forward {
                (self.rtype_idx + 1) % RECORD_TYPES@.len() as int
            } else {
                (self.rtype_idx + RECORD_TYPES@.len() - 1) % RECORD_TYPES@.len() as int
            },
            ..self
        }
    }

    /// A new round for `domain` and `code`: every row waits.
    pub open spec fn begin_round(self, domain: Seq<char>, code: u16) -> AppView {
        AppView {
            rows: Seq::new(self.rows.len(), |i: int| RowState::Pending),
            generation: next_generation(self.generation),
            queried: Some((domain, code)),
            ..self
        }
    }

    /// The request of the round that has just begun.
    pub open spec fn request(self) -> RequestView {
        let (domain, code) = self.queried->0;
        RequestView { domain, code, generation: self.generation }
    }

    /// A round for what stands in the input field; none when it is empty.
    pub open spec fn begin_query(self) -> Option<AppView> {
        if self.domain.len() == 0 {
            None
        } else {
            Some(self.begin_round(self.domain, RECORD_TYPES@[self.rtype_idx]))
        }
    }

    /// A round for what was last queried; none when nothing was.
    pub open spec fn begin_requery(self) -> Option<AppView> {
        match self.queried {
            None => None,
            Some((domain, code)) => Some(self.begin_round(domain, code)),
        }
    }

    /// A reply fills the row of its resolver; a stale one is dropped.
    pub open spec fn apply(self, outcome: QueryOutcome) -> AppView {
        if outcome.generation == self.generation && outcome.resolver_index < self.rows.len() {
            AppView {
                rows: self.rows.update(outcome.resolver_index as int, row_of(outcome)),
                ..self
            }
        } else {
            self
        }
    }

    /// The first `n` replies, one after the other.
    pub open spec fn apply_all(self, outcomes: Seq<QueryOutcome>, n: int) -> AppView
        decreases n,
    {
        if n <= 0 {
            self
        } else {
            self.apply_all(outcomes, n - 1).apply(outcomes[n - 1])
        }
    }
}

/// Replies change rows and nothing else, and add or remove none.
pub proof fn lemma_replies_change_rows_only(app: AppView, outcomes: Seq<QueryOutcome>, n: int)
    ensures
        app.apply_all(outcomes, n) == (AppView { rows: app.apply_all(outcomes, n).rows, ..app }),
        app.apply_all(outcomes, n).rows.len() == app.rows.len(),
    decreases n,
{
    if n > 0 {
        lemma_replies_change_rows_only(app, outcomes, n - 1);
    }
}

impl App {
    /// A fresh state with one idle row per resolver.
    pub fn new(domain: String, resolvers: usize) -> (r: App)
        ensures
            r@ == AppView::fresh(domain@, resolvers as nat),
            r@.wf(),
    {
        let domain = to_chars(domain.as_str());
        let cursor: usize = domain.len();
        let mut rows: Vec<RowState> = Vec::new();
        for i in 0..resolvers
            invariant
                rows@ == Seq::new(i as nat, |i: int| RowState::Idle),
        {
            rows.push(RowState::Idle);
            assert(rows@ =~= Seq::new((i + 1) as nat, |i: int| RowState::Idle));
        }
        App {
            domain,
            cursor,
            rtype_idx: 0,
            rows,
            generation: 0,
            queried: None,
            auto_refresh: false,
            next_poll: None,
            sort: SortKey::Resolver,
            scroll: 0,
            spinner_frame: 0,
            should_quit: false,
        }
    }

    /// Whether some row still waits for its reply.
    pub fn in_flight(&self) -> (r: bool)
        ensures
            r == self@.in_flight(),
    {
        for i in 0..self.rows.len()
            invariant
                forall|j: int| 0 <= j < i ==> !(#[trigger] self.rows@[j] is Pending),
        {
            if let RowState::Pending = self.rows[i] {
                assert(self@.rows[i as int] is Pending);
                return true;
            }
        }
        false
    }

    /// Types a character at the cursor.
    pub fn insert_char(&mut self, c: char)
        requires
            old(self)@.wf(),
        ensures
            final(self)@ == old(self)@.insert_char(c),
            final(self)@.wf(),
    {
        self.domain.insert(self.cursor, c);
        assert(self.cursor < self.domain.len());
        self.cursor = self.cursor + 1;
    }

    /// Removes the character before the cursor.
    pub fn backspace(&mut self)
        requires
            old(self)@.wf(),
        ensures
            final(self)@ == old(self)@.backspace(),
            final(self)@.wf(),
    {
        if self.cursor > 0 {
            self.cursor = self.cursor - 1;
            self.domain.remove(self.cursor);
        }
    }

    /// Removes the character at the cursor.
    pub fn delete(&mut self)
        requires
            old(self)@.wf(),
        ensures
            final(self)@ == old(self)@.delete(),
            final(self)@.wf(),
    {
        if self.cursor < self.domain.len() {
            self.domain.remove(self.cursor);
        }
    }

    pub fn move_cursor_left(&mut self)
        requires
            old(self)@.wf(),
        ensures
            final(self)@ == old(self)@.move_cursor_left(),
            final(self)@.wf(),
    {
        if self.cursor > 0 {
            self.cursor = self.cursor - 1;
        }
    }

    pub fn move_cursor_right(&mut self)
        requires
            old(self)@.wf(),
        ensures
            final(self)@ == old(self)@.move_cursor_right(),
            final(self)@.wf(),
    {
        if self.cursor < self.domain.len() {
            self.cursor = self.cursor + 1;
        }
    }

    /// Empties the input field.
    pub fn clear_domain(&mut self)
        ensures
            final(self)@ == old(self)@.clear_domain(),
            old(self)@.wf() ==> final(self)@.wf(),
    {
        self.domain = Vec::new();
        self.cursor = 0;
    }

    /// Selects the next record type, or the one before.
    pub fn cycle_record_type(&mut self, forward: bool)
        requires
            old(self)@.wf(),
        ensures
            final(self)@ == old(self)@.cycle_record_type(forward),
            final(self)@.wf(),
    {
        self.rtype_idx = if forward {
            (self.rtype_idx + 1) % RECORD_TYPES.len()
        } else {
            (self.rtype_idx + RECORD_TYPES.len() - 1) % RECORD_TYPES.len()
        };
    }

    /// Keeps the first row on the screen at `last` or before it.
    pub fn clamp_scroll(&mut self, last: usize)
        ensures
            final(self)@ == (AppView {
                scroll: if old(self)@.scroll > last {
                    last as int
                } else {
                    old(self)@.scroll
                },
                ..old(self)@
            }),
    {
        if self.scroll > last {
            self.scroll = last;
        }
    }

    fn begin_round(&mut self, domain: String, code: u16) -> (r: Request)
        ensures
            final(self)@ == old(self)@.begin_round(domain@, code),
            r@ == final(self)@.request(),
    {
        let n: usize = self.rows.len();
        let mut rows: Vec<RowState> = Vec::new();
        for i in 0..n
            invariant
                rows@ == Seq::new(i as nat, |i: int| RowState::Pending),
        {
            rows.push(RowState::Pending);
            assert(rows@ =~= Seq::new((i + 1) as nat, |i: int| RowState::Pending));
        }
        self.rows = rows;
        self.generation = self.generation.wrapping_add(1);
        self.queried = Some(Queried { domain: domain.clone(), code });
        Request { domain, code, generation: self.generation }
    }

    /// Begins a round for what stands in the input field.
    pub fn begin_query(&mut self) -> (r: Option<Request>)
        requires
            old(self)@.wf(),
        ensures
            match old(self)@.begin_query() {
                None => r is None && final(self)@ == old(self)@,
                Some(next) => final(self)@ == next && opt_request(r) == Some(next.request()),
            },
    {
        if self.domain.len() == 0 {
            return None;
        }
        let domain = from_chars(&self.domain);
        let code: u16 = RECORD_TYPES[self.rtype_idx];
        Some(self.begin_round(domain, code))
    }

    /// Begins a round for what was last queried.
    pub fn begin_requery(&mut self) -> (r: Option<Request>)
        ensures
            match old(self)@.begin_requery() {
                None => r is None && final(self)@ == old(self)@,
                Some(next) => final(self)@ == next && opt_request(r) == Some(next.request()),
            },
    {
        let (domain, code) = match &self.queried {
            None => {
                return None;
            },
            Some(q) => (q.domain.clone(), q.code),
        };
        Some(self.begin_round(domain, code))
    }

    /// Takes a reply in.
    pub fn apply(&mut self, outcome: QueryOutcome)
        ensures
            final(self)@ == old(self)@.apply(outcome),
    {
        if outcome.generation == self.generation && outcome.resolver_index < self.rows.len() {
            self.rows.set(
                outcome.resolver_index,
                RowState::Done { result: outcome.result, elapsed_ms: outcome.elapsed_ms },
            );
        }
    }

    /// Takes replies in, one after the other.
    pub fn apply_all(&mut self, outcomes: Vec<QueryOutcome>)
        ensures
            final(self)@ == old(self)@.apply_all(outcomes@, outcomes@.len() as int),
    {
        let ghost start = self@;
        for outcome in it: outcomes
            invariant
                it.seq() == outcomes@,
                self@ == start.apply_all(outcomes@, it.index()),
        {
            self.apply(outcome);
        }
    }
}

/// A new round has another number than the one before it, so that a late reply
/// to the round before changes nothing.
pub proof fn law_late_replies_change_nothing(
    app: AppView,
    domain: Seq<char>,
    code: u16,
    outcome: QueryOutcome,
)
    requires
        outcome.generation == app.generation,
    ensures
        app.begin_round(domain, code).apply(outcome) == app.begin_round(domain, code),
{
}

/// Replies to other rounds change nothing.
pub proof fn law_stale_replies_change_nothing(app: AppView, outcomes: Seq<QueryOutcome>, n: int)
    requires
        n <= outcomes.len(),
        forall|k: int|
            0 <= k < outcomes.len() ==> (#[trigger] outcomes[k]).generation != app.generation,
    ensures
        app.apply_all(outcomes, n) == app,
    decreases n,
{
    if n > 0 {
        law_stale_replies_change_nothing(app, outcomes, n - 1);
    }
}

/// A reply leaves no row waiting that did not wait before.
pub proof fn lemma_replies_start_no_wait(app: AppView, outcomes: Seq<QueryOutcome>, n: int, i: int)
    requires
        0 <= i < app.rows.len(),
        !(app.rows[i] is Pending),
    ensures
        !(app.apply_all(outcomes, n).rows[i] is Pending),
    decreases n,
{
    if n > 0 {
        lemma_replies_start_no_wait(app, outcomes, n - 1, i);
        lemma_replies_change_rows_only(app, outcomes, n - 1);
    }
}

/// A row whose reply is among the first `n` waits no more.
proof fn lemma_reply_ends_wait(
    app: AppView,
    outcomes: Seq<QueryOutcome>,
    n: int,
    k: int,
)
    requires
        0 <= k < n <= outcomes.len(),
        outcomes[k].generation == app.generation,
        outcomes[k].resolver_index < app.rows.len(),
    ensures
        !(app.apply_all(outcomes, n).rows[outcomes[k].resolver_index as int] is Pending),
    decreases n,
{
    lemma_replies_change_rows_only(app, outcomes, n - 1);
    if k < n - 1 {
        lemma_reply_ends_wait(app, outcomes, n - 1, k);
    }
}

/// Among the replies is one of resolver `i` to round `generation`.
pub open spec fn has_reply(outcomes: Seq<QueryOutcome>, generation: u64, i: int) -> bool {
    exists|k: int|
        0 <= k < outcomes.len() && (#[trigger] outcomes[k]).resolver_index == i
            && outcomes[k].generation == generation
}

/// A round is complete once every resolver has replied to it, in whatever
/// order the replies come and whatever else comes between them.
pub proof fn law_round_completes(app: AppView, outcomes: Seq<QueryOutcome>)
    requires
        forall|i: int|
            0 <= i < app.rows.len() ==> #[trigger] has_reply(outcomes, app.generation, i),
    ensures
        !app.apply_all(outcomes, outcomes.len() as int).in_flight(),
{
    let n = outcomes.len() as int;
    let end = app.apply_all(outcomes, n);
    lemma_replies_change_rows_only(app, outcomes, n);
    assert forall|i: int| 0 <= i < end.rows.len() implies !(#[trigger] end.rows[i] is Pending) by {
        assert(has_reply(outcomes, app.generation, i));
        let k = choose|k: int|
            0 <= k < outcomes.len() && (#[trigger] outcomes[k]).resolver_index == i
                && outcomes[k].generation == app.generation;
        lemma_reply_ends_wait(app, outcomes, n, k);
    }
}

/// A reply among the first `n` stands in its row once they are applied.
proof fn lemma_reply_stays(app: AppView, outcomes: Seq<QueryOutcome>, n: int, k: int)
    requires
        0 <= k < n <= outcomes.len(),
        outcomes[k].generation == app.generation,
        outcomes[k].resolver_index < app.rows.len(),
        one_reply_per_row(outcomes, app.generation),
    ensures
        app.apply_all(outcomes, n).rows[outcomes[k].resolver_index as int] == row_of(outcomes[k]),
    decreases n,
{
    lemma_replies_change_rows_only(app, outcomes, n - 1);
    if k < n - 1 {
        lemma_reply_stays(app, outcomes, n - 1, k);
        if outcomes[n - 1].generation == app.generation {
            assert(outcomes[n - 1].resolver_index != outcomes[k].resolver_index);
        }
    }
}

proof fn lemma_no_reply_no_change(app: AppView, outcomes: Seq<QueryOutcome>, n: int, i: int)
    requires
        n <= outcomes.len(),
        0 <= i < app.rows.len(),
        !has_reply(outcomes, app.generation, i),
    ensures
        app.apply_all(outcomes, n).rows[i] == app.rows[i],
    decreases n,
{
    if n > 0 {
        lemma_replies_change_rows_only(app, outcomes, n - 1);
        lemma_no_reply_no_change(app, outcomes, n - 1, i);
        assert(outcomes[n - 1].resolver_index != i || outcomes[n - 1].generation
            != app.generation);
    }
}

/// No resolver replies twice to round `generation`.
pub open spec fn one_reply_per_row(outcomes: Seq<QueryOutcome>, generation: u64) -> bool {
    forall|j: int, k: int|
        0 <= j < k < outcomes.len() && (#[trigger] outcomes[j]).generation == generation && (
        #[trigger] outcomes[k]).generation == generation ==> outcomes[j].resolver_index
            != outcomes[k].resolver_index
}

/// Where no resolver replies twice to the current round, every reply to it ends
/// up in the row of its resolver, in whatever order the replies come, and a row
/// without a reply stays as it was.
pub proof fn law_replies_fill_their_rows(app: AppView, outcomes: Seq<QueryOutcome>)
    requires
        one_reply_per_row(outcomes, app.generation),
    ensures
        forall|k: int|
            0 <= k < outcomes.len() && (#[trigger] outcomes[k]).generation == app.generation
                && outcomes[k].resolver_index < app.rows.len() ==> app.apply_all(
                outcomes,
                outcomes.len() as int,
            ).rows[outcomes[k].resolver_index as int] == row_of(outcomes[k]),
        forall|i: int|
            0 <= i < app.rows.len() && !#[trigger] has_reply(outcomes, app.generation, i)
                ==> app.apply_all(outcomes, outcomes.len() as int).rows[i] == app.rows[i],
{
    let n = outcomes.len() as int;
    assert forall|k: int|
        0 <= k < outcomes.len() && (#[trigger] outcomes[k]).generation == app.generation
            && outcomes[k].resolver_index < app.rows.len() implies app.apply_all(
        outcomes,
        n,
    ).rows[outcomes[k].resolver_index as int] == row_of(outcomes[k]) by {
        lemma_reply_stays(app, outcomes, n, k);
    }
    assert forall|i: int|
        0 <= i < app.rows.len() && !#[trigger] has_reply(
            outcomes,
            app.generation,
            i,
        ) implies app.apply_all(outcomes, n).rows[i] == app.rows[i] by {
        lemma_no_reply_no_change(app, outcomes, n, i);
    }
}

/// Backspace takes back the character that was just typed.
pub proof fn law_backspace_undoes_typing(app: AppView, c: char)
    requires
        app.wf(),
    ensures
        app.insert_char(c).backspace() == app,
{
    let typed = app.insert_char(c);
    assert(typed.domain.remove(typed.cursor - 1) =~= app.domain);
}

/// Backspace does what a step to the left and Delete do.
pub proof fn law_backspace_is_left_and_delete(app: AppView)
    requires
        app.wf(),
        app.cursor > 0,
    ensures
        app.backspace() == app.move_cursor_left().delete(),
{
}

/// Selecting the next record type and the one before undo each other.
pub proof fn law_record_types_cycle(app: AppView)
    requires
        app.wf(),
    ensures
        app.cycle_record_type(true).cycle_record_type(false) == app,
        app.cycle_record_type(false).cycle_record_type(true) == app,
        app.cycle_record_type(true).rtype_idx == if app.rtype_idx == RECORD_TYPES@.len() - 1 {
            0
        } else {
            app.rtype_idx + 1
        },
{
    law_record_types_follow_each_other(app);
    law_record_types_follow_each_other(app.cycle_record_type(true));
    law_record_types_follow_each_other(app.cycle_record_type(false));
}

/// Five steps through the sort orders lead back to the first, and fewer do not.
pub proof fn law_sort_orders_cycle(key: SortKey)
    ensures
        key.spec_next().spec_next().spec_next().spec_next().spec_next() == key,
        key.spec_next() != key,
        key.spec_next().spec_next() != key,
        key.spec_next().spec_next().spec_next() != key,
        key.spec_next().spec_next().spec_next().spec_next() != key,
{
}

/// A round asks everyone: whatever the rows held before, each of them waits.
/// The round has a number of its own, and nothing but the rows, the number and
/// what was queried changes.
pub proof fn law_round_asks_everyone(app: AppView, domain: Seq<char>, code: u16)
    ensures
        ({
            let next = app.begin_round(domain, code);
            &&& next.rows.len() == app.rows.len()
            &&& forall|i: int| 0 <= i < next.rows.len() ==> #[trigger] next.rows[i] is Pending
            &&& app.generation < u64::MAX ==> next.generation == app.generation + 1
            &&& app.generation == u64::MAX ==> next.generation == 0
            &&& next.queried == Some((domain, code))
            &&& next == (AppView {
                rows: next.rows,
                generation: next.generation,
                queried: next.queried,
                ..app
            })
            &&& next.request().domain == domain
            &&& next.request().code == code
            &&& next.request().generation == next.generation
        }),
{
}

/// A query asks everyone for what stands in the input field, of the selected
/// record type; an empty field asks nobody. A repeated query asks everyone for
/// what was last queried.
pub proof fn law_queries_ask_everyone(app: AppView)
    ensures
        app.begin_query() is None <==> app.domain.len() == 0,
        app.begin_query() matches Some(next) ==> {
            &&& next.rows.len() == app.rows.len()
            &&& forall|i: int| 0 <= i < next.rows.len() ==> #[trigger] next.rows[i] is Pending
            &&& next.generation != app.generation
            &&& next.queried == Some((app.domain, RECORD_TYPES@[app.rtype_idx]))
            &&& next == (AppView {
                rows: next.rows,
                generation: next.generation,
                queried: next.queried,
                ..app
            })
        },
        app.begin_requery() is None <==> app.queried is None,
        app.begin_requery() matches Some(next) ==> {
            &&& next.rows.len() == app.rows.len()
            &&& forall|i: int| 0 <= i < next.rows.len() ==> #[trigger] next.rows[i] is Pending
            &&& next.generation != app.generation
            &&& next.queried == app.queried
            &&& next == (AppView { rows: next.rows, generation: next.generation, ..app })
        },
{
}

/// A reply to the current round fills the row of its resolver and touches
/// nothing else; any other reply touches nothing.
pub proof fn law_reply_fills_one_row(app: AppView, outcome: QueryOutcome)
    ensures
        outcome.generation != app.generation || outcome.resolver_index >= app.rows.len()
            ==> app.apply(outcome) == app,
        outcome.generation == app.generation && outcome.resolver_index < app.rows.len() ==> {
            let next = app.apply(outcome);
            &&& next == (AppView { rows: next.rows, ..app })
            &&& next.rows.len() == app.rows.len()
            &&& next.rows[outcome.resolver_index as int] == (RowState::Done {
                result: outcome.result,
                elapsed_ms: outcome.elapsed_ms,
            })
            &&& forall|i: int|
                0 <= i < app.rows.len() && i != outcome.resolver_index ==> #[trigger] next.rows[i]
                    == app.rows[i]
        },
{
}

/// The first `n` replies leave in row `i` the last of them that is resolver
/// `i`'s to the current round, and without one what it held.
spec fn row_after(
    app: AppView,
    outcomes: Seq<QueryOutcome>,
    n: int,
    i: int,
    row: RowState,
) -> bool {
    ||| exists|k: int|
        {
            &&& 0 <= k < n
            &&& (#[trigger] outcomes[k]).resolver_index == i
            &&& outcomes[k].generation == app.generation
            &&& row == (RowState::Done {
                result: outcomes[k].result,
                elapsed_ms: outcomes[k].elapsed_ms,
            })
            &&& forall|l: int|
                k < l < n ==> !((#[trigger] outcomes[l]).resolver_index == i
                    && outcomes[l].generation == app.generation)
        }
    ||| row == app.rows[i] && forall|l: int|
        0 <= l < n ==> !((#[trigger] outcomes[l]).resolver_index == i && outcomes[l].generation
            == app.generation)
}

proof fn lemma_row_after(app: AppView, outcomes: Seq<QueryOutcome>, n: int, i: int)
    requires
        0 <= n <= outcomes.len(),
        0 <= i < app.rows.len(),
    ensures
        row_after(app, outcomes, n, i, app.apply_all(outcomes, n).rows[i]),
    decreases n,
{
    if n > 0 {
        lemma_row_after(app, outcomes, n - 1, i);
        lemma_replies_change_rows_only(app, outcomes, n - 1);
        let before = app.apply_all(outcomes, n - 1).rows[i];
        let last = outcomes[n - 1];
        if last.resolver_index == i && last.generation == app.generation {
            assert(app.apply_all(outcomes, n).rows[i] == row_of(last));
        } else {
            assert(app.apply_all(outcomes, n).rows[i] == before);
            if before == app.rows[i] && forall|l: int|
                0 <= l < n - 1 ==> !((#[trigger] outcomes[l]).resolver_index == i
                    && outcomes[l].generation == app.generation) {
            } else {
                let k = choose|k: int|
                    {
                        &&& 0 <= k < n - 1
                        &&& (#[trigger] outcomes[k]).resolver_index == i
                        &&& outcomes[k].generation == app.generation
                        &&& before == (RowState::Done {
                            result: outcomes[k].result,
                            elapsed_ms: outcomes[k].elapsed_ms,
                        })
                        &&& forall|l: int|
                            k < l < n - 1 ==> !((#[trigger] outcomes[l]).resolver_index == i
                                && outcomes[l].generation == app.generation)
                    };
                assert(outcomes[k].resolver_index == i);
            }
        }
    }
}

/// Replies leave in each row the last of them that is its resolver's to the
/// current round, and without one what the row held; they change nothing else.
pub proof fn law_rows_hold_their_last_replies(app: AppView, outcomes: Seq<QueryOutcome>, i: int)
    requires
        0 <= i < app.rows.len(),
    ensures
        ({
            let end = app.apply_all(outcomes, outcomes.len() as int);
            &&& end == (AppView { rows: end.rows, ..app })
            &&& end.rows.len() == app.rows.len()
            &&& ({
                ||| exists|k: int|
                    {
                        &&& 0 <= k < outcomes.len()
                        &&& (#[trigger] outcomes[k]).resolver_index == i
                        &&& outcomes[k].generation == app.generation
                        &&& end.rows[i] == (RowState::Done {
                            result: outcomes[k].result,
                            elapsed_ms: outcomes[k].elapsed_ms,
                        })
                        &&& forall|l: int|
                            k < l < outcomes.len() ==> !((#[trigger] outcomes[l]).resolver_index
                                == i && outcomes[l].generation == app.generation)
                    }
                ||| end.rows[i] == app.rows[i] && forall|l: int|
                    0 <= l < outcomes.len() ==> !((#[trigger] outcomes[l]).resolver_index == i
                        && outcomes[l].generation == app.generation)
            })
        }),
{
    lemma_row_after(app, outcomes, outcomes.len() as int, i);
    lemma_replies_change_rows_only(app, outcomes, outcomes.len() as int);
}

/// Replies that come in two batches do what they do in one.
pub proof fn law_batches_add_up(app: AppView, a: Seq<QueryOutcome>, b: Seq<QueryOutcome>)
    ensures
        app.apply_all(a + b, (a + b).len() as int) == app.apply_all(a, a.len() as int).apply_all(
            b,
            b.len() as int,
        ),
{
    lemma_prefix_applies(app, a, b, a.len() as int);
    lemma_suffix_applies(app, a, b, b.len() as int);
}

proof fn lemma_prefix_applies(
    app: AppView,
    a: Seq<QueryOutcome>,
    b: Seq<QueryOutcome>,
    n: int,
)
    requires
        n <= a.len(),
    ensures
        app.apply_all(a + b, n) == app.apply_all(a, n),
    decreases n,
{
    if n > 0 {
        lemma_prefix_applies(app, a, b, n - 1);
    }
}

proof fn lemma_suffix_applies(
    app: AppView,
    a: Seq<QueryOutcome>,
    b: Seq<QueryOutcome>,
    n: int,
)
    requires
        0 <= n <= b.len(),
        app.apply_all(a + b, a.len() as int) == app.apply_all(a, a.len() as int),
    ensures
        app.apply_all(a + b, a.len() + n) == app.apply_all(a, a.len() as int).apply_all(b, n),
    decreases n,
{
    if n > 0 {
        lemma_suffix_applies(app, a, b, n - 1);
        assert((a + b)[a.len() + n - 1] == b[n - 1]);
    }
}

/// Replies are awaited exactly as long as some row is pending.
pub proof fn law_pending_rows_are_awaited(app: AppView)
    ensures
        app.in_flight() <==> !(forall|i: int|
            0 <= i < app.rows.len() ==> !(#[trigger] app.rows[i] is Pending)),
{
}

/// At the start every row is idle, the cursor stands behind the domain, the
/// first record type is selected, and nothing was asked or is scheduled.
pub proof fn law_start_is_blank(domain: Seq<char>, resolvers: nat)
    ensures
        ({
            let app = AppView::fresh(domain, resolvers);
            &&& app.domain == domain
            &&& app.cursor == domain.len()
            &&& app.rtype_idx == 0
            &&& app.rows.len() == resolvers
            &&& forall|i: int| 0 <= i < resolvers ==> #[trigger] app.rows[i] is Idle
            &&& app.generation == 0
            &&& app.queried is None
            &&& !app.auto_refresh
            &&& app.next_poll is None
            &&& app.sort is Resolver
            &&& app.scroll == 0
            &&& app.spinner_frame == 0
            &&& !app.should_quit
        }),
{
}

/// A character goes in at the cursor, which moves behind it; Backspace takes
/// out the one before the cursor and Delete the one behind. What stands before
/// and behind stays, and so does everything but the field.
pub proof fn law_editing_happens_at_the_cursor(app: AppView, c: char)
    requires
        app.wf(),
    ensures
        app.insert_char(c) == (AppView {
            domain: app.domain.take(app.cursor) + seq![c] + app.domain.skip(app.cursor),
            cursor: app.cursor + 1,
            ..app
        }),
        app.cursor > 0 ==> app.backspace() == (AppView {
            domain: app.domain.take(app.cursor - 1) + app.domain.skip(app.cursor),
            cursor: app.cursor - 1,
            ..app
        }),
        app.cursor == 0 ==> app.backspace() == app,
        app.cursor < app.domain.len() ==> app.delete() == (AppView {
            domain: app.domain.take(app.cursor) + app.domain.skip(app.cursor + 1),
            ..app
        }),
        app.cursor == app.domain.len() ==> app.delete() == app,
        app.clear_domain() == (AppView { domain: seq![], cursor: 0, ..app }),
{
    assert(app.insert_char(c).domain =~= app.domain.take(app.cursor) + seq![c] + app.domain.skip(
        app.cursor,
    ));
    if app.cursor > 0 {
        assert(app.backspace().domain =~= app.domain.take(app.cursor - 1) + app.domain.skip(
            app.cursor,
        ));
    }
    if app.cursor < app.domain.len() {
        assert(app.delete().domain =~= app.domain.take(app.cursor) + app.domain.skip(
            app.cursor + 1,
        ));
    }
}

/// The cursor moves by one place and stays in the field.
pub proof fn law_cursor_moves_by_one(app: AppView)
    requires
        app.wf(),
    ensures
        app.cursor > 0 ==> app.move_cursor_left() == (AppView { cursor: app.cursor - 1, ..app }),
        app.cursor == 0 ==> app.move_cursor_left() == app,
        app.cursor < app.domain.len() ==> app.move_cursor_right() == (AppView {
            cursor: app.cursor + 1,
            ..app
        }),
        app.cursor == app.domain.len() ==> app.move_cursor_right() == app,
        app.cursor > 0 ==> app.move_cursor_left().move_cursor_right() == app,
{
}

/// A state is well formed when the cursor stands in the field and one of the
/// seven record types is selected.
pub proof fn law_cursor_and_selection_are_in_range(app: AppView)
    ensures
        app.wf() <==> 0 <= app.cursor <= app.domain.len() && 0 <= app.rtype_idx < 7,
{
    assert(RECORD_TYPES@.len() == 7);
}

/// The record types are selected in turn, in either direction, and the ends
/// lead to each other.
pub proof fn law_record_types_follow_each_other(app: AppView)
    requires
        app.wf(),
    ensures
        app.cycle_record_type(true) == (AppView {
            rtype_idx: if app.rtype_idx == 6 {
                0
            } else {
                app.rtype_idx + 1
            },
            ..app
        }),
        app.cycle_record_type(false) == (AppView {
            rtype_idx: if app.rtype_idx == 0 {
                6
            } else {
                app.rtype_idx - 1
            },
            ..app
        }),
{
    let i = app.rtype_idx;
    assert(RECORD_TYPES@.len() == 7);
    if i == 6 {
        assert((i + 1) % 7 == 0);
    } else {
        assert((i + 1) % 7 == i + 1);
    }
    if i == 0 {
        assert((i + 7 - 1) % 7 == 6);
    } else {
        assert((i + 7 - 1) % 7 == i - 1);
    }
}

/// The table is sorted by resolver, location, time, status and answer in turn.
pub proof fn law_sort_orders_follow_each_other()
    ensures
        SortKey::Resolver.spec_next() == SortKey::Location,
        SortKey::Location.spec_next() == SortKey::Time,
        SortKey::Time.spec_next() == SortKey::Status,
        SortKey::Status.spec_next() == SortKey::Answer,
        SortKey::Answer.spec_next() == SortKey::Resolver,
{
}

/// The contents of the state and of a request are their fields, each under its
/// own name.
pub proof fn law_state_shows_its_fields(app: App, request: Request)
    ensures
        app@.domain == app.domain@,
        app@.cursor == app.cursor,
        app@.rtype_idx == app.rtype_idx,
        app@.rows == app.rows@,
        app@.generation == app.generation,
        match app.queried {
            Some(queried) => app@.queried == Some((queried.domain@, queried.code)),
            None => app@.queried is None,
        },
        app@.auto_refresh == app.auto_refresh,
        app@.next_poll == app.next_poll,
        app@.sort == app.sort,
        app@.scroll == app.scroll,
        app@.spinner_frame == app.spinner_frame,
        app@.should_quit == app.should_quit,
        request@.domain == request.domain@,
        request@.code == request.code,
        request@.generation == request.generation,
        opt_request(Some(request)) == Some(request@),
        opt_request(None) is None,
{
}

} // verus!
