//! The watch: what keys, replies and the passing of time do to the state, and
//! which rounds they start.

use vstd::prelude::*;

use crate::consensus::{
    answered, has_records, in_majority, law_only_answers_are_in_the_majority,
    law_unanimous_means_all_agree, responded, summary_of,
};
use crate::model::{QueryOutcome, QueryResult, RowState, SummaryView};
use crate::record::RECORD_TYPES;
use crate::state::{
    law_cursor_moves_by_one, law_editing_happens_at_the_cursor, law_record_types_follow_each_other,
    law_rows_hold_their_last_replies, lemma_replies_change_rows_only, lemma_replies_start_no_wait,
    next_generation, opt_request, App, AppView, Request, RequestView, SortKey,
};
use crate::text::{ascii_lower, to_ascii_lower};

verus! {

/// Milliseconds between rounds. Propagation usually moves on TTL boundaries,
/// so that polling twice a minute is plenty.
pub const POLL_INTERVAL_MS: u64 = 30_000;

/// A key.
#[derive(Debug, Clone, Copy, PartialEq, Eq, Structural)]
pub enum Key {
    Esc,
    Enter,
    Tab,
    BackTab,
    Left,
    Right,
    Home,
    End,
    Up,
    Down,
    PageUp,
    PageDown,
    Backspace,
    Delete,
    Char(char),
    Other,
}

/// What the program around the library reports.
#[derive(Debug)]
pub enum Event {
    /// A key, with whether the control key is held, and whether this is a
    /// press (not a release or a repeat).
    Key { key: Key, control: bool, pressed: bool },
    /// Anything else from the terminal, such as a new size.
    Redraw,
    /// The terminal closed.
    Closed,
    /// Replies that have arrived, one or more.
    Outcomes(Vec<QueryOutcome>),
    /// The clock ticked.
    Tick,
}

/// What the program is to do next.
#[derive(Debug)]
pub struct Step {
    /// A round to start.
    pub request: Option<Request>,
    /// Whether to end.
    pub quit: bool,
}

/// A character that the input field takes: an ASCII letter or digit, a dot, a
/// dash or an underscore.
pub open spec fn is_domain_char(c: char) -> bool {
    ||| 'a' <= c && c <= 'z'
    ||| 'A' <= c && c <= 'Z'
    ||| '0' <= c && c <= '9'
    ||| c == '.'
    ||| c == '-'
    ||| c == '_'
}

impl AppView {
    /// Starts a round from the input field and turns the watch on.
    pub open spec fn spawn_queries(self) -> (AppView, Option<RequestView>) {
        match self.begin_query() {
            None => (self, None),
            Some(next) => (
                AppView { auto_refresh: true, next_poll: None, ..next },
                Some(next.request()),
            ),
        }
    }

    /// Repeats the round that was last queried.
    pub open spec fn poll_query(self) -> (AppView, Option<RequestView>) {
        match self.begin_requery() {
            None => (self, None),
            Some(next) => (AppView { next_poll: None, ..next }, Some(next.request())),
        }
    }

    /// Stops the watch, or resumes it when something was queried.
    pub open spec fn toggle_watch(self) -> (AppView, Option<RequestView>) {
        if self.auto_refresh || self.next_poll is Some {
            (AppView { auto_refresh: false, next_poll: None, ..self }, None)
        } else if self.queried is Some {
            let on = AppView { auto_refresh: true, ..self };
            if on.in_flight() {
                (on, None)
            } else {
                on.poll_query()
            }
        } else {
            (self, None)
        }
    }

    /// What a key does.
    pub open spec fn on_key(self, key: Key, control: bool) -> (AppView, Option<RequestView>) {
        match key {
            Key::Esc => (AppView { should_quit: true, ..self }, None),
            Key::Enter => self.spawn_queries(),
            Key::Tab => (self.cycle_record_type(true), None),
            Key::BackTab => (self.cycle_record_type(false), None),
            Key::Left => (self.move_cursor_left(), None),
            Key::Right => (self.move_cursor_right(), None),
            Key::Home => (AppView { cursor: 0, ..self }, None),
            Key::End => (AppView { cursor: self.domain.len() as int, ..self }, None),
            Key::Up => (AppView { scroll: back(self.scroll, 1), ..self }, None),
            Key::Down => (AppView { scroll: self.scroll + 1, ..self }, None),
            Key::PageUp => (AppView { scroll: back(self.scroll, 10), ..self }, None),
            Key::PageDown => (AppView { scroll: self.scroll + 10, ..self }, None),
            Key::Backspace => (self.backspace(), None),
            Key::Delete => (self.delete(), None),
            Key::Char(c) => if control {
                self.on_control(c)
            } else if is_domain_char(c) {
                (self.insert_char(ascii_lower(c)), None)
            } else {
                (self, None)
            },
            Key::Other => (self, None),
        }
    }

    /// What a letter does with the control key held.
    pub open spec fn on_control(self, c: char) -> (AppView, Option<RequestView>) {
        if c == 'c' {
            (AppView { should_quit: true, ..self }, None)
        } else if c == 'u' {
            (self.clear_domain(), None)
        } else if c == 's' {
            (AppView { sort: self.sort.spec_next(), ..self }, None)
        } else if c == 'r' {
            self.toggle_watch()
        } else {
            (self, None)
        }
    }

    /// What the end of a round does: the watch stops once every responding
    /// resolver agrees (those that refused or could not be reached carry no
    /// signal); otherwise, while it is on, the next round is scheduled.
    pub open spec fn settle(self, now: u64) -> AppView {
        if self.in_flight() {
            self
        } else if unanimous(summary_of(self.rows)) {
            AppView { auto_refresh: false, next_poll: None, ..self }
        } else if self.auto_refresh {
            AppView { next_poll: Some((now + POLL_INTERVAL_MS) as u64), ..self }
        } else {
            self
        }
    }

    /// What replies do.
    pub open spec fn on_outcomes(self, outcomes: Seq<QueryOutcome>, now: u64) -> AppView {
        self.apply_all(outcomes, outcomes.len() as int).settle(now)
    }

    /// What a tick does: the spinner turns while replies are awaited;
    /// otherwise a round that is due starts.
    pub open spec fn on_tick(self, now: u64) -> (AppView, Option<RequestView>) {
        if self.in_flight() {
            (AppView { spinner_frame: next_frame(self.spinner_frame), ..self }, None)
        } else if self.next_poll matches Some(at) && now >= at {
            self.poll_query()
        } else {
            (self, None)
        }
    }

    /// What an event does.
    pub open spec fn on_event(self, event: Event, now: u64) -> (AppView, Option<RequestView>) {
        match event {
            Event::Key { key, control, pressed } => if pressed {
                self.on_key(key, control)
            } else {
                (self, None)
            },
            Event::Redraw => (self, None),
            Event::Closed => (self, None),
            Event::Outcomes(outcomes) => (self.on_outcomes(outcomes@, now), None),
            Event::Tick => self.on_tick(now),
        }
    }
}

/// `n` less `by`, and no less than nothing.
pub open spec fn back(n: int, by: int) -> int {
    if n < by {
        0
    } else {
        n - by
    }
}

/// The table is scrolled to a row number that the machine can hold.
pub open spec fn scroll_fits(scroll: int, key: Key) -> bool {
    &&& key is Down ==> scroll + 1 <= usize::MAX
    &&& key is PageDown ==> scroll + 10 <= usize::MAX
}

/// The spinner's frame behind this one.
pub open spec fn next_frame(frame: usize) -> usize {
    if frame == usize::MAX {
        0
    } else {
        (frame + 1) as usize
    }
}

/// Some resolver responds, and all that do are in one group.
pub open spec fn unanimous(summary: SummaryView) -> bool {
    summary.responding > 0 && summary.agree == summary.responding
}

/// Whether the input field takes a character.
fn takes(c: char) -> (r: bool)
    ensures
        r == is_domain_char(c),
{
    ('a' <= c && c <= 'z') || ('A' <= c && c <= 'Z') || ('0' <= c && c <= '9') || c == '.' || c
        == '-' || c == '_'
}

/// Starts a round from the input field and turns the watch on.
pub fn spawn_queries(app: &mut App) -> (r: Option<Request>)
    requires
        old(app)@.wf(),
    ensures
        (final(app)@, opt_request(r)) == old(app)@.spawn_queries(),
        final(app)@.wf(),
{
    let request = app.begin_query();
    if request.is_some() {
        app.auto_refresh = true;
        app.next_poll = None;
    }
    request
}

/// Repeats the round that was last queried.
pub fn poll_query(app: &mut App) -> (r: Option<Request>)
    ensures
        (final(app)@, opt_request(r)) == old(app)@.poll_query(),
        old(app)@.wf() ==> final(app)@.wf(),
{
    let request = app.begin_requery();
    if request.is_some() {
        app.next_poll = None;
    }
    request
}

/// Acts on a key. The screen keeps `scroll` within the table.
pub fn handle_key(app: &mut App, key: Key, control: bool) -> (r: Option<Request>)
    requires
        old(app)@.wf(),
        scroll_fits(old(app)@.scroll, key),
    ensures
        (final(app)@, opt_request(r)) == old(app)@.on_key(key, control),
        final(app)@.wf(),
{
    match key {
        Key::Esc => {
            app.should_quit = true;
            None
        },
        Key::Char(c) => {
            if control {
                if c == 'c' {
                    app.should_quit = true;
                } else if c == 'u' {
                    app.clear_domain();
                } else if c == 's' {
                    app.sort = app.sort.next();
                } else if c == 'r' {
                    if app.auto_refresh || app.next_poll.is_some() {
                        app.auto_refresh = false;
                        app.next_poll = None;
                    } else if app.queried.is_some() {
                        app.auto_refresh = true;
                        if !app.in_flight() {
                            return poll_query(app);
                        }
                    }
                }
            } else if takes(c) {
                app.insert_char(to_ascii_lower(c));
            }
            None
        },
        Key::Enter => spawn_queries(app),
        Key::Tab => {
            app.cycle_record_type(true);
            None
        },
        Key::BackTab => {
            app.cycle_record_type(false);
            None
        },
        Key::Left => {
            app.move_cursor_left();
            None
        },
        Key::Right => {
            app.move_cursor_right();
            None
        },
        Key::Home => {
            app.cursor = 0;
            None
        },
        Key::End => {
            app.cursor = app.domain.len();
            None
        },
        Key::Up => {
            app.scroll = app.scroll.saturating_sub(1);
            None
        },
        Key::Down => {
            app.scroll = app.scroll + 1;
            None
        },
        Key::PageUp => {
            app.scroll = app.scroll.saturating_sub(10);
            None
        },
        Key::PageDown => {
            app.scroll = app.scroll + 10;
            None
        },
        Key::Backspace => {
            app.backspace();
            None
        },
        Key::Delete => {
            app.delete();
            None
        },
        Key::Other => None,
    }
}

/// Acts on replies that have arrived.
pub fn handle_outcomes(app: &mut App, outcomes: Vec<QueryOutcome>, now: u64)
    requires
        now <= u64::MAX - POLL_INTERVAL_MS,
    ensures
        final(app)@ == old(app)@.on_outcomes(outcomes@, now),
        old(app)@.wf() ==> final(app)@.wf(),
{
    proof {
        lemma_replies_change_rows_only(app@, outcomes@, outcomes@.len() as int);
    }
    app.apply_all(outcomes);
    if !app.in_flight() {
        let summary = app.summary();
        assert(summary@ == summary_of(app@.rows));
        if summary.responding > 0 && summary.agree == summary.responding {
            app.auto_refresh = false;
            app.next_poll = None;
        } else if app.auto_refresh {
            app.next_poll = Some(now + POLL_INTERVAL_MS);
        }
    }
}

/// Acts on a tick of the clock.
pub fn handle_tick(app: &mut App, now: u64) -> (r: Option<Request>)
    ensures
        (final(app)@, opt_request(r)) == old(app)@.on_tick(now),
        old(app)@.wf() ==> final(app)@.wf(),
{
    if app.in_flight() {
        app.spinner_frame = app.spinner_frame.wrapping_add(1);
        return None;
    }
    let due = match app.next_poll {
        Some(at) => now >= at,
        None => false,
    };
    if due {
        poll_query(app)
    } else {
        None
    }
}

/// The state to begin with: a domain given at the start is queried at once.
pub fn start(domain: String, resolvers: usize) -> (r: (App, Option<Request>))
    ensures
        (r.0@, opt_request(r.1)) == AppView::fresh(domain@, resolvers as nat).spawn_queries(),
        r.0@.wf(),
{
    let auto_query = !domain.as_str().is_empty();
    let mut app = App::new(domain, resolvers);
    let request = if auto_query {
        spawn_queries(&mut app)
    } else {
        None
    };
    (app, request)
}

/// Acts on an event: the next state, the round to start and whether to end.
pub fn step(app: &mut App, event: Event, now: u64) -> (r: Step)
    requires
        old(app)@.wf(),
        event matches Event::Key { key, .. } ==> scroll_fits(old(app)@.scroll, key),
        event is Outcomes ==> now <= u64::MAX - POLL_INTERVAL_MS,
    ensures
        (final(app)@, opt_request(r.request)) == old(app)@.on_event(event, now),
        r.quit == (final(app)@.should_quit || event is Closed),
        final(app)@.wf(),
{
    let mut closed = false;
    let request = match event {
        Event::Key { key, control, pressed } => if pressed {
            handle_key(app, key, control)
        } else {
            None
        },
        Event::Redraw => None,
        Event::Closed => {
            closed = true;
            None
        },
        Event::Outcomes(outcomes) => {
            handle_outcomes(app, outcomes, now);
            None
        },
        Event::Tick => handle_tick(app, now),
    };
    Step { request, quit: closed || app.should_quit }
}

impl AppView {
    /// The watch is coherent: it is on only for something that was queried,
    /// and a round is scheduled only while it is on and no reply is awaited.
    pub open spec fn coherent(self) -> bool {
        &&& self.auto_refresh ==> self.queried is Some
        &&& self.next_poll is Some ==> self.auto_refresh && !self.in_flight()
    }
}

/// The watch is coherent from the start and stays so, whatever happens.
pub proof fn law_watch_stays_coherent(app: AppView, event: Event, now: u64)
    requires
        app.coherent(),
    ensures
        app.on_event(event, now).0.coherent(),
{
    match event {
        Event::Outcomes(outcomes) => {
            let n = outcomes@.len() as int;
            let applied = app.apply_all(outcomes@, n);
            lemma_replies_change_rows_only(app, outcomes@, n);
            if app.next_poll is Some {
                assert forall|i: int| 0 <= i < applied.rows.len() implies !(
                #[trigger] applied.rows[i] is Pending) by {
                    assert(!(app.rows[i] is Pending));
                    lemma_replies_start_no_wait(app, outcomes@, n, i);
                }
            }
            let end = applied.settle(now);
            assert(end.in_flight() == applied.in_flight()) by {
                assert(end.rows == applied.rows);
            }
        },
        Event::Key { key, control, pressed } => {
            let next = app.on_key(key, control).0;
            if next.rows == app.rows {
                assert(next.in_flight() == app.in_flight());
            }
        },
        Event::Tick => {
            let next = app.on_tick(now).0;
            if next.rows == app.rows {
                assert(next.in_flight() == app.in_flight());
            }
        },
        _ => {},
    }
}

/// The watch is coherent at the start.
pub proof fn law_watch_starts_coherent(domain: Seq<char>, resolvers: nat)
    ensures
        AppView::fresh(domain, resolvers).coherent(),
        AppView::fresh(domain, resolvers).spawn_queries().0.coherent(),
{
}

/// Once a round is complete and every responding resolver agrees, the watch is
/// off, and time alone starts no further round.
pub proof fn law_watch_ends_at_agreement(
    app: AppView,
    outcomes: Seq<QueryOutcome>,
    now: u64,
    later: u64,
)
    requires
        !app.apply_all(outcomes, outcomes.len() as int).in_flight(),
        unanimous(summary_of(app.apply_all(outcomes, outcomes.len() as int).rows)),
    ensures
        !app.on_outcomes(outcomes, now).auto_refresh,
        app.on_outcomes(outcomes, now).next_poll is None,
        app.on_outcomes(outcomes, now).on_tick(later) == (
            app.on_outcomes(outcomes, now),
            None::<RequestView>,
        ),
{
    let applied = app.apply_all(outcomes, outcomes.len() as int);
    let end = app.on_outcomes(outcomes, now);
    assert(end.rows == applied.rows);
    assert(end.in_flight() == applied.in_flight());
}

/// While the watch is on and a complete round finds no agreement, the same
/// question goes out again, as a new round, thirty seconds later and not
/// before.
pub proof fn law_watch_repeats_the_question(
    app: AppView,
    outcomes: Seq<QueryOutcome>,
    now: u64,
    later: u64,
    domain: Seq<char>,
    code: u16,
)
    requires
        now <= u64::MAX - POLL_INTERVAL_MS,
        app.auto_refresh,
        app.queried == Some((domain, code)),
        !app.apply_all(outcomes, outcomes.len() as int).in_flight(),
        !unanimous(summary_of(app.apply_all(outcomes, outcomes.len() as int).rows)),
    ensures
        later < now + 30_000 ==> app.on_outcomes(outcomes, now).on_tick(later) == (
            app.on_outcomes(outcomes, now),
            None::<RequestView>,
        ),
        later >= now + 30_000 ==> app.on_outcomes(outcomes, now).on_tick(later).1 == Some(
            RequestView { domain, code, generation: next_generation(app.generation) },
        ),
        later >= now + 30_000 ==> app.on_outcomes(outcomes, now).on_tick(later).0.auto_refresh,
{
    let applied = app.apply_all(outcomes, outcomes.len() as int);
    lemma_replies_change_rows_only(app, outcomes, outcomes.len() as int);
    let end = app.on_outcomes(outcomes, now);
    assert(end.rows == applied.rows);
    assert(end.in_flight() == applied.in_flight());
}

/// The key that stops the watch stops it without a question; pressed again it
/// resumes the watch, and asks at once unless replies are still awaited.
pub proof fn law_watch_stops_and_resumes(app: AppView)
    requires
        app.auto_refresh,
        app.queried is Some,
    ensures
        !app.on_key(Key::Char('r'), true).0.auto_refresh,
        app.on_key(Key::Char('r'), true).0.next_poll is None,
        app.on_key(Key::Char('r'), true).1 is None,
        app.on_key(Key::Char('r'), true).0.on_key(Key::Char('r'), true).0.auto_refresh,
        app.on_key(Key::Char('r'), true).0.on_key(Key::Char('r'), true).1 is Some
            <==> !app.in_flight(),
{
    let off = app.on_key(Key::Char('r'), true).0;
    assert(off.rows == app.rows);
    assert(off.in_flight() == app.in_flight());
    let on = AppView { auto_refresh: true, ..off };
    assert(on.in_flight() == app.in_flight());
}

/// Enter starts a check of what stands in the input field and turns the watch
/// on; with an empty field it does nothing.
pub proof fn law_enter_checks_the_field(app: AppView, control: bool)
    ensures
        app.domain.len() == 0 ==> app.on_key(Key::Enter, control) == (app, None::<RequestView>),
        app.domain.len() > 0 ==> app.on_key(Key::Enter, control).1 == Some(
            RequestView {
                domain: app.domain,
                code: RECORD_TYPES@[app.rtype_idx],
                generation: next_generation(app.generation),
            },
        ) && app.on_key(Key::Enter, control).0.auto_refresh,
{
}

/// A character as the input field holds it: a lower case ASCII letter, a digit,
/// a dot, a dash or an underscore.
pub open spec fn is_field_char(c: char) -> bool {
    is_domain_char(c) && ascii_lower(c) == c
}

/// The input field holds such characters only.
pub open spec fn field_clean(app: AppView) -> bool {
    forall|i: int| 0 <= i < app.domain.len() ==> is_field_char(#[trigger] app.domain[i])
}

/// Typing never brings another character into the input field.
pub proof fn law_field_stays_clean(app: AppView, event: Event, now: u64)
    requires
        app.wf(),
        field_clean(app),
    ensures
        field_clean(app.on_event(event, now).0),
{
    match event {
        Event::Key { key: Key::Char(c), control, pressed } => {
            if pressed && !control && is_domain_char(c) {
                lemma_lower_is_field_char(c);
            }
        },
        Event::Outcomes(outcomes) => {
            lemma_replies_change_rows_only(app, outcomes@, outcomes@.len() as int);
        },
        _ => {},
    }
}

proof fn lemma_lower_is_field_char(c: char)
    requires
        is_domain_char(c),
    ensures
        is_field_char(ascii_lower(c)),
{
}

/// Escape and control with `c` end the program, and nothing else does.
pub proof fn law_quit_keys_quit(app: AppView, event: Event, now: u64)
    ensures
        app.on_event(event, now).0.should_quit <==> app.should_quit || match event {
            Event::Key { key, control, pressed } => pressed && (key is Esc || (control && key
                == Key::Char('c'))),
            _ => false,
        },
{
    if let Event::Outcomes(outcomes) = event {
        lemma_replies_change_rows_only(app, outcomes@, outcomes@.len() as int);
    }
}

/// No event adds a row or removes one.
pub proof fn law_table_keeps_its_rows(app: AppView, event: Event, now: u64)
    ensures
        app.on_event(event, now).0.rows.len() == app.rows.len(),
{
    if let Event::Outcomes(outcomes) = event {
        lemma_replies_change_rows_only(app, outcomes@, outcomes@.len() as int);
    }
}

/// An event starts a round exactly when Enter is pressed on a field that is not
/// empty, when the watch is resumed while no reply is awaited, or when a tick
/// finds a scheduled round due while no reply is awaited. Every row then waits,
/// whatever it held, and the question carries the number of the new round.
pub proof fn law_rounds_start_and_ask_everyone(app: AppView, event: Event, now: u64)
    ensures
        ({
            let (next, request) = app.on_event(event, now);
            let waiting = exists|i: int| 0 <= i < app.rows.len() && #[trigger] app.rows[i] is Pending;
            let entered = event matches Event::Key { key, pressed, .. } && pressed && key is Enter
                && app.domain.len() > 0;
            let resumed = event matches Event::Key { key, control, pressed } && pressed && control
                && key == Key::Char('r') && !app.auto_refresh && app.next_poll is None
                && app.queried is Some && !waiting;
            let due = event is Tick && (app.next_poll matches Some(at) && now >= at) && app.queried
                is Some && !waiting;
            &&& request is Some <==> entered || resumed || due
            &&& request matches Some(asked) ==> {
                &&& next.rows.len() == app.rows.len()
                &&& forall|i: int| 0 <= i < next.rows.len() ==> #[trigger] next.rows[i] is Pending
                &&& app.generation < u64::MAX ==> next.generation == app.generation + 1
                &&& app.generation == u64::MAX ==> next.generation == 0
                &&& asked.generation == next.generation
                &&& next.queried == Some((asked.domain, asked.code))
                &&& entered ==> asked.domain == app.domain && asked.code
                    == RECORD_TYPES@[app.rtype_idx]
                &&& !entered ==> next.queried == app.queried
                &&& next.next_poll is None
                &&& next.auto_refresh == (entered || resumed || app.auto_refresh)
                &&& next == (AppView {
                    rows: next.rows,
                    generation: next.generation,
                    queried: next.queried,
                    next_poll: next.next_poll,
                    auto_refresh: next.auto_refresh,
                    ..app
                })
            }
            &&& request is None ==> next.generation == app.generation && next.queried == app.queried
            &&& request is None && !(event is Outcomes) ==> next.rows == app.rows
        }),
{
    if let Event::Outcomes(outcomes) = event {
        lemma_replies_change_rows_only(app, outcomes@, outcomes@.len() as int);
    }
    let on = AppView { auto_refresh: true, ..app };
    assert(on.rows == app.rows);
    assert(on.in_flight() == app.in_flight());
}

/// A round that has started is in flight until each resolver has replied to it:
/// a reply to another round does not count. What a row then holds is a reply to
/// this round.
pub proof fn law_round_waits_for_every_resolver(
    app: AppView,
    event: Event,
    now: u64,
    outcomes: Seq<QueryOutcome>,
    i: int,
)
    requires
        app.on_event(event, now).1 is Some,
        0 <= i < app.rows.len(),
    ensures
        ({
            let (next, request) = app.on_event(event, now);
            let end = next.apply_all(outcomes, outcomes.len() as int);
            &&& (forall|k: int|
                0 <= k < outcomes.len() ==> !((#[trigger] outcomes[k]).resolver_index == i
                    && outcomes[k].generation == request->0.generation)) ==> end.rows[i] is Pending
                && end.in_flight()
            &&& !(end.rows[i] is Pending) ==> exists|k: int|
                0 <= k < outcomes.len() && (#[trigger] outcomes[k]).resolver_index == i
                    && outcomes[k].generation == request->0.generation && end.rows[i] == (
                RowState::Done { result: outcomes[k].result, elapsed_ms: outcomes[k].elapsed_ms })
        }),
{
    law_rounds_start_and_ask_everyone(app, event, now);
    let next = app.on_event(event, now).0;
    assert(next.rows[i] is Pending);
    law_rows_hold_their_last_replies(next, outcomes, i);
}

/// While one resolver still owes its reply, replies of others neither end the
/// watch nor schedule a round.
pub proof fn law_watch_waits_for_every_resolver(
    app: AppView,
    outcomes: Seq<QueryOutcome>,
    now: u64,
    i: int,
)
    requires
        0 <= i < app.rows.len(),
        app.rows[i] is Pending,
        forall|k: int|
            0 <= k < outcomes.len() ==> !((#[trigger] outcomes[k]).resolver_index == i
                && outcomes[k].generation == app.generation),
    ensures
        ({
            let next = app.on_outcomes(outcomes, now);
            &&& next.rows[i] is Pending
            &&& next.auto_refresh == app.auto_refresh
            &&& next.next_poll == app.next_poll
        }),
{
    law_rows_hold_their_last_replies(app, outcomes, i);
    let end = app.apply_all(outcomes, outcomes.len() as int);
    assert(end.rows[i] is Pending);
    assert(end.in_flight());
}

/// When replies leave no row waiting, the watch ends if some resolver returned
/// records and every one that responds is in the majority. Otherwise, while it
/// is on, the next round is scheduled thirty seconds on. As long as a row
/// waits, neither happens; and nothing else changes but the rows.
pub proof fn law_round_end_decides(app: AppView, outcomes: Seq<QueryOutcome>, now: u64)
    requires
        now <= u64::MAX - 30_000,
    ensures
        ({
            let next = app.on_outcomes(outcomes, now);
            let waiting = exists|i: int| 0 <= i < next.rows.len() && #[trigger] next.rows[i] is Pending;
            let agreed = (exists|i: int|
                0 <= i < next.rows.len() && (#[trigger] next.rows[i] matches RowState::Done {
                    result: QueryResult::Records { .. },
                    ..
                })) && (forall|i: int|
                0 <= i < next.rows.len() ==> match #[trigger] next.rows[i] {
                    RowState::Done { result: QueryResult::Records { .. }, .. } => summary_of(
                        next.rows,
                    ).majority_rows[i],
                    RowState::Done { result: QueryResult::NoRecords(_), .. } => false,
                    _ => true,
                });
            &&& next.rows == app.apply_all(outcomes, outcomes.len() as int).rows
            &&& waiting ==> next.auto_refresh == app.auto_refresh && next.next_poll == app.next_poll
            &&& !waiting && agreed ==> !next.auto_refresh && next.next_poll is None
            &&& !waiting && !agreed && app.auto_refresh ==> next.auto_refresh && (
            next.next_poll matches Some(at) && at == now + 30_000)
            &&& !waiting && !agreed && !app.auto_refresh ==> !next.auto_refresh && next.next_poll
                == app.next_poll
            &&& next == (AppView {
                rows: next.rows,
                auto_refresh: next.auto_refresh,
                next_poll: next.next_poll,
                ..app
            })
        }),
{
    let n = outcomes.len() as int;
    let end = app.apply_all(outcomes, n);
    let next = app.on_outcomes(outcomes, now);
    lemma_replies_change_rows_only(app, outcomes, n);
    law_unanimous_means_all_agree(end.rows);
    assert(next.rows == end.rows);
    assert forall|i: int| 0 <= i < end.rows.len() implies (summary_of(end.rows).majority_rows[i]
        ==> has_records(#[trigger] end.rows[i])) by {
        law_only_answers_are_in_the_majority(end.rows, i);
    }
    if unanimous(summary_of(end.rows)) {
        let i = choose|i: int| #[trigger] answered(end.rows, i);
        assert(has_records(end.rows[i]));
        assert forall|i: int| 0 <= i < end.rows.len() implies match #[trigger] end.rows[i] {
            RowState::Done { result: QueryResult::Records { .. }, .. } => summary_of(
                end.rows,
            ).majority_rows[i],
            RowState::Done { result: QueryResult::NoRecords(_), .. } => false,
            _ => true,
        } by {
            assert(responded(end.rows[i]) ==> in_majority(end.rows, i));
            assert(summary_of(end.rows).majority_rows[i] == in_majority(end.rows, i));
        }
    } else {
        assert forall|i: int|
            0 <= i < end.rows.len() && has_records(#[trigger] end.rows[i]) implies answered(
            end.rows,
            i,
        ) by {}
        assert forall|i: int| 0 <= i < end.rows.len() implies #[trigger] summary_of(
            end.rows,
        ).majority_rows[i] == in_majority(end.rows, i) by {}
    }
}

/// A tick turns the spinner while replies are awaited, and otherwise does
/// nothing until a scheduled round is due.
pub proof fn law_tick_turns_the_spinner(app: AppView, now: u64)
    ensures
        (exists|i: int| 0 <= i < app.rows.len() && #[trigger] app.rows[i] is Pending) ==> {
            let (next, request) = app.on_event(Event::Tick, now);
            &&& request is None
            &&& app.spinner_frame < usize::MAX ==> next.spinner_frame == app.spinner_frame + 1
            &&& app.spinner_frame == usize::MAX ==> next.spinner_frame == 0
            &&& next == (AppView { spinner_frame: next.spinner_frame, ..app })
        },
        (forall|i: int| 0 <= i < app.rows.len() ==> !(#[trigger] app.rows[i] is Pending)) && !(
        app.next_poll matches Some(at) && now >= at) ==> app.on_event(Event::Tick, now) == (
            app,
            None::<RequestView>,
        ),
{
}

/// A program that is started with a domain queries it at once, for type `A`,
/// and watches; without one it waits.
pub proof fn law_given_domain_is_queried_at_once(domain: Seq<char>, resolvers: nat)
    ensures
        domain.len() == 0 ==> AppView::fresh(domain, resolvers).spawn_queries() == (
            AppView::fresh(domain, resolvers),
            None::<RequestView>,
        ),
        domain.len() > 0 ==> {
            let (app, request) = AppView::fresh(domain, resolvers).spawn_queries();
            &&& request == Some(RequestView { domain, code: 1, generation: 1 })
            &&& app.rows.len() == resolvers
            &&& forall|i: int| 0 <= i < resolvers ==> #[trigger] app.rows[i] is Pending
            &&& app.generation == 1
            &&& app.queried == Some((domain, 1u16))
            &&& app.auto_refresh
            &&& app.next_poll is None
            &&& app.domain == domain
            &&& app.cursor == domain.len()
            &&& app.rtype_idx == 0
            &&& !app.should_quit
        },
{
    assert(RECORD_TYPES@[0] == 1);
}

/// The input field takes ASCII letters, in lower case, digits, dots, dashes and
/// underscores, and no other character; with the control key held it takes
/// none.
pub proof fn law_field_takes_domain_characters(app: AppView, c: char, now: u64)
    requires
        app.wf(),
    ensures
        ({
            let typed = app.on_event(
                Event::Key { key: Key::Char(c), control: false, pressed: true },
                now,
            );
            let held = app.on_event(
                Event::Key { key: Key::Char(c), control: true, pressed: true },
                now,
            ).0;
            let small = "abcdefghijklmnopqrstuvwxyz0123456789.-_"@;
            let capitals = "ABCDEFGHIJKLMNOPQRSTUVWXYZ"@;
            &&& typed.1 is None
            &&& small.contains(c) ==> typed.0 == (AppView {
                domain: app.domain.take(app.cursor) + seq![c] + app.domain.skip(app.cursor),
                cursor: app.cursor + 1,
                ..app
            })
            &&& forall|i: int|
                0 <= i < 26 && c == #[trigger] capitals[i] ==> typed.0 == (AppView {
                    domain: app.domain.take(app.cursor) + seq![small[i]] + app.domain.skip(
                        app.cursor,
                    ),
                    cursor: app.cursor + 1,
                    ..app
                })
            &&& !small.contains(c) && !capitals.contains(c) ==> typed.0 == app
            &&& held.domain == app.domain || (c == 'u' && held.domain.len() == 0)
        }),
{
    reveal_strlit("abcdefghijklmnopqrstuvwxyz0123456789.-_");
    reveal_strlit("ABCDEFGHIJKLMNOPQRSTUVWXYZ");
    let small = "abcdefghijklmnopqrstuvwxyz0123456789.-_"@;
    let capitals = "ABCDEFGHIJKLMNOPQRSTUVWXYZ"@;
    law_editing_happens_at_the_cursor(app, ascii_lower(c));
    if 'a' <= c && c <= 'z' {
        assert(small[c as int - 'a' as int] == c);
    } else if 'A' <= c && c <= 'Z' {
        assert(capitals[c as int - 'A' as int] == c);
        assert(small[c as int - 'A' as int] == ascii_lower(c));
    } else if '0' <= c && c <= '9' {
        assert(small[26 + (c as int - '0' as int)] == c);
    } else if c == '.' {
        assert(small[36] == c);
    } else if c == '-' {
        assert(small[37] == c);
    } else if c == '_' {
        assert(small[38] == c);
    }
}

/// What the other keys do, each to its own part of the state. Of the letters
/// with the control key held, `c` ends the program, `u` empties the field, `s`
/// sorts the table otherwise and `r` stops or resumes the watch; the others do
/// nothing.
pub proof fn law_keys_act(app: AppView, control: bool, c: char)
    requires
        app.wf(),
    ensures
        app.on_key(Key::Esc, control) == (AppView { should_quit: true, ..app }, None::<RequestView>),
        app.on_key(Key::Left, control).0.cursor == (if app.cursor == 0 {
            0
        } else {
            app.cursor - 1
        }),
        app.on_key(Key::Left, control) == (
            AppView { cursor: app.on_key(Key::Left, control).0.cursor, ..app },
            None::<RequestView>,
        ),
        app.on_key(Key::Right, control).0.cursor == (if app.cursor == app.domain.len() {
            app.cursor
        } else {
            app.cursor + 1
        }),
        app.on_key(Key::Right, control) == (
            AppView { cursor: app.on_key(Key::Right, control).0.cursor, ..app },
            None::<RequestView>,
        ),
        app.on_key(Key::Home, control) == (AppView { cursor: 0, ..app }, None::<RequestView>),
        app.on_key(Key::End, control) == (
            AppView { cursor: app.domain.len() as int, ..app },
            None::<RequestView>,
        ),
        app.on_key(Key::Up, control) == (
            AppView {
                scroll: if app.scroll < 1 {
                    0
                } else {
                    app.scroll - 1
                },
                ..app
            },
            None::<RequestView>,
        ),
        app.on_key(Key::Down, control) == (
            AppView { scroll: app.scroll + 1, ..app },
            None::<RequestView>,
        ),
        app.on_key(Key::PageUp, control) == (
            AppView {
                scroll: if app.scroll < 10 {
                    0
                } else {
                    app.scroll - 10
                },
                ..app
            },
            None::<RequestView>,
        ),
        app.on_key(Key::PageDown, control) == (
            AppView { scroll: app.scroll + 10, ..app },
            None::<RequestView>,
        ),
        app.on_key(Key::Tab, control) == (
            AppView {
                rtype_idx: if app.rtype_idx == 6 {
                    0
                } else {
                    app.rtype_idx + 1
                },
                ..app
            },
            None::<RequestView>,
        ),
        app.on_key(Key::BackTab, control) == (
            AppView {
                rtype_idx: if app.rtype_idx == 0 {
                    6
                } else {
                    app.rtype_idx - 1
                },
                ..app
            },
            None::<RequestView>,
        ),
        app.on_key(Key::Backspace, control) == (
            if app.cursor == 0 {
                app
            } else {
                AppView {
                    domain: app.domain.take(app.cursor - 1) + app.domain.skip(app.cursor),
                    cursor: app.cursor - 1,
                    ..app
                }
            },
            None::<RequestView>,
        ),
        app.on_key(Key::Delete, control) == (
            if app.cursor == app.domain.len() {
                app
            } else {
                AppView {
                    domain: app.domain.take(app.cursor) + app.domain.skip(app.cursor + 1),
                    ..app
                }
            },
            None::<RequestView>,
        ),
        app.on_key(Key::Other, control) == (app, None::<RequestView>),
        app.on_key(Key::Char('c'), true) == (
            AppView { should_quit: true, ..app },
            None::<RequestView>,
        ),
        app.on_key(Key::Char('u'), true) == (
            AppView { domain: seq![], cursor: 0, ..app },
            None::<RequestView>,
        ),
        app.on_key(Key::Char('s'), true) == (
            AppView {
                sort: match app.sort {
                    SortKey::Resolver => SortKey::Location,
                    SortKey::Location => SortKey::Time,
                    SortKey::Time => SortKey::Status,
                    SortKey::Status => SortKey::Answer,
                    SortKey::Answer => SortKey::Resolver,
                },
                ..app
            },
            None::<RequestView>,
        ),
        c != 'c' && c != 'u' && c != 's' && c != 'r' ==> app.on_key(Key::Char(c), true) == (
            app,
            None::<RequestView>,
        ),
{
    law_editing_happens_at_the_cursor(app, c);
    law_cursor_moves_by_one(app);
    law_record_types_follow_each_other(app);
}

/// Control with `r` stops a watch that is on or scheduled. One that is off it
/// turns on when something was queried, and without replies to wait for it
/// repeats the question at once; when nothing was queried it does nothing.
pub proof fn law_watch_is_stopped_or_resumed(app: AppView)
    ensures
        ({
            let (next, request) = app.on_key(Key::Char('r'), true);
            let waiting = exists|i: int| 0 <= i < app.rows.len() && #[trigger] app.rows[i] is Pending;
            let on = app.auto_refresh || app.next_poll is Some;
            &&& on ==> next == (AppView { auto_refresh: false, next_poll: None, ..app }) && request
                is None
            &&& !on && app.queried is None ==> next == app && request is None
            &&& !on && app.queried is Some && waiting ==> next == (AppView {
                auto_refresh: true,
                ..app
            }) && request is None
            &&& !on && app.queried is Some && !waiting ==> {
                &&& next.auto_refresh
                &&& request matches Some(asked) && app.queried == Some((asked.domain, asked.code))
                    && asked.generation == next.generation && asked.generation != app.generation
                &&& forall|i: int| 0 <= i < next.rows.len() ==> #[trigger] next.rows[i] is Pending
                &&& next.rows.len() == app.rows.len()
            }
        }),
{
    let on = AppView { auto_refresh: true, ..app };
    assert(on.rows == app.rows);
    assert(on.in_flight() == app.in_flight());
}

/// Keys act when they are pressed, and not when they are released or held;
/// other events from the terminal change nothing.
pub proof fn law_events_reach_their_handlers(
    app: AppView,
    key: Key,
    control: bool,
    outcomes: Vec<QueryOutcome>,
    now: u64,
)
    ensures
        app.on_event(Event::Key { key, control, pressed: true }, now) == app.on_key(key, control),
        app.on_event(Event::Key { key, control, pressed: false }, now) == (
            app,
            None::<RequestView>,
        ),
        app.on_event(Event::Redraw, now) == (app, None::<RequestView>),
        app.on_event(Event::Closed, now) == (app, None::<RequestView>),
        app.on_event(Event::Outcomes(outcomes), now) == (
            app.on_outcomes(outcomes@, now),
            None::<RequestView>,
        ),
        POLL_INTERVAL_MS == 30_000,
{
}

} // verus!
