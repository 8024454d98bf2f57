use dnsglobe::model::{QueryOutcome, QueryResult, RowState};
use dnsglobe::state::{App, SortKey};
use dnsglobe::table::Mark;
use dnsglobe::watch::{handle_key, start, step, Event, Key, POLL_INTERVAL_MS};

fn reply(app: &App, resolver_index: usize, values: &[&str]) -> QueryOutcome {
    QueryOutcome {
        resolver_index,
        generation: app.generation,
        result: QueryResult::Records {
            values: values.iter().map(|v| v.to_string()).collect(),
            min_ttl: 60,
        },
        elapsed_ms: 7,
    }
}

fn text(app: &App) -> String {
    app.domain.iter().collect()
}

fn press(app: &mut App, keys: &[Key]) {
    for key in keys {
        handle_key(app, *key, false);
    }
}

#[test]
fn a_domain_given_at_the_start_is_queried() {
    let (app, request) = start("example.com".to_string(), 2);
    let request = request.unwrap();
    assert_eq!((request.domain.as_str(), request.code, request.generation), ("example.com", 1, 1));
    assert!(app.in_flight() && app.auto_refresh && app.next_poll.is_none());
    assert_eq!(app.cursor, 11);
    let (app, request) = start(String::new(), 2);
    assert!(request.is_none() && !app.in_flight() && !app.auto_refresh);
    assert_eq!(app.rows, vec![RowState::Idle, RowState::Idle]);
}

#[test]
fn typing_edits_the_field() {
    let mut app = App::new(String::new(), 0);
    press(&mut app, &[Key::Char('A'), Key::Char('.'), Key::Char('-'), Key::Char('_'), Key::Char('9')]);
    assert_eq!(text(&app), "a.-_9");
    press(&mut app, &[Key::Char(' '), Key::Char('é'), Key::Char('/'), Key::Other]);
    assert_eq!(text(&app), "a.-_9");
    press(&mut app, &[Key::Left, Key::Left, Key::Char('z')]);
    assert_eq!((text(&app).as_str(), app.cursor), ("a.-z_9", 4));
    press(&mut app, &[Key::Backspace]);
    assert_eq!((text(&app).as_str(), app.cursor), ("a.-_9", 3));
    press(&mut app, &[Key::Delete]);
    assert_eq!((text(&app).as_str(), app.cursor), ("a.-9", 3));
    press(&mut app, &[Key::Home, Key::Backspace, Key::Left, Key::Delete]);
    assert_eq!((text(&app).as_str(), app.cursor), (".-9", 0));
    press(&mut app, &[Key::End, Key::Delete, Key::Right]);
    assert_eq!((text(&app).as_str(), app.cursor), (".-9", 3));
    handle_key(&mut app, Key::Char('u'), true);
    assert_eq!((text(&app).as_str(), app.cursor), ("", 0));
    handle_key(&mut app, Key::Char('x'), true);
    assert_eq!(text(&app), "");
}

#[test]
fn tab_cycles_record_types() {
    let mut app = App::new("d".to_string(), 1);
    let mut codes = Vec::new();
    for _ in 0..8 {
        codes.push(handle_key(&mut app, Key::Enter, false).unwrap().code);
        press(&mut app, &[Key::Tab]);
    }
    assert_eq!(codes, vec![1, 28, 5, 15, 2, 16, 6, 1]);
    press(&mut app, &[Key::BackTab, Key::BackTab]);
    assert_eq!(app.rtype_idx, 6);
}

#[test]
fn control_s_cycles_sort_orders() {
    let mut app = App::new(String::new(), 0);
    let mut seen = Vec::new();
    for _ in 0..6 {
        seen.push(app.sort);
        handle_key(&mut app, Key::Char('s'), true);
    }
    assert_eq!(
        seen,
        vec![
            SortKey::Resolver,
            SortKey::Location,
            SortKey::Time,
            SortKey::Status,
            SortKey::Answer,
            SortKey::Resolver
        ]
    );
}

#[test]
fn arrows_and_pages_scroll() {
    let mut app = App::new(String::new(), 0);
    press(&mut app, &[Key::Up, Key::PageUp]);
    assert_eq!(app.scroll, 0);
    press(&mut app, &[Key::PageDown, Key::Down, Key::Up]);
    assert_eq!(app.scroll, 10);
    press(&mut app, &[Key::Down, Key::PageUp]);
    assert_eq!(app.scroll, 1);
    press(&mut app, &[Key::PageDown]);
    app.clamp_scroll(4);
    assert_eq!(app.scroll, 4);
    app.clamp_scroll(9);
    assert_eq!(app.scroll, 4);
}

#[test]
fn escape_control_c_and_a_closed_terminal_end_the_program() {
    for (event, quits) in [
        (Event::Key { key: Key::Esc, control: false, pressed: true }, true),
        (Event::Key { key: Key::Esc, control: false, pressed: false }, false),
        (Event::Key { key: Key::Char('c'), control: true, pressed: true }, true),
        (Event::Key { key: Key::Char('c'), control: false, pressed: true }, false),
        (Event::Key { key: Key::Char('C'), control: true, pressed: true }, false),
        (Event::Closed, true),
        (Event::Redraw, false),
        (Event::Tick, false),
    ] {
        let mut app = App::new(String::new(), 0);
        assert_eq!(step(&mut app, event, 0).quit, quits);
    }
}

#[test]
fn the_watch_repeats_until_the_answers_agree() {
    let (mut app, _) = start("example.com".to_string(), 2);
    let first = vec![reply(&app, 0, &["a"])];
    step(&mut app, Event::Outcomes(first), 500);
    assert!(app.in_flight() && app.next_poll.is_none());
    step(&mut app, Event::Tick, 600);
    assert_eq!(app.spinner_frame, 1);
    let second = vec![reply(&app, 1, &["b"])];
    step(&mut app, Event::Outcomes(second), 1_000);
    assert_eq!(app.next_poll, Some(31_000));
    assert!(step(&mut app, Event::Tick, 30_999).request.is_none());
    let request = step(&mut app, Event::Tick, 31_000).request.unwrap();
    assert_eq!((request.domain.as_str(), request.code, request.generation), ("example.com", 1, 2));
    assert!(app.in_flight() && app.auto_refresh && app.next_poll.is_none());
    let both = vec![reply(&app, 1, &["a", "c"]), reply(&app, 0, &["a"])];
    step(&mut app, Event::Outcomes(both), 32_000);
    assert!(!app.auto_refresh && app.next_poll.is_none() && !app.in_flight());
    assert!(step(&mut app, Event::Tick, u64::MAX).request.is_none());
}

#[test]
fn refusals_do_not_hinder_agreement_but_missing_records_do() {
    for (result, agrees) in [
        (QueryResult::Error("refused".to_string()), true),
        (QueryResult::NoRecords("NXDOMAIN".to_string()), false),
    ] {
        let (mut app, _) = start("d".to_string(), 2);
        let mut other = reply(&app, 1, &[]);
        other.result = result;
        let outcomes = vec![reply(&app, 0, &["a"]), other];
        step(&mut app, Event::Outcomes(outcomes), 0);
        assert_eq!(app.auto_refresh, !agrees);
        assert_eq!(app.next_poll, if agrees { None } else { Some(POLL_INTERVAL_MS) });
    }
}

#[test]
fn outliers_are_marked_once_all_replies_are_in() {
    let (mut app, _) = start("d".to_string(), 4);
    for (i, values) in [(0, &["a"][..]), (1, &["a", "b"][..]), (2, &["z"][..])] {
        let good = reply(&app, i, values);
        app.apply(good);
    }
    assert_eq!(app.marks(), vec![Mark::Agrees, Mark::Agrees, Mark::Answered, Mark::InFlight]);
    let mut last = reply(&app, 3, &[]);
    last.result = QueryResult::NoRecords("NXDOMAIN".to_string());
    app.apply(last);
    assert_eq!(app.marks(), vec![Mark::Agrees, Mark::Agrees, Mark::Differs, Mark::NoRecords]);
    let mut last = reply(&app, 0, &[]);
    last.result = QueryResult::Error("refused".to_string());
    app.apply(last);
    assert_eq!(app.marks()[0], Mark::Failed);
    assert_eq!(App::new(String::new(), 1).marks(), vec![Mark::Idle]);
}

#[test]
fn stale_replies_are_dropped() {
    let (mut app, _) = start("d".to_string(), 1);
    let late = reply(&app, 0, &["old"]);
    handle_key(&mut app, Key::Enter, false);
    app.apply(late);
    assert_eq!(app.rows, vec![RowState::Pending]);
    let stray = reply(&app, 5, &["x"]);
    app.apply(stray);
    assert_eq!(app.rows, vec![RowState::Pending]);
    let good = reply(&app, 0, &["new"]);
    app.apply(good);
    assert!(!app.in_flight());
}

#[test]
fn each_reply_ends_up_in_its_row_in_any_order() {
    let mut app = App::new("d".to_string(), 3);
    app.begin_query();
    let mut stale = reply(&app, 1, &["old"]);
    stale.generation = 0;
    app.apply_all(vec![reply(&app, 2, &["c"]), reply(&app, 0, &["a"]), stale]);
    let value = |row: &RowState| match row {
        RowState::Done { result: QueryResult::Records { values, .. }, .. } => values.join(","),
        other => format!("{:?}", other),
    };
    let shown: Vec<String> = app.rows.iter().map(value).collect();
    assert_eq!(shown, vec!["a", "Pending", "c"]);
}

#[test]
fn control_r_stops_and_resumes_the_watch() {
    let mut app = App::new(String::new(), 1);
    assert!(handle_key(&mut app, Key::Char('r'), true).is_none());
    assert!(!app.auto_refresh);
    press(&mut app, &[Key::Char('d')]);
    handle_key(&mut app, Key::Enter, false);
    assert!(handle_key(&mut app, Key::Char('r'), true).is_none());
    assert!(!app.auto_refresh);
    assert!(handle_key(&mut app, Key::Char('r'), true).is_none());
    assert!(app.auto_refresh);
    handle_key(&mut app, Key::Char('r'), true);
    let good = reply(&app, 0, &["a"]);
    app.apply(good);
    press(&mut app, &[Key::Char('x')]);
    let request = handle_key(&mut app, Key::Char('r'), true).unwrap();
    assert_eq!((request.domain.as_str(), request.generation), ("d", 2));
    assert!(app.auto_refresh && app.in_flight());
}

#[test]
fn enter_on_an_empty_field_does_nothing() {
    let mut app = App::new(String::new(), 1);
    assert!(handle_key(&mut app, Key::Enter, false).is_none());
    assert!(!app.auto_refresh && !app.in_flight() && app.generation == 0);
}

#[test]
fn rounds_are_numbered_around() {
    let mut app = App::new("d".to_string(), 1);
    app.generation = u64::MAX;
    assert_eq!(app.begin_query().unwrap().generation, 0);
    app.spinner_frame = usize::MAX;
    step(&mut app, Event::Tick, 0);
    assert_eq!(app.spinner_frame, 0);
    assert!(App::new(String::new(), 1).begin_requery().is_none());
}

#[test]
fn backspace_does_what_left_and_delete_do() {
    let mut one = App::new("abc".to_string(), 0);
    let mut two = App::new("abc".to_string(), 0);
    press(&mut one, &[Key::Left, Key::Backspace]);
    press(&mut two, &[Key::Left, Key::Left, Key::Delete]);
    assert_eq!((text(&one), one.cursor), (text(&two), two.cursor));
    assert_eq!(text(&one), "ac");
}

#[test]
fn the_watch_stays_coherent_and_the_table_keeps_its_rows() {
    let (mut app, _) = start("d".to_string(), 2);
    for round in 0..3u64 {
        let outcomes = vec![reply(&app, 0, &["a"]), reply(&app, 1, &["b"]), reply(&app, 9, &["c"])];
        step(&mut app, Event::Outcomes(outcomes), round * POLL_INTERVAL_MS);
        assert!(app.next_poll.is_some() && app.auto_refresh && !app.in_flight());
        step(&mut app, Event::Redraw, 0);
        step(&mut app, Event::Tick, (round + 1) * POLL_INTERVAL_MS);
        assert!(app.next_poll.is_none() && app.in_flight() && app.queried.is_some());
        assert_eq!(app.rows.len(), 2);
    }
}
