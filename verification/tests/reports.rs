use dnsglobe::args::OutputFormat;
use dnsglobe::csv_report::csv_report;
use dnsglobe::json_report::json_report;
use dnsglobe::model::{QueryResult, Resolver, RowState, Summary};
use dnsglobe::once::{begin_once, report, run_once, spawn_round};
use dnsglobe::rows::once_row;
use dnsglobe::text_report::text_report;

fn resolvers() -> Vec<Resolver> {
    vec![
        Resolver { name: "Google Public DNS", location: "Anycast", ip: "8.8.8.8" },
        Resolver { name: "Comss.one", location: "RU", ip: "83.220.169.155" },
        Resolver { name: "114DNS", location: "CN", ip: "114.114.114.114" },
        Resolver { name: "ByteDance, Public \"DNS\"", location: "CN", ip: "180.184.1.1" },
    ]
}

fn strings(values: &[&str]) -> Vec<String> {
    values.iter().map(|v| v.to_string()).collect()
}

fn records(values: &[&str], min_ttl: u32, elapsed_ms: u128) -> RowState {
    RowState::Done {
        result: QueryResult::Records { values: strings(values), min_ttl },
        elapsed_ms,
    }
}

fn rows() -> Vec<RowState> {
    vec![
        records(&["104.20.23.154", "172.66.147.243"], 243, 13),
        records(&["8.47.69.0", "8.6.112.0"], 5408, 49),
        RowState::Done { result: QueryResult::NoRecords("NXDOMAIN".to_string()), elapsed_ms: 146 },
        RowState::Done { result: QueryResult::Error("timed out".to_string()), elapsed_ms: 123456 },
    ]
}

fn summary() -> Summary {
    Summary {
        ok: 2,
        responding: 3,
        errors: 1,
        groups: 2,
        agree: 1,
        majority_rows: vec![true, false, false, false],
        majority_values: strings(&["104.20.23.154", "172.66.147.243"]),
    }
}

#[test]
fn text_report_lines_up_its_columns() {
    let expected = "\
example.com A

Google Public DNS      Anycast  8.8.8.8          OK         13ms  ttl=243     104.20.23.154, 172.66.147.243
Comss.one              RU       83.220.169.155   DIFFERS    49ms  ttl=5408    8.47.69.0, 8.6.112.0
114DNS                 CN       114.114.114.114  NONE      146ms  NXDOMAIN
ByteDance, Public \"DNS\" CN       180.184.1.1      ERR     123456ms  timed out

2 of 3 responding · 1 unreachable · 2 answer group(s)
propagation (1/3 responding): 104.20.23.154, 172.66.147.243
";
    let text = text_report("example.com", "A", &resolvers(), &rows(), &summary());
    assert_eq!(text, expected);
}

#[test]
fn text_report_without_a_group_has_no_propagation_line() {
    let none = Summary {
        ok: 0,
        responding: 0,
        errors: 0,
        groups: 0,
        agree: 0,
        majority_rows: vec![false],
        majority_values: vec![],
    };
    let text = text_report("é.example", "MX", &resolvers()[..1], &[RowState::Pending], &none);
    assert_eq!(
        text,
        "é.example MX\n\nGoogle Public DNS      Anycast  8.8.8.8          ??\n\n0 of 0 responding · 0 unreachable · 0 answer group(s)\n"
    );
}

#[test]
fn json_report_is_exact() {
    let expected = r#"{
  "domain": "example.com",
  "record_type": "A",
  "resolvers": [
    {"name": "Google Public DNS", "location": "Anycast", "ip": "8.8.8.8", "status": "ok", "elapsed_ms": 13, "ttl": 243, "values": ["104.20.23.154", "172.66.147.243"], "detail": null},
    {"name": "Comss.one", "location": "RU", "ip": "83.220.169.155", "status": "differs", "elapsed_ms": 49, "ttl": 5408, "values": ["8.47.69.0", "8.6.112.0"], "detail": null},
    {"name": "114DNS", "location": "CN", "ip": "114.114.114.114", "status": "none", "elapsed_ms": 146, "ttl": null, "values": [], "detail": "NXDOMAIN"},
    {"name": "ByteDance, Public \"DNS\"", "location": "CN", "ip": "180.184.1.1", "status": "error", "elapsed_ms": 123456, "ttl": null, "values": [], "detail": "timed out"}
  ],
  "summary": {"ok": 2, "responding": 3, "unreachable": 1, "groups": 2, "agree": 1, "majority_values": ["104.20.23.154", "172.66.147.243"]}
}
"#;
    let text = json_report("example.com", "A", &resolvers(), &rows(), &summary());
    assert_eq!(text, expected);
}

#[test]
fn json_report_of_nobody_is_an_empty_list() {
    let none = Summary {
        ok: 0,
        responding: 0,
        errors: 0,
        groups: 0,
        agree: 0,
        majority_rows: vec![],
        majority_values: vec![],
    };
    let text = json_report("a\"b", "TXT", &[], &[], &none);
    assert_eq!(
        text,
        "{\n  \"domain\": \"a\\\"b\",\n  \"record_type\": \"TXT\",\n  \"resolvers\": [\n  ],\n  \"summary\": {\"ok\": 0, \"responding\": 0, \"unreachable\": 0, \"groups\": 0, \"agree\": 0, \"majority_values\": []}\n}\n"
    );
}

#[test]
fn csv_report_is_exact() {
    let expected = "\
name,location,ip,status,elapsed_ms,ttl,values,detail
Google Public DNS,Anycast,8.8.8.8,ok,13,243,104.20.23.154|172.66.147.243,
Comss.one,RU,83.220.169.155,differs,49,5408,8.47.69.0|8.6.112.0,
114DNS,CN,114.114.114.114,none,146,,,NXDOMAIN
\"ByteDance, Public \"\"DNS\"\"\",CN,180.184.1.1,error,123456,,,timed out
";
    assert_eq!(csv_report(&resolvers(), &rows(), &summary()), expected.replace('\n', "\r\n"));
}

#[test]
fn reports_stop_with_the_shorter_list() {
    let all = rows();
    let text = csv_report(&resolvers(), &all[..1], &summary());
    assert_eq!(text.lines().count(), 2);
    let text = json_report("d", "A", &resolvers()[..2], &all, &summary());
    assert!(!text.contains("114DNS"));
    let text = json_report("d", "A", &resolvers(), &all[..1], &summary());
    assert!(text.contains("\"detail\": null}\n  ],\n"));
}

#[test]
fn text_report_needs_flags_for_records_only() {
    let all = rows();
    let few = Summary { majority_rows: vec![true, false], ..summary() };
    let text = text_report("example.com", "A", &resolvers(), &all, &few);
    assert_eq!(text, text_report("example.com", "A", &resolvers(), &all, &summary()));
    let none = Summary { majority_rows: vec![], ..summary() };
    let quick = [RowState::Done { result: QueryResult::Error("x".to_string()), elapsed_ms: 7 }];
    let text = text_report("d", "A", &resolvers(), &quick, &none);
    assert!(text.contains(" 8.8.8.8          ERR         7ms  x\n"));
}

#[test]
fn once_row_flattens_every_state() {
    let all = rows();
    let ok = once_row(&all[0], true);
    assert_eq!((ok.status, ok.elapsed_ms, ok.ttl, ok.detail), ("ok", Some(13), Some(243), None));
    assert_eq!(ok.values, &strings(&["104.20.23.154", "172.66.147.243"])[..]);
    assert_eq!(once_row(&all[0], false).status, "differs");
    let none = once_row(&all[2], true);
    assert_eq!(
        (none.status, none.elapsed_ms, none.ttl, none.detail),
        ("none", Some(146), None, Some("NXDOMAIN"))
    );
    assert!(none.values.is_empty());
    let error = once_row(&all[3], false);
    assert_eq!((error.status, error.detail), ("error", Some("timed out")));
    for row in [RowState::Idle, RowState::Pending] {
        let unknown = once_row(&row, true);
        assert_eq!(
            (unknown.status, unknown.elapsed_ms, unknown.ttl, unknown.detail),
            ("unknown", None, None, None)
        );
    }
}

#[test]
fn single_check_from_domain_to_report() {
    let list = resolvers();
    let (mut app, request) = begin_once("example.com".to_string(), 16, list.len()).unwrap();
    assert_eq!((request.domain.as_str(), request.code), ("example.com", 16));
    let probes = spawn_round(&list, &request);
    assert_eq!(probes.len(), 4);
    assert_eq!(probes[1].ip, "83.220.169.155");
    let outcomes = probes
        .into_iter()
        .rev()
        .map(|probe| {
            let values = if probe.resolver_index == 3 { &["z"][..] } else { &["x", "y"][..] };
            let result = QueryResult::Records { values: strings(values), min_ttl: 60 };
            probe.outcome(result, 5)
        })
        .collect();
    let text = run_once(OutputFormat::Text, &list, &mut app, &request, outcomes);
    assert!(text.starts_with("example.com TXT\n\n"));
    assert!(text.ends_with(
        "\n4 of 4 responding · 0 unreachable · 2 answer group(s)\npropagation (3/4 responding): x, y\n"
    ));
    assert_eq!(text.matches(" DIFFERS ").count(), 1);
    let json = report(OutputFormat::Json, "example.com", "TXT", &list, &app);
    assert!(json.contains("\"agree\": 3, \"majority_values\": [\"x\", \"y\"]"));
    let csv = report(OutputFormat::Csv, "example.com", "TXT", &list, &app);
    assert!(csv.ends_with(",differs,5,60,z,\r\n"));
}

#[test]
fn single_check_shows_the_name_of_each_offered_type() {
    for (code, name) in
        [(1, "A"), (28, "AAAA"), (5, "CNAME"), (15, "MX"), (2, "NS"), (16, "TXT"), (6, "SOA")]
    {
        let (mut app, request) = begin_once("d".to_string(), code, 0).unwrap();
        assert_eq!(request.code, code);
        let text = run_once(OutputFormat::Text, &[], &mut app, &request, vec![]);
        assert!(text.starts_with(&format!("d {}\n", name)));
    }
}

#[test]
fn single_check_of_another_type_asks_for_a() {
    let (_, request) = begin_once("d".to_string(), 12, 3).unwrap();
    assert_eq!(request.code, 1);
}

#[test]
fn single_check_refuses_an_empty_domain() {
    let err = begin_once(String::new(), 1, 3).unwrap_err();
    assert_eq!(err.message(), "empty domain");
}
