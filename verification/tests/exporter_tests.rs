use eunomia_exporter::encode::encode;
use eunomia_exporter::model::{Label, MetricFamily, MetricKind, Sample, Snapshot};
use eunomia_exporter::response::{
    encode_failure_response, handle_request, metrics_response, not_found_response, root_response,
    EncodingError,
};
use eunomia_exporter::router::{route, HttpMethod, Route};
use eunomia_exporter::validate::snapshot_well_formed;

fn label(name: &str, value: &str) -> Label {
    Label { name: name.as_bytes().to_vec(), value: value.as_bytes().to_vec() }
}

fn sample(labels: Vec<Label>, value: &str) -> Sample {
    Sample { labels, value: value.as_bytes().to_vec() }
}

fn family(name: &str, help: &str, kind: MetricKind, samples: Vec<Sample>) -> MetricFamily {
    MetricFamily {
        name: name.as_bytes().to_vec(),
        help: help.as_bytes().to_vec(),
        kind,
        samples,
    }
}

fn counter_snapshot() -> Snapshot {
    Snapshot {
        families: vec![family(
            "requests_total",
            "Total requests.",
            MetricKind::Counter,
            vec![sample(vec![], "42")],
        )],
    }
}

#[test]
fn encode_empty_snapshot_is_empty() {
    let snap = Snapshot::new();
    assert_eq!(encode(&snap), Vec::<u8>::new());
}

#[test]
fn encode_counter_family() {
    let body = encode(&counter_snapshot());
    let expected = "# HELP requests_total Total requests.\n\
                    # TYPE requests_total counter\n\
                    requests_total 42\n";
    assert_eq!(body, expected.as_bytes());
}

#[test]
fn encode_sample_with_labels() {
    let snap = Snapshot {
        families: vec![family(
            "requests_total",
            "Total requests.",
            MetricKind::Counter,
            vec![sample(vec![label("method", "get"), label("code", "200")], "7")],
        )],
    };
    let body = encode(&snap);
    let expected = "# HELP requests_total Total requests.\n\
                    # TYPE requests_total counter\n\
                    requests_total{method=\"get\",code=\"200\"} 7\n";
    assert_eq!(body, expected.as_bytes());
}

#[test]
fn encode_escapes_label_value_and_help() {
    let snap = Snapshot {
        families: vec![family(
            "odd_metric",
            "line one\nline \\two",
            MetricKind::Gauge,
            vec![sample(vec![label("path", "a\\b \"c\"\nd")], "1")],
        )],
    };
    let body = encode(&snap);
    let expected = "# HELP odd_metric line one\\nline \\\\two\n\
                    # TYPE odd_metric gauge\n\
                    odd_metric{path=\"a\\\\b \\\"c\\\"\\nd\"} 1\n";
    assert_eq!(body, expected.as_bytes());
}

#[test]
fn encode_all_kind_names() {
    let kinds = [
        (MetricKind::Counter, "counter"),
        (MetricKind::Gauge, "gauge"),
        (MetricKind::Histogram, "histogram"),
        (MetricKind::Summary, "summary"),
        (MetricKind::Untyped, "untyped"),
    ];
    for (kind, word) in kinds {
        let snap = Snapshot {
            families: vec![family("m", "h", kind, vec![sample(vec![], "0")])],
        };
        let body = encode(&snap);
        let expected = format!("# HELP m h\n# TYPE m {}\nm 0\n", word);
        assert_eq!(body, expected.as_bytes());
    }
}

#[test]
fn encode_keeps_family_and_sample_order() {
    let snap = Snapshot {
        families: vec![
            family("b_metric", "b", MetricKind::Gauge, vec![
                sample(vec![label("x", "1")], "1"),
                sample(vec![label("x", "2")], "2"),
            ]),
            family("a_metric", "a", MetricKind::Counter, vec![sample(vec![], "3")]),
        ],
    };
    let body = encode(&snap);
    let expected = "# HELP b_metric b\n# TYPE b_metric gauge\n\
                    b_metric{x=\"1\"} 1\nb_metric{x=\"2\"} 2\n\
                    # HELP a_metric a\n# TYPE a_metric counter\na_metric 3\n";
    assert_eq!(body, expected.as_bytes());
}

#[test]
fn route_get_metrics() {
    assert_eq!(route(HttpMethod::Get, b"/metrics"), Route::Metrics);
}

#[test]
fn route_get_root() {
    assert_eq!(route(HttpMethod::Get, b"/"), Route::Root);
}

#[test]
fn route_is_exact() {
    assert_eq!(route(HttpMethod::Get, b"/metrics/"), Route::NotFound);
    assert_eq!(route(HttpMethod::Get, b"/metric"), Route::NotFound);
    assert_eq!(route(HttpMethod::Get, b""), Route::NotFound);
    assert_eq!(route(HttpMethod::Get, b"/index.html"), Route::NotFound);
}

#[test]
fn route_method_mismatch_falls_to_not_found() {
    assert_eq!(route(HttpMethod::Post, b"/metrics"), Route::NotFound);
    assert_eq!(route(HttpMethod::Post, b"/"), Route::NotFound);
    assert_eq!(route(HttpMethod::Put, b"/metrics"), Route::NotFound);
    assert_eq!(route(HttpMethod::Delete, b"/"), Route::NotFound);
}

#[test]
fn root_always_greets() {
    let ok = handle_request(HttpMethod::Get, b"/", Ok(counter_snapshot()));
    assert_eq!(ok.status, 200);
    assert_eq!(ok.content_type, b"text/plain".to_vec());
    assert_eq!(ok.body, b"Hello World".to_vec());

    let err = handle_request(
        HttpMethod::Get,
        b"/",
        Err(EncodingError { detail: b"boom".to_vec() }),
    );
    assert_eq!(err.status, 200);
    assert_eq!(err.body, b"Hello World".to_vec());
}

#[test]
fn unknown_path_is_not_found() {
    for m in [HttpMethod::Get, HttpMethod::Post, HttpMethod::Head, HttpMethod::Other] {
        let r = handle_request(m, b"/nope", Ok(Snapshot::new()));
        assert_eq!(r.status, 404);
        assert_eq!(r.content_type, b"text/plain".to_vec());
        assert_eq!(r.body, b"Missing Page".to_vec());
    }
}

#[test]
fn post_metrics_is_not_found() {
    let r = handle_request(HttpMethod::Post, b"/metrics", Ok(counter_snapshot()));
    assert_eq!(r.status, 404);
    assert_eq!(r.body, b"Missing Page".to_vec());
}

#[test]
fn get_metrics_serves_encoding() {
    let r = handle_request(HttpMethod::Get, b"/metrics", Ok(counter_snapshot()));
    assert_eq!(r.status, 200);
    assert_eq!(r.content_type, b"text/plain; version=0.0.4".to_vec());
    assert_eq!(r.body, encode(&counter_snapshot()));
}

#[test]
fn encode_failure_gives_500_and_next_scrape_recovers() {
    let failed = handle_request(
        HttpMethod::Get,
        b"/metrics",
        Err(EncodingError { detail: b"encode failed".to_vec() }),
    );
    assert_eq!(failed.status, 500);
    assert_eq!(failed.content_type, b"text/plain".to_vec());
    assert_eq!(failed.body, b"encode failed".to_vec());

    let next = handle_request(HttpMethod::Get, b"/metrics", Ok(counter_snapshot()));
    assert_eq!(next.status, 200);
    assert_eq!(next.body, encode(&counter_snapshot()));
}

#[test]
fn two_scrapes_of_unchanged_registry_are_byte_identical() {
    let a = handle_request(HttpMethod::Get, b"/metrics", Ok(counter_snapshot()));
    let b = handle_request(HttpMethod::Get, b"/metrics", Ok(counter_snapshot()));
    assert_eq!(a.status, b.status);
    assert_eq!(a.content_type, b.content_type);
    assert_eq!(a.body, b.body);
}

#[test]
fn builders_match_their_contracts() {
    let root = root_response();
    assert_eq!((root.status, root.body), (200, b"Hello World".to_vec()));

    let missing = not_found_response();
    assert_eq!((missing.status, missing.body), (404, b"Missing Page".to_vec()));

    let snap = counter_snapshot();
    let metrics = metrics_response(&snap);
    assert_eq!(metrics.status, 200);
    assert_eq!(metrics.body, encode(&snap));

    let failed = encode_failure_response(EncodingError { detail: b"x".to_vec() });
    assert_eq!((failed.status, failed.body), (500, b"x".to_vec()));
}

#[test]
fn well_formed_snapshot_is_accepted() {
    assert!(snapshot_well_formed(&Snapshot::new()));
    assert!(snapshot_well_formed(&counter_snapshot()));
    let labelled = Snapshot {
        families: vec![family(
            "m_total",
            "help with \"quotes\" and \\slashes\\",
            MetricKind::Summary,
            vec![sample(vec![label("a", "anything \n goes"), label("b", "x")], "NaN")],
        )],
    };
    assert!(snapshot_well_formed(&labelled));
}

#[test]
fn malformed_snapshots_are_refused() {
    // empty metric name
    let empty_name = Snapshot {
        families: vec![family("", "h", MetricKind::Gauge, vec![sample(vec![], "1")])],
    };
    assert!(!snapshot_well_formed(&empty_name));

    // a digit cannot start a metric name
    let digit_start = Snapshot {
        families: vec![family("0m", "h", MetricKind::Gauge, vec![sample(vec![], "1")])],
    };
    assert!(!snapshot_well_formed(&digit_start));

    // a space is no value byte
    let bad_value = Snapshot {
        families: vec![family("m", "h", MetricKind::Gauge, vec![sample(vec![], "1 2")])],
    };
    assert!(!snapshot_well_formed(&bad_value));

    // duplicate label names within one sample
    let dup_labels = Snapshot {
        families: vec![family(
            "m",
            "h",
            MetricKind::Gauge,
            vec![sample(vec![label("a", "1"), label("a", "2")], "1")],
        )],
    };
    assert!(!snapshot_well_formed(&dup_labels));

    // duplicate family names within one snapshot
    let dup_families = Snapshot {
        families: vec![
            family("m", "h", MetricKind::Gauge, vec![sample(vec![], "1")]),
            family("m", "h", MetricKind::Counter, vec![sample(vec![], "2")]),
        ],
    };
    assert!(!snapshot_well_formed(&dup_families));

    // a colon is allowed in a metric name but not in a label name
    let colon_label = Snapshot {
        families: vec![family(
            "name:spaced",
            "h",
            MetricKind::Gauge,
            vec![sample(vec![label("a:b", "1")], "1")],
        )],
    };
    assert!(!snapshot_well_formed(&colon_label));
}

// An independent little reader of the exposition format, written here in the
// test only, to exercise the encode/read round trip at run time: lines ending
// in newline, comment lines skipped, samples as name{labels} value.
fn read_exposition(body: &[u8]) -> Option<Vec<(String, Vec<(String, String)>, String)>> {
    let text = String::from_utf8(body.to_vec()).ok()?;
    let mut out = Vec::new();
    let mut rest = text.as_str();
    while !rest.is_empty() {
        let nl = rest.find('\n')?;
        let line = &rest[..nl];
        rest = &rest[nl + 1..];
        if line.starts_with('#') {
            continue;
        }
        let name_end = line
            .find(|c: char| !(c.is_ascii_alphanumeric() || c == '_' || c == ':'))
            .unwrap_or(line.len());
        let name = line[..name_end].to_string();
        let mut labels = Vec::new();
        let after = &line[name_end..];
        let value_part = if let Some(inner) = after.strip_prefix('{') {
            let mut chars = inner.chars();
            loop {
                let mut lname = String::new();
                loop {
                    match chars.next()? {
                        '=' => break,
                        c => lname.push(c),
                    }
                }
                if chars.next()? != '"' {
                    return None;
                }
                let mut lvalue = String::new();
                loop {
                    match chars.next()? {
                        '"' => break,
                        '\\' => match chars.next()? {
                            '\\' => lvalue.push('\\'),
                            '"' => lvalue.push('"'),
                            'n' => lvalue.push('\n'),
                            _ => return None,
                        },
                        c => lvalue.push(c),
                    }
                }
                labels.push((lname, lvalue));
                match chars.next()? {
                    ',' => continue,
                    '}' => break,
                    _ => return None,
                }
            }
            chars.as_str()
        } else {
            after
        };
        let value = value_part.strip_prefix(' ')?.to_string();
        if value.is_empty() {
            return None;
        }
        out.push((name, labels, value));
    }
    Some(out)
}

#[test]
fn encode_then_read_back_round_trip() {
    let snap = Snapshot {
        families: vec![
            family(
                "http_requests_total",
                "Requests.\nSecond line \\ raw",
                MetricKind::Counter,
                vec![
                    sample(vec![label("method", "get"), label("code", "2\"00\"\n")], "1027"),
                    sample(vec![], "3"),
                ],
            ),
            family("temp_celsius", "Temp.", MetricKind::Gauge, vec![sample(
                vec![label("room", "a\\b")],
                "-0.5",
            )]),
        ],
    };
    let body = encode(&snap);
    let read = read_exposition(&body).expect("encoded body must read back cleanly");
    let expected = vec![
        (
            "http_requests_total".to_string(),
            vec![
                ("method".to_string(), "get".to_string()),
                ("code".to_string(), "2\"00\"\n".to_string()),
            ],
            "1027".to_string(),
        ),
        ("http_requests_total".to_string(), vec![], "3".to_string()),
        (
            "temp_celsius".to_string(),
            vec![("room".to_string(), "a\\b".to_string())],
            "-0.5".to_string(),
        ),
    ];
    assert_eq!(read, expected);
}
