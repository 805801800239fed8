use mqtt_to_sqlite::catalog::{Catalog, MetricDefinition};
use mqtt_to_sqlite::config::{default_ca_cert, default_client_cert, default_client_key, default_qos};
use mqtt_to_sqlite::config::{ClientAuth, Config, LwtSettings, Topic};
use mqtt_to_sqlite::error::M2SError;
use mqtt_to_sqlite::lifecycle::{Action, ConnectionState, Event, Lifecycle, RECONNECT_DELAY_MS};
use mqtt_to_sqlite::processor::{classify, clock_millis, evaluate, millis_from, process_message, process_outputs};
use mqtt_to_sqlite::processor::{strip_line_breaks, JsonKind, Outcome};
use mqtt_to_sqlite::router::RouteTable;
use mqtt_to_sqlite::storage::{metadata_statement, table_names};

fn topic(mqtt_topic: &str, json_path: &str) -> Topic {
    Topic {
        mqtt_topic: mqtt_topic.to_string(),
        json_path: json_path.to_string(),
        unit: None,
        description: None,
    }
}

fn config(metrics: Vec<(&str, Topic)>) -> Config {
    Config {
        uri: "ws://localhost:1883".to_string(),
        lwt: None,
        client_auth: None,
        db: "test.db".to_string(),
        metrics: metrics.into_iter().map(|(n, t)| (n.to_string(), t)).collect(),
    }
}

fn metric(name: &str, topic: &str, expr: &str) -> MetricDefinition {
    MetricDefinition {
        metric_name: name.to_string(),
        topic: topic.to_string(),
        extraction_expression: expr.to_string(),
        unit: Some("C".to_string()),
        description: None,
    }
}

#[test]
fn lwt_settings_new_keeps_fields() {
    let l = LwtSettings::new("test", "gone", 2);
    assert_eq!(l.topic, "test");
    assert_eq!(l.message, "gone");
    assert_eq!(l.qos, 2);
    assert_eq!(default_qos(), 1);
}

#[test]
fn client_auth_default_paths() {
    let d = ClientAuth::default();
    assert_eq!(d.client_key, "/etc/mqtt-to-sqlite/client.key");
    assert_eq!(d.client_cert, "/etc/mqtt-to-sqlite/client.crt");
    assert_eq!(d.ca_cert, "/etc/mqtt-to-sqlite/ca.crt");
    assert_eq!(default_client_key(), d.client_key);
    assert_eq!(default_client_cert(), d.client_cert);
    assert_eq!(default_ca_cert(), d.ca_cert);
    assert_eq!(
        ClientAuth::new("test.key", "test.crt", "test.ca"),
        ClientAuth {
            client_key: "test.key".to_string(),
            client_cert: "test.crt".to_string(),
            ca_cert: "test.ca".to_string(),
        }
    );
}

#[test]
fn mqtt_topics_in_metric_order() {
    let c = config(vec![("test", topic("test", "test")), ("test2", topic("test2", "test2"))]);
    assert_eq!(c.get_mqtt_topics(), vec!["test", "test2"]);
    let shared = config(vec![
        ("hum", topic("room", ".hum")),
        ("pressure", topic("out", ".p")),
        ("temp", topic("room", ".temp")),
    ]);
    assert_eq!(shared.get_mqtt_topics(), vec!["room", "out"]);
    assert!(config(vec![]).get_mqtt_topics().is_empty());
}

#[test]
fn catalog_rejects_duplicate_names() {
    let c = config(vec![("a", topic("t", ".x")), ("b", topic("u", ".y")), ("a", topic("v", ".z"))]);
    match Catalog::from_config(&c) {
        Err(M2SError::DuplicateMetric { metric_name }) => assert_eq!(metric_name, "a"),
        other => panic!("unexpected {:?}", other),
    }
}

#[test]
fn catalog_keeps_entries_in_order() {
    let c = config(vec![("a", topic("t", ".x")), ("b", topic("u", ".y"))]);
    let cat = Catalog::from_config(&c).unwrap();
    assert_eq!(cat.metrics.len(), 2);
    assert_eq!(cat.metrics[0].metric_name, "a");
    assert_eq!(cat.metrics[0].topic, "t");
    assert_eq!(cat.metrics[0].extraction_expression, ".x");
    assert_eq!(cat.metrics[1].metric_name, "b");
}

#[test]
fn router_fans_out_one_topic_to_several_metrics() {
    let c = config(vec![
        ("humidity", topic("sensors/room", ".hum")),
        ("pressure", topic("sensors/out", ".p")),
        ("temp", topic("sensors/room", ".temp")),
    ]);
    let cat = Catalog::from_config(&c).unwrap();
    let table = RouteTable::new(&cat);
    let room = table.lookup("sensors/room").unwrap();
    assert_eq!(room.len(), 2);
    assert_eq!(room[0].metric_name, "humidity");
    assert_eq!(room[1].metric_name, "temp");
    let out = table.lookup("sensors/out").unwrap();
    assert_eq!(out.len(), 1);
    assert_eq!(out[0].metric_name, "pressure");
    assert_eq!(table.topics(), vec!["sensors/room", "sensors/out"]);
}

#[test]
fn router_matches_exact_topics_only() {
    let c = config(vec![("temp", topic("sensors/room", ".temp"))]);
    let cat = Catalog::from_config(&c).unwrap();
    let table = RouteTable::new(&cat);
    assert!(table.lookup("sensors/#").is_none());
    assert!(table.lookup("sensors/+").is_none());
    assert!(table.lookup("sensors").is_none());
    assert!(table.lookup("sensors/room/1").is_none());
    assert!(table.lookup("sensors/roo").is_none());
    assert!(table.lookup("").is_none());
    assert!(table.lookup("sensors/room").is_some());
}

#[test]
fn clock_reads_milliseconds_since_epoch() {
    let now = clock_millis().unwrap();
    // 2020-01-01T00:00:00Z
    assert!(now > 1_577_836_800_000);
}

#[test]
fn millis_from_seconds_and_nanoseconds() {
    assert_eq!(millis_from(0, 0), Some(0));
    assert_eq!(millis_from(1, 999_999_999), Some(1999));
    assert_eq!(millis_from(1_700_000_000, 123_456_789), Some(1_700_000_000_123));
    assert_eq!(millis_from(8_000_000_000_000, 0), Some(8_000_000_000_000_000));
    assert_eq!(millis_from(u64::MAX, 0), None);
    assert_eq!(millis_from(i64::MAX as u64 + 1, 0), None);
}

#[test]
fn line_breaks_at_the_end_are_removed() {
    assert_eq!(strip_line_breaks("21.5\n"), "21.5");
    assert_eq!(strip_line_breaks("a\nb\n\n"), "a\nb");
    assert_eq!(strip_line_breaks("\n"), "");
    assert_eq!(strip_line_breaks(""), "");
}

#[test]
fn scalar_result_is_written() {
    let m = metric("temp", "room", ".temp");
    let r = evaluate(&m, "21.5\n", 1700000000123).unwrap();
    assert_eq!(
        r,
        Outcome::Write {
            metric_name: "temp".to_string(),
            timestamp: 1700000000123,
            value: "21.5".to_string(),
        }
    );
    let s = evaluate(&m, "\"warm\"\n", 5).unwrap();
    assert!(matches!(s, Outcome::Write { ref value, .. } if value == "\"warm\""));
    let b = evaluate(&m, "true\n", 5).unwrap();
    assert!(matches!(b, Outcome::Write { ref value, .. } if value == "true"));
}

#[test]
fn null_result_is_nothing_found() {
    let m = metric("temp", "room", ".temp");
    assert_eq!(
        evaluate(&m, "null\n", 7).unwrap(),
        Outcome::NothingFound { metric_name: "temp".to_string() }
    );
    assert_eq!(
        evaluate(&m, "", 7).unwrap(),
        Outcome::NothingFound { metric_name: "temp".to_string() }
    );
}

#[test]
fn object_result_is_unsupported() {
    let m = metric("temp", "room", ".temp");
    assert_eq!(
        evaluate(&m, "{\"c\":21.5}\n", 7).unwrap(),
        Outcome::Unsupported { metric_name: "temp".to_string() }
    );
    assert_eq!(
        evaluate(&m, "[1,2]\n", 7).unwrap(),
        Outcome::Unsupported { metric_name: "temp".to_string() }
    );
}

#[test]
fn malformed_result_fails() {
    let m = metric("temp", "room", ".temp");
    assert_eq!(
        evaluate(&m, "1\n2\n", 7),
        Err(M2SError::MalformedResult { metric_name: "temp".to_string() })
    );
    assert_eq!(
        classify(&m, "x".to_string(), None, 7),
        Err(M2SError::MalformedResult { metric_name: "temp".to_string() })
    );
    assert_eq!(
        classify(&m, "3".to_string(), Some(JsonKind::Number), 7),
        Ok(Outcome::Write { metric_name: "temp".to_string(), timestamp: 7, value: "3".to_string() })
    );
}

#[test]
fn metrics_of_one_message_share_the_timestamp() {
    let ms = vec![metric("temp", "room", ".temp"), metric("hum", "room", ".hum")];
    let outputs = vec!["21.5\n".to_string(), "40\n".to_string()];
    let v = process_outputs(&ms, &outputs, 99).unwrap();
    assert_eq!(
        v,
        vec![
            Outcome::Write { metric_name: "temp".to_string(), timestamp: 99, value: "21.5".to_string() },
            Outcome::Write { metric_name: "hum".to_string(), timestamp: 99, value: "40".to_string() },
        ]
    );
    let now = process_message(&ms, &outputs).unwrap();
    match (&now[0], &now[1]) {
        (Outcome::Write { timestamp: a, .. }, Outcome::Write { timestamp: b, .. }) => {
            assert_eq!(a, b);
            assert!(*a > 0);
        }
        other => panic!("unexpected {:?}", other),
    }
}

#[test]
fn first_malformed_result_fails_the_message() {
    let ms = vec![metric("a", "room", ".a"), metric("b", "room", ".b"), metric("c", "room", ".c")];
    let outputs = vec!["1\n".to_string(), "{oops\n".to_string(), "[\n".to_string()];
    assert_eq!(
        process_outputs(&ms, &outputs, 1),
        Err(M2SError::MalformedResult { metric_name: "b".to_string() })
    );
}

#[test]
fn metadata_insert_when_created_update_otherwise() {
    let m = metric("temp", "room", ".temp");
    let ins = metadata_statement(&m, true);
    assert!(ins.insert);
    assert_eq!(ins.metric_name, "temp");
    assert_eq!(ins.unit, "C");
    assert_eq!(ins.description, "");
    let upd = metadata_statement(&m, false);
    assert!(!upd.insert);
    assert_eq!(upd.unit, "C");
}

fn provision_once(conn: &rusqlite::Connection, cat: &Catalog) -> usize {
    conn.execute("create table if not exists metadata(metric primary key, unit, description)", [])
        .unwrap();
    let mut created_count = 0;
    for (i, name) in table_names(cat).into_iter().enumerate() {
        let exists: i64 = conn
            .query_row(
                "select count(*) from sqlite_master where type = 'table' and name = ?1",
                [name],
                |r| r.get(0),
            )
            .unwrap();
        let created = exists == 0;
        conn.execute(&format!("create table if not exists \"{}\" (t integer primary key asc, value)", name), [])
            .unwrap();
        let st = metadata_statement(&cat.metrics[i], created);
        if st.insert {
            created_count += 1;
            conn.execute(
                "insert into metadata(metric, unit, description) values(?1, ?2, ?3)",
                [&st.metric_name, &st.unit, &st.description],
            )
            .unwrap();
        } else {
            conn.execute(
                "update metadata set unit = ?1, description = ?2 where metric = ?3",
                [&st.unit, &st.description, &st.metric_name],
            )
            .unwrap();
        }
    }
    created_count
}

#[test]
fn provisioning_twice_is_idempotent() {
    let conn = rusqlite::Connection::open_in_memory().unwrap();
    let mut cat = Catalog { metrics: vec![metric("temp", "room", ".temp"), metric("hum", "room", ".hum")] };
    assert_eq!(provision_once(&conn, &cat), 2);
    conn.execute("insert into temp (t, value) values (1, '21.5')", []).unwrap();
    cat.metrics[0].unit = Some("K".to_string());
    assert_eq!(provision_once(&conn, &cat), 0);
    let rows: i64 = conn.query_row("select count(*) from temp", [], |r| r.get(0)).unwrap();
    assert_eq!(rows, 1);
    let unit: String = conn
        .query_row("select unit from metadata where metric = 'temp'", [], |r| r.get(0))
        .unwrap();
    assert_eq!(unit, "K");
}

fn drive(l: &mut Lifecycle, events: &[Event]) -> Vec<Action> {
    events.iter().map(|e| l.step(*e)).collect()
}

#[test]
fn lifecycle_connects_and_subscribes() {
    let mut l = Lifecycle::new();
    assert_eq!(l.state, ConnectionState::Disconnected);
    let acts = drive(
        &mut l,
        &[
            Event::Start,
            Event::ConnectFailed,
            Event::ConnectSucceeded { session_present: false },
            Event::SubscribeSucceeded,
            Event::Message,
        ],
    );
    assert_eq!(
        acts,
        vec![
            Action::Connect { delay_ms: 0 },
            Action::Connect { delay_ms: RECONNECT_DELAY_MS },
            Action::Subscribe { delay_ms: 0 },
            Action::Resume,
            Action::Process,
        ]
    );
    assert!(l.is_connected());
    assert!(l.subscribed);
    assert_eq!(RECONNECT_DELAY_MS, 1000);
}

#[test]
fn lifecycle_reconnects_after_failures() {
    for session_present in [false, true] {
        let mut l = Lifecycle::new();
        drive(&mut l, &[Event::Start, Event::ConnectSucceeded { session_present: false }, Event::SubscribeSucceeded]);
        let before = l;
        let mut events = vec![Event::ConnectionLost];
        events.extend(std::iter::repeat(Event::ConnectFailed).take(3));
        events.push(Event::ConnectSucceeded { session_present });
        if !session_present {
            events.push(Event::SubscribeSucceeded);
        }
        events.push(Event::Message);
        let acts = drive(&mut l, &events);
        let mut expected = vec![
            Action::Reconnect { delay_ms: 0 },
            Action::Reconnect { delay_ms: 1000 },
            Action::Reconnect { delay_ms: 1000 },
            Action::Reconnect { delay_ms: 1000 },
        ];
        if !session_present {
            expected.push(Action::Subscribe { delay_ms: 0 });
        }
        expected.push(Action::Resume);
        expected.push(Action::Process);
        assert_eq!(acts, expected);
        assert_eq!(acts.iter().filter(|a| matches!(a, Action::Subscribe { .. })).count(), if session_present { 0 } else { 1 });
        assert_eq!(l, before);
    }
}

#[test]
fn lifecycle_resubscribes_when_subscription_was_not_confirmed() {
    let mut l = Lifecycle::new();
    drive(&mut l, &[Event::Start, Event::ConnectSucceeded { session_present: false }, Event::ConnectionLost]);
    assert_eq!(l.step(Event::ConnectSucceeded { session_present: true }), Action::Subscribe { delay_ms: 0 });
}

#[test]
fn lifecycle_ignores_messages_while_reconnecting() {
    let mut l = Lifecycle::new();
    drive(&mut l, &[Event::Start, Event::ConnectSucceeded { session_present: false }, Event::ConnectionLost]);
    assert_eq!(l.state, ConnectionState::Reconnecting);
    assert!(!l.is_connected());
    assert_eq!(l.step(Event::Message), Action::Ignore);
    assert_eq!(l.state, ConnectionState::Reconnecting);
}

#[test]
fn lifecycle_retries_failed_subscription() {
    let mut l = Lifecycle::new();
    drive(&mut l, &[Event::Start, Event::ConnectSucceeded { session_present: false }]);
    assert!(!l.subscribed);
    assert_eq!(l.step(Event::SubscribeFailed), Action::Subscribe { delay_ms: 1000 });
    assert!(!l.subscribed);
    assert_eq!(l.step(Event::SubscribeSucceeded), Action::Resume);
    assert!(l.subscribed);
    assert_eq!(l.step(Event::Message), Action::Process);
}
