use tremor_runtime::clickhouse::{
    add_uint8_column, get_column_data, push_decimal, Builder, ClickHouseType, Clickhouse, ClickhouseConfig,
    CodecReq, Column, Field, Value,
};
use tremor_runtime::errors::{max_groups_reached, missing_config, ErrorKind};

fn config(port: Option<u16>) -> ClickhouseConfig {
    ClickhouseConfig { host: "localhost".to_string(), port, database: "people_db".to_string() }
}

fn row(age: Value) -> Vec<Field> {
    vec![
        Field { name: "name".to_string(), value: Value::Str("x".to_string()) },
        Field { name: "age".to_string(), value: age },
    ]
}

#[test]
fn url_uses_default_port() {
    let c = Clickhouse::new(config(None));
    assert_eq!(c.connection_url(), "tcp://localhost:9000/people_db?compression=lz4");
}

#[test]
fn url_uses_configured_port() {
    let c = Clickhouse::new(config(Some(8123)));
    assert_eq!(c.connection_url(), "tcp://localhost:8123/people_db?compression=lz4");
    assert_eq!(c.codec_requirements(), CodecReq::Structured);
}

#[test]
fn decimal_digits() {
    let mut s = String::from("p");
    push_decimal(&mut s, 0);
    assert_eq!(s, "p0");
    let mut s = String::new();
    push_decimal(&mut s, 65535);
    assert_eq!(s, "65535");
    let mut s = String::new();
    push_decimal(&mut s, u64::MAX);
    assert_eq!(s, u64::MAX.to_string());
}

#[test]
fn builder_needs_config() {
    let b = Builder {};
    assert_eq!(b.connector_type(), "clickhouse");
    match b.from_config("my_sink", None) {
        Err(e) => assert_eq!(e.kind, ErrorKind::MissingConfiguration("my_sink".to_string())),
        Ok(_) => panic!("expected an error"),
    }
    let c = b.from_config("my_sink", Some(config(Some(1)))).ok().expect("built");
    assert_eq!(c.connection_url(), "tcp://localhost:1/people_db?compression=lz4");
}

#[test]
fn sink_refuses_events_when_not_connected() {
    let c = Clickhouse::new(config(None));
    let sink = c.create_sink();
    assert_eq!(sink.db_url, "tcp://localhost:9000/people_db?compression=lz4");
    assert!(!sink.connected);
    assert!(sink.auto_ack());
    match sink.on_event(&vec![row(Value::UInt(3))]) {
        Err(e) => assert_eq!(e.kind, ErrorKind::NoSocket),
        Ok(_) => panic!("expected an error"),
    }
}

#[test]
fn sink_builds_age_column() {
    let mut sink = Clickhouse::new(config(None)).create_sink();
    sink.connected = true;
    let rows = vec![row(Value::UInt(30)), row(Value::Int(255)), row(Value::Int(0))];
    let block = sink.on_event(&rows).ok().expect("block");
    assert_eq!(block, vec![Column { name: "age".to_string(), data: vec![30, 255, 0] }]);
}

#[test]
fn sink_reports_bad_rows() {
    let mut sink = Clickhouse::new(config(None)).create_sink();
    sink.connected = true;
    let rows = vec![row(Value::UInt(30)), row(Value::Int(256)), vec![]];
    match sink.on_event(&rows) {
        Err(e) => assert_eq!(e.kind, ErrorKind::BadColumnValue("age".to_string())),
        Ok(_) => panic!("expected an error"),
    }
    let rows = vec![row(Value::UInt(30)), vec![], row(Value::Int(-1))];
    match sink.on_event(&rows) {
        Err(e) => assert_eq!(e.kind, ErrorKind::MissingColumn("age".to_string())),
        Ok(_) => panic!("expected an error"),
    }
    let rows = vec![row(Value::Bool(true))];
    assert!(sink.on_event(&rows).is_err());
}

#[test]
fn column_list_and_append() {
    let cols = get_column_data();
    assert_eq!(cols, vec![("age".to_string(), ClickHouseType::UInt8)]);
    let first = Column { name: "x".to_string(), data: vec![1] };
    let b = add_uint8_column(vec![first.clone()], "age".to_string(), &vec![row(Value::UInt(7))]).ok().expect("ok");
    assert_eq!(b, vec![first, Column { name: "age".to_string(), data: vec![7] }]);
}

#[test]
fn error_constructors() {
    assert_eq!(missing_config("host").kind, ErrorKind::MissingOpConfig("missing field host".to_string()));
    assert_eq!(max_groups_reached(10, "g1").kind, ErrorKind::MaxGroups(10, "g1".to_string()));
}
