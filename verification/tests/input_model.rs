use badlogvis::attribute::Attribute;
use badlogvis::diag::{Error, Warning};
use badlogvis::input::{
    column_wise_csv_parse, find_column, JSONHeader, JSONTopic, JSONValue, Log, Topic, Value,
};
use badlogvis::util::split_name;
use badlogvis::xaxis::XAxis;

fn jtopic(name: &str, unit: &str, attrs: &[&str]) -> JSONTopic {
    JSONTopic {
        name: name.to_string(),
        unit: unit.to_string(),
        attrs: attrs.iter().map(|a| a.to_string()).collect(),
    }
}

fn jvalue(name: &str, value: &str) -> JSONValue {
    JSONValue { name: name.to_string(), value: value.to_string() }
}

fn empty_log(name: &str) -> Log {
    let (folder, base) = split_name(name);
    Log {
        name: name.to_string(),
        name_base: base,
        name_folder: folder,
        unit: "ul".to_string(),
        attrs: vec![Attribute::Log],
        data: Vec::new(),
        lines: None,
    }
}

#[test]
fn value_from_json_splits_name() {
    let v = Value::from_json(&jvalue("sys/ver", "1.2"));
    assert_eq!(v.name, "sys/ver");
    assert_eq!(v.name_folder, "sys");
    assert_eq!(v.name_base, "ver");
    assert_eq!(v.value, "1.2");
}

#[test]
fn topic_from_json_normalizes_unit() {
    let (t, warns) = Topic::from_json(&jtopic("m/a", "", &["area"])).unwrap();
    assert_eq!(t.unit, "ul");
    assert_eq!(t.name_folder, "m");
    assert_eq!(t.name_base, "a");
    assert_eq!(t.attrs, vec![Attribute::Area]);
    assert!(t.data.is_empty());
    assert!(warns.is_empty());

    let (t2, _) = Topic::from_json(&jtopic("b", "volts", &[])).unwrap();
    assert_eq!(t2.unit, "volts");
}

#[test]
fn fill_skips_hidden_only_channels() {
    let (mut hidden, _) = Topic::from_json(&jtopic("h", "", &["hide"])).unwrap();
    assert!(hidden.skips_fill());
    hidden.fill(&vec![1, 2, 3]);
    assert!(hidden.data.is_empty());

    let (mut shown, _) = Topic::from_json(&jtopic("s", "", &["hide", "area"])).unwrap();
    assert!(!shown.skips_fill());
    shown.fill(&vec![1, 2, 3]);
    assert_eq!(shown.data, vec![1, 2, 3]);
}

#[test]
fn log_fill_keeps_non_numeric_rows() {
    let mut log = empty_log("l");
    let cells = vec![
        "hello".to_string(),
        "7".to_string(),
        "x".to_string(),
        String::new(),
    ];
    let numeric = vec![false, true, false, false];
    log.fill(&cells, &numeric);
    assert_eq!(
        log.data,
        vec![
            (0, "hello".to_string()),
            (2, "x".to_string()),
            (3, String::new()),
        ]
    );
}

#[test]
fn log_lines_carry_axis_values() {
    let mut log = empty_log("l");
    log.fill(
        &vec!["hello".to_string(), "7".to_string(), "x".to_string(), String::new()],
        &vec![false, true, false, false],
    );
    let axis = XAxis {
        unit: "s".to_string(),
        name: "t (s)".to_string(),
        data: Some(vec![10, 20, 30, 40]),
    };
    log.apply_xaxis(&axis);
    assert_eq!(
        log.lines,
        Some(vec!["[10 s] hello".to_string(), "[30 s] x".to_string()])
    );
}

#[test]
fn log_lines_fall_back_to_row_index() {
    let mut log = empty_log("l");
    log.fill(
        &vec!["a".to_string(), "b".to_string()],
        &vec![false, false],
    );
    let axis = XAxis { unit: "ul".to_string(), name: "Index".to_string(), data: None };
    log.apply_xaxis(&axis);
    assert_eq!(log.lines, Some(vec!["[0] a".to_string(), "[1] b".to_string()]));
}

#[test]
fn duplicate_value_with_same_text_is_deduplicated() {
    let header = JSONHeader {
        topics: Vec::new(),
        values: vec![jvalue("n", "1"), jvalue("n", "1"), jvalue("m", "2")],
    };
    let (values, warns) = header.get_values().unwrap();
    assert_eq!(values.len(), 2);
    assert_eq!(values[0].name, "n");
    assert_eq!(values[1].name, "m");
    assert_eq!(
        warns,
        vec![Warning::DuplicateValueIgnored { name: "n".to_string() }]
    );
}

#[test]
fn duplicate_value_with_different_text_is_fatal() {
    let header = JSONHeader {
        topics: Vec::new(),
        values: vec![jvalue("n", "1"), jvalue("n", "2")],
    };
    match header.get_values() {
        Err(e) => assert_eq!(e, Error::DuplicateValue { name: "n".to_string() }),
        Ok(_) => panic!("expected a fatal error"),
    }
}

#[test]
fn shells_split_logs_from_channels() {
    let header = JSONHeader {
        topics: vec![jtopic("a", "v", &[]), jtopic("msgs", "", &["log"])],
        values: Vec::new(),
    };
    let (topics, logs, warns) = header.get_stream_shells().unwrap();
    assert_eq!(topics.len(), 1);
    assert_eq!(topics[0].name, "a");
    assert_eq!(logs.len(), 1);
    assert_eq!(logs[0].name, "msgs");
    assert_eq!(logs[0].attrs, vec![Attribute::Log]);
    assert!(warns.is_empty());
}

#[test]
fn duplicate_channel_name_is_fatal() {
    let header = JSONHeader {
        topics: vec![jtopic("a", "v", &[]), jtopic("a", "v", &[])],
        values: Vec::new(),
    };
    match header.get_stream_shells() {
        Err(e) => assert_eq!(e, Error::DuplicateTopic { name: "a".to_string() }),
        Ok(_) => panic!("expected a fatal error"),
    }
}

#[test]
fn log_with_extra_directives_is_fatal() {
    let header = JSONHeader {
        topics: vec![jtopic("msgs", "", &["log", "area"])],
        values: Vec::new(),
    };
    match header.get_stream_shells() {
        Err(e) => assert_eq!(e, Error::LogExtraAttributes { name: "msgs".to_string() }),
        Ok(_) => panic!("expected a fatal error"),
    }
}

#[test]
fn columns_are_split_from_rows() {
    let header = vec!["a".to_string(), "b".to_string()];
    let rows = vec![
        vec!["1".to_string(), "2".to_string()],
        vec!["3".to_string(), "4".to_string()],
    ];
    let cols = column_wise_csv_parse(header, rows).unwrap();
    assert_eq!(cols.len(), 2);
    assert_eq!(cols[0].0, "a");
    assert_eq!(cols[0].1, vec!["1".to_string(), "3".to_string()]);
    assert_eq!(cols[1].0, "b");
    assert_eq!(cols[1].1, vec!["2".to_string(), "4".to_string()]);
}

#[test]
fn short_row_is_fatal() {
    let header = vec!["a".to_string(), "b".to_string()];
    let rows = vec![
        vec!["1".to_string(), "2".to_string()],
        vec!["3".to_string()],
    ];
    match column_wise_csv_parse(header, rows) {
        Err(e) => assert_eq!(e, Error::RowLengthMismatch { found: 1, expected: 2 }),
        Ok(_) => panic!("expected a fatal error"),
    }
}

#[test]
fn find_column_resolves_names() {
    let body = vec![
        ("a".to_string(), vec!["1".to_string()]),
        ("b".to_string(), vec!["2".to_string()]),
        ("a".to_string(), vec!["3".to_string()]),
    ];
    assert_eq!(find_column(&body, "b"), Ok(1));
    assert_eq!(
        find_column(&body, "z"),
        Err(Error::MissingColumn { name: "z".to_string() })
    );
    assert_eq!(
        find_column(&body, "a"),
        Err(Error::DuplicateColumn { name: "a".to_string() })
    );
}
