use timber::connection::{
    BadData, ConnectionSchema, ConnectionType, ConnectorError, EmptyConfig, Format, Framing,
    MetadataField, OperatorConfig, RawStringFormat,
};
use timber::connector::TimberConnector;
use timber::options::{ConnectorOptions, OptionValue};
use timber::table::{SourceOffset, TableType, TimberTable};

const CONNECTOR: TimberConnector = TimberConnector {};

fn options(pairs: &[(&str, &str)]) -> ConnectorOptions {
    let mut options = ConnectorOptions::new();
    for (name, value) in pairs {
        options.set(name.to_string(), OptionValue::Text(value.to_string()));
    }
    options
}

fn schema(format: Option<Format>) -> ConnectionSchema {
    ConnectionSchema {
        format,
        bad_data: Some(BadData("drop".to_string())),
        framing: Some(Framing("newline".to_string())),
        metadata_fields: vec![MetadataField {
            field_name: "ts".to_string(),
            key: "timestamp".to_string(),
        }],
        definition: "raw".to_string(),
    }
}

fn raw_string() -> ConnectionSchema {
    schema(Some(Format::RawString(RawStringFormat {})))
}

fn table(type_: TableType, endpoint: Option<&str>) -> TimberTable {
    TimberTable {
        endpoint: endpoint.map(|e| e.to_string()),
        topic: "orders".to_string(),
        type_,
    }
}

fn source() -> TableType {
    TableType::Source { offset: SourceOffset::Latest }
}

fn config(table: TimberTable) -> OperatorConfig {
    OperatorConfig {
        connection: EmptyConfig {},
        table,
        rate_limit: None,
        format: None,
        bad_data: None,
        framing: None,
        metadata_fields: vec![],
    }
}

fn refusal(options: &mut ConnectorOptions) -> String {
    CONNECTOR
        .from_options("c", options, Some(&raw_string()))
        .unwrap_err()
        .message()
}

#[test]
fn metadata() {
    assert_eq!(CONNECTOR.name(), "timber");
    let metadata = CONNECTOR.metadata("<svg/>", "{}");
    assert_eq!(metadata.id, "timber");
    assert_eq!(metadata.name, "Flume");
    assert_eq!(metadata.icon, "<svg/>");
    assert_eq!(metadata.description, "Read and write from a Timber endpoint");
    assert_eq!(metadata.table_config, "{}");
    assert!(metadata.enabled && metadata.source && metadata.testing && metadata.custom_schemas);
    assert!(!metadata.sink && !metadata.hidden);
    assert_eq!(metadata.connection_config, None);
}

#[test]
fn a_test_always_succeeds() {
    let message = CONNECTOR.test("c", EmptyConfig {}, table(TableType::Sink {}, None), None);
    assert!(message.done);
    assert!(!message.error);
    assert_eq!(message.message, "Successfully validated connection");
}

#[test]
fn the_type_of_every_table_is_source() {
    assert_eq!(
        CONNECTOR.table_type(EmptyConfig {}, table(source(), None)),
        ConnectionType::Source
    );
    assert_eq!(
        CONNECTOR.table_type(EmptyConfig {}, table(TableType::Sink {}, None)),
        ConnectionType::Source
    );
}

#[test]
fn the_schema_is_the_declared_one() {
    let declared = raw_string();
    let same = CONNECTOR
        .get_schema(EmptyConfig {}, table(source(), None), Some(&declared))
        .unwrap();
    assert!(matches!(same.format, Some(Format::RawString(_))));
    assert_eq!(same.framing.unwrap().0, "newline");
    assert_eq!(same.metadata_fields[0].key, "timestamp");
    assert_eq!(same.definition, "raw");
    assert!(CONNECTOR
        .get_schema(EmptyConfig {}, table(source(), None), None)
        .is_none());
}

#[test]
fn a_source_is_made_from_options() {
    let mut options = options(&[
        ("endpoint", "http://host"),
        ("topic", "orders"),
        ("type", "source"),
        ("source.offset", "earliest"),
        ("format", "raw_string"),
    ]);
    let connection = CONNECTOR
        .from_options("conn", &mut options, Some(&raw_string()))
        .unwrap();
    assert_eq!(connection.id, None);
    assert_eq!(connection.connector, "timber");
    assert_eq!(connection.name, "conn");
    assert_eq!(connection.connection_type, ConnectionType::Source);
    assert_eq!(connection.description, "TimberSource<orders>");
    assert_eq!(connection.config.table.endpoint, Some("http://host".to_string()));
    assert_eq!(connection.config.table.topic, "orders");
    assert_eq!(
        connection.config.table.type_,
        TableType::Source { offset: SourceOffset::Earliest }
    );
    assert_eq!(connection.config.rate_limit, None);
    assert!(matches!(connection.config.format, Some(Format::RawString(_))));
    assert_eq!(connection.config.bad_data.unwrap().0, "drop");
    assert_eq!(connection.config.framing.unwrap().0, "newline");
    assert_eq!(connection.config.metadata_fields[0].field_name, "ts");
    assert_eq!(connection.schema.definition, "raw");
    for used in ["endpoint", "topic", "type", "source.offset"] {
        assert!(!options.contains(used));
    }
    assert!(options.contains("format"));
}

#[test]
fn the_offset_defaults_to_the_latest() {
    let latest = TableType::Source { offset: SourceOffset::Latest };
    let mut without = options(&[("topic", "t"), ("type", "source")]);
    let mut with = options(&[("topic", "t"), ("type", "source"), ("source.offset", "latest")]);
    assert_eq!(CONNECTOR.table_from_options(&mut without).unwrap().type_, latest);
    assert_eq!(CONNECTOR.table_from_options(&mut with).unwrap().type_, latest);
}

#[test]
fn a_sink_leaves_the_offset_alone() {
    let mut options = options(&[("topic", "t"), ("type", "sink"), ("source.offset", "x")]);
    let connection = CONNECTOR
        .from_options("c", &mut options, Some(&schema(Some(Format::Other("json".to_string())))))
        .unwrap();
    assert_eq!(connection.connection_type, ConnectionType::Sink);
    assert_eq!(connection.description, "TimberSink<t>");
    assert_eq!(connection.config.table.endpoint, None);
    assert!(matches!(connection.config.format, Some(Format::Other(text)) if text == "json"));
    assert!(options.contains("source.offset"));
}

#[test]
fn wrong_options_are_refused() {
    assert_eq!(
        refusal(&mut options(&[("type", "source")])),
        "required option 'topic' not set"
    );
    assert_eq!(
        refusal(&mut options(&[("topic", "t")])),
        "required option 'type' not set"
    );
    assert_eq!(
        refusal(&mut options(&[("topic", "t"), ("type", "Source")])),
        "type must be one of 'source' or 'sink'"
    );
    assert_eq!(
        refusal(&mut options(&[("topic", "t"), ("type", "source"), ("source.offset", "newest")])),
        "invalid value for source.offset 'newest'"
    );
    let mut wrong = options(&[("topic", "t"), ("type", "source")]);
    wrong.set("endpoint".to_string(), OptionValue::Other("12".to_string()));
    assert_eq!(
        refusal(&mut wrong),
        "expected with option 'endpoint' to be a single-quoted string, but it was `12`"
    );
    assert!(!wrong.contains("endpoint"));
    assert!(wrong.contains("topic"));
}

#[test]
fn a_connection_needs_a_schema_with_a_format() {
    let refused = CONNECTOR.from_config(None, "c", EmptyConfig {}, table(source(), None), None);
    assert_eq!(refused.unwrap_err().message(), "no schema defined for Timber connection");
    let refused = CONNECTOR.from_config(
        Some(3),
        "c",
        EmptyConfig {},
        table(source(), None),
        Some(&schema(None)),
    );
    assert_eq!(refused.unwrap_err().message(), "'format' must be set for Timber connection");
    let made = CONNECTOR.from_config(
        Some(3),
        "c",
        EmptyConfig {},
        table(source(), None),
        Some(&raw_string()),
    );
    assert_eq!(made.unwrap().id, Some(3));
}

#[test]
fn an_operator_reads_the_table_of_a_source() {
    let operator = CONNECTOR
        .make_operator(
            EmptyConfig {},
            table(source(), Some("http://host")),
            config(table(source(), None)),
            reqwest::Client::new(),
        )
        .unwrap();
    assert_eq!(operator.name(), "timber-orders");
    assert_eq!(operator.api_client().get_topic_url("x"), "http://host/topics/x");
}

#[test]
fn a_sink_has_no_operator() {
    let refused = CONNECTOR.make_operator(
        EmptyConfig {},
        table(TableType::Sink {}, None),
        config(table(TableType::Sink {}, None)),
        reqwest::Client::new(),
    );
    assert!(matches!(refused, Err(ConnectorError::SinkOperator)));
    assert_eq!(
        ConnectorError::SinkOperator.message(),
        "invalid type for sink operator"
    );
}

#[test]
fn offsets_are_those_of_the_log() {
    assert_eq!(SourceOffset::Earliest.offset(), fluvio::Offset::beginning());
    assert_eq!(SourceOffset::Latest.offset(), fluvio::Offset::end());
    assert_ne!(SourceOffset::Earliest.offset(), SourceOffset::Latest.offset());
}

#[test]
fn options_are_pulled_once() {
    let mut options = options(&[("topic", "a")]);
    options.set("topic".to_string(), OptionValue::Text("b".to_string()));
    assert_eq!(options.pull_str("topic").unwrap(), "b");
    assert_eq!(options.pull_opt_str("topic").unwrap(), None);
    assert!(matches!(
        options.pull_str("topic"),
        Err(ConnectorError::OptionMissing { name }) if name == "topic"
    ));
}
