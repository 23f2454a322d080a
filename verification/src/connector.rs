//! The Timber connector: from options and configurations to connections and operators.
use vstd::prelude::*;
use crate::api::ApiClient;
use crate::connection::clone_fields;
use crate::connection::Connection;
use crate::connection::ConnectionSchema;
use crate::connection::ConnectionSchemaView;
use crate::connection::ConnectionType;
use crate::connection::ConnectionView;
use crate::connection::ConnectorError;
use crate::connection::ConnectorErrorView;
use crate::connection::EmptyConfig;
use crate::connection::OperatorConfig;
use crate::connection::OperatorConfigView;
use crate::options;
use crate::options::ConnectorOptions;
use crate::options::OptionValue;
use crate::source::TimberFunc;
use crate::table::SourceOffset;
use crate::table::TableType;
use crate::table::TimberTable;
use crate::text::same_text;

verus! {

/// What is said of a connector to those who choose one.
#[derive(Debug)]
pub struct ConnectorMetadata {
    pub id: String,
    pub name: String,
    pub icon: String,
    pub description: String,
    pub enabled: bool,
    pub source: bool,
    pub sink: bool,
    pub testing: bool,
    pub hidden: bool,
    pub custom_schemas: bool,
    pub connection_config: Option<String>,
    pub table_config: String,
}

/// What is reported of a test of a connection.
#[derive(Debug)]
pub struct TestSourceMessage {
    pub error: bool,
    pub done: bool,
    pub message: String,
}

/// The connector.
#[derive(Debug, Clone, Copy)]
pub struct TimberConnector {}

/// Where a source starts that has `offset` set in its options: at the newest entry where it has
/// none.
pub open spec fn source_offset_of(offset: Option<String>) -> Result<
    SourceOffset,
    ConnectorErrorView,
> {
    match offset {
        None => Ok(SourceOffset::Latest),
        Some(value) => if value@ == "earliest"@ {
            Ok(SourceOffset::Earliest)
        } else if value@ == "latest"@ {
            Ok(SourceOffset::Latest)
        } else {
            Err(ConnectorErrorView::InvalidOffset { value: value@ })
        },
    }
}

/// What a table of type `type_text` is used for. The offset is read for a source only.
pub open spec fn table_type_of(
    options: Map<Seq<char>, OptionValue>,
    type_text: Seq<char>,
) -> Result<TableType, ConnectorErrorView> {
    if type_text == "source"@ {
        match options::optional_text(options, "source.offset"@) {
            Ok(offset) => match source_offset_of(offset) {
                Ok(offset) => Ok(TableType::Source { offset }),
                Err(error) => Err(error),
            },
            Err(error) => Err(error),
        }
    } else if type_text == "sink"@ {
        Ok(TableType::Sink {  })
    } else {
        Err(ConnectorErrorView::InvalidType)
    }
}

/// The table that `options` declare. The first option that is wrong decides the error, in the
/// order endpoint, topic, type, offset.
pub open spec fn table_of(options: Map<Seq<char>, OptionValue>) -> Result<
    TimberTable,
    ConnectorErrorView,
> {
    match options::optional_text(options, "endpoint"@) {
        Err(error) => Err(error),
        Ok(endpoint) => match options::required_text(options, "topic"@) {
            Err(error) => Err(error),
            Ok(topic) => match options::required_text(options, "type"@) {
                Err(error) => Err(error),
                Ok(type_text) => match table_type_of(options, type_text@) {
                    Err(error) => Err(error),
                    Ok(type_) => Ok(TimberTable { endpoint, topic, type_ }),
                },
            },
        },
    }
}

/// The options that are left when the table was read: those that were read are gone.
pub open spec fn options_left(options: Map<Seq<char>, OptionValue>) -> Map<
    Seq<char>,
    OptionValue,
> {
    let after_endpoint = options.remove("endpoint"@);
    let after_topic = after_endpoint.remove("topic"@);
    let after_type = after_topic.remove("type"@);
    if options::optional_text(options, "endpoint"@) is Err {
        after_endpoint
    } else if options::required_text(options, "topic"@) is Err {
        after_topic
    } else {
        match options::required_text(options, "type"@) {
            Ok(type_text) => if type_text@ == "source"@ {
                after_type.remove("source.offset"@)
            } else {
                after_type
            },
            Err(_) => after_type,
        }
    }
}

/// Which way data flows through a connection over a table.
pub open spec fn connection_type_of(type_: TableType) -> ConnectionType {
    match type_ {
        TableType::Source { .. } => ConnectionType::Source,
        TableType::Sink {  } => ConnectionType::Sink,
    }
}

/// What is said of a connection over `table`.
pub open spec fn description_of(table: TimberTable) -> Seq<char> {
    match table.type_ {
        TableType::Source { .. } => "TimberSource<"@ + table.topic@ + ">"@,
        TableType::Sink {  } => "TimberSink<"@ + table.topic@ + ">"@,
    }
}

/// The connection over `table`. There has to be a schema, and it has to have a format.
pub open spec fn connection_of(
    id: Option<i64>,
    name: Seq<char>,
    config: EmptyConfig,
    table: TimberTable,
    schema: Option<ConnectionSchemaView>,
) -> Result<ConnectionView, ConnectorErrorView> {
    match schema {
        None => Err(ConnectorErrorView::NoSchema),
        Some(schema) => match schema.format {
            None => Err(ConnectorErrorView::NoFormat),
            Some(format) => Ok(
                ConnectionView {
                    id,
                    connector: "timber"@,
                    name,
                    connection_type: connection_type_of(table.type_),
                    schema,
                    config: OperatorConfigView {
                        connection: config,
                        table,
                        rate_limit: None,
                        format: Some(format),
                        bad_data: schema.bad_data,
                        framing: schema.framing,
                        metadata_fields: schema.metadata_fields,
                    },
                    description: description_of(table),
                },
            ),
        },
    }
}

/// The schema as it is seen in contracts, where there is one.
pub open spec fn schema_view(schema: Option<&ConnectionSchema>) -> Option<ConnectionSchemaView> {
    match schema {
        Some(schema) => Some(schema@),
        None => None,
    }
}

/// `res` is what `expected` says.
pub open spec fn is_connection(
    res: Result<Connection, ConnectorError>,
    expected: Result<ConnectionView, ConnectorErrorView>,
) -> bool {
    match res {
        Ok(connection) => expected == Ok::<ConnectionView, ConnectorErrorView>(connection@),
        Err(error) => expected == Err::<ConnectionView, ConnectorErrorView>(error@),
    }
}

proof fn lemma_option_names_differ()
    ensures
        "endpoint"@ != "topic"@,
        "endpoint"@ != "type"@,
        "endpoint"@ != "source.offset"@,
        "topic"@ != "type"@,
        "topic"@ != "source.offset"@,
        "type"@ != "source.offset"@,
{
    reveal_strlit("endpoint");
    reveal_strlit("topic");
    reveal_strlit("type");
    reveal_strlit("source.offset");
    assert("endpoint"@.len() == 8);
    assert("topic"@.len() == 5);
    assert("type"@.len() == 4);
    assert("source.offset"@.len() == 13);
}

impl TimberConnector {
    /// The name that the connector goes by.
    pub fn name(&self) -> (res: &'static str)
        ensures
            res@ == "timber"@,
    {
        "timber"
    }

    /// What is said of the connector. `icon` and `table_schema` are the texts of its icon and
    /// of the schema of its tables.
    pub fn metadata(&self, icon: &str, table_schema: &str) -> (res: ConnectorMetadata)
        ensures
            res.id@ == "timber"@,
            res.name@ == "Flume"@,
            res.icon@ == icon@,
            res.description@ == "Read and write from a Timber endpoint"@,
            res.enabled,
            res.source,
            !res.sink,
            res.testing,
            !res.hidden,
            res.custom_schemas,
            res.connection_config is None,
            res.table_config@ == table_schema@,
    {
        ConnectorMetadata {
            id: "timber".to_owned(),
            name: "Flume".to_owned(),
            icon: icon.to_owned(),
            description: "Read and write from a Timber endpoint".to_owned(),
            enabled: true,
            source: true,
            sink: false,
            testing: true,
            hidden: false,
            custom_schemas: true,
            connection_config: None,
            table_config: table_schema.to_owned(),
        }
    }

    /// The type that the connector gives for a table: a source, whatever the table is used for.
    pub fn table_type(&self, config: EmptyConfig, table: TimberTable) -> (res: ConnectionType)
        ensures
            res == ConnectionType::Source,
    {
        match table.type_ {
            TableType::Source { .. } => ConnectionType::Source,
            TableType::Sink {  } => ConnectionType::Source,
        }
    }

    /// The schema of a table: the one that was declared, if any.
    pub fn get_schema(
        &self,
        config: EmptyConfig,
        table: TimberTable,
        schema: Option<&ConnectionSchema>,
    ) -> (res: Option<ConnectionSchema>)
        ensures
            res is Some == schema is Some,
            res matches Some(same) ==> Some(same@) == schema_view(schema),
            schema matches Some(given) ==> {
                &&& res matches Some(same)
                &&& same.format == given.format
                &&& same.bad_data == given.bad_data
                &&& same.framing == given.framing
                &&& same.metadata_fields@ == given.metadata_fields@
                &&& same.definition == given.definition
            },
    {
        match schema {
            Some(schema) => Some(schema.clone()),
            None => None,
        }
    }

    /// What a test of a connection reports: it always succeeds.
    pub fn test(
        &self,
        name: &str,
        config: EmptyConfig,
        table: TimberTable,
        schema: Option<&ConnectionSchema>,
    ) -> (res: TestSourceMessage)
        ensures
            !res.error,
            res.done,
            res.message@ == "Successfully validated connection"@,
    {
        TestSourceMessage {
            error: false,
            done: true,
            message: "Successfully validated connection".to_owned(),
        }
    }

    /// Reads the table that `options` declare.
    pub fn table_from_options(&self, options: &mut ConnectorOptions) -> (res: Result<
        TimberTable,
        ConnectorError,
    >)
        ensures
            options::is_outcome(res, table_of(old(options)@)),
            match table_of(old(options)@) {
                Ok(table) => res == Ok::<TimberTable, ConnectorError>(table),
                Err(expected) => res matches Err(error) && error@ == expected,
            },
            res matches Ok(table) ==> {
                &&& old(options)@.contains_key("endpoint"@) ==> (table.endpoint matches Some(
                    endpoint,
                ) && old(options)@["endpoint"@] == OptionValue::Text(endpoint))
                &&& !old(options)@.contains_key("endpoint"@) ==> table.endpoint is None
                &&& old(options)@.contains_key("topic"@)
                &&& old(options)@["topic"@] == OptionValue::Text(table.topic)
                &&& old(options)@.contains_key("type"@)
                &&& old(options)@["type"@] matches OptionValue::Text(type_text) && type_text@
                    == match table.type_ {
                    TableType::Source { .. } => "source"@,
                    TableType::Sink {  } => "sink"@,
                }
                &&& table.type_ matches TableType::Source { offset } ==> if old(
                    options,
                )@.contains_key("source.offset"@) {
                    old(options)@["source.offset"@] matches OptionValue::Text(value) && value@
                        == match offset {
                        SourceOffset::Earliest => "earliest"@,
                        SourceOffset::Latest => "latest"@,
                    }
                } else {
                    offset == SourceOffset::Latest
                }
            },
            final(options)@ == options_left(old(options)@),
    {
        proof {
            lemma_option_names_differ();
        }
        let endpoint = match options.pull_opt_str("endpoint") {
            Ok(endpoint) => endpoint,
            Err(error) => return Err(error),
        };
        let topic = match options.pull_str("topic") {
            Ok(topic) => topic,
            Err(error) => return Err(error),
        };
        let type_text = match options.pull_str("type") {
            Ok(type_text) => type_text,
            Err(error) => return Err(error),
        };
        let type_ = if same_text(type_text.as_str(), "source") {
            let offset = match options.pull_opt_str("source.offset") {
                Ok(offset) => offset,
                Err(error) => return Err(error),
            };
            let offset = match offset {
                None => SourceOffset::Latest,
                Some(value) => if same_text(value.as_str(), "earliest") {
                    SourceOffset::Earliest
                } else if same_text(value.as_str(), "latest") {
                    SourceOffset::Latest
                } else {
                    return Err(ConnectorError::InvalidOffset { value });
                },
            };
            TableType::Source { offset }
        } else if same_text(type_text.as_str(), "sink") {
            TableType::Sink {  }
        } else {
            return Err(ConnectorError::InvalidType);
        };
        Ok(TimberTable { endpoint, topic, type_ })
    }

    /// Makes a connection from the options of a table.
    pub fn from_options(
        &self,
        name: &str,
        options: &mut ConnectorOptions,
        schema: Option<&ConnectionSchema>,
    ) -> (res: Result<Connection, ConnectorError>)
        ensures
            is_connection(
                res,
                match table_of(old(options)@) {
                    Ok(table) => connection_of(
                        None,
                        name@,
                        EmptyConfig {  },
                        table,
                        schema_view(schema),
                    ),
                    Err(error) => Err(error),
                },
            ),
            match table_of(old(options)@) {
                Ok(table) => match schema {
                    Some(given) => if given.format is Some {
                        &&& res matches Ok(connection)
                        &&& connection.config.table == table
                        &&& connection.config.connection == EmptyConfig {  }
                        &&& connection.config.rate_limit is None
                        &&& connection.config.format == given.format
                        &&& connection.config.bad_data == given.bad_data
                        &&& connection.config.framing == given.framing
                        &&& connection.config.metadata_fields@ == given.metadata_fields@
                        &&& connection.schema.format == given.format
                        &&& connection.schema.bad_data == given.bad_data
                        &&& connection.schema.framing == given.framing
                        &&& connection.schema.metadata_fields@ == given.metadata_fields@
                        &&& connection.schema.definition == given.definition
                    } else {
                        res == Err::<Connection, ConnectorError>(ConnectorError::NoFormat)
                    },
                    None => res == Err::<Connection, ConnectorError>(ConnectorError::NoSchema),
                },
                Err(expected) => res matches Err(error) && error@ == expected,
            },
            res matches Ok(connection) ==> {
                &&& old(options)@.contains_key("endpoint"@) ==> (connection.config.table.endpoint matches Some(
                    endpoint,
                ) && old(options)@["endpoint"@] == OptionValue::Text(endpoint))
                &&& !old(options)@.contains_key("endpoint"@) ==> connection.config.table.endpoint is None
                &&& old(options)@.contains_key("topic"@)
                &&& old(options)@["topic"@] == OptionValue::Text(connection.config.table.topic)
                &&& old(options)@.contains_key("type"@)
                &&& old(options)@["type"@] matches OptionValue::Text(type_text) && type_text@
                    == match connection.config.table.type_ {
                    TableType::Source { .. } => "source"@,
                    TableType::Sink {  } => "sink"@,
                }
                &&& connection.config.table.type_ matches TableType::Source { offset } ==> if old(
                    options,
                )@.contains_key("source.offset"@) {
                    old(options)@["source.offset"@] matches OptionValue::Text(value) && value@
                        == match offset {
                        SourceOffset::Earliest => "earliest"@,
                        SourceOffset::Latest => "latest"@,
                    }
                } else {
                    offset == SourceOffset::Latest
                }
            },
            res matches Ok(connection) ==> {
                &&& connection.id is None
                &&& connection.connector@ == "timber"@
                &&& connection.name@ == name@
                &&& (connection.connection_type == ConnectionType::Source)
                    == (connection.config.table.type_ is Source)
                &&& connection.description@ == (match connection.config.table.type_ {
                    TableType::Source { .. } => "TimberSource<"@,
                    TableType::Sink {  } => "TimberSink<"@,
                }) + connection.config.table.topic@ + ">"@
            },
            final(options)@ == options_left(old(options)@),
    {
        match self.table_from_options(options) {
            Ok(table) => self.from_config(None, name, EmptyConfig {  }, table, schema),
            Err(error) => Err(error),
        }
    }

    /// Makes a connection from the configuration of a table.
    pub fn from_config(
        &self,
        id: Option<i64>,
        name: &str,
        config: EmptyConfig,
        table: TimberTable,
        schema: Option<&ConnectionSchema>,
    ) -> (res: Result<Connection, ConnectorError>)
        ensures
            is_connection(res, connection_of(id, name@, config, table, schema_view(schema))),
            schema is None ==> res == Err::<Connection, ConnectorError>(ConnectorError::NoSchema),
            schema matches Some(given) ==> (given.format is None ==> res == Err::<
                Connection,
                ConnectorError,
            >(ConnectorError::NoFormat)),
            schema matches Some(given) ==> (given.format is Some ==> {
                &&& res matches Ok(connection)
                &&& connection.id == id
                &&& connection.connector@ == "timber"@
                &&& connection.name@ == name@
                &&& connection.connection_type == match table.type_ {
                    TableType::Source { .. } => ConnectionType::Source,
                    TableType::Sink {  } => ConnectionType::Sink,
                }
                &&& connection.schema.format == given.format
                &&& connection.schema.bad_data == given.bad_data
                &&& connection.schema.framing == given.framing
                &&& connection.schema.metadata_fields@ == given.metadata_fields@
                &&& connection.schema.definition == given.definition
                &&& connection.config.connection == config
                &&& connection.config.table == table
                &&& connection.config.rate_limit is None
                &&& connection.config.format == given.format
                &&& connection.config.bad_data == given.bad_data
                &&& connection.config.framing == given.framing
                &&& connection.config.metadata_fields@ == given.metadata_fields@
                &&& connection.description@ == (match table.type_ {
                    TableType::Source { .. } => "TimberSource<"@,
                    TableType::Sink {  } => "TimberSink<"@,
                }) + table.topic@ + ">"@
            }),
    {
        let (connection_type, front) = match table.type_ {
            TableType::Source { .. } => (ConnectionType::Source, "TimberSource<"),
            TableType::Sink {  } => (ConnectionType::Sink, "TimberSink<"),
        };
        let mut description = front.to_owned();
        description.append(table.topic.as_str());
        description.append(">");

        let schema = match schema {
            Some(schema) => schema.clone(),
            None => return Err(ConnectorError::NoSchema),
        };
        let format = match &schema.format {
            Some(format) => format.clone(),
            None => return Err(ConnectorError::NoFormat),
        };
        let config = OperatorConfig {
            connection: config,
            table,
            rate_limit: None,
            format: Some(format),
            bad_data: schema.bad_data.clone(),
            framing: schema.framing.clone(),
            metadata_fields: clone_fields(&schema.metadata_fields),
        };
        Ok(
            Connection {
                id,
                connector: self.name().to_owned(),
                name: name.to_owned(),
                connection_type,
                schema,
                config,
                description,
            },
        )
    }

    /// Makes the operator that reads `table`, with requests sent by `client`. There is none for
    /// a sink. A source has to have an endpoint.
    pub fn make_operator(
        &self,
        profile: EmptyConfig,
        table: TimberTable,
        config: OperatorConfig,
        client: reqwest::Client,
    ) -> (res: Result<TimberFunc, ConnectorError>)
        requires
            table.type_ is Source ==> table.endpoint is Some,
        ensures
            table.type_ is Sink ==> res == Err::<TimberFunc, ConnectorError>(
                ConnectorError::SinkOperator,
            ),
            table.type_ is Source ==> {
                &&& res is Ok
                &&& res->Ok_0.spec_topic() == table.topic@
                &&& res->Ok_0.spec_api_client().spec_endpoint() == table.endpoint->Some_0@
                &&& res->Ok_0.spec_api_client().spec_client() == client
            },
    {
        match table.type_ {
            TableType::Source { .. } => Ok(
                TimberFunc::new(table.topic, ApiClient::new(table.endpoint.unwrap(), client)),
            ),
            TableType::Sink {  } => Err(ConnectorError::SinkOperator),
        }
    }
}

/// Reading a table takes away options that belong to tables, and nothing else.
pub proof fn law_other_options_are_left(options: Map<Seq<char>, OptionValue>, name: Seq<char>)
    requires
        name != "endpoint"@,
        name != "topic"@,
        name != "type"@,
        name != "source.offset"@,
    ensures
        options_left(options).contains_key(name) == options.contains_key(name),
        options.contains_key(name) ==> options_left(options)[name] == options[name],
{
}

/// When a table was read, its endpoint, topic and type are gone from the options, and its
/// offset where it is a source.
pub proof fn law_table_options_are_used_up(options: Map<Seq<char>, OptionValue>)
    requires
        table_of(options) is Ok,
    ensures
        !options_left(options).contains_key("endpoint"@),
        !options_left(options).contains_key("topic"@),
        !options_left(options).contains_key("type"@),
        table_of(options)->Ok_0.type_ is Source ==> !options_left(options).contains_key(
            "source.offset"@,
        ),
{
}

/// A source that names no offset starts where one starts that names the latest, and leaves the
/// same options.
pub proof fn law_offset_defaults_to_latest(
    options: Map<Seq<char>, OptionValue>,
    latest: String,
)
    requires
        !options.contains_key("source.offset"@),
        latest@ == "latest"@,
    ensures
        table_of(options) == table_of(
            options.insert("source.offset"@, OptionValue::Text(latest)),
        ),
        table_of(options) matches Ok(table) ==> (table.type_ matches TableType::Source { offset }
            ==> offset == SourceOffset::Latest),
        table_of(options) matches Ok(table) ==> (table.type_ is Source ==> options_left(options)
            == options_left(options.insert("source.offset"@, OptionValue::Text(latest)))),
{
    lemma_option_names_differ();
    reveal_strlit("earliest");
    reveal_strlit("latest");
    assert("earliest"@.len() == 8);
    assert("latest"@.len() == 6);
    let named = options.insert("source.offset"@, OptionValue::Text(latest));
    if table_of(options) is Ok && table_of(options)->Ok_0.type_ is Source {
        assert(options_left(options) =~= options_left(named));
    }
}

/// A connection has the type and the topic of its table, and its operator is started with the
/// format, bad data handling, framing and metadata fields of its schema.
pub proof fn law_connection_agrees_with_table_and_schema(
    id: Option<i64>,
    name: Seq<char>,
    config: EmptyConfig,
    table: TimberTable,
    schema: Option<ConnectionSchemaView>,
)
    ensures
        connection_of(id, name, config, table, schema) is Ok <==> schema is Some
            && schema->Some_0.format is Some,
        connection_of(id, name, config, table, schema) matches Ok(connection) ==> {
            &&& Some(connection.schema) == schema
            &&& connection.config.table == table
            &&& connection.config.format == connection.schema.format
            &&& connection.config.bad_data == connection.schema.bad_data
            &&& connection.config.framing == connection.schema.framing
            &&& connection.config.metadata_fields == connection.schema.metadata_fields
            &&& (connection.connection_type == ConnectionType::Source) == (table.type_ is Source)
        },
{
}

/// A table that is read from options has the text of the option `endpoint` for its endpoint, and none
/// exactly where that is not set; and the text of the option `topic` for its topic: whatever its type
/// and its offset are. These are what the options `type` and `source.offset` say.
pub proof fn law_table_has_what_its_options_say(options: Map<Seq<char>, OptionValue>)
    ensures
        table_of(options) matches Ok(table) ==> {
            &&& table.endpoint is None <==> !options.contains_key("endpoint"@)
            &&& table.endpoint matches Some(endpoint) ==> options["endpoint"@] == OptionValue::Text(
                endpoint,
            )
            &&& options.contains_key("topic"@)
            &&& options["topic"@] == OptionValue::Text(table.topic)
            &&& options.contains_key("type"@)
            &&& options["type"@] matches OptionValue::Text(type_text) && {
                &&& type_text@ == "source"@ <==> table.type_ is Source
                &&& type_text@ == "sink"@ <==> table.type_ is Sink
            }
            &&& table.type_ matches TableType::Source { offset } ==> {
                ||| offset == SourceOffset::Latest && !options.contains_key("source.offset"@)
                ||| options.contains_key("source.offset"@) && (options["source.offset"@] matches
                    OptionValue::Text(value) && {
                    ||| value@ == "earliest"@ && offset == SourceOffset::Earliest
                    ||| value@ == "latest"@ && offset == SourceOffset::Latest
                })
            }
        },
{
    lemma_option_values_differ();
}

proof fn lemma_option_values_differ()
    ensures
        "source"@ != "sink"@,
        "earliest"@ != "latest"@,
{
    reveal_strlit("source");
    reveal_strlit("sink");
    reveal_strlit("earliest");
    reveal_strlit("latest");
    assert("source"@.len() == 6);
    assert("sink"@.len() == 4);
    assert("earliest"@.len() == 8);
    assert("latest"@.len() == 6);
}

/// Options that were set to texts make the table of those texts: the endpoint and the topic as they
/// are, for every text; and nothing else that is set makes a difference.
pub proof fn law_table_is_made_of_its_options(
    others: Map<Seq<char>, OptionValue>,
    endpoint: String,
    topic: String,
    type_text: String,
    offset: String,
)
    ensures
        ({
            let sink = others.insert("endpoint"@, OptionValue::Text(endpoint)).insert(
                "topic"@,
                OptionValue::Text(topic),
            ).insert("type"@, OptionValue::Text(type_text));
            let set = sink.insert("source.offset"@, OptionValue::Text(offset));
            let unset = sink.remove("source.offset"@);
            &&& type_text@ == "sink"@ ==> table_of(sink) == Ok::<TimberTable, ConnectorErrorView>(
                TimberTable { endpoint: Some(endpoint), topic, type_: TableType::Sink {  } },
            )
            &&& type_text@ == "source"@ && offset@ == "earliest"@ ==> table_of(set) == Ok::<
                TimberTable,
                ConnectorErrorView,
            >(
                TimberTable {
                    endpoint: Some(endpoint),
                    topic,
                    type_: TableType::Source { offset: SourceOffset::Earliest },
                },
            )
            &&& type_text@ == "source"@ && offset@ == "latest"@ ==> table_of(set) == Ok::<
                TimberTable,
                ConnectorErrorView,
            >(
                TimberTable {
                    endpoint: Some(endpoint),
                    topic,
                    type_: TableType::Source { offset: SourceOffset::Latest },
                },
            )
            &&& type_text@ == "source"@ ==> table_of(unset) == Ok::<
                TimberTable,
                ConnectorErrorView,
            >(
                TimberTable {
                    endpoint: Some(endpoint),
                    topic,
                    type_: TableType::Source { offset: SourceOffset::Latest },
                },
            )
        }),
{
    lemma_option_names_differ();
    lemma_option_values_differ();
}

/// A table without an endpoint is read as one with an endpoint is, but for the endpoint.
pub proof fn law_endpoint_changes_nothing_else(
    options: Map<Seq<char>, OptionValue>,
    endpoint: String,
)
    ensures
        ({
            let without = table_of(options.remove("endpoint"@));
            let with = table_of(options.insert("endpoint"@, OptionValue::Text(endpoint)));
            match without {
                Ok(table) => with matches Ok(other) && {
                    &&& table.endpoint is None
                    &&& other.endpoint == Some(endpoint)
                    &&& other.topic == table.topic
                    &&& other.type_ == table.type_
                },
                Err(error) => with == Err::<TimberTable, ConnectorErrorView>(error),
            }
        }),
{
    lemma_option_names_differ();
}

/// What a table is read from are the four options of tables, and no other.
pub proof fn law_other_options_make_no_difference(
    a: Map<Seq<char>, OptionValue>,
    b: Map<Seq<char>, OptionValue>,
)
    requires
        forall|name: Seq<char>|
            name == "endpoint"@ || name == "topic"@ || name == "type"@ || name == "source.offset"@
                ==> #[trigger] a.contains_key(name) == b.contains_key(name),
        forall|name: Seq<char>|
            (name == "endpoint"@ || name == "topic"@ || name == "type"@ || name
                == "source.offset"@) && #[trigger] a.contains_key(name) ==> a[name] == b[name],
    ensures
        table_of(a) == table_of(b),
{
    assert(a.contains_key("endpoint"@) == b.contains_key("endpoint"@));
    assert(a.contains_key("topic"@) == b.contains_key("topic"@));
    assert(a.contains_key("type"@) == b.contains_key("type"@));
    assert(a.contains_key("source.offset"@) == b.contains_key("source.offset"@));
}

/// The first wrong option decides the error, in the order endpoint, topic, type, offset; and without
/// one the table can be read.
pub proof fn law_first_wrong_option_decides(options: Map<Seq<char>, OptionValue>)
    ensures
        ({
            let res = table_of(options);
            let endpoint = options["endpoint"@];
            let topic = options["topic"@];
            let type_ = options["type"@];
            let offset = options["source.offset"@];
            if options.contains_key("endpoint"@) && endpoint is Other {
                res matches Err(ConnectorErrorView::OptionNotText { name, value }) && name
                    == "endpoint"@ && value == endpoint->Other_0@
            } else if !options.contains_key("topic"@) {
                res matches Err(ConnectorErrorView::OptionMissing { name }) && name == "topic"@
            } else if topic is Other {
                res matches Err(ConnectorErrorView::OptionNotText { name, value }) && name
                    == "topic"@ && value == topic->Other_0@
            } else if !options.contains_key("type"@) {
                res matches Err(ConnectorErrorView::OptionMissing { name }) && name == "type"@
            } else if type_ is Other {
                res matches Err(ConnectorErrorView::OptionNotText { name, value }) && name
                    == "type"@ && value == type_->Other_0@
            } else if type_->Text_0@ != "source"@ && type_->Text_0@ != "sink"@ {
                res matches Err(ConnectorErrorView::InvalidType)
            } else if type_->Text_0@ == "source"@ && options.contains_key("source.offset"@)
                && offset is Other {
                res matches Err(ConnectorErrorView::OptionNotText { name, value }) && name
                    == "source.offset"@ && value == offset->Other_0@
            } else if type_->Text_0@ == "source"@ && options.contains_key("source.offset"@)
                && offset->Text_0@ != "earliest"@ && offset->Text_0@ != "latest"@ {
                res matches Err(ConnectorErrorView::InvalidOffset { value }) && value
                    == offset->Text_0@
            } else {
                res is Ok
            }
        }),
{
    lemma_option_values_differ();
}

/// Reading a table takes away the options that it looked at, one after the other up to the first that
/// is wrong, and leaves the others as they are.
pub proof fn law_options_are_taken_in_order(options: Map<Seq<char>, OptionValue>)
    ensures
        ({
            let left = options_left(options);
            let endpoint_read = options.contains_key("endpoint"@) ==> options["endpoint"@] is Text;
            let topic_read = options.contains_key("topic"@) && options["topic"@] is Text;
            let is_source = options.contains_key("type"@) && (options["type"@] matches
                OptionValue::Text(text) && text@ == "source"@);
            &&& !left.contains_key("endpoint"@)
            &&& left.contains_key("topic"@) == (options.contains_key("topic"@) && !endpoint_read)
            &&& left.contains_key("type"@) == (options.contains_key("type"@) && !(endpoint_read
                && topic_read))
            &&& left.contains_key("source.offset"@) == (options.contains_key("source.offset"@)
                && !(endpoint_read && topic_read && is_source))
            &&& forall|name: Seq<char>| #[trigger]
                left.contains_key(name) ==> options.contains_key(name) && left[name] == options[name]
        }),
{
    lemma_option_names_differ();
}

/// A connection is made exactly where there is a schema with a format, and has the identifier, the
/// name, the table and the schema that it was made of. Its description holds its topic.
pub proof fn law_connection_is_made_of_its_parts(
    id: Option<i64>,
    name: Seq<char>,
    config: EmptyConfig,
    table: TimberTable,
    schema: ConnectionSchemaView,
)
    ensures
        connection_of(id, name, config, table, None) == Err::<ConnectionView, ConnectorErrorView>(
            ConnectorErrorView::NoSchema,
        ),
        schema.format is None ==> connection_of(id, name, config, table, Some(schema)) == Err::<
            ConnectionView,
            ConnectorErrorView,
        >(ConnectorErrorView::NoFormat),
        schema.format is Some ==> {
            &&& connection_of(id, name, config, table, Some(schema)) matches Ok(connection)
            &&& connection.id == id
            &&& connection.connector == "timber"@
            &&& connection.name == name
            &&& connection.schema == schema
            &&& connection.config.connection == config
            &&& connection.config.table == table
            &&& connection.config.rate_limit is None
            &&& connection.config.format == schema.format
            &&& connection.config.bad_data == schema.bad_data
            &&& connection.config.framing == schema.framing
            &&& connection.config.metadata_fields == schema.metadata_fields
            &&& table.type_ is Source ==> connection.connection_type == ConnectionType::Source
                && connection.description == "TimberSource<"@ + table.topic@ + ">"@
            &&& table.type_ is Sink ==> connection.connection_type == ConnectionType::Sink
                && connection.description == "TimberSink<"@ + table.topic@ + ">"@
        },
{
}

} // verus!
