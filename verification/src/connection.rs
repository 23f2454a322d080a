//! Connections: what a connector makes of its configuration.
use vstd::prelude::*;
use crate::table::TimberTable;

verus! {

/// Which way data flows through a connection.
#[derive(Debug, Clone, Copy, PartialEq, Eq, Structural)]
pub enum ConnectionType {
    Source,
    Sink,
}

/// A configuration without settings.
#[derive(Debug, Clone, Copy, PartialEq, Eq, Structural)]
pub struct EmptyConfig {}

/// The settings of the raw string format: there are none.
#[derive(Debug, Clone, Copy, PartialEq, Eq, Structural)]
pub struct RawStringFormat {}

/// How messages are read.
#[derive(Debug)]
pub enum Format {
    /// Each message is one string.
    RawString(RawStringFormat),
    /// Another format, by its description.
    Other(String),
}

/// What to do with data that cannot be read, by its description.
#[derive(Debug)]
pub struct BadData(pub String);

/// How messages are cut into records, by its description.
#[derive(Debug)]
pub struct Framing(pub String);

/// A field that is filled from the metadata of a message.
#[derive(Debug)]
pub struct MetadataField {
    pub field_name: String,
    pub key: String,
}

/// The schema of a connection.
#[derive(Debug)]
pub struct ConnectionSchema {
    pub format: Option<Format>,
    pub bad_data: Option<BadData>,
    pub framing: Option<Framing>,
    pub metadata_fields: Vec<MetadataField>,
    /// The fields of the schema, by their description.
    pub definition: String,
}

/// A schema with its metadata fields as a sequence.
pub struct ConnectionSchemaView {
    pub format: Option<Format>,
    pub bad_data: Option<BadData>,
    pub framing: Option<Framing>,
    pub metadata_fields: Seq<MetadataField>,
    pub definition: String,
}

impl View for ConnectionSchema {
    type V = ConnectionSchemaView;

    open spec fn view(&self) -> ConnectionSchemaView {
        ConnectionSchemaView {
            format: self.format,
            bad_data: self.bad_data,
            framing: self.framing,
            metadata_fields: self.metadata_fields@,
            definition: self.definition,
        }
    }
}

impl Clone for Format {
    fn clone(&self) -> (res: Self)
        ensures
            res == *self,
    {
        match self {
            Format::RawString(format) => Format::RawString(*format),
            Format::Other(description) => Format::Other(description.clone()),
        }
    }
}

impl Clone for BadData {
    fn clone(&self) -> (res: Self)
        ensures
            res == *self,
    {
        BadData(self.0.clone())
    }
}

impl Clone for Framing {
    fn clone(&self) -> (res: Self)
        ensures
            res == *self,
    {
        Framing(self.0.clone())
    }
}

impl Clone for MetadataField {
    fn clone(&self) -> (res: Self)
        ensures
            res == *self,
    {
        MetadataField { field_name: self.field_name.clone(), key: self.key.clone() }
    }
}

/// The same fields once more.
pub(crate) fn clone_fields(fields: &Vec<MetadataField>) -> (res: Vec<MetadataField>)
    ensures
        res@ == fields@,
{
    let mut res: Vec<MetadataField> = Vec::new();
    for field in it: fields
        invariant
            it.seq().unref() == fields@,
            res@ == fields@.take(it.index()),
    {
        res.push(field.clone());
        assert(res@ =~= fields@.take(it.index() + 1));
    }
    assert(fields@.take(fields@.len() as int) =~= fields@);
    res
}

impl Clone for ConnectionSchema {
    fn clone(&self) -> (res: Self)
        ensures
            res@ == self@,
            res.format == self.format,
            res.bad_data == self.bad_data,
            res.framing == self.framing,
            res.metadata_fields@ == self.metadata_fields@,
            res.definition == self.definition,
    {
        ConnectionSchema {
            format: self.format.clone(),
            bad_data: self.bad_data.clone(),
            framing: self.framing.clone(),
            metadata_fields: clone_fields(&self.metadata_fields),
            definition: self.definition.clone(),
        }
    }
}

/// What an operator is started with.
#[derive(Debug)]
pub struct OperatorConfig {
    pub connection: EmptyConfig,
    pub table: TimberTable,
    pub rate_limit: Option<u32>,
    pub format: Option<Format>,
    pub bad_data: Option<BadData>,
    pub framing: Option<Framing>,
    pub metadata_fields: Vec<MetadataField>,
}

/// A configuration with its metadata fields as a sequence.
pub struct OperatorConfigView {
    pub connection: EmptyConfig,
    pub table: TimberTable,
    pub rate_limit: Option<u32>,
    pub format: Option<Format>,
    pub bad_data: Option<BadData>,
    pub framing: Option<Framing>,
    pub metadata_fields: Seq<MetadataField>,
}

impl View for OperatorConfig {
    type V = OperatorConfigView;

    open spec fn view(&self) -> OperatorConfigView {
        OperatorConfigView {
            connection: self.connection,
            table: self.table,
            rate_limit: self.rate_limit,
            format: self.format,
            bad_data: self.bad_data,
            framing: self.framing,
            metadata_fields: self.metadata_fields@,
        }
    }
}

/// A connection.
#[derive(Debug)]
pub struct Connection {
    pub id: Option<i64>,
    pub connector: String,
    pub name: String,
    pub connection_type: ConnectionType,
    pub schema: ConnectionSchema,
    pub config: OperatorConfig,
    pub description: String,
}

/// A connection with its texts as sequences.
pub struct ConnectionView {
    pub id: Option<i64>,
    pub connector: Seq<char>,
    pub name: Seq<char>,
    pub connection_type: ConnectionType,
    pub schema: ConnectionSchemaView,
    pub config: OperatorConfigView,
    pub description: Seq<char>,
}

impl View for Connection {
    type V = ConnectionView;

    open spec fn view(&self) -> ConnectionView {
        ConnectionView {
            id: self.id,
            connector: self.connector@,
            name: self.name@,
            connection_type: self.connection_type,
            schema: self.schema@,
            config: self.config@,
            description: self.description@,
        }
    }
}

/// Why a connection cannot be made.
#[derive(Debug)]
pub enum ConnectorError {
    /// An option has to be a string.
    OptionNotText { name: String, value: String },
    /// An option has to be set.
    OptionMissing { name: String },
    /// The offset to start from is neither of the two that there are.
    InvalidOffset { value: String },
    /// A table is neither a source nor a sink.
    InvalidType,
    /// There is no schema.
    NoSchema,
    /// The schema has no format.
    NoFormat,
    /// A sink has no source operator.
    SinkOperator,
}

/// An error with its texts as sequences.
pub enum ConnectorErrorView {
    OptionNotText { name: Seq<char>, value: Seq<char> },
    OptionMissing { name: Seq<char> },
    InvalidOffset { value: Seq<char> },
    InvalidType,
    NoSchema,
    NoFormat,
    SinkOperator,
}

impl View for ConnectorError {
    type V = ConnectorErrorView;

    open spec fn view(&self) -> ConnectorErrorView {
        match self {
            ConnectorError::OptionNotText { name, value } => ConnectorErrorView::OptionNotText {
                name: name@,
                value: value@,
            },
            ConnectorError::OptionMissing { name } => ConnectorErrorView::OptionMissing {
                name: name@,
            },
            ConnectorError::InvalidOffset { value } => ConnectorErrorView::InvalidOffset {
                value: value@,
            },
            ConnectorError::InvalidType => ConnectorErrorView::InvalidType,
            ConnectorError::NoSchema => ConnectorErrorView::NoSchema,
            ConnectorError::NoFormat => ConnectorErrorView::NoFormat,
            ConnectorError::SinkOperator => ConnectorErrorView::SinkOperator,
        }
    }
}

impl ConnectorErrorView {
    /// What is said of the error.
    pub open spec fn message(self) -> Seq<char> {
        match self {
            ConnectorErrorView::OptionNotText { name, value } => "expected with option '"@ + name
                + "' to be a single-quoted string, but it was `"@ + value + "`"@,
            ConnectorErrorView::OptionMissing { name } => "required option '"@ + name
                + "' not set"@,
            ConnectorErrorView::InvalidOffset { value } => "invalid value for source.offset '"@
                + value + "'"@,
            ConnectorErrorView::InvalidType => "type must be one of 'source' or 'sink'"@,
            ConnectorErrorView::NoSchema => "no schema defined for Timber connection"@,
            ConnectorErrorView::NoFormat => "'format' must be set for Timber connection"@,
            ConnectorErrorView::SinkOperator => "invalid type for sink operator"@,
        }
    }
}

impl ConnectorError {
    /// What is said of the error.
    pub fn message(&self) -> (res: String)
        ensures
            res@ == self@.message(),
            res@ == match self {
                ConnectorError::OptionNotText { name, value } => "expected with option '"@ + name@
                    + "' to be a single-quoted string, but it was `"@ + value@ + "`"@,
                ConnectorError::OptionMissing { name } => "required option '"@ + name@
                    + "' not set"@,
                ConnectorError::InvalidOffset { value } => "invalid value for source.offset '"@
                    + value@ + "'"@,
                ConnectorError::InvalidType => "type must be one of 'source' or 'sink'"@,
                ConnectorError::NoSchema => "no schema defined for Timber connection"@,
                ConnectorError::NoFormat => "'format' must be set for Timber connection"@,
                ConnectorError::SinkOperator => "invalid type for sink operator"@,
            },
    {
        match self {
            ConnectorError::OptionNotText { name, value } => {
                let mut message = "expected with option '".to_owned();
                message.append(name.as_str());
                message.append("' to be a single-quoted string, but it was `");
                message.append(value.as_str());
                message.append("`");
                message
            },
            ConnectorError::OptionMissing { name } => {
                let mut message = "required option '".to_owned();
                message.append(name.as_str());
                message.append("' not set");
                message
            },
            ConnectorError::InvalidOffset { value } => {
                let mut message = "invalid value for source.offset '".to_owned();
                message.append(value.as_str());
                message.append("'");
                message
            },
            ConnectorError::InvalidType => "type must be one of 'source' or 'sink'".to_owned(),
            ConnectorError::NoSchema => "no schema defined for Timber connection".to_owned(),
            ConnectorError::NoFormat => "'format' must be set for Timber connection".to_owned(),
            ConnectorError::SinkOperator => "invalid type for sink operator".to_owned(),
        }
    }
}

/// What is said of a wrong option holds the option's name and value as they are: errors of one kind
/// that say the same are of the same option or value.
pub proof fn law_messages_hold_names_and_values(
    name_a: Seq<char>,
    name_b: Seq<char>,
    value_a: Seq<char>,
    value_b: Seq<char>,
)
    ensures
        (ConnectorErrorView::OptionMissing { name: name_a }).message()
            == (ConnectorErrorView::OptionMissing { name: name_b }).message() ==> name_a == name_b,
        (ConnectorErrorView::InvalidOffset { value: value_a }).message()
            == (ConnectorErrorView::InvalidOffset { value: value_b }).message() ==> value_a
            == value_b,
        (ConnectorErrorView::OptionNotText { name: name_a, value: value_a }).message()
            == (ConnectorErrorView::OptionNotText { name: name_a, value: value_b }).message()
            ==> value_a == value_b,
        (ConnectorErrorView::OptionNotText { name: name_a, value: value_a }).message()
            == "expected with option '"@ + name_a
            + "' to be a single-quoted string, but it was `"@ + value_a + "`"@,
        (ConnectorErrorView::OptionMissing { name: name_a }).message() == "required option '"@
            + name_a + "' not set"@,
        (ConnectorErrorView::InvalidOffset { value: value_a }).message()
            == "invalid value for source.offset '"@ + value_a + "'"@,
{
    lemma_between("required option '"@, name_a, name_b, "' not set"@);
    lemma_between("invalid value for source.offset '"@, value_a, value_b, "'"@);
    lemma_between(
        "expected with option '"@ + name_a + "' to be a single-quoted string, but it was `"@,
        value_a,
        value_b,
        "`"@,
    );
}

/// What stands between the same texts in two equal texts is equal.
proof fn lemma_between(front: Seq<char>, a: Seq<char>, b: Seq<char>, back: Seq<char>)
    ensures
        front + a + back == front + b + back ==> a == b,
{
    if front + a + back == front + b + back {
        let n = front.len() as int;
        assert((front + a + back).len() == (front + b + back).len());
        assert(a =~= (front + a + back).subrange(n, n + a.len()));
        assert(b =~= (front + b + back).subrange(n, n + b.len()));
    }
}

/// An error is seen with its own name and value, and errors of different kinds are told apart.
pub proof fn law_errors_keep_names_and_values(error: ConnectorError)
    ensures
        match error {
            ConnectorError::OptionNotText { name, value } => error@ matches
                ConnectorErrorView::OptionNotText { name: of, value: given } && of == name@
                && given == value@,
            ConnectorError::OptionMissing { name } => error@ matches
                ConnectorErrorView::OptionMissing { name: of } && of == name@,
            ConnectorError::InvalidOffset { value } => error@ matches
                ConnectorErrorView::InvalidOffset { value: given } && given == value@,
            ConnectorError::InvalidType => error@ is InvalidType,
            ConnectorError::NoSchema => error@ is NoSchema,
            ConnectorError::NoFormat => error@ is NoFormat,
            ConnectorError::SinkOperator => error@ is SinkOperator,
        },
{
}

} // verus!
