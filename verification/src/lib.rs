//! A source connector for Timber, a message log with an HTTP API.
//!
//! [`api`] holds what the API returns and how it is asked, with [`ndjson`] and [`payload`] for
//! the form that messages come in and [`text`] for numbers and white space. [`connector`] makes
//! a [`connection`] over a [`table`] from [`options`], and an operator from the table.
//! [`source`] is that operator: a state machine that says which messages to ask for and when to
//! hand them over.
pub mod api;
pub mod connection;
pub mod connector;
pub mod ndjson;
pub mod options;
pub mod payload;
pub mod source;
pub mod table;
pub mod text;
