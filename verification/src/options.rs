//! The options that a table is declared with.
use vstd::hash_map::StringHashMap;
use vstd::prelude::*;
use crate::connection::ConnectorError;
use crate::connection::ConnectorErrorView;

verus! {

/// The value of an option.
#[derive(Debug)]
pub enum OptionValue {
    /// A string.
    Text(String),
    /// Anything else, as it was written.
    Other(String),
}

/// Named options, of which each can be pulled once.
pub struct ConnectorOptions {
    options: StringHashMap<OptionValue>,
}

impl View for ConnectorOptions {
    type V = Map<Seq<char>, OptionValue>;

    closed spec fn view(&self) -> Map<Seq<char>, OptionValue> {
        self.options@
    }
}

/// What pulling the option `name` gives: nothing where it is not set, and an error where it is
/// not a string.
pub open spec fn optional_text(
    options: Map<Seq<char>, OptionValue>,
    name: Seq<char>,
) -> Result<Option<String>, ConnectorErrorView> {
    if !options.contains_key(name) {
        Ok(None)
    } else {
        match options[name] {
            OptionValue::Text(text) => Ok(Some(text)),
            OptionValue::Other(value) => Err(
                ConnectorErrorView::OptionNotText { name, value: value@ },
            ),
        }
    }
}

/// What pulling the option `name` gives where it has to be set.
pub open spec fn required_text(
    options: Map<Seq<char>, OptionValue>,
    name: Seq<char>,
) -> Result<String, ConnectorErrorView> {
    match optional_text(options, name) {
        Ok(Some(text)) => Ok(text),
        Ok(None) => Err(ConnectorErrorView::OptionMissing { name }),
        Err(error) => Err(error),
    }
}

/// `res` is what `expected` says.
pub open spec fn is_outcome<T>(
    res: Result<T, ConnectorError>,
    expected: Result<T, ConnectorErrorView>,
) -> bool {
    match res {
        Ok(value) => expected == Ok::<T, ConnectorErrorView>(value),
        Err(error) => expected == Err::<T, ConnectorErrorView>(error@),
    }
}

impl ConnectorOptions {
    /// No options.
    pub fn new() -> (res: Self)
        ensures
            res@ == Map::<Seq<char>, OptionValue>::empty(),
    {
        ConnectorOptions { options: StringHashMap::new() }
    }

    /// Sets the option `name`, over what it was set to.
    pub fn set(&mut self, name: String, value: OptionValue)
        ensures
            final(self)@ == old(self)@.insert(name@, value),
    {
        self.options.insert(name, value);
    }

    /// Whether the option `name` is set and was not pulled.
    pub fn contains(&self, name: &str) -> (res: bool)
        ensures
            res == self@.contains_key(name@),
    {
        self.options.contains_key(name)
    }

    /// Pulls the option `name`, which may be missing. It is gone then, also where it is not a
    /// string.
    pub fn pull_opt_str(&mut self, name: &str) -> (res: Result<Option<String>, ConnectorError>)
        ensures
            is_outcome(res, optional_text(old(self)@, name@)),
            !old(self)@.contains_key(name@) ==> (res matches Ok(text) && text is None),
            old(self)@.contains_key(name@) ==> match old(self)@[name@] {
                OptionValue::Text(text) => res == Ok::<Option<String>, ConnectorError>(Some(text)),
                OptionValue::Other(value) => {
                    &&& res matches Err(ConnectorError::OptionNotText { name: of, value: given })
                    &&& of@ == name@
                    &&& given@ == value@
                },
            },
            final(self)@ == old(self)@.remove(name@),
    {
        let res = match self.options.get(name) {
            Some(OptionValue::Text(text)) => Ok(Some(text.clone())),
            Some(OptionValue::Other(value)) => Err(
                ConnectorError::OptionNotText { name: name.to_owned(), value: value.clone() },
            ),
            None => Ok(None),
        };
        self.options.remove(name);
        res
    }

    /// Pulls the option `name`, which has to be set.
    pub fn pull_str(&mut self, name: &str) -> (res: Result<String, ConnectorError>)
        ensures
            is_outcome(res, required_text(old(self)@, name@)),
            !old(self)@.contains_key(name@) ==> (res matches Err(
                ConnectorError::OptionMissing { name: of },
            ) && of@ == name@),
            old(self)@.contains_key(name@) ==> match old(self)@[name@] {
                OptionValue::Text(text) => res == Ok::<String, ConnectorError>(text),
                OptionValue::Other(value) => {
                    &&& res matches Err(ConnectorError::OptionNotText { name: of, value: given })
                    &&& of@ == name@
                    &&& given@ == value@
                },
            },
            final(self)@ == old(self)@.remove(name@),
    {
        match self.pull_opt_str(name) {
            Ok(Some(text)) => Ok(text),
            Ok(None) => Err(ConnectorError::OptionMissing { name: name.to_owned() }),
            Err(error) => Err(error),
        }
    }
}

/// An option that was set to a text gives that text, whatever else is set; one that was set to
/// anything else is refused, by its name and value; and one that is not set gives nothing where it
/// may be missing, and is refused where it may not.
pub proof fn law_set_option_is_pulled(
    options: Map<Seq<char>, OptionValue>,
    name: Seq<char>,
    text: String,
)
    ensures
        optional_text(options.insert(name, OptionValue::Text(text)), name) == Ok::<
            Option<String>,
            ConnectorErrorView,
        >(Some(text)),
        required_text(options.insert(name, OptionValue::Text(text)), name) == Ok::<
            String,
            ConnectorErrorView,
        >(text),
        optional_text(options.insert(name, OptionValue::Other(text)), name) == Err::<
            Option<String>,
            ConnectorErrorView,
        >(ConnectorErrorView::OptionNotText { name, value: text@ }),
        required_text(options.insert(name, OptionValue::Other(text)), name) == Err::<
            String,
            ConnectorErrorView,
        >(ConnectorErrorView::OptionNotText { name, value: text@ }),
        optional_text(options.remove(name), name) == Ok::<Option<String>, ConnectorErrorView>(None),
        required_text(options.remove(name), name) == Err::<String, ConnectorErrorView>(
            ConnectorErrorView::OptionMissing { name },
        ),
{
}

/// What pulling an option gives depends on that option alone.
pub proof fn law_options_are_apart(
    a: Map<Seq<char>, OptionValue>,
    b: Map<Seq<char>, OptionValue>,
    name: Seq<char>,
)
    requires
        a.contains_key(name) == b.contains_key(name),
        a.contains_key(name) ==> a[name] == b[name],
    ensures
        optional_text(a, name) == optional_text(b, name),
        required_text(a, name) == required_text(b, name),
{
}

} // verus!
