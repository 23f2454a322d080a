//! The table that a connection reads from.
use vstd::prelude::*;

verus! {

/// Where a source starts to read.
#[derive(Debug, Clone, Copy, PartialEq, Eq, Structural)]
pub enum SourceOffset {
    Earliest,
    Latest,
}

/// What a table is used for.
#[derive(Debug, Clone, Copy, PartialEq, Eq, Structural)]
pub enum TableType {
    Source { offset: SourceOffset },
    Sink {  },
}

/// A table over a Timber topic.
#[derive(Debug)]
pub struct TimberTable {
    pub endpoint: Option<String>,
    pub topic: String,
    pub type_: TableType,
}

/// The type of `fluvio` for a place in a partition's log, which is not looked into.
#[verifier::external_type_specification]
#[verifier::external_body]
pub struct ExOffset(fluvio::Offset);

/// What `fluvio::Offset::from_beginning` returns for `distance`.
pub uninterp spec fn offset_from_beginning(distance: u32) -> fluvio::Offset;

/// What `fluvio::Offset::from_end` returns for `distance`.
pub uninterp spec fn offset_from_end(distance: u32) -> fluvio::Offset;

/// Makes the offset that lies `offset` places behind the oldest entry of a log.
///
/// What `fluvio::Offset::from_beginning` returns depends on its argument alone, and no distance
/// from the end is the same offset. `fluvio::Offset::beginning` is this function at zero.
pub assume_specification[ fluvio::Offset::from_beginning ](offset: u32) -> (res: fluvio::Offset)
    ensures
        res == offset_from_beginning(offset),
        forall|distance: u32| res != offset_from_end(distance),
;

/// Makes the offset that lies `offset` places before the newest entry of a log.
///
/// What `fluvio::Offset::from_end` returns depends on its argument alone, and no distance from
/// the beginning is the same offset. `fluvio::Offset::end` is this function at zero.
pub assume_specification[ fluvio::Offset::from_end ](offset: u32) -> (res: fluvio::Offset)
    ensures
        res == offset_from_end(offset),
        forall|distance: u32| res != offset_from_beginning(distance),
;

impl SourceOffset {
    /// The offset at the place where the source starts: the oldest entry or the newest. The one
    /// is never the other.
    pub fn offset(&self) -> (res: fluvio::Offset)
        ensures
            *self is Earliest ==> res == offset_from_beginning(0) && res != offset_from_end(0),
            *self is Latest ==> res == offset_from_end(0) && res != offset_from_beginning(0),
    {
        match self {
            SourceOffset::Earliest => fluvio::Offset::from_beginning(0),
            SourceOffset::Latest => fluvio::Offset::from_end(0),
        }
    }
}

} // verus!
