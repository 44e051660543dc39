//! The error and warning taxonomy.
//!
//! A fatal error aborts the whole run and is reported through `Result`; a
//! warning is collected in a list beside the primary output and the run
//! continues with the documented fallback.

use vstd::prelude::*;

verus! {

/// A condition that aborts the run.
#[derive(Debug, Clone, PartialEq, Eq)]
pub enum Error {
    /// Two channels share one name.
    DuplicateTopic { name: String },
    /// A data row is longer or shorter than the header row.
    RowLengthMismatch { found: usize, expected: usize },
    /// An axis and a channel disagree on sample count.
    LengthMismatch { axis_len: usize, data_len: usize },
    /// More than one channel carries the x-axis directive.
    MultipleXaxis,
    /// A join directive names no target.
    EmptyJoinTarget { token: String },
    /// A join directive names a graph that was not made to accept joins.
    JoinToNonJoinable { name: String },
    /// A log channel carries a directive besides the log marker.
    LogExtraAttributes { name: String },
    /// One value name appears twice with differing values.
    DuplicateValue { name: String },
    /// A channel has no matching column.
    MissingColumn { name: String },
    /// A channel name matches more than one column.
    DuplicateColumn { name: String },
}

/// The mathematical image of an `Error`.
pub enum ErrV {
    DuplicateTopic { name: Seq<char> },
    RowLengthMismatch { found: nat, expected: nat },
    LengthMismatch { axis_len: nat, data_len: nat },
    MultipleXaxis,
    EmptyJoinTarget { token: Seq<char> },
    JoinToNonJoinable { name: Seq<char> },
    LogExtraAttributes { name: Seq<char> },
    DuplicateValue { name: Seq<char> },
    MissingColumn { name: Seq<char> },
    DuplicateColumn { name: Seq<char> },
}

impl View for Error {
    type V = ErrV;

    open spec fn view(&self) -> ErrV {
        match self {
            Error::DuplicateTopic { name } => ErrV::DuplicateTopic { name: name@ },
            Error::RowLengthMismatch { found, expected } => ErrV::RowLengthMismatch {
                found: *found as nat,
                expected: *expected as nat,
            },
            Error::LengthMismatch { axis_len, data_len } => ErrV::LengthMismatch {
                axis_len: *axis_len as nat,
                data_len: *data_len as nat,
            },
            Error::MultipleXaxis => ErrV::MultipleXaxis,
            Error::EmptyJoinTarget { token } => ErrV::EmptyJoinTarget { token: token@ },
            Error::JoinToNonJoinable { name } => ErrV::JoinToNonJoinable { name: name@ },
            Error::LogExtraAttributes { name } => ErrV::LogExtraAttributes { name: name@ },
            Error::DuplicateValue { name } => ErrV::DuplicateValue { name: name@ },
            Error::MissingColumn { name } => ErrV::MissingColumn { name: name@ },
            Error::DuplicateColumn { name } => ErrV::DuplicateColumn { name: name@ },
        }
    }
}

/// A condition that is reported but does not stop the run.
#[derive(Debug, Clone, PartialEq, Eq)]
pub enum Warning {
    /// A directive token that no attribute matches; it is dropped.
    UnrecognizedAttribute { token: String },
    /// A directive that repeats a kind already on the channel; the first wins.
    DuplicateAttribute { token: String, topic: String },
    /// A value name repeated with an identical value; deduplicated.
    DuplicateValueIgnored { name: String },
    /// A join added a series whose label the target already shows.
    JoinDuplicateSeries { name: String },
    /// A join mixed two display units; neither is coerced.
    JoinUnitMismatch { graph: String, graph_unit: String, topic: String, topic_unit: String },
    /// Two attached files share one path.
    DuplicatePath { path: String },
    /// Two attached files share one base name.
    DuplicateFileName { name: String },
}

/// The mathematical image of a `Warning`.
pub enum WarnV {
    UnrecognizedAttribute { token: Seq<char> },
    DuplicateAttribute { token: Seq<char>, topic: Seq<char> },
    DuplicateValueIgnored { name: Seq<char> },
    JoinDuplicateSeries { name: Seq<char> },
    JoinUnitMismatch {
        graph: Seq<char>,
        graph_unit: Seq<char>,
        topic: Seq<char>,
        topic_unit: Seq<char>,
    },
    DuplicatePath { path: Seq<char> },
    DuplicateFileName { name: Seq<char> },
}

impl View for Warning {
    type V = WarnV;

    open spec fn view(&self) -> WarnV {
        match self {
            Warning::UnrecognizedAttribute { token } => WarnV::UnrecognizedAttribute {
                token: token@,
            },
            Warning::DuplicateAttribute { token, topic } => WarnV::DuplicateAttribute {
                token: token@,
                topic: topic@,
            },
            Warning::DuplicateValueIgnored { name } => WarnV::DuplicateValueIgnored { name: name@ },
            Warning::JoinDuplicateSeries { name } => WarnV::JoinDuplicateSeries { name: name@ },
            Warning::JoinUnitMismatch { graph, graph_unit, topic, topic_unit } => (
            WarnV::JoinUnitMismatch {
                graph: graph@,
                graph_unit: graph_unit@,
                topic: topic@,
                topic_unit: topic_unit@,
            }),
            Warning::DuplicatePath { path } => WarnV::DuplicatePath { path: path@ },
            Warning::DuplicateFileName { name } => WarnV::DuplicateFileName { name: name@ },
        }
    }
}

/// The images of a sequence of warnings.
pub open spec fn warn_views(s: Seq<Warning>) -> Seq<WarnV> {
    s.map_values(|w: Warning| w@)
}

} // verus!
