//! Error taxonomy of the pipeline and connector runtime.
use vstd::prelude::*;
use vstd::string::*;

verus! {

/// What went wrong, with the context needed to locate the faulty declaration.
#[derive(Debug, Clone, PartialEq, Eq)]
pub enum ErrorKind {
    /// A free-form message.
    Msg(String),
    /// A runtime error inside an operator's transform.
    PipelineError(String),
    /// The forward graph has a cycle; names a node on it.
    CyclicGraphError(String),
    /// An operator needs configuration that is absent.
    MissingOpConfig(String),
    /// An operator that takes no configuration was given one.
    ExtraOpConfig(String),
    /// No operator kind with this namespace and name is registered.
    UnknownOp(String, String),
    /// The configuration body is malformed.
    BadOpConfig(String),
    /// No operator kind lives in this namespace.
    UnknownNamespace(String),
    /// Reference to a sub-pipeline that is not defined.
    UnknownSubPipeline(String),
    /// Reference to a pipeline that is not defined.
    UnknownPipeline(String),
    /// A pipeline could not be started.
    PipelineStartError(String),
    /// Error in an onramp.
    OnrampError(u64),
    /// An onramp has no pipeline attached.
    OnrampMissingPipeline(String),
    /// Input in the line protocol could not be decoded.
    InvalidInfluxData(String, String),
    /// Input could not be read as JSON.
    InvalidJsonData(String),
    /// A graph output id out of range.
    BadOutputid(usize),
    /// The grouping-cardinality guard refused a new group.
    MaxGroups(u64, String),
    /// An input stream name that the pipeline does not declare.
    InvalidInputStreamName(String, String),
    /// A connector was declared without its configuration.
    MissingConfiguration(String),
    /// The connector has no usable external handle.
    NoSocket,
    /// An event row lacks a field that a column needs.
    MissingColumn(String),
    /// An event row holds a value that does not fit its column's type.
    BadColumnValue(String),
}

/// The mathematical value of an [`ErrorKind`]: strings seen as character sequences.
pub enum ErrorView {
    Msg(Seq<char>),
    PipelineError(Seq<char>),
    CyclicGraphError(Seq<char>),
    MissingOpConfig(Seq<char>),
    ExtraOpConfig(Seq<char>),
    UnknownOp(Seq<char>, Seq<char>),
    BadOpConfig(Seq<char>),
    UnknownNamespace(Seq<char>),
    UnknownSubPipeline(Seq<char>),
    UnknownPipeline(Seq<char>),
    PipelineStartError(Seq<char>),
    OnrampError(u64),
    OnrampMissingPipeline(Seq<char>),
    InvalidInfluxData(Seq<char>, Seq<char>),
    InvalidJsonData(Seq<char>),
    BadOutputid(usize),
    MaxGroups(u64, Seq<char>),
    InvalidInputStreamName(Seq<char>, Seq<char>),
    MissingConfiguration(Seq<char>),
    NoSocket,
    MissingColumn(Seq<char>),
    BadColumnValue(Seq<char>),
}

impl View for ErrorKind {
    type V = ErrorView;

    open spec fn view(&self) -> ErrorView {
        match self {
            ErrorKind::Msg(s) => ErrorView::Msg(s@),
            ErrorKind::PipelineError(s) => ErrorView::PipelineError(s@),
            ErrorKind::CyclicGraphError(s) => ErrorView::CyclicGraphError(s@),
            ErrorKind::MissingOpConfig(s) => ErrorView::MissingOpConfig(s@),
            ErrorKind::ExtraOpConfig(s) => ErrorView::ExtraOpConfig(s@),
            ErrorKind::UnknownOp(n, o) => ErrorView::UnknownOp(n@, o@),
            ErrorKind::BadOpConfig(s) => ErrorView::BadOpConfig(s@),
            ErrorKind::UnknownNamespace(s) => ErrorView::UnknownNamespace(s@),
            ErrorKind::UnknownSubPipeline(s) => ErrorView::UnknownSubPipeline(s@),
            ErrorKind::UnknownPipeline(s) => ErrorView::UnknownPipeline(s@),
            ErrorKind::PipelineStartError(s) => ErrorView::PipelineStartError(s@),
            ErrorKind::OnrampError(i) => ErrorView::OnrampError(*i),
            ErrorKind::OnrampMissingPipeline(s) => ErrorView::OnrampMissingPipeline(s@),
            ErrorKind::InvalidInfluxData(s, e) => ErrorView::InvalidInfluxData(s@, e@),
            ErrorKind::InvalidJsonData(s) => ErrorView::InvalidJsonData(s@),
            ErrorKind::BadOutputid(i) => ErrorView::BadOutputid(*i),
            ErrorKind::MaxGroups(m, g) => ErrorView::MaxGroups(*m, g@),
            ErrorKind::InvalidInputStreamName(s, p) => ErrorView::InvalidInputStreamName(s@, p@),
            ErrorKind::MissingConfiguration(s) => ErrorView::MissingConfiguration(s@),
            ErrorKind::NoSocket => ErrorView::NoSocket,
            ErrorKind::MissingColumn(s) => ErrorView::MissingColumn(s@),
            ErrorKind::BadColumnValue(s) => ErrorView::BadColumnValue(s@),
        }
    }
}

/// An error of the runtime: its kind and nothing else.
#[derive(Debug, Clone, PartialEq, Eq)]
pub struct Error {
    pub kind: ErrorKind,
}

impl View for Error {
    type V = ErrorView;

    open spec fn view(&self) -> ErrorView {
        self.kind@
    }
}

impl Error {
    /// Wraps a kind into an error.
    pub fn new(kind: ErrorKind) -> (r: Error)
        ensures
            r@ == kind@,
    {
        Error { kind }
    }

    /// The kind of this error.
    pub fn kind(&self) -> (r: &ErrorKind)
        ensures
            r@ == self@,
    {
        &self.kind
    }
}

/// Creates a missing config field error
pub fn missing_config(f: &str) -> (r: Error)
    ensures
        r@ == ErrorView::MissingOpConfig("missing field "@ + f@),
{
    let msg = String::from_str("missing field ").concat(f);
    Error { kind: ErrorKind::MissingOpConfig(msg) }
}

/// Creates the error of the grouping-cardinality guard: `max` groups exist, `group` was refused.
pub fn max_groups_reached(max: u64, group: &str) -> (r: Error)
    ensures
        r@ == ErrorView::MaxGroups(max, group@),
{
    ErrorKind::MaxGroups(max, group.to_owned()).into_error()
}

impl ErrorKind {
    /// Wraps this kind into an error.
    pub fn into_error(self) -> (r: Error)
        ensures
            r@ == self@,
    {
        Error { kind: self }
    }
}

} // verus!
