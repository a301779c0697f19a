//! Errors of the connectors that feed record batches into a pipeline.
use vstd::prelude::*;
use vstd::std_specs::convert::FromSpecImpl;

verus! {

/// Why a source connector could not produce a batch.
#[derive(Debug)]
pub enum SourceConnectorError {
    /// The source file could not be opened or read.
    Io(std::io::Error),
    /// The file could not be decoded into record batches.
    Arrow(arrow::error::ArrowError),
}

impl From<std::io::Error> for SourceConnectorError {
    fn from(err: std::io::Error) -> (r: Self) {
        SourceConnectorError::Io(err)
    }
}

impl FromSpecImpl<std::io::Error> for SourceConnectorError {
    open spec fn obeys_from_spec() -> bool {
        true
    }

    open spec fn from_spec(v: std::io::Error) -> Self {
        SourceConnectorError::Io(v)
    }
}

impl From<arrow::error::ArrowError> for SourceConnectorError {
    fn from(err: arrow::error::ArrowError) -> (r: Self) {
        SourceConnectorError::Arrow(err)
    }
}

impl FromSpecImpl<arrow::error::ArrowError> for SourceConnectorError {
    open spec fn obeys_from_spec() -> bool {
        true
    }

    open spec fn from_spec(v: arrow::error::ArrowError) -> Self {
        SourceConnectorError::Arrow(v)
    }
}

} // verus!
