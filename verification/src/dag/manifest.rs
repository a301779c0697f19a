//! The manifest that the engine runs: every operator is a source, a
//! transform or a sink.
use crate::dependency::DependencyNode;
use std::path::PathBuf;
use vstd::prelude::*;
use vstd::std_specs::convert::FromSpecImpl;

verus! {

/// A pipeline: its operators.
#[derive(Debug)]
pub struct Manifest {
    pub operators: Vec<Operator>,
}

/// One operator of a pipeline.
#[derive(Debug)]
pub struct Operator {
    /// name of the operator
    pub id: String,
    /// name of the rust udf
    pub udf_name: String,
    /// what other operators does this operator depend on?
    pub depends: Vec<String>,
    pub kind: OperatorKind,
}

/// What an operator does with record batches.
#[derive(Debug, Clone)]
pub enum OperatorKind {
    /// Reads batches from an external source.
    Source { config: SourceConfig },
    /// Writes the batches of its input to an external sink.
    Sink { config: SinkConfig },
    /// Turns each batch of its input into a batch of its output.
    Transform,
}

#[derive(Debug, Clone)]
pub enum SourceConfig {
    Path { path: PathBuf },
}

#[derive(Debug, Clone)]
pub enum SinkConfig {
    Path { path: PathBuf },
}

/// Why a manifest could not be planned.
#[derive(Debug)]
pub enum PlanError {
    /// The manifest file could not be read.
    Io(std::io::Error),
    /// The manifest is not valid TOML for a `Manifest`.
    Parse(toml::de::Error),
    /// The dependencies form a cycle; the operator named lies on it.
    CycleDetected(String),
}

/// The ids of the planned operators, in plan order.
pub open spec fn op_ids(sorted: Seq<&Operator>) -> Seq<Seq<char>> {
    sorted.map_values(|o: &Operator| o.id@)
}

/// The UDF names of the planned operators, in plan order.
pub open spec fn op_udfs(sorted: Seq<&Operator>) -> Seq<Seq<char>> {
    sorted.map_values(|o: &Operator| o.udf_name@)
}

impl From<std::io::Error> for PlanError {
    fn from(err: std::io::Error) -> (r: Self) {
        PlanError::Io(err)
    }
}

impl FromSpecImpl<std::io::Error> for PlanError {
    open spec fn obeys_from_spec() -> bool {
        true
    }

    open spec fn from_spec(v: std::io::Error) -> Self {
        PlanError::Io(v)
    }
}

impl From<toml::de::Error> for PlanError {
    fn from(err: toml::de::Error) -> (r: Self) {
        PlanError::Parse(err)
    }
}

impl FromSpecImpl<toml::de::Error> for PlanError {
    open spec fn obeys_from_spec() -> bool {
        true
    }

    open spec fn from_spec(v: toml::de::Error) -> Self {
        PlanError::Parse(v)
    }
}

impl DependencyNode for Operator {
    open spec fn node_id(&self) -> Seq<char> {
        self.id@
    }

    open spec fn node_depends(&self) -> Seq<Seq<char>> {
        self.depends@.map_values(|d: String| d@)
    }

    fn id_ref(&self) -> (r: &String) {
        &self.id
    }

    fn depends_ref(&self) -> (r: &Vec<String>) {
        &self.depends
    }
}

} // verus!
