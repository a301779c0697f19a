//! The pipeline manifest: the operators of a pipeline and how they depend on
//! one another. Each operator may carry the configuration of an external
//! source or sink.
use crate::dependency::DependencyNode;
use std::path::PathBuf;
use vstd::prelude::*;
use vstd::std_specs::convert::FromSpecImpl;

verus! {

/// A pipeline: all user-defined operators.
pub struct Manifest {
    pub operators: Vec<Operator>,
}

/// One operator of a pipeline.
pub struct Operator {
    /// name of the operator
    pub id: String,
    /// name of the rust udf
    pub udf_name: String,
    /// what other operators does this operator depend on?
    pub depends: Vec<String>,
    /// configures the operator to be a source, sink, or neither
    pub config: Option<Config>,
}

/// Where an operator reads from or writes to.
pub enum Config {
    /// config for an external source at the "extract" stage
    Source(SourceConfig),
    /// config for an external source at the "load" stage
    Sink(SinkConfig),
}

#[derive(Debug)]
pub enum SourceConfig {
    Path { path: PathBuf },
}

#[derive(Debug)]
pub enum SinkConfig {
    Path { path: PathBuf },
}

/// Why a manifest could not be planned.
#[derive(Debug)]
pub enum PlanError {
    /// The manifest file could not be read.
    Io(std::io::Error),
    /// The manifest is not valid TOML for a `Manifest`.
    Parse(toml::de::Error),
    /// The dependencies form a cycle; the operator named lies on it.
    CycleDetected(String),
}

impl From<std::io::Error> for PlanError {
    fn from(err: std::io::Error) -> (r: Self) {
        PlanError::Io(err)
    }
}

impl FromSpecImpl<std::io::Error> for PlanError {
    open spec fn obeys_from_spec() -> bool {
        true
    }

    open spec fn from_spec(v: std::io::Error) -> Self {
        PlanError::Io(v)
    }
}

impl From<toml::de::Error> for PlanError {
    fn from(err: toml::de::Error) -> (r: Self) {
        PlanError::Parse(err)
    }
}

impl FromSpecImpl<toml::de::Error> for PlanError {
    open spec fn obeys_from_spec() -> bool {
        true
    }

    open spec fn from_spec(v: toml::de::Error) -> Self {
        PlanError::Parse(v)
    }
}

impl DependencyNode for Operator {
    open spec fn node_id(&self) -> Seq<char> {
        self.id@
    }

    open spec fn node_depends(&self) -> Seq<Seq<char>> {
        self.depends@.map_values(|d: String| d@)
    }

    fn id_ref(&self) -> (r: &String) {
        &self.id
    }

    fn depends_ref(&self) -> (r: &Vec<String>) {
        &self.depends
    }
}

/// An operator with the given id and dependencies, the UDF `<id>_udf` and no
/// source or sink configuration.
pub fn op(id: &str, depends: &[&str]) -> (r: Operator)
    ensures
        r.id@ == id@,
        r.udf_name@ == id@ + "_udf"@,
        r.depends@.len() == depends@.len(),
        forall|k: int| 0 <= k < depends@.len() ==> #[trigger] r.depends@[k]@ == depends@[k]@,
        r.config is None,
{
    let mut udf_name = id.to_owned();
    udf_name.append("_udf");
    let mut deps: Vec<String> = Vec::new();
    for k in 0..depends.len()
        invariant
            deps@.len() == k,
            forall|t: int| 0 <= t < k ==> #[trigger] deps@[t]@ == depends@[t]@,
    {
        deps.push(depends[k].to_owned());
    }
    Operator { id: id.to_owned(), udf_name, depends: deps, config: None }
}

} // verus!
