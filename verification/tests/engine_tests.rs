use sentinel_core::engine::runtime::{RuntimeError, TaskAction, TaskEvent};
use sentinel_core::source_connectors::source_connector::SourceConnectorError;
use sentinel_core::dag::manifest::{Manifest, Operator, OperatorKind, PlanError, SinkConfig, SourceConfig};
use sentinel_core::dag::plan::plan_dag;
use sentinel_core::engine::runtime::Engine;
use std::path::PathBuf;

fn source(id: &str, udf: &str) -> Operator {
    Operator {
        id: id.to_string(),
        udf_name: udf.to_string(),
        depends: vec![],
        kind: OperatorKind::Source { config: SourceConfig::Path { path: PathBuf::from("in.csv") } },
    }
}

fn transform(id: &str, udf: &str, deps: &[&str]) -> Operator {
    Operator {
        id: id.to_string(),
        udf_name: udf.to_string(),
        depends: deps.iter().map(|d| d.to_string()).collect(),
        kind: OperatorKind::Transform,
    }
}

fn sink(id: &str, udf: &str, deps: &[&str]) -> Operator {
    Operator {
        id: id.to_string(),
        udf_name: udf.to_string(),
        depends: deps.iter().map(|d| d.to_string()).collect(),
        kind: OperatorKind::Sink { config: SinkConfig::Path { path: PathBuf::from("out.csv") } },
    }
}

fn names(v: &[&str]) -> Vec<String> {
    v.iter().map(|s| s.to_string()).collect()
}

fn example() -> Manifest {
    Manifest {
        operators: vec![
            sink("write_output", "sink_udf", &["transform_data"]),
            transform("transform_data", "transform_udf", &["read_input"]),
            source("read_input", "source_udf"),
        ],
    }
}

#[test]
fn engine_plan_orders_source_transform_sink() {
    let m = example();
    let sorted = plan_dag(&m).unwrap();
    let ids: Vec<&str> = sorted.iter().map(|o| o.id.as_str()).collect();
    assert_eq!(ids, vec!["read_input", "transform_data", "write_output"]);
}

#[test]
fn engine_plan_reports_cycle() {
    let m = Manifest {
        operators: vec![transform("a", "x", &["b"]), transform("b", "y", &["a"])],
    };
    match plan_dag(&m) {
        Err(PlanError::CycleDetected(id)) => assert!(id == "a" || id == "b"),
        _ => panic!("expected a cycle"),
    }
}

#[test]
fn wiring_of_a_chain() {
    let m = example();
    let sorted = plan_dag(&m).unwrap();
    let engine = Engine::new();
    let registered = names(&["sink_udf", "source_udf", "transform_udf"]);
    assert!(engine.can_wire(&sorted, &registered));
    let wiring = engine.task_wiring(&sorted, &registered);
    assert_eq!(wiring.len(), 3);
    // read_input: source, udf "source_udf" at index 1, no inputs
    assert_eq!(wiring[0].udf, 1);
    assert!(wiring[0].inputs.is_empty());
    assert_eq!(wiring[0].read, None);
    // transform_data reads read_input (plan position 0)
    assert_eq!(wiring[1].udf, 2);
    assert_eq!(wiring[1].inputs, vec![0]);
    assert_eq!(wiring[1].read, Some(0));
    // write_output reads transform_data (plan position 1)
    assert_eq!(wiring[2].udf, 0);
    assert_eq!(wiring[2].inputs, vec![1]);
    assert_eq!(wiring[2].read, Some(1));
}

#[test]
fn wiring_reads_the_last_dependency() {
    let m = Manifest {
        operators: vec![
            source("s1", "u1"),
            source("s2", "u2"),
            transform("t", "ut", &["s1", "s2"]),
        ],
    };
    let sorted = plan_dag(&m).unwrap();
    let pos = |id: &str| sorted.iter().position(|o| o.id == id).unwrap();
    let engine = Engine::new();
    let registered = names(&["u1", "u2", "ut"]);
    assert!(engine.can_wire(&sorted, &registered));
    let wiring = engine.task_wiring(&sorted, &registered);
    let t = &wiring[pos("t")];
    assert_eq!(t.inputs, vec![pos("s1"), pos("s2")]);
    assert_eq!(t.read, Some(pos("s2")));
}

#[test]
fn wiring_uses_the_last_registration_of_a_name() {
    let m = Manifest { operators: vec![source("s", "u")] };
    let sorted = plan_dag(&m).unwrap();
    let engine = Engine::new();
    let registered = names(&["u", "other", "u"]);
    assert!(engine.can_wire(&sorted, &registered));
    assert_eq!(engine.task_wiring(&sorted, &registered)[0].udf, 2);
}

#[test]
fn cannot_wire_missing_udf() {
    let m = example();
    let sorted = plan_dag(&m).unwrap();
    assert!(!Engine::new().can_wire(&sorted, &names(&["sink_udf", "source_udf"])));
}

#[test]
fn cannot_wire_shared_udf() {
    let m = Manifest { operators: vec![source("a", "u"), source("b", "u")] };
    let sorted = plan_dag(&m).unwrap();
    assert!(!Engine::new().can_wire(&sorted, &names(&["u"])));
}

#[test]
fn cannot_wire_a_channel_read_twice() {
    let m = Manifest {
        operators: vec![
            source("s", "us"),
            sink("k1", "u1", &["s"]),
            sink("k2", "u2", &["s"]),
        ],
    };
    let sorted = plan_dag(&m).unwrap();
    assert!(!Engine::new().can_wire(&sorted, &names(&["us", "u1", "u2"])));
}

#[test]
fn cannot_wire_duplicate_ids() {
    let m = Manifest { operators: vec![source("s", "u1"), source("s", "u2")] };
    let sorted = plan_dag(&m).unwrap();
    assert!(!Engine::new().can_wire(&sorted, &names(&["u1", "u2"])));
}

#[test]
fn cannot_wire_transform_without_input() {
    let m = Manifest { operators: vec![transform("t", "u", &[])] };
    let sorted = plan_dag(&m).unwrap();
    assert!(!Engine::new().can_wire(&sorted, &names(&["u"])));
}

#[test]
fn each_receiver_and_udf_is_handed_out_once() {
    let m = Manifest {
        operators: vec![
            source("s1", "u1"),
            source("s2", "u2"),
            transform("t", "ut", &["s1", "s2"]),
            sink("k", "uk", &["t"]),
        ],
    };
    let sorted = plan_dag(&m).unwrap();
    let engine = Engine::new();
    let registered = names(&["uk", "ut", "u2", "u1"]);
    assert!(engine.can_wire(&sorted, &registered));
    let wiring = engine.task_wiring(&sorted, &registered);
    let mut udfs: Vec<usize> = wiring.iter().map(|w| w.udf).collect();
    udfs.sort();
    udfs.dedup();
    assert_eq!(udfs.len(), 4);
    let mut inputs: Vec<usize> = wiring.iter().flat_map(|w| w.inputs.clone()).collect();
    let n = inputs.len();
    inputs.sort();
    inputs.dedup();
    assert_eq!(inputs.len(), n);
}

#[test]
fn task_actions_follow_the_kind() {
    let src = source("s", "u").kind;
    let tr = transform("t", "u", &["s"]).kind;
    let sk = sink("k", "u", &["t"]).kind;
    assert!(matches!(Engine::next_action(&src, TaskEvent::Batch), TaskAction::ExecuteAndSend));
    assert!(matches!(Engine::next_action(&tr, TaskEvent::Batch), TaskAction::ExecuteAndSend));
    assert!(matches!(Engine::next_action(&sk, TaskEvent::Batch), TaskAction::Execute));
    assert!(matches!(Engine::next_action(&tr, TaskEvent::End), TaskAction::Stop));
    assert!(matches!(Engine::next_action(&src, TaskEvent::Sent), TaskAction::Continue));
    assert!(matches!(
        Engine::next_action(&src, TaskEvent::SendFailed),
        TaskAction::StopReportingClosedChannel
    ));
    assert!(matches!(Engine::next_action(&tr, TaskEvent::SendFailed), TaskAction::Stop));
}

#[test]
fn runtime_errors_convert_from_connector_errors() {
    let io = std::io::Error::new(std::io::ErrorKind::Other, "x");
    let e = SourceConnectorError::from(io);
    assert!(matches!(e, SourceConnectorError::Io(_)));
    let arrow = arrow::error::ArrowError::ComputeError("bad".to_string());
    assert!(matches!(SourceConnectorError::from(arrow), SourceConnectorError::Arrow(_)));
    assert!(matches!(RuntimeError::from(e), RuntimeError::SourceConnector(SourceConnectorError::Io(_))));
    let d = PlanError::from(std::io::Error::new(std::io::ErrorKind::Other, "y"));
    assert!(matches!(d, PlanError::Io(_)));
}
