use sentinel_core::plan::planner::plan_from_order;
use sentinel_core::dependency::order_operators;
use sentinel_core::dependency::is_plannable;
use sentinel_core::plan::manifest::{op, Config, Manifest, Operator, PlanError, SinkConfig, SourceConfig};
use sentinel_core::plan::planner::plan_dag;
use std::path::PathBuf;

fn ids(sorted: &[&Operator]) -> Vec<String> {
    sorted.iter().map(|op| op.id.clone()).collect()
}

fn position(ids: &[String], id: &str) -> usize {
    ids.iter().position(|x| x == id).unwrap()
}

#[test]
fn test_plan_valid_dag_returns_sorted_operators() {
    let manifest = Manifest {
        operators: vec![
            op("D", &["B", "C"]),
            op("C", &["A"]),
            op("B", &["A"]),
            op("A", &[]),
        ],
    };

    let sorted_ops = plan_dag(&manifest).unwrap();
    let sorted_ids: Vec<&str> = sorted_ops.iter().map(|op| op.id.as_str()).collect();

    assert_eq!(sorted_ids.len(), 4);

    let pos_a = sorted_ids.iter().position(|&id| id == "A").unwrap();
    let pos_b = sorted_ids.iter().position(|&id| id == "B").unwrap();
    let pos_c = sorted_ids.iter().position(|&id| id == "C").unwrap();
    assert!(pos_a < pos_b);
    assert!(pos_a < pos_c);

    let pos_d = sorted_ids.iter().position(|&id| id == "D").unwrap();
    assert!(pos_b < pos_d);
    assert!(pos_c < pos_d);
}

#[test]
fn test_plan_with_cycle_returns_cycle_detected_error() {
    let manifest = Manifest {
        operators: vec![op("A", &["C"]), op("B", &["A"]), op("C", &["B"])],
    };

    let result = plan_dag(&manifest);

    match result {
        Err(PlanError::CycleDetected(node_id)) => {
            assert!(["A", "B", "C"].contains(&node_id.as_str()));
        }
        Ok(_) => panic!("Expected a CycleDetected error, but got Ok"),
        Err(_) => panic!("Expected a CycleDetected error, but got a different error"),
    }
}

#[test]
fn op_builds_an_operator_without_config() {
    let o = op("read", &["x", "y"]);
    assert_eq!(o.id, "read");
    assert_eq!(o.udf_name, "read_udf");
    assert_eq!(o.depends, vec!["x".to_string(), "y".to_string()]);
    assert!(o.config.is_none());
}

#[test]
fn plan_of_empty_manifest_is_empty() {
    let manifest = Manifest { operators: vec![] };
    assert!(is_plannable(&manifest.operators));
    assert!(plan_dag(&manifest).unwrap().is_empty());
}

#[test]
fn plan_reorders_a_chain_given_backwards() {
    let manifest = Manifest {
        operators: vec![op("c", &["b"]), op("b", &["a"]), op("a", &[])],
    };
    let sorted = plan_dag(&manifest).unwrap();
    assert_eq!(ids(&sorted), vec!["a", "b", "c"]);
    assert_eq!(sorted[0].udf_name, "a_udf");
}

#[test]
fn plan_lists_every_operator_once() {
    let manifest = Manifest {
        operators: vec![
            op("e", &["d", "a"]),
            op("d", &["b", "c"]),
            op("c", &["a"]),
            op("b", &["a"]),
            op("a", &[]),
            op("lonely", &[]),
        ],
    };
    let sorted = ids(&plan_dag(&manifest).unwrap());
    let mut seen = sorted.clone();
    seen.sort();
    assert_eq!(seen, vec!["a", "b", "c", "d", "e", "lonely"]);
    for o in &manifest.operators {
        for d in &o.depends {
            assert!(position(&sorted, d) < position(&sorted, &o.id));
        }
    }
}

#[test]
fn self_dependency_is_a_cycle() {
    let manifest = Manifest { operators: vec![op("a", &[]), op("b", &["b"])] };
    match plan_dag(&manifest) {
        Err(PlanError::CycleDetected(id)) => assert_eq!(id, "b"),
        _ => panic!("expected a cycle"),
    }
}

#[test]
fn cycle_names_an_operator_on_the_cycle() {
    let manifest = Manifest {
        operators: vec![
            op("src", &[]),
            op("x", &["src", "y"]),
            op("y", &["x"]),
            op("sink", &["y"]),
        ],
    };
    match plan_dag(&manifest) {
        Err(PlanError::CycleDetected(id)) => assert!(id == "x" || id == "y"),
        _ => panic!("expected a cycle"),
    }
}

#[test]
fn unknown_dependency_is_not_plannable() {
    let manifest = Manifest { operators: vec![op("a", &["missing"])] };
    assert!(!is_plannable(&manifest.operators));
    let ok = Manifest { operators: vec![op("a", &[]), op("b", &["a"])] };
    assert!(is_plannable(&ok.operators));
}

#[test]
fn duplicate_id_resolves_to_the_last_operator() {
    // both operators named "a"; "b" depends on "a", which names the second one
    let manifest = Manifest {
        operators: vec![op("b", &["a"]), op("a", &[]), op("a", &[])],
    };
    let sorted = plan_dag(&manifest).unwrap();
    assert_eq!(sorted.len(), 3);
    let pos_b = sorted.iter().position(|o| std::ptr::eq(*o, &manifest.operators[0])).unwrap();
    let pos_last_a = sorted.iter().position(|o| std::ptr::eq(*o, &manifest.operators[2])).unwrap();
    assert!(pos_last_a < pos_b);
}

#[test]
fn configs_are_carried_through_the_plan() {
    let manifest = Manifest {
        operators: vec![
            Operator {
                id: "out".to_string(),
                udf_name: "sink_udf".to_string(),
                depends: vec!["in".to_string()],
                config: Some(Config::Sink(SinkConfig::Path { path: PathBuf::from("o.csv") })),
            },
            Operator {
                id: "in".to_string(),
                udf_name: "source_udf".to_string(),
                depends: vec![],
                config: Some(Config::Source(SourceConfig::Path { path: PathBuf::from("i.csv") })),
            },
        ],
    };
    let sorted = plan_dag(&manifest).unwrap();
    assert_eq!(ids(&sorted), vec!["in", "out"]);
    match &sorted[0].config {
        Some(Config::Source(SourceConfig::Path { path })) => assert_eq!(path, &PathBuf::from("i.csv")),
        _ => panic!("expected the source config"),
    }
}

#[test]
fn plan_from_order_takes_the_sorted_indices() {
    let manifest = Manifest { operators: vec![op("x", &[]), op("y", &[]), op("z", &[])] };
    let plan = plan_from_order(&manifest, Ok(vec![2, 0, 1])).unwrap();
    assert_eq!(ids(&plan), vec!["z", "x", "y"]);
    match plan_from_order(&manifest, Err(1)) {
        Err(PlanError::CycleDetected(id)) => assert_eq!(id, "y"),
        _ => panic!("expected a cycle"),
    }
}

#[test]
fn order_operators_picks_by_index() {
    let ops = vec![op("a", &[]), op("b", &[])];
    let picked = order_operators(&ops, &vec![1, 1, 0]);
    assert_eq!(ids(&picked), vec!["b", "b", "a"]);
}

#[test]
fn planning_twice_gives_the_same_plan() {
    let manifest = Manifest {
        operators: vec![op("d", &["b", "c"]), op("c", &["a"]), op("b", &["a"]), op("a", &[])],
    };
    assert_eq!(ids(&plan_dag(&manifest).unwrap()), ids(&plan_dag(&manifest).unwrap()));
}

#[test]
fn listing_order_does_not_decide_whether_a_plan_exists() {
    let acyclic = [("a", vec![]), ("b", vec!["a"]), ("c", vec!["a", "b"])];
    let cyclic = [("a", vec!["c"]), ("b", vec!["a"]), ("c", vec!["b"])];
    let orders = [[0, 1, 2], [2, 1, 0], [1, 2, 0], [2, 0, 1]];
    for (spec, expect_ok) in [(&acyclic, true), (&cyclic, false)] {
        for order in orders {
            let operators = order
                .iter()
                .map(|&i| op(spec[i].0, &spec[i].1))
                .collect::<Vec<_>>();
            let manifest = Manifest { operators };
            assert_eq!(plan_dag(&manifest).is_ok(), expect_ok);
        }
    }
}

#[test]
fn plan_errors_convert_from_io_and_toml_errors() {
    let io = std::io::Error::new(std::io::ErrorKind::NotFound, "gone");
    assert!(matches!(PlanError::from(io), PlanError::Io(_)));
    let toml_err = toml::from_str::<toml::Table>("= broken").unwrap_err();
    assert!(matches!(PlanError::from(toml_err), PlanError::Parse(_)));
}
