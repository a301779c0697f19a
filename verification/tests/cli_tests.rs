use sentinel_core::cli::{apply, plan_summary, workspace_paths};
use sentinel_core::dag::manifest::{Operator, OperatorKind};

fn transform(id: &str, udf: &str) -> Operator {
    Operator {
        id: id.to_string(),
        udf_name: udf.to_string(),
        depends: vec![],
        kind: OperatorKind::Transform,
    }
}

#[test]
fn workspace_paths_of_a_name() {
    let p = workspace_paths("demo");
    assert_eq!(p.udfs_src_dir, "demo/udfs/src");
    assert_eq!(p.manifest_toml, "demo/manifest.toml");
    assert_eq!(p.udfs_cargo_toml, "demo/udfs/Cargo.toml");
    assert_eq!(p.udfs_lib_rs, "demo/udfs/src/lib.rs");
}

#[test]
fn plan_summary_joins_udf_names() {
    let a = transform("a", "source_udf");
    let b = transform("b", "transform_udf");
    let c = transform("c", "sink_udf");
    assert_eq!(plan_summary(&vec![&a, &b, &c]), "source_udf -> transform_udf -> sink_udf");
    assert_eq!(plan_summary(&vec![&a]), "source_udf");
    assert_eq!(plan_summary(&vec![]), "");
}

#[test]
fn apply_does_nothing() {
    apply();
}
