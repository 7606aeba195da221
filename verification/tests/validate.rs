//! Behavioural tests for deployment graph validation.
//!
//! Each invalid variant is derived from one valid baseline so the test asserts
//! that a single policy is what flips the deployment from valid to invalid.
//! Documents are read with `serde_yaml` into the library's raw deployment.

use neuradix::graph::issues::Severity;
use neuradix::graph::model::{
    ExecutionClass, RawComponent, RawConnection, RawDeployment, RawMetadata, RawNode, RawSpec, Role, Runtime,
};
use neuradix::graph::registry::{ContractEntry, ContractLayout, ContractRegistry, LayoutStatus};
use neuradix::graph::validate::{validate, GraphReport};
use neuradix::graph::yaml::YamlValue;
use serde_yaml::Value;

fn yaml_value(v: &Value) -> YamlValue {
    match v {
        Value::Null => YamlValue::Null,
        Value::Bool(b) => YamlValue::Bool(*b),
        Value::Number(n) => {
            if let Some(i) = n.as_i64() {
                YamlValue::Integer(i as i128)
            } else if let Some(u) = n.as_u64() {
                YamlValue::Integer(u as i128)
            } else {
                YamlValue::Float
            }
        }
        Value::String(s) => YamlValue::String(s.clone()),
        Value::Sequence(items) => YamlValue::Sequence(items.iter().map(yaml_value).collect()),
        Value::Mapping(m) => YamlValue::Mapping(m.iter().map(|(k, v)| (yaml_value(k), yaml_value(v))).collect()),
        Value::Tagged(_) => YamlValue::Tagged,
    }
}

fn text(v: &Value, key: &str) -> Option<String> {
    v.get(key).and_then(|x| x.as_str()).map(|s| s.to_owned())
}

fn texts(v: &Value, key: &str) -> Vec<String> {
    v.get(key)
        .and_then(|x| x.as_sequence())
        .map(|s| s.iter().filter_map(|x| x.as_str().map(|t| t.to_owned())).collect())
        .unwrap_or_default()
}

fn items(v: &Value, key: &str) -> Vec<Value> {
    v.get(key).and_then(|x| x.as_sequence()).cloned().unwrap_or_default()
}

fn raw(source: &str) -> RawDeployment {
    let doc: Value = serde_yaml::from_str(source).expect("well-formed YAML");
    let metadata = doc.get("metadata").map(|m| RawMetadata { name: text(m, "name") });
    let spec = doc.get("spec").map(|s| RawSpec {
        profile: text(s, "profile"),
        nodes: items(s, "nodes").iter().map(|n| RawNode { name: text(n, "name"), target: text(n, "target") }).collect(),
        components: items(s, "components")
            .iter()
            .map(|c| RawComponent {
                name: text(c, "name"),
                node: text(c, "node"),
                execution_class: text(c, "executionClass"),
                runtime: text(c, "runtime"),
                role: text(c, "role"),
                provides: texts(c, "provides"),
                requires: texts(c, "requires"),
                configuration: c.get("configuration").map(yaml_value).unwrap_or(YamlValue::Mapping(Vec::new())),
            })
            .collect(),
        connections: items(s, "connections")
            .iter()
            .map(|c| RawConnection {
                from: text(c, "from"),
                to: text(c, "to"),
                contract: text(c, "contract"),
                delay: c.get("delay").map(yaml_value).unwrap_or(YamlValue::String("instantaneous".to_owned())),
            })
            .collect(),
    });
    RawDeployment { api_version: text(&doc, "apiVersion"), kind: text(&doc, "kind"), metadata, spec }
}

fn from_yaml(source: &str) -> GraphReport {
    validate(&raw(source))
}

/// A well-formed reference deployment: sensor -> planner -> safety -> actuator,
/// with Python confined to a best-effort perception stage.
fn valid_manifest() -> String {
    r#"
apiVersion: deploy.neuradix.io/v1alpha1
kind: RobotDeployment
metadata:
  name: reference-auv
spec:
  profile: marine-auv
  nodes:
    - name: main
      target: linux-aarch64
    - name: gpu
      target: linux-x86_64
  components:
    - name: sonar
      node: main
      executionClass: interactive
      provides: [range.v1]
    - name: perception
      node: gpu
      executionClass: batch-ai
      runtime: python
      requires: [range.v1]
      provides: [obstacles.v1]
    - name: planner
      node: main
      executionClass: interactive
      requires: [obstacles.v1]
      provides: [setpoint.v1]
    - name: safety
      node: main
      executionClass: deterministic
      role: safety
      requires: [setpoint.v1]
      provides: [thrust-cmd.v1]
    - name: thruster
      node: main
      executionClass: hard-real-time
      role: actuator
      requires: [thrust-cmd.v1]
  connections:
    - from: sonar
      to: perception
      contract: range.v1
    - from: perception
      to: planner
      contract: obstacles.v1
    - from: planner
      to: safety
      contract: setpoint.v1
    - from: safety
      to: thruster
      contract: thrust-cmd.v1
"#
    .to_owned()
}

fn report_codes(manifest: &str) -> Vec<String> {
    let report = from_yaml(manifest);
    report.issues().iter().filter(|i| i.severity == Severity::Error).map(|i| i.code.clone()).collect()
}

#[test]
fn valid_deployment_is_valid() {
    let report = from_yaml(&valid_manifest());
    assert!(report.is_valid(), "expected valid, got issues: {:?}", report.issues());
    assert_eq!(report.error_count(), 0);
    assert!(report.identity().unwrap().starts_with("neuradix.deployment.declared.v2:sha256:"));
}

#[test]
fn identity_is_stable_across_reordering() {
    let a = from_yaml(&valid_manifest());
    // Reverse the connection order; identity must be unchanged.
    let reordered = valid_manifest()
        .replace("range.v1\n    - from: perception", "PLACEHOLDER")
        .replace("PLACEHOLDER", "range.v1\n    - from: perception");
    let b = from_yaml(&reordered);
    assert_eq!(a.identity(), b.identity());
}

#[test]
fn python_on_deterministic_path_is_rejected() {
    let manifest = valid_manifest().replace(
        "      executionClass: batch-ai\n      runtime: python",
        "      executionClass: deterministic\n      runtime: python",
    );
    let codes = report_codes(&manifest);
    assert!(codes.contains(&"python-in-deterministic-path".to_owned()), "codes: {codes:?}");
}

#[test]
fn python_feeding_deterministic_consumer_is_rejected() {
    let manifest = valid_manifest().replace(
        "      executionClass: interactive\n      requires: [obstacles.v1]",
        "      executionClass: deterministic\n      requires: [obstacles.v1]",
    );
    let codes = report_codes(&manifest);
    assert!(codes.contains(&"python-feeds-deterministic-path".to_owned()), "codes: {codes:?}");
}

#[test]
fn actuator_bypassing_safety_is_rejected() {
    let manifest = valid_manifest().replace(
        "    - from: planner\n      to: safety\n      contract: setpoint.v1",
        "    - from: planner\n      to: thruster\n      contract: thrust-cmd.v1",
    );
    let codes = report_codes(&manifest);
    assert!(codes.contains(&"actuator-authority-bypass".to_owned()), "codes: {codes:?}");
}

#[test]
fn actuator_without_safety_authority_is_rejected() {
    let manifest = valid_manifest().replace("      role: safety\n", "");
    let codes = report_codes(&manifest);
    assert!(codes.contains(&"missing-safety".to_owned()), "codes: {codes:?}");
}

#[test]
fn unknown_node_placement_is_rejected() {
    let manifest = valid_manifest().replace("      node: gpu", "      node: nonexistent");
    let codes = report_codes(&manifest);
    assert!(codes.contains(&"unknown-node".to_owned()), "codes: {codes:?}");
}

#[test]
fn provider_mismatch_is_rejected() {
    let manifest = valid_manifest().replace(
        "    - from: sonar\n      to: perception\n      contract: range.v1",
        "    - from: sonar\n      to: perception\n      contract: depth.v1",
    );
    let codes = report_codes(&manifest);
    assert!(codes.contains(&"provider-mismatch".to_owned()), "codes: {codes:?}");
}

#[test]
fn unresolved_requirement_is_rejected() {
    let manifest =
        valid_manifest().replace("    - from: perception\n      to: planner\n      contract: obstacles.v1\n", "");
    let codes = report_codes(&manifest);
    assert!(codes.contains(&"unresolved-requirement".to_owned()), "codes: {codes:?}");
}

#[test]
fn unknown_endpoint_is_rejected() {
    let manifest = valid_manifest()
        .replace("      to: perception\n      contract: range.v1", "      to: ghost\n      contract: range.v1");
    let codes = report_codes(&manifest);
    assert!(codes.contains(&"unknown-endpoint".to_owned()), "codes: {codes:?}");
}

#[test]
fn cycle_is_rejected() {
    let manifest = valid_manifest()
        .replace(
            "      role: safety\n      requires: [setpoint.v1]\n      provides: [thrust-cmd.v1]",
            "      role: safety\n      requires: [setpoint.v1]\n      provides: [thrust-cmd.v1, loop.v1]",
        )
        .replace(
            "      requires: [obstacles.v1]\n      provides: [setpoint.v1]",
            "      requires: [obstacles.v1, loop.v1]\n      provides: [setpoint.v1]",
        )
        .replace(
            "    - from: safety\n      to: thruster\n      contract: thrust-cmd.v1",
            "    - from: safety\n      to: thruster\n      contract: thrust-cmd.v1\n    - from: safety\n      to: planner\n      contract: loop.v1",
        );
    let codes = report_codes(&manifest);
    assert!(codes.contains(&"prohibited-cycle".to_owned()), "codes: {codes:?}");
}

#[test]
fn missing_api_version_and_kind_are_rejected() {
    let manifest = r#"
metadata:
  name: bare
spec:
  components: []
"#;
    let codes = report_codes(manifest);
    assert!(codes.contains(&"missing-field".to_owned()), "codes: {codes:?}");
}

#[test]
fn reordering_components_keeps_the_identity() {
    let a = from_yaml(&valid_manifest());
    let reordered = valid_manifest().replace(
        "    - name: sonar\n      node: main\n      executionClass: interactive\n      provides: [range.v1]\n",
        "",
    ) .replace(
        "  components:\n",
        "  components:\n    - name: sonar\n      node: main\n      executionClass: interactive\n      provides: [range.v1]\n",
    );
    let b = from_yaml(&reordered);
    assert!(b.is_valid());
    assert_eq!(a.identity(), b.identity());
}

#[test]
fn an_invalid_deployment_has_no_identity() {
    let manifest = valid_manifest().replace("      node: gpu", "      node: nonexistent");
    let report = from_yaml(&manifest);
    assert!(!report.is_valid());
    assert!(report.error_count() >= 1);
}

fn contract(identifier: &str) -> ContractEntry {
    ContractEntry {
        identifier: identifier.to_owned(),
        version: "1.0.0".to_owned(),
        schema_id: format!("sha256:{}", "ab".repeat(32)),
        layout: LayoutStatus::Supported(ContractLayout { codec_id: "codec".to_owned(), wire_id: "wire".to_owned() }),
    }
}

fn standard_registry() -> ContractRegistry {
    let mut reg = ContractRegistry::new();
    reg.insert(contract("io.neuradix.control/depth-setpoint"), "depth-setpoint.yaml".to_owned()).unwrap();
    reg.insert(contract("io.neuradix.actuation/thrust-command"), "thrust-command.yaml".to_owned()).unwrap();
    reg
}

/// A deployment wiring two registered contracts by their pinned references.
fn reference_manifest() -> &'static str {
    r#"
apiVersion: deploy.neuradix.io/v1alpha1
kind: RobotDeployment
metadata:
  name: registry-demo
spec:
  nodes:
    - name: main
      target: linux-aarch64
  components:
    - name: planner
      node: main
      executionClass: interactive
      provides: [io.neuradix.control/depth-setpoint@1.0.0]
    - name: safety
      node: main
      executionClass: deterministic
      role: safety
      requires: [io.neuradix.control/depth-setpoint@1.0.0]
      provides: [io.neuradix.actuation/thrust-command@1.0.0]
    - name: thruster
      node: main
      executionClass: hard-real-time
      role: actuator
      requires: [io.neuradix.actuation/thrust-command@1.0.0]
  connections:
    - from: planner
      to: safety
      contract: io.neuradix.control/depth-setpoint@1.0.0
    - from: safety
      to: thruster
      contract: io.neuradix.actuation/thrust-command@1.0.0
"#
}

#[test]
fn registry_validation_resolves_every_wired_contract() {
    let report = neuradix::graph::validate::validate_with_registry(&raw(reference_manifest()), &standard_registry());
    assert!(report.is_valid(), "issues: {:?}", report.issues());
    assert_eq!(report.resolved().len(), 2);
    assert!(report.resolved().iter().all(|r| r.schema_id.starts_with("sha256:")));
    let identity = report.resolved_identity().unwrap();
    assert!(identity.starts_with("neuradix.deployment.resolved.v2:sha256:"));
    assert_eq!(identity.len(), "neuradix.deployment.resolved.v2:sha256:".len() + 64);
}

#[test]
fn registry_validation_flags_an_unregistered_reference() {
    let manifest =
        reference_manifest().replace("io.neuradix.actuation/thrust-command@1.0.0", "io.neuradix.actuation/ghost@1.0.0");
    let report = neuradix::graph::validate::validate_with_registry(&raw(&manifest), &standard_registry());
    assert!(!report.is_valid());
    assert!(
        report.issues().iter().any(|i| i.severity == Severity::Error && i.code == "unknown-contract"),
        "issues: {:?}",
        report.issues()
    );
    assert!(report.resolved_identity().is_none());
}

#[test]
fn declared_identity_names_its_version_and_digest() {
    let report = from_yaml(&valid_manifest());
    let identity = report.identity().unwrap();
    let prefix = "neuradix.deployment.declared.v2:sha256:";
    assert!(identity.starts_with(prefix));
    let digest = &identity[prefix.len()..];
    assert_eq!(digest.len(), 64);
    assert!(digest.chars().all(|c| c.is_ascii_digit() || ('a'..='f').contains(&c)));
}

#[test]
fn spelling_lists_follow_declaration_order() {
    assert_eq!(ExecutionClass::ALL, ["hard-real-time", "deterministic", "interactive", "best-effort", "batch-ai"]);
    assert_eq!(Runtime::ALL, ["rust", "python"]);
    assert_eq!(Role::ALL, ["normal", "safety", "actuator"]);
    for s in ExecutionClass::ALL {
        assert_eq!(ExecutionClass::parse(s).unwrap().as_str(), s);
    }
    for s in Runtime::ALL {
        assert_eq!(Runtime::parse(s).unwrap().as_str(), s);
    }
    for s in Role::ALL {
        assert_eq!(Role::parse(s).unwrap().as_str(), s);
    }
}

#[test]
fn error_and_warning_counts_cover_the_issues() {
    for manifest in [valid_manifest(), valid_manifest().replace("      node: gpu", "      node: nonexistent")] {
        let report = from_yaml(&manifest);
        assert_eq!(report.is_valid(), report.error_count() == 0);
        assert_eq!(report.error_count() + report.warning_count(), report.issues().len());
        assert_eq!(report.warning_count(), 0);
    }
}

#[test]
fn resolved_bindings_follow_reference_order() {
    let report = neuradix::graph::validate::validate_with_registry(&raw(reference_manifest()), &standard_registry());
    let refs: Vec<&str> = report.resolved().iter().map(|r| r.reference.as_str()).collect();
    assert_eq!(refs.len(), 2);
    assert!(refs.windows(2).all(|w| w[0].as_bytes() < w[1].as_bytes()), "{refs:?}");
    assert!(from_yaml(reference_manifest()).resolved().is_empty());
}
