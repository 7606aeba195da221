//! Contract-registry resolution over registered entries.

use neuradix::graph::registry::{ContractEntry, ContractLayout, ContractRegistry, LayoutStatus, RegistryError, Resolution};

fn entry(identifier: &str, version: &str) -> ContractEntry {
    ContractEntry {
        identifier: identifier.to_owned(),
        version: version.to_owned(),
        schema_id: format!("sha256:{identifier}-{version}"),
        layout: LayoutStatus::Supported(ContractLayout { codec_id: "codec".to_owned(), wire_id: "wire".to_owned() }),
    }
}

fn registry() -> ContractRegistry {
    let mut reg = ContractRegistry::new();
    reg.insert(entry("io.neuradix.navigation/vehicle-depth", "1.0.0"), "depth.yaml".to_owned()).unwrap();
    reg.insert(entry("io.neuradix.test/widget", "2.0.0"), "widget-2.yaml".to_owned()).unwrap();
    reg.insert(entry("io.neuradix.test/widget", "1.0.0"), "widget-1.yaml".to_owned()).unwrap();
    reg
}

#[test]
fn resolves_a_pinned_reference_to_a_schema_identity() {
    let reg = registry();
    match reg.resolve("io.neuradix.navigation/vehicle-depth@1.0.0") {
        Resolution::Resolved(entry) => {
            assert_eq!(entry.identifier, "io.neuradix.navigation/vehicle-depth");
            assert_eq!(entry.version, "1.0.0");
            assert!(entry.schema_id.starts_with("sha256:"));
        }
        other => panic!("expected resolved, got {other:?}"),
    }
}

#[test]
fn resolves_an_unpinned_single_version_reference() {
    let reg = registry();
    assert!(matches!(reg.resolve("io.neuradix.navigation/vehicle-depth"), Resolution::Resolved(_)));
}

#[test]
fn unknown_contract_does_not_resolve() {
    assert_eq!(registry().resolve("io.neuradix.nowhere/ghost"), Resolution::UnknownContract);
}

#[test]
fn unknown_version_does_not_resolve() {
    assert_eq!(registry().resolve("io.neuradix.navigation/vehicle-depth@9.9.9"), Resolution::UnknownVersion);
}

#[test]
fn malformed_references_are_rejected() {
    let reg = registry();
    assert_eq!(reg.resolve(""), Resolution::Malformed);
    assert_eq!(reg.resolve("@1.0.0"), Resolution::Malformed);
    assert_eq!(reg.resolve("io.neuradix.navigation/vehicle-depth@"), Resolution::Malformed);
}

#[test]
fn multiple_versions_are_ambiguous_unless_pinned() {
    let reg = registry();
    match reg.resolve("io.neuradix.test/widget") {
        Resolution::Ambiguous(versions) => {
            assert_eq!(versions, vec!["1.0.0".to_owned(), "2.0.0".to_owned()]);
        }
        other => panic!("expected ambiguous, got {other:?}"),
    }
    assert!(matches!(reg.resolve("io.neuradix.test/widget@2.0.0"), Resolution::Resolved(_)));
}

#[test]
fn duplicate_registrations_are_refused() {
    let mut reg = registry();
    assert_eq!(reg.len(), 3);
    let err = reg.insert(entry("io.neuradix.test/widget", "1.0.0"), "again.yaml".to_owned()).unwrap_err();
    assert_eq!(
        err,
        RegistryError::Duplicate {
            identifier: "io.neuradix.test/widget".to_owned(),
            version: "1.0.0".to_owned(),
            first: "widget-1.yaml".to_owned(),
            second: "again.yaml".to_owned(),
        }
    );
    assert_eq!(reg.len(), 3);
    assert!(!reg.is_empty());
    assert!(ContractRegistry::new().is_empty());
}
