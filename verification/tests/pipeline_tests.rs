use gltf_components::catalog::{TypeCatalog, TypeDescriptor};
use gltf_components::materialize::{materialize_entries, MaterializeError};

fn catalog_with(descs: Vec<(&str, &str, bool)>) -> TypeCatalog {
    let mut catalog = TypeCatalog::new();
    catalog.ensure_registered();
    for (short, path, insertable) in descs {
        catalog.register(TypeDescriptor {
            short_name: short.to_string(),
            type_path: path.to_string(),
            insertable,
        });
    }
    catalog
}

#[test]
fn velocity_scenario_yields_one_entry() {
    let catalog = catalog_with(vec![("Velocity", "game::Velocity", true)]);
    let blob = "{\"component: velocity\": \"(x: 1.0, y: 0.0, z: 0.0)\"}";
    let out = materialize_entries(blob, &catalog).unwrap();
    assert_eq!(out.len(), 1);
    assert_eq!(out[0].type_path, "game::Velocity");
    assert_eq!(out[0].value_text, "Velocity(x: 1.0, y: 0.0, z: 0.0)");
    assert!(out[0].insertable);
}

#[test]
fn velocity_value_equals_canonical_literal_form() {
    let catalog = catalog_with(vec![("Velocity", "game::Velocity", true)]);
    let blob = "{\"component: velocity\": \"(x: 1.0, y: 0.0, z: 0.0)\"}";
    let out = materialize_entries(blob, &catalog).unwrap();
    let produced: ron::Value = ron::from_str(&out[0].value_text).unwrap();
    let direct: ron::Value = ron::from_str("Velocity(x: 1.0, y: 0.0, z: 0.0)").unwrap();
    assert_eq!(produced, direct);
}

#[test]
fn nested_health_scenario() {
    let catalog = catalog_with(vec![("Health", "pkg::Health", true)]);
    let blob = "{\"bevy_components\": \"{\\\"pkg::Health\\\": \\\"(hp: 10)\\\"}\"}";
    let out = materialize_entries(blob, &catalog).unwrap();
    assert_eq!(out.len(), 1);
    assert_eq!(out[0].type_path, "pkg::Health");
    assert_eq!(out[0].value_text, "{ \"pkg::Health\":(hp: 10) }");
    let produced: ron::Value = ron::from_str(&out[0].value_text).unwrap();
    let direct: ron::Value = ron::from_str("{ \"pkg::Health\":(hp: 10) }").unwrap();
    assert_eq!(produced, direct);
}

#[test]
fn all_resolving_entries_all_materialize() {
    let catalog = catalog_with(vec![
        ("Velocity", "game::Velocity", true),
        ("Health", "game::Health", true),
    ]);
    let blob = "{\"component: velocity\": \"(x: 1.0, y: 0.0, z: 0.0)\", \"component: health\": \"(hp: 10)\"}";
    let out = materialize_entries(blob, &catalog).unwrap();
    assert_eq!(out.len(), 2);
}

#[test]
fn unknown_type_contributes_nothing_and_poisons_nothing() {
    let catalog = catalog_with(vec![("Health", "game::Health", true)]);
    let blob = "{\"component: mystery\": \"(a: 1)\", \"component: health\": \"(hp: 10)\"}";
    let out = materialize_entries(blob, &catalog).unwrap();
    assert_eq!(out.len(), 1);
    assert_eq!(out[0].type_path, "game::Health");
}

#[test]
fn nested_unknown_path_is_skipped() {
    let catalog = catalog_with(vec![]);
    let blob = "{\"bevy_components\": \"{\\\"pkg::Unknown\\\": \\\"(a: 1)\\\"}\"}";
    let out = materialize_entries(blob, &catalog).unwrap();
    assert_eq!(out.len(), 0);
}

#[test]
fn nested_unknown_path_does_not_poison_group() {
    let catalog = catalog_with(vec![("Health", "pkg::Health", true)]);
    let blob = "{\"bevy_components\": \"{\\\"pkg::Health\\\": \\\"(hp: 10)\\\", \\\"pkg::Unknown\\\": \\\"(a: 1)\\\"}\"}";
    let out = materialize_entries(blob, &catalog).unwrap();
    assert_eq!(out.len(), 1);
    assert_eq!(out[0].type_path, "pkg::Health");
}

#[test]
fn nested_structured_value_is_reserialized() {
    let catalog = catalog_with(vec![("Score", "pkg::Score", true)]);
    let blob = "{\"bevy_components\": \"{\\\"pkg::Score\\\": (points: 5)}\"}";
    let out = materialize_entries(blob, &catalog).unwrap();
    assert_eq!(out.len(), 1);
    assert_eq!(out[0].type_path, "pkg::Score");
    assert!(out[0].value_text.starts_with("{ \"pkg::Score\":"));
    let produced: ron::Value = ron::from_str(&out[0].value_text).unwrap();
    let direct: ron::Value = ron::from_str("{ \"pkg::Score\":{\"points\":5} }").unwrap();
    assert_eq!(produced, direct);
}

#[test]
fn empty_blob_materializes_nothing() {
    let catalog = catalog_with(vec![]);
    let out = materialize_entries("{}", &catalog).unwrap();
    assert_eq!(out.len(), 0);
}

#[test]
fn malformed_blob_is_fatal_with_nothing_produced() {
    let catalog = catalog_with(vec![]);
    let r = materialize_entries("this is not a map", &catalog);
    assert_eq!(r.unwrap_err(), MaterializeError::MalformedBlob);
}

#[test]
fn malformed_resolved_value_is_fatal() {
    let catalog = catalog_with(vec![("Velocity", "game::Velocity", true)]);
    let blob = "{\"component: velocity\": \"(x: (1.0)\"}";
    let r = materialize_entries(blob, &catalog);
    assert_eq!(r.unwrap_err(), MaterializeError::MalformedEntry);
}

#[test]
fn malformed_nested_map_is_fatal() {
    let catalog = catalog_with(vec![]);
    let blob = "{\"bevy_components\": \"not a nested map\"}";
    let r = materialize_entries(blob, &catalog);
    assert_eq!(r.unwrap_err(), MaterializeError::MalformedEntry);
}

#[test]
fn lookup_by_short_name_finds_registered_type() {
    let catalog = catalog_with(vec![("Velocity", "game::Velocity", true)]);
    let d = catalog.lookup_by_short_name("Velocity").unwrap();
    assert_eq!(d.type_path, "game::Velocity");
    assert!(catalog.lookup_by_short_name("Missing").is_none());
}

#[test]
fn lookup_by_full_path_finds_registered_type() {
    let catalog = catalog_with(vec![("Velocity", "game::Velocity", true)]);
    let d = catalog.lookup_by_full_path("game::Velocity").unwrap();
    assert_eq!(d.short_name, "Velocity");
    assert!(catalog.lookup_by_full_path("game::Missing").is_none());
}

#[test]
fn ensure_registered_adds_well_known_containers_once() {
    let mut catalog = TypeCatalog::new();
    catalog.ensure_registered();
    let n = catalog.descriptors.len();
    assert!(catalog.lookup_by_full_path("alloc::vec::Vec<alloc::string::String>").is_some());
    assert!(catalog
        .lookup_by_full_path(
            "std::collections::HashMap<alloc::string::String, alloc::vec::Vec<alloc::string::String>>",
        )
        .is_some());
    catalog.ensure_registered();
    assert_eq!(catalog.descriptors.len(), n);
}

#[test]
fn well_known_container_resolves_through_nested_path() {
    let catalog = catalog_with(vec![]);
    let blob =
        "{\"bevy_components\": \"{\\\"alloc::vec::Vec<alloc::string::String>\\\": [\\\"a\\\", \\\"b\\\"]}\"}";
    let out = materialize_entries(blob, &catalog).unwrap();
    assert_eq!(out.len(), 1);
    assert_eq!(out[0].type_path, "alloc::vec::Vec<alloc::string::String>");
    assert!(!out[0].insertable);
}
