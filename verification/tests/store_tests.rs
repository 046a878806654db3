use gltf_components::catalog::{TypeCatalog, TypeDescriptor};
use gltf_components::store::{
    add_components_from_gltf_extras, redirects_to_parent, target_entity, EntityStore, SceneNode,
};

fn catalog_with_health() -> TypeCatalog {
    let mut catalog = TypeCatalog::new();
    catalog.ensure_registered();
    catalog.register(TypeDescriptor {
        short_name: "Health".to_string(),
        type_path: "game::Health".to_string(),
        insertable: true,
    });
    catalog
}

fn node(id: u64, name: &str, parent: u64, metadata: Option<&str>) -> SceneNode {
    SceneNode {
        id,
        name: name.to_string(),
        parent,
        metadata: metadata.map(|m| m.to_string()),
        processed: false,
        components: Vec::new(),
    }
}

#[test]
fn naming_rule_redirects_helper_nodes() {
    assert!(redirects_to_parent("foo_components"));
    assert!(redirects_to_parent("bar_pa"));
    assert!(!redirects_to_parent("baz"));
}

#[test]
fn target_entity_follows_naming_rule() {
    assert_eq!(target_entity(2, "foo_components", 1), 1);
    assert_eq!(target_entity(2, "bar_pa", 1), 1);
    assert_eq!(target_entity(2, "baz", 1), 2);
}

#[test]
fn plain_node_keeps_its_own_records() {
    let catalog = catalog_with_health();
    let mut store = EntityStore {
        nodes: vec![
            node(1, "scene_root", 1, None),
            node(2, "player", 1, Some("{\"component: health\": \"(hp: 10)\"}")),
        ],
    };
    store.sweep(&catalog).unwrap();
    assert_eq!(store.nodes[0].components.len(), 0);
    assert_eq!(store.nodes[1].components.len(), 1);
    assert_eq!(store.nodes[1].components[0].type_path, "game::Health");
    assert_eq!(store.nodes[1].components[0].value_text, "Health(hp: 10)");
    assert!(store.nodes[1].processed);
    assert!(!store.nodes[0].processed);
}

#[test]
fn helper_node_redirects_records_to_parent() {
    let catalog = catalog_with_health();
    let mut store = EntityStore {
        nodes: vec![
            node(1, "armature", 1, None),
            node(2, "armature_components", 1, Some("{\"component: health\": \"(hp: 10)\"}")),
        ],
    };
    store.sweep(&catalog).unwrap();
    assert_eq!(store.nodes[0].components.len(), 1);
    assert_eq!(store.nodes[0].components[0].type_path, "game::Health");
    assert_eq!(store.nodes[1].components.len(), 0);
    assert!(store.nodes[1].processed);
}

#[test]
fn sweep_twice_changes_nothing_more() {
    let catalog = catalog_with_health();
    let mut store = EntityStore {
        nodes: vec![
            node(1, "scene_root", 1, None),
            node(2, "player", 1, Some("{\"component: health\": \"(hp: 10)\"}")),
        ],
    };
    store.sweep(&catalog).unwrap();
    let lens: Vec<usize> = store.nodes.iter().map(|n| n.components.len()).collect();
    let marks: Vec<bool> = store.nodes.iter().map(|n| n.processed).collect();
    store.sweep(&catalog).unwrap();
    let lens2: Vec<usize> = store.nodes.iter().map(|n| n.components.len()).collect();
    let marks2: Vec<bool> = store.nodes.iter().map(|n| n.processed).collect();
    assert_eq!(lens, lens2);
    assert_eq!(marks, marks2);
    assert_eq!(store.nodes[1].components[0].value_text, "Health(hp: 10)");
}

#[test]
fn non_insertable_record_is_not_injected() {
    let mut catalog = TypeCatalog::new();
    catalog.ensure_registered();
    catalog.register(TypeDescriptor {
        short_name: "Note".to_string(),
        type_path: "game::Note".to_string(),
        insertable: false,
    });
    let mut store = EntityStore {
        nodes: vec![node(1, "tagged", 1, Some("{\"component: note\": \"(text: \\\"x\\\")\"}"))],
    };
    store.sweep(&catalog).unwrap();
    assert_eq!(store.nodes[0].components.len(), 0);
    assert!(store.nodes[0].processed);
}

#[test]
fn empty_metadata_still_gets_marked_processed() {
    let catalog = catalog_with_health();
    let mut store = EntityStore { nodes: vec![node(1, "tagged", 1, Some("{}"))] };
    store.sweep(&catalog).unwrap();
    assert_eq!(store.nodes[0].components.len(), 0);
    assert!(store.nodes[0].processed);
}

#[test]
fn fatal_materialization_leaves_store_untouched() {
    let catalog = catalog_with_health();
    let mut store = EntityStore {
        nodes: vec![node(1, "broken", 1, Some("not a map at all"))],
    };
    assert!(store.sweep(&catalog).is_err());
    assert!(!store.nodes[0].processed);
    assert_eq!(store.nodes[0].components.len(), 0);
}

#[test]
fn full_pass_registers_containers_and_sweeps() {
    let mut catalog = TypeCatalog::new();
    catalog.register(TypeDescriptor {
        short_name: "Health".to_string(),
        type_path: "game::Health".to_string(),
        insertable: true,
    });
    let mut store = EntityStore {
        nodes: vec![node(1, "player", 1, Some("{\"component: health\": \"(hp: 7)\"}"))],
    };
    add_components_from_gltf_extras(&mut store, &mut catalog).unwrap();
    assert!(catalog.lookup_by_full_path("alloc::vec::Vec<alloc::string::String>").is_some());
    assert_eq!(store.nodes[0].components.len(), 1);
    assert_eq!(store.nodes[0].components[0].value_text, "Health(hp: 7)");
    assert!(store.nodes[0].processed);
}

#[test]
fn two_helpers_accumulate_on_one_parent() {
    let catalog = catalog_with_health();
    let mut store = EntityStore {
        nodes: vec![
            node(1, "armature", 1, None),
            node(2, "first_components", 1, Some("{\"component: health\": \"(hp: 1)\"}")),
            node(3, "second_pa", 1, Some("{\"component: health\": \"(hp: 2)\"}")),
        ],
    };
    store.sweep(&catalog).unwrap();
    assert_eq!(store.nodes[0].components.len(), 2);
    assert!(store.nodes[1].processed && store.nodes[2].processed);
}
