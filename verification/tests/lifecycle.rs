use cordis_core::deps::DependencyEdge;
use cordis_core::ids::RealmKey;
use cordis_core::lifecycle::{map_spawn_failure, EraSwapFailure, SpawnError};
use cordis_core::plugin::InjectSpec;

#[test]
fn only_framework_interruption_maps_to_successor_lost_at_the_creation_seam() {
    assert!(matches!(
        map_spawn_failure(SpawnError::Interrupted),
        EraSwapFailure::SuccessorLost
    ));
}

#[test]
fn normalized_declaration_order_produces_the_same_exact_edges() {
    let a = InjectSpec::none().require("beta").require("alpha");
    let b = InjectSpec::none().require("alpha").require("beta");
    let edges = |spec: &InjectSpec| {
        spec.entries()
            .iter()
            .map(|entry| DependencyEdge::new(entry.name.clone(), RealmKey::default_realm()))
            .collect::<Vec<_>>()
    };
    assert_eq!(edges(&a), edges(&b));
}
