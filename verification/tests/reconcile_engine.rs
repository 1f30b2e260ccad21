use lobby_core::messages::{GameState, TransformData};
use lobby_core::reconcile::{MyEntityMapping, ReconcileOp};

fn transform(x: i64, y: i64, z: i64) -> TransformData {
    TransformData { x, y, z, rotation: 0 }
}

fn snapshot(tick: u64, projectiles: Vec<(u64, TransformData)>) -> GameState {
    GameState { tick, player_states: Vec::new(), projectile_states: projectiles }
}

#[test]
fn first_snapshot_materializes_every_entity() {
    let mut mapping = MyEntityMapping::new();
    let snap = snapshot(1, vec![(100, transform(1, 0, 0)), (200, transform(2, 0, 0))]);
    let ops = mapping.reconcile(&snap, &Vec::new());
    assert_eq!(ops.len(), 2);
    assert!(matches!(ops[0], ReconcileOp::Create { server: 100, .. }));
    assert!(matches!(ops[1], ReconcileOp::Create { server: 200, .. }));
    assert_eq!(mapping.mapping.len(), 2);
}

#[test]
fn repeated_identical_snapshot_is_a_no_op() {
    let mut mapping = MyEntityMapping::new();
    let snap = snapshot(1, vec![(100, transform(1, 0, 0)), (200, transform(2, 0, 0))]);
    let ops = mapping.reconcile(&snap, &Vec::new());
    let live: Vec<u64> = ops
        .iter()
        .filter_map(|op| match op {
            ReconcileOp::Create { client, .. } => Some(*client),
            _ => None,
        })
        .collect();
    let before = mapping.mapping.clone();
    // the identical snapshot again: nothing created, updated or destroyed
    let snap2 = snapshot(2, vec![(100, transform(1, 0, 0)), (200, transform(2, 0, 0))]);
    let ops2 = mapping.reconcile(&snap2, &live);
    assert!(ops2.is_empty());
    assert_eq!(mapping.mapping, before);
}

#[test]
fn dropped_entity_is_destroyed_and_survivor_untouched() {
    let mut mapping = MyEntityMapping::new();
    let tick_n = snapshot(7, vec![(100, transform(1, 0, 0)), (200, transform(2, 0, 0))]);
    let ops = mapping.reconcile(&tick_n, &Vec::new());
    let c100 = match ops[0] {
        ReconcileOp::Create { client, .. } => client,
        _ => panic!("expected a create"),
    };
    let c200 = match ops[1] {
        ReconcileOp::Create { client, .. } => client,
        _ => panic!("expected a create"),
    };
    let live = vec![c100, c200];
    // the next tick no longer lists the first projectile, and the second
    // is unchanged: only the first local entity is destroyed, no update
    let tick_n1 = snapshot(8, vec![(200, transform(2, 0, 0))]);
    let ops2 = mapping.reconcile(&tick_n1, &live);
    assert_eq!(ops2, vec![ReconcileOp::Destroy { client: c100 }]);
    assert_eq!(mapping.mapping.len(), 1);
    assert_eq!(mapping.mapping[0].server_entity, 200);
    assert_eq!(mapping.mapping[0].client_entity, c200);
}

#[test]
fn changed_state_is_updated_in_place() {
    let mut mapping = MyEntityMapping::new();
    let first = snapshot(1, vec![(100, transform(1, 0, 0))]);
    let ops = mapping.reconcile(&first, &Vec::new());
    let c100 = match ops[0] {
        ReconcileOp::Create { client, .. } => client,
        _ => panic!("expected a create"),
    };
    let moved = snapshot(2, vec![(100, transform(5, 5, 0))]);
    let ops2 = mapping.reconcile(&moved, &vec![c100]);
    assert_eq!(ops2, vec![ReconcileOp::Update { client: c100, state: transform(5, 5, 0) }]);
    assert_eq!(mapping.mapping.len(), 1);
    assert_eq!(mapping.mapping[0].client_entity, c100);
}

#[test]
fn dead_local_entity_is_rematerialized() {
    let mut mapping = MyEntityMapping::new();
    let first = snapshot(1, vec![(100, transform(1, 0, 0))]);
    let _ = mapping.reconcile(&first, &Vec::new());
    // the local entity was destroyed by other means: an empty live set
    let again = snapshot(2, vec![(100, transform(1, 0, 0))]);
    let ops = mapping.reconcile(&again, &Vec::new());
    assert_eq!(ops.len(), 1);
    assert!(matches!(ops[0], ReconcileOp::Create { server: 100, .. }));
    assert_eq!(mapping.mapping.len(), 1);
}

#[test]
fn stale_mapping_of_a_dead_local_is_dropped_without_destroy() {
    let mut mapping = MyEntityMapping::new();
    let first = snapshot(1, vec![(100, transform(1, 0, 0))]);
    let _ = mapping.reconcile(&first, &Vec::new());
    // the entity leaves the snapshot while its local stand-in is already
    // gone: the mapping is dropped and no second destroy is attempted
    let empty = snapshot(2, Vec::new());
    let ops = mapping.reconcile(&empty, &Vec::new());
    assert!(ops.is_empty());
    assert!(mapping.mapping.is_empty());
}

#[test]
fn map_entity_answers_for_mapped_servers_only() {
    let mut mapping = MyEntityMapping::new();
    let snap = snapshot(1, vec![(100, transform(1, 0, 0))]);
    let ops = mapping.reconcile(&snap, &Vec::new());
    let c100 = match ops[0] {
        ReconcileOp::Create { client, .. } => client,
        _ => panic!("expected a create"),
    };
    assert_eq!(mapping.map_entity(100), Some(c100));
    assert_eq!(mapping.map_entity(200), None);
}
