//! Scenario tests for the collision scan and resolution pass.

use spacegame_collision::collision::find_collisions;
use spacegame_collision::event::GameEvent;
use spacegame_collision::layers;
use spacegame_collision::layers::CollisionLayer;
use spacegame_collision::math::Vec2i;
use spacegame_collision::resolve::process_collisions;
use spacegame_collision::resolve::resolve_pairs;
use spacegame_collision::world::BoundingBox;
use spacegame_collision::world::Bullet;
use spacegame_collision::world::DynamicBody;
use spacegame_collision::world::EntityEntry;
use spacegame_collision::world::Health;
use spacegame_collision::world::Transform;
use spacegame_collision::world::World;

fn entry(id: u64, x: i64, y: i64, hx: i64, hy: i64, layer: u32, mask: Option<u32>) -> EntityEntry {
    EntityEntry {
        id,
        transform: Some(Transform { translation: Vec2i { x, y } }),
        bounding_box: Some(BoundingBox {
            half_extend: Vec2i { x: hx, y: hy },
            collision_layer: CollisionLayer::new(layer),
            collision_mask: mask.map(CollisionLayer::new),
        }),
        bullet: None,
        health: None,
        body: None,
    }
}

fn world_of(entries: Vec<EntityEntry>) -> World {
    World { entities: entries }
}

#[test]
fn scan_skips_disjoint_boxes() {
    // Disjoint on the X axis, mutually interested layers: never reported.
    let a = entry(1, 0, 0, 10, 10, layers::PLAYER, Some(layers::ENEMY));
    let b = entry(2, 100, 0, 10, 10, layers::ENEMY, Some(layers::PLAYER));
    let w = world_of(vec![a, b]);
    assert_eq!(find_collisions(&w), vec![]);
}

#[test]
fn scan_reports_eligible_overlap_once() {
    let a = entry(1, 0, 0, 10, 10, layers::PLAYER, Some(layers::ENEMY));
    let b = entry(2, 5, 5, 10, 10, layers::ENEMY, Some(layers::PLAYER));
    let w = world_of(vec![a, b]);
    // Exactly one pair, in iteration order, never the reversed order too.
    assert_eq!(find_collisions(&w), vec![(1, 2)]);
}

#[test]
fn scan_filter_runs_before_geometry() {
    // Fully overlapping boxes, but no mask names the other's layer.
    let a = entry(1, 0, 0, 10, 10, layers::PLAYER, Some(layers::ASTEROID));
    let b = entry(2, 0, 0, 10, 10, layers::ENEMY, Some(layers::ASTEROID));
    let w = world_of(vec![a, b]);
    assert_eq!(find_collisions(&w), vec![]);
}

#[test]
fn scan_absent_mask_matches_nothing() {
    // Overlapping, but both masks absent: no direction passes the filter.
    let a = entry(1, 0, 0, 10, 10, layers::PLAYER, None);
    let b = entry(2, 0, 0, 10, 10, layers::ENEMY, None);
    let w = world_of(vec![a, b]);
    assert_eq!(find_collisions(&w), vec![]);
}

#[test]
fn scan_filter_is_checked_in_both_directions() {
    // Only b's mask names a's layer; the pair is still reported.
    let a = entry(1, 0, 0, 10, 10, layers::PLAYER, None);
    let b = entry(2, 5, 0, 10, 10, layers::ENEMY, Some(layers::PLAYER));
    let w = world_of(vec![a, b]);
    assert_eq!(find_collisions(&w), vec![(1, 2)]);
}

#[test]
fn scan_touching_edges_do_not_collide() {
    // Boxes touch exactly at x = 10: strict overlap fails.
    let a = entry(1, 0, 0, 10, 10, layers::PLAYER, Some(layers::ENEMY));
    let b = entry(2, 20, 0, 10, 10, layers::ENEMY, Some(layers::PLAYER));
    let w = world_of(vec![a, b]);
    assert_eq!(find_collisions(&w), vec![]);
}

#[test]
fn scan_skips_entities_without_both_components() {
    let mut a = entry(1, 0, 0, 10, 10, layers::PLAYER, Some(layers::ENEMY));
    a.transform = None;
    let b = entry(2, 0, 0, 10, 10, layers::ENEMY, Some(layers::PLAYER));
    let w = world_of(vec![a, b]);
    assert_eq!(find_collisions(&w), vec![]);
}

#[test]
fn scan_orders_pairs_by_iteration_order() {
    // Three mutually interested, mutually overlapping entities.
    let m = layers::PLAYER | layers::ENEMY | layers::ASTEROID;
    let a = entry(7, 0, 0, 10, 10, layers::PLAYER, Some(m));
    let b = entry(8, 1, 0, 10, 10, layers::ENEMY, Some(m));
    let c = entry(9, 2, 0, 10, 10, layers::ASTEROID, Some(m));
    let w = world_of(vec![a, b, c]);
    assert_eq!(find_collisions(&w), vec![(7, 8), (7, 9), (8, 9)]);
}

#[test]
fn resolve_kills_live_bullet_and_emits_delete() {
    let mut a = entry(1, 0, 0, 25, 25, layers::PLAYER, Some(layers::ENEMY_BULLET));
    a.health = Some(Health { marker: true });
    let mut b = entry(2, 10, 0, 5, 5, layers::ENEMY_BULLET, Some(0));
    b.bullet = Some(Bullet { alive: true });
    let mut w = world_of(vec![a, b]);
    let pairs = find_collisions(&w);
    assert_eq!(pairs, vec![(1, 2)]);
    let events = resolve_pairs(&mut w, &pairs);
    // Entity 1 first: it has health, so a hit event; then entity 2's bullet
    // dies and a deletion event is queued.
    assert_eq!(events, vec![GameEvent::Hit(1), GameEvent::Delete(2)]);
    assert_eq!(w.entities[1].bullet, Some(Bullet { alive: false }));
}

#[test]
fn resolve_dead_bullet_is_idempotent() {
    // A bullet colliding with two entities in one frame: one deletion event
    // only, and no hit event from the second pair for the dead bullet.
    let mut bullet = entry(1, 0, 0, 5, 5, layers::ENEMY_BULLET, Some(0));
    bullet.bullet = Some(Bullet { alive: true });
    bullet.health = Some(Health { marker: true });
    let mut a = entry(2, 1, 0, 10, 10, layers::PLAYER, Some(layers::ENEMY_BULLET));
    a.health = Some(Health { marker: true });
    let mut b = entry(3, 2, 0, 10, 10, layers::ENEMY, Some(layers::ENEMY_BULLET));
    b.health = Some(Health { marker: true });
    let mut w = world_of(vec![bullet, a, b]);
    let pairs = find_collisions(&w);
    assert_eq!(pairs, vec![(1, 2), (1, 3)]);
    let events = resolve_pairs(&mut w, &pairs);
    // First pair: bullet dies (deletion, then its own hit), then entity 2 is
    // hit. Second pair: the bullet is already dead and contributes nothing;
    // entity 3 is still hit.
    assert_eq!(
        events,
        vec![
            GameEvent::Delete(1),
            GameEvent::Hit(1),
            GameEvent::Hit(2),
            GameEvent::Hit(3),
        ]
    );
}

#[test]
fn resolve_applies_symmetric_opposed_impulses() {
    // Entities at (30, 0) and (0, 0): direction from b to a is +x, length 30.
    let mut a = entry(1, 30, 0, 20, 20, layers::PLAYER, Some(layers::ENEMY));
    a.body = Some(DynamicBody { force: Vec2i { x: 0, y: 0 }, max_velocity: 100 });
    let mut b = entry(2, 0, 0, 20, 20, layers::ENEMY, Some(layers::PLAYER));
    b.body = Some(DynamicBody { force: Vec2i { x: 0, y: 0 }, max_velocity: 50 });
    let mut w = world_of(vec![a, b]);
    let pairs = find_collisions(&w);
    assert_eq!(pairs, vec![(1, 2)]);
    let events = resolve_pairs(&mut w, &pairs);
    assert_eq!(events, vec![]);
    // Force on entity 1: 10 * 100 * (30/30, 0) = (1000, 0).
    assert_eq!(w.entities[0].body.unwrap().force, Vec2i { x: 1000, y: 0 });
    // Force on entity 2: -10 * 50 * (30/30, 0) = (-500, 0).
    assert_eq!(w.entities[1].body.unwrap().force, Vec2i { x: -500, y: 0 });
}

#[test]
fn resolve_skips_physics_for_partial_dynamics() {
    // Entity 2 has no body: no impulse at all, no partial application.
    let mut a = entry(1, 5, 0, 20, 20, layers::PLAYER, Some(layers::ENEMY));
    a.body = Some(DynamicBody { force: Vec2i { x: 0, y: 0 }, max_velocity: 100 });
    let b = entry(2, 0, 0, 20, 20, layers::ENEMY, Some(layers::PLAYER));
    let mut w = world_of(vec![a, b]);
    let pairs = find_collisions(&w);
    let events = resolve_pairs(&mut w, &pairs);
    assert_eq!(events, vec![]);
    assert_eq!(w.entities[0].body.unwrap().force, Vec2i { x: 0, y: 0 });
}

#[test]
fn resolve_coincident_dynamic_pair_skips_direction() {
    // Two coincident dynamic entities: the degenerate direction is skipped;
    // resolution completes and applies no impulse.
    let mut a = entry(1, 0, 0, 20, 20, layers::PLAYER, Some(layers::ENEMY));
    a.body = Some(DynamicBody { force: Vec2i { x: 3, y: 4 }, max_velocity: 100 });
    let mut b = entry(2, 0, 0, 20, 20, layers::ENEMY, Some(layers::PLAYER));
    b.body = Some(DynamicBody { force: Vec2i { x: -3, y: -4 }, max_velocity: 50 });
    let mut w = world_of(vec![a, b]);
    let pairs = find_collisions(&w);
    assert_eq!(pairs, vec![(1, 2)]);
    let events = resolve_pairs(&mut w, &pairs);
    assert_eq!(events, vec![]);
    assert_eq!(w.entities[0].body.unwrap().force, Vec2i { x: 3, y: 4 });
    assert_eq!(w.entities[1].body.unwrap().force, Vec2i { x: -3, y: -4 });
}

#[test]
fn resolve_stale_handles_are_skipped() {
    let mut a = entry(1, 0, 0, 10, 10, layers::PLAYER, Some(layers::ENEMY));
    a.health = Some(Health { marker: true });
    let mut w = world_of(vec![a]);
    // Handle 99 refers to nothing; the pair is still processed to completion.
    let events = resolve_pairs(&mut w, &vec![(1, 99)]);
    assert_eq!(events, vec![GameEvent::Hit(1)]);
}

#[test]
fn process_collisions_publishes_one_batch() {
    let mut a = entry(1, 0, 0, 25, 25, layers::PLAYER, Some(layers::ENEMY_BULLET));
    a.health = Some(Health { marker: true });
    let mut b = entry(2, 10, 0, 5, 5, layers::ENEMY_BULLET, Some(0));
    b.bullet = Some(Bullet { alive: true });
    let mut w = world_of(vec![a, b]);
    let pairs = find_collisions(&w);
    let mut channel: shrev::EventChannel<GameEvent> = shrev::EventChannel::new();
    let mut reader = channel.register_reader();
    process_collisions(&mut w, pairs, &mut channel);
    let got: Vec<GameEvent> = channel.read(&mut reader).cloned().collect();
    assert_eq!(got, vec![GameEvent::Hit(1), GameEvent::Delete(2)]);
}

#[test]
fn both_entities_may_be_bullets() {
    let mut a = entry(1, 0, 0, 10, 10, layers::PLAYER_BULLET, Some(layers::ENEMY_BULLET));
    a.bullet = Some(Bullet { alive: true });
    let mut b = entry(2, 1, 0, 10, 10, layers::ENEMY_BULLET, Some(layers::PLAYER_BULLET));
    b.bullet = Some(Bullet { alive: true });
    let mut w = world_of(vec![a, b]);
    let pairs = find_collisions(&w);
    assert_eq!(pairs, vec![(1, 2)]);
    let events = resolve_pairs(&mut w, &pairs);
    assert_eq!(events, vec![GameEvent::Delete(1), GameEvent::Delete(2)]);
    assert_eq!(w.entities[0].bullet, Some(Bullet { alive: false }));
    assert_eq!(w.entities[1].bullet, Some(Bullet { alive: false }));
}

#[test]
fn consecutive_frames_append_in_order() {
    let mut a = entry(1, 0, 0, 10, 10, layers::PLAYER, Some(layers::ENEMY));
    a.health = Some(Health { marker: true });
    let mut b = entry(2, 1, 0, 10, 10, layers::ENEMY, Some(layers::PLAYER));
    b.health = Some(Health { marker: true });
    let mut w = world_of(vec![a, b]);
    let mut channel: shrev::EventChannel<GameEvent> = shrev::EventChannel::new();
    let mut reader = channel.register_reader();
    let pairs = find_collisions(&w);
    process_collisions(&mut w, pairs, &mut channel);
    let pairs = find_collisions(&w);
    process_collisions(&mut w, pairs, &mut channel);
    let got: Vec<GameEvent> = channel.read(&mut reader).cloned().collect();
    // Two frames' batches, in order: the same two hits each frame.
    assert_eq!(
        got,
        vec![
            GameEvent::Hit(1),
            GameEvent::Hit(2),
            GameEvent::Hit(1),
            GameEvent::Hit(2),
        ]
    );
}

#[test]
fn reader_less_channel_accepts_oversized_frame() {
    // Twelve mutually eligible, mutually overlapping entities with health:
    // 66 pairs, 132 hit events — more than a fresh channel's ring holds.
    // Without an active reader the batch is delivered to nobody; the frame
    // must still complete and leave the channel usable.
    let m = layers::PLAYER | layers::ENEMY;
    let mut entries = Vec::new();
    for i in 0..12 {
        let mut e = entry(i + 1, i as i64, 0, 50, 50, layers::PLAYER, Some(m));
        e.health = Some(Health { marker: true });
        entries.push(e);
    }
    let mut w = world_of(entries);
    let pairs = find_collisions(&w);
    assert_eq!(pairs.len(), 66);
    let mut channel: shrev::EventChannel<GameEvent> = shrev::EventChannel::new();
    process_collisions(&mut w, pairs, &mut channel);
    // A reader registered afterwards sees nothing: it could never have
    // observed that batch anyway.
    let mut reader = channel.register_reader();
    let got: Vec<GameEvent> = channel.read(&mut reader).cloned().collect();
    assert_eq!(got, vec![]);
    // With the reader subscribed, the next oversized frame is delivered
    // whole: the channel grows for its active reader.
    let pairs = find_collisions(&w);
    process_collisions(&mut w, pairs, &mut channel);
    let got: Vec<GameEvent> = channel.read(&mut reader).cloned().collect();
    assert_eq!(got.len(), 132);
    assert_eq!(got[0], GameEvent::Hit(1));
    assert_eq!(got[1], GameEvent::Hit(2));
    assert_eq!(got[131], GameEvent::Hit(12));
}

#[test]
fn reader_less_channel_is_left_untouched() {
    let mut a = entry(1, 0, 0, 10, 10, layers::PLAYER, Some(layers::ENEMY));
    a.health = Some(Health { marker: true });
    let b = entry(2, 1, 0, 10, 10, layers::ENEMY, Some(layers::PLAYER));
    let mut w = world_of(vec![a, b]);
    let pairs = find_collisions(&w);
    let mut channel: shrev::EventChannel<GameEvent> = shrev::EventChannel::new();
    process_collisions(&mut w, pairs, &mut channel);
    let mut reader = channel.register_reader();
    let got: Vec<GameEvent> = channel.read(&mut reader).cloned().collect();
    assert_eq!(got, vec![]);
}

#[test]
fn end_to_end_player_and_enemy_bullet() {
    // Player: layer PLAYER, mask ENEMY|ENEMY_BULLET, half extent (25, 25),
    // at the origin, no health component in this scenario.
    let player = entry(
        1,
        0,
        0,
        25,
        25,
        layers::PLAYER,
        Some(layers::ENEMY | layers::ENEMY_BULLET),
    );
    // Enemy bullet: layer ENEMY_BULLET, mask 0, half extent (5, 5), at
    // (10, 0), a live bullet, no health, no dynamics.
    let mut bullet = entry(2, 10, 0, 5, 5, layers::ENEMY_BULLET, Some(0));
    bullet.bullet = Some(Bullet { alive: true });
    let mut w = world_of(vec![player, bullet]);
    let pairs = find_collisions(&w);
    assert_eq!(pairs, vec![(1, 2)]);
    let mut channel: shrev::EventChannel<GameEvent> = shrev::EventChannel::new();
    let mut reader = channel.register_reader();
    process_collisions(&mut w, pairs, &mut channel);
    let got: Vec<GameEvent> = channel.read(&mut reader).cloned().collect();
    // One deletion event for the bullet, no hit event, no impulse.
    assert_eq!(got, vec![GameEvent::Delete(2)]);
    assert_eq!(w.entities[1].bullet, Some(Bullet { alive: false }));
    assert!(w.entities[0].body.is_none());
}
