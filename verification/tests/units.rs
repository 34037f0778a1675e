//! Unit tests for the layer filter, the integer math helpers, the world
//! model, and the vertex semantics vocabulary.

use spacegame_collision::layers;
use spacegame_collision::layers::CollisionLayer;
use spacegame_collision::math::axis_force;
use spacegame_collision::math::isqrt;
use spacegame_collision::math::sat_add;
use spacegame_collision::math::Vec2i;
use spacegame_collision::math::COORD_LIMIT;
use spacegame_collision::render::VertexSemantics;
use spacegame_collision::world::BoundingBox;
use spacegame_collision::world::EntityEntry;
use spacegame_collision::world::Transform;
use spacegame_collision::world::World;

#[test]
fn layer_union_and_intersects() {
    let player = CollisionLayer::new(layers::PLAYER);
    let enemy = CollisionLayer::new(layers::ENEMY);
    let both = player.union(enemy);
    assert_eq!(both.bits, 0b00000011);
    assert!(both.intersects(player));
    assert!(both.intersects(enemy));
    assert!(!player.intersects(enemy));
    assert!(both.contains(player));
    assert!(!player.contains(both));
    assert!(!CollisionLayer::empty().intersects(both));
}

#[test]
fn can_collide_is_directional() {
    let a = BoundingBox {
        half_extend: Vec2i { x: 1, y: 1 },
        collision_layer: CollisionLayer::new(layers::PLAYER),
        collision_mask: None,
    };
    let b = BoundingBox {
        half_extend: Vec2i { x: 1, y: 1 },
        collision_layer: CollisionLayer::new(layers::ENEMY),
        collision_mask: Some(CollisionLayer::new(layers::PLAYER)),
    };
    // a's layer is in b's mask, but not the other way around.
    assert!(a.can_collide(&b));
    assert!(!b.can_collide(&a));
}

#[test]
fn isqrt_exact_values() {
    assert_eq!(isqrt(0), 0);
    assert_eq!(isqrt(1), 1);
    assert_eq!(isqrt(8), 2);
    assert_eq!(isqrt(9), 3);
    assert_eq!(isqrt(899), 29);
    assert_eq!(isqrt(900), 30);
}

#[test]
fn axis_force_exact_values() {
    // 10 * v * d / len, sign of d kept, quotient truncated toward zero.
    assert_eq!(axis_force(100, 30, 30), 1000);
    assert_eq!(axis_force(100, -30, 30), -1000);
    assert_eq!(axis_force(50, 3, 5), 300);
    assert_eq!(axis_force(7, 1, 3), 23);
    assert_eq!(axis_force(7, -1, 3), -23);
    assert_eq!(axis_force(0, 100, 100), 0);
}

#[test]
fn sat_add_clamps_at_the_ends() {
    assert_eq!(sat_add(1, 2), 3);
    assert_eq!(sat_add(i64::MAX, 1), i64::MAX);
    assert_eq!(sat_add(i64::MIN, -1), i64::MIN);
    assert_eq!(sat_add(i64::MAX, -1), i64::MAX - 1);
}

#[test]
fn spawn_rejects_duplicate_handles() {
    let mut w = World::new();
    assert!(w.spawn(EntityEntry::new(1)));
    assert!(w.spawn(EntityEntry::new(2)));
    assert!(!w.spawn(EntityEntry::new(1)));
    assert_eq!(w.entities.len(), 2);
}

#[test]
fn spawn_rejects_out_of_bounds_records() {
    let mut w = World::new();
    let mut e = EntityEntry::new(1);
    e.transform = Some(Transform { translation: Vec2i { x: COORD_LIMIT + 1, y: 0 } });
    assert!(!w.spawn(e));
    assert_eq!(w.entities.len(), 0);
}

#[test]
fn lookup_finds_the_first_match() {
    let mut w = World::new();
    assert!(w.spawn(EntityEntry::new(5)));
    assert!(w.spawn(EntityEntry::new(6)));
    assert_eq!(w.lookup(6), Some(1));
    assert_eq!(w.lookup(7), None);
}

#[test]
fn vertex_semantics_layout() {
    assert_eq!(VertexSemantics::Position.index(), 0);
    assert_eq!(VertexSemantics::Color.index(), 1);
    assert_eq!(VertexSemantics::Position.name(), "position");
    assert_eq!(VertexSemantics::Color.name(), "color");
}
