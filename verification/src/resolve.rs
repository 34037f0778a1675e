//! The resolution pass: consumes the scan's pair list and applies the
//! layer-appropriate effects, pair by pair.
//!
//! Per pair `(a, b)`, entity `a` and then entity `b` are processed: a live
//! bullet is marked dead and a deletion event is queued; an entity whose
//! bullet was already dead going into the pair contributes nothing further
//! for this pair; an entity with health gets a hit event. When neither
//! entity aborted and both carry a transform and a dynamics body, a
//! separating impulse proportional to each body's own maximum velocity is
//! applied to both, along the (fixed-point) unit direction from `b` to `a`.
//! Two coincident entities produce no impulse: the degenerate direction is
//! skipped rather than guessed.
//!
//! The accumulated events are appended to the event channel as one batch,
//! after every pair has been processed — provided an active reader is
//! subscribed; a reader-less channel would deliver the batch to nobody and
//! is left untouched.

use vstd::prelude::*;

use crate::event::GameEvent;
use crate::event::channel_contents;
use crate::event::channel_has_reader;
use crate::event::has_active_reader;
use crate::event::publish_batch;
use crate::math::Vec2i;
use crate::math::axis_force;
use crate::math::axis_force_spec;
use crate::math::isqrt;
use crate::math::isqrt_spec;
use crate::math::lemma_isqrt_bounds;
use crate::math::sat_add;
use crate::math::sat_add_spec;
use crate::world::Bullet;
use crate::world::DynamicBody;
use crate::world::EntityEntry;
use crate::world::World;
use crate::world::has_id;
use crate::world::idx_of;
use crate::world::lemma_idx_of_unique;
use crate::world::seq_wf;

verus! {

/// Entity `id` aborts its processing for a pair: it has a bullet component
/// that is already dead going into the collision.
pub open spec fn entity_aborts(w: Seq<EntityEntry>, id: u64) -> bool {
    has_id(w, id) && {
        let e = w[idx_of(w, id)];
        e.bullet is Some && !e.bullet->0.alive
    }
}

/// The hit event an entity contributes when it carries health.
pub open spec fn hit_events(e: EntityEntry, id: u64) -> Seq<GameEvent> {
    if e.health is Some {
        seq![GameEvent::Hit(id)]
    } else {
        Seq::empty()
    }
}

/// Events contributed by processing entity `id` in world `w`: nothing for a
/// stale handle or a dead bullet; a deletion event (then a hit event, with
/// health) for a live bullet; a hit event alone for a non-bullet with health.
pub open spec fn step_entity_events(w: Seq<EntityEntry>, id: u64) -> Seq<GameEvent> {
    if !has_id(w, id) {
        Seq::empty()
    } else {
        let e = w[idx_of(w, id)];
        match e.bullet {
            Some(b) => if !b.alive {
                Seq::empty()
            } else {
                seq![GameEvent::Delete(id)] + hit_events(e, id)
            },
            None => hit_events(e, id),
        }
    }
}

/// World after processing entity `id`: a live bullet is marked dead; nothing
/// else changes.
pub open spec fn step_entity_world(w: Seq<EntityEntry>, id: u64) -> Seq<EntityEntry> {
    if !has_id(w, id) {
        w
    } else {
        let i = idx_of(w, id);
        let e = w[i];
        match e.bullet {
            Some(b) => if b.alive {
                w.update(i, EntityEntry { bullet: Some(Bullet { alive: false }), ..e })
            } else {
                w
            },
            None => w,
        }
    }
}

/// Both entities of the pair carry a transform and a dynamics body.
pub open spec fn dynamic_pair(w: Seq<EntityEntry>, a: u64, b: u64) -> bool {
    has_id(w, a) && has_id(w, b) && {
        let ea = w[idx_of(w, a)];
        let eb = w[idx_of(w, b)];
        ea.transform is Some && ea.body is Some && eb.transform is Some && eb.body is Some
    }
}

/// Saturating `i64` addition, as an `i64`-valued spec function.
pub open spec fn sat_add_i64(a: i64, b: i64) -> i64 {
    sat_add_spec(a as int, b as int) as i64
}

/// A record whose body accumulated `(fx, fy)` into its force, other fields
/// kept.
pub open spec fn with_added_force(e: EntityEntry, fx: i64, fy: i64) -> EntityEntry {
    let d = e.body->0;
    EntityEntry {
        body: Some(
            DynamicBody {
                force: Vec2i { x: sat_add_i64(d.force.x, fx), y: sat_add_i64(d.force.y, fy) },
                max_velocity: d.max_velocity,
            },
        ),
        ..e
    }
}

/// World after the physical response of pair `(a, b)`: when both entities
/// are dynamic and not coincident, each body accumulates an impulse scaled
/// by its own maximum velocity, along the unit direction from `b` to `a`
/// (positive for `a`, negative for `b`); otherwise the world is unchanged.
pub open spec fn pair_physics(w: Seq<EntityEntry>, a: u64, b: u64) -> Seq<EntityEntry> {
    if !dynamic_pair(w, a, b) {
        w
    } else {
        let ia = idx_of(w, a);
        let ib = idx_of(w, b);
        let ea = w[ia];
        let eb = w[ib];
        let dx = ea.transform->0.translation.x - eb.transform->0.translation.x;
        let dy = ea.transform->0.translation.y - eb.transform->0.translation.y;
        if dx == 0 && dy == 0 {
            w
        } else {
            let len = isqrt_spec((dx * dx + dy * dy) as nat) as int;
            let va = ea.body->0.max_velocity as int;
            let vb = eb.body->0.max_velocity as int;
            let fax = axis_force_spec(va, dx, len) as i64;
            let fay = axis_force_spec(va, dy, len) as i64;
            let fbx = (-axis_force_spec(vb, dx, len)) as i64;
            let fby = (-axis_force_spec(vb, dy, len)) as i64;
            w.update(ia, with_added_force(ea, fax, fay)).update(ib, with_added_force(eb, fbx, fby))
        }
    }
}

/// One pair's full effect: entity `a`, then entity `b`, then the physical
/// response, which is skipped when either entity aborted as a dead bullet.
pub open spec fn step_pair(w: Seq<EntityEntry>, p: (u64, u64)) -> (Seq<EntityEntry>, Seq<GameEvent>) {
    let w1 = step_entity_world(w, p.0);
    let w2 = step_entity_world(w1, p.1);
    let aborted = entity_aborts(w, p.0) || entity_aborts(w1, p.1);
    let ev = step_entity_events(w, p.0) + step_entity_events(w1, p.1);
    let w3 = if aborted {
        w2
    } else {
        pair_physics(w2, p.0, p.1)
    };
    (w3, ev)
}

/// The whole resolution pass over a pair list: pairs in order, events in
/// pair-then-entity order.
pub open spec fn run_pairs(w: Seq<EntityEntry>, ps: Seq<(u64, u64)>) -> (Seq<EntityEntry>, Seq<
    GameEvent,
>)
    decreases ps.len(),
{
    if ps.len() == 0 {
        (w, Seq::empty())
    } else {
        let s = step_pair(w, ps[0]);
        let r = run_pairs(s.0, ps.drop_first());
        (r.0, s.1 + r.1)
    }
}

/// Processes one entity of a pair: kills a live bullet (queueing deletion),
/// then queues a hit event when health is present; reports whether the
/// entity aborted as an already-dead bullet.
fn apply_entity(world: &mut World, id: u64, events: &mut Vec<GameEvent>) -> (aborted: bool)
    requires
        old(world).wf(),
    ensures
        final(world).wf(),
        final(world).entities@ == step_entity_world(old(world).entities@, id),
        final(events)@ == old(events)@ + step_entity_events(old(world).entities@, id),
        aborted == entity_aborts(old(world).entities@, id),
{
    let ghost w = old(world).entities@;
    let ghost ev0 = events@;
    match world.lookup(id) {
        None => {
            proof {
                assert(ev0 + step_entity_events(w, id) =~= ev0);
            }
            false
        },
        Some(i) => {
            proof {
                lemma_idx_of_unique(w, id, i as int);
            }
            let e = world.entities[i];
            match e.bullet {
                Some(b) => {
                    if !b.alive {
                        proof {
                            assert(ev0 + step_entity_events(w, id) =~= ev0);
                        }
                        true
                    } else {
                        let mut e2 = e;
                        e2.bullet = Some(Bullet { alive: false });
                        world.entities[i] = e2;
                        events.push(GameEvent::Delete(id));
                        if e.health.is_some() {
                            events.push(GameEvent::Hit(id));
                        }
                        proof {
                            let w1 = step_entity_world(w, id);
                            assert(e2 == (EntityEntry { bullet: Some(Bullet { alive: false }), ..e }));
                            assert(world.entities@ =~= w1);
                            assert(w[i as int].wf());
                            assert(e2.transform == e.transform && e2.bounding_box
                                == e.bounding_box && e2.body == e.body);
                            assert(e2.wf());
                            lemma_update_preserves_wf(w, i as int, e2);
                            if e.health is Some {
                                assert(events@ =~= ev0 + (seq![GameEvent::Delete(id)] + hit_events(
                                    e,
                                    id,
                                )));
                            } else {
                                assert(events@ =~= ev0 + (seq![GameEvent::Delete(id)] + hit_events(
                                    e,
                                    id,
                                )));
                            }
                        }
                        false
                    }
                },
                None => {
                    if e.health.is_some() {
                        events.push(GameEvent::Hit(id));
                        proof {
                            assert(events@ =~= ev0 + hit_events(e, id));
                        }
                    } else {
                        proof {
                            assert(events@ =~= ev0 + hit_events(e, id));
                        }
                    }
                    false
                },
            }
        },
    }
}

/// Applies the physical response of pair `(a, b)`: when both entities carry
/// a transform and a dynamics body and are not coincident, accumulates the
/// separating impulse into both bodies' force accumulators.
fn apply_physics(world: &mut World, a: u64, b: u64)
    requires
        old(world).wf(),
    ensures
        final(world).wf(),
        final(world).entities@ == pair_physics(old(world).entities@, a, b),
{
    let ghost w = old(world).entities@;
    let ia = match world.lookup(a) {
        Some(i) => i,
        None => {
            return ;
        },
    };
    let ib = match world.lookup(b) {
        Some(i) => i,
        None => {
            return ;
        },
    };
    proof {
        lemma_idx_of_unique(w, a, ia as int);
        lemma_idx_of_unique(w, b, ib as int);
    }
    let ea = world.entities[ia];
    let eb = world.entities[ib];
    match (ea.transform, ea.body, eb.transform, eb.body) {
        (Some(ta), Some(da), Some(tb), Some(db)) => {
            proof {
                assert(w[ia as int].wf());
                assert(w[ib as int].wf());
            }
            let dx = ta.translation.x - tb.translation.x;
            let dy = ta.translation.y - tb.translation.y;
            if dx == 0 && dy == 0 {
                return ;
            }
            proof {
                assert(ia != ib) by {
                    if ia == ib {
                        assert(ea == eb);
                    }
                }
                assert(dx * dx <= 4_000_000_000_000 && dx * dx >= 0) by (nonlinear_arith)
                    requires
                        -2_000_000 <= dx <= 2_000_000,
                ;
                assert(dy * dy <= 4_000_000_000_000 && dy * dy >= 0) by (nonlinear_arith)
                    requires
                        -2_000_000 <= dy <= 2_000_000,
                ;
                assert(dx * dx + dy * dy >= 1) by (nonlinear_arith)
                    requires
                        dx != 0 || dy != 0,
                        dx * dx >= 0,
                        dy * dy >= 0,
                ;
            }
            let n2: i64 = dx * dx + dy * dy;
            let len_u = isqrt(n2 as u64);
            proof {
                lemma_isqrt_bounds(n2 as nat);
                let rt = isqrt_spec(n2 as nat);
                assert(len_u >= 1) by {
                    if len_u == 0 {
                        assert((n2 as nat) < 1) by (nonlinear_arith)
                            requires
                                (n2 as nat) < (rt + 1) * (rt + 1),
                                rt == 0,
                        ;
                    }
                }
                assert(len_u <= 3_000_000) by (nonlinear_arith)
                    requires
                        len_u * len_u <= 8_000_000_000_000,
                ;
            }
            let len: i64 = len_u as i64;
            let fax = axis_force(da.max_velocity, dx, len);
            let fay = axis_force(da.max_velocity, dy, len);
            let fbx = axis_force(db.max_velocity, dx, len);
            let fby = axis_force(db.max_velocity, dy, len);
            let mut ea2 = ea;
            ea2.body = Some(
                DynamicBody {
                    force: Vec2i { x: sat_add(da.force.x, fax), y: sat_add(da.force.y, fay) },
                    max_velocity: da.max_velocity,
                },
            );
            let mut eb2 = eb;
            eb2.body = Some(
                DynamicBody {
                    force: Vec2i { x: sat_add(db.force.x, -fbx), y: sat_add(db.force.y, -fby) },
                    max_velocity: db.max_velocity,
                },
            );
            world.entities[ia] = ea2;
            world.entities[ib] = eb2;
            proof {
                let leni = isqrt_spec(n2 as nat) as int;
                let va = da.max_velocity as int;
                let vb = db.max_velocity as int;
                assert(fax == axis_force_spec(va, dx as int, leni) as i64);
                assert(fay == axis_force_spec(va, dy as int, leni) as i64);
                assert((-fbx) as int == -axis_force_spec(vb, dx as int, leni));
                assert((-fby) as int == -axis_force_spec(vb, dy as int, leni));
                assert(ea2 == with_added_force(ea, fax, fay));
                assert(eb2 == with_added_force(
                    eb,
                    (-axis_force_spec(vb, dx as int, leni)) as i64,
                    (-axis_force_spec(vb, dy as int, leni)) as i64,
                ));
                assert(world.entities@ =~= pair_physics(w, a, b));
                assert(ea2.id == ea.id && ea2.transform == ea.transform && ea2.bounding_box
                    == ea.bounding_box);
                assert(ea2.wf());
                assert(eb2.wf());
                lemma_update_preserves_wf(w, ia as int, ea2);
                lemma_update_preserves_wf(w.update(ia as int, ea2), ib as int, eb2);
            }
        },
        _ => {
            return ;
        },
    }
}

/// Resolves a frame's pair list against the world: applies every per-pair
/// effect in pair order and returns the accumulated events in
/// pair-then-entity order. Every pair is processed to completion; stale
/// handles and missing components only skip their own effect.
pub fn resolve_pairs(world: &mut World, pairs: &Vec<(u64, u64)>) -> (events: Vec<GameEvent>)
    requires
        old(world).wf(),
    ensures
        final(world).wf(),
        final(world).entities@ == run_pairs(old(world).entities@, pairs@).0,
        events@ == run_pairs(old(world).entities@, pairs@).1,
{
    let ghost w0 = old(world).entities@;
    let mut events: Vec<GameEvent> = Vec::new();
    let mut k: usize = 0;
    let n = pairs.len();
    proof {
        assert(pairs@.skip(0) =~= pairs@);
        assert(events@ + run_pairs(world.entities@, pairs@.skip(0)).1 =~= run_pairs(w0, pairs@).1);
    }
    while k < n
        invariant
            world.wf(),
            n == pairs@.len(),
            0 <= k <= n,
            run_pairs(w0, pairs@).0 == run_pairs(world.entities@, pairs@.skip(k as int)).0,
            run_pairs(w0, pairs@).1 == events@ + run_pairs(world.entities@, pairs@.skip(k as int)).1,
        decreases n - k,
    {
        let p = pairs[k];
        let ghost wcur = world.entities@;
        let ghost evs0 = events@;
        let ghost rest = pairs@.skip(k as int);
        proof {
            assert(rest.len() > 0);
            assert(rest[0] == pairs@[k as int]);
            assert(rest.drop_first() =~= pairs@.skip(k as int + 1));
        }
        let ab1 = apply_entity(world, p.0, &mut events);
        let ab2 = apply_entity(world, p.1, &mut events);
        if !ab1 && !ab2 {
            apply_physics(world, p.0, p.1);
        }
        proof {
            let s = step_pair(wcur, p);
            assert(world.entities@ == s.0);
            assert(events@ =~= evs0 + s.1);
            assert(run_pairs(wcur, rest).0 == run_pairs(s.0, pairs@.skip(k as int + 1)).0);
            assert(run_pairs(wcur, rest).1 == s.1 + run_pairs(s.0, pairs@.skip(k as int + 1)).1);
            assert(evs0 + run_pairs(wcur, rest).1 =~= events@ + run_pairs(
                world.entities@,
                pairs@.skip(k as int + 1),
            ).1);
        }
        k = k + 1;
    }
    proof {
        assert(pairs@.skip(n as int) =~= Seq::<(u64, u64)>::empty());
        assert(events@ + run_pairs(world.entities@, pairs@.skip(n as int)).1 =~= events@);
    }
    events
}

/// Resolves a frame's pair list and publishes the resulting events to the
/// event channel as one batch: with an active reader subscribed, the
/// channel afterwards holds exactly what it held before plus this frame's
/// events, in pair-then-entity order. A channel without an active reader is
/// left untouched: it would deliver the batch to nobody (a reader only
/// receives events written after it subscribed), and its buffer does not
/// keep unobserved events.
pub fn process_collisions(
    world: &mut World,
    collision_pairs: Vec<(u64, u64)>,
    channel: &mut shrev::EventChannel<GameEvent>,
)
    requires
        old(world).wf(),
    ensures
        final(world).wf(),
        final(world).entities@ == run_pairs(old(world).entities@, collision_pairs@).0,
        channel_has_reader(*final(channel)) == channel_has_reader(*old(channel)),
        channel_has_reader(*old(channel)) ==> channel_contents(*final(channel))
            == channel_contents(*old(channel)) + run_pairs(
            old(world).entities@,
            collision_pairs@,
        ).1,
        !channel_has_reader(*old(channel)) ==> channel_contents(*final(channel))
            == channel_contents(*old(channel)),
{
    let mut events = resolve_pairs(world, &collision_pairs);
    let ghost evs = events@;
    if events.len() > 0 {
        if has_active_reader(channel) {
            publish_batch(channel, &mut events);
        }
    } else {
        proof {
            assert(channel_contents(*channel) + evs =~= channel_contents(*channel));
        }
    }
}

/// Processing an entity keeps every record's handle, and leaves every other
/// entity's record untouched.
proof fn lemma_step_entity_world_frame(w: Seq<EntityEntry>, id: u64)
    ensures
        step_entity_world(w, id).len() == w.len(),
        forall|k: int| 0 <= k < w.len() ==> #[trigger] step_entity_world(w, id)[k].id == w[k].id,
        forall|k: int|
            0 <= k < w.len() && w[k].id != id ==> #[trigger] step_entity_world(w, id)[k] == w[k],
{
    if has_id(w, id) {
        assert(0 <= idx_of(w, id) < w.len() && w[idx_of(w, id)].id == id);
    }
}

/// Any event contributed by processing entity `id` names entity `id`.
proof fn lemma_step_entity_events_own(w: Seq<EntityEntry>, id: u64, e: GameEvent)
    requires
        step_entity_events(w, id).contains(e),
    ensures
        e == GameEvent::Delete(id) || e == GameEvent::Hit(id),
{
    let s = step_entity_events(w, id);
    let n = choose|n: int| 0 <= n < s.len() && s[n] == e;
    assert(has_id(w, id));
    let en = w[idx_of(w, id)];
    if en.bullet is Some {
        assert(s == seq![GameEvent::Delete(id)] + hit_events(en, id));
        if n != 0 {
            assert(s[n] == hit_events(en, id)[n - 1]);
        }
    } else {
        assert(s == hit_events(en, id));
    }
}

/// An entity whose bullet is already dead going into a pair contributes no
/// event to that pair: no second deletion event and no hit event, whichever
/// side of the pair it stands on.
pub proof fn lemma_dead_bullet_is_inert(w: Seq<EntityEntry>, p: (u64, u64), id: u64)
    requires
        seq_wf(w),
        entity_aborts(w, id),
        p.0 == id || p.1 == id,
    ensures
        !step_pair(w, p).1.contains(GameEvent::Delete(id)),
        !step_pair(w, p).1.contains(GameEvent::Hit(id)),
{
    let w1 = step_entity_world(w, p.0);
    let se1 = step_entity_events(w, p.0);
    let se2 = step_entity_events(w1, p.1);
    crate::collision::lemma_concat_contains(se1, se2, GameEvent::Delete(id));
    crate::collision::lemma_concat_contains(se1, se2, GameEvent::Hit(id));
    assert(0 <= idx_of(w, id) < w.len() && w[idx_of(w, id)].id == id);
    if p.0 == id {
        assert(se1 =~= Seq::<GameEvent>::empty());
        assert(w1 == w);
        if p.1 == id {
            assert(se2 =~= Seq::<GameEvent>::empty());
        } else {
            if se2.contains(GameEvent::Delete(id)) {
                lemma_step_entity_events_own(w1, p.1, GameEvent::Delete(id));
            }
            if se2.contains(GameEvent::Hit(id)) {
                lemma_step_entity_events_own(w1, p.1, GameEvent::Hit(id));
            }
        }
    } else {
        if se1.contains(GameEvent::Delete(id)) {
            lemma_step_entity_events_own(w, p.0, GameEvent::Delete(id));
        }
        if se1.contains(GameEvent::Hit(id)) {
            lemma_step_entity_events_own(w, p.0, GameEvent::Hit(id));
        }
        lemma_step_entity_world_frame(w, p.0);
        let i = idx_of(w, id);
        assert(w1[i] == w[i]);
        assert(has_id(w1, id));
        lemma_idx_of_unique_post(w, w1, id, i);
        assert(se2 =~= Seq::<GameEvent>::empty());
    }
}

/// After processing some other entity, `id` still names the same record.
proof fn lemma_idx_of_unique_post(w: Seq<EntityEntry>, w1: Seq<EntityEntry>, id: u64, i: int)
    requires
        seq_wf(w),
        w1.len() == w.len(),
        forall|k: int| 0 <= k < w.len() ==> #[trigger] w1[k].id == w[k].id,
        0 <= i < w.len(),
        w[i].id == id,
    ensures
        idx_of(w1, id) == i,
        has_id(w1, id),
{
    assert forall|pq: int, q: int|
        0 <= pq < w1.len() && 0 <= q < w1.len() && pq != q implies w1[pq].id != w1[q].id by {
        assert(w1[pq].id == w[pq].id && w1[q].id == w[q].id);
        assert(w[pq].id != w[q].id);
    }
    lemma_idx_of_unique(w1, id, i);
}

/// The physical response of an eligible, non-coincident dynamic pair: each
/// body accumulates exactly the impulse scaled by its own maximum velocity
/// along the unit direction from `b` to `a` — positive for `a`'s body,
/// negative for `b`'s.
pub proof fn lemma_physical_response(w: Seq<EntityEntry>, a: u64, b: u64)
    requires
        seq_wf(w),
        dynamic_pair(w, a, b),
        w[idx_of(w, a)].transform->0.translation != w[idx_of(w, b)].transform->0.translation,
    ensures
        ({
            let ia = idx_of(w, a);
            let ib = idx_of(w, b);
            let ea = w[ia];
            let eb = w[ib];
            let dx = ea.transform->0.translation.x - eb.transform->0.translation.x;
            let dy = ea.transform->0.translation.y - eb.transform->0.translation.y;
            let len = isqrt_spec((dx * dx + dy * dy) as nat) as int;
            let va = ea.body->0.max_velocity as int;
            let vb = eb.body->0.max_velocity as int;
            let u = pair_physics(w, a, b);
            &&& u.len() == w.len()
            &&& u[ia].body->0.force.x == sat_add_i64(
                ea.body->0.force.x,
                axis_force_spec(va, dx, len) as i64,
            )
            &&& u[ia].body->0.force.y == sat_add_i64(
                ea.body->0.force.y,
                axis_force_spec(va, dy, len) as i64,
            )
            &&& u[ib].body->0.force.x == sat_add_i64(
                eb.body->0.force.x,
                (-axis_force_spec(vb, dx, len)) as i64,
            )
            &&& u[ib].body->0.force.y == sat_add_i64(
                eb.body->0.force.y,
                (-axis_force_spec(vb, dy, len)) as i64,
            )
            &&& forall|k: int| 0 <= k < w.len() && k != ia && k != ib ==> #[trigger] u[k] == w[k]
        }),
{
    let ia = idx_of(w, a);
    let ib = idx_of(w, b);
    assert(0 <= ia < w.len() && w[ia].id == a);
    assert(0 <= ib < w.len() && w[ib].id == b);
    if ia == ib {
        assert(w[ia] == w[ib]);
    }
    assert(ia != ib);
    let ea = w[ia];
    let eb = w[ib];
    let dx = ea.transform->0.translation.x - eb.transform->0.translation.x;
    let dy = ea.transform->0.translation.y - eb.transform->0.translation.y;
    assert(!(dx == 0 && dy == 0));
}

/// The physical response through a full pair step: for a pair of bullet-less
/// entities that both carry a transform and a dynamics body and are not
/// coincident, processing the pair applies exactly one impulse to each body
/// — `FORCE_FACTOR` times its own maximum velocity along the unit direction
/// from `b` to `a`, positive for `a`'s body and negative for `b`'s — and
/// touches no other record.
pub proof fn lemma_step_pair_physical_response(w: Seq<EntityEntry>, p: (u64, u64))
    requires
        seq_wf(w),
        dynamic_pair(w, p.0, p.1),
        w[idx_of(w, p.0)].bullet is None,
        w[idx_of(w, p.1)].bullet is None,
        w[idx_of(w, p.0)].transform->0.translation != w[idx_of(w, p.1)].transform->0.translation,
    ensures
        ({
            let ia = idx_of(w, p.0);
            let ib = idx_of(w, p.1);
            let ea = w[ia];
            let eb = w[ib];
            let dx = ea.transform->0.translation.x - eb.transform->0.translation.x;
            let dy = ea.transform->0.translation.y - eb.transform->0.translation.y;
            let len = isqrt_spec((dx * dx + dy * dy) as nat) as int;
            let va = ea.body->0.max_velocity as int;
            let vb = eb.body->0.max_velocity as int;
            let u = step_pair(w, p).0;
            &&& u.len() == w.len()
            &&& u[ia].body->0.force.x == sat_add_i64(
                ea.body->0.force.x,
                axis_force_spec(va, dx, len) as i64,
            )
            &&& u[ia].body->0.force.y == sat_add_i64(
                ea.body->0.force.y,
                axis_force_spec(va, dy, len) as i64,
            )
            &&& u[ib].body->0.force.x == sat_add_i64(
                eb.body->0.force.x,
                (-axis_force_spec(vb, dx, len)) as i64,
            )
            &&& u[ib].body->0.force.y == sat_add_i64(
                eb.body->0.force.y,
                (-axis_force_spec(vb, dy, len)) as i64,
            )
            &&& forall|k: int| 0 <= k < w.len() && k != ia && k != ib ==> #[trigger] u[k] == w[k]
        }),
{
    assert(0 <= idx_of(w, p.0) < w.len() && w[idx_of(w, p.0)].id == p.0);
    assert(0 <= idx_of(w, p.1) < w.len() && w[idx_of(w, p.1)].id == p.1);
    assert(step_entity_world(w, p.0) == w);
    assert(step_entity_world(w, p.1) == w);
    assert(!entity_aborts(w, p.0));
    assert(!entity_aborts(w, p.1));
    assert(step_pair(w, p).0 == pair_physics(w, p.0, p.1));
    lemma_physical_response(w, p.0, p.1);
}

/// Updating one record with an in-bounds record that keeps its handle
/// preserves well-formedness.
proof fn lemma_update_preserves_wf(w: Seq<EntityEntry>, i: int, e: EntityEntry)
    requires
        seq_wf(w),
        0 <= i < w.len(),
        e.id == w[i].id,
        e.wf(),
    ensures
        seq_wf(w.update(i, e)),
{
    let u = w.update(i, e);
    assert forall|p: int, q: int|
        0 <= p < u.len() && 0 <= q < u.len() && p != q implies u[p].id != u[q].id by {
        assert(u[p].id == w[p].id);
        assert(u[q].id == w[q].id);
    }
    assert forall|p: int| 0 <= p < u.len() implies #[trigger] u[p].wf() by {
        if p != i {
            assert(u[p] == w[p]);
        }
    }
}

} // verus!
