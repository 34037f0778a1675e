//! The entity world as the collision core sees it: a sequence of entity
//! records, each holding the components the collision pass reads or writes.
//!
//! Entity storage itself is an external collaborator; this model keeps, per
//! entity handle, exactly the plain values the collision logic touches: a
//! translation, a bounding box, a bullet's alive flag, the presence of a
//! health component, and a dynamics body with a force accumulator.

use vstd::prelude::*;

use crate::layers::CollisionLayer;
use crate::math::Vec2i;
use crate::math::COORD_LIMIT;

verus! {

/// Position component. Only the translation matters to collisions: boxes are
/// axis-aligned and never rotated, whatever rotation the full transform has.
#[derive(Clone, Copy, Debug, PartialEq)]
pub struct Transform {
    pub translation: Vec2i,
}

/// Bounding box to detect collisions.
///
/// The effective world rectangle is `translation ± half_extend`, where the
/// translation comes from the paired [`Transform`]. `collision_layer` says
/// what the entity is; `collision_mask` says what it wants to detect. An
/// absent mask matches nothing: such an entity never expresses interest of
/// its own, and collides only when the other entity's mask names its layer.
#[derive(Clone, Copy, Debug, PartialEq)]
pub struct BoundingBox {
    pub half_extend: Vec2i,
    pub collision_layer: CollisionLayer,
    pub collision_mask: Option<CollisionLayer>,
}

/// The mask bits a box filters with: an absent mask matches nothing.
pub open spec fn mask_bits(m: Option<CollisionLayer>) -> u32 {
    match m {
        Some(l) => l.bits,
        None => 0,
    }
}

/// The directional filter: `self` is interesting to `other` when `self`'s
/// layer shares a category with `other`'s mask.
pub open spec fn spec_can_collide(a: BoundingBox, b: BoundingBox) -> bool {
    a.collision_layer.bits & mask_bits(b.collision_mask) != 0
}

impl BoundingBox {
    /// True when this box's layer intersects `other`'s mask. Directional:
    /// the scan accepts a pair when the test passes in either direction.
    pub fn can_collide(&self, other: &BoundingBox) -> (r: bool)
        ensures
            r == spec_can_collide(*self, *other),
    {
        let mask: u32 = match other.collision_mask {
            Some(l) => l.bits,
            None => 0,
        };
        self.collision_layer.bits & mask != 0
    }
}

/// Bullet component: a projectile that dies on its first collision.
#[derive(Clone, Copy, Debug, PartialEq)]
pub struct Bullet {
    pub alive: bool,
}

/// Health component. Its presence alone makes an entity receive hit events;
/// the collision core reads no field of it.
#[derive(Clone, Copy, Debug, PartialEq)]
pub struct Health {
    pub marker: bool,
}

/// Dynamics component: a force accumulator and the body's maximum velocity,
/// which scales the separating impulse applied to it.
#[derive(Clone, Copy, Debug, PartialEq)]
pub struct DynamicBody {
    pub force: Vec2i,
    pub max_velocity: i64,
}

/// One entity record: an externally owned handle and the optional components
/// the collision core reads or writes.
#[derive(Clone, Copy, Debug, PartialEq)]
pub struct EntityEntry {
    pub id: u64,
    pub transform: Option<Transform>,
    pub bounding_box: Option<BoundingBox>,
    pub bullet: Option<Bullet>,
    pub health: Option<Health>,
    pub body: Option<DynamicBody>,
}

impl EntityEntry {
    /// A record with no components attached.
    pub fn new(id: u64) -> (r: EntityEntry)
        ensures
            r == (EntityEntry {
                id,
                transform: None,
                bounding_box: None,
                bullet: None,
                health: None,
                body: None,
            }),
    {
        EntityEntry { id, transform: None, bounding_box: None, bullet: None, health: None, body: None }
    }

    /// Bounds on the record's numeric components, so that the overlap test
    /// and the impulse arithmetic stay inside `i64`.
    pub open spec fn wf(self) -> bool {
        &&& (self.transform is Some ==> {
            let t = self.transform->0.translation;
            -COORD_LIMIT <= t.x <= COORD_LIMIT && -COORD_LIMIT <= t.y <= COORD_LIMIT
        })
        &&& (self.bounding_box is Some ==> {
            let h = self.bounding_box->0.half_extend;
            0 <= h.x <= COORD_LIMIT && 0 <= h.y <= COORD_LIMIT
        })
        &&& (self.body is Some ==> 0 <= self.body->0.max_velocity <= COORD_LIMIT)
    }

    /// Runtime check of [`EntityEntry::wf`].
    pub fn check_wf(&self) -> (r: bool)
        ensures
            r == self.wf(),
    {
        let t_ok = match self.transform {
            Some(t) => -COORD_LIMIT <= t.translation.x && t.translation.x <= COORD_LIMIT
                && -COORD_LIMIT <= t.translation.y && t.translation.y <= COORD_LIMIT,
            None => true,
        };
        let b_ok = match self.bounding_box {
            Some(b) => 0 <= b.half_extend.x && b.half_extend.x <= COORD_LIMIT && 0
                <= b.half_extend.y && b.half_extend.y <= COORD_LIMIT,
            None => true,
        };
        let d_ok = match self.body {
            Some(d) => 0 <= d.max_velocity && d.max_velocity <= COORD_LIMIT,
            None => true,
        };
        t_ok && b_ok && d_ok
    }
}

/// No two records share a handle.
pub open spec fn distinct_ids(w: Seq<EntityEntry>) -> bool {
    forall|i: int, j: int|
        0 <= i < w.len() && 0 <= j < w.len() && i != j ==> w[i].id != w[j].id
}

/// Every record is within bounds and no two share a handle.
pub open spec fn seq_wf(w: Seq<EntityEntry>) -> bool {
    &&& distinct_ids(w)
    &&& forall|i: int| 0 <= i < w.len() ==> #[trigger] w[i].wf()
}

/// Some record carries the handle `id`.
pub open spec fn has_id(w: Seq<EntityEntry>, id: u64) -> bool {
    exists|i: int| 0 <= i < w.len() && w[i].id == id
}

/// The index of the record carrying `id` (meaningful under [`distinct_ids`]
/// when [`has_id`] holds).
pub open spec fn idx_of(w: Seq<EntityEntry>, id: u64) -> int {
    choose|i: int| 0 <= i < w.len() && w[i].id == id
}

/// Under distinct handles, the record holding `id` is unique.
pub proof fn lemma_idx_of_unique(w: Seq<EntityEntry>, id: u64, i: int)
    requires
        distinct_ids(w),
        0 <= i < w.len(),
        w[i].id == id,
    ensures
        has_id(w, id),
        idx_of(w, id) == i,
{
    assert(has_id(w, id));
    let j = idx_of(w, id);
    assert(0 <= j < w.len() && w[j].id == id);
    if i != j {
        assert(w[i].id != w[j].id);
    }
}

/// The entity world: the records the collision core scans and mutates.
#[derive(Debug)]
pub struct World {
    pub entities: Vec<EntityEntry>,
}

impl World {
    /// Bounds and handle-uniqueness over all records.
    pub open spec fn wf(self) -> bool {
        seq_wf(self.entities@)
    }

    /// An empty world.
    pub fn new() -> (r: World)
        ensures
            r.entities@.len() == 0,
            r.wf(),
    {
        World { entities: Vec::new() }
    }

    /// Finds the record carrying `id`: the first index whose record matches,
    /// or `None` when no record does.
    pub fn lookup(&self, id: u64) -> (r: Option<usize>)
        ensures
            match r {
                Some(i) => 0 <= i < self.entities@.len() && self.entities@[i as int].id == id,
                None => !has_id(self.entities@, id),
            },
    {
        let mut i: usize = 0;
        while i < self.entities.len()
            invariant
                0 <= i <= self.entities@.len(),
                forall|k: int| 0 <= k < i ==> self.entities@[k].id != id,
            decreases self.entities@.len() - i,
        {
            if self.entities[i].id == id {
                return Some(i);
            }
            i = i + 1;
        }
        None
    }

    /// Adds a record. Succeeds when the record is in bounds and its handle is
    /// fresh; otherwise leaves the world unchanged and reports failure.
    pub fn spawn(&mut self, e: EntityEntry) -> (r: bool)
        ensures
            r == (e.wf() && !has_id(old(self).entities@, e.id)),
            r ==> final(self).entities@ == old(self).entities@.push(e),
            !r ==> final(self).entities@ == old(self).entities@,
            old(self).wf() ==> final(self).wf(),
    {
        if !e.check_wf() {
            return false;
        }
        match self.lookup(e.id) {
            Some(i) => {
                proof {
                    assert(has_id(self.entities@, e.id));
                }
                return false;
            },
            None => {},
        }
        proof {
            let w0 = self.entities@;
            let w1 = self.entities@.push(e);
            if seq_wf(w0) {
                assert forall|i: int, j: int|
                    0 <= i < w1.len() && 0 <= j < w1.len() && i != j implies w1[i].id
                    != w1[j].id by {
                    if i < w0.len() && j < w0.len() {
                    } else if i == w0.len() {
                        assert(w1[j] == w0[j]);
                        assert(!has_id(w0, e.id));
                    } else {
                        assert(w1[i] == w0[i]);
                        assert(!has_id(w0, e.id));
                    }
                }
                assert(forall|i: int| 0 <= i < w1.len() ==> #[trigger] w1[i].wf());
            }
        }
        self.entities.push(e);
        true
    }
}

} // verus!
