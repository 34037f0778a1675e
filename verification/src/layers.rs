//! Collision layers: bitmask categories used to filter candidate pairs.

use vstd::prelude::*;

verus! {

/// Bit for entities that belong to no interesting category.
pub const NOTHING: u32 = 0b10000000;
/// Bit for the player's ship.
pub const PLAYER: u32 = 0b00000001;
/// Bit for enemy ships.
pub const ENEMY: u32 = 0b00000010;
/// Bit for bullets fired by the player.
pub const PLAYER_BULLET: u32 = 0b00000100;
/// Bit for bullets fired by enemies.
pub const ENEMY_BULLET: u32 = 0b00001000;
/// Bit for asteroids.
pub const ASTEROID: u32 = 0b00010000;
/// Bit for mines.
pub const MINE: u32 = 0b00100000;

/// A set of collision categories, stored as a bitmask.
///
/// An entity's *layer* says which categories it belongs to; its *mask* says
/// which categories it is interested in colliding with. Multi-membership is
/// expressed with [`CollisionLayer::union`], interest is tested with
/// [`CollisionLayer::intersects`].
#[derive(Clone, Copy, Debug, PartialEq, Eq, Structural)]
pub struct CollisionLayer {
    pub bits: u32,
}

impl CollisionLayer {
    /// Builds a layer set from raw category bits.
    pub fn new(bits: u32) -> (r: CollisionLayer)
        ensures
            r.bits == bits,
    {
        CollisionLayer { bits }
    }

    /// The empty set of categories.
    pub fn empty() -> (r: CollisionLayer)
        ensures
            r.bits == 0,
    {
        CollisionLayer { bits: 0 }
    }

    /// Combines two layer sets (bitwise or).
    pub fn union(self, other: CollisionLayer) -> (r: CollisionLayer)
        ensures
            r.bits == self.bits | other.bits,
    {
        CollisionLayer { bits: self.bits | other.bits }
    }

    /// True when the two sets share at least one category.
    pub open spec fn spec_intersects(self, other: CollisionLayer) -> bool {
        self.bits & other.bits != 0
    }

    /// True when the two sets share at least one category (bitwise and).
    pub fn intersects(self, other: CollisionLayer) -> (r: bool)
        ensures
            r == self.spec_intersects(other),
    {
        self.bits & other.bits != 0
    }

    /// True when every category of `other` is also in `self`.
    pub fn contains(self, other: CollisionLayer) -> (r: bool)
        ensures
            r == (self.bits & other.bits == other.bits),
    {
        self.bits & other.bits == other.bits
    }
}

} // verus!
