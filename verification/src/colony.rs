//! The things that live in the arena: ants, food and homes.

use vstd::prelude::*;

verus! {

/// The length of a direction vector that stands for one whole.
pub const DIRECTION_ONE: i32 = 1_000_000;

/// The distance under which an ant picks up a piece of food.
pub const FOOD_SIZE: i32 = 5_000;

/// The distance under which an ant delivers to a home.
pub const HOME_SIZE: i32 = 10_000;

/// An ant: where it is, where it heads, and what it carries.
#[derive(Clone, Copy, PartialEq, Eq, Structural, Debug)]
pub struct Ant {
    pub id: u64,
    pub x: i32,
    pub y: i32,
    /// The heading as a vector, in millionths.
    pub dir_x: i32,
    pub dir_y: i32,
    /// The way along each axis that the ant has earned but not yet made:
    /// the part of its steps so far that was less than a thousandth of a
    /// unit, as the remainder of the division that turns speed into steps.
    pub carry_x: i64,
    pub carry_y: i64,
    /// The piece of food that the ant carries, by its id.
    pub carried_item: Option<u64>,
}

/// A piece of food that lies on the ground.
#[derive(Clone, Copy, PartialEq, Eq, Structural, Debug)]
pub struct Food {
    pub id: u64,
    pub x: i32,
    pub y: i32,
}

/// A home, to which food is delivered from within `radius`.
#[derive(Clone, Copy, PartialEq, Eq, Structural, Debug)]
pub struct Home {
    pub x: i32,
    pub y: i32,
    pub radius: i32,
}

impl Ant {
    /// Whether the ant is in its carrying phase.
    pub open spec fn carrying(self) -> bool {
        self.carried_item is Some
    }

    /// Neither component of the heading is longer than one whole.
    pub open spec fn wf(self) -> bool {
        &&& -DIRECTION_ONE <= self.dir_x <= DIRECTION_ONE
        &&& -DIRECTION_ONE <= self.dir_y <= DIRECTION_ONE
    }

    /// The same ant, heading the opposite way.
    pub open spec fn reversed(self) -> Ant {
        Ant {
            id: self.id,
            x: self.x,
            y: self.y,
            dir_x: (-self.dir_x) as i32,
            dir_y: (-self.dir_y) as i32,
            carry_x: self.carry_x,
            carry_y: self.carry_y,
            carried_item: self.carried_item,
        }
    }

    /// The same ant with another load.
    pub open spec fn carrying_item(self, item: Option<u64>) -> Ant {
        Ant {
            id: self.id,
            x: self.x,
            y: self.y,
            dir_x: self.dir_x,
            dir_y: self.dir_y,
            carry_x: self.carry_x,
            carry_y: self.carry_y,
            carried_item: item,
        }
    }

    /// An ant at `(x, y)` that carries nothing. A heading with a component
    /// longer than one whole is refused.
    pub fn new(id: u64, x: i32, y: i32, dir_x: i32, dir_y: i32) -> (r: Option<Ant>)
        ensures
            r == (if -DIRECTION_ONE <= dir_x <= DIRECTION_ONE && -DIRECTION_ONE <= dir_y
                <= DIRECTION_ONE {
                Some(Ant { id, x, y, dir_x, dir_y, carry_x: 0, carry_y: 0, carried_item: None })
            } else {
                None
            }),
            r is Some ==> r->0.wf(),
    {
        if -DIRECTION_ONE <= dir_x && dir_x <= DIRECTION_ONE && -DIRECTION_ONE <= dir_y && dir_y
            <= DIRECTION_ONE {
            Some(Ant { id, x, y, dir_x, dir_y, carry_x: 0, carry_y: 0, carried_item: None })
        } else {
            None
        }
    }

    /// Whether the ant is in its carrying phase.
    pub fn carrying_food(&self) -> (r: bool)
        ensures
            r == self.carrying(),
    {
        self.carried_item.is_some()
    }

    /// Turns the ant round: a rotation of the heading by half a turn.
    pub fn reverse(&mut self)
        requires
            old(self).wf(),
        ensures
            *final(self) == old(self).reversed(),
            final(self).wf(),
    {
        self.dir_x = -self.dir_x;
        self.dir_y = -self.dir_y;
    }
}

impl Home {
    /// A home of the usual size at `(x, y)`.
    pub open spec fn new_spec(x: i32, y: i32) -> Home {
        Home { x, y, radius: HOME_SIZE }
    }

    /// A home of the usual size at `(x, y)`.
    #[verifier::when_used_as_spec(new_spec)]
    pub fn new(x: i32, y: i32) -> (r: Home)
        ensures
            r == Home::new_spec(x, y),
    {
        Home { x, y, radius: HOME_SIZE }
    }
}

/// Every ant of the sequence has a valid heading.
pub open spec fn ants_valid(ants: Seq<Ant>) -> bool {
    forall|i: int| 0 <= i < ants.len() ==> (#[trigger] ants[i]).wf()
}

} // verus!
