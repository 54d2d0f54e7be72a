//! The foraging phase: ants without a load pick up food that they reach,
//! loaded ants deliver at a home, and either turns the ant round. A piece
//! that an ant has picked up in a tick is claimed for the rest of the tick
//! and leaves the ground when the tick's turns are over.

use std::collections::HashSet;
use vstd::prelude::*;
use crate::colony::{ants_valid, Ant, Food, Home, FOOD_SIZE};
use crate::geometry::{in_reach, within};

verus! {

broadcast use vstd::std_specs::hash::group_hash_axioms;

/// Whether the ant is close enough to the piece of food to pick it up.
pub open spec fn reaches_food(ant: Ant, food: Food) -> bool {
    in_reach(ant.x as int, ant.y as int, food.x as int, food.y as int, FOOD_SIZE as int)
}

/// Whether the ant is close enough to the home to deliver.
pub open spec fn reaches_home(ant: Ant, home: Home) -> bool {
    in_reach(ant.x as int, ant.y as int, home.x as int, home.y as int, home.radius as int)
}

/// Whether the ant is close enough to any of the homes.
pub open spec fn at_home(ant: Ant, homes: Seq<Home>) -> bool {
    exists|k: int| 0 <= k < homes.len() && reaches_home(ant, #[trigger] homes[k])
}

/// Whether the ant can take the piece: it reaches it, and no ant has
/// claimed a piece of that id in this tick.
pub open spec fn can_take(ant: Ant, food: Food, taken: Set<u64>) -> bool {
    reaches_food(ant, food) && !taken.contains(food.id)
}

/// The index of the first piece of food that the ant can take, or the
/// length of the sequence where it can take none.
pub open spec fn first_food(ant: Ant, foods: Seq<Food>, taken: Set<u64>) -> int
    decreases foods.len(),
{
    if foods.len() == 0 {
        0
    } else {
        let before = first_food(ant, foods.drop_last(), taken);
        if before < foods.len() - 1 {
            before
        } else if can_take(ant, foods.last(), taken) {
            foods.len() - 1
        } else {
            foods.len() as int
        }
    }
}

/// `first_food` is the least index of a piece that the ant can take.
pub proof fn lemma_first_food(ant: Ant, foods: Seq<Food>, taken: Set<u64>)
    ensures
        0 <= first_food(ant, foods, taken) <= foods.len(),
        first_food(ant, foods, taken) < foods.len() ==> can_take(
            ant,
            foods[first_food(ant, foods, taken)],
            taken,
        ),
        forall|j: int|
            0 <= j < first_food(ant, foods, taken) ==> !can_take(ant, #[trigger] foods[j], taken),
    decreases foods.len(),
{
    if foods.len() > 0 {
        lemma_first_food(ant, foods.drop_last(), taken);
        let before = first_food(ant, foods.drop_last(), taken);
        assert forall|j: int| 0 <= j < first_food(ant, foods, taken) implies !can_take(
            ant,
            #[trigger] foods[j],
            taken,
        ) by {
            if j < foods.len() - 1 {
                assert(foods[j] == foods.drop_last()[j]);
            }
        }
        if before < foods.len() - 1 {
            assert(foods[before] == foods.drop_last()[before]);
        }
    }
}

/// An index at which the ant can take the piece, with none before it that
/// it can take, is the one that `first_food` gives.
pub proof fn lemma_first_food_is(ant: Ant, foods: Seq<Food>, taken: Set<u64>, k: int)
    requires
        0 <= k <= foods.len(),
        k < foods.len() ==> can_take(ant, foods[k], taken),
        forall|j: int| 0 <= j < k ==> !can_take(ant, #[trigger] foods[j], taken),
    ensures
        first_food(ant, foods, taken) == k,
{
    lemma_first_food(ant, foods, taken);
    let f = first_food(ant, foods, taken);
    if f < k {
        assert(!can_take(ant, foods[f], taken));
    }
}

/// What the foraging phase does to one ant, given the food on the ground
/// and the ids claimed so far in this tick: the ant afterwards, and the ids
/// claimed then.
///
/// A loaded ant within reach of a home drops its load, which is gone for
/// good, and turns round. An ant without a load picks up the first piece
/// that it can take, claims its id, and turns round. Any other ant stays as
/// it is.
pub open spec fn forage_ant(ant: Ant, foods: Seq<Food>, homes: Seq<Home>, taken: Set<u64>) -> (
    Ant,
    Set<u64>,
) {
    if ant.carrying() {
        if at_home(ant, homes) {
            (ant.reversed().carrying_item(None), taken)
        } else {
            (ant, taken)
        }
    } else {
        let k = first_food(ant, foods, taken);
        if k < foods.len() {
            (ant.reversed().carrying_item(Some(foods[k].id)), taken.insert(foods[k].id))
        } else {
            (ant, taken)
        }
    }
}

/// The ids claimed when the first `n` ants have had their turn, in the
/// order of the sequence. At the start of a tick none is claimed.
pub open spec fn taken_after(ants: Seq<Ant>, foods: Seq<Food>, homes: Seq<Home>, n: int) -> Set<
    u64,
>
    decreases n,
{
    if n <= 0 {
        Set::empty()
    } else {
        forage_ant(ants[n - 1], foods, homes, taken_after(ants, foods, homes, n - 1)).1
    }
}

/// The ant at index `i` after the foraging phase: it meets the claims that
/// the ants before it have made.
pub open spec fn ant_after(ants: Seq<Ant>, foods: Seq<Food>, homes: Seq<Home>, i: int) -> Ant {
    forage_ant(ants[i], foods, homes, taken_after(ants, foods, homes, i)).0
}

/// The pieces that stay on the ground when those with a claimed id leave,
/// in the order that they had.
pub open spec fn left_behind(foods: Seq<Food>, taken: Set<u64>) -> Seq<Food>
    decreases foods.len(),
{
    if foods.len() == 0 {
        Seq::empty()
    } else {
        let rest = left_behind(foods.drop_last(), taken);
        if taken.contains(foods.last().id) {
            rest
        } else {
            rest.push(foods.last())
        }
    }
}

/// The food on the ground when the first `n` ants have had their turn and
/// what they have claimed has left.
pub open spec fn foods_after(ants: Seq<Ant>, foods: Seq<Food>, homes: Seq<Home>, n: int) -> Seq<
    Food,
> {
    left_behind(foods, taken_after(ants, foods, homes, n))
}

/// Tests whether the ant is within reach of any home.
pub fn is_at_home(ant: &Ant, homes: &Vec<Home>) -> (r: bool)
    ensures
        r == at_home(*ant, homes@),
{
    let mut k: usize = 0;
    while k < homes.len()
        invariant
            k <= homes.len(),
            forall|j: int| 0 <= j < k ==> !reaches_home(*ant, #[trigger] homes@[j]),
        decreases homes.len() - k,
    {
        if within(
            ant.x as i64,
            ant.y as i64,
            homes[k].x as i64,
            homes[k].y as i64,
            homes[k].radius as i64,
        ) {
            return true;
        }
        k += 1;
    }
    false
}

/// Finds the first piece of food that the ant can take.
pub fn find_food(ant: &Ant, foods: &Vec<Food>, taken: &HashSet<u64>) -> (r: Option<usize>)
    ensures
        r is Some <==> first_food(*ant, foods@, taken@) < foods@.len(),
        r is Some ==> r->0 == first_food(*ant, foods@, taken@),
{
    let mut k: usize = 0;
    while k < foods.len()
        invariant
            k <= foods.len(),
            forall|j: int| 0 <= j < k ==> !can_take(*ant, #[trigger] foods@[j], taken@),
        decreases foods.len() - k,
    {
        let id: u64 = foods[k].id;
        if within(
            ant.x as i64,
            ant.y as i64,
            foods[k].x as i64,
            foods[k].y as i64,
            FOOD_SIZE as i64,
        ) && !taken.contains(&id) {
            proof {
                lemma_first_food_is(*ant, foods@, taken@, k as int);
            }
            return Some(k);
        }
        k += 1;
    }
    proof {
        lemma_first_food_is(*ant, foods@, taken@, k as int);
    }
    None
}

/// The foraging phase for one ant. `taken` holds the ids claimed so far in
/// this tick and gets the id that the ant claims. Returns the id of the
/// food that was delivered and so has left the world, if the ant delivered.
pub fn forage_one(
    ant: &mut Ant,
    foods: &Vec<Food>,
    homes: &Vec<Home>,
    taken: &mut HashSet<u64>,
) -> (delivered: Option<u64>)
    requires
        old(ant).wf(),
    ensures
        (*final(ant), final(taken)@) == forage_ant(*old(ant), foods@, homes@, old(taken)@),
        final(ant).wf(),
        delivered == (if old(ant).carrying() && at_home(*old(ant), homes@) {
            old(ant).carried_item
        } else {
            None
        }),
{
    match ant.carried_item {
        Some(item) => {
            if is_at_home(ant, homes) {
                ant.reverse();
                ant.carried_item = None;
                Some(item)
            } else {
                None
            }
        },
        None => {
            match find_food(ant, foods, taken) {
                Some(k) => {
                    let id: u64 = foods[k].id;
                    taken.insert(id);
                    ant.reverse();
                    ant.carried_item = Some(id);
                },
                None => {},
            }
            None
        },
    }
}

/// Takes the pieces with a claimed id off the ground.
pub fn remove_taken(foods: &mut Vec<Food>, taken: &HashSet<u64>)
    ensures
        final(foods)@ == left_behind(old(foods)@, taken@),
{
    let mut kept: Vec<Food> = Vec::new();
    let mut i: usize = 0;
    while i < foods.len()
        invariant
            i <= foods.len(),
            foods@ == old(foods)@,
            kept@ == left_behind(foods@.take(i as int), taken@),
        decreases foods.len() - i,
    {
        proof {
            assert(foods@.take(i + 1).drop_last() =~= foods@.take(i as int));
        }
        let food = foods[i];
        let id: u64 = food.id;
        if !taken.contains(&id) {
            kept.push(food);
        }
        i += 1;
    }
    proof {
        assert(foods@.take(i as int) =~= foods@);
    }
    *foods = kept;
}

/// The foraging phase of a tick: the ants take their turn in the order of
/// the vector, so of two ants that reach the same piece of food the earlier
/// one gets it. When all have had their turn, the pieces that were picked up
/// leave the ground. Positions do not change. Returns the ids of the pieces
/// that were delivered, in the order of delivery.
pub fn forage_step(ants: &mut Vec<Ant>, foods: &mut Vec<Food>, homes: &Vec<Home>) -> (delivered: Vec<u64>)
    requires
        ants_valid(old(ants)@),
    ensures
        final(ants)@.len() == old(ants)@.len(),
        forall|i: int|
            0 <= i < old(ants)@.len() ==> #[trigger] final(ants)@[i] == ant_after(
                old(ants)@,
                old(foods)@,
                homes@,
                i,
            ),
        final(foods)@ == foods_after(old(ants)@, old(foods)@, homes@, old(ants)@.len() as int),
        ants_valid(final(ants)@),
        delivered@ == deliveries(old(ants)@, homes@, old(ants)@.len() as int),
        ownership_valid(old(ants)@, old(foods)@) ==> ownership_valid(final(ants)@, final(foods)@),
{
    let mut delivered: Vec<u64> = Vec::new();
    let mut taken: HashSet<u64> = HashSet::new();
    let mut i: usize = 0;
    while i < ants.len()
        invariant
            i <= ants.len(),
            ants@.len() == old(ants)@.len(),
            foods@ == old(foods)@,
            forall|j: int| i <= j < ants@.len() ==> #[trigger] ants@[j] == old(ants)@[j],
            forall|j: int|
                0 <= j < i ==> #[trigger] ants@[j] == ant_after(
                    old(ants)@,
                    old(foods)@,
                    homes@,
                    j,
                ),
            taken@ == taken_after(old(ants)@, old(foods)@, homes@, i as int),
            ants_valid(ants@),
            ants_valid(old(ants)@),
            delivered@ == deliveries(old(ants)@, homes@, i as int),
        decreases ants.len() - i,
    {
        let mut ant = ants[i];
        let gone = forage_one(&mut ant, foods, homes, &mut taken);
        ants.set(i, ant);
        match gone {
            Some(item) => {
                delivered.push(item);
            },
            None => {},
        }
        i += 1;
    }
    remove_taken(foods, &taken);
    proof {
        if ownership_valid(old(ants)@, old(foods)@) {
            lemma_forage_keeps_ownership(old(ants)@, old(foods)@, homes@);
            assert(ants@ =~= ants_after(old(ants)@, old(foods)@, homes@));
        }
    }
    delivered
}

/// The ids of the pieces of food that the first `n` ants deliver, in the
/// order of the ants. Whether an ant delivers depends on its own load and
/// place alone.
pub open spec fn deliveries(ants: Seq<Ant>, homes: Seq<Home>, n: int) -> Seq<u64>
    decreases n,
{
    if n <= 0 {
        Seq::empty()
    } else {
        let before = deliveries(ants, homes, n - 1);
        let ant = ants[n - 1];
        if ant.carrying() && at_home(ant, homes) {
            before.push(ant.carried_item->0)
        } else {
            before
        }
    }
}

/// All the ants after the foraging phase.
pub open spec fn ants_after(ants: Seq<Ant>, foods: Seq<Food>, homes: Seq<Home>) -> Seq<Ant> {
    Seq::new(ants.len(), |i: int| ant_after(ants, foods, homes, i))
}

/// Every piece of food has one place: no two pieces on the ground share an
/// id, no two ants carry the same piece, and no piece that an ant carries
/// lies on the ground.
pub open spec fn ownership_valid(ants: Seq<Ant>, foods: Seq<Food>) -> bool {
    &&& forall|i: int, j: int|
        0 <= i < j < foods.len() ==> (#[trigger] foods[i]).id != (#[trigger] foods[j]).id
    &&& forall|i: int, j: int|
        0 <= i < j < ants.len() && (#[trigger] ants[i]).carrying() && (#[trigger] ants[j]).carrying()
            ==> ants[i].carried_item != ants[j].carried_item
    &&& forall|i: int, k: int|
        0 <= i < ants.len() && 0 <= k < foods.len() && (#[trigger] ants[i]).carrying()
            ==> ants[i].carried_item->0 != (#[trigger] foods[k]).id
}

/// Whether a piece of food with the given id is anywhere in the world.
pub open spec fn in_world(id: u64, ants: Seq<Ant>, foods: Seq<Food>) -> bool {
    ||| exists|k: int| 0 <= k < foods.len() && (#[trigger] foods[k]).id == id
    ||| exists|i: int| 0 <= i < ants.len() && (#[trigger] ants[i]).carried_item == Some(id)
}

/// The ants when the first `n` of them have had their turn.
pub open spec fn ants_partway(ants: Seq<Ant>, foods: Seq<Food>, homes: Seq<Home>, n: int) -> Seq<
    Ant,
> {
    Seq::new(
        ants.len(),
        |i: int|
            if i < n {
                ant_after(ants, foods, homes, i)
            } else {
                ants[i]
            },
    )
}

/// Whether a piece of food with the given id lies on the ground.
pub open spec fn on_ground(id: u64, foods: Seq<Food>) -> bool {
    exists|k: int| 0 <= k < foods.len() && (#[trigger] foods[k]).id == id
}

/// What holds of the ants and the claims in the middle of a tick: every
/// load is the one that the ant came with or is claimed, no two ants have
/// the same load, and every claimed id is that of a piece on the ground.
pub open spec fn claims_valid(ants: Seq<Ant>, foods: Seq<Food>, part: Seq<Ant>, taken: Set<u64>) -> bool {
    &&& part.len() == ants.len()
    &&& forall|i: int|
        0 <= i < part.len() && (#[trigger] part[i]).carrying() ==> part[i].carried_item
            == ants[i].carried_item || taken.contains(part[i].carried_item->0)
    &&& forall|i: int, j: int|
        0 <= i < j < part.len() && (#[trigger] part[i]).carrying() && (#[trigger] part[j]).carrying()
            ==> part[i].carried_item != part[j].carried_item
    &&& forall|id: u64| #[trigger] taken.contains(id) ==> on_ground(id, foods)
}

/// What stays on the ground are pieces that lay there and whose ids are
/// not claimed; and if no two pieces on the ground shared an id, no two of
/// those that stay do.
pub proof fn lemma_left_behind(foods: Seq<Food>, taken: Set<u64>)
    ensures
        left_behind(foods, taken).len() <= foods.len(),
        forall|j: int|
            0 <= j < left_behind(foods, taken).len() ==> !taken.contains(
                (#[trigger] left_behind(foods, taken)[j]).id,
            ) && on_ground(left_behind(foods, taken)[j].id, foods),
        (forall|i: int, j: int|
            0 <= i < j < foods.len() ==> (#[trigger] foods[i]).id != (#[trigger] foods[j]).id)
            ==> (forall|i: int, j: int|
            0 <= i < j < left_behind(foods, taken).len() ==> (#[trigger] left_behind(
                foods,
                taken,
            )[i]).id != (#[trigger] left_behind(foods, taken)[j]).id),
    decreases foods.len(),
{
    let left = left_behind(foods, taken);
    if foods.len() > 0 {
        let front = foods.drop_last();
        let rest = left_behind(front, taken);
        lemma_left_behind(front, taken);
        assert forall|j: int| 0 <= j < left.len() implies !taken.contains((#[trigger] left[j]).id)
            && on_ground(left[j].id, foods) by {
            if j < rest.len() {
                assert(left[j] == rest[j]);
                let k = choose|k: int| 0 <= k < front.len() && (#[trigger] front[k]).id
                    == rest[j].id;
                assert(foods[k].id == rest[j].id);
            } else {
                assert(left[j] == foods[foods.len() - 1]);
            }
        }
        if forall|i: int, j: int|
            0 <= i < j < foods.len() ==> (#[trigger] foods[i]).id != (#[trigger] foods[j]).id {
            assert forall|i: int, j: int| 0 <= i < j < front.len() implies (#[trigger] front[i]).id
                != (#[trigger] front[j]).id by {
                assert(front[i] == foods[i]);
                assert(front[j] == foods[j]);
            }
            assert forall|i: int, j: int| 0 <= i < j < left.len() implies (#[trigger] left[i]).id
                != (#[trigger] left[j]).id by {
                assert(left[i] == rest[i]);
                if j < rest.len() {
                    assert(left[j] == rest[j]);
                } else {
                    let k = choose|k: int| 0 <= k < front.len() && (#[trigger] front[k]).id
                        == rest[i].id;
                    assert(foods[k].id == rest[i].id);
                    assert(left[j] == foods[foods.len() - 1]);
                }
            }
        }
    }
}

/// The turn of one ant keeps the claims in order.
pub proof fn lemma_turn_keeps_claims(
    ants: Seq<Ant>,
    foods: Seq<Food>,
    homes: Seq<Home>,
    part: Seq<Ant>,
    taken: Set<u64>,
    i: int,
)
    requires
        0 <= i < ants.len(),
        ownership_valid(ants, foods),
        claims_valid(ants, foods, part, taken),
        part[i] == ants[i],
    ensures
        claims_valid(
            ants,
            foods,
            part.update(i, forage_ant(ants[i], foods, homes, taken).0),
            forage_ant(ants[i], foods, homes, taken).1,
        ),
{
    let ant = ants[i];
    let next = forage_ant(ant, foods, homes, taken);
    let part2 = part.update(i, next.0);
    let taken2 = next.1;
    lemma_first_food(ant, foods, taken);
    let k = first_food(ant, foods, taken);
    assert forall|a: int| 0 <= a < part2.len() && (#[trigger] part2[a]).carrying() implies part2[a].carried_item
        == ants[a].carried_item || taken2.contains(part2[a].carried_item->0) by {
        if a != i {
            assert(part2[a] == part[a]);
        }
    }
    assert forall|a: int, b: int|
        0 <= a < b < part2.len() && (#[trigger] part2[a]).carrying() && (
        #[trigger] part2[b]).carrying() implies part2[a].carried_item != part2[b].carried_item by {
        if a != i && b != i {
            assert(part2[a] == part[a]);
            assert(part2[b] == part[b]);
        } else {
            let other = if a == i { b } else { a };
            assert(part2[other] == part[other]);
            assert(part[other].carrying());
            if ant.carrying() {
                assert(part2[i] == ant);
                assert(part[i].carrying());
            } else {
                assert(k < foods.len());
                assert(part2[i].carried_item == Some(foods[k].id));
                assert(!taken.contains(foods[k].id));
                if part[other].carried_item == ants[other].carried_item {
                    assert(ants[other].carrying());
                    assert(ants[other].carried_item->0 != foods[k].id);
                }
            }
        }
    }
    assert forall|id: u64| #[trigger] taken2.contains(id) implies on_ground(id, foods) by {
        if !taken.contains(id) {
            assert(foods[k].id == id);
        }
    }
}

/// The claims are in order after each ant's turn.
pub proof fn lemma_partway_claims(ants: Seq<Ant>, foods: Seq<Food>, homes: Seq<Home>, n: int)
    requires
        0 <= n <= ants.len(),
        ownership_valid(ants, foods),
    ensures
        claims_valid(
            ants,
            foods,
            ants_partway(ants, foods, homes, n),
            taken_after(ants, foods, homes, n),
        ),
    decreases n,
{
    if n == 0 {
        assert(ants_partway(ants, foods, homes, 0) =~= ants);
    } else {
        lemma_partway_claims(ants, foods, homes, n - 1);
        let before = ants_partway(ants, foods, homes, n - 1);
        let taken = taken_after(ants, foods, homes, n - 1);
        assert(before[n - 1] == ants[n - 1]);
        lemma_turn_keeps_claims(ants, foods, homes, before, taken, n - 1);
        assert(ants_partway(ants, foods, homes, n) =~= before.update(
            n - 1,
            forage_ant(ants[n - 1], foods, homes, taken).0,
        ));
    }
}

/// The foraging phase keeps every piece of food in one place. So no two
/// ants come out of a tick with the same piece, whichever of them reached
/// it: the one that had its turn first claimed it.
pub proof fn lemma_forage_keeps_ownership(ants: Seq<Ant>, foods: Seq<Food>, homes: Seq<Home>)
    requires
        ownership_valid(ants, foods),
    ensures
        ownership_valid(
            ants_after(ants, foods, homes),
            foods_after(ants, foods, homes, ants.len() as int),
        ),
        forall|i: int, j: int|
            0 <= i < j < ants.len() && (#[trigger] ant_after(ants, foods, homes, i)).carrying() && (
            #[trigger] ant_after(ants, foods, homes, j)).carrying() ==> ant_after(
                ants,
                foods,
                homes,
                i,
            ).carried_item != ant_after(ants, foods, homes, j).carried_item,
{
    let n = ants.len() as int;
    lemma_partway_claims(ants, foods, homes, n);
    let done = ants_after(ants, foods, homes);
    let taken = taken_after(ants, foods, homes, n);
    let left = foods_after(ants, foods, homes, n);
    assert(ants_partway(ants, foods, homes, n) =~= done);
    lemma_left_behind(foods, taken);
    assert forall|i: int, j: int|
        0 <= i < j < ants.len() && (#[trigger] ant_after(ants, foods, homes, i)).carrying() && (
        #[trigger] ant_after(ants, foods, homes, j)).carrying() implies ant_after(
        ants,
        foods,
        homes,
        i,
    ).carried_item != ant_after(ants, foods, homes, j).carried_item by {
        assert(done[i] == ant_after(ants, foods, homes, i));
        assert(done[j] == ant_after(ants, foods, homes, j));
    }
    assert forall|i: int, c: int|
        0 <= i < done.len() && 0 <= c < left.len() && (#[trigger] done[i]).carrying()
        implies done[i].carried_item->0 != (#[trigger] left[c]).id by {
        assert(!taken.contains(left[c].id));
        assert(on_ground(left[c].id, foods));
        if done[i].carried_item == ants[i].carried_item {
            let k = choose|k: int| 0 <= k < foods.len() && (#[trigger] foods[k]).id == left[c].id;
            assert(ants[i].carrying());
            assert(ants[i].carried_item->0 != foods[k].id);
        }
    }
}

/// A loaded ant within reach of a home comes out of its turn without a
/// load and turned round, the claims are as they were, and the piece that
/// it carried is nowhere in the world any more.
pub proof fn lemma_delivery_removes_food(
    ants: Seq<Ant>,
    foods: Seq<Food>,
    homes: Seq<Home>,
    taken: Set<u64>,
    i: int,
)
    requires
        0 <= i < ants.len(),
        ownership_valid(ants, foods),
        ants[i].carrying(),
        at_home(ants[i], homes),
    ensures
        !forage_ant(ants[i], foods, homes, taken).0.carrying(),
        forage_ant(ants[i], foods, homes, taken).0 == ants[i].reversed().carrying_item(None),
        forage_ant(ants[i], foods, homes, taken).1 == taken,
        !in_world(
            ants[i].carried_item->0,
            ants.update(i, forage_ant(ants[i], foods, homes, taken).0),
            foods,
        ),
{
    let id = ants[i].carried_item->0;
    let ants2 = ants.update(i, forage_ant(ants[i], foods, homes, taken).0);
    assert forall|k: int| 0 <= k < foods.len() implies (#[trigger] foods[k]).id != id by {}
    assert forall|a: int| 0 <= a < ants2.len() implies (#[trigger] ants2[a]).carried_item != Some(
        id,
    ) by {
        if a != i {
            assert(ants2[a] == ants[a]);
            if ants[a].carrying() {
                if a < i {
                    assert(ants[a].carried_item != ants[i].carried_item);
                } else {
                    assert(ants[i].carried_item != ants[a].carried_item);
                }
            }
        }
    }
}

} // verus!
