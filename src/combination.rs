//! Combination rules: which unit types a roster may combine into.

use vstd::prelude::*;

use crate::unit::{Rank, Unit, UnitType};

verus! {

/// A rule: the unit type it yields and the (type, rank) pairs it needs.
pub type Recipe = (UnitType, [(UnitType, Rank); 3]);

/// The requirement table, as (result, requirements) pairs.
pub open spec fn recipe_table() -> Seq<(UnitType, Seq<(UnitType, Rank)>)> {
    seq![
        (
            UnitType::Knight,
            seq![(UnitType::Warrior, 1u16), (UnitType::Mage, 1u16), (UnitType::Ranger, 1u16)],
        ),
    ]
}

/// The roster holds a unit of type `t` and rank `rank`.
pub open spec fn has_unit(units: Seq<Unit>, t: UnitType, rank: Rank) -> bool {
    exists|i: int| 0 <= i < units.len() && (#[trigger] units[i]).unit_type == t && units[i].rank == rank
}

/// The roster meets every requirement.
pub open spec fn meets(units: Seq<Unit>, requirements: Seq<(UnitType, Rank)>) -> bool {
    forall|j: int|
        0 <= j < requirements.len() ==> has_unit(units, (#[trigger] requirements[j]).0, requirements[j].1)
}

/// The results of the rules in `table` whose requirements the roster meets, in
/// table order.
pub open spec fn available(units: Seq<Unit>, table: Seq<(UnitType, Seq<(UnitType, Rank)>)>) -> Seq<
    UnitType,
>
    decreases table.len(),
{
    if table.len() == 0 {
        Seq::empty()
    } else {
        let rest = available(units, table.drop_last());
        if meets(units, table.last().1) {
            rest.push(table.last().0)
        } else {
            rest
        }
    }
}

/// The requirement table.
pub fn recipes() -> (r: Vec<Recipe>)
    ensures
        r@.len() == recipe_table().len(),
        forall|i: int|
            0 <= i < r@.len() ==> (#[trigger] r@[i]).0 == recipe_table()[i].0 && r@[i].1@
                == recipe_table()[i].1,
{
    let knight: Recipe = (
        UnitType::Knight,
        [(UnitType::Warrior, 1), (UnitType::Mage, 1), (UnitType::Ranger, 1)],
    );
    let r = vec![knight];
    assert(r@[0].1@ =~= recipe_table()[0].1);
    r
}

/// Whether the roster holds a unit of type `t` and rank `rank`.
fn holds(units: &Vec<Unit>, t: UnitType, rank: Rank) -> (r: bool)
    ensures
        r == has_unit(units@, t, rank),
{
    let mut i: usize = 0;
    while i < units.len()
        invariant
            i <= units.len(),
            forall|j: int| 0 <= j < i ==> !((#[trigger] units@[j]).unit_type == t && units@[j].rank == rank),
        decreases units.len() - i,
    {
        if units[i].unit_type == t && units[i].rank == rank {
            return true;
        }
        i += 1;
    }
    false
}

/// Unit types a roster can be combined into.
pub trait Combination {
    /// The unit types the roster can be combined into, in table order.
    spec fn combinations_spec(&self) -> Seq<UnitType>;

    fn combinations(&self) -> (r: Vec<UnitType>)
        ensures
            r@ == self.combinations_spec(),
    ;
}

impl Combination for Vec<Unit> {
    open spec fn combinations_spec(&self) -> Seq<UnitType> {
        available(self@, recipe_table())
    }

    /// The results of every rule whose requirements the roster meets: each
    /// required (type, rank) pair is matched by some unit.
    fn combinations(&self) -> (r: Vec<UnitType>) {
        let table = recipes();
        let ghost spec_table = recipe_table();
        let mut found: Vec<UnitType> = Vec::new();
        let mut i: usize = 0;
        while i < table.len()
            invariant
                i <= table.len(),
                table@.len() == spec_table.len(),
                spec_table == recipe_table(),
                forall|k: int|
                    0 <= k < table@.len() ==> (#[trigger] table@[k]).0 == spec_table[k].0
                        && table@[k].1@ == spec_table[k].1,
                found@ == available(self@, spec_table.take(i as int)),
            decreases table.len() - i,
        {
            assert(spec_table.take(i + 1).drop_last() =~= spec_table.take(i as int));
            let (result, requirements) = table[i];
            let mut all = true;
            let mut j: usize = 0;
            while j < 3
                invariant
                    j <= 3,
                    requirements@ == spec_table[i as int].1,
                    all == meets(self@, requirements@.take(j as int)),
                decreases 3 - j,
            {
                let (t, rank) = requirements[j];
                let present = holds(self, t, rank);
                proof {
                    let reqs = requirements@.take(j + 1);
                    assert(reqs[j as int] == (t, rank));
                    assert forall|k: int| 0 <= k < j implies reqs[k] == requirements@.take(
                        j as int,
                    )[k] by {}
                }
                all = all && present;
                j += 1;
            }
            assert(requirements@.take(3) =~= requirements@);
            if all {
                found.push(result);
            }
            i += 1;
        }
        assert(spec_table.take(i as int) =~= spec_table);
        found
    }
}

} // verus!
