//! What each build costs.
use crate::player::{city_cost, dev_card_cost, road_cost, settlement_cost, ResourceHand};
use vstd::prelude::*;

verus! {

/// A road: one brick and one lumber.
pub fn road() -> (c: ResourceHand)
    ensures
        c == road_cost(),
{
    ResourceHand::with_amounts(1, 1, 0, 0, 0)
}

/// A settlement: one each of brick, lumber, grain and wool.
pub fn settlement() -> (c: ResourceHand)
    ensures
        c == settlement_cost(),
{
    ResourceHand::with_amounts(1, 1, 0, 1, 1)
}

/// A city: three ore and two grain.
pub fn city() -> (c: ResourceHand)
    ensures
        c == city_cost(),
{
    ResourceHand::with_amounts(0, 0, 3, 2, 0)
}

/// A development card: one each of ore, grain and wool.
pub fn development_card() -> (c: ResourceHand)
    ensures
        c == dev_card_cost(),
{
    ResourceHand::with_amounts(0, 0, 1, 1, 1)
}

} // verus!
