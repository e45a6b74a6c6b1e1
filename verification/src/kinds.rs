//! Closed enumerations for the kinds of resources, items and machines, and
//! the fixed conversion tables between them.

use vstd::prelude::*;

verus! {

/// A raw material embedded in the world as a static tile.
#[derive(Clone, Copy, PartialEq, Eq, Structural, Debug)]
pub enum ResourceKind {
    Coal,
    IronOre,
    CopperOre,
}

/// A unit of cargo: raw ores, refined sheets, and the placeable machines
/// when carried as items.
#[derive(Clone, Copy, PartialEq, Eq, Structural, Debug)]
pub enum ItemKind {
    Coal,
    IronOre,
    CopperOre,
    IronSheet,
    CopperSheet,
    Belt,
    Miner,
    Inserter,
    Furnace,
}

/// The kind of a machine placed on the grid.
#[derive(Clone, Copy, PartialEq, Eq, Structural, Debug)]
pub enum MachineKind {
    Belt,
    Miner,
    Inserter,
    Furnace,
}

/// The item a resource tile yields when mined or drilled.
pub open spec fn spec_resource_item(r: ResourceKind) -> ItemKind {
    match r {
        ResourceKind::Coal => ItemKind::Coal,
        ResourceKind::IronOre => ItemKind::IronOre,
        ResourceKind::CopperOre => ItemKind::CopperOre,
    }
}

/// The refined item a furnace produces from a raw one, if any; kinds with
/// no entry in the table are rejected rather than converted.
pub open spec fn spec_smelt_output(i: ItemKind) -> Option<ItemKind> {
    match i {
        ItemKind::IronOre => Some(ItemKind::IronSheet),
        ItemKind::CopperOre => Some(ItemKind::CopperSheet),
        _ => None,
    }
}

/// The machine an item in hand builds when placed, if any.
pub open spec fn spec_machine_for_item(i: ItemKind) -> Option<MachineKind> {
    match i {
        ItemKind::Belt => Some(MachineKind::Belt),
        ItemKind::Miner => Some(MachineKind::Miner),
        ItemKind::Inserter => Some(MachineKind::Inserter),
        ItemKind::Furnace => Some(MachineKind::Furnace),
        _ => None,
    }
}

/// The logical texture name the renderer draws for an item kind; the core
/// knows nothing of pixels, only this mapping.
pub open spec fn spec_item_texture(k: ItemKind) -> Seq<char> {
    match k {
        ItemKind::Coal => "coal"@,
        ItemKind::IronOre => "iron_ore"@,
        ItemKind::CopperOre => "copper_ore"@,
        ItemKind::IronSheet => "iron_sheet"@,
        ItemKind::CopperSheet => "copper_sheet"@,
        ItemKind::Belt => "belt"@,
        ItemKind::Miner => "miner"@,
        ItemKind::Inserter => "inserter"@,
        ItemKind::Furnace => "furnace"@,
    }
}

pub fn item_texture_name(k: ItemKind) -> (r: &'static str)
    ensures
        r@ == spec_item_texture(k),
{
    match k {
        ItemKind::Coal => "coal",
        ItemKind::IronOre => "iron_ore",
        ItemKind::CopperOre => "copper_ore",
        ItemKind::IronSheet => "iron_sheet",
        ItemKind::CopperSheet => "copper_sheet",
        ItemKind::Belt => "belt",
        ItemKind::Miner => "miner",
        ItemKind::Inserter => "inserter",
        ItemKind::Furnace => "furnace",
    }
}

/// The texture name of a resource tile.
pub open spec fn spec_resource_texture(r: ResourceKind) -> Seq<char> {
    match r {
        ResourceKind::Coal => "coal"@,
        ResourceKind::IronOre => "iron_ore"@,
        ResourceKind::CopperOre => "copper_ore"@,
    }
}

pub fn resource_texture_name(r: ResourceKind) -> (s: &'static str)
    ensures
        s@ == spec_resource_texture(r),
{
    match r {
        ResourceKind::Coal => "coal",
        ResourceKind::IronOre => "iron_ore",
        ResourceKind::CopperOre => "copper_ore",
    }
}

/// The texture name of a machine's static part.
pub open spec fn spec_machine_texture(m: MachineKind) -> Seq<char> {
    match m {
        MachineKind::Belt => "belt"@,
        MachineKind::Miner => "miner"@,
        MachineKind::Inserter => "inserter_base"@,
        MachineKind::Furnace => "furnace"@,
    }
}

pub fn machine_texture_name(m: MachineKind) -> (s: &'static str)
    ensures
        s@ == spec_machine_texture(m),
{
    match m {
        MachineKind::Belt => "belt",
        MachineKind::Miner => "miner",
        MachineKind::Inserter => "inserter_base",
        MachineKind::Furnace => "furnace",
    }
}

/// The texture of a machine's rotating part, for the one machine that has
/// one: the inserter's hand.
pub fn machine_rotating_texture_name(m: MachineKind) -> (s: Option<&'static str>)
    ensures
        match m {
            MachineKind::Inserter => s is Some && s->0@ == "inserter_hand"@,
            _ => s is None,
        },
{
    match m {
        MachineKind::Inserter => Some("inserter_hand"),
        _ => None,
    }
}

pub fn resource_item(r: ResourceKind) -> (it: ItemKind)
    ensures
        it == spec_resource_item(r),
{
    match r {
        ResourceKind::Coal => ItemKind::Coal,
        ResourceKind::IronOre => ItemKind::IronOre,
        ResourceKind::CopperOre => ItemKind::CopperOre,
    }
}

pub fn smelt_output(i: ItemKind) -> (out: Option<ItemKind>)
    ensures
        out == spec_smelt_output(i),
{
    match i {
        ItemKind::IronOre => Some(ItemKind::IronSheet),
        ItemKind::CopperOre => Some(ItemKind::CopperSheet),
        _ => None,
    }
}

pub fn machine_for_item(i: ItemKind) -> (mk: Option<MachineKind>)
    ensures
        mk == spec_machine_for_item(i),
{
    match i {
        ItemKind::Belt => Some(MachineKind::Belt),
        ItemKind::Miner => Some(MachineKind::Miner),
        ItemKind::Inserter => Some(MachineKind::Inserter),
        ItemKind::Furnace => Some(MachineKind::Furnace),
        _ => None,
    }
}

} // verus!
