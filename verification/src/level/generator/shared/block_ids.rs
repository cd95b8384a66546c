use vstd::prelude::*;

verus! {

/// The block ids the overworld-style generators place and test for, resolved once from
/// the server's block registry.
#[derive(Clone, Copy, Debug)]
pub struct BlockIds {
    pub air: i32,
    pub stone: i32,
    pub grass: i32,
    pub dirt: i32,
    pub cobblestone: i32,
    pub mossy_cobblestone: i32,
    pub bedrock: i32,
    pub water: i32,
    pub water_flowing: i32,
    pub lava: i32,
    pub lava_still: i32,
    pub sand: i32,
    pub sandstone: i32,
    pub gravel: i32,
    pub clay: i32,
    pub ice: i32,
    pub snow_layer: i32,
    pub coal_ore: i32,
    pub iron_ore: i32,
    pub gold_ore: i32,
    pub redstone_ore: i32,
    pub diamond_ore: i32,
    pub lapis_ore: i32,
    pub oak_log: i32,
    pub birch_log: i32,
    pub spruce_log: i32,
    pub oak_leaves: i32,
    pub birch_leaves: i32,
    pub spruce_leaves: i32,
    pub dandelion: i32,
    pub poppy: i32,
    pub tall_grass: i32,
    pub fern: i32,
    pub deadbush: i32,
    pub brown_mushroom: i32,
    pub red_mushroom: i32,
    pub reeds: i32,
    pub pumpkin: i32,
    pub cactus: i32,
    pub chest: i32,
    pub mob_spawner: i32,
}

} // verus!
