use vstd::prelude::*;
use crate::levels::{level_def, level_ranges, LEVEL_COUNT};
use crate::save::SaveData;

verus! {

/// Which deposits collectors go for first.
#[derive(Clone, Copy, Debug, PartialEq, Eq, Structural)]
pub enum Priority {
    /// The nearest one.
    Nearest,
    Energy,
    Crystal,
}

impl Priority {
    /// The label shown for the strategy.
    pub fn label(&self) -> (r: &'static str)
        ensures
            *self == Priority::Nearest ==> r@ == "Nearest"@,
            *self == Priority::Energy ==> r@ == "Energy first"@,
            *self == Priority::Crystal ==> r@ == "Crystal first"@,
    {
        match self {
            Priority::Nearest => "Nearest",
            Priority::Energy => "Energy first",
            Priority::Crystal => "Crystal first",
        }
    }
}

/// The parameters of one game.
#[derive(Clone, Copy, Debug, PartialEq, Eq, Structural)]
pub struct Config {
    pub num_scouts: usize,
    pub num_collectors: usize,
    pub priority: Priority,
    pub carry_capacity: u32,
    pub energy_min: u32,
    pub energy_max: u32,
    pub crystal_min: u32,
    pub crystal_max: u32,
    pub wall_break_power: u8,
}

/// The level's quantity ranges raised by the store bonuses fit in a `u32`.
pub open spec fn config_fits(level_idx: int, save: SaveData) -> bool {
    &&& level_ranges(level_idx).1 + save.energy_bonus <= u32::MAX
    &&& level_ranges(level_idx).3 + save.crystal_bonus <= u32::MAX
}

/// The game parameters for level `level_idx` and the player's progression:
/// robots, cargo and laser from the save, deposit ranges from the level raised
/// by the store bonuses, collectors going for the nearest deposit.
pub fn build_config(level_idx: usize, save: &SaveData) -> (r: Config)
    requires
        level_idx < LEVEL_COUNT,
        config_fits(level_idx as int, *save),
    ensures
        r.num_scouts == save.num_scouts,
        r.num_collectors == save.num_collectors,
        r.priority == Priority::Nearest,
        r.carry_capacity == save.carry_capacity,
        r.energy_min == level_ranges(level_idx as int).0 + save.energy_bonus,
        r.energy_max == level_ranges(level_idx as int).1 + save.energy_bonus,
        r.crystal_min == level_ranges(level_idx as int).2 + save.crystal_bonus,
        r.crystal_max == level_ranges(level_idx as int).3 + save.crystal_bonus,
        r.wall_break_power == save.wall_break_power,
        r.energy_min <= r.energy_max,
        r.crystal_min <= r.crystal_max,
{
    let lvl = level_def(level_idx);
    Config {
        num_scouts: save.num_scouts,
        num_collectors: save.num_collectors,
        priority: Priority::Nearest,
        carry_capacity: save.carry_capacity,
        energy_min: lvl.energy_min + save.energy_bonus,
        energy_max: lvl.energy_max + save.energy_bonus,
        crystal_min: lvl.crystal_min + save.crystal_bonus,
        crystal_max: lvl.crystal_max + save.crystal_bonus,
        wall_break_power: save.wall_break_power,
    }
}

} // verus!
