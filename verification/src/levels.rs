use vstd::prelude::*;

verus! {

/// A difficulty level: its name and the quantity ranges of its deposits.
pub struct LevelDef {
    pub subtitle: &'static str,
    pub energy_min: u32,
    pub energy_max: u32,
    pub crystal_min: u32,
    pub crystal_max: u32,
}

/// Number of difficulty levels.
pub const LEVEL_COUNT: usize = 5;

/// The deposit quantity ranges of level `idx`: (energy min, energy max,
/// crystal min, crystal max).
pub open spec fn level_ranges(idx: int) -> (u32, u32, u32, u32) {
    if idx == 0 {
        (10, 20, 10, 20)
    } else if idx == 1 {
        (30, 50, 30, 50)
    } else if idx == 2 {
        (60, 100, 60, 100)
    } else if idx == 3 {
        (120, 200, 120, 200)
    } else {
        (250, 500, 250, 500)
    }
}

/// The level `idx` of the table Initiation, Normal, Difficile, Expert, Ultra.
pub fn level_def(idx: usize) -> (r: LevelDef)
    requires
        idx < LEVEL_COUNT,
    ensures
        (r.energy_min, r.energy_max, r.crystal_min, r.crystal_max) == level_ranges(idx as int),
        idx == 0 ==> r.subtitle@ == "Initiation"@,
        idx == 1 ==> r.subtitle@ == "Normal"@,
        idx == 2 ==> r.subtitle@ == "Difficile"@,
        idx == 3 ==> r.subtitle@ == "Expert"@,
        idx == 4 ==> r.subtitle@ == "Ultra"@,
{
    match idx {
        0 => LevelDef { subtitle: "Initiation", energy_min: 10, energy_max: 20, crystal_min: 10, crystal_max: 20 },
        1 => LevelDef { subtitle: "Normal", energy_min: 30, energy_max: 50, crystal_min: 30, crystal_max: 50 },
        2 => LevelDef { subtitle: "Difficile", energy_min: 60, energy_max: 100, crystal_min: 60, crystal_max: 100 },
        3 => LevelDef { subtitle: "Expert", energy_min: 120, energy_max: 200, crystal_min: 120, crystal_max: 200 },
        _ => LevelDef { subtitle: "Ultra", energy_min: 250, energy_max: 500, crystal_min: 250, crystal_max: 500 },
    }
}

} // verus!
