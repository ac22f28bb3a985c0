//! What the player has asked for.

use crate::logistics::Restock;
use crate::single::Single;
use vstd::prelude::*;

verus! {

/// How to hunt a ground once there.
#[derive(Clone, Copy, Debug, PartialEq, Eq, Structural)]
pub enum Tactic {
    /// Stand still: they come to us.
    Camp,
    /// Keep walking the ground.
    Patrol,
    /// Walk it over, and give up on it once it is quiet.
    Sweep,
}

/// Growing the character and keeping it supplied.
#[derive(Clone, Debug)]
pub struct Growth {
    /// Spend unassigned experience on skills, attributes and vitals.
    pub auto_xp: bool,
    /// Go to a hunting ground that suits the level when nothing is about.
    pub hunt_grounds: bool,
    /// How many levels either side of the character's a ground may be.
    pub level_margin: u32,
    /// Hunt this landblock and no other, 0 to pick whatever suits. A party
    /// follows its leader's choice.
    pub hunt_at: u32,
    /// How to hunt the ground once there, none to leave it to the ground.
    pub tactic: Option<Tactic>,
    /// Seconds with nothing to fight before moving on.
    pub idle_before_move: Single,
    /// Walk to a vendor when the pack is full or supplies are short.
    pub town_runs: bool,
    /// How much ammunition to carry for a bow or crossbow. A run to town is
    /// made when a quarter of this is left and none can be made from what is
    /// carried.
    pub ammo_keep: u32,
    /// Quest flags this character has earned, for the counters that ask for
    /// one. The server never tells a client which quests it has done, so this
    /// is the player's word for it.
    pub gates_open: Vec<String>,
    /// Loot taken for a counter is reason enough for a run to town on its own
    /// once it is worth this much at face value, in pyreals. 0 turns the rule
    /// off.
    pub sell_run_value: u32,
    /// The same, once this many things are being carried for a counter. 0 turns
    /// the rule off.
    pub sell_run_count: u32,
    /// The same, once anything has been carried for a counter this long, in
    /// seconds. 0 turns the rule off.
    pub sell_run_patience: Single,
}

impl Default for Growth {
    fn default() -> (r: Growth)
        ensures
            r.gates_open@.len() == 0,
            r == (Growth {
                auto_xp: true,
                hunt_grounds: true,
                level_margin: 8,
                hunt_at: 0,
                tactic: None,
                idle_before_move: Single { bits: 0x4270_0000 },
                town_runs: true,
                ammo_keep: 250,
                gates_open: r.gates_open,
                sell_run_value: 5_000,
                sell_run_count: 8,
                sell_run_patience: Single { bits: 0x4461_0000 },
            }),
    {
        Growth {
            auto_xp: true,
            hunt_grounds: true,
            level_margin: 8,
            hunt_at: 0,
            tactic: None,
            // A minute.
            idle_before_move: Single { bits: 0x4270_0000 },
            town_runs: true,
            ammo_keep: 250,
            gates_open: Vec::new(),
            sell_run_value: 5_000,
            // Eight things for a counter is an armful: slots are going, and it
            // is well short of the pack filling by itself.
            sell_run_count: 8,
            // A quarter of an hour, near twice the least wait between runs.
            sell_run_patience: Single { bits: 0x4461_0000 },
        }
    }
}

/// What the team rules say.
#[derive(Clone, Copy, Debug, PartialEq, Eq, Structural)]
pub struct Team {
    pub enabled: bool,
    /// How the party keeps itself supplied.
    pub restock: Restock,
}

/// Ten seconds, as a number: the longest a character inside a hunting area
/// stands on a quiet spot before walking to another part of it. Moving on
/// inside an area costs only the walk.
pub const PATROL_AFTER: u32 = 0x4120_0000;

pub open spec fn spec_quiet_before_move(cfg: Growth, in_an_area: bool) -> Single {
    if in_an_area {
        cfg.idle_before_move.smaller(Single { bits: PATROL_AFTER })
    } else {
        cfg.idle_before_move
    }
}

/// How long a spot with nothing on it is given before the character looks
/// elsewhere, seconds. A hunting area is given less; a setting shorter than
/// that is still obeyed.
pub fn quiet_before_move(cfg: &Growth, in_an_area: bool) -> (r: Single)
    ensures
        r == spec_quiet_before_move(*cfg, in_an_area),
{
    if in_an_area {
        cfg.idle_before_move.min(Single { bits: PATROL_AFTER })
    } else {
        cfg.idle_before_move
    }
}

/// Whether the party's mode decides when this character goes to town, rather
/// than its own pack and supplies. `mates` is how many others are on the team
/// as it was last heard: restocking together needs somebody to restock with.
pub fn restocks_as_a_party(team: &Team, mates: usize) -> (r: bool)
    ensures
        r == (team.enabled && team.restock.together && mates > 0),
{
    team.enabled && team.restock.together && mates > 0
}

} // verus!
