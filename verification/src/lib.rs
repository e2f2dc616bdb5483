//! Army lists of One Page Rules games, as Army Forge serves them: their
//! units, grouped by which unit joins which, with their costs and names.

pub mod army;
pub mod game_system;
pub mod grouping;
pub mod order;
pub mod text;
pub mod tts;
pub mod unit;
pub mod unit_upgrade_option;

pub use army::{Army, GroupingFault, JsonArmy, UnitGroup};
pub use game_system::{
    get_army_url, get_common_rules_url, get_local_army_url, get_local_common_rules_url, GameSystem,
    AF_API_RELAY, AF_API_SRV, ARMYFORGE_SHARE_URL,
};
pub use unit::{
    CommonRules, Equipment, JsonUnit, SelectedUpgrade, SpecialRule, SpecialRuleDef, Unit,
    UnitLoadout, UnitUpgrade, UnitUpgradeOption,
};
pub use unit_upgrade_option::{Cost, CostMap};
