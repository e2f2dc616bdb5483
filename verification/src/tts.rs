//! Army lists as Army Forge's TTS endpoint serves them: units in a flat
//! list, with their points.
use vstd::prelude::*;
use std::rc::Rc;
use std::str::FromStr;
use crate::game_system as forge;
use crate::text::{decimal, equals_literal, push_decimal};

verus! {

/// The endpoint that serves army lists.
pub const GET_ARMY_BASE_URL: &'static str = "https://army-forge.onepagerules.com/api/tts";

/// The endpoint that serves the common rules.
pub const GET_COMMON_RULES_URL: &'static str = "https://army-forge.onepagerules.com/api/afs/common-rules";

/// An army list.
#[derive(Clone, Debug)]
pub struct Army {
    pub id: String,
    pub name: String,
    pub game_system: String,
    pub points: usize,
    pub points_limit: usize,
    pub special_rules: Vec<Rc<SpecialRuleDef>>,
    pub units: Vec<Rc<Unit>>,
}

/// A unit of an army list.
#[derive(Debug)]
pub struct Unit {
    pub id: String,
    pub name: String,
    pub cost: usize,
    /// The name that the player gave the unit; empty if none.
    pub custom_name: String,
    pub size: usize,
    pub quality: usize,
    pub defense: usize,
    pub special_rules: Vec<Rc<SpecialRule>>,
    pub loadout: Vec<Rc<UnitLoadout>>,
    pub selection_id: String,
    pub combined: bool,
    pub join_to_unit: Option<String>,
}

/// A special rule, with its rating as text (empty if it has none).
#[derive(Debug)]
pub struct SpecialRule {
    pub name: String,
    pub rating: String,
}

/// The definition of a special rule.
#[derive(Debug)]
pub struct SpecialRuleDef {
    pub name: String,
    pub description: String,
}

/// An item of a unit's loadout.
#[derive(Debug)]
pub enum UnitLoadout {
    Equipment(Equipment),
    Upgrade(UnitUpgrade),
}

/// A weapon or a piece of gear.
#[derive(Debug)]
pub struct Equipment {
    pub name: String,
    pub range: usize,
    pub attacks: usize,
    pub count: usize,
    pub special_rules: Vec<Rc<SpecialRule>>,
}

/// An upgrade that grants rules.
#[derive(Debug)]
pub struct UnitUpgrade {
    pub name: String,
    pub content: Vec<Rc<SpecialRule>>,
}

/// The name under which a unit is shown: its custom name, if it has one,
/// followed by its name in brackets; then its size in square brackets when
/// it has more than one model.
pub open spec fn unit_display_name(unit: Unit) -> Seq<char> {
    let name = if unit.custom_name@.len() > 0 {
        unit.custom_name@ + " ("@ + unit.name@ + ")"@
    } else {
        unit.name@
    };
    if unit.size > 1 {
        name + " ["@ + decimal(unit.size as nat) + "]"@
    } else {
        name
    }
}

impl Unit {
    /// The name under which the unit is shown, such as "Captain (Hero) [3]".
    pub fn formatted_name(&self) -> (s: String)
        ensures
            s@ == unit_display_name(*self),
    {
        let mut name = if !self.custom_name.as_str().is_empty() {
            let mut n = self.custom_name.clone();
            n.append(" (");
            n.append(self.name.as_str());
            n.append(")");
            n
        } else {
            self.name.clone()
        };
        if self.size > 1 {
            name.append(" [");
            push_decimal(&mut name, self.size);
            name.append("]");
        }
        name
    }
}

/// The game systems of One Page Rules.
#[derive(Clone, Copy, Debug, PartialEq, Eq, Structural)]
#[non_exhaustive]
pub enum GameSystem {
    GF,
    GFF,
    AoF,
    AoFS,
    AoFR,
}

/// The game system of this list that stands for one of the other list.
pub open spec fn from_forge(gs: forge::GameSystem) -> GameSystem {
    match gs {
        forge::GameSystem::GF => GameSystem::GF,
        forge::GameSystem::GFF => GameSystem::GFF,
        forge::GameSystem::AoF => GameSystem::AoF,
        forge::GameSystem::AoFS => GameSystem::AoFS,
        forge::GameSystem::AoFR => GameSystem::AoFR,
    }
}

/// The game system that a name denotes: its short name, or that name in
/// lower case.
pub open spec fn game_system_of_name(s: Seq<char>) -> Option<GameSystem> {
    match forge::game_system_of_name(s) {
        Some(gs) => Some(from_forge(gs)),
        None => None,
    }
}

/// The short name of a game system.
pub open spec fn game_system_name(gs: GameSystem) -> Seq<char> {
    match gs {
        GameSystem::GF => "GF"@,
        GameSystem::GFF => "GFF"@,
        GameSystem::AoF => "AoF"@,
        GameSystem::AoFS => "AoFS"@,
        GameSystem::AoFR => "AoFR"@,
    }
}

/// The description under which the common rules of a game system are
/// served, if it needs one.
pub open spec fn rules_description(gs: GameSystem) -> Option<Seq<char>> {
    match gs {
        GameSystem::GF | GameSystem::AoF => None,
        GameSystem::GFF | GameSystem::AoFS => Some("skirmish"@),
        GameSystem::AoFR => Some("regiments"@),
    }
}

/// The URL from which the common rules of a game system are fetched.
pub open spec fn common_rules_url(gs: GameSystem) -> Seq<char> {
    match rules_description(gs) {
        None => GET_COMMON_RULES_URL@,
        Some(d) => GET_COMMON_RULES_URL@ + "?description="@ + d,
    }
}

impl GameSystem {
    /// Recognizes a game system by its short name, in the case shown or in
    /// lower case; any other input is refused with a message that quotes it.
    pub fn parse(input: &str) -> (r: Result<GameSystem, String>)
        ensures
            game_system_of_name(input@) matches Some(gs) ==> r == Ok::<GameSystem, String>(gs),
            game_system_of_name(input@) is None ==> (r matches Err(msg)
                && msg@ == forge::unknown_game_system_message(input@)),
    {
        let s = input.to_owned();
        if equals_literal(&s, "GF") || equals_literal(&s, "gf") {
            Ok(GameSystem::GF)
        } else if equals_literal(&s, "GFF") || equals_literal(&s, "gff") {
            Ok(GameSystem::GFF)
        } else if equals_literal(&s, "AoF") || equals_literal(&s, "aof") {
            Ok(GameSystem::AoF)
        } else if equals_literal(&s, "AoFS") || equals_literal(&s, "aofs") {
            Ok(GameSystem::AoFS)
        } else if equals_literal(&s, "AoFR") || equals_literal(&s, "aofr") {
            Ok(GameSystem::AoFR)
        } else {
            let mut msg = "cannot find GameSystem for \"".to_owned();
            msg.append(input);
            msg.append("\"");
            Err(msg)
        }
    }

    /// The short name of the game system ("GF", "AoFS", ...).
    pub fn to_string(&self) -> (s: String)
        ensures
            s@ == game_system_name(*self),
    {
        match *self {
            GameSystem::GF => "GF".to_owned(),
            GameSystem::GFF => "GFF".to_owned(),
            GameSystem::AoF => "AoF".to_owned(),
            GameSystem::AoFS => "AoFS".to_owned(),
            GameSystem::AoFR => "AoFR".to_owned(),
        }
    }
}

impl FromStr for GameSystem {
    type Err = String;

    fn from_str(input: &str) -> (r: Result<GameSystem, String>)
        ensures
            game_system_of_name(input@) matches Some(gs) ==> r == Ok::<GameSystem, String>(gs),
            game_system_of_name(input@) is None ==> (r matches Err(msg)
                && msg@ == forge::unknown_game_system_message(input@)),
    {
        GameSystem::parse(input)
    }
}

/// The URL from which the common rules of `game_system` are fetched.
pub fn get_common_rules_url(game_system: GameSystem) -> (url: String)
    ensures
        url@ == common_rules_url(game_system),
{
    let mut url = GET_COMMON_RULES_URL.to_owned();
    match game_system {
        GameSystem::GF | GameSystem::AoF => {},
        GameSystem::GFF | GameSystem::AoFS => {
            url.append("?description=");
            url.append("skirmish");
        },
        GameSystem::AoFR => {
            url.append("?description=");
            url.append("regiments");
        },
    }
    url
}

} // verus!

verus! {

/// A game system's short name reads back as that game system.
pub proof fn lemma_name_round_trip(gs: GameSystem)
    ensures
        game_system_of_name(game_system_name(gs)) == Some(gs),
{
    let f = match gs {
        GameSystem::GF => forge::GameSystem::GF,
        GameSystem::GFF => forge::GameSystem::GFF,
        GameSystem::AoF => forge::GameSystem::AoF,
        GameSystem::AoFS => forge::GameSystem::AoFS,
        GameSystem::AoFR => forge::GameSystem::AoFR,
    };
    forge::lemma_name_round_trip(f);
    assert(game_system_name(gs) == forge::game_system_name(f));
}

} // verus!

verus! {

/// A unit with more than one model shows its size: its name ends with
/// " [", the size in decimal digits, and "]"; otherwise it shows its custom
/// name, if it has one, with its name in brackets, or its name alone.
pub proof fn lemma_display_name_size(unit: Unit)
    ensures
        unit.size > 1 ==> {
            let s = unit_display_name(unit);
            let tail = " ["@ + decimal(unit.size as nat) + "]"@;
            &&& s.len() >= tail.len()
            &&& s.skip(s.len() - tail.len()) == tail
        },
        unit.size <= 1 ==> unit_display_name(unit) == if unit.custom_name@.len() > 0 {
            unit.custom_name@ + " ("@ + unit.name@ + ")"@
        } else {
            unit.name@
        },
        unit.custom_name@.len() > 0 ==> crate::unit::starts_with(
            unit_display_name(unit),
            unit.custom_name@ + " ("@ + unit.name@ + ")"@,
        ),
        unit.custom_name@.len() == 0 ==> crate::unit::starts_with(unit_display_name(unit), unit.name@),
{
    let s = unit_display_name(unit);
    if unit.size > 1 {
        let tail = " ["@ + decimal(unit.size as nat) + "]"@;
        assert(s.skip(s.len() - tail.len()) =~= tail);
    }
    if unit.custom_name@.len() > 0 {
        let head = unit.custom_name@ + " ("@ + unit.name@ + ")"@;
        assert(s.take(head.len() as int) =~= head);
    } else {
        assert(s.take(unit.name@.len() as int) =~= unit.name@);
    }
}

/// The common rules of GF and AoF are fetched without a description; the
/// skirmish games GFF and AoFS share the description "skirmish"; AoFR asks
/// for "regiments". Every URL starts with the endpoint's.
pub proof fn lemma_common_rules_urls()
    ensures
        common_rules_url(GameSystem::GF) == GET_COMMON_RULES_URL@,
        common_rules_url(GameSystem::AoF) == GET_COMMON_RULES_URL@,
        common_rules_url(GameSystem::GFF) == GET_COMMON_RULES_URL@ + "?description=skirmish"@,
        common_rules_url(GameSystem::AoFS) == GET_COMMON_RULES_URL@ + "?description=skirmish"@,
        common_rules_url(GameSystem::AoFR) == GET_COMMON_RULES_URL@ + "?description=regiments"@,
        forall|gs: GameSystem| crate::unit::starts_with(#[trigger] common_rules_url(gs), GET_COMMON_RULES_URL@),
{
    reveal_strlit("?description=");
    reveal_strlit("skirmish");
    reveal_strlit("regiments");
    reveal_strlit("?description=skirmish");
    reveal_strlit("?description=regiments");
    assert("?description="@ + "skirmish"@ =~= "?description=skirmish"@);
    assert("?description="@ + "regiments"@ =~= "?description=regiments"@);
    assert(GET_COMMON_RULES_URL@ + "?description="@ + "skirmish"@ =~= GET_COMMON_RULES_URL@ + "?description=skirmish"@);
    assert(GET_COMMON_RULES_URL@ + "?description="@ + "regiments"@ =~= GET_COMMON_RULES_URL@ + "?description=regiments"@);
    assert forall|gs: GameSystem| crate::unit::starts_with(#[trigger] common_rules_url(gs), GET_COMMON_RULES_URL@) by {
        assert(common_rules_url(gs).take(GET_COMMON_RULES_URL@.len() as int) =~= GET_COMMON_RULES_URL@);
    }
}

} // verus!
