use vstd::prelude::*;
use crate::text::{decimal, decimal_value, equals_literal, push_decimal};

verus! {

/// Army Forge, where army lists are built and shared.
pub const ARMYFORGE_SHARE_URL: &'static str = "https://army-forge.onepagerules.com/share";

/// Army Forge's API server.
pub const AF_API_SRV: &'static str = "https://army-forge.onepagerules.com";

/// Relay in front of Army Forge's API, serving the common rules.
pub const AF_API_RELAY: &'static str = "https://generals-familiar-relay-ydirson-aa7362b7.koyeb.app/opr";

/// The game systems of One Page Rules.
#[derive(Clone, Copy, Debug, PartialEq, Eq, Structural)]
#[non_exhaustive]
pub enum GameSystem {
    /// Grimdark Future
    GF,
    /// Grimdark Future: Firefight
    GFF,
    /// Age of Fantasy
    AoF,
    /// Age of Fantasy: Skirmish
    AoFS,
    /// Age of Fantasy: Regiments
    AoFR,
}

/// The short name of a game system, as `Display` writes it.
pub open spec fn game_system_name(gs: GameSystem) -> Seq<char> {
    match gs {
        GameSystem::GF => "GF"@,
        GameSystem::GFF => "GFF"@,
        GameSystem::AoF => "AoF"@,
        GameSystem::AoFS => "AoFS"@,
        GameSystem::AoFR => "AoFR"@,
    }
}

/// The game system that a name denotes: its short name, or that name in lower case.
pub open spec fn game_system_of_name(s: Seq<char>) -> Option<GameSystem> {
    if s == "GF"@ || s == "gf"@ {
        Some(GameSystem::GF)
    } else if s == "GFF"@ || s == "gff"@ {
        Some(GameSystem::GFF)
    } else if s == "AoF"@ || s == "aof"@ {
        Some(GameSystem::AoF)
    } else if s == "AoFS"@ || s == "aofs"@ {
        Some(GameSystem::AoFS)
    } else if s == "AoFR"@ || s == "aofr"@ {
        Some(GameSystem::AoFR)
    } else {
        None
    }
}

/// The message of the error for a name that denotes no game system.
pub open spec fn unknown_game_system_message(s: Seq<char>) -> Seq<char> {
    "cannot find GameSystem for \""@ + s + "\""@
}

/// Army Forge's numeric id of a game system.
pub open spec fn game_system_id(gs: GameSystem) -> nat {
    match gs {
        GameSystem::GF => 2,
        GameSystem::GFF => 3,
        GameSystem::AoF => 4,
        GameSystem::AoFS => 5,
        GameSystem::AoFR => 6,
    }
}

/// The URL from which an army list is fetched.
pub open spec fn army_url(army_id: Seq<char>) -> Seq<char> {
    AF_API_SRV@ + "/api/tts?id="@ + army_id
}

/// The URL from which the common rules of a game system are fetched.
pub open spec fn common_rules_url(gs: GameSystem) -> Seq<char> {
    AF_API_RELAY@ + "/api/rules/common/"@ + decimal(game_system_id(gs))
}

impl GameSystem {
    /// The short name of the game system ("GF", "AoFS", ...).
    pub fn to_string(&self) -> (s: String)
        ensures
            s@ == game_system_name(*self),
    {
        match *self {
            GameSystem::GF => "GF".to_owned(),
            GameSystem::GFF => "GFF".to_owned(),
            GameSystem::AoF => "AoF".to_owned(),
            GameSystem::AoFS => "AoFS".to_owned(),
            GameSystem::AoFR => "AoFR".to_owned(),
        }
    }
}

impl TryFrom<&str> for GameSystem {
    type Error = String;

    /// Recognizes a game system by its short name, in the case shown or in
    /// lower case; any other input is refused with a message that quotes it.
    fn try_from(input: &str) -> (r: Result<GameSystem, String>)
        ensures
            game_system_of_name(input@) matches Some(gs) ==> r == Ok::<GameSystem, String>(gs),
            game_system_of_name(input@) is None ==> (r matches Err(msg)
                && msg@ == unknown_game_system_message(input@)),
    {
        let s = input.to_owned();
        if equals_literal(&s, "GF") || equals_literal(&s, "gf") {
            Ok(GameSystem::GF)
        } else if equals_literal(&s, "GFF") || equals_literal(&s, "gff") {
            Ok(GameSystem::GFF)
        } else if equals_literal(&s, "AoF") || equals_literal(&s, "aof") {
            Ok(GameSystem::AoF)
        } else if equals_literal(&s, "AoFS") || equals_literal(&s, "aofs") {
            Ok(GameSystem::AoFS)
        } else if equals_literal(&s, "AoFR") || equals_literal(&s, "aofr") {
            Ok(GameSystem::AoFR)
        } else {
            let mut msg = "cannot find GameSystem for \"".to_owned();
            msg.append(input);
            msg.append("\"");
            Err(msg)
        }
    }
}

/// The generic contract of `TryFrom` would need the error `String` as a spec
/// value; `try_from` states its result in its own `ensures` instead.
impl vstd::std_specs::convert::TryFromSpecImpl<&str> for GameSystem {
    open spec fn obeys_try_from_spec() -> bool {
        false
    }

    open spec fn try_from_spec(v: &str) -> Result<GameSystem, String> {
        vstd::pervasive::arbitrary()
    }
}

impl From<GameSystem> for usize {
    /// Army Forge's numeric id of the game system.
    fn from(gs: GameSystem) -> (id: usize) {
        match gs {
            GameSystem::GF => 2,
            GameSystem::GFF => 3,
            GameSystem::AoF => 4,
            GameSystem::AoFS => 5,
            GameSystem::AoFR => 6,
        }
    }
}

impl vstd::std_specs::convert::FromSpecImpl<GameSystem> for usize {
    open spec fn obeys_from_spec() -> bool {
        true
    }

    open spec fn from_spec(gs: GameSystem) -> usize {
        game_system_id(gs) as usize
    }
}

/// The URL from which the army list `army_id` is fetched.
pub fn get_army_url(army_id: &str) -> (url: String)
    ensures
        url@ == army_url(army_id@),
{
    let mut url = AF_API_SRV.to_owned();
    url.append("/api/tts?id=");
    url.append(army_id);
    url
}

/// The URL from which the common rules of `game_system` are fetched.
pub fn get_common_rules_url(game_system: GameSystem) -> (url: String)
    ensures
        url@ == common_rules_url(game_system),
{
    let gs_id: usize = game_system.into();
    let mut url = AF_API_RELAY.to_owned();
    url.append("/api/rules/common/");
    push_decimal(&mut url, gs_id);
    url
}

} // verus!

verus! {

/// A game system's short name, as `to_string` gives it, reads back as that
/// game system.
pub proof fn lemma_name_round_trip(gs: GameSystem)
    ensures
        game_system_of_name(game_system_name(gs)) == Some(gs),
{
    reveal_strlit("GF");
    reveal_strlit("gf");
    reveal_strlit("GFF");
    reveal_strlit("gff");
    reveal_strlit("AoF");
    reveal_strlit("aof");
    reveal_strlit("AoFS");
    reveal_strlit("aofs");
    reveal_strlit("AoFR");
    reveal_strlit("aofr");
    assert("GF"@.len() != "GFF"@.len());
    assert("GFF"@[0] != "gf"@[0]);
    assert("AoF"@[0] != "GF"@[0] && "AoF"@[0] != "gf"@[0] && "AoF"@[0] != "GFF"@[0] && "AoF"@[0] != "gff"@[0]);
    assert("AoFS"@[0] != "GF"@[0] && "AoFS"@[0] != "gf"@[0] && "AoFS"@[0] != "GFF"@[0] && "AoFS"@[0] != "gff"@[0]);
    assert("AoFS"@.len() != "AoF"@.len() && "AoFS"@[0] != "aof"@[0]);
    assert("AoFR"@[0] != "GF"@[0] && "AoFR"@[0] != "gf"@[0] && "AoFR"@[0] != "GFF"@[0] && "AoFR"@[0] != "gff"@[0]);
    assert("AoFR"@.len() != "AoF"@.len() && "AoFR"@[0] != "aof"@[0] && "AoFR"@[3] != "AoFS"@[3] && "AoFR"@[0] != "aofs"@[0]);
}

/// Distinct game systems have distinct ids, so their common rules are
/// fetched from distinct URLs.
pub proof fn lemma_common_rules_urls_distinct(a: GameSystem, b: GameSystem)
    requires
        a != b,
    ensures
        game_system_id(a) != game_system_id(b),
        common_rules_url(a) != common_rules_url(b),
{
    let prefix = AF_API_RELAY@ + "/api/rules/common/"@;
    assert(common_rules_url(a) == prefix + seq![crate::text::digit_char(game_system_id(a))]);
    assert(common_rules_url(b) == prefix + seq![crate::text::digit_char(game_system_id(b))]);
    assert(common_rules_url(a)[prefix.len() as int] == crate::text::digit_char(game_system_id(a)));
    assert(common_rules_url(b)[prefix.len() as int] == crate::text::digit_char(game_system_id(b)));
}

} // verus!

verus! {

/// Where an army list is found among locally installed data files.
pub open spec fn local_army_url(army_id: Seq<char>) -> Seq<char> {
    "/data/armies/"@ + army_id
}

/// Where the common rules of a game system are found among locally
/// installed data files.
pub open spec fn local_common_rules_url(gs: GameSystem) -> Seq<char> {
    "/data/common-rules-"@ + decimal(game_system_id(gs))
}

/// The path of the army list `army_id` among locally installed data files,
/// for builds that serve the data themselves.
pub fn get_local_army_url(army_id: &str) -> (url: String)
    ensures
        url@ == local_army_url(army_id@),
{
    let mut url = "/data/armies/".to_owned();
    url.append(army_id);
    url
}

/// The path of the common rules of `game_system` among locally installed
/// data files, for builds that serve the data themselves.
pub fn get_local_common_rules_url(game_system: GameSystem) -> (url: String)
    ensures
        url@ == local_common_rules_url(game_system),
{
    let gs_id: usize = game_system.into();
    let mut url = "/data/common-rules-".to_owned();
    push_decimal(&mut url, gs_id);
    url
}

} // verus!

verus! {

/// The common rules of a game system are fetched from the relay's
/// `/api/rules/common/` path, followed by the game system's id written in
/// ASCII decimal digits: the URL ends with the digit whose code is 48 plus
/// the id.
pub proof fn lemma_common_rules_url_ends_with_id(gs: GameSystem)
    ensures
        game_system_id(gs) < 10,
        common_rules_url(gs).len() == AF_API_RELAY@.len() + "/api/rules/common/"@.len() + 1,
        common_rules_url(gs).take(common_rules_url(gs).len() - 1) == AF_API_RELAY@ + "/api/rules/common/"@,
        common_rules_url(gs).last() as u32 == 48 + game_system_id(gs),
        decimal_value(common_rules_url(gs).skip(common_rules_url(gs).len() - 1)) == game_system_id(gs),
{
    let prefix = AF_API_RELAY@ + "/api/rules/common/"@;
    let d = crate::text::digit_char(game_system_id(gs));
    assert(decimal(game_system_id(gs)) == seq![d]);
    crate::text::lemma_digit_char_ascii(game_system_id(gs));
    crate::text::lemma_decimal_reads_back(game_system_id(gs));
    assert(common_rules_url(gs).take(common_rules_url(gs).len() - 1) =~= prefix);
    assert(common_rules_url(gs).skip(common_rules_url(gs).len() - 1) =~= seq![d]);
}

} // verus!

verus! {

/// The string with its ASCII capital letters made small.
pub open spec fn ascii_lower(s: Seq<char>) -> Seq<char> {
    s.map_values(|c: char| if 65 <= c as u32 <= 90 { (c as u32 + 32) as char } else { c })
}

/// A name denotes a game system exactly when it is that system's short name
/// or the short name in small letters.
pub proof fn lemma_names_denote(gs: GameSystem, s: Seq<char>)
    ensures
        game_system_of_name(game_system_name(gs)) == Some(gs),
        game_system_of_name(ascii_lower(game_system_name(gs))) == Some(gs),
        game_system_of_name(s) == Some(gs) ==> (s == game_system_name(gs) || s == ascii_lower(
            game_system_name(gs),
        )),
{
    lemma_name_round_trip(gs);
    reveal_strlit("GF");
    reveal_strlit("gf");
    reveal_strlit("GFF");
    reveal_strlit("gff");
    reveal_strlit("AoF");
    reveal_strlit("aof");
    reveal_strlit("AoFS");
    reveal_strlit("aofs");
    reveal_strlit("AoFR");
    reveal_strlit("aofr");
    assert(ascii_lower("GF"@) =~= "gf"@);
    assert(ascii_lower("GFF"@) =~= "gff"@);
    assert(ascii_lower("AoF"@) =~= "aof"@);
    assert(ascii_lower("AoFS"@) =~= "aofs"@);
    assert(ascii_lower("AoFR"@) =~= "aofr"@);
    assert("GF"@.len() != "GFF"@.len());
    assert("gf"@.len() != "gff"@.len());
    assert("AoFS"@.len() != "AoF"@.len() && "aofs"@.len() != "aof"@.len());
    assert("AoFR"@.len() != "AoF"@.len() && "aofr"@.len() != "aof"@.len());
    assert("AoFR"@[3] != "AoFS"@[3] && "aofr"@[3] != "aofs"@[3]);
    assert("gff"@[0] != "GF"@[0] && "GFF"@[0] != "gf"@[0]);
    assert("aof"@[0] != "AoF"@[0]);
}

/// The short names are the names of the variants.
pub proof fn lemma_game_system_names()
    ensures
        game_system_name(GameSystem::GF) == "GF"@,
        game_system_name(GameSystem::GFF) == "GFF"@,
        game_system_name(GameSystem::AoF) == "AoF"@,
        game_system_name(GameSystem::AoFS) == "AoFS"@,
        game_system_name(GameSystem::AoFR) == "AoFR"@,
{
}

/// Army Forge numbers the game systems from 2, one after the other, in the
/// order GF, GFF, AoF, AoFS, AoFR.
pub proof fn lemma_game_system_ids()
    ensures
        game_system_id(GameSystem::GF) == 2,
        game_system_id(GameSystem::GFF) == game_system_id(GameSystem::GF) + 1,
        game_system_id(GameSystem::AoF) == game_system_id(GameSystem::GFF) + 1,
        game_system_id(GameSystem::AoFS) == game_system_id(GameSystem::AoF) + 1,
        game_system_id(GameSystem::AoFR) == game_system_id(GameSystem::AoFS) + 1,
{
}

/// The refusal is a fixed text, then the input between double quotes.
pub proof fn lemma_unknown_message_quotes(s: Seq<char>, t: Seq<char>)
    ensures
        unknown_game_system_message(s).len() == unknown_game_system_message(Seq::empty()).len() + s.len(),
        unknown_game_system_message(s).take(unknown_game_system_message(Seq::empty()).len() - 1)
            == unknown_game_system_message(t).take(unknown_game_system_message(Seq::empty()).len() - 1),
        unknown_game_system_message(s).subrange(
            unknown_game_system_message(Seq::empty()).len() - 1,
            unknown_game_system_message(Seq::empty()).len() - 1 + s.len(),
        ) == s,
        unknown_game_system_message(s).last() == '"',
        unknown_game_system_message(s)[unknown_game_system_message(Seq::empty()).len() - 2] == '"',
{
    reveal_strlit("cannot find GameSystem for \"");
    reveal_strlit("\"");
    let p = "cannot find GameSystem for \""@;
    let q = "\""@;
    let e = unknown_game_system_message(Seq::empty());
    assert(e =~= p + q);
    let ms = unknown_game_system_message(s);
    let mt = unknown_game_system_message(t);
    assert(ms.take(e.len() - 1) =~= p);
    assert(mt.take(e.len() - 1) =~= p);
    assert(ms.subrange(e.len() - 1, e.len() - 1 + s.len()) =~= s);
}

/// The URL of an army list is a fixed text followed by the army's id.
pub proof fn lemma_army_url_appends_id(a: Seq<char>, b: Seq<char>)
    ensures
        army_url(a) == army_url(Seq::empty()) + a,
        army_url(Seq::empty()) == AF_API_SRV@ + "/api/tts?id="@,
        army_url(a) == army_url(b) ==> a == b,
        local_army_url(a) == local_army_url(Seq::empty()) + a,
        local_army_url(a) == local_army_url(b) ==> a == b,
{
    let p = AF_API_SRV@ + "/api/tts?id="@;
    assert(army_url(Seq::empty()) =~= p);
    assert(army_url(a) =~= p + a);
    assert(local_army_url(Seq::empty()) =~= "/data/armies/"@);
    if army_url(a) == army_url(b) {
        assert(a =~= army_url(a).skip(p.len() as int));
        assert(b =~= army_url(b).skip(p.len() as int));
    }
    if local_army_url(a) == local_army_url(b) {
        assert(a =~= local_army_url(a).skip("/data/armies/"@.len() as int));
        assert(b =~= local_army_url(b).skip("/data/armies/"@.len() as int));
    }
}

} // verus!

verus! {

/// Locally, the common rules of a game system are found at
/// `/data/common-rules-` followed by its id in ASCII decimal digits.
pub proof fn lemma_local_common_rules_url_ends_with_id(gs: GameSystem)
    ensures
        local_common_rules_url(gs).len() == "/data/common-rules-"@.len() + 1,
        local_common_rules_url(gs).take(local_common_rules_url(gs).len() - 1) == "/data/common-rules-"@,
        local_common_rules_url(gs).last() as u32 == 48 + game_system_id(gs),
{
    let d = crate::text::digit_char(game_system_id(gs));
    assert(decimal(game_system_id(gs)) == seq![d]);
    crate::text::lemma_digit_char_ascii(game_system_id(gs));
    assert(local_common_rules_url(gs).take(local_common_rules_url(gs).len() - 1) =~= "/data/common-rules-"@);
}

} // verus!
