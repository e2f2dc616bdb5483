use opr::tts;
use std::str::FromStr;
use opr::{get_army_url, get_common_rules_url, GameSystem};

#[test]
fn try_from_recognizes_short_names() {
    assert_eq!(GameSystem::try_from("GF"), Ok(GameSystem::GF));
    assert_eq!(GameSystem::try_from("GFF"), Ok(GameSystem::GFF));
    assert_eq!(GameSystem::try_from("AoF"), Ok(GameSystem::AoF));
    assert_eq!(GameSystem::try_from("AoFS"), Ok(GameSystem::AoFS));
    assert_eq!(GameSystem::try_from("AoFR"), Ok(GameSystem::AoFR));
}

#[test]
fn try_from_recognizes_lower_case() {
    assert_eq!(GameSystem::try_from("gf"), Ok(GameSystem::GF));
    assert_eq!(GameSystem::try_from("gff"), Ok(GameSystem::GFF));
    assert_eq!(GameSystem::try_from("aof"), Ok(GameSystem::AoF));
    assert_eq!(GameSystem::try_from("aofs"), Ok(GameSystem::AoFS));
    assert_eq!(GameSystem::try_from("aofr"), Ok(GameSystem::AoFR));
}

#[test]
fn try_from_refuses_other_names() {
    assert_eq!(
        GameSystem::try_from("Gf"),
        Err("cannot find GameSystem for \"Gf\"".to_string())
    );
    assert_eq!(
        GameSystem::try_from(""),
        Err("cannot find GameSystem for \"\"".to_string())
    );
    assert_eq!(
        GameSystem::try_from("AOFS"),
        Err("cannot find GameSystem for \"AOFS\"".to_string())
    );
}

#[test]
fn name_reads_back() {
    for gs in [GameSystem::GF, GameSystem::GFF, GameSystem::AoF, GameSystem::AoFS, GameSystem::AoFR] {
        assert_eq!(GameSystem::try_from(gs.to_string().as_str()), Ok(gs));
    }
    assert_eq!(GameSystem::AoFS.to_string(), "AoFS");
}

#[test]
fn ids_of_game_systems() {
    let ids: Vec<usize> = [GameSystem::GF, GameSystem::GFF, GameSystem::AoF, GameSystem::AoFS, GameSystem::AoFR]
        .into_iter()
        .map(|gs| gs.into())
        .collect();
    assert_eq!(ids, vec![2, 3, 4, 5, 6]);
}

#[test]
fn army_url() {
    assert_eq!(
        get_army_url("ybjR2-7kHUNY"),
        "https://army-forge.onepagerules.com/api/tts?id=ybjR2-7kHUNY"
    );
    assert_eq!(get_army_url(""), "https://army-forge.onepagerules.com/api/tts?id=");
}

#[test]
fn common_rules_url() {
    assert_eq!(
        get_common_rules_url(GameSystem::GF),
        "https://generals-familiar-relay-ydirson-aa7362b7.koyeb.app/opr/api/rules/common/2"
    );
    assert_eq!(
        get_common_rules_url(GameSystem::AoFR),
        "https://generals-familiar-relay-ydirson-aa7362b7.koyeb.app/opr/api/rules/common/6"
    );
}

#[test]
fn common_rules_urls_distinct() {
    let all = [GameSystem::GF, GameSystem::GFF, GameSystem::AoF, GameSystem::AoFS, GameSystem::AoFR];
    for a in all {
        for b in all {
            assert_eq!(a == b, get_common_rules_url(a) == get_common_rules_url(b));
        }
    }
}

#[test]
fn tts_from_str() {
    assert_eq!(tts::GameSystem::from_str("GFF"), Ok(tts::GameSystem::GFF));
    assert_eq!(tts::GameSystem::from_str("aofr"), Ok(tts::GameSystem::AoFR));
    assert_eq!(
        tts::GameSystem::from_str("grimdark"),
        Err("cannot find GameSystem for \"grimdark\"".to_string())
    );
    assert_eq!("aof".parse::<tts::GameSystem>(), Ok(tts::GameSystem::AoF));
}

#[test]
fn tts_name_reads_back() {
    for gs in [
        tts::GameSystem::GF,
        tts::GameSystem::GFF,
        tts::GameSystem::AoF,
        tts::GameSystem::AoFS,
        tts::GameSystem::AoFR,
    ] {
        assert_eq!(tts::GameSystem::from_str(&gs.to_string()), Ok(gs));
    }
    assert_eq!(tts::GameSystem::GFF.to_string(), "GFF");
}

#[test]
fn tts_common_rules_url() {
    let base = "https://army-forge.onepagerules.com/api/afs/common-rules";
    assert_eq!(tts::get_common_rules_url(tts::GameSystem::GF), base);
    assert_eq!(tts::get_common_rules_url(tts::GameSystem::AoF), base);
    assert_eq!(
        tts::get_common_rules_url(tts::GameSystem::GFF),
        format!("{base}?description=skirmish")
    );
    assert_eq!(
        tts::get_common_rules_url(tts::GameSystem::AoFS),
        format!("{base}?description=skirmish")
    );
    assert_eq!(
        tts::get_common_rules_url(tts::GameSystem::AoFR),
        format!("{base}?description=regiments")
    );
}

#[test]
fn local_urls() {
    assert_eq!(opr::get_local_army_url("dVlqH2ICxln2"), "/data/armies/dVlqH2ICxln2");
    assert_eq!(opr::get_local_common_rules_url(GameSystem::GF), "/data/common-rules-2");
    assert_eq!(opr::get_local_common_rules_url(GameSystem::AoFS), "/data/common-rules-5");
}
