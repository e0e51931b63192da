use kf2_logger::models::{Boss, KfDifficulty, Perk, PlayerInGame, PlayerInfo, ScrapeError};
use kf2_logger::parse::PlayerData;

#[test]
fn test_perk_map_() {
    let perk = Perk::map("Berserker").unwrap();
    assert_eq!(perk, Perk::Berserker);

    let perk = Perk::map("Field Medic").unwrap();
    assert_eq!(perk, Perk::FieldMedic);
}

#[test]
fn test_perk_map_error() {
    let perk = Perk::map("kissa");
    assert!(perk.is_err());
}

#[test]
fn test_perk_empty() {
    let perk = Perk::map("").unwrap();
    assert_eq!(perk, Perk::NotSelected);
}

#[test]
fn test_perk_to_string() {
    let perk = Perk::FieldMedic;
    assert_eq!(perk.to_string(), "Field Medic");

    let perk = Perk::Swat;
    assert_eq!(perk.to_string(), "Swat");

    let perk = Perk::NotSelected;
    assert_eq!(perk.to_string(), "Not Selected");
}

#[test]
fn test_kf_difficulty_map_() {
    let difficulty = KfDifficulty::map("Normal").unwrap();
    assert_eq!(difficulty, KfDifficulty::Normal);

    let difficulty = KfDifficulty::map("Hell on Earth").unwrap();
    assert_eq!(difficulty, KfDifficulty::HellOnEarth);
}

#[test]
fn test_kf_difficulty_map_error() {
    let difficulty = KfDifficulty::map("kissa");
    assert!(difficulty.is_err());
}

#[test]
fn test_kf_difficulty_to_string() {
    let difficulty = KfDifficulty::Normal;
    assert_eq!(difficulty.to_string(), "Normal");

    let difficulty = KfDifficulty::HellOnEarth;
    assert_eq!(difficulty.to_string(), "Hell on Earth");

    let difficulty = KfDifficulty::Suicidal;
    assert_eq!(difficulty.to_string(), "Suicidal");
}

#[test]
fn test_player_data_into_p_info() {
    let player_data = PlayerData::PlayerInfo(PlayerInfo {
        name: String::from("name"),
        ping: 0,
        ip: u32::from_be_bytes([0, 0, 0, 0]),
        unique_net_id: String::from(""),
        steam_id: 0,
        admin: false,
    });
    assert_eq!(
        player_data.into_p_info(),
        Some(PlayerInfo {
            name: String::from("name"),
            ping: 0,
            ip: u32::from_be_bytes([0, 0, 0, 0]),
            unique_net_id: String::from(""),
            steam_id: 0,
            admin: false
        })
    )
}

#[test]
fn test_player_data_into_p_in_game() {
    let player_data = PlayerData::PlayerInGame(PlayerInGame {
        name: String::from("name"),
        perk: Perk::Berserker,
        dosh: 0,
        health: 0,
        kills: 0,
        ping: 0,
        admin: false,
    });
    assert_eq!(
        player_data.into_p_in_game(),
        Some(PlayerInGame {
            name: String::from("name"),
            perk: Perk::Berserker,
            dosh: 0,
            health: 0,
            kills: 0,
            ping: 0,
            admin: false
        })
    );
}

#[test]
fn perk_map_folds_case_and_white_space() {
    assert_eq!(Perk::map("  FIELD\tMEDIC ").unwrap(), Perk::FieldMedic);
    assert_eq!(Perk::map("SharpShooter").unwrap(), Perk::Sharpshooter);
    assert_eq!(Perk::map("   ").unwrap(), Perk::NotSelected);
}

#[test]
fn perk_map_error_names_lowercased_text() {
    let e = Perk::map("KISSA").unwrap_err();
    assert_eq!(e, ScrapeError::UnknownVariant(String::from("kissa")));
    assert_eq!(e.to_string(), "Unknown variant kissa");
}

#[test]
fn difficulty_map_folds_case() {
    assert_eq!(KfDifficulty::map("HARD").unwrap(), KfDifficulty::Hard);
    assert_eq!(KfDifficulty::map("hellonearth").unwrap(), KfDifficulty::HellOnEarth);
    assert!(KfDifficulty::map("").is_err());
    assert_eq!(KfDifficulty::Hard.to_string(), "Hard");
}

#[test]
fn boss_map_value_and_names() {
    assert_eq!(Boss::map(&0).unwrap(), Boss::HansVolter);
    assert_eq!(Boss::map(&4).unwrap(), Boss::Abomination);
    let e = Boss::map(&9).unwrap_err();
    assert_eq!(e, ScrapeError::UnknownBoss(9));
    assert_eq!(e.to_string(), "Unknown boss 9");
    assert_eq!(Boss::KingFleshpound.value(), 2);
    assert_eq!(Boss::Undefined.value(), 5);
    assert_eq!(Boss::HansVolter.to_string(), "Hans Volter");
    assert_eq!(Boss::KingFleshpound.to_string(), "King Fleshpound");
}

#[test]
fn error_messages() {
    assert_eq!(ScrapeError::RowWidth(12).to_string(), "Wrong number of fields in player table 12");
    assert_eq!(ScrapeError::RowWidth(0).to_string(), "Wrong number of fields in player table 0");
    assert_eq!(
        ScrapeError::Bool(String::from("maybe")).to_string(),
        "Parse bool error. Cannot parse maybe into boolean"
    );
    assert_eq!(
        ScrapeError::Address(String::from("1.2.3")).to_string(),
        "Invalid IPv4 address 1.2.3"
    );
}
