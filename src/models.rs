use vstd::prelude::*;
use vstd::string::StringExecFns;
use crate::text::{decimal_of, decimal_text, lower_of, lowercase, spells, squeeze, squeezed};

verus! {

/// The boss of a match, as the server's replication info numbers it.
#[derive(Clone, Copy, Debug, PartialEq, Eq, Structural)]
pub enum Boss {
    HansVolter,
    Patriarch,
    KingFleshpound,
    Matriarch,
    Abomination,
    Undefined,
}

/// Difficulty of a match.
#[derive(Clone, Copy, Debug, PartialEq, Eq, Structural)]
pub enum KfDifficulty {
    Normal,
    Hard,
    Suicidal,
    HellOnEarth,
}

/// What one poll of the server's map page (and boss query) reports.
#[derive(Debug)]
pub struct GameInfo {
    pub max_waves: u16,
    pub current_wave: u16,
    pub max_players: u16,
    pub current_players: u16,
    pub map_name: String,
    pub difficulty: KfDifficulty,
    pub game_type: String,
    pub boss: Boss,
}

/// Perk (class) of a player in the in-game roster.
#[derive(Clone, Copy, Debug, PartialEq, Eq, Structural)]
pub enum Perk {
    Berserker,
    Commando,
    Support,
    FieldMedic,
    Demolitionist,
    Firebug,
    Gunslinger,
    Sharpshooter,
    Survivalist,
    Swat,
    NotSelected,
}

/// The display name of a perk.
pub open spec fn perk_label(p: Perk) -> Seq<char> {
    match p {
        Perk::Berserker => "Berserker"@,
        Perk::Commando => "Commando"@,
        Perk::Support => "Support"@,
        Perk::FieldMedic => "Field Medic"@,
        Perk::Demolitionist => "Demolitionist"@,
        Perk::Firebug => "Firebug"@,
        Perk::Gunslinger => "Gunslinger"@,
        Perk::Sharpshooter => "Sharpshooter"@,
        Perk::Survivalist => "Survivalist"@,
        Perk::Swat => "Swat"@,
        Perk::NotSelected => "Not Selected"@,
    }
}

impl Perk {
    /// The display name of the perk.
    pub fn to_string(&self) -> (r: String)
        ensures
            r@ == perk_label(*self),
    {
        match self {
            Perk::Berserker => String::from_str("Berserker"),
            Perk::Commando => String::from_str("Commando"),
            Perk::Support => String::from_str("Support"),
            Perk::FieldMedic => String::from_str("Field Medic"),
            Perk::Demolitionist => String::from_str("Demolitionist"),
            Perk::Firebug => String::from_str("Firebug"),
            Perk::Gunslinger => String::from_str("Gunslinger"),
            Perk::Sharpshooter => String::from_str("Sharpshooter"),
            Perk::Survivalist => String::from_str("Survivalist"),
            Perk::Swat => String::from_str("Swat"),
            Perk::NotSelected => String::from_str("Not Selected"),
        }
    }
}

/// One row of the in-game roster.
#[derive(Clone, Debug, PartialEq, Eq)]
pub struct PlayerInGame {
    pub name: String,
    pub perk: Perk,
    pub dosh: u32,
    pub health: u32,
    pub kills: u32,
    pub ping: u32,
    pub admin: bool,
}

impl View for PlayerInGame {
    type V = (Seq<char>, Perk, u32, u32, u32, u32, bool);

    /// Name, perk, dosh, health, kills, ping, admin flag.
    open spec fn view(&self) -> Self::V {
        (self.name@, self.perk, self.dosh, self.health, self.kills, self.ping, self.admin)
    }
}

/// One row of the identity roster; `ip` is an IPv4 address as a big-endian number.
#[derive(Clone, Debug, PartialEq, Eq)]
pub struct PlayerInfo {
    pub name: String,
    pub ping: u32,
    pub ip: u32,
    pub unique_net_id: String,
    pub steam_id: u64,
    pub admin: bool,
}

impl View for PlayerInfo {
    type V = (Seq<char>, u32, u32, Seq<char>, u64, bool);

    /// Name, ping, address, unique net id, steam id, admin flag.
    open spec fn view(&self) -> Self::V {
        (self.name@, self.ping, self.ip, self.unique_net_id@, self.steam_id, self.admin)
    }
}

/// Why a cell or a page could not be read.
#[derive(Debug, PartialEq, Eq)]
pub enum ScrapeError {
    /// An expected cell or element is absent; the text names it.
    Missing(String),
    /// The text is not an unsigned integer of the wanted width.
    Int(String),
    /// The text, lowercased, is neither "yes" nor "no".
    Bool(String),
    /// The text is not a dotted IPv4 address.
    Address(String),
    /// The (lowercased) text names no perk or difficulty.
    UnknownVariant(String),
    /// The number names no boss.
    UnknownBoss(u8),
    /// The page does not have the expected shape; the text says how.
    Malformed(String),
    /// A player row with this many data cells belongs to neither roster.
    RowWidth(usize),
}

/// The message of an error.
pub open spec fn error_message(e: ScrapeError) -> Seq<char> {
    match e {
        ScrapeError::Missing(m) => m@,
        ScrapeError::Int(t) => "Parse int error. Cannot parse "@ + t@,
        ScrapeError::Bool(t) => "Parse bool error. Cannot parse "@ + t@ + " into boolean"@,
        ScrapeError::Address(t) => "Invalid IPv4 address "@ + t@,
        ScrapeError::UnknownVariant(t) => "Unknown variant "@ + t@,
        ScrapeError::UnknownBoss(n) => "Unknown boss "@ + decimal_of(n as nat),
        ScrapeError::Malformed(m) => m@,
        ScrapeError::RowWidth(n) => "Wrong number of fields in player table "@ + decimal_of(n as nat),
    }
}

impl ScrapeError {
    /// The message of the error.
    pub fn to_string(&self) -> (r: String)
        ensures
            r@ == error_message(*self),
    {
        match self {
            ScrapeError::Missing(m) => m.clone(),
            ScrapeError::Int(t) => {
                let mut r = String::from_str("Parse int error. Cannot parse ");
                r.append(t.as_str());
                r
            },
            ScrapeError::Bool(t) => {
                let mut r = String::from_str("Parse bool error. Cannot parse ");
                r.append(t.as_str());
                r.append(" into boolean");
                r
            },
            ScrapeError::Address(t) => {
                let mut r = String::from_str("Invalid IPv4 address ");
                r.append(t.as_str());
                r
            },
            ScrapeError::UnknownVariant(t) => {
                let mut r = String::from_str("Unknown variant ");
                r.append(t.as_str());
                r
            },
            ScrapeError::UnknownBoss(n) => {
                let mut r = String::from_str("Unknown boss ");
                let d = decimal_text(*n as u64);
                r.append(d.as_str());
                r
            },
            ScrapeError::Malformed(m) => m.clone(),
            ScrapeError::RowWidth(n) => {
                let mut r = String::from_str("Wrong number of fields in player table ");
                let d = decimal_text(*n as u64);
                r.append(d.as_str());
                r
            },
        }
    }
}

/// The perk that a lowercased, white-space-free text names; the empty text
/// names no perk chosen yet.
pub open spec fn perk_named(t: Seq<char>) -> Option<Perk> {
    if t == "berserker"@ {
        Some(Perk::Berserker)
    } else if t == "commando"@ {
        Some(Perk::Commando)
    } else if t == "support"@ {
        Some(Perk::Support)
    } else if t == "fieldmedic"@ {
        Some(Perk::FieldMedic)
    } else if t == "demolitionist"@ {
        Some(Perk::Demolitionist)
    } else if t == "firebug"@ {
        Some(Perk::Firebug)
    } else if t == "gunslinger"@ {
        Some(Perk::Gunslinger)
    } else if t == "sharpshooter"@ {
        Some(Perk::Sharpshooter)
    } else if t == "survivalist"@ {
        Some(Perk::Survivalist)
    } else if t == "swat"@ {
        Some(Perk::Swat)
    } else if t.len() == 0 {
        Some(Perk::NotSelected)
    } else {
        None
    }
}

impl Perk {
    /// The perk named by an already lowercased text, white space ignored.
    pub fn from_lowercase(t: &str) -> (r: Result<Perk, ScrapeError>)
        ensures
            match perk_named(squeezed(t@)) {
                Some(p) => r == Ok::<Perk, ScrapeError>(p),
                None => (r matches Err(ScrapeError::UnknownVariant(u)) && u@ == t@),
            },
    {
        let v = squeeze(t);
        if spells(&v, "berserker") {
            Ok(Perk::Berserker)
        } else if spells(&v, "commando") {
            Ok(Perk::Commando)
        } else if spells(&v, "support") {
            Ok(Perk::Support)
        } else if spells(&v, "fieldmedic") {
            Ok(Perk::FieldMedic)
        } else if spells(&v, "demolitionist") {
            Ok(Perk::Demolitionist)
        } else if spells(&v, "firebug") {
            Ok(Perk::Firebug)
        } else if spells(&v, "gunslinger") {
            Ok(Perk::Gunslinger)
        } else if spells(&v, "sharpshooter") {
            Ok(Perk::Sharpshooter)
        } else if spells(&v, "survivalist") {
            Ok(Perk::Survivalist)
        } else if spells(&v, "swat") {
            Ok(Perk::Swat)
        } else if v.len() == 0 {
            Ok(Perk::NotSelected)
        } else {
            Err(ScrapeError::UnknownVariant(String::from_str(t)))
        }
    }

    /// The perk named by a roster cell: case and white space do not matter,
    /// and an empty cell means no perk chosen yet.
    pub fn map(input: &str) -> (r: Result<Perk, ScrapeError>)
        ensures
            match perk_named(squeezed(lower_of(input@))) {
                Some(p) => r == Ok::<Perk, ScrapeError>(p),
                None => (r matches Err(ScrapeError::UnknownVariant(u)) && u@ == lower_of(input@)),
            },
    {
        let lower = lowercase(input);
        Perk::from_lowercase(lower.as_str())
    }
}

/// The difficulty that a lowercased, white-space-free text names.
pub open spec fn difficulty_named(t: Seq<char>) -> Option<KfDifficulty> {
    if t == "normal"@ {
        Some(KfDifficulty::Normal)
    } else if t == "hard"@ {
        Some(KfDifficulty::Hard)
    } else if t == "suicidal"@ {
        Some(KfDifficulty::Suicidal)
    } else if t == "hellonearth"@ {
        Some(KfDifficulty::HellOnEarth)
    } else {
        None
    }
}

/// The display name of a difficulty.
pub open spec fn difficulty_label(d: KfDifficulty) -> Seq<char> {
    match d {
        KfDifficulty::Normal => "Normal"@,
        KfDifficulty::Hard => "Hard"@,
        KfDifficulty::Suicidal => "Suicidal"@,
        KfDifficulty::HellOnEarth => "Hell on Earth"@,
    }
}

impl KfDifficulty {
    /// The difficulty named by an already lowercased text, white space ignored.
    pub fn from_lowercase(t: &str) -> (r: Result<KfDifficulty, ScrapeError>)
        ensures
            match difficulty_named(squeezed(t@)) {
                Some(d) => r == Ok::<KfDifficulty, ScrapeError>(d),
                None => (r matches Err(ScrapeError::UnknownVariant(u)) && u@ == t@),
            },
    {
        let v = squeeze(t);
        if spells(&v, "normal") {
            Ok(KfDifficulty::Normal)
        } else if spells(&v, "hard") {
            Ok(KfDifficulty::Hard)
        } else if spells(&v, "suicidal") {
            Ok(KfDifficulty::Suicidal)
        } else if spells(&v, "hellonearth") {
            Ok(KfDifficulty::HellOnEarth)
        } else {
            Err(ScrapeError::UnknownVariant(String::from_str(t)))
        }
    }

    /// The difficulty named by a page cell; case and white space do not matter.
    pub fn map(input: &str) -> (r: Result<KfDifficulty, ScrapeError>)
        ensures
            match difficulty_named(squeezed(lower_of(input@))) {
                Some(d) => r == Ok::<KfDifficulty, ScrapeError>(d),
                None => (r matches Err(ScrapeError::UnknownVariant(u)) && u@ == lower_of(input@)),
            },
    {
        let lower = lowercase(input);
        KfDifficulty::from_lowercase(lower.as_str())
    }

    /// The display name of the difficulty.
    pub fn to_string(&self) -> (r: String)
        ensures
            r@ == difficulty_label(*self),
    {
        match self {
            KfDifficulty::Normal => String::from_str("Normal"),
            KfDifficulty::Hard => String::from_str("Hard"),
            KfDifficulty::Suicidal => String::from_str("Suicidal"),
            KfDifficulty::HellOnEarth => String::from_str("Hell on Earth"),
        }
    }
}

/// The boss that the server's boss index names.
pub open spec fn boss_numbered(n: u8) -> Option<Boss> {
    if n == 0 {
        Some(Boss::HansVolter)
    } else if n == 1 {
        Some(Boss::Patriarch)
    } else if n == 2 {
        Some(Boss::KingFleshpound)
    } else if n == 3 {
        Some(Boss::Matriarch)
    } else if n == 4 {
        Some(Boss::Abomination)
    } else {
        None
    }
}

pub open spec fn boss_number(b: Boss) -> u8 {
    match b {
        Boss::HansVolter => 0,
        Boss::Patriarch => 1,
        Boss::KingFleshpound => 2,
        Boss::Matriarch => 3,
        Boss::Abomination => 4,
        Boss::Undefined => 5,
    }
}

/// The display name of a boss.
pub open spec fn boss_label(b: Boss) -> Seq<char> {
    match b {
        Boss::HansVolter => "Hans Volter"@,
        Boss::Patriarch => "Patriarch"@,
        Boss::KingFleshpound => "King Fleshpound"@,
        Boss::Matriarch => "Matriarch"@,
        Boss::Abomination => "Abomination"@,
        Boss::Undefined => "Undefined"@,
    }
}

impl Boss {
    /// The boss of a boss index; indices above 4 name none.
    pub fn map(input: &u8) -> (r: Result<Boss, ScrapeError>)
        ensures
            match boss_numbered(*input) {
                Some(b) => r == Ok::<Boss, ScrapeError>(b),
                None => r == Err::<Boss, ScrapeError>(ScrapeError::UnknownBoss(*input)),
            },
    {
        match *input {
            0 => Ok(Boss::HansVolter),
            1 => Ok(Boss::Patriarch),
            2 => Ok(Boss::KingFleshpound),
            3 => Ok(Boss::Matriarch),
            4 => Ok(Boss::Abomination),
            n => Err(ScrapeError::UnknownBoss(n)),
        }
    }

    /// The boss index of the boss.
    pub fn value(&self) -> (r: u8)
        ensures
            r == boss_number(*self),
    {
        match self {
            Boss::HansVolter => 0,
            Boss::Patriarch => 1,
            Boss::KingFleshpound => 2,
            Boss::Matriarch => 3,
            Boss::Abomination => 4,
            Boss::Undefined => 5,
        }
    }

    /// The display name of the boss.
    pub fn to_string(&self) -> (r: String)
        ensures
            r@ == boss_label(*self),
    {
        match self {
            Boss::HansVolter => String::from_str("Hans Volter"),
            Boss::Patriarch => String::from_str("Patriarch"),
            Boss::KingFleshpound => String::from_str("King Fleshpound"),
            Boss::Matriarch => String::from_str("Matriarch"),
            Boss::Abomination => String::from_str("Abomination"),
            Boss::Undefined => String::from_str("Undefined"),
        }
    }
}

/// A row of the live roster table, which is replaced wholesale on each poll.
#[derive(Debug)]
pub struct CurrentPlayer {
    pub name: String,
    pub perk: String,
    pub health: u32,
    pub dosh: u32,
    pub kills: u32,
    pub ping: u32,
}

impl CurrentPlayer {
    /// The live roster row of an in-game roster entry; the perk by its display name.
    pub fn from(player: PlayerInGame) -> (r: CurrentPlayer)
        ensures
            r.name == player.name,
            r.perk@ == perk_label(player.perk),
            r.health == player.health,
            r.dosh == player.dosh,
            r.kills == player.kills,
            r.ping == player.ping,
    {
        let perk = player.perk.to_string();
        CurrentPlayer {
            name: player.name,
            perk,
            health: player.health,
            dosh: player.dosh,
            kills: player.kills,
            ping: player.ping,
        }
    }
}

} // verus!
