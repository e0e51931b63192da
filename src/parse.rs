use vstd::prelude::*;
use vstd::string::StringExecFns;
use crate::models::{
    difficulty_named, error_message, perk_named, Boss, GameInfo, KfDifficulty, ScrapeError, Perk,
    PlayerInGame, PlayerInfo,
};
use crate::cookies::{trim, trimmed};
use crate::text::{find_back, find_last_text, first_line, line_end, compare_text, ipv4_value, split_once, split_once_at, lower_of, lowercase, parse_ipv4, parse_unsigned, squeezed, unsigned_value};

verus! {

/// Unsigned integer types that a table cell can be read into.
pub trait DecimalInt: Sized {
    /// The largest value of the type.
    spec fn spec_max() -> u64;

    /// The value `v` (at most `spec_max`) in the type.
    spec fn spec_from(v: u64) -> Self;

    fn max_value() -> (r: u64)
        ensures
            r == Self::spec_max(),
    ;

    fn from_u64(v: u64) -> (r: Self)
        requires
            v <= Self::spec_max(),
        ensures
            r == Self::spec_from(v),
    ;
}

impl DecimalInt for u8 {
    open spec fn spec_max() -> u64 {
        0xff
    }

    open spec fn spec_from(v: u64) -> u8 {
        v as u8
    }

    fn max_value() -> (r: u64) {
        0xff
    }

    fn from_u64(v: u64) -> (r: u8) {
        v as u8
    }
}

impl DecimalInt for u16 {
    open spec fn spec_max() -> u64 {
        0xffff
    }

    open spec fn spec_from(v: u64) -> u16 {
        v as u16
    }

    fn max_value() -> (r: u64) {
        0xffff
    }

    fn from_u64(v: u64) -> (r: u16) {
        v as u16
    }
}

impl DecimalInt for u32 {
    open spec fn spec_max() -> u64 {
        0xffff_ffff
    }

    open spec fn spec_from(v: u64) -> u32 {
        v as u32
    }

    fn max_value() -> (r: u64) {
        0xffff_ffff
    }

    fn from_u64(v: u64) -> (r: u32) {
        v as u32
    }
}

impl DecimalInt for u64 {
    open spec fn spec_max() -> u64 {
        0xffff_ffff_ffff_ffff
    }

    open spec fn spec_from(v: u64) -> u64 {
        v
    }

    fn max_value() -> (r: u64) {
        0xffff_ffff_ffff_ffff
    }

    fn from_u64(v: u64) -> (r: u64) {
        v
    }
}

/// The text of an optional cell.
pub open spec fn cell_text(c: Option<&str>) -> Option<Seq<char>> {
    match c {
        Some(t) => Some(t@),
        None => None,
    }
}

/// The text of cell `i` of a row, if the row has one.
pub open spec fn cell_at(cells: Seq<String>, i: int) -> Option<Seq<char>> {
    if 0 <= i < cells.len() {
        Some(cells[i]@)
    } else {
        None
    }
}

/// `r` is `x`, an error being told by its message.
pub open spec fn reads_as<T>(r: Result<T, ScrapeError>, x: Result<T, Seq<char>>) -> bool {
    match x {
        Ok(v) => r == Ok::<T, ScrapeError>(v),
        Err(m) => (r matches Err(e) && error_message(e) == m),
    }
}

/// Reading of a text cell: its text, or the message for a missing cell.
pub open spec fn text_reading(c: Option<Seq<char>>, missing: Seq<char>) -> Result<Seq<char>, Seq<char>> {
    match c {
        Some(t) => Ok(t),
        None => Err(missing),
    }
}

/// Reading of an unsigned integer cell no larger than `max`.
pub open spec fn int_reading(c: Option<Seq<char>>, missing: Seq<char>, max: u64) -> Result<u64, Seq<char>> {
    match c {
        None => Err(missing),
        Some(t) => match unsigned_value(t, max) {
            Some(v) => Ok(v),
            None => Err("Parse int error. Cannot parse "@ + t),
        },
    }
}

/// An integer cell whose absence or bad text counts as zero.
pub open spec fn int_or_zero(c: Option<Seq<char>>, max: u64) -> u64 {
    match int_reading(c, Seq::empty(), max) {
        Ok(v) => v,
        Err(_) => 0,
    }
}

/// Reading of a yes/no cell, case ignored.
pub open spec fn bool_reading(c: Option<Seq<char>>, missing: Seq<char>) -> Result<bool, Seq<char>> {
    match c {
        None => Err(missing),
        Some(t) => if lower_of(t) == "yes"@ {
            Ok(true)
        } else if lower_of(t) == "no"@ {
            Ok(false)
        } else {
            Err("Parse bool error. Cannot parse "@ + lower_of(t) + " into boolean"@)
        },
    }
}

/// Reading of an IPv4 address cell.
pub open spec fn ip_reading(c: Option<Seq<char>>, missing: Seq<char>) -> Result<u32, Seq<char>> {
    match c {
        None => Err(missing),
        Some(t) => match ipv4_value(t) {
            Some(a) => Ok(a),
            None => Err("Invalid IPv4 address "@ + t),
        },
    }
}

/// Reading of a perk cell.
pub open spec fn perk_reading(c: Option<Seq<char>>, missing: Seq<char>) -> Result<Perk, Seq<char>> {
    match c {
        None => Err(missing),
        Some(t) => match perk_named(squeezed(lower_of(t))) {
            Some(p) => Ok(p),
            None => Err("Unknown variant "@ + lower_of(t)),
        },
    }
}

/// Readers of single table cells.
pub struct ElementParse;

impl ElementParse {
    /// An unsigned integer of type `T`; `err_msg` is the error for a missing cell.
    pub fn integer<T: DecimalInt>(element: Option<&str>, err_msg: &str) -> (r: Result<T, ScrapeError>)
        ensures
            match int_reading(cell_text(element), err_msg@, T::spec_max()) {
                Ok(v) => r == Ok::<T, ScrapeError>(T::spec_from(v)),
                Err(m) => (r matches Err(e) && error_message(e) == m),
            },
    {
        match element {
            None => Err(ScrapeError::Missing(String::from_str(err_msg))),
            Some(t) => match parse_unsigned(t, T::max_value()) {
                Some(v) => Ok(T::from_u64(v)),
                None => Err(ScrapeError::Int(String::from_str(t))),
            },
        }
    }

    /// `yes` or `no`, case ignored; `err_msg` is the error for a missing cell.
    pub fn bool(element: Option<&str>, err_msg: &str) -> (r: Result<bool, ScrapeError>)
        ensures
            reads_as(r, bool_reading(cell_text(element), err_msg@)),
    {
        match element {
            None => Err(ScrapeError::Missing(String::from_str(err_msg))),
            Some(t) => {
                let lower = lowercase(t);
                if compare_text(lower.as_str(), "yes") == 0 {
                    Ok(true)
                } else if compare_text(lower.as_str(), "no") == 0 {
                    Ok(false)
                } else {
                    Err(ScrapeError::Bool(lower))
                }
            },
        }
    }

    /// The text of the cell; `err_msg` is the error for a missing cell.
    pub fn string(element: Option<&str>, err_msg: &str) -> (r: Result<String, ScrapeError>)
        ensures
            match element {
                Some(t) => (r matches Ok(s) && s@ == t@),
                None => (r matches Err(e) && error_message(e) == err_msg@),
            },
    {
        match element {
            None => Err(ScrapeError::Missing(String::from_str(err_msg))),
            Some(t) => Ok(String::from_str(t)),
        }
    }

    /// A dotted-quad IPv4 address as a big-endian number; `err_msg` is the
    /// error for a missing cell.
    pub fn ip_addr(element: Option<&str>, err_msg: &str) -> (r: Result<u32, ScrapeError>)
        ensures
            reads_as(r, ip_reading(cell_text(element), err_msg@)),
    {
        match element {
            None => Err(ScrapeError::Missing(String::from_str(err_msg))),
            Some(t) => match parse_ipv4(t) {
                Some(a) => Ok(a),
                None => Err(ScrapeError::Address(String::from_str(t))),
            },
        }
    }
}

/// `r` holds a value whose view is that of `x`, an error being told by its message.
pub open spec fn view_reads_as<T: View>(r: Result<T, ScrapeError>, x: Result<T::V, Seq<char>>) -> bool {
    match x {
        Ok(v) => (r matches Ok(p) && p@ == v),
        Err(m) => (r matches Err(e) && error_message(e) == m),
    }
}

/// What the seven data cells of an in-game roster row read as: name, perk,
/// dosh, health, kills, ping, admin flag. Unreadable numbers count as zero.
pub open spec fn in_game_reading(cells: Seq<String>) -> Result<
    (Seq<char>, Perk, u32, u32, u32, u32, bool),
    Seq<char>,
> {
    match text_reading(cell_at(cells, 0), "Name tr not found"@) {
        Err(m) => Err(m),
        Ok(name) => match perk_reading(cell_at(cells, 1), "Perk tr not found"@) {
            Err(m) => Err(m),
            Ok(perk) => match bool_reading(cell_at(cells, 6), "Admin td not found"@) {
                Err(m) => Err(m),
                Ok(admin) => Ok(
                    (
                        name,
                        perk,
                        int_or_zero(cell_at(cells, 2), 0xffff_ffff) as u32,
                        int_or_zero(cell_at(cells, 3), 0xffff_ffff) as u32,
                        int_or_zero(cell_at(cells, 4), 0xffff_ffff) as u32,
                        int_or_zero(cell_at(cells, 5), 0xffff_ffff) as u32,
                        admin,
                    ),
                ),
            },
        },
    }
}

/// What the data cells of an identity roster row read as: name, ping,
/// address, unique net id, steam id, admin flag (cell 5 is not used). An
/// unreadable ping counts as zero.
pub open spec fn info_reading(cells: Seq<String>) -> Result<
    (Seq<char>, u32, u32, Seq<char>, u64, bool),
    Seq<char>,
> {
    match text_reading(cell_at(cells, 0), "Name td not found"@) {
        Err(m) => Err(m),
        Ok(name) => match ip_reading(cell_at(cells, 2), "IP td not found"@) {
            Err(m) => Err(m),
            Ok(ip) => match text_reading(cell_at(cells, 3), "Unique Net ID td not found"@) {
                Err(m) => Err(m),
                Ok(net_id) => match int_reading(
                    cell_at(cells, 4),
                    "Steam ID td not found"@,
                    0xffff_ffff_ffff_ffff,
                ) {
                    Err(m) => Err(m),
                    Ok(steam_id) => match bool_reading(cell_at(cells, 6), "Admin td not found"@) {
                        Err(m) => Err(m),
                        Ok(admin) => Ok(
                            (
                                name,
                                int_or_zero(cell_at(cells, 1), 0xffff_ffff) as u32,
                                ip,
                                net_id,
                                steam_id,
                                admin,
                            ),
                        ),
                    },
                },
            },
        },
    }
}

fn cell(cells: &Vec<String>, i: usize) -> (r: Option<&str>)
    ensures
        cell_text(r) == cell_at(cells@, i as int),
{
    if i < cells.len() {
        Some(cells[i].as_str())
    } else {
        None
    }
}

fn int_or_zero_u32(element: Option<&str>) -> (r: u32)
    ensures
        r == int_or_zero(cell_text(element), 0xffff_ffff) as u32,
{
    match element {
        None => 0,
        Some(t) => match parse_unsigned(t, 0xffff_ffff) {
            Some(v) => v as u32,
            None => 0,
        },
    }
}

/// A row of one of the two player tables, told apart by its number of data cells.
#[derive(Debug)]
pub enum PlayerData {
    PlayerInfo(PlayerInfo),
    PlayerInGame(PlayerInGame),
}

impl PlayerData {
    pub fn into_p_info(self) -> (r: Option<PlayerInfo>)
        ensures
            match self {
                PlayerData::PlayerInfo(p) => r == Some(p),
                PlayerData::PlayerInGame(_) => r is None,
            },
    {
        match self {
            PlayerData::PlayerInfo(p) => Some(p),
            PlayerData::PlayerInGame(_) => None,
        }
    }

    pub fn into_p_in_game(self) -> (r: Option<PlayerInGame>)
        ensures
            match self {
                PlayerData::PlayerInGame(p) => r == Some(p),
                PlayerData::PlayerInfo(_) => r is None,
            },
    {
        match self {
            PlayerData::PlayerInGame(p) => Some(p),
            PlayerData::PlayerInfo(_) => None,
        }
    }
}

impl ElementParse {
    /// Reads the data cells of an in-game roster row.
    pub fn player_in_game(cells: &Vec<String>) -> (r: Result<PlayerInGame, ScrapeError>)
        ensures
            view_reads_as(r, in_game_reading(cells@)),
    {
        let name = match ElementParse::string(cell(cells, 0), "Name tr not found") {
            Ok(n) => n,
            Err(e) => {
                return Err(e);
            },
        };
        let perk_text = match ElementParse::string(cell(cells, 1), "Perk tr not found") {
            Ok(p) => p,
            Err(e) => {
                return Err(e);
            },
        };
        let perk = match Perk::map(perk_text.as_str()) {
            Ok(p) => p,
            Err(e) => {
                return Err(e);
            },
        };
        let dosh = int_or_zero_u32(cell(cells, 2));
        let health = int_or_zero_u32(cell(cells, 3));
        let kills = int_or_zero_u32(cell(cells, 4));
        let ping = int_or_zero_u32(cell(cells, 5));
        let admin = match ElementParse::bool(cell(cells, 6), "Admin td not found") {
            Ok(a) => a,
            Err(e) => {
                return Err(e);
            },
        };
        Ok(PlayerInGame { name, perk, dosh, health, kills, ping, admin })
    }

    /// Reads the data cells of an identity roster row.
    pub fn player_info(cells: &Vec<String>) -> (r: Result<PlayerInfo, ScrapeError>)
        ensures
            view_reads_as(r, info_reading(cells@)),
    {
        let name = match ElementParse::string(cell(cells, 0), "Name td not found") {
            Ok(n) => n,
            Err(e) => {
                return Err(e);
            },
        };
        let ping = int_or_zero_u32(cell(cells, 1));
        let ip = match ElementParse::ip_addr(cell(cells, 2), "IP td not found") {
            Ok(a) => a,
            Err(e) => {
                return Err(e);
            },
        };
        let unique_net_id = match ElementParse::string(cell(cells, 3), "Unique Net ID td not found") {
            Ok(n) => n,
            Err(e) => {
                return Err(e);
            },
        };
        let steam_id = match ElementParse::integer::<u64>(cell(cells, 4), "Steam ID td not found") {
            Ok(v) => v,
            Err(e) => {
                return Err(e);
            },
        };
        let admin = match ElementParse::bool(cell(cells, 6), "Admin td not found") {
            Ok(a) => a,
            Err(e) => {
                return Err(e);
            },
        };
        Ok(PlayerInfo { name, ping, ip, unique_net_id, steam_id, admin })
    }
}

impl DocumentExtractor {
    /// Reads a row of data cells: seven make an in-game roster row, eight an
    /// identity roster row; any other number is an error.
    pub fn parse_tr_player(cells: &Vec<String>) -> (r: Result<PlayerData, ScrapeError>)
        ensures
            cells@.len() == 7 ==> match in_game_reading(cells@) {
                Ok(v) => (r matches Ok(PlayerData::PlayerInGame(p)) && p@ == v),
                Err(m) => (r matches Err(e) && error_message(e) == m),
            },
            cells@.len() == 8 ==> match info_reading(cells@) {
                Ok(v) => (r matches Ok(PlayerData::PlayerInfo(p)) && p@ == v),
                Err(m) => (r matches Err(e) && error_message(e) == m),
            },
            cells@.len() != 7 && cells@.len() != 8 ==> r == Err::<PlayerData, ScrapeError>(
                ScrapeError::RowWidth(cells@.len() as usize),
            ),
    {
        let n = cells.len();
        if n == 7 {
            match ElementParse::player_in_game(cells) {
                Ok(p) => Ok(PlayerData::PlayerInGame(p)),
                Err(e) => Err(e),
            }
        } else if n == 8 {
            match ElementParse::player_info(cells) {
                Ok(p) => Ok(PlayerData::PlayerInfo(p)),
                Err(e) => Err(e),
            }
        } else {
            Err(ScrapeError::RowWidth(n))
        }
    }
}

/// One `tr` of the players table: the text of each of its `td` cells, and
/// whether it holds an `em` element (the page's "no players" notice).
#[derive(Debug)]
pub struct PlayerRow {
    pub cells: Vec<String>,
    pub has_em: bool,
}

/// The players table of a page, as far as it was found.
#[derive(Debug)]
pub enum PlayerTable {
    /// No `table` with id `players`.
    Missing,
    /// The table has no `tbody`.
    NoBody,
    /// The rows of its `tbody`.
    Rows(Vec<PlayerRow>),
}

/// What the logic reads from one admin page: the login form's token input
/// (absent, or present with or without a `value`), the players table, and the
/// `dd` texts of the `currentGame` and `currentRules` lists.
#[derive(Debug)]
pub struct DocumentExtractor {
    pub token_input: Option<Option<String>>,
    pub player_table: PlayerTable,
    pub current_game: Option<Vec<String>>,
    pub current_rules: Option<Vec<String>>,
}

/// A row without its first cell (the row marker column).
pub open spec fn data_cells(cells: Seq<String>) -> Seq<String> {
    if cells.len() == 0 {
        cells
    } else {
        cells.drop_first()
    }
}

pub open spec fn any_em(rows: Seq<PlayerRow>) -> bool {
    exists|k: int| 0 <= k < rows.len() && (#[trigger] rows[k]).has_em
}

/// The data rows of the players table: none when a row holds the "no
/// players" notice; an error message when the table or its body is missing.
pub open spec fn table_data(t: PlayerTable) -> Result<Seq<Seq<String>>, Seq<char>> {
    match t {
        PlayerTable::Missing => Err("table[id=\"players\"] not found"@),
        PlayerTable::NoBody => Err("tbody not found"@),
        PlayerTable::Rows(rows) => if any_em(rows@) {
            Ok(Seq::empty())
        } else {
            Ok(rows@.map_values(|r: PlayerRow| data_cells(r.cells@)))
        },
    }
}

/// Views of the in-game roster rows that read without error, in table order.
pub open spec fn in_game_rows(rows: Seq<Seq<String>>) -> Seq<(Seq<char>, Perk, u32, u32, u32, u32, bool)>
    decreases rows.len(),
{
    if rows.len() == 0 {
        Seq::empty()
    } else {
        let prev = in_game_rows(rows.drop_last());
        let c = rows.last();
        if c.len() == 7 && in_game_reading(c) is Ok {
            prev.push(in_game_reading(c)->Ok_0)
        } else {
            prev
        }
    }
}

/// Views of the identity roster rows that read without error, in table order.
pub open spec fn info_rows(rows: Seq<Seq<String>>) -> Seq<(Seq<char>, u32, u32, Seq<char>, u64, bool)>
    decreases rows.len(),
{
    if rows.len() == 0 {
        Seq::empty()
    } else {
        let prev = info_rows(rows.drop_last());
        let c = rows.last();
        if c.len() == 8 && info_reading(c) is Ok {
            prev.push(info_reading(c)->Ok_0)
        } else {
            prev
        }
    }
}

fn clone_strings(v: &Vec<String>, from: usize) -> (r: Vec<String>)
    requires
        from <= v@.len(),
    ensures
        r@ == v@.subrange(from as int, v@.len() as int),
{
    let mut r: Vec<String> = Vec::new();
    let mut i: usize = from;
    while i < v.len()
        invariant
            from <= i <= v@.len(),
            r@ == v@.subrange(from as int, i as int),
        decreases v@.len() - i,
    {
        r.push(v[i].clone());
        proof {
            assert(r@ =~= v@.subrange(from as int, i + 1));
        }
        i = i + 1;
    }
    r
}

impl DocumentExtractor {
    /// The value of the login form's token input.
    pub fn parse_form_token(&self) -> (r: Result<String, ScrapeError>)
        ensures
            match self.token_input {
                Some(Some(t)) => r == Ok::<String, ScrapeError>(t),
                Some(None) => (r matches Err(e) && error_message(e) == "Token value field not found"@),
                None => (r matches Err(e) && error_message(e) == "Token not found"@),
            },
    {
        match &self.token_input {
            Some(Some(t)) => Ok(t.clone()),
            Some(None) => Err(ScrapeError::Missing(String::from_str("Token value field not found"))),
            None => Err(ScrapeError::Missing(String::from_str("Token not found"))),
        }
    }

    /// The data cells of each row of the players table.
    pub fn parse_player_table(&self) -> (r: Result<Vec<Vec<String>>, ScrapeError>)
        ensures
            match table_data(self.player_table) {
                Ok(rows) => (r matches Ok(v) && v@.map_values(|c: Vec<String>| c@) == rows),
                Err(m) => (r matches Err(e) && error_message(e) == m),
            },
    {
        match &self.player_table {
            PlayerTable::Missing => Err(
                ScrapeError::Missing(String::from_str("table[id=\"players\"] not found")),
            ),
            PlayerTable::NoBody => Err(ScrapeError::Missing(String::from_str("tbody not found"))),
            PlayerTable::Rows(rows) => {
                let mut k: usize = 0;
                while k < rows.len()
                    invariant
                        self.player_table == PlayerTable::Rows(*rows),
                        k <= rows@.len(),
                        forall|m: int| 0 <= m < k ==> !(#[trigger] rows@[m]).has_em,
                    decreases rows@.len() - k,
                {
                    if rows[k].has_em {
                        let empty: Vec<Vec<String>> = Vec::new();
                        proof {
                            assert(rows@[k as int].has_em);
                            assert(any_em(rows@));
                            assert(empty@.map_values(|c: Vec<String>| c@) =~= Seq::<Seq<String>>::empty());
                        }
                        return Ok(empty);
                    }
                    k = k + 1;
                }
                let mut out: Vec<Vec<String>> = Vec::new();
                let mut i: usize = 0;
                while i < rows.len()
                    invariant
                        self.player_table == PlayerTable::Rows(*rows),
                        !any_em(rows@),
                        i <= rows@.len(),
                        out@.len() == i,
                        forall|m: int|
                            0 <= m < i ==> (#[trigger] out@[m])@ == data_cells(rows@[m].cells@),
                    decreases rows@.len() - i,
                {
                    let row = &rows[i];
                    let from: usize = if row.cells.len() == 0 {
                        0
                    } else {
                        1
                    };
                    let d = clone_strings(&row.cells, from);
                    proof {
                        if row.cells@.len() == 0 {
                            assert(d@ =~= row.cells@);
                        } else {
                            assert(d@ =~= row.cells@.drop_first());
                        }
                    }
                    out.push(d);
                    i = i + 1;
                }
                proof {
                    assert(out@.map_values(|c: Vec<String>| c@) =~= rows@.map_values(
                        |r: PlayerRow| data_cells(r.cells@),
                    ));
                }
                Ok(out)
            },
        }
    }

    /// The in-game roster: its rows that read without error; none when the
    /// table cannot be read.
    pub fn parse_in_game_player_info(&self) -> (r: Vec<PlayerInGame>)
        ensures
            match table_data(self.player_table) {
                Ok(rows) => r@.map_values(|p: PlayerInGame| p@) == in_game_rows(rows),
                Err(_) => r@.len() == 0,
            },
    {
        let rows = match self.parse_player_table() {
            Ok(rows) => rows,
            Err(_) => {
                return Vec::new();
            },
        };
        let ghost texts = rows@.map_values(|c: Vec<String>| c@);
        let mut out: Vec<PlayerInGame> = Vec::new();
        let mut i: usize = 0;
        while i < rows.len()
            invariant
                i <= rows@.len(),
                texts == rows@.map_values(|c: Vec<String>| c@),
                out@.map_values(|p: PlayerInGame| p@) == in_game_rows(texts.subrange(0, i as int)),
            decreases rows@.len() - i,
        {
            proof {
                assert(texts.subrange(0, i + 1).drop_last() =~= texts.subrange(0, i as int));
                assert(texts.subrange(0, i + 1).last() == rows@[i as int]@);
            }
            let parsed = DocumentExtractor::parse_tr_player(&rows[i]);
            match parsed {
                Ok(PlayerData::PlayerInGame(p)) => {
                    out.push(p);
                    proof {
                        assert(out@.map_values(|p: PlayerInGame| p@) =~= in_game_rows(
                            texts.subrange(0, i + 1),
                        ));
                    }
                },
                _ => {
                    proof {
                        assert(in_game_rows(texts.subrange(0, i + 1)) == in_game_rows(
                            texts.subrange(0, i as int),
                        ));
                    }
                },
            }
            i = i + 1;
        }
        proof {
            assert(texts.subrange(0, rows@.len() as int) =~= texts);
        }
        out
    }

    /// The identity roster: its rows that read without error; none when the
    /// table cannot be read.
    pub fn parse_steam_player_info(&self) -> (r: Vec<PlayerInfo>)
        ensures
            match table_data(self.player_table) {
                Ok(rows) => r@.map_values(|p: PlayerInfo| p@) == info_rows(rows),
                Err(_) => r@.len() == 0,
            },
    {
        let rows = match self.parse_player_table() {
            Ok(rows) => rows,
            Err(_) => {
                return Vec::new();
            },
        };
        let ghost texts = rows@.map_values(|c: Vec<String>| c@);
        let mut out: Vec<PlayerInfo> = Vec::new();
        let mut i: usize = 0;
        while i < rows.len()
            invariant
                i <= rows@.len(),
                texts == rows@.map_values(|c: Vec<String>| c@),
                out@.map_values(|p: PlayerInfo| p@) == info_rows(texts.subrange(0, i as int)),
            decreases rows@.len() - i,
        {
            proof {
                assert(texts.subrange(0, i + 1).drop_last() =~= texts.subrange(0, i as int));
                assert(texts.subrange(0, i + 1).last() == rows@[i as int]@);
            }
            let parsed = DocumentExtractor::parse_tr_player(&rows[i]);
            match parsed {
                Ok(PlayerData::PlayerInfo(p)) => {
                    out.push(p);
                    proof {
                        assert(out@.map_values(|p: PlayerInfo| p@) =~= info_rows(
                            texts.subrange(0, i + 1),
                        ));
                    }
                },
                _ => {
                    proof {
                        assert(info_rows(texts.subrange(0, i + 1)) == info_rows(
                            texts.subrange(0, i as int),
                        ));
                    }
                },
            }
            i = i + 1;
        }
        proof {
            assert(texts.subrange(0, rows@.len() as int) =~= texts);
        }
        out
    }
}

/// A "current/maximum" counter pair such as `3/10`, each part a `u16`.
pub open spec fn counter_reading(t: Seq<char>, missing_slash: Seq<char>) -> Result<(u16, u16), Seq<char>> {
    match split_once_at(t, '/') {
        None => Err(missing_slash),
        Some((a, b)) => match unsigned_value(a, 0xffff) {
            None => Err("Parse int error. Cannot parse "@ + a),
            Some(x) => match unsigned_value(b, 0xffff) {
                None => Err("Parse int error. Cannot parse "@ + b),
                Some(y) => Ok((x as u16, y as u16)),
            },
        },
    }
}

/// What the `currentGame` and `currentRules` lists read as. The game type is
/// the third entry of the first list and the map name the fourth; the second
/// list holds the wave counter, the difficulty and the player counter. The
/// boss is not on this page and is left undefined.
pub open spec fn map_info_reading(game: Option<Seq<String>>, rules: Option<Seq<String>>) -> Result<
    GameInfo,
    Seq<char>,
> {
    match game {
        None => Err("dl[id=\"currentGame\"] not found"@),
        Some(g) => match rules {
            None => Err("dl[id=\"currentRules\"] not found"@),
            Some(r) => if g.len() < 4 || r.len() < 3 {
                Err("Current game or rules not found"@)
            } else {
                match difficulty_named(squeezed(lower_of(r[1]@))) {
                    None => Err("Unknown variant "@ + lower_of(r[1]@)),
                    Some(difficulty) => match counter_reading(
                        r[0]@,
                        "Wave does not contain char '/'"@,
                    ) {
                        Err(m) => Err(m),
                        Ok(wave) => match counter_reading(
                            r[2]@,
                            "Players does not contain char '/'"@,
                        ) {
                            Err(m) => Err(m),
                            Ok(players) => Ok(
                                GameInfo {
                                    max_waves: wave.1,
                                    current_wave: wave.0,
                                    max_players: players.1,
                                    current_players: players.0,
                                    map_name: g[3],
                                    difficulty,
                                    game_type: g[2],
                                    boss: Boss::Undefined,
                                },
                            ),
                        },
                    },
                }
            },
        },
    }
}

fn read_counter(t: &str, missing_slash: &str) -> (r: Result<(u16, u16), ScrapeError>)
    ensures
        reads_as(r, counter_reading(t@, missing_slash@)),
{
    match split_once(t, '/') {
        None => Err(ScrapeError::Malformed(String::from_str(missing_slash))),
        Some((a, b)) => match parse_unsigned(a, 0xffff) {
            None => Err(ScrapeError::Int(String::from_str(a))),
            Some(x) => match parse_unsigned(b, 0xffff) {
                None => Err(ScrapeError::Int(String::from_str(b))),
                Some(y) => Ok((x as u16, y as u16)),
            },
        },
    }
}

impl DocumentExtractor {
    /// Map name, game type, difficulty and the wave and player counters of the
    /// match being played (boss left undefined).
    pub fn parse_current_map_info(&self) -> (r: Result<GameInfo, ScrapeError>)
        ensures
            reads_as(
                r,
                map_info_reading(
                    match self.current_game {
                        Some(g) => Some(g@),
                        None => None,
                    },
                    match self.current_rules {
                        Some(v) => Some(v@),
                        None => None,
                    },
                ),
            ),
    {
        let game = match &self.current_game {
            Some(g) => g,
            None => {
                return Err(
                    ScrapeError::Missing(String::from_str("dl[id=\"currentGame\"] not found")),
                );
            },
        };
        let rules = match &self.current_rules {
            Some(r) => r,
            None => {
                return Err(
                    ScrapeError::Missing(String::from_str("dl[id=\"currentRules\"] not found")),
                );
            },
        };
        if game.len() < 4 || rules.len() < 3 {
            return Err(ScrapeError::Malformed(String::from_str("Current game or rules not found")));
        }
        let difficulty = match KfDifficulty::map(rules[1].as_str()) {
            Ok(d) => d,
            Err(e) => {
                return Err(e);
            },
        };
        let wave = match read_counter(rules[0].as_str(), "Wave does not contain char '/'") {
            Ok(w) => w,
            Err(e) => {
                return Err(e);
            },
        };
        let players = match read_counter(rules[2].as_str(), "Players does not contain char '/'") {
            Ok(p) => p,
            Err(e) => {
                return Err(e);
            },
        };
        Ok(
            GameInfo {
                max_waves: wave.1,
                current_wave: wave.0,
                max_players: players.1,
                current_players: players.0,
                map_name: game[3].clone(),
                difficulty,
                game_type: game[2].clone(),
                boss: Boss::Undefined,
            },
        )
    }
}

/// The boss index that the console prints for `getall ... BossIndex`: the
/// text after the first `=`, trimmed, as a number up to 255.
pub open spec fn boss_index_reading(output: Seq<char>) -> Result<u8, Seq<char>> {
    match split_once_at(output, '=') {
        None => Err("Boss index not found"@),
        Some((_, v)) => match unsigned_value(trimmed(v), 0xff) {
            Some(n) => Ok(n as u8),
            None => Err("Parse int error. Cannot parse "@ + trimmed(v)),
        },
    }
}

/// Reads the boss index from the console's answer to the boss query.
pub fn parse_boss_index(output: &str) -> (r: Result<u8, ScrapeError>)
    ensures
        reads_as(r, boss_index_reading(output@)),
{
    match split_once(output, '=') {
        None => Err(ScrapeError::Missing(String::from_str("Boss index not found"))),
        Some((_, v)) => {
            let t = trim(v);
            match parse_unsigned(t, 0xff) {
                Some(n) => Ok(n as u8),
                None => Err(ScrapeError::Int(String::from_str(t))),
            }
        },
    }
}

/// What the console page answering the boss query reads as: the line that
/// starts at the last `BossIndex` (the answer follows the echoed command),
/// up to a newline or `<`, read as by `boss_index_reading`.
pub open spec fn boss_page_reading(page: Seq<char>) -> Result<u8, Seq<char>> {
    let i = find_back(page, "BossIndex"@, page.len() - "BossIndex"@.len());
    if i < 0 {
        Err("Boss index not found"@)
    } else {
        let rest = page.subrange(i, page.len() as int);
        boss_index_reading(rest.subrange(0, line_end(rest)))
    }
}

/// Reads the boss index from the whole console page of the boss query.
pub fn parse_boss_page(page: &str) -> (r: Result<u8, ScrapeError>)
    ensures
        reads_as(r, boss_page_reading(page@)),
{
    match find_last_text(page, "BossIndex") {
        None => Err(ScrapeError::Missing(String::from_str("Boss index not found"))),
        Some(i) => {
            let n = page.unicode_len();
            let rest = page.substring_char(i, n);
            parse_boss_index(first_line(rest))
        },
    }
}

} // verus!
