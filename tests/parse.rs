use kf2_logger::cookies::{get_session_id, parse_cookies, HeaderExtractor};
use kf2_logger::models::{Boss, KfDifficulty, Perk};
use kf2_logger::parse::{parse_boss_index, parse_boss_page, DocumentExtractor, ElementParse, PlayerRow, PlayerTable};
use reqwest::header::{HeaderMap, HeaderValue};

fn strings(cells: &[&str]) -> Vec<String> {
    cells.iter().map(|c| c.to_string()).collect()
}

fn row(cells: &[&str]) -> PlayerRow {
    PlayerRow { cells: strings(cells), has_em: false }
}

fn page(token_input: Option<Option<String>>, player_table: PlayerTable) -> DocumentExtractor {
    DocumentExtractor { token_input, player_table, current_game: None, current_rules: None }
}

fn in_game_rows() -> Vec<PlayerRow> {
    vec![
        row(&["\u{a0}", "koira", "Demolitionist", "460", "83", "86", "36", "No"]),
        row(&["\u{a0}", "DeepBDarkBFantasy", "Field Medic", "362", "125", "41", "84", "No"]),
        row(&["\u{a0}", "WhiteHex", "Berserker", "936", "200", "42", "52", "No"]),
        row(&["\u{a0}", "` CRÆZY", "Demolitionist", "0", "", "0", "0", "No"]),
    ]
}

#[test]
fn test_parse_custom_err() {
    let e = None;
    let r = ElementParse::integer::<u32>(e, "This error is from space");
    assert!(r.is_err());
    let e = r.unwrap_err().to_string();
    assert_eq!(e, "This error is from space");
}

#[test]
fn test_parse_int_u32() {
    let max = u32::MAX.to_string();
    let r = ElementParse::integer::<u32>(Some(max.as_str()), "");
    assert_eq!(r.unwrap(), 4294967295);
}

#[test]
fn test_parse_int_u32_zero() {
    let r = ElementParse::integer::<u32>(Some("0"), "");
    assert_eq!(r.unwrap(), 0);
}

#[test]
fn test_parse_int_u32_error() {
    let r = ElementParse::integer::<u32>(Some("123123Kissa"), "");
    assert!(r.is_err());
    let e = r.unwrap_err();
    assert!(e.to_string().contains("Parse int error. Cannot parse 123123Kissa"));
}

#[test]
fn test_parse_int_u16() {
    let max = u16::MAX.to_string();
    let r = ElementParse::integer::<u16>(Some(max.as_str()), "");
    assert_eq!(r.unwrap(), 65535);
}

#[test]
fn test_parse_int_u16_zero() {
    let r = ElementParse::integer::<u16>(Some("0"), "");
    assert_eq!(r.unwrap(), 0);
}

#[test]
fn test_parse_int_u16_error() {
    let r = ElementParse::integer::<u16>(Some("123123Kissa"), "");
    assert!(r.is_err());
    let e = r.unwrap_err().to_string();
    assert_eq!(e, "Parse int error. Cannot parse 123123Kissa");
}

#[test]
fn test_parse_bool_true() {
    let r = ElementParse::bool(Some("Yes"), "");
    assert_eq!(r.unwrap(), true);
}

#[test]
fn test_parse_bool_false() {
    let r = ElementParse::bool(Some("No"), "");
    assert_eq!(r.unwrap(), false);
}

#[test]
fn test_parse_bool_error() {
    let r = ElementParse::bool(Some("Kissa"), "");
    assert!(r.is_err());
    let e = r.unwrap_err().to_string();
    assert_eq!(e, "Parse bool error. Cannot parse kissa into boolean");
}

#[test]
fn test_parse_ip_addr() {
    let r = ElementParse::ip_addr(Some("127.0.0.1"), "");
    let ip = u32::from_be_bytes([127, 0, 0, 1]);
    assert_eq!(r.unwrap(), ip);
}

#[test]
fn test_parse_string() {
    let r = ElementParse::string(Some("Hello, world!"), "");
    assert_eq!(r.unwrap(), "Hello, world!");
}

#[test]
fn test_parse_player_in_game() {
    let cells = strings(&["Kissa", "Demolitionist", "460", "83", "86", "36", "No"]);
    let r = ElementParse::player_in_game(&cells).unwrap();
    assert_eq!(r.name, "Kissa");
    assert_eq!(r.perk.to_string(), "Demolitionist");
    assert_eq!(r.dosh, 460);
    assert_eq!(r.health, 83);
    assert_eq!(r.kills, 86);
    assert_eq!(r.ping, 36);
    assert_eq!(r.admin, false);
}

#[test]
fn test_parse_player_info() {
    let cells = strings(&["Gooby", "123", "127.0.0.1", "0x0110000", "76561198", "", "Yes", "Yes"]);
    let r = ElementParse::player_info(&cells).unwrap();
    assert_eq!(r.name, "Gooby");
    assert_eq!(r.ping, 123);
    assert_eq!(r.ip, u32::from_be_bytes([127, 0, 0, 1]));
    assert_eq!(r.unique_net_id, "0x0110000");
    assert_eq!(r.steam_id, 76561198);
    assert_eq!(r.admin, true);
}

#[test]
fn test_header_extractor() {
    let mut headers = HeaderMap::new();
    headers.append("Set-Cookie", HeaderValue::from_static("kissa=koira;hevonen=mammutti;"));
    let r = HeaderExtractor::new(headers);
    let ck1 = r.get_cookie("kissa").unwrap();
    let ck2 = r.get_cookie("hevonen").unwrap();
    assert_eq!(ck1, "koira");
    assert_eq!(ck2, "mammutti");
}










#[test]
fn player_table_notice_row_means_no_players() {
    let mut rows = in_game_rows();
    rows.push(PlayerRow { cells: strings(&["There are no players"]), has_em: true });
    let extractor = page(None, PlayerTable::Rows(rows));
    assert!(extractor.parse_player_table().unwrap().is_empty());
    assert!(extractor.parse_in_game_player_info().is_empty());
}

#[test]
fn player_table_missing_or_without_body() {
    let missing = page(None, PlayerTable::Missing);
    assert_eq!(
        missing.parse_player_table().unwrap_err().to_string(),
        "table[id=\"players\"] not found"
    );
    assert!(missing.parse_steam_player_info().is_empty());
    let no_body = page(None, PlayerTable::NoBody);
    assert_eq!(no_body.parse_player_table().unwrap_err().to_string(), "tbody not found");
}

#[test]
fn token_input_without_value() {
    let extractor = page(Some(None), PlayerTable::Missing);
    assert_eq!(extractor.parse_form_token().unwrap_err().to_string(), "Token value field not found");
    let extractor = page(None, PlayerTable::Missing);
    assert_eq!(extractor.parse_form_token().unwrap_err().to_string(), "Token not found");
}

#[test]
fn row_width_decides_the_roster() {
    let short = strings(&["a", "b"]);
    assert_eq!(
        DocumentExtractor::parse_tr_player(&short).unwrap_err().to_string(),
        "Wrong number of fields in player table 2"
    );
    let bad_perk = strings(&["Kissa", "Cook", "1", "2", "3", "4", "No"]);
    assert_eq!(
        DocumentExtractor::parse_tr_player(&bad_perk).unwrap_err().to_string(),
        "Unknown variant cook"
    );
    let bad_ip = strings(&["Gooby", "1", "127.0.0", "x", "5", "", "No", ""]);
    assert_eq!(
        DocumentExtractor::parse_tr_player(&bad_ip).unwrap_err().to_string(),
        "Invalid IPv4 address 127.0.0"
    );
}

#[test]
fn unreadable_in_game_numbers_count_as_zero() {
    let cells = strings(&["Kissa", "", "lots", "-5", "+7", "99999999999", "YES"]);
    let r = ElementParse::player_in_game(&cells).unwrap();
    assert_eq!(r.perk, Perk::NotSelected);
    assert_eq!(r.dosh, 0);
    assert_eq!(r.health, 0);
    assert_eq!(r.kills, 7);
    assert_eq!(r.ping, 0);
    assert_eq!(r.admin, true);
}

#[test]
fn integer_widths_and_signs() {
    assert!(ElementParse::integer::<u16>(Some("65536"), "").is_err());
    assert!(ElementParse::integer::<u8>(Some("256"), "").is_err());
    assert_eq!(ElementParse::integer::<u8>(Some("007"), "").unwrap(), 7);
    assert_eq!(ElementParse::integer::<u64>(Some("18446744073709551615"), "").unwrap(), u64::MAX);
    assert!(ElementParse::integer::<u64>(Some("18446744073709551616"), "").is_err());
    assert!(ElementParse::integer::<u32>(Some(""), "").is_err());
    assert!(ElementParse::integer::<u32>(Some("+"), "").is_err());
    assert!(ElementParse::integer::<u32>(Some("-1"), "").is_err());
    assert!(ElementParse::integer::<u32>(Some(" 1"), "").is_err());
}

#[test]
fn ipv4_addresses() {
    assert_eq!(ElementParse::ip_addr(Some("192.168.1.100"), "").unwrap(), u32::from_be_bytes([192, 168, 1, 100]));
    assert_eq!(ElementParse::ip_addr(Some("255.255.255.255"), "").unwrap(), u32::MAX);
    assert_eq!(ElementParse::ip_addr(Some("0.0.0.0"), "").unwrap(), 0);
    for bad in ["01.2.3.4", "256.1.1.1", "1.2.3", "1.2.3.4.5", "1..2.3", "1.2.3.4.", "a.b.c.d", "", "1234.1.1.1"] {
        assert!(ElementParse::ip_addr(Some(bad), "").is_err(), "{}", bad);
    }
    assert_eq!(ElementParse::ip_addr(None, "IP td not found").unwrap_err().to_string(), "IP td not found");
}

#[test]
fn current_map_info() {
    let extractor = DocumentExtractor {
        token_input: None,
        player_table: PlayerTable::Missing,
        current_game: Some(strings(&["KF2 server", "Normal", "Survival", "KF-BioticsLab"])),
        current_rules: Some(strings(&["3/10", "Hell on Earth", "5/6"])),
    };
    let info = extractor.parse_current_map_info().unwrap();
    assert_eq!(info.map_name, "KF-BioticsLab");
    assert_eq!(info.game_type, "Survival");
    assert_eq!(info.current_wave, 3);
    assert_eq!(info.max_waves, 10);
    assert_eq!(info.current_players, 5);
    assert_eq!(info.max_players, 6);
    assert_eq!(info.difficulty, KfDifficulty::HellOnEarth);
    assert_eq!(info.boss, Boss::Undefined);
}

#[test]
fn current_map_info_errors() {
    let mut extractor = DocumentExtractor {
        token_input: None,
        player_table: PlayerTable::Missing,
        current_game: Some(strings(&["a", "b", "Survival", "KF-Outpost"])),
        current_rules: Some(strings(&["3-10", "Hard", "5/6"])),
    };
    assert_eq!(
        extractor.parse_current_map_info().unwrap_err().to_string(),
        "Wave does not contain char '/'"
    );
    extractor.current_rules = Some(strings(&["3/x", "Hard", "5/6"]));
    assert_eq!(extractor.parse_current_map_info().unwrap_err().to_string(), "Parse int error. Cannot parse x");
    extractor.current_rules = Some(strings(&["3/10", "Easy", "5/6"]));
    assert_eq!(extractor.parse_current_map_info().unwrap_err().to_string(), "Unknown variant easy");
    extractor.current_rules = Some(strings(&["3/10"]));
    assert_eq!(
        extractor.parse_current_map_info().unwrap_err().to_string(),
        "Current game or rules not found"
    );
    extractor.current_game = None;
    assert_eq!(
        extractor.parse_current_map_info().unwrap_err().to_string(),
        "dl[id=\"currentGame\"] not found"
    );
}

#[test]
fn cookie_header_fields() {
    let pairs = parse_cookies(" sessionid=abc ; authcred=x=y;flag; =v;");
    let expected = vec![
        (String::from("sessionid"), String::from("abc")),
        (String::from("authcred"), String::from("x=y")),
        (String::from(""), String::from("v")),
    ];
    assert_eq!(pairs, expected);
    assert!(parse_cookies("").is_empty());
}

#[test]
fn later_cookie_of_same_name_wins() {
    let h = HeaderExtractor::from_set_cookie(Some("a=1; b=2; a=3"));
    assert_eq!(h.get_cookie("a").unwrap(), "3");
    assert_eq!(h.get_cookie("b").unwrap(), "2");
    assert!(h.get_cookie("c").is_none());
    assert!(HeaderExtractor::from_set_cookie(None).get_cookie("a").is_none());
}

#[test]
fn session_id_from_headers() {
    let mut headers = HeaderMap::new();
    headers.append("Set-Cookie", HeaderValue::from_static("sessionid=\"f00\"; path=/"));
    assert_eq!(get_session_id(headers).unwrap(), "\"f00\"");
    let mut headers = HeaderMap::new();
    headers.append("Set-Cookie", HeaderValue::from_static("other=1"));
    assert!(get_session_id(headers).is_err());
    assert!(get_session_id(HeaderMap::new()).is_err());
}

#[test]
fn boss_index_from_console_output() {
    assert_eq!(parse_boss_index("KFGameReplicationInfo_0.BossIndex = 3\n").unwrap(), 3);
    let idx = parse_boss_index("BossIndex=2").unwrap();
    assert_eq!(Boss::map(&idx).unwrap(), Boss::KingFleshpound);
    assert_eq!(parse_boss_index("no answer").unwrap_err().to_string(), "Boss index not found");
    assert_eq!(parse_boss_index("BossIndex= 300").unwrap_err().to_string(), "Parse int error. Cannot parse 300");
}

fn get_form_token_document(token: &str) -> String {
    format!(
        r#"<!DOCTYPE html PUBLIC "-//W3C//DTD XHTML 1.1//EN" "http://www.w3.org/TR/xhtml11/DTD/xhtml11.dtd">
    <html xmlns="http://www.w3.org/1999/xhtml" xml:lang="en">
    <body class="">
    </div>
    <div id="gamesummary">
    </div>
    <div id="messages">
    </div>
    <div id="content">
    <form id="loginform" method="post" action="/ServerAdmin/" autocomplete="off">
    <fieldset>
    <legend>Login</legend>
    <div class="section">
    <input type="hidden" name="token" value="{token}" />
    <input type="hidden" id="password_hash" name="password_hash" value="" />
    <dl>
        <dt><label for="username">Username</label></dt>
        <dd><input type="text" id="username" name="username" value="" /></dd>
        <dt><label for="password">Password</label></dt>
        <dd><input type="password" id="password" name="password" value="" /></dd>
        <dt><label for="remember" title="Duration of inactivity before you need to log in again.">Remember</label></dt>
        <dd><select name="remember">
            <option value="0">Until next map load</option>
            <option value="-1" selected="selected">Browser session</option>
            <!-- Number of seconds -->
            <option value="1800">30 minutes</option>
            <option value="3600">1 hour</option>
            <option value="86400">1 day</option>
            <option value="604800">1 week</option>
            <option value="2678400">1 month</option>
        </select></dd>
        <dd><button type="submit">login</button></dd>
    </dl>
    </div>
    </fieldset>
    </form>
    </div>
    <div id="footer">
    Copyright 2014 Tripwire Interactive LLC
    &#8212;
    <a href="/ServerAdmin/about">About the Killing Floor 2 WebAdmin</a>
    </div>
    </body>
    </html>
    "#,
        token = token
    )
}

fn get_player_table_document(players: bool) -> String {
    format!(
        r#"<!DOCTYPE html PUBLIC "-//W3C//DTD XHTML 1.1//EN" "http://www.w3.org/TR/xhtml11/DTD/xhtml11.dtd">
        <html xmlns="http://www.w3.org/1999/xhtml" xml:lang="en">
        <body class="">
            <div id="gamesummary">
                <h2>Current Game</h2>
                <script type="text/javascript" src="/images/gamesummary.js?gzip"></script>
            </div>
            <div id="messages">
            </div>
            <div id="content">
                <fieldset id="notesField"
                    title="Here you can leave some notes. They will be stored on the server so other administrators can see and edit them.">
                    <legend>Notes</legend>
                </fieldset>
                <table width="100%" id="currentinfo">
                    <tr>
                        <td>
                            <h3>Players</h3>
                            <div class="section narrow">
                                <table id="players" class="grid" width="100%">
                                    <thead>
                                        <tr>
                                            <th>&#160;</th>
                                            <th><a href="/ServerAdmin/current/info?sortby=name&amp;reverse="
                                                    class="sortable ">Name</a></th>
                                            <th><a href="/ServerAdmin/current/info?sortby=perk&amp;reverse="
                                                    class="sortable ">Perk</th>
                                            <th><a href="/ServerAdmin/current/info?sortby=score&amp;reverse="
                                                    class="sortable sorted">Dosh</a>
                                            </th>
                                            <th>Health</th>
                                            <th><a href="/ServerAdmin/current/info?sortby=kills&amp;reverse="
                                                    class="sortable ">Kills</a></th>
                                            <th><a href="/ServerAdmin/current/info?sortby=ping&amp;reverse="
                                                    class="sortable ">Ping</a></th>
                                            <th>Admin</th>
                                        </tr>
                                    </thead>
                                    <tbody>
                                        {players}
                                    </tbody>
                                </table>
                            </div>
                        </td>
                    </tr>
                </table>
            </div>
        </body>
        </html>"#,
        players = if players {
            String::from(
                r#"
        <tr class="even">
            <td style="background: transparent; color: transparent;">&#160;</td>
            <td>koira</td>
            <td>Demolitionist</td>
            <td class="right">460</td>
            <td class="right">83</td>
            <td class="right">86</td>
            <td class="right" title="Packet loss: ">36</td>
            <td class="center">No</td>
        </tr>
        <tr class="odd">
            <td style="background: transparent; color: transparent;">&#160;</td>
            <td>DeepBDarkBFantasy</td>
            <td>Field Medic</td>
            <td class="right">362</td>
            <td class="right">125</td>
            <td class="right">41</td>
            <td class="right" title="Packet loss: ">84</td>
            <td class="center">No</td>
        </tr>
        <tr class="even">
            <td style="background: transparent; color: transparent;">&#160;</td>
            <td>WhiteHex</td>
            <td>Berserker</td>
            <td class="right">936</td>
            <td class="right">200</td>
            <td class="right">42</td>
            <td class="right" title="Packet loss: ">52</td>
            <td class="center">No</td>
        </tr>
        <tr class="odd">
            <td style="background: transparent; color: transparent;">&#160;</td>
            <td>` CRÆZY</td>
            <td>Demolitionist</td>
            <td class="right">0</td>
            <td class="right"></td>
            <td class="right">0</td>
            <td class="right" title="Packet loss: ">0</td>
            <td class="center">No</td>
        </tr>"#,
            )
        } else {
            String::from("")
        }
    )
}

fn get_steam_player_table_document(players: bool) -> String {
    format!(
        r#"<!DOCTYPE html PUBLIC "-//W3C//DTD XHTML 1.1//EN" "http://www.w3.org/TR/xhtml11/DTD/xhtml11.dtd">
        <html xmlns="http://www.w3.org/1999/xhtml" xml:lang="en">
        <body class="">
            <div id="gamesummary">
                <h2>Current Game</h2>
                <script type="text/javascript" src="/images/gamesummary.js?gzip"></script>
            </div>
            <div id="messages">
            </div>
            <div id="content">
                <fieldset id="notesField"
                    title="Here you can leave some notes. They will be stored on the server so other administrators can see and edit them.">
                    <legend>Notes</legend>
                </fieldset>
                <table width="100%" id="currentinfo">
                    <tr>
                        <td>
                            <h3>Players</h3>
                            <div class="section narrow">
                                <table id="players" class="grid" width="100%">
                                    <thead>
                                        <tr>
                                            <th>&#160;</th>
                                            <th><a href="/ServerAdmin/current/info?sortby=name&amp;reverse="
                                                    class="sortable ">Name</a></th>
                                            <th><a href="/ServerAdmin/current/info?sortby=perk&amp;reverse="
                                                    class="sortable ">Perk</th>
                                            <th><a href="/ServerAdmin/current/info?sortby=score&amp;reverse="
                                                    class="sortable sorted">Dosh</a>
                                            </th>
                                            <th>Health</th>
                                            <th><a href="/ServerAdmin/current/info?sortby=kills&amp;reverse="
                                                    class="sortable ">Kills</a></th>
                                            <th><a href="/ServerAdmin/current/info?sortby=ping&amp;reverse="
                                                    class="sortable ">Ping</a></th>
                                            <th>Admin</th>
                                        </tr>
                                    </thead>
                                    <tbody>
                                        {players}
                                    </tbody>
                                </table>
                            </div>
                        </td>
                    </tr>
                </table>
            </div>
        </body>
        </html>"#,
        players = if players {
            String::from(
                r#"
        <tr class="even">
            <td style="background: transparent; color: transparent;">&#160;</td>
            <td>koira</td>
            <td>123</td>
            <td class="right">127.0.0.1</td>
            <td class="right">asdasd123</td>
            <td class="right">123123123</td>
            <td class="center"></td>
            <td class="center">No</td>
            <td class="center"></td>
        </tr>
        <tr class="odd">
            <td style="background: transparent; color: transparent;">&#160;</td>
            <td>Gooby</td>
            <td class="right">0</td>
            <td>192.168.1.100</td>
            <td>0x01100001049DE279</td>
            <td>76561198037721721</td>
            <td></td>
            <td class="center">Yes</td>
            <td class="center">Yes</td>
        </tr>
        <tr class="even">
            <td style="background: transparent; color: transparent;">&#160;</td>
            <td>WhiteHex</td>
            <td>123</td>
            <td class="right">127.0.0.1</td>
            <td class="right">asdasd123</td>
            <td class="right">123123123</td>
            <td class="center"></td>
            <td class="center">No</td>
            <td class="center"></td>
        </tr>
        <tr class="odd">
            <td style="background: transparent; color: transparent;">&#160;</td>
            <td>` CRÆZY</td>
            <td></td>
            <td class="right">127.0.0.1</td>
            <td class="right">asdasd123</td>
            <td class="right">123123123</td>
            <td class="center"></td>
            <td class="center">No</td>
            <td class="center"></td>
        </tr>"#,
            )
        } else {
            String::from("")
        }
    )
}

#[test]
fn test_parse_token() {
    let document = get_form_token_document("kissa123");
    let extractor = DocumentExtractor::new(&document);
    let token = extractor.parse_form_token().unwrap();
    assert_eq!(token, "kissa123");
}

#[test]
fn test_parse_token_empty() {
    let document = get_form_token_document("");
    let extractor = DocumentExtractor::new(&document);
    let token = extractor.parse_form_token().unwrap();
    assert_eq!(token, "");
}

#[test]
fn test_parse_token_no_token() {
    let document = get_player_table_document(true);
    let extractor = DocumentExtractor::new(&document);
    let token = extractor.parse_form_token();
    assert!(token.is_err());
}

#[test]
fn test_parse_player_table() {
    let document = get_player_table_document(true);
    let extractor = DocumentExtractor::new(&document);
    let players = extractor.parse_player_table().unwrap();
    assert!(!players.is_empty());
    assert!(players.len() == 4);
}

#[test]
fn test_parse_player_table_empty() {
    let document = get_player_table_document(false);
    let extractor = DocumentExtractor::new(&document);
    let players = extractor.parse_player_table().unwrap();
    assert!(players.is_empty());
}

#[test]
fn test_parse_in_game_player_info() {
    let document = get_player_table_document(true);
    let extractor = DocumentExtractor::new(&document);
    let players = extractor.parse_in_game_player_info();
    assert!(players.len() == 4);
    assert!(players[0].name == "koira");
    assert!(players[0].perk == Perk::Demolitionist);
    assert!(players[0].dosh == 460);
    assert!(players[0].health == 83);
    assert!(players[0].kills == 86);
    assert!(players[0].ping == 36);
    assert!(players[0].admin == false);
    assert!(players.last().unwrap().name == "` CRÆZY");
    assert!(players.last().unwrap().kills == 0);
}

#[test]
fn test_parse_in_game_player_info_empty() {
    let document = get_player_table_document(false);
    let extractor = DocumentExtractor::new(&document);
    let players = extractor.parse_in_game_player_info();
    assert!(players.is_empty());
}

#[test]
fn test_parse_steam_player_info() {
    let document = get_steam_player_table_document(true);
    let extractor = DocumentExtractor::new(&document);
    let players = extractor.parse_steam_player_info();
    assert!(players.len() == 4);
    assert!(players[0].name == "koira");
    assert!(players[0].ping == 123);
    assert!(players[0].ip == u32::from_be_bytes([127, 0, 0, 1]));
    assert!(players[0].unique_net_id == "asdasd123");
    assert!(players[0].steam_id == 123123123);
    assert!(players[0].admin == false);
    assert!(players.last().unwrap().name == "` CRÆZY");
    assert!(players.last().unwrap().ping == 0);
}

#[test]
fn test_parse_steam_player_info_empty() {
    let document = get_steam_player_table_document(false);
    let extractor = DocumentExtractor::new(&document);
    let players = extractor.parse_steam_player_info();
    assert!(players.is_empty());
}

#[test]
fn html_page_map_info() {
    let document = r#"<html><body>
        <dl id="currentGame"><dt>Server</dt><dd>My server</dd><dt>Mode</dt><dd>Normal</dd>
        <dt>Type</dt><dd>Survival</dd><dt>Map</dt><dd>KF-BurningParis</dd></dl>
        <dl id="currentRules"><dt>Wave</dt><dd>4/7</dd><dt>Difficulty</dt><dd>Suicidal</dd>
        <dt>Players</dt><dd>2/6</dd></dl>
        </body></html>"#;
    let extractor = DocumentExtractor::new(document);
    let info = extractor.parse_current_map_info().unwrap();
    assert_eq!(info.map_name, "KF-BurningParis");
    assert_eq!(info.game_type, "Survival");
    assert_eq!((info.current_wave, info.max_waves), (4, 7));
    assert_eq!((info.current_players, info.max_players), (2, 6));
    assert_eq!(info.difficulty, KfDifficulty::Suicidal);
    assert!(extractor.parse_form_token().is_err());
    assert!(extractor.parse_player_table().is_err());
}

#[test]
fn boss_index_from_console_page() {
    let page = "<html><body><pre>&gt; getall KFGameReplicationInfo BossIndex\n0) KFGameReplicationInfo_0.BossIndex = 4\n</pre></body></html>";
    assert_eq!(parse_boss_page(page).unwrap(), 4);
    let inline = "<div>KFGameReplicationInfo_0.BossIndex=1</div>";
    assert_eq!(parse_boss_page(inline).unwrap(), 1);
    assert_eq!(parse_boss_page("<html></html>").unwrap_err().to_string(), "Boss index not found");
}
