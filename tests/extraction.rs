use lol_journal::document::{build_history, read_row, Page, Query, Selectors};
use lol_journal::game_structs::{Game, Kda, Player, Role, Session};
use lol_journal::history::{
    enemy_champion, history_from_rows, interpret_row, ExtractionError, RowFault, RowField,
    RowFields,
};

fn player(role: Role, block_game_count: u8) -> Player {
    Player {
        username: "Someone".to_string(),
        tag: "EUW".to_string(),
        region: "euw".to_string(),
        role,
        block_game_count,
    }
}

/// One row of the history table, as the page lays it out.
struct RowSpec {
    duration: Option<&'static str>,
    kda: Option<(&'static str, &'static str, &'static str)>,
    ally: &'static str,
    status: &'static str,
    first_column: [&'static str; 5],
    second_column: [&'static str; 5],
}

fn column_html(names: &[&str]) -> String {
    let mut s = String::from("<div class=\"summonerColumn\">");
    for n in names {
        s.push_str(&format!("<div><img alt=\"{n}\"></div>"));
    }
    s.push_str("</div>");
    s
}

fn row_html(r: &RowSpec) -> String {
    let mut s = String::from("<tr>");
    s.push_str(&format!("<td><img alt=\"{}\"></td>", r.ally));
    if let Some((k, d, a)) = r.kda {
        s.push_str(&format!(
            "<td><span class=\"kills\">{k}</span>/<span class=\"deaths\">{d}</span>/<span class=\"assists\">{a}</span></td>"
        ));
    }
    if let Some(d) = r.duration {
        s.push_str(&format!("<td><div class=\"gameDuration\">\n   {d}\n  </div></td>"));
    }
    s.push_str(&format!("<td><div class=\"victoryDefeatText\">{}</div></td>", r.status));
    s.push_str("<td>");
    s.push_str(&column_html(&r.first_column));
    s.push_str(&column_html(&r.second_column));
    s.push_str("</td></tr>");
    s
}

fn page(rows: &[RowSpec]) -> String {
    let mut s = String::from(
        "<html><body><table class=\"data_table relative recentGamesTable inverted_rows_color\"><tbody>",
    );
    s.push_str("<tr><th>Game</th><th>KDA</th></tr>");
    s.push_str("<tr><td>Ad</td></tr>");
    for r in rows {
        s.push_str(&row_html(r));
    }
    s.push_str("</tbody></table></body></html>");
    s
}

fn game_tuple(g: &Game) -> (u8, String, String, bool, Kda, String) {
    (
        g.num,
        g.ally_champ.clone(),
        g.enemy_champ.clone(),
        g.win,
        g.kda,
        g.duration.clone(),
    )
}

fn untimed() -> RowSpec {
    RowSpec {
        duration: None,
        kda: None,
        ally: "Teemo",
        status: "",
        first_column: ["A", "B", "C", "D", "E"],
        second_column: ["F", "G", "H", "I", "J"],
    }
}

fn example_rows() -> Vec<RowSpec> {
    vec![
        RowSpec {
            duration: Some("25:10"),
            kda: Some(("1", "2", "3")),
            ally: "Jinx",
            status: "Victory",
            first_column: ["Garen", "Vi", "Ahri", "Ashe", "Lulu"],
            second_column: ["Darius", "Lee", "Lux", "Jinx", "Nami"],
        },
        RowSpec {
            duration: Some("30:00"),
            kda: Some(("4", "5", "6")),
            ally: "Jinx",
            status: "Defeat",
            first_column: ["Garen", "Vi", "Ahri", "Jinx", "Lulu"],
            second_column: ["Darius", "Lee", "Lux", "Zed", "Nami"],
        },
        untimed(),
    ]
}

fn extract(rows: &[RowSpec], role: Role, n: u8) -> Result<Session, ExtractionError> {
    let sel = Selectors::new().unwrap();
    build_history(&page(rows), &sel, &player(role, n), "7/3-2024".to_string())
}

#[test]
fn example_block_of_three() {
    let s = extract(&example_rows(), Role::Bottom, 3).unwrap();
    assert_eq!(s.date, "7/3-2024");
    assert_eq!(s.games.len(), 2);
    assert_eq!(
        game_tuple(&s.games[0]),
        (
            1,
            "Jinx".to_string(),
            "Zed".to_string(),
            false,
            Kda { kills: 4, deaths: 5, assists: 6 },
            "30:00".to_string()
        )
    );
    assert_eq!(
        game_tuple(&s.games[1]),
        (
            2,
            "Jinx".to_string(),
            "Ashe".to_string(),
            true,
            Kda { kills: 1, deaths: 2, assists: 3 },
            "25:10".to_string()
        )
    );
}

#[test]
fn block_limits_rows_read() {
    let mut rows = example_rows();
    rows.truncate(2);
    rows.push(RowSpec {
        duration: Some("20:00"),
        kda: None,
        ally: "Jinx",
        status: "Victory",
        first_column: ["A", "B", "C", "D", "E"],
        second_column: ["F", "G", "H", "I", "J"],
    });
    let s = extract(&rows, Role::Bottom, 1).unwrap();
    assert_eq!(s.games.len(), 1);
    assert_eq!(s.games[0].num, 1);
    assert_eq!(s.games[0].enemy_champ, "Ashe");
}

#[test]
fn missing_table_is_reported() {
    let sel = Selectors::new().unwrap();
    let r = build_history(
        "<html><body><table class=\"other\"><tbody><tr><td>x</td></tr></tbody></table></body></html>",
        &sel,
        &player(Role::Mid, 3),
        "1/1-2024".to_string(),
    );
    assert_eq!(r.err(), Some(ExtractionError::TableNotFound));
}

#[test]
fn untimed_rows_are_skipped() {
    let mut rows = vec![untimed()];
    rows.extend(example_rows());
    let s = extract(&rows, Role::Bottom, 4).unwrap();
    assert_eq!(s.games.len(), 2);
    assert_eq!(s.games[0].num, 1);
    assert_eq!(s.games[0].enemy_champ, "Zed");
    assert_eq!(s.games[1].num, 2);
    assert_eq!(s.games[1].enemy_champ, "Ashe");
}

#[test]
fn missing_kda_aborts_extraction() {
    let mut rows = example_rows();
    rows[1].kda = None;
    let r = extract(&rows, Role::Bottom, 3);
    assert_eq!(
        r.err(),
        Some(ExtractionError::RowMalformed { row: 4, field: RowField::Kills })
    );
}

#[test]
fn unreadable_count_aborts_extraction() {
    let mut rows = example_rows();
    rows[0].kda = Some(("1", "x", "3"));
    let r = extract(&rows, Role::Bottom, 3);
    assert_eq!(
        r.err(),
        Some(ExtractionError::RowMalformed { row: 3, field: RowField::Deaths })
    );
}

#[test]
fn empty_block_has_no_games() {
    let s = extract(&[], Role::Top, 5).unwrap();
    assert!(s.games.is_empty());
    assert_eq!(s.date, "7/3-2024");
}

#[test]
fn round_trip_through_markup() {
    let names = ["Garen", "Vi", "Ahri", "Ashe", "Lulu"];
    let newest_first = vec![
        RowSpec {
            duration: Some("41:02"),
            kda: Some(("255", "0", "17")),
            ally: "Ahri",
            status: "Victory",
            first_column: ["K", "L", "Syndra", "M", "N"],
            second_column: names,
        },
        RowSpec {
            duration: Some("18:45"),
            kda: Some(("0", "9", "1")),
            ally: "Ahri",
            status: "Defeat",
            first_column: ["K", "L", "Ahri", "M", "N"],
            second_column: ["P", "Q", "Ahri", "R", "S"],
        },
        RowSpec {
            duration: Some("33:33"),
            kda: Some(("12", "3", "8")),
            ally: "Orianna",
            status: "Victory",
            first_column: ["K", "L", "Orianna", "M", "N"],
            second_column: ["P", "Q", "Zoe", "R", "S"],
        },
    ];
    let s = extract(&newest_first, Role::Mid, 3).unwrap();
    let got: Vec<_> = s.games.iter().map(game_tuple).collect();
    assert_eq!(
        got,
        vec![
            (1, "Orianna".to_string(), "Zoe".to_string(), true, Kda { kills: 12, deaths: 3, assists: 8 }, "33:33".to_string()),
            (2, "Ahri".to_string(), "Ahri".to_string(), false, Kda { kills: 0, deaths: 9, assists: 1 }, "18:45".to_string()),
            (3, "Ahri".to_string(), "Syndra".to_string(), true, Kda { kills: 255, deaths: 0, assists: 17 }, "41:02".to_string()),
        ]
    );
}

fn plain_row(first: Vec<Option<&str>>, second: Option<Vec<Option<&str>>>) -> RowFields {
    let col = |v: Vec<Option<&str>>| v.into_iter().map(|x| x.map(String::from)).collect::<Vec<_>>();
    let mut columns = vec![col(first)];
    if let Some(s) = second {
        columns.push(col(s));
    }
    RowFields {
        duration: Some("22:00".to_string()),
        kills: Some("2".to_string()),
        deaths: Some("0".to_string()),
        assists: Some("5".to_string()),
        ally_champ: Some("Jinx".to_string()),
        status: Some("Victory".to_string()),
        columns,
    }
}

#[test]
fn enemy_taken_from_first_column() {
    let row = plain_row(vec![Some("A"), Some("Ashe")], Some(vec![Some("B"), Some("C")]));
    assert_eq!(enemy_champion(&row, 1, &"Jinx".to_string()), Ok("Ashe".to_string()));
}

#[test]
fn enemy_falls_back_to_second_column() {
    let row = plain_row(vec![Some("A"), Some("Jinx")], Some(vec![Some("B"), Some("Zed")]));
    assert_eq!(enemy_champion(&row, 1, &"Jinx".to_string()), Ok("Zed".to_string()));
}

#[test]
fn fallback_needs_second_column() {
    let row = plain_row(vec![Some("A"), Some("Jinx")], None);
    assert_eq!(
        enemy_champion(&row, 1, &"Jinx".to_string()),
        Err(RowFault::Malformed(RowField::TeamColumn))
    );
}

#[test]
fn role_slot_out_of_range() {
    let row = plain_row(vec![Some("A"), Some("B")], Some(vec![Some("C"), Some("D")]));
    let r = interpret_row(&row, 4);
    assert_eq!(r.err(), Some(RowFault::RoleOutOfRange));
    let table = vec![plain_row(vec![], None), plain_row(vec![], None), row];
    let r = history_from_rows(&table, Role::Support, 2, "d".to_string());
    assert_eq!(r.err(), Some(ExtractionError::RoleIndexOutOfRange { row: 3 }));
}

#[test]
fn unnamed_enemy_image_is_malformed() {
    let row = plain_row(vec![Some("A"), None], Some(vec![Some("C"), Some("D")]));
    assert_eq!(
        interpret_row(&row, 1).err(),
        Some(RowFault::Malformed(RowField::EnemyChampion))
    );
}

#[test]
fn missing_fields_in_reading_order() {
    let mut row = plain_row(vec![Some("A")], None);
    row.status = None;
    assert_eq!(interpret_row(&row, 0).err(), Some(RowFault::Malformed(RowField::Status)));
    row.ally_champ = None;
    assert_eq!(interpret_row(&row, 0).err(), Some(RowFault::Malformed(RowField::AllyChampion)));
    row.assists = None;
    assert_eq!(interpret_row(&row, 0).err(), Some(RowFault::Malformed(RowField::Assists)));
    row.columns.clear();
    row.status = Some("Victory".to_string());
    row.ally_champ = Some("Jinx".to_string());
    row.assists = Some("1".to_string());
    assert_eq!(interpret_row(&row, 0).err(), Some(RowFault::Malformed(RowField::TeamColumn)));
}

#[test]
fn row_without_duration_gives_nothing() {
    let mut row = plain_row(vec![], None);
    row.duration = None;
    row.kills = None;
    assert!(matches!(interpret_row(&row, 0), Ok(None)));
}

#[test]
fn status_other_than_victory_is_a_loss() {
    let mut row = plain_row(vec![Some("Ashe")], None);
    row.status = Some("victory".to_string());
    let g = interpret_row(&row, 0).unwrap().unwrap();
    assert!(!g.win);
    assert_eq!(g.kda, Kda { kills: 2, deaths: 0, assists: 5 });
    assert_eq!(g.enemy_champ, "Ashe");
}

#[test]
fn block_of_full_rows_numbers_in_order() {
    let rows: Vec<RowFields> = (0..6)
        .map(|i| {
            let mut r = plain_row(vec![Some("Ashe")], None);
            r.duration = Some(format!("{}:00", 20 + i));
            r
        })
        .collect();
    let s = history_from_rows(&rows, Role::Top, 4, "d".to_string()).unwrap();
    let nums: Vec<u8> = s.games.iter().map(|g| g.num).collect();
    assert_eq!(nums, vec![1, 2, 3, 4]);
    let durations: Vec<&str> = s.games.iter().map(|g| g.duration.as_str()).collect();
    assert_eq!(durations, vec!["25:00", "24:00", "23:00", "22:00"]);
}

#[test]
fn selectors_compile() {
    assert!(Selectors::new().is_some());
}

#[test]
fn bad_pattern_is_rejected() {
    assert!(Query::compile("span..kills").is_none());
    assert!(Query::compile("").is_none());
    assert!(Query::compile("td > span.kills").is_some());
}

#[test]
fn row_read_from_page() {
    let rows = example_rows();
    let page = Page::parse(&page(&rows));
    let sel = Selectors::new().unwrap();
    let row = read_row(&page, &sel, 3);
    assert_eq!(row.duration.as_deref(), Some("30:00"));
    assert_eq!(row.kills.as_deref(), Some("4"));
    assert_eq!(row.deaths.as_deref(), Some("5"));
    assert_eq!(row.assists.as_deref(), Some("6"));
    assert_eq!(row.ally_champ.as_deref(), Some("Jinx"));
    assert_eq!(row.status.as_deref(), Some("Defeat"));
    assert_eq!(row.columns.len(), 2);
    assert_eq!(row.columns[0][3].as_deref(), Some("Jinx"));
    assert_eq!(row.columns[1][3].as_deref(), Some("Zed"));
    let header = read_row(&page, &sel, 0);
    assert_eq!(header.duration, None);
    assert!(header.columns.is_empty());
}
