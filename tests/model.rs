use lol_journal::date::{format_date, get_directory_path, get_file_name, CalendarDay};
use lol_journal::game_structs::{Player, Role};
use lol_journal::text::{decimal_string, parse_byte, signed_decimal_string};

fn player(role: Role, block_game_count: u8) -> Player {
    Player {
        username: "Chaoborus".to_string(),
        tag: "Spec".to_string(),
        region: "euw".to_string(),
        role,
        block_game_count,
    }
}

#[test]
fn role_values_are_slots() {
    assert_eq!(Role::Top.value(), 0);
    assert_eq!(Role::Jungle.value(), 1);
    assert_eq!(Role::Mid.value(), 2);
    assert_eq!(Role::Bottom.value(), 3);
    assert_eq!(Role::Support.value(), 4);
}

#[test]
fn role_words_parse() {
    assert_eq!(Role::from_str("top"), Some(Role::Top));
    assert_eq!(Role::from_str("jungle"), Some(Role::Jungle));
    assert_eq!(Role::from_str("mid"), Some(Role::Mid));
    assert_eq!(Role::from_str("bottom"), Some(Role::Bottom));
    assert_eq!(Role::from_str("support"), Some(Role::Support));
}

#[test]
fn role_other_words_are_rejected() {
    assert_eq!(Role::from_str("Top"), None);
    assert_eq!(Role::from_str(""), None);
    assert_eq!(Role::from_str("adc"), None);
    assert_eq!(Role::from_str("top "), None);
}

#[test]
fn player_url_joins_region_name_and_tag() {
    let p = player(Role::Mid, 5);
    assert_eq!(
        p.get_url_from_player(),
        "https://www.leagueofgraphs.com/summoner/euw/Chaoborus-Spec"
    );
}

#[test]
fn byte_texts_parse() {
    assert_eq!(parse_byte("0"), Some(0));
    assert_eq!(parse_byte("42"), Some(42));
    assert_eq!(parse_byte("255"), Some(255));
    assert_eq!(parse_byte("+7"), Some(7));
    assert_eq!(parse_byte("007"), Some(7));
}

#[test]
fn byte_texts_rejected() {
    assert_eq!(parse_byte(""), None);
    assert_eq!(parse_byte("+"), None);
    assert_eq!(parse_byte("256"), None);
    assert_eq!(parse_byte("1000"), None);
    assert_eq!(parse_byte("-1"), None);
    assert_eq!(parse_byte("4a"), None);
    assert_eq!(parse_byte(" 4"), None);
}

#[test]
fn decimal_texts() {
    assert_eq!(decimal_string(0), "0");
    assert_eq!(decimal_string(9), "9");
    assert_eq!(decimal_string(10), "10");
    assert_eq!(decimal_string(4294967295), "4294967295");
    assert_eq!(signed_decimal_string(2024), "2024");
    assert_eq!(signed_decimal_string(-45), "-45");
    assert_eq!(signed_decimal_string(i32::MIN), "-2147483648");
}

#[test]
fn date_is_day_slash_month_dash_year() {
    let d = CalendarDay { year: 2024, month: 3, day: 7 };
    assert_eq!(format_date(&d), "7/3-2024");
    let d = CalendarDay { year: 2023, month: 12, day: 31 };
    assert_eq!(format_date(&d), "31/12-2023");
}

#[test]
fn report_path_parts() {
    let d = CalendarDay { year: 2024, month: 11, day: 5 };
    assert_eq!(get_directory_path(&d), vec!["2024".to_string(), "11".to_string()]);
    assert_eq!(get_file_name(&d), "5.md");
}

#[test]
fn current_date_is_well_formed() {
    let text = lol_journal::date::get_date();
    let (day, rest) = text.split_once('/').unwrap();
    let (month, year) = rest.split_once('-').unwrap();
    let day: u32 = day.parse().unwrap();
    let month: u32 = month.parse().unwrap();
    assert!((1..=31).contains(&day));
    assert!((1..=12).contains(&month));
    assert!(year.parse::<i32>().is_ok());
}
