use speedwayrs::date::{parse_date, GameDate};
use speedwayrs::game::{parse_name, parse_score, parse_time, Helmet};
use speedwayrs::result_code::PlayerResult;

#[test]
fn parsing_time() {
    let time = "56.12 sek.";
    let parsed_time = parse_time(time).unwrap();

    assert!(parsed_time.unwrap().0 == 56);
    assert!(parsed_time.unwrap().1 == 12);
}

#[test]
fn time_without_fraction() {
    assert_eq!(parse_time("58 sek."), Some(Some((58, 0))));
}

#[test]
fn empty_time_cell_means_no_time() {
    assert_eq!(parse_time("   "), Some(None));
    assert_eq!(parse_time(""), Some(None));
}

#[test]
fn malformed_time_is_rejected() {
    assert_eq!(parse_time("abc"), None);
    assert_eq!(parse_time("58.12"), None);
    assert_eq!(parse_time("58. sek."), None);
    assert_eq!(parse_time("99999 sek."), None);
}

#[test]
fn result_codes_decode_exactly() {
    assert_eq!(PlayerResult::parse(""), Some(PlayerResult::NoScore));
    assert_eq!(PlayerResult::parse("-"), Some(PlayerResult::Reserve));
    assert_eq!(PlayerResult::parse("u"), Some(PlayerResult::Fall));
    assert_eq!(PlayerResult::parse("U"), Some(PlayerResult::Fall));
    assert_eq!(PlayerResult::parse("w"), Some(PlayerResult::Fall));
    assert_eq!(PlayerResult::parse("d"), Some(PlayerResult::Resign));
    assert_eq!(PlayerResult::parse("3"), Some(PlayerResult::Score(3)));
    assert_eq!(PlayerResult::parse("13"), Some(PlayerResult::Score(13)));
    assert_eq!(PlayerResult::parse("2*"), Some(PlayerResult::ScoreWithStar(2)));
    assert_eq!(PlayerResult::parse(" 3 "), Some(PlayerResult::Score(3)));
}

#[test]
fn other_codes_fail_to_decode() {
    assert_eq!(PlayerResult::parse("x"), None);
    assert_eq!(PlayerResult::parse("*"), None);
    assert_eq!(PlayerResult::parse("3**"), None);
    assert_eq!(PlayerResult::parse("256"), None);
    assert_eq!(PlayerResult::parse("1a"), None);
    assert_eq!(PlayerResult::parse("--"), None);
}

#[test]
fn headline_score_reads_two_numbers() {
    assert_eq!(parse_score("46:44"), Some((46, 44)));
    assert_eq!(parse_score("wynik 46 : 44 pkt"), Some((46, 44)));
    assert_eq!(parse_score("no digits"), None);
    assert_eq!(parse_score("46 only"), None);
}

#[test]
fn date_line_decodes() {
    let d = parse_date("12 lipca 2023, 19:00").unwrap();
    assert_eq!(
        d,
        GameDate { year: 2023, month: 7, day: 12, hour: 19, minute: 0 }
    );
}

#[test]
fn month_names_ignore_ascii_case() {
    let d = parse_date("1 Stycznia 2020, 00:05").unwrap();
    assert_eq!(d.month, 1);
    assert_eq!(d.minute, 5);
}

#[test]
fn bad_dates_are_rejected() {
    assert_eq!(parse_date("29 lutego 2023, 10:00"), None);
    assert_eq!(parse_date("12 nosuchmonth 2023, 10:00"), None);
    assert_eq!(parse_date("12 lipca 2023"), None);
    assert_eq!(parse_date("12 lipca 2023, 24:00"), None);
}

#[test]
fn leap_day_is_accepted() {
    let d = parse_date("29 lutego 2024, 10:30").unwrap();
    assert_eq!(d.day, 29);
    assert_eq!(d.month, 2);
}

#[test]
fn competitor_name_takes_two_tokens() {
    assert_eq!(parse_name("  Jan   Kowalski junior "), Some("Jan Kowalski".to_string()));
    assert_eq!(parse_name("Jednoslowo"), None);
}

#[test]
fn helmet_colour_from_class_text() {
    assert_eq!(Helmet::try_parsing("icon-helmet red"), Some(Helmet::Red));
    assert_eq!(Helmet::try_parsing("icon-helmet white"), Some(Helmet::White));
    assert_eq!(Helmet::try_parsing("icon-helmet"), None);
}

#[test]
fn exotic_whitespace_is_trimmed_and_split() {
    assert_eq!(
        PlayerResult::parse("\u{2000}3\u{3000}"),
        Some(PlayerResult::Score(3))
    );
    assert_eq!(
        parse_name("Jan\u{2009}Kowalski junior"),
        Some("Jan Kowalski".to_string())
    );
}

#[test]
fn season_label_reads_year() {
    let se = speedwayrs::season::Season::new("Sezon 2023", "/zuzel/x").unwrap();
    assert_eq!(se.year, 2023);
    assert_eq!(se.site, "https://sportowefakty.wp.pl/zuzel/x");
    assert!(speedwayrs::season::Season::new("Rok 2023", "/x").is_none());
}
