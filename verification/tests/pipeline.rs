use speedwayrs::date::GameDate;
use speedwayrs::extract::GameSite;
use speedwayrs::game::GameInfo;
use speedwayrs::limiter::HttpRequester;
use speedwayrs::records::{MatchResult, Player as ScoreLine, RunInfo};
use speedwayrs::result_code::PlayerResult;
use speedwayrs::extract::ExtractErrorKind;
use speedwayrs::season::Season;
use speedwayrs::store::Store;

fn competitor(name: &str, score: &str, colour: &str) -> String {
    format!(
        "<li class=\"competitor\"><span class=\"competitor__name\">{}</span>\
         <span class=\"competitor__score\">{}</span>\
         <figure class=\"icon-helmet {}\"></figure></li>",
        name, score, colour
    )
}

fn coverage_run(time: &str, names: [&str; 4], scores: [&str; 4]) -> String {
    let mut s = format!("<span class=\"coventry__time\">{}</span>", time);
    let colours = ["red", "blue", "yellow", "white"];
    for i in 0..4 {
        s.push_str(&competitor(names[i], scores[i], colours[i]));
    }
    s
}

fn team_table(rows: &[(u32, &str, &[&str])]) -> String {
    let mut s = String::from(
        "<div><p>sklad</p><table><thead><tr><th>lp</th></tr></thead><tbody>",
    );
    for (num, title, cells) in rows {
        s.push_str(&format!(
            "<tr><td>{}</td><td><a title=\"{}\">link</a></td>",
            num, title
        ));
        for c in *cells {
            s.push_str(&format!("<td>{}</td>", c));
        }
        s.push_str("</tr>");
    }
    s.push_str("</tbody></table></div>");
    s
}

fn fixture_page() -> String {
    let mut body = String::from("<html><body>");
    body.push_str(
        "<div class=\"mclabel__name\"><span class=\"name\">Falubaz Zielona Góra</span></div>\
         <div class=\"mclabel__name\"><span class=\"name\">Unia Leszno</span></div>",
    );
    body.push_str(
        "<ul class=\"bdcd\"><li>naglowek</li>\
         <li><span>Data</span><span>12 lipca 2023, 19:00</span></li>\
         <li><span>Stadion</span><span><a>Stadion im. Alfreda Smoczyka</a></span></li></ul>",
    );
    body.push_str("<div class=\"coveragetab__speedwaytables\">");
    body.push_str(&team_table(&[
        (1, "Bartosz Zmarzlik", &["20", "3*"]),
        (2, "Piotr Pawlicki", &["20", "3"]),
    ]));
    body.push_str(&team_table(&[
        (9, "Janusz Kołodziej", &["20", "2"]),
        (10, "Dominik Kubera", &["20", "2"]),
    ]));
    body.push_str("</div>");
    body.push_str("<div class=\"coveragelist\">");
    let names = [
        "Bartosz Zmarzlik",
        "Piotr Pawlicki",
        "Janusz Kołodziej",
        "Dominik Kubera",
    ];
    for _ in 0..15 {
        body.push_str(&coverage_run("58.12 sek.", names, ["3", "2", "1", "0"]));
    }
    body.push_str("</div></body></html>");
    body
}

#[test]
fn fixture_page_extracts_to_the_expected_record() {
    let body = fixture_page();
    let g = GameInfo::parse_site(&body, "https://example.test/m").unwrap();
    assert_eq!(g.team_one().name(), "Falubaz Zielona Góra");
    assert_eq!(g.team_two().name(), "Unia Leszno");
    assert_eq!(g.team_one().score(), 46);
    assert_eq!(g.team_two().score(), 44);
    assert_eq!(g.runs()[0].get_time(), Some((58, 12)));
    assert_eq!(
        *g.date(),
        GameDate { year: 2023, month: 7, day: 12, hour: 19, minute: 0 }
    );
    assert_eq!(g.place(), "Stadion im. Alfreda Smoczyka");
}

#[test]
fn run_positions_cover_one_through_fifteen() {
    let body = fixture_page();
    let g = GameInfo::parse_site(&body, "u").unwrap();
    assert_eq!(g.runs().len(), 15);
    let mut positions: Vec<u8> = g.runs().iter().map(|r| r.position()).collect();
    positions.sort();
    let expected: Vec<u8> = (1..=15).collect();
    assert_eq!(positions, expected);
}

#[test]
fn loading_the_fixture_record_fills_the_expected_rows() {
    let body = fixture_page();
    let g = GameInfo::parse_site(&body, "u").unwrap();
    let mut store = Store::new();
    assert!(store.ingest(&g));
    assert_eq!(store.teams.len(), 2);
    assert_eq!(store.players.len(), 4);
    assert_eq!(store.stadiums.len(), 1);
    assert_eq!(store.games.len(), 1);
    assert_eq!(store.games[0].score1, 46);
    assert_eq!(store.games[0].score2, 44);
    assert_eq!(store.runs.len(), 15);
    assert_eq!(store.run_scores.len(), 60);
    assert_eq!(store.player_scores.len(), 8);
}

#[test]
fn reingesting_the_same_record_reuses_reference_rows() {
    let body = fixture_page();
    let g = GameInfo::parse_site(&body, "u").unwrap();
    let mut store = Store::new();
    assert!(store.ingest(&g));
    assert!(store.ingest(&g));
    assert_eq!(store.teams.len(), 2);
    assert_eq!(store.players.len(), 4);
    assert_eq!(store.stadiums.len(), 1);
    assert_eq!(store.games.len(), 2);
    assert_eq!(store.runs.len(), 30);
}

#[test]
fn resolving_a_team_twice_stores_one_row_and_one_id() {
    let mut store = Store::new();
    let a = store.resolve_team("Unia Leszno");
    let b = store.resolve_team("Unia Leszno");
    let c = store.resolve_team("  Unia Leszno  ");
    assert_eq!(a, b);
    assert_eq!(a, c);
    assert_eq!(store.teams.len(), 1);
}

#[test]
fn a_failed_insert_rolls_the_whole_match_back() {
    let body = fixture_page();
    let g = GameInfo::parse_site(&body, "u").unwrap();
    let mut store = Store::new();
    store.resolve_entities(&g);
    let teams_before = store.teams.len();
    let ok = store.load_match(&g, Some(0));
    assert!(!ok);
    assert_eq!(store.games.len(), 0);
    assert_eq!(store.runs.len(), 0);
    assert_eq!(store.run_scores.len(), 0);
    assert_eq!(store.player_scores.len(), 0);
    assert_eq!(store.teams.len(), teams_before);
    let ok2 = store.load_match(&g, Some(50));
    assert!(!ok2);
    assert_eq!(store.games.len(), 0);
    assert!(store.load_match(&g, None));
    assert_eq!(store.games.len(), 1);
}

#[test]
fn record_round_trips_through_the_artifact_after_extraction() {
    let body = fixture_page();
    let g = GameInfo::parse_site(&body, "u").unwrap();
    let text = speedwayrs::json::serialize_game(&g);
    let back = speedwayrs::json::parse_games(&text).unwrap();
    assert_eq!(back.len(), 1);
    assert!(back[0] == g);
}

#[test]
fn iterator_test() {
    let mut body = String::from("<div class=\"coveragelist\">");
    body.push_str(&coverage_run(
        "56.12 sek.",
        ["John Test", "Adam Test", "Max Test", "Barb Test"],
        ["5", "6", "7", "8"],
    ));
    for _ in 0..14 {
        body.push_str(&coverage_run(
            "60 sek.",
            ["John Test", "Adam Test", "Max Test", "Barb Test"],
            ["0", "0", "0", "0"],
        ));
    }
    body.push_str("</div>");

    let runs = speedwayrs::extract::parse_runs(&body).expect("Run iterator does not work");
    let run = &runs[0];

    assert_eq!(run.get_time().unwrap(), (56, 12));
    assert_eq!(run.position(), 15);
    assert_eq!(run.player_scores()[1].full_name(), "Adam Test");
    assert_eq!(*run.player_scores()[2].score(), PlayerResult::Score(7));
}

#[test]
fn each_extraction_stage_reports_its_failure() {
    // No team names at all.
    let e = GameInfo::parse_site("<html><body></body></html>", "u").unwrap_err();
    assert_eq!(e.kind, ExtractErrorKind::Teams);
    assert_eq!(e.url, "u");

    // Teams present, coverage list missing.
    let mut body = fixture_page();
    body = body.replace("coveragelist", "otherlist");
    let e = GameInfo::parse_site(&body, "u").unwrap_err();
    assert_eq!(e.kind, ExtractErrorKind::Runs);

    // Venue list item missing.
    let mut body = fixture_page();
    body = body.replace("<a>Stadion im. Alfreda Smoczyka</a>", "");
    let e = GameInfo::parse_site(&body, "u").unwrap_err();
    assert_eq!(e.kind, ExtractErrorKind::Stadium);

    // Date text that no grammar accepts.
    let mut body = fixture_page();
    body = body.replace("12 lipca 2023, 19:00", "kiedys");
    let e = GameInfo::parse_site(&body, "u").unwrap_err();
    assert_eq!(e.kind, ExtractErrorKind::DateLine);
}

#[test]
fn a_missing_line_up_grid_is_a_teams_failure() {
    // Team names present, but the second side's line-up table gone:
    // the page must fail at the teams stage, not yield empty teams.
    let full = team_table(&[
        (9, "Janusz Ko\u{142}odziej", &["20", "2"]),
        (10, "Dominik Kubera", &["20", "2"]),
    ]);
    let body = fixture_page().replace(&full, "");
    let e = GameInfo::parse_site(&body, "u").unwrap_err();
    assert_eq!(e.kind, ExtractErrorKind::Teams);

    // Both grids gone likewise.
    let first = team_table(&[
        (1, "Bartosz Zmarzlik", &["20", "3*"]),
        (2, "Piotr Pawlicki", &["20", "3"]),
    ]);
    let body = fixture_page().replace(&first, "").replace(&full, "");
    let e = GameInfo::parse_site(&body, "u").unwrap_err();
    assert_eq!(e.kind, ExtractErrorKind::Teams);
}

#[test]
fn a_rider_link_outside_the_name_cell_does_not_count() {
    // The rider's name comes off the second cell's link; a titled
    // link elsewhere in the row must not stand in for a missing one.
    let good = "<td><a title=\"Bartosz Zmarzlik\">link</a></td>";
    let bad = "<td>link</td><td><a title=\"Obcy Tytul\">x</a></td>";
    let body = fixture_page().replacen(good, bad, 1);
    let e = GameInfo::parse_site(&body, "u").unwrap_err();
    assert_eq!(e.kind, ExtractErrorKind::Teams);
}

#[test]
fn season_page_without_the_dropdown_fails() {
    let body = "<ul><li class=\"filtersitem\"><div>Sezon 2023</div></li></ul>";
    assert!(Season::parse_site(body).is_none());
}

#[test]
fn calendar_validity_is_checked() {
    assert!(speedwayrs::date::GameDate::new(2023, 2, 29, 10, 0).is_none());
    assert!(speedwayrs::date::GameDate::new(2024, 2, 29, 10, 0).is_some());
    assert!(speedwayrs::date::GameDate::new(2023, 13, 1, 10, 0).is_none());
    assert!(speedwayrs::date::GameDate::new(2023, 4, 31, 10, 0).is_none());
    assert!(speedwayrs::date::GameDate::new(2023, 4, 30, 23, 59).is_some());
}

#[test]
fn consecutive_reservations_respect_the_tick() {
    let mut limiter = HttpRequester::new(100);
    let w0 = limiter.reserve(0);
    assert_eq!(w0, 0);
    let w1 = limiter.reserve(10);
    assert_eq!(w1, 90);
    let w2 = limiter.reserve(200);
    assert_eq!(w2, 0);
    let w3 = limiter.reserve(210);
    assert_eq!(w3, 90);
    // dispatches at 0, 100, 200 and 300: four starts span at least
    // three full ticks.
    assert!(210 + w3 - 0 >= 3 * 100);
}

#[test]
fn schedule_links_become_absolute_sites() {
    let body = "<div><a class=\"cmatch__link\" href=\"/zuzel/m1\">a</a>\
                <a class=\"cmatch__link\" href=\"/zuzel/m2\">b</a></div>";
    let sites = GameSite::parse_match_schedule(body).unwrap();
    assert_eq!(sites.len(), 2);
    assert_eq!(sites[0].url(), "https://sportowefakty.wp.pl/zuzel/m1");
    assert_eq!(sites[1].url(), "https://sportowefakty.wp.pl/zuzel/m2");
}

#[test]
fn schedule_link_without_address_fails() {
    let body = "<a class=\"cmatch__link\">a</a>";
    assert!(GameSite::parse_match_schedule(body).is_none());
}

#[test]
fn season_page_lists_current_and_dropdown_seasons() {
    let body = "<ul><li class=\"filtersitem\"><div>Sezon 2023</div>\
                <div><span>menu</span><ul>\
                <li><a href=\"/zuzel/s2022\">Sezon 2022</a></li>\
                <li><a href=\"/zuzel/s2021\">Sezon 2021</a></li>\
                </ul></div></li></ul>";
    let seasons = Season::parse_site(body).unwrap();
    assert_eq!(seasons.len(), 3);
    assert_eq!(seasons[0].year, 2023);
    assert_eq!(seasons[1].year, 2022);
    assert_eq!(seasons[2].site, "https://sportowefakty.wp.pl/zuzel/s2021");
}

#[test]
fn stored_match_sorts_its_heats() {
    let runs = vec![
        RunInfo::new(3, None, vec![]),
        RunInfo::new(1, Some((60, 5)), vec![]),
        RunInfo::new(2, None, vec![]),
    ];
    let mut m = MatchResult::new(
        "A".to_string(),
        "B".to_string(),
        50,
        40,
        "S".to_string(),
        GameDate { year: 2023, month: 7, day: 12, hour: 19, minute: 0 },
        runs,
        vec![],
    );
    m.sort_runs();
    let order: Vec<u8> = m.runs().iter().map(|r| r.number()).collect();
    assert_eq!(order, vec![1, 2, 3]);
    assert_eq!(m.first_team_name(), "A");
    assert_eq!(m.second_team_score(), 40);
}

#[test]
fn heat_time_renders_with_unit() {
    let r = RunInfo::new(1, Some((58, 12)), vec![]);
    assert_eq!(r.time_string(), "58.12 s");
    let none = RunInfo::new(2, None, vec![]);
    assert_eq!(none.time_string(), "");
}

#[test]
fn score_line_orders_rounds() {
    let line = ScoreLine::new(
        "Jan".to_string(),
        "Kowalski".to_string(),
        vec![
            (3, PlayerResult::Score(2)),
            (1, PlayerResult::Fall),
            (2, PlayerResult::Score(3)),
        ],
    );
    let rounds: Vec<u8> = line.scores.iter().map(|s| s.0).collect();
    assert_eq!(rounds, vec![1, 2, 3]);
}
