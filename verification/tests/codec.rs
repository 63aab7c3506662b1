use speedwayrs::date::GameDate;
use speedwayrs::game::{GameInfo, Player, PlayerRunScore, Run, Team, Helmet};
use speedwayrs::json::{parse_games, serialize_game};
use speedwayrs::result_code::PlayerResult;

fn sample_game() -> GameInfo {
    let p1 = Player {
        name: "Jan".to_string(),
        surname: "Kowalski".to_string(),
        number: 4,
        scores: vec![PlayerResult::Score(3), PlayerResult::ScoreWithStar(2), PlayerResult::Fall],
    };
    let p2 = Player {
        name: "Adam".to_string(),
        surname: "Nowak".to_string(),
        number: 7,
        scores: vec![PlayerResult::Reserve, PlayerResult::NoScore],
    };
    let t1 = Team { name: "Falubaz Zielona Góra".to_string(), points: 46, players: vec![p1] };
    let t2 = Team { name: "Unia Leszno".to_string(), points: 44, players: vec![p2] };
    let run = Run {
        number: 15,
        time: Some((58, 12)),
        player_score: vec![
            PlayerRunScore {
                name: "Jan Kowalski".to_string(),
                score: PlayerResult::Score(3),
                helmet: Some(Helmet::Red),
            },
            PlayerRunScore {
                name: "Adam Nowak".to_string(),
                score: PlayerResult::Score(2),
                helmet: None,
            },
        ],
    };
    GameInfo {
        team1: t1,
        team2: t2,
        stadium: "Stadion im. Alfreda Smoczyka".to_string(),
        date: GameDate { year: 2023, month: 7, day: 12, hour: 19, minute: 0 },
        runs: vec![run],
    }
}

#[test]
fn game_round_trips_through_the_artifact() {
    let g = sample_game();
    let text = serialize_game(&g);
    let back = parse_games(text.as_str()).unwrap();
    assert_eq!(back.len(), 1);
    assert!(back[0] == g);
}

#[test]
fn stream_of_records_round_trips() {
    let g = sample_game();
    let mut text = serialize_game(&g);
    text.push_str(&serialize_game(&g));
    text.push_str("  \n");
    let back = parse_games(text.as_str()).unwrap();
    assert_eq!(back.len(), 2);
    assert!(back[0] == g && back[1] == g);
}

#[test]
fn strings_with_quotes_and_backslashes_round_trip() {
    let mut g = sample_game();
    g.stadium = "dziwny \"stadion\" \\ nawias".to_string();
    let text = serialize_game(&g);
    let back = parse_games(text.as_str()).unwrap();
    assert!(back[0] == g);
}

#[test]
fn serialized_record_is_json_serde_can_read() {
    let g = sample_game();
    let text = serialize_game(&g);
    let v: serde_json::Value = serde_json::from_str(&text).unwrap();
    assert_eq!(v["team1"]["name"], serde_json::Value::String("Falubaz Zielona Góra".to_string()));
    assert_eq!(v["runs"][0]["number"], serde_json::Value::from(15u8));
    assert_eq!(v["runs"][0]["player_score"][1]["helmet"], serde_json::Value::Null);
}

#[test]
fn malformed_artifact_is_rejected() {
    assert!(parse_games("{\"team1\":").is_none());
    assert!(parse_games("garbage").is_none());
    let g = sample_game();
    let mut text = serialize_game(&g);
    text.push_str("trailing junk");
    assert!(parse_games(text.as_str()).is_none());
}

#[test]
fn empty_artifact_holds_no_records() {
    assert_eq!(parse_games("  \n ").unwrap().len(), 0);
    assert_eq!(parse_games("").unwrap().len(), 0);
}

#[test]
fn result_to_string_matches_serde_convention() {
    assert_eq!(PlayerResult::Score(3).to_string(), "{\"Score\":3}");
    assert_eq!(PlayerResult::ScoreWithStar(1).to_string(), "{\"ScoreWithStar\":1}");
    assert_eq!(PlayerResult::Fall.to_string(), "\"Fall\"");
    assert_eq!(PlayerResult::NoScore.to_string(), "\"None\"");
}

#[test]
fn result_from_str_inverts_to_string() {
    let all = vec![
        PlayerResult::Score(0),
        PlayerResult::Score(13),
        PlayerResult::ScoreWithStar(3),
        PlayerResult::Fall,
        PlayerResult::Reserve,
        PlayerResult::Resign,
        PlayerResult::Tape,
        PlayerResult::NotFinished,
        PlayerResult::NoScore,
    ];
    for p in all {
        assert_eq!(PlayerResult::from_str(&p.to_string()), Some(p));
    }
    assert_eq!(PlayerResult::from_str("\"Nonsense\""), None);
    assert_eq!(PlayerResult::from_str("{\"Score\":300}"), None);
    assert_eq!(PlayerResult::from_str("\"Fall\" extra"), None);
}

#[test]
fn pretty_forms() {
    assert_eq!(PlayerResult::Score(2).to_pretty(), "2");
    assert_eq!(PlayerResult::ScoreWithStar(3).to_pretty(), "3*");
    assert_eq!(PlayerResult::Fall.to_pretty(), "Upadek");
    assert_eq!(PlayerResult::Tape.to_pretty(), "Taśma");
}
