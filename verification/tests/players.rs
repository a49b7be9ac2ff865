use worldcup_odds::feeds::{JsonNumber, JsonValue};
use worldcup_odds::players::{
    player_status_covered, team_player_counts, team_player_entries, PositionLine,
};

fn s(text: &str) -> JsonValue {
    JsonValue::Str(text.to_string())
}

fn obj(pairs: Vec<(&str, JsonValue)>) -> JsonValue {
    JsonValue::Object(pairs.into_iter().map(|(k, v)| (k.to_string(), v)).collect())
}

fn num(text: &str) -> JsonValue {
    JsonValue::Number(JsonNumber { text: text.to_string(), integer: text.parse::<i64>().ok() })
}

fn player(team: &str, status: &str, starter: &str, position: &str, importance: JsonValue) -> JsonValue {
    obj(vec![
        ("team", s(team)),
        ("status", s(status)),
        ("starter", s(starter)),
        ("position", s(position)),
        ("importance", importance),
    ])
}

fn feed() -> JsonValue {
    obj(vec![(
        "players",
        JsonValue::Array(vec![
            player("巴西", "Injured", "", "FW", num("1.5")),
            player("Brazil", "Starting", "", "中场", num("1")),
            player("巴西", "doubtful", "YES", "gk", s("2")),
            player("日本", "OUT", "", "DEF", num("1")),
            player("巴西", "fit", "", "", JsonValue::Null),
        ]),
    )])
}

#[test]
fn team_entries_classify_status_and_line() {
    let entries = team_player_entries(&feed(), "巴西");
    assert_eq!(entries.len(), 4);
    assert!(entries[0].unavailable && !entries[0].doubtful && !entries[0].starter);
    assert_eq!(entries[0].line, PositionLine::Forward);
    assert_eq!(entries[0].importance, Some("1.5".to_string()));
    assert!(entries[1].starter && !entries[1].unavailable);
    assert_eq!(entries[1].line, PositionLine::Midfield);
    assert!(entries[2].starter && entries[2].unavailable && entries[2].doubtful);
    assert_eq!(entries[2].line, PositionLine::Goalkeeper);
    assert_eq!(entries[2].importance, None);
    assert_eq!(entries[3].line, PositionLine::Unknown);
    assert!(!entries[3].unavailable);
    assert_eq!(team_player_counts(&feed(), "巴西"), (2, 2));
    assert_eq!(team_player_counts(&feed(), "日本"), (1, 0));
}

#[test]
fn status_covers_fixture_when_either_team_has_news() {
    assert!(player_status_covered(Some(&feed()), "法国", "日本"));
    assert!(!player_status_covered(Some(&feed()), "法国", "德国"));
    assert!(!player_status_covered(None, "巴西", "日本"));
    assert_eq!(team_player_counts(&JsonValue::Null, "巴西"), (0, 0));
}
