use worldcup_odds::feeds::{
    collect_football_data_org_matches, collect_matches, injury_count, ordered_distinct_fixtures,
    player_status_count, text_field, JsonNumber, JsonValue,
};
use worldcup_odds::fixtures::MatchRow;
use worldcup_odds::training::{locate_training_dir, training_python};

fn s(text: &str) -> JsonValue {
    JsonValue::Str(text.to_string())
}

fn obj(pairs: Vec<(&str, JsonValue)>) -> JsonValue {
    JsonValue::Object(pairs.into_iter().map(|(k, v)| (k.to_string(), v)).collect())
}

fn int_value(n: i64) -> JsonValue {
    JsonValue::Number(JsonNumber { text: n.to_string(), integer: Some(n) })
}

#[test]
fn football_data_org_matches_feed_global_match_rows() {
    let mut rows = Vec::new();
    let feed = obj(vec![(
        "matches",
        JsonValue::Array(vec![obj(vec![
            ("id", int_value(537423)),
            ("utcDate", s("2026-06-29T17:00:00Z")),
            ("status", s("TIMED")),
            ("stage", s("LAST_32")),
            ("competition", obj(vec![("name", s("FIFA World Cup"))])),
            ("homeTeam", obj(vec![("name", s("Brazil"))])),
            ("awayTeam", obj(vec![("name", s("Japan"))])),
        ])]),
    )]);
    collect_football_data_org_matches(&feed, &mut rows);
    assert_eq!(rows.len(), 1);
    assert_eq!(rows[0].home, "巴西");
    assert_eq!(rows[0].away, "日本");
    assert!(rows[0].id.starts_with("football-data-org-"));
}

#[test]
fn football_data_org_rows_fill_defaults() {
    let mut rows = Vec::new();
    let feed = obj(vec![(
        "matches",
        JsonValue::Array(vec![
            obj(vec![("homeTeam", obj(vec![("name", s("Spain"))])), ("awayTeam", obj(vec![("name", s("Morocco"))]))]),
            obj(vec![("homeTeam", obj(vec![("name", s("Spain"))]))]),
        ]),
    )]);
    collect_football_data_org_matches(&feed, &mut rows);
    assert_eq!(rows.len(), 1);
    assert_eq!(rows[0].id, "football-data-org-西班牙-摩洛哥");
    assert_eq!(rows[0].match_num, "FDO");
    assert_eq!(rows[0].league, "football-data.org");
    assert_eq!(rows[0].time, "");
    let mut none = Vec::new();
    collect_football_data_org_matches(&JsonValue::Array(Vec::new()), &mut none);
    assert!(none.is_empty());
}

#[test]
fn lottery_feed_rows_are_collected_depth_first() {
    let feed = obj(vec![(
        "value",
        obj(vec![(
            "matchInfoList",
            JsonValue::Array(vec![
                obj(vec![
                    ("homeTeamAbbName", s("巴西")),
                    ("awayTeamAbbName", s("日本")),
                    ("matchId", int_value(2040337)),
                    ("matchNumStr", s("周一001")),
                    ("leagueAbbName", s("世界杯")),
                    ("matchDate", s("2026-06-29")),
                    ("matchTime", s("17:00:00")),
                    ("matchStatus", s("Selling")),
                ]),
                obj(vec![("homeTeamAllName", s("法国")), ("awayTeamAllName", s("德国"))]),
            ]),
        )]),
    )]);
    let mut rows = Vec::new();
    collect_matches(&feed, &mut rows);
    assert_eq!(rows.len(), 2);
    assert_eq!(rows[0].id, "2040337");
    assert_eq!(rows[0].match_num, "周一001");
    assert_eq!(rows[0].time, "2026-06-29 17:00:00");
    assert_eq!(rows[0].status, "Selling");
    assert_eq!(rows[1].id, "法国-德国");
    assert_eq!(rows[1].time, "");
}

#[test]
fn text_field_takes_first_present_key() {
    let pairs = vec![("b".to_string(), JsonValue::Null), ("a".to_string(), s("x"))];
    assert_eq!(text_field(&pairs, &["a", "b"]), "x");
    assert_eq!(text_field(&pairs, &["b", "a"]), "");
    assert_eq!(text_field(&pairs, &["c"]), "");
}

#[test]
fn counts_of_injury_and_player_feeds() {
    let injuries = obj(vec![(
        "value",
        obj(vec![(
            "leagueList",
            JsonValue::Array(vec![obj(vec![(
                "matchList",
                JsonValue::Array(vec![
                    obj(vec![("injuriesAndSuspensionsList", JsonValue::Array(vec![JsonValue::Null, JsonValue::Null]))]),
                    obj(vec![("injuriesAndSuspensionsList", JsonValue::Array(vec![JsonValue::Bool(true)]))]),
                ]),
            )])]),
        )]),
    )]);
    assert_eq!(injury_count(&injuries), 3);
    assert_eq!(injury_count(&JsonValue::Null), 0);
    let players = obj(vec![("players", JsonValue::Array(vec![JsonValue::Null]))]);
    assert_eq!(player_status_count(&players), 1);
    assert_eq!(player_status_count(&JsonValue::Array(Vec::new())), 0);
}

#[test]
fn training_interpreter_and_directory() {
    assert_eq!(training_python("/t/.venv/Scripts/python.exe", true), "/t/.venv/Scripts/python.exe");
    assert_eq!(training_python("/t/.venv/Scripts/python.exe", false), "python");
    let candidates = vec![("/a/training".to_string(), false), ("/a/desktop-app/training".to_string(), true)];
    assert_eq!(locate_training_dir(&candidates), Ok("/a/desktop-app/training".to_string()));
    assert_eq!(locate_training_dir(&[]), Err("未找到 desktop-app/training 目录".to_string()));
}

fn fixture(id: &str, time: &str, home: &str, away: &str) -> MatchRow {
    MatchRow {
        id: id.to_string(),
        match_num: String::new(),
        league: "World Cup".to_string(),
        time: time.to_string(),
        home: home.to_string(),
        away: away.to_string(),
        status: String::new(),
    }
}

#[test]
fn fixtures_are_sorted_by_time_and_repeats_dropped() {
    let rows = vec![
        fixture("2", "2026-06-13 18:00", "Spain", "Japan"),
        fixture("1", "2026-06-12 20:00", "Brazil", "Mexico"),
        fixture("fdo-9", "2026-06-13 18:00", "Spain", "Japan"),
        fixture("3", "2026-06-12 20:00", "Germany", "Chile"),
        fixture("1", "2026-06-12 21:00", "Brazil", "Mexico"),
    ];
    let out = ordered_distinct_fixtures(&rows);
    let ids: Vec<&str> = out.iter().map(|r| r.id.as_str()).collect();
    assert_eq!(ids, vec!["1", "3", "1", "2"]);
    assert_eq!(out[3].time, "2026-06-13 18:00");
}

#[test]
fn fixtures_with_the_same_id_and_teams_collapse() {
    let rows = vec![
        fixture("7", "2026-06-20 18:00", "France", "Peru"),
        fixture("7", "2026-06-20 18:00", "France", "Peru"),
    ];
    let out = ordered_distinct_fixtures(&rows);
    assert_eq!(out.len(), 1);
    assert!(ordered_distinct_fixtures(&Vec::new()).is_empty());
}
