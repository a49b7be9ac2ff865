use worldcup_odds::feeds::{
    merge_football_data_results, sync_football_data_org_to_match_results, JsonNumber, JsonValue,
};
use worldcup_odds::markets::{market_from_upset_trigger, paper_consecutive_losses};
use worldcup_odds::settlement::MatchResult;
use worldcup_odds::snapshot::{
    json_row_for, latest_snapshot_note, preferred_snapshots_by_match, snapshot_final_decision_for,
    snapshot_reason_text_for, SnapshotRef,
};

fn s(text: &str) -> JsonValue {
    JsonValue::Str(text.to_string())
}

fn obj(pairs: Vec<(&str, JsonValue)>) -> JsonValue {
    JsonValue::Object(pairs.into_iter().map(|(k, v)| (k.to_string(), v)).collect())
}

fn int_value(n: i64) -> JsonValue {
    JsonValue::Number(JsonNumber { text: n.to_string(), integer: Some(n) })
}

fn text_of<'a>(row: &'a JsonValue, key: &str) -> Option<&'a str> {
    match row {
        JsonValue::Object(pairs) => pairs.iter().find(|(k, _)| k == key).and_then(|(_, v)| match v {
            JsonValue::Str(t) => Some(t.as_str()),
            _ => None,
        }),
        _ => None,
    }
}

fn fdo_match(home: &str, away: &str, score: Option<(i64, i64)>, stage: &str, status: &str) -> JsonValue {
    let mut pairs = vec![
        ("homeTeam", obj(vec![("name", s(home))])),
        ("awayTeam", obj(vec![("name", s(away))])),
        ("stage", s(stage)),
        ("status", s(status)),
    ];
    if let Some((h, a)) = score {
        pairs.push(("score", obj(vec![("fullTime", obj(vec![("home", int_value(h)), ("away", int_value(a))]))])));
    }
    obj(pairs)
}

fn cached(home: &str, away: &str, score: &str) -> MatchResult {
    MatchResult {
        home: home.to_string(),
        away: away.to_string(),
        score: score.to_string(),
        half_score: String::new(),
        stage: "LAST_32".to_string(),
        status: "FINISHED".to_string(),
    }
}

#[test]
fn football_data_org_bridge_updates_match_results_cache() {
    let mut rows = vec![cached("巴西", "日本", "2:1")];
    let feed = obj(vec![(
        "matches",
        JsonValue::Array(vec![fdo_match("Netherlands", "Morocco", Some((1, 0)), "LAST_32", "FINISHED")]),
    )]);
    let (added, updated) = sync_football_data_org_to_match_results(&mut rows, &feed);
    assert_eq!(added, 1);
    assert_eq!(updated, 0);
    assert!(rows.iter().any(|item| item.home == "荷兰" && item.away == "摩洛哥" && item.score == "1:0"));
}

#[test]
fn football_data_org_sync_refreshes_known_fixture() {
    let mut rows = vec![cached("巴西", "日本", "")];
    rows[0].half_score = "1:0".to_string();
    let feed = obj(vec![(
        "matches",
        JsonValue::Array(vec![
            fdo_match("Brazil", "Japan", Some((2, 1)), "", "FINISHED"),
            fdo_match("Spain", "Morocco", None, "", ""),
            fdo_match("Spain", "", Some((1, 1)), "", "FINISHED"),
        ]),
    )]);
    let (added, updated) = sync_football_data_org_to_match_results(&mut rows, &feed);
    assert_eq!((added, updated), (0, 1));
    assert_eq!(rows.len(), 1);
    assert_eq!(rows[0].score, "2:1");
    assert_eq!(rows[0].half_score, "1:0");
    assert_eq!(rows[0].stage, "LAST_32");
    let mut none = vec![cached("巴西", "日本", "2:1")];
    assert_eq!(sync_football_data_org_to_match_results(&mut none, &JsonValue::Null), (0, 0));
}

#[test]
fn merged_results_add_only_unrecorded_finals() {
    let rows = vec![obj(vec![("home", s("巴西")), ("away", s("日本")), ("score", s("2:1"))])];
    let feed = obj(vec![(
        "matches",
        JsonValue::Array(vec![
            fdo_match("Brazil", "Japan", Some((2, 1)), "LAST_32", "FINISHED"),
            fdo_match("Netherlands", "Morocco", Some((1, 0)), "LAST_32", "FINISHED"),
            fdo_match("Netherlands", "Morocco", Some((1, 0)), "LAST_32", "FINISHED"),
            fdo_match("France", "Germany", None, "LAST_32", "TIMED"),
        ]),
    )]);
    let merged = merge_football_data_results(rows, Some(&feed)).unwrap();
    assert_eq!(merged.len(), 2);
    assert_eq!(text_of(&merged[1], "home"), Some("荷兰"));
    assert_eq!(text_of(&merged[1], "away"), Some("摩洛哥"));
    assert_eq!(text_of(&merged[1], "score"), Some("1:0"));
    assert_eq!(text_of(&merged[1], "half_score"), Some(""));
    assert_eq!(text_of(&merged[1], "stage"), Some("LAST_32"));
    assert_eq!(text_of(&merged[1], "status"), Some("FINISHED"));
    // Merging the same feed again adds nothing.
    let again = merge_football_data_results(merged, Some(&feed)).unwrap();
    assert_eq!(again.len(), 2);
    assert!(merge_football_data_results(Vec::new(), None).is_none());
}

#[test]
fn losing_streak_counts_latest_misses() {
    assert_eq!(paper_consecutive_losses(&[0, 0, 1, 0]), 2);
    assert_eq!(paper_consecutive_losses(&[0, 0, -1, 0]), 2);
    assert_eq!(paper_consecutive_losses(&[1, 0, 0]), 0);
    assert_eq!(paper_consecutive_losses(&[]), 0);
    assert_eq!(paper_consecutive_losses(&[0; 8]), 8);
}

#[test]
fn upset_trigger_market_falls_back_to_play_type() {
    let named = obj(vec![("market", s("TTG 总进球"))]);
    assert_eq!(market_from_upset_trigger(&named, "rqspf"), "TTG 总进球");
    let unnamed = obj(vec![("market", JsonValue::Null)]);
    assert_eq!(market_from_upset_trigger(&unnamed, "rqspf"), "HHAD 让球胜平负");
    assert_eq!(market_from_upset_trigger(&unnamed, "total_goals"), "TTG 总进球");
    assert_eq!(market_from_upset_trigger(&unnamed, "correct_score"), "CRS 比分");
    assert_eq!(market_from_upset_trigger(&unnamed, "half_fulltime"), "HAFU 半全场");
    assert_eq!(market_from_upset_trigger(&JsonValue::Null, "spf"), "HAD 胜平负");
}

fn snapshot(id: i64, match_id: &str, time: &str, is_final: bool) -> SnapshotRef {
    SnapshotRef {
        id,
        match_id: match_id.to_string(),
        snapshot_time: time.to_string(),
        is_final_pre_match: is_final,
    }
}

#[test]
fn preferred_snapshot_per_match_prefers_final() {
    let snapshots = vec![
        snapshot(10, "m3", "2026-06-29T12:00:00Z", false),
        snapshot(11, "m3", "2026-06-29T10:00:00Z", true),
        snapshot(12, "m1", "2026-06-29T09:00:00Z", false),
        snapshot(13, "m1", "2026-06-29T11:00:00Z", false),
        snapshot(14, "m2", "2026-06-29T11:00:00Z", true),
        snapshot(15, "m2", "2026-06-29T11:00:00Z", true),
    ];
    let preferred = preferred_snapshots_by_match(&snapshots);
    let ids: Vec<(String, i64)> = preferred.iter().map(|s| (s.match_id.clone(), s.id)).collect();
    assert_eq!(
        ids,
        vec![("m1".to_string(), 13), ("m2".to_string(), 14), ("m3".to_string(), 11)]
    );
    assert!(preferred_snapshots_by_match(&[]).is_empty());
}

#[test]
fn snapshot_decision_rows_are_read_per_pick() {
    let reasons = JsonValue::Array(vec![
        obj(vec![("market", s("HAD 胜平负")), ("pick", s("主胜")), ("final_decision", s("recommend")), ("reason", s("final freeze"))]),
        obj(vec![("market", s("HAD 胜平负")), ("pick", s("平局")), ("reason", s("平局支撑")), ("risk", s("")), ("support", s("赔率稳定"))]),
    ]);
    assert!(json_row_for(&reasons, "HAD 胜平负", "客胜").is_none());
    assert!(json_row_for(&reasons, "HAD 胜平负", "平局").is_some());
    assert_eq!(snapshot_final_decision_for(&reasons, "watch", "HAD 胜平负", "主胜"), "recommend");
    assert_eq!(snapshot_final_decision_for(&reasons, "watch", "HAD 胜平负", "平局"), "watch");
    assert_eq!(snapshot_final_decision_for(&JsonValue::Null, "watch", "HAD 胜平负", "主胜"), "watch");
    assert_eq!(snapshot_reason_text_for(&reasons, "HAD 胜平负", "主胜"), "final freeze");
    assert_eq!(snapshot_reason_text_for(&reasons, "HAD 胜平负", "平局"), "平局支撑；赔率稳定");
    assert_eq!(snapshot_reason_text_for(&reasons, "HAD 胜平负", "客胜"), "");
}

#[test]
fn snapshot_note_names_the_preferred_snapshot() {
    let snapshots = vec![
        snapshot(10, "m3", "2026-06-29T12:00:00Z", false),
        snapshot(11, "m3", "2026-06-29T10:00:00Z", true),
        snapshot(12, "m1", "2026-06-29T09:00:00Z", false),
        snapshot(13, "m1", "2026-06-29T11:00:00Z", false),
    ];
    for preferred in preferred_snapshots_by_match(&snapshots) {
        let (note, id) = latest_snapshot_note(&snapshots, &preferred.match_id);
        assert_eq!(id, Some(preferred.id));
        assert_eq!(note == "使用 final snapshot", preferred.is_final_pre_match);
    }
    assert_eq!(latest_snapshot_note(&snapshots, "m9").1, None);
}
