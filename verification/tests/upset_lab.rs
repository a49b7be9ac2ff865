use worldcup_odds::feeds::{JsonNumber, JsonValue};
use worldcup_odds::upset_lab::listing_order;
use worldcup_odds::upset_lab::{
    cap_candidates_per_pool, count_equal, default_upset_lab_scan_funnel, pool_counts,
    tally_upset_scan, upset_decision_rank, upset_lab_guard, upset_lab_guard_for,
    upset_lab_settings_with_defaults, upset_scan_empty_reason, UpsetCandidateKey, UpsetListFilter,
};

fn key(match_time: &str, created_at: &str, pool: &str, decision: &str) -> UpsetCandidateKey {
    UpsetCandidateKey {
        match_time: match_time.to_string(),
        created_at: created_at.to_string(),
        play_pool: pool.to_string(),
        final_lab_decision: decision.to_string(),
    }
}

fn filter(date: Option<&str>, pool: Option<&str>, decision: Option<&str>) -> UpsetListFilter {
    UpsetListFilter {
        date: date.map(str::to_string),
        play_pool: pool.map(str::to_string),
        final_lab_decision: decision.map(str::to_string),
    }
}

#[test]
fn lab_decisions_rank_tiny_stakes_first() {
    assert_eq!(upset_decision_rank("tiny_stake_candidate"), 0);
    assert_eq!(upset_decision_rank("paper_candidate"), 1);
    assert_eq!(upset_decision_rank("scan_only"), 2);
    assert_eq!(upset_decision_rank("insufficient_data"), 3);
    assert_eq!(upset_decision_rank("forbidden"), 4);
    assert_eq!(upset_decision_rank("no_odds_scan"), 5);
    assert_eq!(upset_decision_rank(""), 5);
}

#[test]
fn listing_filters_by_date_pool_and_decision() {
    let k = key("2026-06-14 20:00", "2026-06-13T08:00:00Z", "cold_draw_pool", "scan_only");
    assert!(filter(None, None, None).admits(&k));
    assert!(filter(Some("  "), Some(""), Some(" ")).admits(&k));
    assert!(filter(Some("2026-06-14"), None, None).admits(&k));
    assert!(filter(Some("2026-06-13"), None, None).admits(&k));
    assert!(!filter(Some("2026-06-15"), None, None).admits(&k));
    assert!(filter(None, Some("cold_draw_pool"), Some("scan_only")).admits(&k));
    assert!(!filter(None, Some("handicap_upset_pool"), None).admits(&k));
    assert!(!filter(None, None, Some("forbidden")).admits(&k));
}

#[test]
fn each_pool_keeps_its_first_candidates_up_to_its_limit() {
    let mut pools: Vec<String> = Vec::new();
    for _ in 0..7 {
        pools.push("cold_draw_pool".to_string());
    }
    for _ in 0..12 {
        pools.push("high_odds_score_pool".to_string());
    }
    pools.push("cold_draw_pool".to_string());
    let keep = cap_candidates_per_pool(&pools);
    assert_eq!(keep.len(), pools.len());
    assert_eq!(&keep[0..7], &[true, true, true, true, true, false, false]);
    assert_eq!(keep[7..19].iter().filter(|k| **k).count(), 10);
    assert!(keep[16] && !keep[17] && !keep[18]);
    assert!(!keep[19]);
    assert!(cap_candidates_per_pool(&Vec::new()).is_empty());
}

#[test]
fn scan_tally_counts_pools_and_decisions() {
    let rows: Vec<(String, String)> = vec![
        ("cold_draw_pool", "scan_only"),
        ("cold_draw_pool", "forbidden"),
        ("handicap_upset_pool", "paper_candidate"),
        ("high_odds_score_pool", "tiny_stake_candidate"),
        ("score_3_3_pool", "insufficient_data"),
        ("score_3_3_pool", "forbidden"),
    ]
    .into_iter()
    .map(|(p, d)| (p.to_string(), d.to_string()))
    .collect();
    let t = tally_upset_scan(&rows);
    assert_eq!(t.cold_draw_scan, 1);
    assert_eq!(t.handicap_scan, 1);
    assert_eq!(t.score_scan, 2);
    assert_eq!(t.forbidden, 2);
    assert_eq!(t.data_insufficient, 1);
    assert_eq!(t.scan_only, 1);
    assert_eq!(t.paper_candidate, 1);
    assert_eq!(t.tiny_stake, 1);
}

#[test]
fn empty_scan_reasons() {
    assert_eq!(upset_scan_empty_reason(0, 0, 3), "all_filtered_by_hard_ban");
    assert_eq!(upset_scan_empty_reason(0, 0, 0), "no_odds_and_no_no_odds_scan_generated");
    assert_eq!(upset_scan_empty_reason(2, 0, 3), "");
    assert_eq!(upset_scan_empty_reason(0, 1, 0), "");
}

fn member<'a>(value: &'a JsonValue, key: &str) -> Option<&'a JsonValue> {
    match value {
        JsonValue::Object(pairs) => pairs.iter().find(|(k, _)| k == key).map(|(_, v)| v),
        _ => None,
    }
}

fn integer_value(n: i64) -> JsonValue {
    JsonValue::Number(JsonNumber { text: n.to_string(), integer: Some(n) })
}

#[test]
fn upset_lab_top_n_limits_each_pool() {
    let mut pools: Vec<String> = Vec::new();
    for _ in 0..12 {
        pools.push("cold_draw_pool".to_string());
    }
    for _ in 0..12 {
        pools.push("high_odds_score_pool".to_string());
    }
    let keep = cap_candidates_per_pool(&pools);
    let kept = |pool: &str| pools.iter().zip(&keep).filter(|(p, k)| p.as_str() == pool && **k).count();
    assert_eq!(kept("cold_draw_pool"), 5);
    assert_eq!(kept("high_odds_score_pool"), 10);
}

#[test]
fn upset_lab_default_funnel_exposes_debug_empty_reason() {
    let funnel = default_upset_lab_scan_funnel();
    for key in [
        "today_matches_count",
        "pre_match_snapshot_count",
        "odds_missing_count",
        "generated_no_odds_scan_count",
        "filtered_by_internal_error_count",
        "empty_reason",
    ] {
        assert!(member(&funnel, key).is_some(), "missing funnel key {key}");
    }
}

#[test]
fn default_funnel_counts_nothing() {
    let funnel = default_upset_lab_scan_funnel();
    let JsonValue::Object(pairs) = &funnel else { panic!("funnel is an object") };
    assert_eq!(pairs.len(), 29);
    for (key, value) in &pairs[..28] {
        assert!(key.ends_with("_count"));
        assert!(matches!(value, JsonValue::Number(n) if n.text == "0" && n.integer == Some(0)));
    }
    assert!(matches!(member(&funnel, "empty_reason"), Some(JsonValue::Str(s)) if s.is_empty()));
}

#[test]
fn decisions_and_pools_are_counted() {
    let decisions: Vec<String> =
        ["scan_only", "forbidden", "scan_only", "paper_candidate"].iter().map(|s| s.to_string()).collect();
    assert_eq!(count_equal(&decisions, "scan_only"), 2);
    assert_eq!(count_equal(&decisions, "tiny_stake_candidate"), 0);
    let pools: Vec<String> = ["cold_draw_pool", "score_3_3_pool", "cold_draw_pool", "unknown"]
        .iter()
        .map(|s| s.to_string())
        .collect();
    let counts = pool_counts(&pools);
    assert_eq!(
        counts,
        vec![
            ("cold_draw_pool".to_string(), 2),
            ("score_3_3_pool".to_string(), 1),
            ("unknown".to_string(), 1)
        ]
    );
    assert!(pool_counts(&Vec::new()).is_empty());
}

#[test]
fn losing_streak_pauses_then_limits_to_paper() {
    let calm = upset_lab_guard(2, 5, 3);
    assert!(!calm.pause_triggered && !calm.paper_only_triggered);
    assert_eq!(calm.warning, "冷门实验室为高风险玩法，建议极小仓位或纸面观察。");
    assert_eq!(upset_lab_guard(0, 5, 0).warning, "今日无符合条件的冷门候选。");
    let paused = upset_lab_guard(5, 5, 3);
    assert!(paused.pause_triggered && !paused.paper_only_triggered);
    assert_eq!(paused.warning, "连续亏损达到暂停阈值，建议暂停冷门实验室。");
    let paper = upset_lab_guard(8, 10, 3);
    assert!(!paper.pause_triggered && paper.paper_only_triggered);
    assert_eq!(paper.warning, "连续亏损达到 8 单，冷门实验室只允许纸面观察。");
}

#[test]
fn guard_reads_the_stop_setting() {
    let settings = JsonValue::Object(vec![(
        "upset_lab_stop_after_consecutive_losses".to_string(),
        integer_value(3),
    )]);
    assert!(upset_lab_guard_for(&settings, 3, 1).pause_triggered);
    assert!(!upset_lab_guard_for(&JsonValue::Null, 3, 1).pause_triggered);
    assert!(upset_lab_guard_for(&JsonValue::Null, 5, 1).pause_triggered);
}

#[test]
fn settings_get_defaults_for_what_they_lack() {
    let all = upset_lab_settings_with_defaults(None);
    assert!(matches!(member(&all, "upset_lab_enabled"), Some(JsonValue::Bool(true))));
    assert!(matches!(member(&all, "upset_lab_default_mode"), Some(JsonValue::Str(s)) if s == "paper_only"));
    assert!(matches!(member(&all, "upset_lab_max_daily_budget_pct"), Some(JsonValue::Number(n)) if n.text == "0.5"));
    assert!(matches!(member(&all, "upset_lab_max_daily_budget_ratio"), Some(JsonValue::Number(n)) if n.text == "0.005"));
    assert!(matches!(member(&all, "upset_lab_stop_after_consecutive_losses"), Some(JsonValue::Number(n)) if n.integer == Some(5)));
    let stored = JsonValue::Object(vec![
        ("upset_lab_enabled".to_string(), JsonValue::Bool(false)),
        ("note".to_string(), JsonValue::Str("kept".to_string())),
    ]);
    let merged = upset_lab_settings_with_defaults(Some(stored));
    let JsonValue::Object(pairs) = &merged else { panic!("settings are an object") };
    assert_eq!(pairs.len(), 6);
    assert!(matches!(member(&merged, "upset_lab_enabled"), Some(JsonValue::Bool(false))));
    assert!(matches!(member(&merged, "note"), Some(JsonValue::Str(s)) if s == "kept"));
    let from_null = upset_lab_settings_with_defaults(Some(JsonValue::Null));
    let JsonValue::Object(pairs) = &from_null else { panic!("settings are an object") };
    assert_eq!(pairs.len(), 5);
}

#[test]
fn listing_orders_by_pool_then_rank_keeping_ties() {
    let keys: Vec<(String, u8)> = vec![
        ("score_3_3_pool".to_string(), 2),
        ("cold_draw_pool".to_string(), 4),
        ("cold_draw_pool".to_string(), 0),
        ("score_3_3_pool".to_string(), 2),
        ("cold_draw_pool".to_string(), 4),
    ];
    assert_eq!(listing_order(&keys), vec![2, 1, 4, 0, 3]);
    assert!(listing_order(&Vec::new()).is_empty());
}
