use worldcup_odds::settlement::parse_score;
use worldcup_odds::fixtures::{
    infer_prediction_market_from_candidates, light_scan_candidate_specs, match_teams_for_id,
    recommendation_matches_target, selection_matches_match_row, MatchRow, PredictionTarget,
    RecommendationTarget, SelectionTarget,
};
use worldcup_odds::markets::{
    add_audit_issue, audit_severity, is_knockout_stage, is_no_odds_decision,
    odds_movement_learning_tag, review_play_type, score_pick_parts, ttg_pick_total,
    upset_lab_hard_ban, upset_lab_play_type, upset_pool_limit,
};

#[test]
fn odds_movement_learning_tags_match_direction_and_result() {
    assert_eq!(odds_movement_learning_tag("降赔", true), "market_support_hit");
    assert_eq!(odds_movement_learning_tag("降赔", false), "market_heat_mislead");
    assert_eq!(odds_movement_learning_tag("升赔", false), "market_risk_warning_effective");
    assert_eq!(odds_movement_learning_tag("升赔", true), "market_reverse_hit");
}

#[test]
fn unknown_direction_is_neutral() {
    assert_eq!(odds_movement_learning_tag("持平", true), "market_neutral");
}

#[test]
fn old_handicap_review_records_can_infer_line_from_recommendations() {
    let record = PredictionTarget {
        match_label: "德国 vs 巴拉圭".to_string(),
        market: "预测中心-HHAD让球胜平负".to_string(),
        pick: "让胜".to_string(),
    };
    let candidates = vec![
        ("德国 vs 巴拉圭".to_string(), "HHAD 让球胜平负 -1".to_string(), "让胜".to_string()),
        ("巴西 vs 日本".to_string(), "HHAD 让球胜平负 -1".to_string(), "让胜".to_string()),
    ];
    assert_eq!(infer_prediction_market_from_candidates(&record, &candidates), "HHAD 让球胜平负 -1");
}

#[test]
fn markets_with_a_line_or_no_handicap_stay_as_stored() {
    let candidates = vec![("德国 vs 巴拉圭".to_string(), "HHAD 让球胜平负 -1".to_string(), "让胜".to_string())];
    let with_line = PredictionTarget {
        match_label: "德国 vs 巴拉圭".to_string(),
        market: "HHAD 让球胜平负 +2".to_string(),
        pick: "让胜".to_string(),
    };
    assert_eq!(infer_prediction_market_from_candidates(&with_line, &candidates), "HHAD 让球胜平负 +2");
    let plain = PredictionTarget {
        match_label: "德国 vs 巴拉圭".to_string(),
        market: "HAD 胜平负".to_string(),
        pick: "主胜".to_string(),
    };
    assert_eq!(infer_prediction_market_from_candidates(&plain, &candidates), "HAD 胜平负");
    let other = PredictionTarget {
        match_label: "巴西 vs 日本".to_string(),
        market: "HHAD 让球".to_string(),
        pick: "让胜".to_string(),
    };
    assert_eq!(infer_prediction_market_from_candidates(&other, &candidates), "HHAD 让球");
}

#[test]
fn snapshot_creation_matches_external_id_by_teams() {
    let item = RecommendationTarget {
        match_id: "2040337".to_string(),
        match_label: "巴西 vs 日本".to_string(),
    };
    let teams = ("巴西".to_string(), "日本".to_string());
    assert!(recommendation_matches_target(&item, "LAST_32", Some(&teams)));
    assert!(!recommendation_matches_target(
        &item,
        "LAST_32",
        Some(&("德国".to_string(), "日本".to_string()))
    ));
}

#[test]
fn recommendation_matches_by_id_without_teams() {
    let item = RecommendationTarget { match_id: "m1".to_string(), match_label: "巴西".to_string() };
    assert!(recommendation_matches_target(&item, "m1", None));
    assert!(!recommendation_matches_target(&item, "m2", None));
}

#[test]
fn play_types_and_classifiers() {
    assert_eq!(review_play_type("HHAD 让球 -1"), "HHAD");
    assert_eq!(review_play_type("体彩TTG总进球"), "TTG");
    assert_eq!(review_play_type("预测中心-比分参考"), "比分");
    assert_eq!(review_play_type("胜平负"), "HAD");
    assert_eq!(upset_lab_play_type("HAFU"), "half_fulltime");
    assert_eq!(upset_lab_play_type("弱队先进球剧本"), "script");
    assert_eq!(upset_lab_play_type("让球胜平负"), "rqspf");
    assert_eq!(upset_lab_play_type("HAD 胜平负"), "spf");
    assert!(is_knockout_stage("LAST_32"));
    assert!(is_knockout_stage("Semi-Final"));
    assert!(is_knockout_stage("1/16决赛"));
    assert!(!is_knockout_stage("小组赛"));
    assert!(upset_lab_hard_ban("HARD_BAN", ""));
    assert!(upset_lab_hard_ban("observe_only", "赔率异常 禁买"));
    assert!(!upset_lab_hard_ban("observe_only", ""));
    assert!(is_no_odds_decision("no_odds_scan"));
    assert!(!is_no_odds_decision("scan_only"));
    assert_eq!(upset_pool_limit("high_odds_score_pool"), 10);
    assert_eq!(upset_pool_limit("forbidden_upset_pool"), 10);
    assert_eq!(upset_pool_limit("cold_draw_pool"), 5);
}

#[test]
fn audit_issues_carry_their_severity() {
    assert_eq!(audit_severity("paper_trade_invalid"), "critical");
    assert_eq!(audit_severity("missing_odds"), "warning");
    assert_eq!(audit_severity("something_else"), "info");
    let mut issues = Vec::new();
    add_audit_issue(&mut issues, Some(7), "m1", "after_kickoff_snapshot", "late");
    assert_eq!(issues.len(), 1);
    assert_eq!(issues[0].0, Some(7));
    assert_eq!(issues[0].3, "critical");
    assert_eq!(issues[0].4, "late");
}

#[test]
fn picks_read_as_numbers() {
    assert_eq!(score_pick_parts("2-1"), Some((2, 1)));
    assert_eq!(score_pick_parts(" 3 : 3 "), Some((3, 3)));
    assert_eq!(score_pick_parts("胜其他"), None);
    assert_eq!(ttg_pick_total("3球"), Some(3));
    assert_eq!(ttg_pick_total("7+球"), Some(7));
    assert_eq!(ttg_pick_total("小球"), None);
}

#[test]
fn fixtures_are_found_by_id_and_teams() {
    let rows = vec![MatchRow {
        id: "m1".to_string(),
        match_num: "周一001".to_string(),
        league: "世界杯".to_string(),
        time: "2026-06-29 17:00".to_string(),
        home: "巴西".to_string(),
        away: "日本".to_string(),
        status: String::new(),
    }];
    assert_eq!(match_teams_for_id(&rows, "m1"), Some(("巴西".to_string(), "日本".to_string())));
    assert_eq!(match_teams_for_id(&rows, "m2"), None);
    assert_eq!(light_scan_candidate_specs(&rows[0]).len(), 9);
    let selection = SelectionTarget {
        match_id: "other".to_string(),
        match_num: String::new(),
        home: "Brazil".to_string(),
        away: "Japan".to_string(),
    };
    assert!(selection_matches_match_row(&selection, &rows[0]));
    let by_num = SelectionTarget {
        match_id: "x".to_string(),
        match_num: "周一001".to_string(),
        home: "A".to_string(),
        away: "B".to_string(),
    };
    assert!(selection_matches_match_row(&by_num, &rows[0]));
}

#[test]
fn audit_detects_paper_trade_invalid_and_live_sample_warning_shape() {
    assert_eq!(audit_severity("paper_trade_invalid"), "critical");
    let summary: serde_json::Value = serde_json::from_str(
        r#"{"sample_count": 12, "warning": "真实赛前纸面交易样本不足，暂不能评价策略。"}"#,
    )
    .unwrap();
    assert!(summary.get("sample_count").and_then(serde_json::Value::as_i64).unwrap() < 30);
    assert!(summary
        .get("warning")
        .and_then(serde_json::Value::as_str)
        .unwrap()
        .contains("样本不足"));
}

#[test]
fn dashed_picks_read_as_scores() {
    for pick in ["2-1", "3:3", " 1 - 0 ", "平局", "2-1-0", ""] {
        assert_eq!(score_pick_parts(pick), parse_score(&pick.replace('-', ":")));
    }
}
