use worldcup_odds::autosettle::{
    first_matching_result, plan_prediction_settlement, plan_prediction_settlement_checked,
    predictions_admitted, settle_recommendations_checked,
    recommendations_admitted, settle_admitted, settle_recommendations_with_results,
    settlement_message, PredictionToSettle, RecommendationToSettle,
};
use worldcup_odds::settlement::MatchResult;

fn result(home: &str, away: &str, score: &str) -> MatchResult {
    MatchResult {
        home: home.to_string(),
        away: away.to_string(),
        score: score.to_string(),
        half_score: String::new(),
        stage: "1/16决赛".to_string(),
        status: "结束".to_string(),
    }
}

fn prediction(id: Option<i64>, label: &str, market: &str, pick: &str, stored: Option<&str>) -> PredictionToSettle {
    PredictionToSettle {
        id,
        match_label: label.to_string(),
        market: market.to_string(),
        pick: pick.to_string(),
        actual_result: stored.map(|s| s.to_string()),
    }
}

#[test]
fn first_result_of_the_fixture_is_used() {
    let results = vec![result("南非", "加拿大", "0:1"), result("巴西", "日本", "2:1")];
    assert_eq!(first_matching_result(&results, "巴西 vs 日本"), Some(1));
    assert_eq!(first_matching_result(&results, "Brazil vs Japan"), None);
    let english = vec![result("South Africa", "Canada", "0:1"), result("Brazil", "Japan", "2:1")];
    assert_eq!(first_matching_result(&english, "巴西 vs 日本"), Some(1));
    assert_eq!(first_matching_result(&results, "德国 vs 日本"), None);
}

#[test]
fn plan_counts_each_kind_of_prediction() {
    let results = vec![result("巴西", "日本", "2:1")];
    let records = vec![
        prediction(Some(1), "巴西 vs 日本", "预测中心-HAD胜平负", "主胜", None),
        prediction(Some(2), "巴西 vs 日本", "预测中心-HAD胜平负", "客胜", Some("命中")),
        prediction(Some(3), "巴西 vs 日本", "预测中心-HAD胜平负", "主胜", Some("命中")),
        prediction(Some(4), "德国 vs 日本", "预测中心-HAD胜平负", "主胜", None),
        prediction(Some(5), "巴西 vs 日本", "HAFU 半全场", "胜胜", None),
        prediction(None, "巴西 vs 日本", "预测中心-HAD胜平负", "主胜", None),
    ];
    let plan = plan_prediction_settlement(&records, &results, &[]);
    assert_eq!(plan.settled, 1);
    assert_eq!(plan.already_settled, 2);
    assert_eq!(plan.corrected, 1);
    assert_eq!(plan.unmatched_results, 1);
    assert_eq!(plan.unsupported_markets, 1);
    assert_eq!(plan.updates.len(), 2);
    assert_eq!((plan.updates[0].index, plan.updates[0].id, plan.updates[0].hit), (0, 1, true));
    assert_eq!(plan.updates[0].result_text, "命中");
    assert_eq!((plan.updates[1].index, plan.updates[1].id, plan.updates[1].hit), (1, 2, false));
    assert_eq!(plan.updates[1].result_text, "未中");
    assert_eq!(
        settlement_message(&plan),
        "自动结算 1 条；修正历史结算 1 条；未匹配赛果 1 条；玩法暂不支持 1 条"
    );
}

#[test]
fn settling_twice_changes_nothing() {
    let results = vec![result("巴西", "日本", "2:1")];
    let mut records = vec![
        prediction(Some(1), "巴西 vs 日本", "预测中心-HAD胜平负", "主胜", None),
        prediction(Some(2), "巴西 vs 日本", "预测中心-比分参考", "1:1", Some(" ")),
    ];
    let plan = plan_prediction_settlement(&records, &results, &[]);
    assert_eq!(plan.updates.len(), 2);
    for update in &plan.updates {
        records[update.index].actual_result = Some(update.result_text.clone());
    }
    let again = plan_prediction_settlement(&records, &results, &[]);
    assert!(again.updates.is_empty());
    assert_eq!(again.already_settled, 2);
}

#[test]
fn old_handicap_predictions_settle_with_the_inferred_line() {
    let results = vec![result("德国", "巴拉圭", "1:1")];
    let records = vec![prediction(Some(9), "德国 vs 巴拉圭", "预测中心-HHAD让球胜平负", "让负", None)];
    let candidates = vec![(
        "德国 vs 巴拉圭".to_string(),
        "HHAD 让球胜平负 -1".to_string(),
        "让胜".to_string(),
    )];
    let plan = plan_prediction_settlement(&records, &results, &candidates);
    assert_eq!(plan.settled, 1);
    assert!(plan.updates[0].hit);
    let without = plan_prediction_settlement(&records, &results, &[]);
    assert_eq!(without.unsupported_markets, 1);
}

#[test]
fn recommendations_settle_against_their_results() {
    let results = vec![result("南非", "加拿大", "0:1"), result("巴西", "日本", "2:1")];
    let rows = vec![
        RecommendationToSettle {
            recommendation_id: 11,
            match_label: "巴西 vs 日本".to_string(),
            market: "体彩TTG总进球".to_string(),
            pick: "3球".to_string(),
        },
        RecommendationToSettle {
            recommendation_id: 12,
            match_label: "法国 vs 德国".to_string(),
            market: "HAD".to_string(),
            pick: "主胜".to_string(),
        },
        RecommendationToSettle {
            recommendation_id: 13,
            match_label: "南非 vs 加拿大".to_string(),
            market: "CRS 比分".to_string(),
            pick: "1:0".to_string(),
        },
    ];
    let settled = settle_recommendations_with_results(&rows, &results);
    assert_eq!(settled.len(), 2);
    assert_eq!((settled[0].recommendation_id, settled[0].result_index, settled[0].hit), (11, 1, true));
    assert_eq!(settled[0].actual_outcome, "3球");
    assert_eq!((settled[1].recommendation_id, settled[1].result_index, settled[1].hit), (13, 0, false));
    assert_eq!(settled[1].actual_outcome, "0:1");
}

#[test]
fn only_total_goals_picks_need_the_goals_to_add_up() {
    let huge = "4294967295:1";
    assert!(!settle_admitted("TTG 总进球", huge));
    assert!(settle_admitted("TTG 总进球", "3:1"));
    assert!(settle_admitted("HAD 胜平负", huge));
    assert!(settle_admitted("CRS 比分", huge));
    assert!(settle_admitted("TTG 总进球", "not a score"));
    let results = vec![result("巴西", "日本", huge)];
    let had = vec![prediction(Some(1), "巴西 vs 日本", "HAD 胜平负", "主胜", None)];
    let ttg = vec![prediction(Some(2), "巴西 vs 日本", "TTG 总进球", "7+球", None)];
    let no_id = vec![prediction(None, "巴西 vs 日本", "TTG 总进球", "7+球", None)];
    let other = vec![prediction(Some(3), "德国 vs 法国", "TTG 总进球", "7+球", None)];
    assert!(predictions_admitted(&had, &results, &[]));
    assert!(!predictions_admitted(&ttg, &results, &[]));
    assert!(predictions_admitted(&no_id, &results, &[]));
    assert!(predictions_admitted(&other, &results, &[]));
    let plan = plan_prediction_settlement(&had, &results, &[]);
    assert_eq!(plan.settled, 1);
    let rec = |market: &str| RecommendationToSettle {
        recommendation_id: 9,
        match_label: "巴西 vs 日本".to_string(),
        market: market.to_string(),
        pick: "主胜".to_string(),
    };
    assert!(recommendations_admitted(&[rec("HAD 胜平负")], &results));
    assert!(!recommendations_admitted(&[rec("TTG 总进球")], &results));
}

#[test]
fn checked_settlement_refuses_what_would_overflow() {
    let huge = vec![result("巴西", "日本", "4294967295:1")];
    let ttg = vec![prediction(Some(2), "巴西 vs 日本", "TTG 总进球", "7+球", None)];
    assert!(plan_prediction_settlement_checked(&ttg, &huge, &[]).is_none());
    let had = vec![prediction(Some(1), "巴西 vs 日本", "HAD 胜平负", "主胜", None)];
    let plan = plan_prediction_settlement_checked(&had, &huge, &[]).unwrap();
    assert_eq!(plan.settled, 1);
    let rec = |market: &str| RecommendationToSettle {
        recommendation_id: 9,
        match_label: "巴西 vs 日本".to_string(),
        market: market.to_string(),
        pick: "主胜".to_string(),
    };
    assert!(settle_recommendations_checked(&[rec("TTG 总进球")], &huge).is_none());
    let settled = settle_recommendations_checked(&[rec("HAD 胜平负")], &huge).unwrap();
    assert_eq!(settled.len(), 1);
    assert!(settled[0].hit);
}
