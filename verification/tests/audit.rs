use worldcup_odds::audit::{audit_pre_match_snapshots, count_severity, SnapshotAuditFacts};

fn facts(id: i64, match_id: &str, is_final: bool) -> SnapshotAuditFacts {
    SnapshotAuditFacts {
        snapshot_id: id,
        match_id: match_id.to_string(),
        kickoff_time: "2026-06-30 01:00:00".to_string(),
        snapshot_time: "2026-06-29T10:00:00Z".to_string(),
        created_before_kickoff: true,
        is_final_pre_match: is_final,
        linked_results: 0,
        odds_records: 3,
        odds_items: Some(3),
        model_prob_items: Some(3),
        ev_is_list: true,
        probability_sum_off: false,
        quality_missing: false,
        settled: false,
    }
}

fn types(issues: &[(Option<i64>, String, String, String, String)]) -> Vec<&str> {
    issues.iter().map(|issue| issue.2.as_str()).collect()
}

#[test]
fn clean_snapshot_raises_no_issue() {
    let issues = audit_pre_match_snapshots(&vec![facts(1, "m1", true)], 0);
    assert!(issues.is_empty());
}

#[test]
fn snapshot_after_kickoff_and_without_odds_is_flagged() {
    let mut late = facts(7, "m2", false);
    late.snapshot_time = "2026-06-30T02:00:00Z".to_string();
    late.odds_items = Some(0);
    late.model_prob_items = None;
    late.probability_sum_off = true;
    late.quality_missing = true;
    let issues = audit_pre_match_snapshots(&vec![late], 0);
    assert_eq!(
        types(&issues),
        vec![
            "after_kickoff_snapshot",
            "missing_odds",
            "missing_model_probs",
            "invalid_probability_sum",
            "missing_data_quality"
        ]
    );
    assert_eq!(issues[0].0, Some(7));
    assert_eq!(issues[0].1, "m2");
    assert_eq!(issues[0].3, "critical");
    assert_eq!(issues[1].3, "warning");
    assert_eq!(issues[4].3, "info");
    assert_eq!(count_severity(&issues, "critical"), 1);
    assert_eq!(count_severity(&issues, "warning"), 3);
}

#[test]
fn unlinked_and_unmatched_odds_are_flagged() {
    let mut blank = facts(3, "  ", false);
    blank.odds_records = 0;
    let issues = audit_pre_match_snapshots(&vec![blank], 0);
    assert_eq!(types(&issues), vec!["match_id_missing_or_unmatched", "odds_match_id_unmatched"]);
    let mut settled = facts(4, "m4", false);
    settled.settled = true;
    settled.ev_is_list = false;
    let issues = audit_pre_match_snapshots(&vec![settled], 0);
    assert_eq!(types(&issues), vec!["settlement_overwrite_risk"]);
    assert_eq!(issues[0].4, "赛后结算后发现冻结字段异常，存在覆盖风险。");
}

#[test]
fn duplicate_finals_and_invalid_paper_trades_are_flagged_once() {
    let snapshots = vec![
        facts(1, "m9", true),
        facts(2, "m1", true),
        facts(3, "m9", true),
        facts(4, "m1", true),
        facts(5, "m5", true),
        facts(6, "m5", false),
    ];
    let issues = audit_pre_match_snapshots(&snapshots, 2);
    assert_eq!(
        types(&issues),
        vec!["final_snapshot_conflict", "final_snapshot_conflict", "paper_trade_invalid"]
    );
    assert_eq!(issues[0].1, "m1");
    assert_eq!(issues[1].1, "m9");
    assert_eq!(issues[0].0, None);
    assert_eq!(issues[2].1, "live_pre_match");
    assert_eq!(count_severity(&issues, "critical"), 3);
}
