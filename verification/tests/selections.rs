use worldcup_odds::fixtures::{find_selection, has_market, selection_matches_snapshot, SelectionTarget};

fn target(match_id: &str, home: &str, away: &str) -> SelectionTarget {
    SelectionTarget {
        match_id: match_id.to_string(),
        match_num: String::new(),
        home: home.to_string(),
        away: away.to_string(),
    }
}

#[test]
fn selection_belongs_to_snapshot_by_id_or_teams() {
    assert!(selection_matches_snapshot(&target("m1", "法国", "德国"), "m1", "", ""));
    assert!(selection_matches_snapshot(&target("x", "Brazil", "Japan"), "m3", "巴西", "日本"));
    assert!(!selection_matches_snapshot(&target("x", "巴西", "日本"), "m3", "法国", "德国"));
}

#[test]
fn selections_are_found_by_market_prefix_and_pick() {
    let keys = vec![
        ("HAD 胜平负".to_string(), "主胜".to_string()),
        ("HHAD 让球胜平负 -1".to_string(), "让胜".to_string()),
        ("HHAD 让球胜平负 -1".to_string(), "让平".to_string()),
    ];
    assert_eq!(find_selection(&keys, "HHAD", "让平"), Some(2));
    assert_eq!(find_selection(&keys, "HAD", "主胜"), Some(0));
    assert_eq!(find_selection(&keys, "TTG", "2球"), None);
    let markets: Vec<String> = keys.iter().map(|(m, _)| m.clone()).collect();
    assert!(has_market(&markets, "HHAD"));
    assert!(!has_market(&markets, "CRS"));
    assert!(!has_market(&[], "HAD"));
}
