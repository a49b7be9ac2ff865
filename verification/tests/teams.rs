use worldcup_odds::settlement::{pick_hit_from_result, MatchResult};
use worldcup_odds::teams::{
    canonical_team_name, match_labels_refer_to_same_match, normalize, normalize_cn_name,
    ranked_team_label, result_matches_prediction, team_aliases, team_matches, team_rank,
};

#[test]
fn english_team_names_are_canonicalized_for_global_matching() {
    assert_eq!(canonical_team_name("Brazil"), "巴西");
    assert_eq!(canonical_team_name("Germany"), "德国");
    assert_eq!(canonical_team_name("Korea Republic"), "韩国");
    assert!(team_matches("Brazil", "巴西"));
}

#[test]
fn auto_settle_parser_supports_prediction_center_and_simulation_markets() {
    let result = MatchResult {
        home: "class=\"team1\" 巴西".to_string(),
        away: "class=\"team2\" 日本".to_string(),
        score: "2:1".to_string(),
        half_score: "1:0".to_string(),
        stage: "1/16决赛".to_string(),
        status: "结束".to_string(),
    };
    assert!(result_matches_prediction(&result, "巴西 vs 日本"));
    assert_eq!(
        pick_hit_from_result("预测中心-HAD胜平负", "主胜", &result).unwrap(),
        (true, "主胜".to_string())
    );
    assert_eq!(
        pick_hit_from_result("预测中心-TTG总进球", "3球", &result).unwrap(),
        (true, "3球".to_string())
    );
    assert_eq!(
        pick_hit_from_result("预测中心-比分参考", "2:1", &result).unwrap(),
        (true, "2:1".to_string())
    );
    assert_eq!(
        pick_hit_from_result("模拟对决-HAD胜平负", "客胜", &result)
            .unwrap()
            .0,
        false
    );
}

#[test]
fn normalize_lowercases_and_collapses_spaces() {
    assert_eq!(normalize("  Côte   D'Ivoire! "), "côte divoire");
    assert_eq!(normalize("KOREA\tRepublic"), "korearepublic");
    assert_eq!(normalize(""), "");
}

#[test]
fn unknown_names_are_trimmed_and_kept() {
    assert_eq!(canonical_team_name("  Atlantis FC "), "Atlantis FC");
    assert_eq!(canonical_team_name("法国（欧洲）"), "法国");
}

#[test]
fn ranking_and_labels_use_bare_names() {
    assert_eq!(team_rank("巴西（南美）"), Some(6));
    assert_eq!(team_rank("Atlantis"), None);
    assert_eq!(ranked_team_label("巴西(南美)"), "巴西（第6）");
    assert_eq!(ranked_team_label("Atlantis"), "Atlantis");
}

#[test]
fn feed_markup_is_removed_from_chinese_names() {
    assert_eq!(normalize_cn_name("class=\"team1\" 巴西（主）"), "巴西");
    assert_eq!(team_aliases("荷兰"), vec!["netherlands", "holland"]);
    assert!(team_aliases("Atlantis").is_empty());
}

#[test]
fn labels_match_side_by_side() {
    assert!(match_labels_refer_to_same_match("Brazil vs Japan", "巴西 vs 日本"));
    assert!(!match_labels_refer_to_same_match("Japan vs Brazil", "巴西 vs 日本"));
    assert!(!match_labels_refer_to_same_match("巴西", "巴西 vs 日本"));
}

#[test]
fn team_matching_is_reflexive_on_a_sample() {
    for name in ["巴西", "Brazil", "Atlantis FC", ""] {
        assert!(team_matches(name, name));
    }
}

#[test]
fn normalized_names_are_single_spaced_alphanumerics() {
    let n = normalize("  Côte d'Ivoire \t FC ");
    assert_eq!(n, "côte divoire fc");
    assert!(n.chars().all(|c| c == ' ' || c.is_alphanumeric()));
    assert_eq!(n, n.trim());
    assert!(!n.contains("  "));
}

#[test]
fn unmatched_names_fall_back_to_the_trimmed_input() {
    assert_eq!(canonical_team_name("  Atlantis United  "), "Atlantis United");
    assert_eq!(canonical_team_name("巴西"), "巴西");
    assert_eq!(canonical_team_name("Brazil"), "巴西");
}
