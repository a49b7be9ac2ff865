use worldcup_odds::line::HandicapLine;
use worldcup_odds::settlement::{parse_handicap_opt, parse_score, pick_hit_from_result, spf_from_score, ttg_pick_matches_total, MatchResult};

fn result(home: &str, away: &str, score: &str, half: &str, stage: &str, status: &str) -> MatchResult {
    MatchResult {
        home: home.to_string(),
        away: away.to_string(),
        score: score.to_string(),
        half_score: half.to_string(),
        stage: stage.to_string(),
        status: status.to_string(),
    }
}

#[test]
fn score_parser_accepts_colon_scores_only() {
    assert_eq!(parse_score("2:1"), Some((2, 1)));
    assert_eq!(parse_score(" 0:0 "), Some((0, 0)));
    assert_eq!(parse_score("2-1"), None);
}

#[test]
fn bet_recommendation_hit_parser_supports_core_play_types() {
    let result = MatchResult {
        home: "法国".to_string(),
        away: "德国".to_string(),
        score: "2:1".to_string(),
        half_score: "1:0".to_string(),
        stage: "淘汰赛".to_string(),
        status: "完场".to_string(),
    };
    assert_eq!(
        pick_hit_from_result("体彩HAD胜平负", "主胜", &result).unwrap(),
        (true, "主胜".to_string())
    );
    assert_eq!(
        pick_hit_from_result("体彩TTG总进球", "3球", &result).unwrap(),
        (true, "3球".to_string())
    );
    assert_eq!(
        pick_hit_from_result("体彩CRS比分", "2:1", &result).unwrap(),
        (true, "2:1".to_string())
    );
    assert_eq!(
        pick_hit_from_result("体彩HAD胜平负", "客胜", &result)
            .unwrap()
            .0,
        false
    );
}

#[test]
fn ttg_settlement_matches_exact_total_goals() {
    let cases = [
        ("0:0", "0球", true),
        ("1:0", "1球", true),
        ("0:1", "1球", true),
        ("1:1", "2球", true),
        ("2:0", "2球", true),
        ("0:2", "2球", true),
        ("2:1", "3球", true),
        ("1:2", "3球", true),
        ("3:0", "3球", true),
        ("0:3", "3球", true),
        ("3:1", "4球", true),
        ("3:2", "5球", true),
        ("3:3", "6球", true),
        ("4:2", "6+球", true),
        ("4:3", "7+球", true),
        ("1:1", "3球", false),
    ];
    for (score, pick, expected) in cases {
        let result = MatchResult {
            home: "荷兰".to_string(),
            away: "摩洛哥".to_string(),
            score: score.to_string(),
            half_score: String::new(),
            stage: "淘汰赛".to_string(),
            status: "完场".to_string(),
        };
        assert_eq!(
            pick_hit_from_result("预测中心-TTG总进球", pick, &result)
                .unwrap()
                .0,
            expected,
            "{score} should match {pick}={expected}"
        );
    }
}

#[test]
fn handicap_settlement_handles_minus_one_and_plus_one() {
    let win_by_two = MatchResult {
        home: "法国".to_string(),
        away: "德国".to_string(),
        score: "2:0".to_string(),
        half_score: "1:0".to_string(),
        stage: "淘汰赛".to_string(),
        status: "完场".to_string(),
    };
    assert_eq!(
        pick_hit_from_result("预测中心-HHAD让球胜平负 -1", "让胜", &win_by_two).unwrap(),
        (true, "让胜".to_string())
    );

    let win_by_one = MatchResult {
        score: "2:1".to_string(),
        ..win_by_two.clone()
    };
    assert_eq!(
        pick_hit_from_result("预测中心-HHAD让球胜平负 -1", "让平", &win_by_one).unwrap(),
        (true, "让平".to_string())
    );

    let draw = MatchResult {
        score: "1:1".to_string(),
        ..win_by_two.clone()
    };
    assert_eq!(
        pick_hit_from_result("预测中心-HHAD让球胜平负 -1", "让负", &draw).unwrap(),
        (true, "让负".to_string())
    );

    let home_draw_with_plus_one = MatchResult {
        score: "1:1".to_string(),
        ..win_by_two.clone()
    };
    assert_eq!(
        pick_hit_from_result("预测中心-HHAD让球胜平负 +1", "让胜", &home_draw_with_plus_one).unwrap(),
        (true, "让胜".to_string())
    );

    let home_loses_by_one_with_plus_one = MatchResult {
        score: "0:1".to_string(),
        ..win_by_two.clone()
    };
    assert_eq!(
        pick_hit_from_result("预测中心-HHAD让球胜平负 +1", "让平", &home_loses_by_one_with_plus_one).unwrap(),
        (true, "让平".to_string())
    );

    let home_loses_by_two_with_plus_one = MatchResult {
        score: "0:2".to_string(),
        ..win_by_two
    };
    assert_eq!(
        pick_hit_from_result("预测中心-HHAD让球胜平负 +1", "让负", &home_loses_by_two_with_plus_one).unwrap(),
        (true, "让负".to_string())
    );
}

#[test]
fn correct_score_settlement_uses_recorded_ninety_minute_score_only() {
    let result = MatchResult {
        home: "法国".to_string(),
        away: "德国".to_string(),
        score: "1:1".to_string(),
        half_score: "0:0".to_string(),
        stage: "淘汰赛".to_string(),
        status: "加时后2:1 点球不计入竞彩比分".to_string(),
    };
    assert_eq!(
        pick_hit_from_result("预测中心-比分参考", "1:1", &result).unwrap(),
        (true, "1:1".to_string())
    );
    assert_eq!(
        pick_hit_from_result("预测中心-比分参考", "2:1", &result).unwrap(),
        (false, "1:1".to_string())
    );
}

#[test]
fn handicap_market_is_not_misclassified_as_plain_spf() {
    let result = MatchResult {
        home: "德国".to_string(),
        away: "巴拉圭".to_string(),
        score: "1:1".to_string(),
        half_score: "0:0".to_string(),
        stage: "1/16决赛".to_string(),
        status: "结束".to_string(),
    };
    assert_eq!(
        pick_hit_from_result("预测中心-HHAD让球胜平负 -1", "让负", &result).unwrap(),
        (true, "让负".to_string())
    );
    assert_ne!(
        pick_hit_from_result("预测中心-HHAD让球胜平负 -1", "让平", &result)
            .unwrap()
            .1,
        "平局"
    );
}

#[test]
fn score_parser_edge_cases() {
    assert_eq!(parse_score("+3: 02"), Some((3, 2)));
    assert_eq!(parse_score("1:2:3"), None);
    assert_eq!(parse_score(":1"), None);
    assert_eq!(parse_score("4294967296:0"), None);
    assert_eq!(parse_score("4294967295:0"), Some((4294967295, 0)));
    assert_eq!(parse_score("-1:0"), None);
    assert_eq!(parse_score(""), None);
}

#[test]
fn spf_outcomes_cover_win_draw_loss() {
    assert_eq!(spf_from_score(2, 1), "主胜");
    assert_eq!(spf_from_score(1, 1), "平局");
    assert_eq!(spf_from_score(0, 3), "客胜");
}

fn number(negative: bool, digits: &str, fraction_digits: usize, exponent_negative: bool, exponent: &str) -> HandicapLine {
    HandicapLine::Number {
        negative,
        digits: digits.chars().collect(),
        fraction_digits,
        exponent_negative,
        exponent_digits: exponent.chars().collect(),
    }
}

#[test]
fn handicap_line_reads_last_word_as_a_float() {
    assert_eq!(parse_handicap_opt("HHAD 让球胜平负 -1"), Some(number(true, "1", 0, false, "")));
    assert_eq!(parse_handicap_opt("HHAD 让球胜平负 +1"), Some(number(false, "1", 0, false, "")));
    assert_eq!(parse_handicap_opt("HHAD -0.5"), Some(number(true, "05", 1, false, "")));
    assert_eq!(parse_handicap_opt("预测中心-HHAD让球胜平负"), None);
    assert_eq!(parse_handicap_opt(""), None);
    assert_eq!(parse_handicap_opt("HHAD 1.2.3"), None);
}

#[test]
fn handicap_line_takes_exponents_infinities_and_nan() {
    assert_eq!(parse_handicap_opt("HHAD 1e0"), Some(number(false, "1", 0, false, "0")));
    assert_eq!(parse_handicap_opt("HHAD -2.5E-1"), Some(number(true, "25", 1, true, "1")));
    assert_eq!(parse_handicap_opt("HHAD .5"), Some(number(false, "5", 1, false, "")));
    assert_eq!(parse_handicap_opt("HHAD 1."), Some(number(false, "1", 0, false, "")));
    assert_eq!(parse_handicap_opt("HHAD 0.1234567890123"), Some(number(false, "01234567890123", 13, false, "")));
    assert_eq!(parse_handicap_opt("HHAD inf"), Some(HandicapLine::Infinity { negative: false }));
    assert_eq!(parse_handicap_opt("HHAD -Infinity"), Some(HandicapLine::Infinity { negative: true }));
    assert_eq!(parse_handicap_opt("HHAD NaN"), Some(HandicapLine::NotANumber));
    assert_eq!(parse_handicap_opt("HHAD 1e"), None);
    assert_eq!(parse_handicap_opt("HHAD e5"), None);
    assert_eq!(parse_handicap_opt("HHAD ."), None);
    assert_eq!(parse_handicap_opt("HHAD infin"), None);
}

#[test]
fn exponent_and_special_lines_settle() {
    let win_by_one = result("A", "B", "2:1", "", "", "");
    assert_eq!(pick_hit_from_result("HHAD 让球 -1e0", "让平", &win_by_one).unwrap(), (true, "让平".to_string()));
    assert_eq!(pick_hit_from_result("HHAD 让球 -5e-1", "让胜", &win_by_one).unwrap(), (true, "让胜".to_string()));
    assert_eq!(pick_hit_from_result("HHAD 让球 -1.5e0", "让负", &win_by_one).unwrap(), (true, "让负".to_string()));
    assert_eq!(pick_hit_from_result("HHAD 让球 -1e400", "让负", &win_by_one).unwrap(), (true, "让负".to_string()));
    assert_eq!(pick_hit_from_result("HHAD 让球 1e-400", "让平", &result("A", "B", "0:0", "", "", "")).unwrap(), (true, "让平".to_string()));
    assert_eq!(pick_hit_from_result("HHAD 让球 -inf", "让负", &win_by_one).unwrap(), (true, "让负".to_string()));
    assert_eq!(pick_hit_from_result("HHAD 让球 inf", "让胜", &win_by_one).unwrap(), (true, "让胜".to_string()));
    assert_eq!(pick_hit_from_result("HHAD 让球 nan", "让负", &win_by_one).unwrap(), (true, "让负".to_string()));
    assert_eq!(pick_hit_from_result("HHAD 让球 -0.995", "让平", &win_by_one).unwrap(), (true, "让平".to_string()));
    assert_eq!(pick_hit_from_result("HHAD 让球 -0.98", "让胜", &win_by_one).unwrap(), (true, "让胜".to_string()));
    assert_eq!(pick_hit_from_result("HHAD 让球 -1.0000000000000001e0", "让平", &win_by_one).unwrap(), (true, "让平".to_string()));
}

#[test]
fn half_goal_handicap_never_pushes() {
    let r = result("A", "B", "1:1", "", "", "");
    assert_eq!(
        pick_hit_from_result("HHAD 让球 -0.5", "让负", &r).unwrap(),
        (true, "让负".to_string())
    );
    assert_eq!(
        pick_hit_from_result("HHAD 让球 +0.5", "让胜", &r).unwrap(),
        (true, "让胜".to_string())
    );
}

#[test]
fn settlement_refuses_unknown_markets_and_bad_scores() {
    let r = result("A", "B", "2:1", "", "", "");
    assert_eq!(pick_hit_from_result("HAFU 半全场", "胜胜", &r), None);
    assert_eq!(pick_hit_from_result("让球胜平负", "让胜", &r), None);
    let bad = result("A", "B", "2-1", "", "", "");
    assert_eq!(pick_hit_from_result("HAD 胜平负", "主胜", &bad), None);
}

#[test]
fn total_goal_picks_normalise_full_width_and_ranges() {
    assert!(ttg_pick_matches_total(" ７＋ ", 9));
    assert!(!ttg_pick_matches_total("7以上", 6));
    assert!(ttg_pick_matches_total("６以上", 6));
    assert!(ttg_pick_matches_total("TTG 2球", 2));
    assert!(!ttg_pick_matches_total("球", 0));
    let r = result("A", "B", "5:4", "", "", "");
    assert_eq!(
        pick_hit_from_result("TTG", "7+球", &r).unwrap(),
        (true, "7+球".to_string())
    );
}

#[test]
fn spaced_score_and_dashed_pick_read_the_same() {
    assert_eq!(parse_score(" 2 : 1 "), Some((2, 1)));
    assert_eq!(parse_score("10:0"), Some((10, 0)));
}

#[test]
fn counted_and_open_goal_picks() {
    assert!(ttg_pick_matches_total("3球", 3));
    assert!(!ttg_pick_matches_total("3球", 4));
    assert!(ttg_pick_matches_total("7+球", 9));
    assert!(!ttg_pick_matches_total("7+球", 6));
    assert!(ttg_pick_matches_total("6+球", 6));
    assert!(!ttg_pick_matches_total("", 0));
}
