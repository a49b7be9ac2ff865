use worldcup_odds::results::{
    between_all, parse_player_status_csv, parse_results_csv, parse_team_stats_csv, parse_zgzcw_results, results_latest_first,
    strip_tags, ResultsCsvError,
};
use worldcup_odds::settlement::MatchResult;

#[test]
fn result_center_orders_latest_source_rows_first() {
    let rows = vec![
        MatchResult {
            home: "南非".to_string(),
            away: "加拿大".to_string(),
            score: "0:1".to_string(),
            half_score: "0:0".to_string(),
            stage: "1/16决赛".to_string(),
            status: "结束".to_string(),
        },
        MatchResult {
            home: "巴西".to_string(),
            away: "日本".to_string(),
            score: "2:1".to_string(),
            half_score: "1:0".to_string(),
            stage: "1/16决赛".to_string(),
            status: "结束".to_string(),
        },
    ];
    let sorted = results_latest_first(rows);
    assert_eq!(sorted[0].home, "巴西");
    assert_eq!(sorted[1].home, "南非");
}

#[test]
fn result_csv_import_skips_invalid_rows() {
    let csv = "home,away,score,stage,status,half_score\n法国,德国,2:1,世界杯,完场,1:0\n空队,坏行,abc,世界杯,完场,";
    let rows = match parse_results_csv(csv) {
        Ok(rows) => rows,
        Err(_) => panic!("csv should parse"),
    };
    assert_eq!(rows.len(), 1);
    assert_eq!(rows[0].home, "法国");
    assert_eq!(rows[0].score, "2:1");
}

#[test]
fn result_csv_defaults_and_chinese_headers() {
    let csv = "主队,客队,比分\n巴西, 日本 ,2:1\n";
    let rows = match parse_results_csv(csv) {
        Ok(rows) => rows,
        Err(_) => panic!("csv should parse"),
    };
    assert_eq!(rows.len(), 1);
    assert_eq!(rows[0].away, "日本");
    assert_eq!(rows[0].stage, "历史样本");
    assert_eq!(rows[0].status, "完场");
    assert_eq!(rows[0].half_score, "");
}

#[test]
fn result_csv_reports_missing_columns() {
    match parse_results_csv("home,score\nA,1:0\n") {
        Err(e) => {
            assert!(matches!(e, ResultsCsvError::MissingAway));
            assert_eq!(e.missing_column_message(), Some("CSV缺少 away/客队 列"));
        }
        Ok(_) => panic!("missing away column must be refused"),
    }
    assert!(matches!(parse_results_csv("x\n1\n"), Err(ResultsCsvError::MissingHome)));
    assert!(matches!(parse_results_csv("HOME,Away\nA,B\n"), Err(ResultsCsvError::MissingScore)));
}

#[test]
fn strip_tags_removes_markup_and_entities() {
    assert_eq!(strip_tags("<td class=\"a\">巴西&nbsp;&amp; <b>日本</b></td>"), "巴西 & 日本");
    assert_eq!(strip_tags("  a \n  b  "), "a b");
    assert_eq!(strip_tags(""), "");
}

#[test]
fn between_all_collects_delimited_pieces() {
    assert_eq!(between_all("<a>1</a><a>2</a><a>3", "<a>", "</a>"), vec!["1", "2"]);
    assert!(between_all("nothing", "<a>", "</a>").is_empty());
}

#[test]
fn zgzcw_table_rows_become_results() {
    let html = "<table><tr><td>1</td><td>1/16决赛</td><td>完</td><td class=\"team1\">巴西</td><td>2:1</td><td class=\"team2\">日本</td><td>1:0</td></tr>\
<tr><td>x</td></tr>\
<tr><td>2</td><td>1/16决赛</td><td>完</td><td class=\"team1\">南非</td><td>vs</td><td class=\"team2\">加拿大</td></tr></table>";
    let rows = parse_zgzcw_results(html);
    assert_eq!(rows.len(), 1);
    assert_eq!(rows[0].home, "class=\"team1\" 巴西");
    assert_eq!(rows[0].away, "class=\"team2\" 日本");
    assert_eq!(rows[0].score, "2:1");
    assert_eq!(rows[0].half_score, "1:0");
    assert_eq!(rows[0].stage, "1/16决赛");
    assert_eq!(rows[0].status, "完");
}

#[test]
fn player_status_csv_keeps_named_players_only() {
    let csv = "Team,球员,STATUS,position,重要性\n巴西,内马尔,伤疑,FW,1.5\n巴西,,首发,MF,1\n日本,三笘薰, 首发 ,MF,high\n";
    let rows = parse_player_status_csv(csv).ok().unwrap();
    assert_eq!(rows.len(), 2);
    assert_eq!(rows[0].team, "巴西");
    assert_eq!(rows[0].player, "内马尔");
    assert_eq!(rows[0].status, "伤疑");
    assert_eq!(rows[0].position, "FW");
    assert_eq!(rows[0].importance, Some("1.5".to_string()));
    assert_eq!(rows[0].starter, "");
    assert_eq!(rows[1].status, "首发");
    assert_eq!(rows[1].importance, Some("high".to_string()));
    let short = parse_player_status_csv("team,player,status,importance\n法国,姆巴佩,首发\n").ok().unwrap();
    assert_eq!(short[0].importance, None);
}

#[test]
fn player_status_csv_requires_its_columns() {
    let missing = |text: &str| parse_player_status_csv(text).err().and_then(|e| e.missing_column_message());
    assert_eq!(missing("player,status\nA,B\n"), Some("CSV缺少 team/球队 列"));
    assert_eq!(missing("team,status\nA,B\n"), Some("CSV缺少 player/球员 列"));
    assert_eq!(missing("team,player\nA,B\n"), Some("CSV缺少 status/状态 列"));
    assert!(matches!(parse_player_status_csv("team,player,status\n"), Ok(rows) if rows.is_empty()));
}

#[test]
fn team_stats_csv_reads_each_statistic_column() {
    let csv = "球队,场次,xG,xga,Shots\n巴西,4,7.5,2.1,60\n,3,1,1,1\n日本,2\n";
    let rows = parse_team_stats_csv(csv).ok().unwrap();
    assert_eq!(rows.len(), 2);
    assert_eq!(rows[0].team, "巴西");
    assert_eq!(rows[0].matches, Some("4".to_string()));
    assert_eq!(rows[0].xg, Some("7.5".to_string()));
    assert_eq!(rows[0].xga, Some("2.1".to_string()));
    assert_eq!(rows[0].shots, Some("60".to_string()));
    assert_eq!(rows[0].shots_on_target, None);
    assert_eq!(rows[1].team, "日本");
    assert_eq!(rows[1].matches, Some("2".to_string()));
    assert_eq!(rows[1].xg, None);
    assert_eq!(
        parse_team_stats_csv("name,xg\nA,1\n").err().and_then(|e| e.missing_column_message()),
        Some("CSV缺少 team/球队 列")
    );
}

#[test]
fn stripped_text_is_trimmed_and_single_spaced() {
    let text = strip_tags("  <td>\n<b>巴西</b>&nbsp;&nbsp;vs\t日本 </td> ");
    assert_eq!(text, "巴西 vs 日本");
    assert_eq!(text, text.trim());
    assert!(!text.contains("  "));
    assert!(text.chars().all(|c| c == ' ' || !c.is_whitespace()));
}
